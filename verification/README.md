# kernel

The verified core of a small AArch64 kernel, written in Verus.

- `align`: rounding addresses up and down to a boundary.
- `mmu`, `mm::table`: translation table descriptors, raw and typed, with
  laws on what a descriptor reads back as.
- `mm::table_alloc`: the bitmap of the translation table pool.
- `boot::map`: the boot-time identity mapping, with the law that a mapped
  block translates each of its addresses to itself.
- `boot::dtb`: the flattened device tree parser.
- `drivers::pl011`: the PL011 UART's register map and the decisions of its
  driver, as steps that the caller feeds with register values.
- `sync`: the spinlock state.
- `builtins`: the freestanding memory routines over byte slices.

`app/` holds what runs around the library on the machine: linker symbols,
raw memory, MMIO accesses and the C ABI entry points.
