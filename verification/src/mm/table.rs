//! Typed translation table descriptors with memory attributes.
use vstd::prelude::*;
use crate::mmu::{shift_of, entry_size_of, level_mask, table_mask, block_type_bits, block_bits, table_bits, known_kind};

verus! {

/// Number of descriptors in one translation table.
pub const TABLE_ENTRY_COUNT: usize = 512;

/// What the low two bits of a descriptor say it is.
#[derive(PartialEq, Eq, Structural, Debug, Clone, Copy)]
pub enum DescriptorKind {
    Invalid,
    Table,
    Block,
}

#[derive(PartialEq, Eq, Structural, Debug, Clone, Copy)]
pub enum AccessPermissions {
    ReadOnly,
    ReadWrite,
}

#[derive(PartialEq, Eq, Structural, Debug, Clone, Copy)]
pub enum Execution {
    Executable,
    NonExecutable,
}

pub struct MemoryAttributes {
    pub permissions: AccessPermissions,
    pub execution: Execution,
}

/// One 64-bit translation table entry.
#[derive(Clone, Copy, PartialEq, Eq, Structural, Debug)]
pub struct Descriptor(pub u64);

pub open spec fn kind_spec(bits: u64) -> DescriptorKind {
    if bits & 3 == 0 {
        DescriptorKind::Invalid
    } else if bits & 3 == 1 {
        DescriptorKind::Block
    } else {
        DescriptorKind::Table
    }
}

pub open spec fn addr_spec(bits: u64, level: u8) -> u64 {
    match kind_spec(bits) {
        DescriptorKind::Invalid => 0,
        DescriptorKind::Block => bits & level_mask(level),
        DescriptorKind::Table => bits & table_mask(),
    }
}

/// Execute-never bits (UXN and PXN, bits 54 and 53) for `xn`.
pub open spec fn xn_bits(xn: bool) -> u64 {
    if xn { 1u64 << 54u64 | 1u64 << 53u64 } else { 0 }
}

/// Attribute bits: bit 2 for read-only, and bit 0.
pub open spec fn perm_bits(read_only: bool) -> u64 {
    (if read_only { 1u64 } else { 0u64 }) << 2u64 | 1
}

/// The word of a block descriptor for `addr` at `level` with attributes.
pub open spec fn attr_block_bits(addr: u64, level: u8, attrs: MemoryAttributes) -> u64 {
    addr & level_mask(level)
        | xn_bits(attrs.execution == Execution::NonExecutable)
        | perm_bits(attrs.permissions == AccessPermissions::ReadOnly)
        | 1u64 << 10u64
        | block_type_bits(level)
}

impl Descriptor {
    /// The raw word.
    pub fn bits(self) -> (r: u64)
        ensures
            r == self.0,
    {
        self.0
    }

    /// The type of the descriptor.
    pub fn kind(self) -> (r: DescriptorKind)
        requires
            known_kind(self.0),
        ensures
            r == kind_spec(self.0),
            self.0 & 3 == 0 ==> r == DescriptorKind::Invalid,
            self.0 & 3 == 1 ==> r == DescriptorKind::Block,
            self.0 & 3 == 3 ==> r == DescriptorKind::Table,
    {
        let kind = self.bits() & 0b11;
        match kind {
            0 => DescriptorKind::Invalid,
            1 => DescriptorKind::Block,
            _ => DescriptorKind::Table,
        }
    }

    /// The output address held, read as an entry at `level`; 0 when invalid.
    pub fn addr(self, level: u8) -> (r: u64)
        requires
            known_kind(self.0),
            self.0 & 3 == 1 ==> level <= 3,
        ensures
            r == addr_spec(self.0, level),
    {
        let bits = self.bits();
        match self.kind() {
            DescriptorKind::Invalid => 0,
            DescriptorKind::Block => bits & (u64::MAX << level_shift(level)),
            DescriptorKind::Table => bits & (u64::MAX << 12u8),
        }
    }

    /// The entry that maps nothing.
    pub fn invalid() -> (r: Self)
        ensures
            r.0 == 0,
    {
        Self(0)
    }

    /// A block entry for `addr` at `level` with the given permissions and
    /// execution rights, access flag set.
    pub fn block(addr: u64, level: u8, attrs: &MemoryAttributes) -> (r: Self)
        requires
            level <= 3,
        ensures
            r.0 == attr_block_bits(addr, level, *attrs),
    {
        let kind_bits: u64 = if level == 3 { 0b11 } else { 0b01 };
        let read_only: u64 = if attrs.permissions == AccessPermissions::ReadOnly { 1 } else { 0 };
        let permission_bits = read_only << 2u64 | 1;
        let xn_bit: u64 = if attrs.execution == Execution::NonExecutable { 1 } else { 0 };
        let execution_bits = xn_bit << 54u64 | xn_bit << 53u64;
        proof {
            assert(0u64 << 54u64 | 0u64 << 53u64 == 0) by (bit_vector);
        }
        Self(
            addr & (u64::MAX << level_shift(level))
                | execution_bits
                | permission_bits
                | 1u64 << 10u64
                | kind_bits,
        )
    }

    /// A table entry pointing at the next-level table at `addr`.
    pub fn table(addr: u64) -> (r: Self)
        ensures
            r.0 == table_bits(addr),
    {
        Self(addr & (u64::MAX << 12u8) | 0b11)
    }
}

impl From<Descriptor> for u64 {
    fn from(desc: Descriptor) -> (r: u64) {
        desc.0
    }
}

impl vstd::std_specs::convert::FromSpecImpl<Descriptor> for u64 {
    open spec fn obeys_from_spec() -> bool {
        true
    }

    open spec fn from_spec(desc: Descriptor) -> u64 {
        desc.0
    }
}

/// Address shift of a translation level (0 to 3).
pub fn level_shift(level: u8) -> (r: u8)
    requires
        level <= 3,
    ensures
        r == shift_of(level),
{
    match level {
        0 => 39,
        1 => 30,
        2 => 21,
        _ => 12,
    }
}

/// Size of the region one entry of a translation level maps. The level-0
/// size, 512 GiB, is a `usize` only where `usize` has 64 bits.
pub fn level_entry_size(level: u8) -> (r: usize)
    requires
        level <= 3,
        level == 0 ==> usize::BITS == 64,
    ensures
        r == entry_size_of(level),
{
    match level {
        0 => 0x80_0000_0000u64 as usize,
        1 => 0x4000_0000,
        2 => 0x20_0000,
        _ => 0x1000,
    }
}

proof fn lemma_split_fields(addr: u64, s: u8, hi: u64, low: u64)
    requires
        12 <= s <= 39,
        low < 0x800,
        hi == 0 || hi == 0x60_0000_0000_0000,
    ensures
        (addr & (u64::MAX << s) | hi | low) & (u64::MAX << s) == addr & (u64::MAX << s) | hi,
        (addr & (u64::MAX << s) | hi | low) & 0x7ff == low,
        addr & 0x60_0000_0000_0000 == 0 ==> (addr & (u64::MAX << s) | hi | low) & 0x40_0000_0000_0000 == hi & 0x40_0000_0000_0000,
        addr & 0x60_0000_0000_0000 == 0 ==> (addr & (u64::MAX << s) | hi | low) & 0x20_0000_0000_0000 == hi & 0x20_0000_0000_0000,
{
    assert((addr & (u64::MAX << s) | hi | low) & (u64::MAX << s) == addr & (u64::MAX << s) | hi
        && (addr & (u64::MAX << s) | hi | low) & 0x7ff == low && (addr & 0x60_0000_0000_0000 == 0
        ==> (addr & (u64::MAX << s) | hi | low) & 0x40_0000_0000_0000 == hi & 0x40_0000_0000_0000
        && (addr & (u64::MAX << s) | hi | low) & 0x20_0000_0000_0000 == hi & 0x20_0000_0000_0000))
        by (bit_vector)
        requires 12 <= s <= 39, low < 0x800, hi == 0 || hi == 0x60_0000_0000_0000;
}

/// The low attribute and type bits of a block entry.
spec fn block_low_bits(level: u8, read_only: bool) -> u64 {
    perm_bits(read_only) | 1u64 << 10u64 | block_type_bits(level)
}

proof fn lemma_block_layout(addr: u64, level: u8, attrs: MemoryAttributes)
    requires
        level <= 3,
    ensures
        attr_block_bits(addr, level, attrs) == addr & level_mask(level) | xn_bits(
            attrs.execution == Execution::NonExecutable,
        ) | block_low_bits(level, attrs.permissions == AccessPermissions::ReadOnly),
        block_low_bits(level, attrs.permissions == AccessPermissions::ReadOnly) == (if attrs.permissions
            == AccessPermissions::ReadOnly {
            0x404u64
        } else {
            0x400u64
        }) | block_type_bits(level) | 1,
        xn_bits(attrs.execution == Execution::NonExecutable) == (if attrs.execution
            == Execution::NonExecutable {
            0x60_0000_0000_0000u64
        } else {
            0u64
        }),
{
    assert(forall|a: u64, b: u64, c: u64| (a | b) | c == a | (b | c)) by (bit_vector);
    assert(1u64 << 54u64 | 1u64 << 53u64 == 0x60_0000_0000_0000u64 && 1u64 << 10u64 == 0x400
        && 1u64 << 2u64 | 1 == 5 && 0u64 << 2u64 | 1 == 1 && (forall|k: u64|
        (5u64 | 0x400 | k) == (0x404u64 | k | 1)) && (forall|k: u64| (1u64 | 0x400 | k) == (
    0x400u64 | k | 1))) by (bit_vector);
}

/// What a block entry reads back as, for every attribute choice: at levels
/// 0 to 2 a block, at level 3 a page (which shares the table encoding); its
/// address is the one given with the bits below the level's shift cleared,
/// plus the execute-never bits; bit 2 is set exactly for read-only
/// mappings, both execute-never bits exactly for non-executable ones (where
/// the address itself leaves those two bits clear), and the access flag is
/// set.
pub proof fn lemma_block_readback(addr: u64, level: u8, attrs: MemoryAttributes)
    requires
        level <= 3,
    ensures
        ({
            let d = attr_block_bits(addr, level, attrs);
            &&& known_kind(d)
            &&& kind_spec(d) == (if level == 3 {
                DescriptorKind::Table
            } else {
                DescriptorKind::Block
            })
            &&& addr_spec(d, level) == addr & level_mask(level) | xn_bits(
                attrs.execution == Execution::NonExecutable,
            )
            &&& (d & 4 != 0) == (attrs.permissions == AccessPermissions::ReadOnly)
            &&& addr & 0x60_0000_0000_0000 == 0 ==> (d & 0x40_0000_0000_0000 != 0) == (
            attrs.execution == Execution::NonExecutable)
            &&& addr & 0x60_0000_0000_0000 == 0 ==> (d & 0x20_0000_0000_0000 != 0) == (
            attrs.execution == Execution::NonExecutable)
            &&& d & 0x400 != 0
        }),
{
    lemma_block_layout(addr, level, attrs);
    let ro = attrs.permissions == AccessPermissions::ReadOnly;
    let low = block_low_bits(level, ro);
    let hi = xn_bits(attrs.execution == Execution::NonExecutable);
    assert(low < 0x800 && low & 3 == block_type_bits(level) && (low & 4 != 0) == ro
        && low & 0x400 != 0) by {
        assert((forall|k: u64| k <= 3 ==> (0x404u64 | k | 1) < 0x800 && (0x404u64 | k | 1) & 4 != 0
            && (0x404u64 | k | 1) & 0x400 != 0) && (forall|k: u64| k <= 3 ==> (0x400u64 | k | 1)
            < 0x800 && (0x400u64 | k | 1) & 4 == 0 && (0x400u64 | k | 1) & 0x400 != 0) && (0x404u64
            | 1 | 1) & 3 == 1 && (0x404u64 | 3 | 1) & 3 == 3 && (0x400u64 | 1 | 1) & 3 == 1 && (
        0x400u64 | 3 | 1) & 3 == 3) by (bit_vector);
    }
    lemma_split_fields(addr, shift_of(level), hi, low);
    let d = attr_block_bits(addr, level, attrs);
    assert(d & 3 == low & 3 && d & 4 == low & 4 && d & 0x400 == low & 0x400) by {
        assert(forall|x: u64, y: u64| x & 0x7ff == y ==> x & 3 == y & 3 && x & 4 == y & 4
            && x & 0x400 == y & 0x400) by (bit_vector);
    }
    assert(0x60_0000_0000_0000u64 & 0x40_0000_0000_0000 != 0
        && 0x60_0000_0000_0000u64 & 0x20_0000_0000_0000 != 0 && 0u64 & 0x40_0000_0000_0000 == 0
        && 0u64 & 0x20_0000_0000_0000 == 0) by (bit_vector);
    if level == 3 {
        assert(table_mask() == level_mask(3));
    }
}

/// A read-write, executable block is the same word that the attribute-free
/// block constructor of the raw descriptor module builds.
pub proof fn lemma_block_matches_raw(addr: u64, level: u8)
    requires
        level <= 3,
    ensures
        attr_block_bits(
            addr,
            level,
            MemoryAttributes {
                permissions: AccessPermissions::ReadWrite,
                execution: Execution::Executable,
            },
        ) == block_bits(addr, level),
{
    let attrs = MemoryAttributes {
        permissions: AccessPermissions::ReadWrite,
        execution: Execution::Executable,
    };
    lemma_block_layout(addr, level, attrs);
    assert(1u64 << 10u64 == 0x400 && forall|a: u64, k: u64| k == 1 || k == 3 ==> (a | 0u64 | (
    0x400u64 | k | 1)) == (a | 0x400u64 | k)) by (bit_vector);
}

/// A table entry reads back as a table whose address is the one written,
/// with its low 12 bits cleared, at every level.
pub proof fn lemma_table_readback(addr: u64, level: u8)
    ensures
        known_kind(table_bits(addr)),
        kind_spec(table_bits(addr)) == DescriptorKind::Table,
        addr_spec(table_bits(addr), level) == addr & table_mask(),
{
    lemma_split_fields(addr, 12, 0, 3);
    assert((forall|a: u64| (a | 0u64 | 3) == (a | 3)) && (forall|x: u64| x & 0x7ff == 3 ==> x & 3
        == 3) && (forall|a: u64| (a | 0u64) == a)) by (bit_vector);
}

/// The invalid entry reads back as invalid with address 0.
pub proof fn lemma_invalid_readback(level: u8)
    ensures
        known_kind(0),
        kind_spec(0) == DescriptorKind::Invalid,
        addr_spec(0, level) == 0,
{
    assert(0u64 & 3 == 0) by (bit_vector);
}

/// The kind of a descriptor is fixed by its low two bits alone: `0b00` is
/// invalid, `0b01` a block, `0b11` a table, whatever the other 62 bits
/// hold; an invalid descriptor holds no address.
pub proof fn lemma_kind_from_low_bits(b: u64, c: u64, level: u8)
    ensures
        b & 3 == c & 3 ==> kind_spec(b) == kind_spec(c),
        b & 3 == 0 ==> kind_spec(b) == DescriptorKind::Invalid && addr_spec(b, level) == 0,
        b & 3 == 1 ==> kind_spec(b) == DescriptorKind::Block,
        b & 3 == 3 ==> kind_spec(b) == DescriptorKind::Table,
{
}

} // verus!
