//! Raw AArch64 translation table descriptors handled as plain `u64` words.
use vstd::prelude::*;
use vstd::arithmetic::power2::{pow2, lemma2_to64, lemma2_to64_rest};

verus! {

/// What the low two bits of a descriptor say it is.
#[derive(PartialEq, Eq, Structural, Debug, Clone, Copy)]
pub enum DescriptorKind {
    Invalid,
    Table,
    Block,
}

/// Position of the lowest address bit that an entry at `level` resolves.
pub open spec fn shift_of(level: u8) -> u8 {
    if level == 0 {
        39
    } else if level == 1 {
        30
    } else if level == 2 {
        21
    } else {
        12
    }
}

/// Bytes of address space that one entry at `level` maps.
pub open spec fn entry_size_of(level: u8) -> nat {
    if level == 0 {
        0x80_0000_0000
    } else if level == 1 {
        0x4000_0000
    } else if level == 2 {
        0x20_0000
    } else {
        0x1000
    }
}

/// The address bits that an entry at `level` keeps.
pub open spec fn level_mask(level: u8) -> u64 {
    u64::MAX << shift_of(level)
}

/// The address bits of a next-level table pointer.
pub open spec fn table_mask() -> u64 {
    u64::MAX << 12u8
}

/// Type bits of a block entry: a level-3 entry is a page, which AArch64
/// encodes as `0b11`.
pub open spec fn block_type_bits(level: u8) -> u64 {
    if level == 3 { 3 } else { 1 }
}

/// The word of a table descriptor pointing at `addr`.
pub open spec fn table_bits(addr: u64) -> u64 {
    addr & table_mask() | 3
}

/// The word of a block descriptor for `addr` at `level`, access flag set.
pub open spec fn block_bits(addr: u64, level: u8) -> u64 {
    addr & level_mask(level) | 1u64 << 10u64 | block_type_bits(level)
}

/// `desc` has a type that the kernel knows (`0b10` is reserved).
pub open spec fn known_kind(desc: u64) -> bool {
    desc & 3 != 2
}

pub open spec fn kind_of(desc: u64) -> DescriptorKind {
    if desc & 3 == 0 {
        DescriptorKind::Invalid
    } else if desc & 3 == 1 {
        DescriptorKind::Block
    } else {
        DescriptorKind::Table
    }
}

/// The output address that `desc` holds, read as an entry at `level`.
pub open spec fn addr_of(desc: u64, level: u8) -> u64 {
    match kind_of(desc) {
        DescriptorKind::Invalid => 0,
        DescriptorKind::Block => desc & level_mask(level),
        DescriptorKind::Table => desc & table_mask(),
    }
}

/// Address shift of a translation level (0 to 3).
pub fn level_shift(level: u8) -> (r: u8)
    requires
        level <= 3,
    ensures
        r == shift_of(level),
{
    match level {
        0 => 39,
        1 => 30,
        2 => 21,
        _ => 12,
    }
}

/// Size of the region one entry of a translation level maps. The level-0
/// size, 512 GiB, is a `usize` only where `usize` has 64 bits.
pub fn level_entry_size(level: u8) -> (r: usize)
    requires
        level <= 3,
        level == 0 ==> usize::BITS == 64,
    ensures
        r == entry_size_of(level),
{
    match level {
        0 => 0x80_0000_0000u64 as usize,
        1 => 0x4000_0000,
        2 => 0x20_0000,
        _ => 0x1000,
    }
}

/// An entry that maps nothing.
pub fn create_invalid_entry() -> (r: u64)
    ensures
        r == 0,
{
    0
}

/// A table entry pointing at the next-level table at `addr`.
pub fn create_table_entry(addr: u64) -> (r: u64)
    ensures
        r == table_bits(addr),
{
    addr & (u64::MAX << 12u8) | 0b11
}

/// A block entry mapping `addr` at `level`, with the access flag set.
pub fn create_block_entry(addr: u64, level: u8) -> (r: u64)
    requires
        level <= 3,
    ensures
        r == block_bits(addr, level),
{
    let kind_bits: u64 = if level == 3 { 0b11 } else { 0b01 };
    addr & (u64::MAX << level_shift(level)) | 1u64 << 10u64 | kind_bits
}

/// The type of a descriptor.
pub fn desc_kind(desc: u64) -> (r: DescriptorKind)
    requires
        known_kind(desc),
    ensures
        r == kind_of(desc),
        desc & 3 == 0 ==> r == DescriptorKind::Invalid,
        desc & 3 == 1 ==> r == DescriptorKind::Block,
        desc & 3 == 3 ==> r == DescriptorKind::Table,
{
    let kind = desc & 0b11;
    match kind {
        0 => DescriptorKind::Invalid,
        1 => DescriptorKind::Block,
        _ => DescriptorKind::Table,
    }
}

/// The output address of a descriptor at `level`; 0 for an invalid one.
pub fn entry_addr(desc: u64, level: u8) -> (r: u64)
    requires
        known_kind(desc),
        desc & 3 == 1 ==> level <= 3,
    ensures
        r == addr_of(desc, level),
{
    let kind = desc_kind(desc);
    match kind {
        DescriptorKind::Invalid => 0,
        DescriptorKind::Block => desc & (u64::MAX << level_shift(level)),
        DescriptorKind::Table => desc & (u64::MAX << 12u8),
    }
}

proof fn lemma_masked_or_low(addr: u64, s: u8, low: u64)
    requires
        12 <= s <= 39,
        low < 0x800,
    ensures
        (addr & (u64::MAX << s) | low) & (u64::MAX << s) == addr & (u64::MAX << s),
        (addr & (u64::MAX << s) | low) & 3 == low & 3,
{
    assert((addr & (u64::MAX << s) | low) & (u64::MAX << s) == addr & (u64::MAX << s)
        && (addr & (u64::MAX << s) | low) & 3 == low & 3) by (bit_vector)
        requires 12 <= s <= 39, low < 0x800;
}

/// A table entry reads back as a table whose address is the one written,
/// with its low 12 bits cleared, at every level.
pub proof fn lemma_table_entry_roundtrip(addr: u64, level: u8)
    ensures
        known_kind(table_bits(addr)),
        kind_of(table_bits(addr)) == DescriptorKind::Table,
        addr_of(table_bits(addr), level) == addr & table_mask(),
{
    lemma_masked_or_low(addr, 12, 3);
    assert(3u64 & 3 == 3) by (bit_vector);
}

/// A block entry reads back, at its own level, as the block address written
/// with the bits below the level's shift cleared; at levels 0 to 2 it is a
/// block, at level 3 a page (which shares the table encoding).
pub proof fn lemma_block_entry_roundtrip(addr: u64, level: u8)
    requires
        level <= 3,
    ensures
        known_kind(block_bits(addr, level)),
        kind_of(block_bits(addr, level)) == (if level == 3 {
            DescriptorKind::Table
        } else {
            DescriptorKind::Block
        }),
        addr_of(block_bits(addr, level), level) == addr & level_mask(level),
{
    let low: u64 = 1u64 << 10u64 | block_type_bits(level);
    assert(1u64 << 10u64 == 0x400 && 0x400u64 | 1 == 0x401 && 0x400u64 | 3 == 0x403 && 0x401u64 & 3
        == 1 && 0x403u64 & 3 == 3) by (bit_vector);
    assert(block_bits(addr, level) == addr & level_mask(level) | low) by {
        assert(forall|a: u64, b: u64, c: u64| (a | b) | c == a | (b | c)) by (bit_vector);
    }
    lemma_masked_or_low(addr, shift_of(level), low);
    if level == 3 {
        assert(table_mask() == level_mask(3));
    }
}

/// The invalid entry reads back as invalid with address 0.
pub proof fn lemma_invalid_entry(level: u8)
    ensures
        known_kind(0),
        kind_of(0) == DescriptorKind::Invalid,
        addr_of(0, level) == 0,
{
    assert(0u64 & 3 == 0) by (bit_vector);
}

/// The size an entry maps is two to the power of its level's shift.
pub proof fn lemma_entry_size_is_shift(level: u8)
    requires
        level <= 3,
    ensures
        entry_size_of(level) == pow2(shift_of(level) as nat),
{
    lemma2_to64();
    lemma2_to64_rest();
}

/// The kind of a raw descriptor word is fixed by its low two bits alone:
/// `0b00` is invalid, `0b01` a block, `0b11` a table, whatever the other
/// 62 bits hold; an invalid word holds no address.
pub proof fn lemma_kind_of_low_bits(d: u64, e: u64, level: u8)
    ensures
        d & 3 == e & 3 ==> kind_of(d) == kind_of(e),
        d & 3 == 0 ==> kind_of(d) == DescriptorKind::Invalid && addr_of(d, level) == 0,
        d & 3 == 1 ==> kind_of(d) == DescriptorKind::Block,
        d & 3 == 3 ==> kind_of(d) == DescriptorKind::Table,
{
}

} // verus!
