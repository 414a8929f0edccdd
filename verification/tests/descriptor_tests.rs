use kernel::mm::table::{
    level_entry_size, level_shift, AccessPermissions, Descriptor, DescriptorKind, Execution,
    MemoryAttributes,
};
use kernel::mmu;

#[test]
fn level_shifts_and_sizes() {
    assert_eq!(level_shift(0), 39);
    assert_eq!(level_shift(1), 30);
    assert_eq!(level_shift(2), 21);
    assert_eq!(level_shift(3), 12);
    assert_eq!(level_entry_size(0), 0x80_0000_0000);
    assert_eq!(level_entry_size(1), 0x4000_0000);
    assert_eq!(level_entry_size(2), 0x20_0000);
    assert_eq!(level_entry_size(3), 0x1000);
    for level in 0..=3u8 {
        assert_eq!(mmu::level_shift(level), level_shift(level));
        assert_eq!(mmu::level_entry_size(level), 1usize << level_shift(level));
    }
}

#[test]
fn invalid_descriptor() {
    let d = Descriptor::invalid();
    assert_eq!(d.bits(), 0);
    assert_eq!(d.kind(), DescriptorKind::Invalid);
    assert_eq!(d.addr(2), 0);
}

#[test]
fn table_descriptor_reads_back() {
    let d = Descriptor::table(0x4000_1234);
    assert_eq!(d.bits(), 0x4000_1003);
    assert_eq!(d.kind(), DescriptorKind::Table);
    assert_eq!(d.addr(0), 0x4000_1000);
    assert_eq!(d.addr(3), 0x4000_1000);
    assert_eq!(u64::from(d), 0x4000_1003);
}

#[test]
fn read_only_non_executable_block() {
    let attrs = MemoryAttributes {
        permissions: AccessPermissions::ReadOnly,
        execution: Execution::NonExecutable,
    };
    let d = Descriptor::block(0x4123_4567, 1, &attrs);
    assert_eq!(d.bits(), 0x0060_0000_4000_0405);
    assert_eq!(d.kind(), DescriptorKind::Block);
    assert_eq!(d.addr(1), 0x0060_0000_4000_0000);
}

#[test]
fn read_write_page_is_table_encoded() {
    let attrs = MemoryAttributes {
        permissions: AccessPermissions::ReadWrite,
        execution: Execution::Executable,
    };
    let d = Descriptor::block(0x1234_5678, 3, &attrs);
    assert_eq!(d.bits(), 0x1234_5403);
    assert_eq!(d.kind(), DescriptorKind::Table);
    assert_eq!(d.addr(3), 0x1234_5000);
    assert_eq!(d.bits(), mmu::create_block_entry(0x1234_5678, 3));
}

#[test]
fn block_at_level_two_matches_raw_entry() {
    let attrs = MemoryAttributes {
        permissions: AccessPermissions::ReadWrite,
        execution: Execution::Executable,
    };
    let d = Descriptor::block(0x4020_1000, 2, &attrs);
    assert_eq!(d.bits(), 0x4020_0401);
    assert_eq!(d.bits(), mmu::create_block_entry(0x4020_1000, 2));
    assert_eq!(d.addr(2), 0x4020_0000);
}

#[test]
fn raw_entries() {
    assert_eq!(mmu::create_invalid_entry(), 0);
    assert_eq!(mmu::create_table_entry(0x8000_0fff), 0x8000_0003);
    assert_eq!(mmu::create_block_entry(0x4000_0000, 1), 0x4000_0401);
    assert_eq!(mmu::create_block_entry(0x80_1234_5678, 0), 0x80_0000_0401);
    assert_eq!(mmu::desc_kind(0), mmu::DescriptorKind::Invalid);
    assert_eq!(mmu::desc_kind(1), mmu::DescriptorKind::Block);
    assert_eq!(mmu::desc_kind(3), mmu::DescriptorKind::Table);
    assert_eq!(mmu::entry_addr(0, 1), 0);
    assert_eq!(mmu::entry_addr(0x4000_0401, 1), 0x4000_0000);
    assert_eq!(mmu::entry_addr(0x4020_0401, 1), 0x4000_0000);
    assert_eq!(mmu::entry_addr(0x8000_0003, 0), 0x8000_0000);
    let block = mmu::create_block_entry(0x4020_0000, 2);
    assert_eq!(mmu::entry_addr(block, 2), 0x4020_0000);
}
