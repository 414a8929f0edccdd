use kernel::boot::map::{map_block, map_region, region_mappable};

const BASE: u64 = 0x4000_0000;

#[test]
fn map_block_creates_tables_and_a_2mib_block() {
    let mut mem = vec![0u64; 4 * 512];
    let consumed = map_block(&mut mem, BASE, BASE, 0x4020_0000, 0x4040_0000);
    assert_eq!(consumed, 0x20_0000);
    // Level 0 entry 0 points at the table right after the root.
    assert_eq!(mem[0], 0x4000_1003);
    // Level 1 entry 1 points at the table after that one.
    assert_eq!(mem[512 + 1], 0x4000_2003);
    // Level 2 entry 1 is the 2 MiB block.
    assert_eq!(mem[1024 + 1], 0x4020_0401);
    let written = mem.iter().filter(|w| **w != 0).count();
    assert_eq!(written, 3);
}

#[test]
fn map_block_maps_a_page_at_the_end() {
    let mut mem = vec![0u64; 4 * 512];
    let consumed = map_block(&mut mem, BASE, BASE, 0x4020_3000, 0x4020_4000);
    assert_eq!(consumed, 0x1000);
    assert_eq!(mem[0], 0x4000_1003);
    assert_eq!(mem[512 + 1], 0x4000_2003);
    assert_eq!(mem[1024 + 1], 0x4000_3003);
    assert_eq!(mem[1536 + 3], 0x4020_3403);
}

#[test]
fn map_block_returns_the_part_of_the_block_after_begin() {
    let mut mem = vec![0u64; 4 * 512];
    let consumed = map_block(&mut mem, BASE, BASE, 0x4020_0800, 0x4040_0000);
    assert_eq!(consumed, 0x20_0000 - 0x800);
    assert_eq!(mem[1024 + 1], 0x4020_0401);
}

#[test]
fn map_block_maps_the_whole_enclosing_block() {
    let mut mem = vec![0u64; 4 * 512];
    let consumed = map_block(&mut mem, BASE, BASE, 0x403f_e000, 0x4060_0000);
    assert_eq!(consumed, 0x2000);
    assert_eq!(mem[1024 + 1], 0x4020_0401);
}

#[test]
fn map_region_maps_a_block_then_pages() {
    let mut mem = vec![0u64; 4 * 512];
    map_region(&mut mem, BASE, BASE, 0x4020_0000, 0x4040_2000);
    assert_eq!(mem[0], 0x4000_1003);
    assert_eq!(mem[512 + 1], 0x4000_2003);
    assert_eq!(mem[1024 + 1], 0x4020_0401);
    assert_eq!(mem[1024 + 2], 0x4000_3003);
    assert_eq!(mem[1536], 0x4040_0403);
    assert_eq!(mem[1536 + 1], 0x4040_1403);
    let written = mem.iter().filter(|w| **w != 0).count();
    assert_eq!(written, 6);
}

#[test]
fn map_region_of_nothing_writes_nothing() {
    let mut mem = vec![0u64; 512];
    map_region(&mut mem, BASE, BASE, 0x4000_0000, 0x4000_0000);
    assert!(mem.iter().all(|w| *w == 0));
}

#[test]
fn region_mappable_agrees_with_the_mapper() {
    let mem = vec![0u64; 4 * 512];
    assert!(region_mappable(&mem, BASE, BASE, 0x4020_0000, 0x4040_2000));
    assert!(region_mappable(&mem, BASE, BASE, 0x4000_0000, 0x4000_0000));
    // The last page does not fit before the end: the mapper would panic.
    assert!(!region_mappable(&mem, BASE, BASE, 0x4000_0000, 0x4000_0800));
    // Too little memory for the tables the walk creates.
    let small = vec![0u64; 2 * 512];
    assert!(!region_mappable(&small, BASE, BASE, 0x4020_0000, 0x4040_0000));
    // A root table outside memory.
    assert!(!region_mappable(&mem, BASE, BASE + 0x10_0000, 0x4020_0000, 0x4040_0000));
}

#[test]
fn block_reaching_down_to_its_boundary() {
    // The block that holds `begin` is mapped whole where it ends before
    // `end`: here the whole gigabyte below 0x8000_0000.
    let mut mem = vec![0u64; 4 * 512];
    map_region(&mut mem, BASE, BASE, 0x7fe0_0000, 0x8020_0000);
    assert_eq!(mem[512 + 1], 0x4000_0401);
    assert_eq!(mem[512 + 2], 0x4000_2003);
    assert_eq!(mem[1024], 0x8000_0401);
}

#[test]
fn new_tables_follow_their_parent_table() {
    // Two regions in different gigabytes each need a level-2 table; both
    // are placed right after the level-1 table, so the second region's
    // block replaces the first one's.
    let mut mem = vec![0u64; 4 * 512];
    map_region(&mut mem, BASE, BASE, 0x4000_0000, 0x4020_0000);
    assert_eq!(mem[512 + 1], 0x4000_2003);
    assert_eq!(mem[1024], 0x4000_0401);
    map_region(&mut mem, BASE, BASE, 0x8000_0000, 0x8020_0000);
    assert_eq!(mem[512 + 2], 0x4000_2003);
    assert_eq!(mem[1024], 0x8000_0401);
}

/// Looks `va` up in the tables as the MMU does with the 4 KiB granule.
fn translate(mem: &[u64], table: u64, va: u64) -> Option<u64> {
    let shifts = [39u32, 30, 21, 12];
    let mut table = table;
    for (level, shift) in shifts.iter().enumerate() {
        let index = (va >> shift) & 0x1ff;
        let entry = table + index * 8;
        let e = *mem.get(((entry - BASE) / 8) as usize)?;
        let out = e & (u64::MAX << shift) & 0xffff_ffff_ffff;
        let offset = va & ((1u64 << shift) - 1);
        match (level, e & 3) {
            (3, 3) => return Some(out + offset),
            (1 | 2, 1) => return Some(out + offset),
            (0..=2, 3) => table = e & (u64::MAX << 12) & 0xffff_ffff_ffff,
            _ => return None,
        }
    }
    None
}

#[test]
fn mapped_blocks_translate_their_start_to_itself() {
    for (begin, end) in [
        (0x4020_0000u64, 0x4040_0000u64),
        (0x4020_3000, 0x4020_4000),
        (0x4020_0800, 0x4040_0000),
        (0x7fe0_0000, 0x8020_0000),
    ] {
        let mut mem = vec![0u64; 4 * 512];
        map_block(&mut mem, BASE, BASE, begin, end);
        assert_eq!(translate(&mem, BASE, begin), Some(begin));
    }
}

#[test]
fn every_address_of_a_mapped_block_translates_to_itself() {
    let mut mem = vec![0u64; 4 * 512];
    map_block(&mut mem, BASE, BASE, 0x4020_0800, 0x4040_0000);
    for va in [0x4020_0000u64, 0x4020_0800, 0x4021_2345, 0x403f_ffff] {
        assert_eq!(translate(&mem, BASE, va), Some(va));
    }
    assert_eq!(translate(&mem, BASE, 0x4040_0000), None);
}

#[test]
fn mapped_region_translates_to_itself() {
    let mut mem = vec![0u64; 4 * 512];
    map_region(&mut mem, BASE, BASE, 0x4020_0000, 0x4040_2000);
    for va in [0x4020_0000u64, 0x4030_0000, 0x403f_ffff, 0x4040_0000, 0x4040_1fff] {
        assert_eq!(translate(&mem, BASE, va), Some(va));
    }
    assert_eq!(translate(&mem, BASE, 0x4040_2000), None);
}

#[test]
fn second_region_breaks_the_first_when_their_tables_collide() {
    let mut mem = vec![0u64; 4 * 512];
    map_region(&mut mem, BASE, BASE, 0x4000_0000, 0x4020_0000);
    assert_eq!(translate(&mem, BASE, 0x4000_1000), Some(0x4000_1000));
    map_region(&mut mem, BASE, BASE, 0x8000_0000, 0x8020_0000);
    assert_eq!(translate(&mem, BASE, 0x8000_1000), Some(0x8000_1000));
    assert_eq!(translate(&mem, BASE, 0x4000_1000), Some(0x8000_1000));
}
