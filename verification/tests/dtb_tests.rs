use kernel::boot::dtb::{Devicetree, FDTStream, FDTToken};

fn be32(v: &mut Vec<u8>, x: u32) {
    v.extend_from_slice(&x.to_be_bytes());
}

fn be64(v: &mut Vec<u8>, x: u64) {
    v.extend_from_slice(&x.to_be_bytes());
}

/// A small tree: one reservation, a root node with a property and a
/// child node `cpus`, and a strings block.
fn sample_tree() -> Vec<u8> {
    let mut t = Vec::new();
    // Header: magic, totalsize, off_dt_struct, off_dt_strings,
    // off_mem_rsvmap, version, last_comp_version, boot_cpuid_phys,
    // size_dt_strings, size_dt_struct.
    for x in [0xd00dfeedu32, 135, 72, 120, 40, 17, 16, 0, 15, 48] {
        be32(&mut t, x);
    }
    // Reservation block.
    be64(&mut t, 0x1000);
    be64(&mut t, 0x100);
    be64(&mut t, 0);
    be64(&mut t, 0);
    assert_eq!(t.len(), 72);
    // Structure block.
    be32(&mut t, 1);
    t.extend_from_slice(&[0, 0, 0, 0]);
    be32(&mut t, 3);
    be32(&mut t, 4);
    be32(&mut t, 0);
    be32(&mut t, 2);
    be32(&mut t, 1);
    t.extend_from_slice(b"cpus\0\0\0\0");
    be32(&mut t, 2);
    be32(&mut t, 2);
    be32(&mut t, 9);
    assert_eq!(t.len(), 120);
    // Strings block.
    t.extend_from_slice(b"#address-cells\0");
    assert_eq!(t.len(), 135);
    t
}

#[test]
fn well_formed_tree_parses() {
    let t = sample_tree();
    let dt = Devicetree::new(&t).unwrap();
    assert_eq!(dt.parse(), Ok(()));
}

#[test]
fn bad_magic_is_refused() {
    let mut t = sample_tree();
    t[0] = 0xde;
    assert!(Devicetree::new(&t).is_err());
}

#[test]
fn structure_offset_outside_tree_is_refused() {
    let mut t = sample_tree();
    t[8..12].copy_from_slice(&135u32.to_be_bytes());
    assert!(Devicetree::new(&t).is_err());
}

#[test]
fn strings_offset_outside_tree_is_refused() {
    let mut t = sample_tree();
    t[12..16].copy_from_slice(&200u32.to_be_bytes());
    assert!(Devicetree::new(&t).is_err());
}

#[test]
fn unterminated_reservation_block_fails() {
    let mut t = sample_tree();
    // Point the reservation block at the structure block, which holds no
    // zero address/size pair before the data runs out.
    t[16..20].copy_from_slice(&96u32.to_be_bytes());
    let dt = Devicetree::new(&t).unwrap();
    assert_eq!(dt.parse(), Err(()));
}

#[test]
fn unknown_token_fails() {
    let mut t = sample_tree();
    // Turn the final END token into an unknown one.
    t[116..120].copy_from_slice(&7u32.to_be_bytes());
    let dt = Devicetree::new(&t).unwrap();
    assert_eq!(dt.parse(), Err(()));
}

#[test]
fn nop_closes_a_node_and_skips_a_word() {
    let mut t = sample_tree();
    // A NOP where the child's END_NODE stood closes the child but also
    // skips the root's END_NODE; the END then closes the root, and the
    // parse runs on into the strings block, which holds no token.
    t[108..112].copy_from_slice(&4u32.to_be_bytes());
    let dt = Devicetree::new(&t).unwrap();
    assert_eq!(dt.parse(), Err(()));
}

#[test]
fn nop_with_a_skipped_word_closes_a_node() {
    let mut t = Vec::new();
    for x in [0xd00dfeedu32, 90, 56, 88, 40, 17, 16, 0, 2, 32] {
        be32(&mut t, x);
    }
    be64(&mut t, 0);
    be64(&mut t, 0);
    // Root, child, NOP and the word it skips, END_NODE, END.
    be32(&mut t, 1);
    be32(&mut t, 0);
    be32(&mut t, 1);
    be32(&mut t, 0);
    be32(&mut t, 4);
    be32(&mut t, 0x1234_5678);
    be32(&mut t, 2);
    be32(&mut t, 9);
    t.extend_from_slice(b"x\0");
    assert_eq!(t.len(), 90);
    let dt = Devicetree::new(&t).unwrap();
    assert_eq!(dt.parse(), Ok(()));
}

#[test]
fn tree_running_out_fails() {
    let mut t = sample_tree();
    // Drop the closing tokens: the total size ends the structure early.
    t[4..8].copy_from_slice(&112u32.to_be_bytes());
    t[12..16].copy_from_slice(&96u32.to_be_bytes());
    let dt = Devicetree::new(&t).unwrap();
    assert_eq!(dt.parse(), Err(()));
}

#[test]
fn stream_reads_big_endian_words() {
    let data = [0x12u8, 0x34, 0x56, 0x78, 0x9a, 0xbc, 0xde, 0xf0, 0x11];
    let mut s = FDTStream::new(&data, 0);
    assert_eq!(s.parse_u32(), Ok(0x1234_5678));
    assert_eq!(s.offset, 4);
    assert_eq!(s.parse_u32(), Ok(0x9abc_def0));
    assert_eq!(s.parse_u32(), Err(()));
    assert_eq!(s.offset, 8);
    let mut s = FDTStream::new(&data, 1);
    assert_eq!(s.parse_u64(), Ok(0x3456_789a_bcde_f011));
    assert_eq!(s.offset, 9);
    assert_eq!(s.parse_u64(), Err(()));
    assert_eq!(s.offset, 9);
}

#[test]
fn stream_reads_tokens() {
    let t = sample_tree();
    let mut s = FDTStream::new(&t, 72);
    match s.next_token() {
        Ok(FDTToken::BeginNode(name)) => assert_eq!(name, ""),
        _ => panic!("expected the root node"),
    }
    assert_eq!(s.offset, 80);
    match s.next_token() {
        Ok(FDTToken::Prop { nameoff, value }) => {
            assert_eq!(nameoff, 0);
            assert_eq!(value, &[0, 0, 0, 2]);
        }
        _ => panic!("expected a property"),
    }
    assert_eq!(s.offset, 96);
    match s.next_token() {
        Ok(FDTToken::BeginNode(name)) => assert_eq!(name, "cpus"),
        _ => panic!("expected the cpus node"),
    }
    assert_eq!(s.offset, 108);
    assert!(matches!(s.next_token(), Ok(FDTToken::EndNode)));
    assert!(matches!(s.next_token(), Ok(FDTToken::EndNode)));
    assert!(matches!(s.next_token(), Ok(FDTToken::End)));
    assert_eq!(s.offset, 120);
}

#[test]
fn nop_token_skips_a_word() {
    let data = [0u8, 0, 0, 4, 0xaa, 0xaa, 0xaa, 0xaa, 0, 0, 0, 9];
    let mut s = FDTStream::new(&data, 0);
    assert!(matches!(s.next_token(), Ok(FDTToken::Nop)));
    assert_eq!(s.offset, 8);
    assert!(matches!(s.next_token(), Ok(FDTToken::End)));
}

#[test]
fn sample_tree_is_readable() {
    let t = sample_tree();
    let dt = Devicetree::new(&t).unwrap();
    assert!(dt.is_readable());
}

#[test]
fn property_running_past_the_data_is_unreadable() {
    let mut t = sample_tree();
    t[84..88].copy_from_slice(&1000u32.to_be_bytes());
    let dt = Devicetree::new(&t).unwrap();
    assert!(!dt.is_readable());
}

#[test]
fn property_name_past_the_strings_is_unreadable() {
    let mut t = sample_tree();
    t[88..92].copy_from_slice(&100u32.to_be_bytes());
    let dt = Devicetree::new(&t).unwrap();
    assert!(!dt.is_readable());
}

#[test]
fn node_name_that_is_not_utf8_is_unreadable() {
    let mut t = sample_tree();
    t[100] = 0xff;
    let dt = Devicetree::new(&t).unwrap();
    assert!(!dt.is_readable());
}

#[test]
fn structure_is_not_looked_at_when_reservations_fail() {
    let mut t = sample_tree();
    t[16..20].copy_from_slice(&96u32.to_be_bytes());
    t[100] = 0xff;
    let dt = Devicetree::new(&t).unwrap();
    assert!(dt.is_readable());
    assert_eq!(dt.parse(), Err(()));
}
