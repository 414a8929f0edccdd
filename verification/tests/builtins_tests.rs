use kernel::builtins::{bcmp, memcmp, memcpy, memmove, memset, strlen};

#[test]
fn memcpy_copies_prefix() {
    let mut dest = [9u8; 6];
    memcpy(&mut dest, &[1, 2, 3, 4], 3);
    assert_eq!(dest, [1, 2, 3, 9, 9, 9]);
    memcpy(&mut dest, &[7], 0);
    assert_eq!(dest, [1, 2, 3, 9, 9, 9]);
}

#[test]
fn memmove_forward_overlap() {
    let mut buf = [0u8, 1, 2, 3, 4, 5, 6, 7];
    memmove(&mut buf, 0, 2, 4);
    assert_eq!(buf, [2, 3, 4, 5, 4, 5, 6, 7]);
}

#[test]
fn memmove_backward_runs_from_offset_n_down_to_one() {
    let mut buf = [0u8, 1, 2, 3, 4, 5, 6, 7];
    memmove(&mut buf, 2, 0, 4);
    assert_eq!(buf, [0, 1, 2, 1, 2, 3, 4, 7]);
}

#[test]
fn memset_uses_low_byte() {
    let mut buf = [0u8; 5];
    memset(&mut buf, 0x141, 3);
    assert_eq!(buf, [0x41, 0x41, 0x41, 0, 0]);
    memset(&mut buf, -1, 5);
    assert_eq!(buf, [0xff; 5]);
}

#[test]
fn memcmp_looks_at_first_bytes() {
    assert_eq!(memcmp(&[5, 1], &[3, 9], 2), 2);
    assert_eq!(memcmp(&[5, 1], &[5, 0], 2), 0);
    assert_eq!(memcmp(&[], &[], 0), 0);
    assert_eq!(bcmp(&[200], &[100], 1), 100);
}

#[test]
fn strlen_counts_to_nul() {
    assert_eq!(strlen(b"hello\0world\0"), 5);
    assert_eq!(strlen(b"\0"), 0);
}
