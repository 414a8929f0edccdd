use kernel::align::{align, align_down, align_up};

#[test]
fn align_up_rounds_to_next_multiple() {
    assert_eq!(align_up(0x1001, 0x1000), 0x2000);
    assert_eq!(align_up(0x1000, 0x1000), 0x1000);
    assert_eq!(align_up(0, 8), 0);
    assert_eq!(align_up(5, 4), 8);
}

#[test]
fn align_down_rounds_to_previous_multiple() {
    assert_eq!(align_down(0x1fff, 0x1000), 0x1000);
    assert_eq!(align_down(0x2000, 0x1000), 0x2000);
    assert_eq!(align_down(7, 4), 4);
}

#[test]
fn align_is_align_up() {
    assert_eq!(align(13, 4), 16);
    assert_eq!(align(16, 4), 16);
}
