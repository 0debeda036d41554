use elf_edit::transformer::{add_padding, checked_signed_diff, strict_signed_diff, ProgramHeaderUpdate};

#[test]
fn strict_signed_diff_of_small_numbers() {
    assert_eq!(strict_signed_diff(27, 24), 3);
    assert_eq!(strict_signed_diff(24, 40), -16);
    assert_eq!(strict_signed_diff(0, 0), 0);
}

#[test]
fn checked_signed_diff_at_the_limits() {
    assert_eq!(checked_signed_diff(u64::MAX, 0), None);
    assert_eq!(checked_signed_diff(i64::MAX as u64, 0), Some(i64::MAX));
    assert_eq!(checked_signed_diff(i64::MAX as u64 + 1, 0), None);
    assert_eq!(checked_signed_diff(0, i64::MAX as u64 + 1), Some(i64::MIN));
    assert_eq!(checked_signed_diff(0, i64::MAX as u64 + 2), None);
}

#[test]
fn add_padding_fills_up_to_the_target() {
    let mut output = vec![7u8, 7];
    let mut buf = [9u8; 4];
    let mut written_up_to = 2u64;
    add_padding(&mut output, &mut buf, 12, &mut written_up_to);
    assert_eq!(written_up_to, 12);
    assert_eq!(output, vec![7, 7, 0, 0, 0, 0, 0, 0, 0, 0, 0, 0]);
}

#[test]
fn no_updates_has_no_flag_set() {
    let update = ProgramHeaderUpdate::no_updates();
    assert!(!update.start);
    assert!(!update.end);
}

#[test]
fn add_padding_to_the_offset_that_is_reached_writes_nothing() {
    let mut output = vec![7u8];
    let mut buf = [9u8; 3];
    let mut written_up_to = 40u64;
    add_padding(&mut output, &mut buf, 40, &mut written_up_to);
    assert_eq!(written_up_to, 40);
    assert_eq!(output, vec![7]);
}

#[test]
fn add_padding_writes_more_than_the_buffer_holds() {
    let mut output = Vec::new();
    let mut buf = [9u8; 1];
    let mut written_up_to = 0u64;
    add_padding(&mut output, &mut buf, 1000, &mut written_up_to);
    assert_eq!(written_up_to, 1000);
    assert_eq!(output, vec![0u8; 1000]);
}

#[test]
fn strict_signed_diff_at_the_limits() {
    assert_eq!(strict_signed_diff(u64::MAX, u64::MAX - i64::MAX as u64), i64::MAX);
    assert_eq!(strict_signed_diff(5, i64::MAX as u64 + 6), i64::MIN);
    assert_eq!(strict_signed_diff(u64::MAX - 1, u64::MAX), -1);
}
