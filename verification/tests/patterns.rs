use dirt::bytes::{find_bytes, matches_at};
use dirt::prologue::{find_last_function_start, function_start};

fn starts(window: &[u8]) -> Vec<usize> {
    (0..window.len()).filter(|&at| function_start(window, at)).collect()
}

#[test]
fn bytes_are_found_where_they_first_stand() {
    assert_eq!(find_bytes(b"abcabc", b"bc"), Some(1));
    assert_eq!(find_bytes(b"abcabc", b"bd"), None);
    assert_eq!(find_bytes(b"ab", b"abc"), None);
    assert_eq!(find_bytes(b"aab", b"ab"), Some(1));
    assert!(matches_at(b"abc", 1, b"bc"));
    assert!(!matches_at(b"abc", 2, b"bc"));
}

#[test]
fn endbr64_begins_a_function() {
    assert_eq!(starts(&[0xf3, 0x0f, 0x1e, 0xfa]), vec![0]);
    assert_eq!(starts(&[0xf3, 0x0f, 0x1e]), vec![]);
    assert_eq!(starts(&[0xf3, 0x0f, 0x1e, 0xfb]), vec![]);
}

#[test]
fn frame_setup_begins_a_function() {
    assert_eq!(starts(&[0x55, 0x48, 0x89, 0xe5]), vec![0]);
    assert_eq!(starts(&[0x55, 0x48, 0x89]), vec![]);
}

#[test]
fn push_rbp_after_a_gap_begins_a_function() {
    assert_eq!(starts(&[0x90, 0x55, 0x00]), vec![1]);
    assert_eq!(starts(&[0xcc, 0x55, 0x00]), vec![1]);
    assert_eq!(starts(&[0xc3, 0x55, 0x00]), vec![1]);
    assert_eq!(starts(&[0x00, 0x55, 0x00]), vec![]);
    assert_eq!(starts(&[0x55, 0x00]), vec![]);
}

#[test]
fn two_pushes_begin_a_function() {
    assert_eq!(starts(&[0x53, 0x56, 0x00]), vec![0]);
    assert_eq!(starts(&[0x53, 0x00, 0x56]), vec![]);
    // push r15; push r14; without its prefix, the first one is a push as well.
    assert_eq!(starts(&[0x41, 0x57, 0x41, 0x56, 0x00]), vec![0, 1]);
    assert_eq!(starts(&[0x41, 0x57, 0x00]), vec![]);
    assert_eq!(starts(&[0x41, 0x57, 0x41]), vec![]);
    assert_eq!(starts(&[0x58, 0x58]), vec![]);
}

#[test]
fn code_after_padding_begins_a_function() {
    // After a return, one byte of padding is enough.
    assert_eq!(starts(&[0xc3, 0x90, 0x31]), vec![2]);
    assert_eq!(starts(&[0xc2, 0xcc, 0x31]), vec![2]);
    // Otherwise four are needed.
    assert_eq!(starts(&[0x00, 0x90, 0x90, 0x90, 0x90, 0x31]), vec![5]);
    assert_eq!(starts(&[0x00, 0x90, 0x90, 0x90, 0x31]), vec![]);
    // The first byte of the window is never counted as padding.
    assert_eq!(starts(&[0x90, 0x90, 0x90, 0x90, 0x31]), vec![]);
    assert_eq!(starts(&[0x90, 0x90, 0x90, 0x90, 0x90, 0x31]), vec![5]);
}

#[test]
fn stack_allocation_begins_a_function() {
    assert_eq!(starts(&[0x48, 0x83, 0xec]), vec![0]);
    assert_eq!(starts(&[0x48, 0x81, 0xec]), vec![0]);
    assert_eq!(starts(&[0x48, 0x82, 0xec]), vec![]);
}

#[test]
fn the_last_function_start_is_found() {
    let window = [0xf3, 0x0f, 0x1e, 0xfa, 0x48, 0x83, 0xec, 0x08, 0x00];
    assert_eq!(find_last_function_start(&window), Some(4));
    assert_eq!(find_last_function_start(&window[..6]), Some(0));
    assert_eq!(find_last_function_start(&window[1..4]), None);
    assert_eq!(find_last_function_start(&[]), None);
}
