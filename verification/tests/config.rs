use dmtools::config::{eat_space, is_space};

#[test]
fn test_eat_space() {
    let empty: &[u8] = b"";
    assert_eq!(eat_space(empty), empty);
}

#[test]
fn eat_space_skips_leading_spaces_only() {
    assert_eq!(eat_space(b"   foo bar"), b"foo bar");
    assert_eq!(eat_space(b"foo"), b"foo");
    assert_eq!(eat_space(b"    "), b"");
    assert_eq!(eat_space(b"\tfoo"), b"\tfoo");
}

#[test]
fn is_space_accepts_the_space_byte_alone() {
    assert!(is_space(&b' '));
    assert!(!is_space(&b'\t'));
    assert!(!is_space(&b'a'));
}
