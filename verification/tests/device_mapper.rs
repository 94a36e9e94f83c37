use dmtools::device_mapper::ioctl::IoctlHeader;
use dmtools::device_mapper::{
    copy_and_pad, from_c_str, not_implemented, zero, DMIdentity, DmError, DmErrorKind,
};

fn prep_cstr(src: &str) -> Vec<u8> {
    let mut r = Vec::<u8>::new();
    for c in src.chars() {
        r.push(c as u8)
    }
    r.push(0);
    r
}

#[test]
fn test_set_identity() {
    let mut h = IoctlHeader::new();
    let mut too_long = String::new();
    for _ in 0..1024 {
        too_long.push('a')
    }

    assert_eq!(h.set_identity(&DMIdentity::Name(&too_long)), false);

    // setting the name
    assert_eq!(h.set_identity(&DMIdentity::Name("foo")), true);
    assert_eq!(h.name[0], 'f' as u8);
    assert_eq!(h.uuid[0], 0);

    // setting the uuid
    assert_eq!(h.set_identity(&DMIdentity::UUID("asldfkj")), true);
    assert_eq!(h.uuid[0], 'a' as u8);
    assert_eq!(h.name[0], 0);

    // shortening name works
    h.set_identity(&DMIdentity::Name("a-long-name"));
    h.set_identity(&DMIdentity::Name("foo"));
    assert_eq!(h.name[3], 0);

    // shortening name works
    h.set_identity(&DMIdentity::UUID("a-long-name"));
    h.set_identity(&DMIdentity::UUID("foo"));
    assert_eq!(h.uuid[3], 0);
}

#[test]
fn test_from_c_str() {
    let cs = prep_cstr("foo");
    assert_eq!(from_c_str(&cs), "foo");
}

#[test]
fn from_c_str_stops_at_the_first_nul() {
    assert_eq!(from_c_str(b"ab\0cd\0"), "ab");
    assert_eq!(from_c_str(b"\0abc"), "");
    assert_eq!(from_c_str(b"abc"), "abc");
    assert_eq!(from_c_str(b""), "");
    assert_eq!(from_c_str(&[0xe9, 0]), "\u{e9}");
}

#[test]
fn set_identity_limits_are_byte_lengths() {
    let mut h = IoctlHeader::new();
    let name127 = "n".repeat(127);
    let name128 = "n".repeat(128);
    assert!(h.set_identity(&DMIdentity::Name(&name127)));
    assert_eq!(h.name[126], b'n');
    assert_eq!(h.name[127], 0);
    assert!(!h.set_identity(&DMIdentity::Name(&name128)));
    assert_eq!(h.name[126], b'n');

    let uuid128 = "u".repeat(128);
    let uuid129 = "u".repeat(129);
    assert!(h.set_identity(&DMIdentity::UUID(&uuid128)));
    assert_eq!(h.uuid[127], b'u');
    assert_eq!(h.uuid[128], 0);
    assert_eq!(h.name[0], 0);
    assert!(!h.set_identity(&DMIdentity::UUID(&uuid129)));

    // 64 two-byte characters make 128 bytes: too long for a name.
    let wide = "\u{e9}".repeat(64);
    assert!(!h.set_identity(&DMIdentity::Name(&wide)));
    // 63 of them make 126 bytes: they fit, each stored as its low byte.
    let wide63 = "\u{e9}".repeat(63);
    assert!(h.set_identity(&DMIdentity::Name(&wide63)));
    assert_eq!(h.name[62], 0xe9);
    assert_eq!(h.name[63], 0);
}

#[test]
fn name_reads_back_as_c_string() {
    let mut h = IoctlHeader::new();
    assert!(h.set_identity(&DMIdentity::Name("vol0")));
    assert_eq!(from_c_str(&h.name), "vol0");
    assert_eq!(from_c_str(&h.uuid), "");
    assert!(h.set_identity(&DMIdentity::UUID("LVM-1234")));
    assert_eq!(from_c_str(&h.uuid), "LVM-1234");
    assert_eq!(from_c_str(&h.name), "");
}

#[test]
fn copy_and_pad_and_zero() {
    let mut a = [7u8; 5];
    copy_and_pad(&mut a, "ab");
    assert_eq!(a, [b'a', b'b', 0, 0, 0]);
    copy_and_pad(&mut a, "abcdefg");
    assert_eq!(a, [b'a', b'b', b'c', b'd', b'e']);
    copy_and_pad(&mut a, "\u{141}");
    assert_eq!(a, [0x41, 0, 0, 0, 0]);
    zero(&mut a);
    assert_eq!(a, [0u8; 5]);
}

#[test]
fn not_implemented_is_an_error() {
    let r: Result<u32, DmError> = not_implemented();
    let e = r.unwrap_err();
    assert_eq!(e.kind, DmErrorKind::Other);
    assert_eq!(e.message, "not implemented");
}
