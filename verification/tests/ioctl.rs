use dmtools::device_mapper::ioctl::{
    after_ioctl, DmFlag, IoctlBuffer, IoctlCode, IoctlHeader, IoctlStep, HEADER_SIZE,
};
use dmtools::device_mapper::DMIdentity;

#[test]
fn header_is_312_bytes_little_endian() {
    let mut h = IoctlHeader::new();
    h.version = [4, 27, 0];
    h.data_size = 0x0102_0304;
    h.open_count = -1;
    h.dev = 0x1122_3344_5566_7788;
    h.name[0] = b'x';
    h.uuid[128] = 9;
    h.data[6] = 5;
    let b = h.to_bytes();
    assert_eq!(b.len(), HEADER_SIZE);
    assert_eq!(&b[0..12], &[4, 0, 0, 0, 27, 0, 0, 0, 0, 0, 0, 0]);
    assert_eq!(&b[12..16], &[4, 3, 2, 1]);
    assert_eq!(&b[24..28], &[0xff, 0xff, 0xff, 0xff]);
    assert_eq!(&b[40..48], &[0x88, 0x77, 0x66, 0x55, 0x44, 0x33, 0x22, 0x11]);
    assert_eq!(b[48], b'x');
    assert_eq!(b[176 + 128], 9);
    assert_eq!(b[311], 5);
}

#[test]
fn header_bytes_read_back() {
    let mut h = IoctlHeader::new();
    h.version = [1, 2, 3];
    h.flags = 0x100;
    h.open_count = -7;
    h.event_nr = 42;
    h.set_identity(&DMIdentity::Name("thin-pool"));
    let b = h.to_bytes();
    let back = IoctlHeader::from_bytes(&b);
    assert_eq!(back.version, [1, 2, 3]);
    assert_eq!(back.flags, 0x100);
    assert_eq!(back.open_count, -7);
    assert_eq!(back.event_nr, 42);
    assert_eq!(back.name, h.name);
    assert_eq!(back.to_bytes(), b);
}

#[test]
fn new_buffer_records_version_and_size() {
    let buf = IoctlBuffer::new(16);
    assert_eq!(buf.as_bytes().len(), HEADER_SIZE + 16);
    assert_eq!(buf.total_size(), HEADER_SIZE + 16);
    assert_eq!(buf.version(), (4, 27, 0));
    let h = buf.header();
    assert_eq!(h.data_start, 312);
    assert_eq!(h.data_size, 328);
    assert_eq!(h.flags, 0);
    assert_eq!(buf.payload(), &[0u8; 16][..]);
}

#[test]
fn set_header_keeps_the_payload() {
    let mut buf = IoctlBuffer::new(4);
    let bytes = buf.into_bytes();
    let mut bytes2 = bytes.clone();
    bytes2[HEADER_SIZE] = 0xaa;
    let mut buf = IoctlBuffer::from_bytes(bytes2).unwrap();
    let mut h = buf.header();
    h.target_count = 3;
    buf.set_header(&h);
    assert_eq!(buf.header().target_count, 3);
    assert_eq!(buf.payload(), &[0xaa, 0, 0, 0][..]);
}

#[test]
fn from_bytes_needs_a_whole_header() {
    assert!(IoctlBuffer::from_bytes(vec![0u8; HEADER_SIZE - 1]).is_none());
    assert!(IoctlBuffer::from_bytes(vec![0u8; HEADER_SIZE]).is_some());
}

#[test]
fn expand_doubles_the_recorded_size() {
    let buf = IoctlBuffer::new(8);
    let size = buf.total_size();
    let big = buf.expand();
    assert_eq!(big.as_bytes().len(), 2 * size + HEADER_SIZE);
    // The first `size` bytes are those of the old buffer, but for the size that
    // the header records, which is the new one.
    assert_eq!(&big.as_bytes()[..12], &buf.as_bytes()[..12]);
    assert_eq!(&big.as_bytes()[16..size], &buf.as_bytes()[16..]);
    assert_eq!(big.total_size(), 2 * size + HEADER_SIZE);
    assert_eq!(big.version(), (4, 27, 0));
    assert!(big.payload()[size - HEADER_SIZE..].iter().all(|b| *b == 0));
}

#[test]
fn after_ioctl_decides() {
    match after_ioctl(IoctlBuffer::new(0), -1) {
        IoctlStep::Failed => {}
        _ => panic!("a non-zero return is a failure"),
    }
    let buf = IoctlBuffer::new(0);
    let expected = buf.as_bytes().to_vec();
    match after_ioctl(buf, 0) {
        IoctlStep::Done(b) => assert_eq!(b.as_bytes(), &expected[..]),
        _ => panic!("a plain answer is done"),
    }
    let mut buf = IoctlBuffer::new(0);
    let mut h = buf.header();
    h.flags = 1 << 8;
    buf.set_header(&h);
    match after_ioctl(buf, 0) {
        IoctlStep::Retry(b) => assert_eq!(b.as_bytes().len(), 2 * 312 + 312),
        _ => panic!("a full buffer is retried"),
    }
}

#[test]
fn identity_buffer_names_the_device() {
    let buf = IoctlBuffer::for_identity(&DMIdentity::Name("foo"));
    let h = buf.header();
    assert_eq!(&h.name[0..4], b"foo\0");
    assert_eq!(h.version, [4, 27, 0]);
    assert_eq!(buf.as_bytes().len(), HEADER_SIZE);
    let long = "x".repeat(200);
    let buf = IoctlBuffer::for_identity(&DMIdentity::UUID(&long));
    assert_eq!(buf.header().uuid[0], 0);
}

#[test]
fn ioctl_codes() {
    assert_eq!(IoctlCode::DmVersion.code(), 3241737472);
    assert_eq!(IoctlCode::DmDevCreate.code(), 0xC138_FD03);
    assert_eq!(IoctlCode::DmTableClear.code(), 3241737482);
    assert_eq!(IoctlCode::DmDevSetGeometry.code(), 3241737487);
}

#[test]
fn flag_bits() {
    assert_eq!(DmFlag::ReadOnly.bit(), 0);
    assert_eq!(DmFlag::BufferFull.bit(), 8);
    assert_eq!(DmFlag::DeferredRemove.bit(), 17);
}
