//! The header of a device-mapper ioctl (`struct dm_ioctl`), its packed
//! little-endian byte layout, and the buffers handed to the kernel.
use vstd::bytes::*;
use vstd::prelude::*;

use crate::device_mapper::{
    c_str,
    is_c_chars,
    lemma_c_str_of_padded,
    lemma_utf8_len,
    copy_and_pad,
    padded,
    zero,
    zeroes,
    DMIdentity,
    IdentityView,
    DM_NAME_LEN,
    DM_UUID_LEN,
    DM_VERSION_MAJOR,
    DM_VERSION_MINOR,
    DM_VERSION_PATCH,
};

verus! {

/// Size of the padding at the end of the header.
pub const DM_DATA_PAD_LEN: usize = 7;

/// Size in bytes of the packed header.
pub const HEADER_SIZE: usize = 312;

/// `struct dm_ioctl`.  Its fields are laid out packed, in this order, each
/// integer little-endian.
pub struct IoctlHeader {
    pub version: [u32; 3],
    pub data_size: u32,
    pub data_start: u32,
    pub target_count: u32,
    pub open_count: i32,
    pub flags: u32,
    pub event_nr: u32,
    pub padding: u32,
    pub dev: u64,
    pub name: [u8; DM_NAME_LEN],
    pub uuid: [u8; DM_UUID_LEN],
    pub data: [u8; DM_DATA_PAD_LEN],
}

/// The fields of a header as mathematical values.
pub struct IoctlHeaderView {
    pub version: Seq<u32>,
    pub data_size: u32,
    pub data_start: u32,
    pub target_count: u32,
    pub open_count: i32,
    pub flags: u32,
    pub event_nr: u32,
    pub padding: u32,
    pub dev: u64,
    pub name: Seq<u8>,
    pub uuid: Seq<u8>,
    pub data: Seq<u8>,
}

impl View for IoctlHeader {
    type V = IoctlHeaderView;

    open spec fn view(&self) -> IoctlHeaderView {
        IoctlHeaderView {
            version: self.version@,
            data_size: self.data_size,
            data_start: self.data_start,
            target_count: self.target_count,
            open_count: self.open_count,
            flags: self.flags,
            event_nr: self.event_nr,
            padding: self.padding,
            dev: self.dev,
            name: self.name@,
            uuid: self.uuid@,
            data: self.data@,
        }
    }
}

/// The four little-endian bytes of a signed 32-bit value.
pub open spec fn i32_le(x: i32) -> Seq<u8> {
    spec_u32_to_le_bytes(x as u32)
}

impl IoctlHeaderView {
    /// The array fields have the lengths of the header's arrays.
    pub open spec fn wf(self) -> bool {
        &&& self.version.len() == 3
        &&& self.name.len() == DM_NAME_LEN
        &&& self.uuid.len() == DM_UUID_LEN
        &&& self.data.len() == DM_DATA_PAD_LEN
    }

    /// The packed little-endian bytes of the header.
    pub open spec fn encode(self) -> Seq<u8> {
        spec_u32_to_le_bytes(self.version[0]) + spec_u32_to_le_bytes(self.version[1])
            + spec_u32_to_le_bytes(self.version[2]) + spec_u32_to_le_bytes(self.data_size)
            + spec_u32_to_le_bytes(self.data_start) + spec_u32_to_le_bytes(self.target_count)
            + i32_le(self.open_count) + spec_u32_to_le_bytes(self.flags)
            + spec_u32_to_le_bytes(self.event_nr) + spec_u32_to_le_bytes(self.padding)
            + spec_u64_to_le_bytes(self.dev) + self.name + self.uuid + self.data
    }

    /// The header that the first `HEADER_SIZE` bytes of `b` hold.
    pub open spec fn decode(b: Seq<u8>) -> IoctlHeaderView {
        IoctlHeaderView {
            version: seq![
                spec_u32_from_le_bytes(b.subrange(0, 4)),
                spec_u32_from_le_bytes(b.subrange(4, 8)),
                spec_u32_from_le_bytes(b.subrange(8, 12)),
            ],
            data_size: spec_u32_from_le_bytes(b.subrange(12, 16)),
            data_start: spec_u32_from_le_bytes(b.subrange(16, 20)),
            target_count: spec_u32_from_le_bytes(b.subrange(20, 24)),
            open_count: spec_u32_from_le_bytes(b.subrange(24, 28)) as i32,
            flags: spec_u32_from_le_bytes(b.subrange(28, 32)),
            event_nr: spec_u32_from_le_bytes(b.subrange(32, 36)),
            padding: spec_u32_from_le_bytes(b.subrange(36, 40)),
            dev: spec_u64_from_le_bytes(b.subrange(40, 48)),
            name: b.subrange(48, 176),
            uuid: b.subrange(176, 305),
            data: b.subrange(305, 312),
        }
    }

    /// The header with every field zero.
    pub open spec fn zeroed() -> IoctlHeaderView {
        IoctlHeaderView {
            version: seq![0u32, 0u32, 0u32],
            data_size: 0,
            data_start: 0,
            target_count: 0,
            open_count: 0,
            flags: 0,
            event_nr: 0,
            padding: 0,
            dev: 0,
            name: zeroes(DM_NAME_LEN as nat),
            uuid: zeroes(DM_UUID_LEN as nat),
            data: zeroes(DM_DATA_PAD_LEN as nat),
        }
    }

    /// The header after a request to name a device by `id`: `None` when the
    /// identity does not fit its field (its UTF-8 encoding, with room for a
    /// terminating zero, is longer than the field).
    pub open spec fn with_identity(self, id: IdentityView) -> Option<IoctlHeaderView> {
        match id {
            IdentityView::Uuid(s) => if vstd::utf8::encode_utf8(s).len() >= DM_UUID_LEN {
                None
            } else {
                Some(
                    IoctlHeaderView {
                        uuid: padded(s, DM_UUID_LEN as nat),
                        name: zeroes(DM_NAME_LEN as nat),
                        ..self
                    },
                )
            },
            IdentityView::Name(s) => if vstd::utf8::encode_utf8(s).len() >= DM_NAME_LEN {
                None
            } else {
                Some(
                    IoctlHeaderView {
                        name: padded(s, DM_NAME_LEN as nat),
                        uuid: zeroes(DM_UUID_LEN as nat),
                        ..self
                    },
                )
            },
        }
    }
}

/// Encoding a header and decoding the bytes gives the header back.
pub proof fn lemma_decode_encode(h: IoctlHeaderView)
    requires
        h.wf(),
    ensures
        h.encode().len() == HEADER_SIZE,
        IoctlHeaderView::decode(h.encode()) == h,
{
    lemma_auto_spec_u32_to_from_le_bytes();
    lemma_auto_spec_u64_to_from_le_bytes();
    let e = h.encode();
    assert(e.subrange(0, 4) =~= spec_u32_to_le_bytes(h.version[0]));
    assert(e.subrange(4, 8) =~= spec_u32_to_le_bytes(h.version[1]));
    assert(e.subrange(8, 12) =~= spec_u32_to_le_bytes(h.version[2]));
    assert(e.subrange(12, 16) =~= spec_u32_to_le_bytes(h.data_size));
    assert(e.subrange(16, 20) =~= spec_u32_to_le_bytes(h.data_start));
    assert(e.subrange(20, 24) =~= spec_u32_to_le_bytes(h.target_count));
    assert(e.subrange(24, 28) =~= i32_le(h.open_count));
    assert(e.subrange(28, 32) =~= spec_u32_to_le_bytes(h.flags));
    assert(e.subrange(32, 36) =~= spec_u32_to_le_bytes(h.event_nr));
    assert(e.subrange(36, 40) =~= spec_u32_to_le_bytes(h.padding));
    assert(e.subrange(40, 48) =~= spec_u64_to_le_bytes(h.dev));
    assert(e.subrange(48, 176) =~= h.name);
    assert(e.subrange(176, 305) =~= h.uuid);
    assert(e.subrange(305, 312) =~= h.data);
    let x = h.open_count;
    assert((x as u32) as i32 == x) by (bit_vector);
    assert(IoctlHeaderView::decode(e).version =~= h.version);
}

/// Decoding the first `HEADER_SIZE` bytes and encoding the header gives those
/// bytes back.
pub proof fn lemma_encode_decode(b: Seq<u8>)
    requires
        b.len() >= HEADER_SIZE,
    ensures
        IoctlHeaderView::decode(b).wf(),
        IoctlHeaderView::decode(b).encode() == b.subrange(0, HEADER_SIZE as int),
{
    lemma_auto_spec_u32_to_from_le_bytes();
    lemma_auto_spec_u64_to_from_le_bytes();
    let h = IoctlHeaderView::decode(b);
    let y = spec_u32_from_le_bytes(b.subrange(24, 28));
    assert((y as i32) as u32 == y) by (bit_vector);
    assert(spec_u32_to_le_bytes(spec_u32_from_le_bytes(b.subrange(24, 28))) == b.subrange(24, 28));
    assert(h.encode() =~= b.subrange(0, HEADER_SIZE as int));
}

/// Copies `src[off..off + N]` into `dest`.
fn copy_from<const N: usize>(dest: &mut [u8; N], src: &[u8], off: usize)
    requires
        off + N <= src@.len(),
    ensures
        final(dest)@ == src@.subrange(off as int, off + N),
{
    let n = src.len();
    let mut i: usize = 0;
    while i < N
        invariant
            0 <= i <= N,
            n == src@.len(),
            off + N <= src@.len(),
            dest@.len() == N,
            forall|j: int| 0 <= j < i ==> dest@[j] == src@[off + j],
        decreases N - i,
    {
        dest[i] = src[off + i];
        i = i + 1;
    }
    assert(dest@ =~= src@.subrange(off as int, off + N));
}

impl IoctlHeader {
    /// A header with every field zero.
    pub fn new() -> (r: IoctlHeader)
        ensures
            r@ == IoctlHeaderView::zeroed(),
    {
        let r = IoctlHeader {
            version: [0u32, 0u32, 0u32],
            data_size: 0,
            data_start: 0,
            target_count: 0,
            open_count: 0,
            flags: 0,
            event_nr: 0,
            padding: 0,
            dev: 0,
            name: [0u8; 128],
            uuid: [0u8; 129],
            data: [0u8; 7],
        };
        assert(r.version@ =~= seq![0u32, 0u32, 0u32]);
        assert(r.name@ =~= zeroes(DM_NAME_LEN as nat));
        assert(r.uuid@ =~= zeroes(DM_UUID_LEN as nat));
        assert(r.data@ =~= zeroes(DM_DATA_PAD_LEN as nat));
        r
    }

    /// The packed bytes of the header.
    pub fn to_bytes(&self) -> (r: Vec<u8>)
        ensures
            r@ == self@.encode(),
            r@.len() == HEADER_SIZE,
    {
        let mut r: Vec<u8> = Vec::new();
        r.extend_from_slice(u32_to_le_bytes(self.version[0]).as_slice());
        r.extend_from_slice(u32_to_le_bytes(self.version[1]).as_slice());
        r.extend_from_slice(u32_to_le_bytes(self.version[2]).as_slice());
        r.extend_from_slice(u32_to_le_bytes(self.data_size).as_slice());
        r.extend_from_slice(u32_to_le_bytes(self.data_start).as_slice());
        r.extend_from_slice(u32_to_le_bytes(self.target_count).as_slice());
        r.extend_from_slice(u32_to_le_bytes(self.open_count as u32).as_slice());
        r.extend_from_slice(u32_to_le_bytes(self.flags).as_slice());
        r.extend_from_slice(u32_to_le_bytes(self.event_nr).as_slice());
        r.extend_from_slice(u32_to_le_bytes(self.padding).as_slice());
        r.extend_from_slice(u64_to_le_bytes(self.dev).as_slice());
        r.extend_from_slice(self.name.as_slice());
        r.extend_from_slice(self.uuid.as_slice());
        r.extend_from_slice(self.data.as_slice());
        proof {
            lemma_decode_encode(self@);
        }
        r
    }

    /// The header held by the first `HEADER_SIZE` bytes of `b`.
    pub fn from_bytes(b: &[u8]) -> (r: IoctlHeader)
        requires
            b@.len() >= HEADER_SIZE,
        ensures
            r@ == IoctlHeaderView::decode(b@),
    {
        let mut r = IoctlHeader::new();
        r.version[0] = u32_from_le_bytes(vstd::slice::slice_subrange(b, 0, 4));
        r.version[1] = u32_from_le_bytes(vstd::slice::slice_subrange(b, 4, 8));
        r.version[2] = u32_from_le_bytes(vstd::slice::slice_subrange(b, 8, 12));
        r.data_size = u32_from_le_bytes(vstd::slice::slice_subrange(b, 12, 16));
        r.data_start = u32_from_le_bytes(vstd::slice::slice_subrange(b, 16, 20));
        r.target_count = u32_from_le_bytes(vstd::slice::slice_subrange(b, 20, 24));
        r.open_count = u32_from_le_bytes(vstd::slice::slice_subrange(b, 24, 28)) as i32;
        r.flags = u32_from_le_bytes(vstd::slice::slice_subrange(b, 28, 32));
        r.event_nr = u32_from_le_bytes(vstd::slice::slice_subrange(b, 32, 36));
        r.padding = u32_from_le_bytes(vstd::slice::slice_subrange(b, 36, 40));
        r.dev = u64_from_le_bytes(vstd::slice::slice_subrange(b, 40, 48));
        copy_from(&mut r.name, b, 48);
        copy_from(&mut r.uuid, b, 176);
        copy_from(&mut r.data, b, 305);
        assert(r.version@ =~= IoctlHeaderView::decode(b@).version);
        r
    }

    /// Names the device by `id`: copies the identity into its field, padded with
    /// zeroes, and zeroes the other field.  Returns false, and leaves the header
    /// as it was, when the identity is too long for its field.
    pub fn set_identity(&mut self, id: &DMIdentity) -> (r: bool)
        ensures
            match old(self)@.with_identity(id@) {
                Some(h) => r && final(self)@ == h,
                None => !r && final(self)@ == old(self)@,
            },
    {
        match id {
            DMIdentity::UUID(s) => {
                if s.as_bytes().len() >= DM_UUID_LEN {
                    return false;
                }
                copy_and_pad(&mut self.uuid, s);
                zero(&mut self.name);
            },
            DMIdentity::Name(s) => {
                if s.as_bytes().len() >= DM_NAME_LEN {
                    return false;
                }
                copy_and_pad(&mut self.name, s);
                zero(&mut self.uuid);
            },
        }
        true
    }
}

/// The header of a fresh buffer of `total` bytes: the interface version this
/// crate speaks, the size of the whole buffer, and the payload starting right
/// after the header.
pub open spec fn initial_header(total: nat) -> IoctlHeaderView {
    IoctlHeaderView {
        version: seq![DM_VERSION_MAJOR, DM_VERSION_MINOR, DM_VERSION_PATCH],
        data_size: total as u32,
        data_start: HEADER_SIZE as u32,
        ..IoctlHeaderView::zeroed()
    }
}

/// The bytes of a fresh buffer with room for `payload` bytes after the header.
pub open spec fn new_buffer_bytes(payload: nat) -> Seq<u8> {
    initial_header(payload + HEADER_SIZE as nat).encode() + zeroes(payload)
}

/// A fresh buffer is `HEADER_SIZE` bytes longer than its payload, and its header
/// reads back as the fresh header recording that length.
pub proof fn lemma_new_buffer_bytes(payload: nat)
    ensures
        new_buffer_bytes(payload).len() == payload + HEADER_SIZE,
        IoctlHeaderView::decode(new_buffer_bytes(payload)) == initial_header(
            payload + HEADER_SIZE as nat,
        ),
{
    let h = initial_header(payload + HEADER_SIZE as nat);
    assert(h.wf());
    lemma_decode_encode(h);
    lemma_decode_after_write(h, zeroes(payload));
}

/// Reading the header of bytes that start with an encoded header gives that
/// header back, whatever follows it.
pub proof fn lemma_decode_after_write(h: IoctlHeaderView, rest: Seq<u8>)
    requires
        h.wf(),
    ensures
        IoctlHeaderView::decode(h.encode() + rest) == h,
{
    lemma_decode_encode(h);
    let b = h.encode() + rest;
    assert(b.subrange(0, HEADER_SIZE as int) =~= h.encode());
    lemma_decode_prefix(b);
}

/// Two byte sequences that agree on the header bytes, but perhaps for those of
/// `data_size`, hold the same header but perhaps for that field.
pub proof fn lemma_decode_agree(b: Seq<u8>, c: Seq<u8>)
    requires
        b.len() >= HEADER_SIZE,
        c.len() >= HEADER_SIZE,
        forall|i: int| 0 <= i < HEADER_SIZE && !(12 <= i < 16) ==> b[i] == c[i],
    ensures
        IoctlHeaderView::decode(b) == (IoctlHeaderView {
            data_size: IoctlHeaderView::decode(b).data_size,
            ..IoctlHeaderView::decode(c)
        }),
{
    assert(b.subrange(0, 4) =~= c.subrange(0, 4));
    assert(b.subrange(4, 8) =~= c.subrange(4, 8));
    assert(b.subrange(8, 12) =~= c.subrange(8, 12));
    assert(b.subrange(16, 20) =~= c.subrange(16, 20));
    assert(b.subrange(20, 24) =~= c.subrange(20, 24));
    assert(b.subrange(24, 28) =~= c.subrange(24, 28));
    assert(b.subrange(28, 32) =~= c.subrange(28, 32));
    assert(b.subrange(32, 36) =~= c.subrange(32, 36));
    assert(b.subrange(36, 40) =~= c.subrange(36, 40));
    assert(b.subrange(40, 48) =~= c.subrange(40, 48));
    assert(b.subrange(48, 176) =~= c.subrange(48, 176));
    assert(b.subrange(176, 305) =~= c.subrange(176, 305));
    assert(b.subrange(305, 312) =~= c.subrange(305, 312));
    assert(IoctlHeaderView::decode(b).version =~= IoctlHeaderView::decode(c).version);
}

/// The header of a byte sequence depends on its first `HEADER_SIZE` bytes only.
pub proof fn lemma_decode_prefix(b: Seq<u8>)
    requires
        b.len() >= HEADER_SIZE,
    ensures
        IoctlHeaderView::decode(b) == IoctlHeaderView::decode(b.subrange(0, HEADER_SIZE as int)),
{
    let p = b.subrange(0, HEADER_SIZE as int);
    lemma_decode_agree(b, p);
    assert(b.subrange(12, 16) =~= p.subrange(12, 16));
}

/// A fresh buffer with twice the recorded size of `b` as payload, whose first
/// `data_size` bytes are those of `b`.
pub open spec fn copied_into_larger(b: Seq<u8>) -> Seq<u8> {
    let size = IoctlHeaderView::decode(b).data_size as nat;
    b.subrange(0, size as int) + new_buffer_bytes(2 * size).skip(size as int)
}

/// The size recorded in the buffer that replaces `b`: twice its recorded size
/// plus a header.
pub open spec fn expanded_size(b: Seq<u8>) -> u32 {
    (2 * IoctlHeaderView::decode(b).data_size + HEADER_SIZE) as u32
}

/// The bytes of the buffer that replaces a full one: the old bytes copied into a
/// larger fresh buffer, whose header then records the larger size.
pub open spec fn expanded_bytes(b: Seq<u8>) -> Seq<u8> {
    let c = copied_into_larger(b);
    c.subrange(0, 12) + spec_u32_to_le_bytes(expanded_size(b)) + c.skip(16)
}

/// The buffer that replaces a full one is twice its recorded size plus a header
/// long, records that size, and keeps the other header fields that were copied.
pub proof fn lemma_expanded_header(b: Seq<u8>)
    requires
        IoctlHeaderView::decode(b).data_size <= b.len(),
    ensures
        expanded_bytes(b).len() == 2 * IoctlHeaderView::decode(b).data_size + HEADER_SIZE,
        IoctlHeaderView::decode(expanded_bytes(b)) == (IoctlHeaderView {
            data_size: expanded_size(b),
            ..IoctlHeaderView::decode(copied_into_larger(b))
        }),
{
    let size = IoctlHeaderView::decode(b).data_size as nat;
    lemma_new_buffer_bytes(2 * size);
    lemma_auto_spec_u32_to_from_le_bytes();
    let c = copied_into_larger(b);
    let e = expanded_bytes(b);
    assert(e.subrange(12, 16) =~= spec_u32_to_le_bytes(expanded_size(b)));
    lemma_decode_agree(e, c);
}

/// The bytes handed to the kernel with an ioctl: a header, then the payload.
pub struct IoctlBuffer {
    buffer: Vec<u8>,
}

impl View for IoctlBuffer {
    type V = Seq<u8>;

    closed spec fn view(&self) -> Seq<u8> {
        self.buffer@
    }
}

impl IoctlBuffer {
    #[verifier::type_invariant]
    closed spec fn holds_header(self) -> bool {
        self.buffer@.len() >= HEADER_SIZE
    }

    /// The header that the buffer holds.
    pub open spec fn header_view(&self) -> IoctlHeaderView {
        IoctlHeaderView::decode(self@)
    }

    /// A buffer with a fresh header and `payload_size` zero bytes of payload.
    pub fn new(payload_size: usize) -> (r: IoctlBuffer)
        requires
            payload_size + HEADER_SIZE <= usize::MAX,
        ensures
            r@ == new_buffer_bytes(payload_size as nat),
            r@.len() == payload_size + HEADER_SIZE,
    {
        proof {
            lemma_new_buffer_bytes(payload_size as nat);
        }
        let total = payload_size + HEADER_SIZE;
        let mut h = IoctlHeader::new();
        h.version[0] = DM_VERSION_MAJOR;
        h.version[1] = DM_VERSION_MINOR;
        h.version[2] = DM_VERSION_PATCH;
        h.data_size = total as u32;
        h.data_start = HEADER_SIZE as u32;
        let mut buffer = h.to_bytes();
        let mut pad = vec![0u8; payload_size];
        buffer.append(&mut pad);
        assert(h.version@ =~= seq![DM_VERSION_MAJOR, DM_VERSION_MINOR, DM_VERSION_PATCH]);
        assert(h@ == initial_header(total as nat));
        assert(buffer@ =~= new_buffer_bytes(payload_size as nat));
        IoctlBuffer { buffer }
    }

    /// Takes over `bytes` as a buffer; `None` when they are too short to hold a
    /// header.
    pub fn from_bytes(bytes: Vec<u8>) -> (r: Option<IoctlBuffer>)
        ensures
            r is Some <==> bytes@.len() >= HEADER_SIZE,
            r matches Some(b) ==> b@ == bytes@,
    {
        if bytes.len() >= HEADER_SIZE {
            Some(IoctlBuffer { buffer: bytes })
        } else {
            None
        }
    }

    /// The bytes of the buffer.
    pub fn into_bytes(self) -> (r: Vec<u8>)
        ensures
            r@ == self@,
    {
        self.buffer
    }

    /// The bytes of the buffer, borrowed.
    pub fn as_bytes(&self) -> (r: &[u8])
        ensures
            r@ == self@,
    {
        self.buffer.as_slice()
    }

    /// The bytes after the header.
    pub fn payload(&self) -> (r: &[u8])
        ensures
            r@ == self@.skip(HEADER_SIZE as int),
    {
        proof {
            use_type_invariant(self);
        }
        let r = vstd::slice::slice_subrange(self.buffer.as_slice(), HEADER_SIZE, self.buffer.len());
        assert(r@ =~= self@.skip(HEADER_SIZE as int));
        r
    }

    /// The header the buffer holds.
    pub fn header(&self) -> (r: IoctlHeader)
        ensures
            r@ == self.header_view(),
    {
        proof {
            use_type_invariant(self);
        }
        IoctlHeader::from_bytes(self.buffer.as_slice())
    }

    /// Writes `h` over the header; the payload stays as it was.
    pub fn set_header(&mut self, h: &IoctlHeader)
        ensures
            final(self)@ == h@.encode() + old(self)@.skip(HEADER_SIZE as int),
    {
        proof {
            use_type_invariant(&*self);
        }
        let mut bytes = h.to_bytes();
        bytes.extend_from_slice(
            vstd::slice::slice_subrange(self.buffer.as_slice(), HEADER_SIZE, self.buffer.len()),
        );
        self.buffer = bytes;
        assert(self@ =~= h@.encode() + old(self)@.skip(HEADER_SIZE as int));
    }

    /// The size of the buffer as its header records it.
    pub fn total_size(&self) -> (r: usize)
        ensures
            r == self.header_view().data_size,
    {
        proof {
            use_type_invariant(self);
        }
        u32_from_le_bytes(vstd::slice::slice_subrange(self.buffer.as_slice(), 12, 16)) as usize
    }

    /// A larger buffer for a request whose answer did not fit: a fresh buffer with
    /// twice the recorded size as payload, starting with the recorded size's
    /// worth of this buffer's bytes, and whose header records its own size.
    pub fn expand(&self) -> (r: IoctlBuffer)
        requires
            self.header_view().data_size <= self@.len(),
            2 * self.header_view().data_size + HEADER_SIZE <= usize::MAX,
        ensures
            r@ == expanded_bytes(self@),
    {
        let size = self.total_size();
        proof {
            lemma_new_buffer_bytes(2 * size as nat);
        }
        let fresh = IoctlBuffer::new(2 * size);
        let mut bytes = fresh.into_bytes();
        let mut i: usize = 0;
        while i < size
            invariant
                0 <= i <= size,
                size <= self@.len(),
                size == self.header_view().data_size,
                bytes@.len() == 2 * size + HEADER_SIZE,
                forall|j: int| 0 <= j < i ==> bytes@[j] == self@[j],
                forall|j: int|
                    i <= j < bytes@.len() ==> bytes@[j] == new_buffer_bytes(2 * size as nat)[j],
            decreases size - i,
        {
            bytes.set(i, self.buffer[i]);
            i = i + 1;
        }
        assert(bytes@ =~= copied_into_larger(self@));
        let total = 2 * size + HEADER_SIZE;
        let recorded = u32_to_le_bytes(total as u32);
        let ghost copied = bytes@;
        let mut k: usize = 0;
        while k < 4
            invariant
                0 <= k <= 4,
                recorded@ == spec_u32_to_le_bytes(total as u32),
                recorded@.len() == 4,
                copied.len() == total,
                total >= HEADER_SIZE,
                bytes@.len() == total,
                forall|j: int| 0 <= j < 12 ==> bytes@[j] == copied[j],
                forall|j: int| 16 <= j < total ==> bytes@[j] == copied[j],
                forall|j: int| 12 + k <= j < 16 ==> bytes@[j] == copied[j],
                forall|j: int| 12 <= j < 12 + k ==> bytes@[j] == recorded@[j - 12],
            decreases 4 - k,
        {
            bytes.set(12 + k, recorded[k]);
            k = k + 1;
        }
        assert(copied == copied_into_larger(self@));
        assert(expanded_size(self@) == total as u32);
        proof {
            lemma_auto_spec_u32_to_from_le_bytes();
            let e = expanded_bytes(self@);
            assert(spec_u32_to_le_bytes(expanded_size(self@)) == recorded@);
            assert(e == copied.subrange(0, 12) + recorded@ + copied.skip(16));
            assert(e.len() == total);
            assert forall|j: int| 0 <= j < total implies bytes@[j] == e[j] by {
                if j < 12 {
                } else if j < 16 {
                    assert(e[j] == recorded@[j - 12]);
                } else {
                    assert(e[j] == copied[j]);
                }
            }
        }
        assert(bytes@ =~= expanded_bytes(self@));
        IoctlBuffer { buffer: bytes }
    }
}

/// Writing back the header that was read from a buffer leaves the buffer as it
/// was.
pub proof fn lemma_write_back_header(b: Seq<u8>)
    requires
        b.len() >= HEADER_SIZE,
    ensures
        IoctlHeaderView::decode(b).encode() + b.skip(HEADER_SIZE as int) == b,
{
    lemma_encode_decode(b);
    assert(b.subrange(0, HEADER_SIZE as int) + b.skip(HEADER_SIZE as int) =~= b);
}

/// The flag bits of the header's `flags` field.
pub enum DmFlag {
    ReadOnly,
    Suspend,
    PersistentDev,
    StatusTable,
    ActivePresent,
    InactivePresent,
    BufferFull,
    SkipBDGet,
    SkipLockFS,
    NoFlush,
    QueryInactiveTable,
    UeventGenerated,
    Uuid,
    SecureData,
    DataOut,
    DeferredRemove,
}

impl DmFlag {
    /// The bit position of the flag.
    pub open spec fn spec_bit(self) -> u32 {
        match self {
            DmFlag::ReadOnly => 0,
            DmFlag::Suspend => 1,
            DmFlag::PersistentDev => 3,
            DmFlag::StatusTable => 4,
            DmFlag::ActivePresent => 5,
            DmFlag::InactivePresent => 6,
            DmFlag::BufferFull => 8,
            DmFlag::SkipBDGet => 9,
            DmFlag::SkipLockFS => 10,
            DmFlag::NoFlush => 11,
            DmFlag::QueryInactiveTable => 12,
            DmFlag::UeventGenerated => 13,
            DmFlag::Uuid => 14,
            DmFlag::SecureData => 15,
            DmFlag::DataOut => 16,
            DmFlag::DeferredRemove => 17,
        }
    }

    /// The bit position of the flag.
    pub fn bit(&self) -> (r: u32)
        ensures
            r == self.spec_bit(),
    {
        match self {
            DmFlag::ReadOnly => 0,
            DmFlag::Suspend => 1,
            DmFlag::PersistentDev => 3,
            DmFlag::StatusTable => 4,
            DmFlag::ActivePresent => 5,
            DmFlag::InactivePresent => 6,
            DmFlag::BufferFull => 8,
            DmFlag::SkipBDGet => 9,
            DmFlag::SkipLockFS => 10,
            DmFlag::NoFlush => 11,
            DmFlag::QueryInactiveTable => 12,
            DmFlag::UeventGenerated => 13,
            DmFlag::Uuid => 14,
            DmFlag::SecureData => 15,
            DmFlag::DataOut => 16,
            DmFlag::DeferredRemove => 17,
        }
    }
}

/// `flags` has the bit of `flag` set.
pub open spec fn flag_set(flags: u32, flag: DmFlag) -> bool {
    flags & (1u32 << flag.spec_bit()) != 0
}

/// The device-mapper ioctl commands.
#[derive(Debug, Clone, Copy)]
pub enum IoctlCode {
    DmVersion,
    DmRemoveAll,
    DmListDevices,
    DmDevCreate,
    DmDevRemove,
    DmDevRename,
    DmDevSuspend,
    DmDevStatus,
    DmDevWait,
    DmTableLoad,
    DmTableClear,
    DmTableDeps,
    DmTableStatus,
    DmListVersions,
    DmTargetMsg,
    DmDevSetGeometry,
}

impl IoctlCode {
    /// The command number of the request within the device-mapper ioctls.
    pub open spec fn nr(self) -> u64 {
        match self {
            IoctlCode::DmVersion => 0,
            IoctlCode::DmRemoveAll => 1,
            IoctlCode::DmListDevices => 2,
            IoctlCode::DmDevCreate => 3,
            IoctlCode::DmDevRemove => 4,
            IoctlCode::DmDevRename => 5,
            IoctlCode::DmDevSuspend => 6,
            IoctlCode::DmDevStatus => 7,
            IoctlCode::DmDevWait => 8,
            IoctlCode::DmTableLoad => 9,
            IoctlCode::DmTableClear => 10,
            IoctlCode::DmTableDeps => 11,
            IoctlCode::DmTableStatus => 12,
            IoctlCode::DmListVersions => 13,
            IoctlCode::DmTargetMsg => 14,
            IoctlCode::DmDevSetGeometry => 15,
        }
    }

    /// The request number passed to `ioctl`: a read-write request (direction 3)
    /// carrying a header of `HEADER_SIZE` bytes, of the device-mapper ioctl type
    /// `0xfd`, with the command's number.
    pub fn code(&self) -> (r: u64)
        ensures
            r == 3 * 0x4000_0000 + HEADER_SIZE * 0x1_0000 + 0xfd * 0x100 + self.nr(),
    {
        match self {
            IoctlCode::DmVersion => 3241737472,
            IoctlCode::DmRemoveAll => 3241737473,
            IoctlCode::DmListDevices => 3241737474,
            IoctlCode::DmDevCreate => 3241737475,
            IoctlCode::DmDevRemove => 3241737476,
            IoctlCode::DmDevRename => 3241737477,
            IoctlCode::DmDevSuspend => 3241737478,
            IoctlCode::DmDevStatus => 3241737479,
            IoctlCode::DmDevWait => 3241737480,
            IoctlCode::DmTableLoad => 3241737481,
            IoctlCode::DmTableClear => 3241737482,
            IoctlCode::DmTableDeps => 3241737483,
            IoctlCode::DmTableStatus => 3241737484,
            IoctlCode::DmListVersions => 3241737485,
            IoctlCode::DmTargetMsg => 3241737486,
            IoctlCode::DmDevSetGeometry => 3241737487,
        }
    }
}

/// What to do once the kernel has answered an ioctl.
pub enum IoctlStep {
    /// The request succeeded; the buffer holds the answer.
    Done(IoctlBuffer),
    /// The answer did not fit: issue the same request again with this buffer.
    Retry(IoctlBuffer),
    /// The request failed.
    Failed,
}

/// The kernel reported that the answer did not fit the buffer.
pub open spec fn answer_overflowed(b: Seq<u8>) -> bool {
    flag_set(IoctlHeaderView::decode(b).flags, DmFlag::BufferFull)
}

/// Decides what follows an ioctl that returned `ret` and left `buf` behind:
/// a non-zero return is a failure; otherwise, when the kernel set the
/// buffer-full flag, the request is retried with an expanded buffer, and when
/// it did not, the buffer is the answer.
pub fn after_ioctl(buf: IoctlBuffer, ret: i32) -> (r: IoctlStep)
    requires
        ret == 0 && answer_overflowed(buf@) ==> {
            &&& buf.header_view().data_size <= buf@.len()
            &&& 2 * buf.header_view().data_size + HEADER_SIZE <= usize::MAX
        },
    ensures
        ret != 0 ==> r is Failed,
        ret == 0 && answer_overflowed(buf@) ==> (r matches IoctlStep::Retry(b) && b@
            == expanded_bytes(buf@)),
        ret == 0 && !answer_overflowed(buf@) ==> (r matches IoctlStep::Done(b) && b@ == buf@),
{
    if ret != 0 {
        return IoctlStep::Failed;
    }
    let header = buf.header();
    let full_bit = DmFlag::BufferFull.bit();
    if header.flags & (1u32 << full_bit) != 0 {
        IoctlStep::Retry(buf.expand())
    } else {
        IoctlStep::Done(buf)
    }
}

impl IoctlBuffer {
    /// A request buffer without payload that names the device `id`.  When the
    /// identity is too long for its field the header names no device.
    pub fn for_identity(id: &DMIdentity) -> (r: IoctlBuffer)
        ensures
            r@ == (match initial_header(HEADER_SIZE as nat).with_identity(id@) {
                Some(h) => h,
                None => initial_header(HEADER_SIZE as nat),
            }).encode(),
    {
        let mut buf = IoctlBuffer::new(0);
        proof {
            lemma_new_buffer_bytes(0);
        }
        let mut header = buf.header();
        let _ = header.set_identity(id);
        buf.set_header(&header);
        proof {
            lemma_decode_encode(header@);
            assert(buf@ =~= header@.encode());
        }
        buf
    }

    /// The interface version the header records, as major, minor and patch level.
    pub fn version(&self) -> (r: (u32, u32, u32))
        ensures
            r == (self.header_view().version[0], self.header_view().version[1],
                self.header_view().version[2]),
    {
        let header = self.header();
        (header.version[0], header.version[1], header.version[2])
    }
}

/// Naming a device by `s` and reading the name field back as a C string gives
/// `s`, when each character of `s` fits a byte and none is NUL; the uuid field
/// is then empty.
pub proof fn lemma_name_reads_back(h: IoctlHeaderView, s: Seq<char>)
    requires
        h.with_identity(IdentityView::Name(s)) is Some,
        is_c_chars(s),
    ensures
        c_str(h.with_identity(IdentityView::Name(s))->0.name) == s,
        c_str(h.with_identity(IdentityView::Name(s))->0.uuid) == Seq::<char>::empty(),
{
    lemma_utf8_len(s);
    lemma_c_str_of_padded(s, DM_NAME_LEN as nat);
    lemma_c_str_of_padded(Seq::<char>::empty(), DM_UUID_LEN as nat);
    assert(padded(Seq::<char>::empty(), DM_UUID_LEN as nat) =~= zeroes(DM_UUID_LEN as nat));
}

/// Naming a device by uuid `s` and reading the uuid field back as a C string
/// gives `s`, when each character of `s` fits a byte and none is NUL; the name
/// field is then empty.
pub proof fn lemma_uuid_reads_back(h: IoctlHeaderView, s: Seq<char>)
    requires
        h.with_identity(IdentityView::Uuid(s)) is Some,
        is_c_chars(s),
    ensures
        c_str(h.with_identity(IdentityView::Uuid(s))->0.uuid) == s,
        c_str(h.with_identity(IdentityView::Uuid(s))->0.name) == Seq::<char>::empty(),
{
    lemma_utf8_len(s);
    lemma_c_str_of_padded(s, DM_UUID_LEN as nat);
    lemma_c_str_of_padded(Seq::<char>::empty(), DM_NAME_LEN as nat);
    assert(padded(Seq::<char>::empty(), DM_NAME_LEN as nat) =~= zeroes(DM_NAME_LEN as nat));
}

/// Whether a request succeeds, and the identity fields it leaves, depend on the
/// identity alone: a shorter name leaves nothing of a longer one behind, and the
/// other fields keep their values.
pub proof fn lemma_identity_overrides(h1: IoctlHeaderView, h2: IoctlHeaderView, id: IdentityView)
    ensures
        h1.with_identity(id) is Some <==> h2.with_identity(id) is Some,
        h1.with_identity(id) matches Some(r1) ==> {
            &&& r1.name == h2.with_identity(id)->0.name
            &&& r1.uuid == h2.with_identity(id)->0.uuid
            &&& r1.version == h1.version
            &&& r1.data_size == h1.data_size
            &&& r1.flags == h1.flags
            &&& r1.dev == h1.dev
        },
{
}

/// Each field of an encoded header stands at its offset in the packed
/// `struct dm_ioctl`, little-endian: the version at 0, 4 and 8, `data_size` at
/// 12, `data_start` at 16, `target_count` at 20, `open_count` at 24, `flags` at
/// 28, `event_nr` at 32, `padding` at 36, `dev` at 40, `name` at 48, `uuid` at
/// 176 and the padding bytes at 305, for 312 bytes in all.
pub proof fn lemma_encode_layout(h: IoctlHeaderView)
    requires
        h.wf(),
    ensures
        h.encode().len() == 312,
        h.encode().subrange(0, 4) == spec_u32_to_le_bytes(h.version[0]),
        h.encode().subrange(4, 8) == spec_u32_to_le_bytes(h.version[1]),
        h.encode().subrange(8, 12) == spec_u32_to_le_bytes(h.version[2]),
        h.encode().subrange(12, 16) == spec_u32_to_le_bytes(h.data_size),
        h.encode().subrange(16, 20) == spec_u32_to_le_bytes(h.data_start),
        h.encode().subrange(20, 24) == spec_u32_to_le_bytes(h.target_count),
        h.encode().subrange(24, 28) == spec_u32_to_le_bytes(h.open_count as u32),
        h.encode().subrange(28, 32) == spec_u32_to_le_bytes(h.flags),
        h.encode().subrange(32, 36) == spec_u32_to_le_bytes(h.event_nr),
        h.encode().subrange(36, 40) == spec_u32_to_le_bytes(h.padding),
        h.encode().subrange(40, 48) == spec_u64_to_le_bytes(h.dev),
        h.encode().subrange(48, 176) == h.name,
        h.encode().subrange(176, 305) == h.uuid,
        h.encode().subrange(305, 312) == h.data,
{
    lemma_auto_spec_u32_to_from_le_bytes();
    lemma_auto_spec_u64_to_from_le_bytes();
    let e = h.encode();
    assert(e.subrange(0, 4) =~= spec_u32_to_le_bytes(h.version[0]));
    assert(e.subrange(4, 8) =~= spec_u32_to_le_bytes(h.version[1]));
    assert(e.subrange(8, 12) =~= spec_u32_to_le_bytes(h.version[2]));
    assert(e.subrange(12, 16) =~= spec_u32_to_le_bytes(h.data_size));
    assert(e.subrange(16, 20) =~= spec_u32_to_le_bytes(h.data_start));
    assert(e.subrange(20, 24) =~= spec_u32_to_le_bytes(h.target_count));
    assert(e.subrange(24, 28) =~= spec_u32_to_le_bytes(h.open_count as u32));
    assert(e.subrange(28, 32) =~= spec_u32_to_le_bytes(h.flags));
    assert(e.subrange(32, 36) =~= spec_u32_to_le_bytes(h.event_nr));
    assert(e.subrange(36, 40) =~= spec_u32_to_le_bytes(h.padding));
    assert(e.subrange(40, 48) =~= spec_u64_to_le_bytes(h.dev));
    assert(e.subrange(48, 176) =~= h.name);
    assert(e.subrange(176, 305) =~= h.uuid);
    assert(e.subrange(305, 312) =~= h.data);
}

/// The kernel's answer overflowed exactly when bit 8 (`0x100`) of the header's
/// `flags` is set, whatever the other flag bits are.
pub proof fn lemma_overflow_is_bit_8(b: Seq<u8>)
    ensures
        answer_overflowed(b) == (IoctlHeaderView::decode(b).flags & 0x100u32 != 0),
{
    assert(DmFlag::BufferFull.spec_bit() == 8);
    assert(1u32 << 8u32 == 0x100u32) by (bit_vector);
}

} // verus!
