//! The device-mapper interface: identities of devices, the fixed-size
//! string fields of the ioctl header, and the operations a device-mapper
//! backend offers.
use vstd::prelude::*;

pub mod high_level;
pub mod ioctl;
pub mod linear_target;
pub mod utils;

verus! {

/// Size of the `name` field of the ioctl header.
pub const DM_NAME_LEN: usize = 128;

/// Size of the `uuid` field of the ioctl header.
pub const DM_UUID_LEN: usize = 129;

/// Version of the ioctl interface that this crate speaks.
pub const DM_VERSION_MAJOR: u32 = 4;

/// Minor version of the ioctl interface.
pub const DM_VERSION_MINOR: u32 = 27;

/// Patch level of the ioctl interface.
pub const DM_VERSION_PATCH: u32 = 0;

/// One line of a device-mapper table: a target type covering a range of
/// sectors, with the arguments for its constructor.
#[derive(Debug)]
pub struct DmTarget {
    pub target_type: String,
    pub sector_begin: u64,
    pub sector_end: u64,
    pub ctr_args: String,
}

/// The fields of a table line as mathematical values.
pub struct DmTargetView {
    pub target_type: Seq<char>,
    pub sector_begin: u64,
    pub sector_end: u64,
    pub ctr_args: Seq<char>,
}

impl View for DmTarget {
    type V = DmTargetView;

    open spec fn view(&self) -> DmTargetView {
        DmTargetView {
            target_type: self.target_type@,
            sector_begin: self.sector_begin,
            sector_end: self.sector_end,
            ctr_args: self.ctr_args@,
        }
    }
}

/// A device known to device-mapper.
pub struct DeviceInfo {
    pub major: u32,
    pub minor: u32,
    pub name: String,
}

/// How a device is named in a request: by its name or by its uuid.
#[derive(Debug)]
pub enum DMIdentity<'a> {
    Name(&'a str),
    UUID(&'a str),
}

/// The characters of an identity, and which field they go to.
pub enum IdentityView {
    Name(Seq<char>),
    Uuid(Seq<char>),
}

impl<'a> View for DMIdentity<'a> {
    type V = IdentityView;

    open spec fn view(&self) -> IdentityView {
        match self {
            DMIdentity::Name(s) => IdentityView::Name(s@),
            DMIdentity::UUID(s) => IdentityView::Uuid(s@),
        }
    }
}

/// The operations of a device-mapper backend.  Implemented over the
/// kernel's ioctl interface, and open to test doubles that inject errors.
pub trait DMInterface {
    fn version(&mut self) -> std::io::Result<(u32, u32, u32)>;

    fn remove_all(&mut self) -> std::io::Result<()>;

    fn list_devices(&mut self) -> std::io::Result<Vec<DeviceInfo>>;

    fn create(&mut self, n: &DMIdentity) -> std::io::Result<()>;

    fn remove(&mut self, n: &DMIdentity) -> std::io::Result<()>;

    fn suspend(&mut self, n: &DMIdentity) -> std::io::Result<()>;

    fn resume(&mut self, n: &DMIdentity) -> std::io::Result<()>;

    fn clear(&mut self, n: &DMIdentity) -> std::io::Result<()>;

    fn load(&mut self, n: &DMIdentity, targets: &Vec<DmTarget>) -> std::io::Result<()>;

    fn status(&mut self, n: &DMIdentity) -> std::io::Result<Vec<String>>;

    fn table(&mut self, n: &DMIdentity) -> std::io::Result<Vec<String>>;

    fn info(&mut self, n: &DMIdentity) -> std::io::Result<Vec<String>>;

    fn message(&mut self, n: &DMIdentity, msg: &str, sector: u64) -> std::io::Result<()>;
}

#[verifier::external_type_specification]
#[verifier::external_body]
pub struct ExIoError(std::io::Error);

/// The kind of an error of the device-mapper layer, as `std::io::ErrorKind`
/// names it.
#[derive(Debug, Clone, Copy, PartialEq, Eq, Structural)]
pub enum DmErrorKind {
    Other,
}

/// An error of the device-mapper layer: its kind and its message.
#[derive(Debug)]
pub struct DmError {
    pub kind: DmErrorKind,
    pub message: String,
}

/// The answer to an operation that is not implemented: always an error of
/// kind `Other` with the message `not implemented`.
pub fn not_implemented<T>() -> (r: Result<T, DmError>)
    ensures
        r matches Err(e) && e.kind == DmErrorKind::Other && e.message@ == "not implemented"@,
{
    Err(DmError { kind: DmErrorKind::Other, message: String::from_str("not implemented") })
}

/// The byte that `c as u8` gives: the low eight bits of the code point.
pub open spec fn low_byte(c: char) -> u8 {
    ((c as u32) % 256) as u8
}

/// `n` bytes holding the low bytes of the characters of `s`, then zeroes.
pub open spec fn padded(s: Seq<char>, n: nat) -> Seq<u8> {
    Seq::new(n, |i: int| if i < s.len() { low_byte(s[i]) } else { 0u8 })
}

/// `n` zero bytes.
pub open spec fn zeroes(n: nat) -> Seq<u8> {
    Seq::new(n, |i: int| 0u8)
}

/// Zeroes every byte of `dest`.
pub fn zero<const N: usize>(dest: &mut [u8; N])
    ensures
        final(dest)@ == zeroes(N as nat),
{
    let mut i: usize = 0;
    while i < N
        invariant
            0 <= i <= N,
            dest@.len() == N,
            forall|j: int| 0 <= j < i ==> dest@[j] == 0u8,
        decreases N - i,
    {
        dest[i] = 0u8;
        i = i + 1;
    }
    assert(dest@ =~= zeroes(N as nat));
}

/// Copies the characters of `src` into `dest`, each as its low byte, and
/// pads the rest of `dest` with zeroes.
pub fn copy_and_pad<const N: usize>(dest: &mut [u8; N], src: &str)
    ensures
        final(dest)@ == padded(src@, N as nat),
{
    let chars = crate::text::chars_of(src);
    let mut i: usize = 0;
    while i < N
        invariant
            0 <= i <= N,
            dest@.len() == N,
            chars@ == src@,
            forall|j: int| 0 <= j < i ==> dest@[j] == padded(src@, N as nat)[j],
        decreases N - i,
    {
        if i < chars.len() {
            let c = chars[i];
            let b = (c as u32 % 256) as u8;
            dest[i] = b;
        } else {
            dest[i] = 0u8;
        }
        i = i + 1;
    }
    assert(dest@ =~= padded(src@, N as nat));
}

/// The string a C string denotes: the bytes before the first zero byte, each
/// read as the character with that code point.
pub open spec fn c_str(src: Seq<u8>) -> Seq<char>
    decreases src.len(),
{
    if src.len() == 0 || src[0] == 0 {
        seq![]
    } else {
        seq![src[0] as char] + c_str(src.drop_first())
    }
}

/// Reads a zero-terminated string out of `src`; the whole of `src` when it holds
/// no zero byte.
pub fn from_c_str(src: &[u8]) -> (r: String)
    ensures
        r@ == c_str(src@),
{
    let mut r = String::new();
    let mut i: usize = 0;
    assert(src@.skip(0) =~= src@);
    while i < src.len()
        invariant
            0 <= i <= src@.len(),
            r@ + c_str(src@.skip(i as int)) == c_str(src@),
        decreases src@.len() - i,
    {
        let c = src[i];
        if c == 0 {
            assert(c_str(src@.skip(i as int)) =~= seq![]);
            assert(r@ + seq![] =~= r@);
            return r;
        }
        assert(src@.skip(i as int).drop_first() =~= src@.skip(i + 1));
        let ghost before = r@;
        crate::text::push_char(&mut r, c as char);
        assert(r@ + c_str(src@.skip(i + 1)) =~= before + (seq![c as char] + c_str(
            src@.skip(i + 1),
        )));
        i = i + 1;
    }
    assert(c_str(src@.skip(i as int)) =~= seq![]);
    assert(r@ + seq![] =~= r@);
    r
}

/// Every character of `s` is one that a single byte holds, and none is NUL.
pub open spec fn is_c_chars(s: Seq<char>) -> bool {
    forall|i: int| 0 <= i < s.len() ==> 1 <= #[trigger] (s[i] as u32) <= 255
}

/// A string copied into a field no shorter than it, then read back as a C
/// string, is the string itself, when each of its characters fits a byte and
/// none is NUL.
pub proof fn lemma_c_str_of_padded(s: Seq<char>, n: nat)
    requires
        s.len() <= n,
        is_c_chars(s),
    ensures
        c_str(padded(s, n)) == s,
    decreases s.len(),
{
    let p = padded(s, n);
    if s.len() == 0 {
        if n > 0 {
            assert(p[0] == 0u8);
        }
    } else {
        let t = s.drop_first();
        assert(is_c_chars(t)) by {
            assert forall|i: int| 0 <= i < t.len() implies 1 <= #[trigger] (t[i] as u32) <= 255 by {
                assert(t[i] == s[i + 1]);
            }
        }
        lemma_c_str_of_padded(t, (n - 1) as nat);
        assert(p.drop_first() =~= padded(t, (n - 1) as nat));
        let c = s[0];
        assert(1 <= (c as u32) <= 255);
        assert(p[0] == low_byte(c));
        let v = c as u32;
        assert(v % 256 == v);
        assert(low_byte(c) as u32 == v);
        vstd::utf8::char_u32_cast(c, v);
        assert((v as char) == c);
        assert((low_byte(c) as char) == (v as char));
        assert(c_str(p) =~= s);
    }
}

/// A string has no more characters than its UTF-8 encoding has bytes.
pub proof fn lemma_utf8_len(s: Seq<char>)
    ensures
        s.len() <= vstd::utf8::encode_utf8(s).len(),
    decreases s.len(),
{
    if s.len() > 0 {
        lemma_utf8_len(s.drop_first());
    }
}

} // verus!
