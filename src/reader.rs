//! Big-endian reads over a byte buffer, each checked against the buffer's end.
use vstd::prelude::*;

use crate::error::IccError;

verus! {

/// The unsigned 16-bit big-endian value at `p`.
pub open spec fn be16(s: Seq<u8>, p: int) -> int {
    s[p] as int * 0x100 + s[p + 1] as int
}

/// The unsigned 32-bit big-endian value at `p`.
pub open spec fn be32(s: Seq<u8>, p: int) -> int {
    be16(s, p) * 0x10000 + be16(s, p + 2)
}

/// The unsigned 64-bit big-endian value at `p`.
pub open spec fn be64(s: Seq<u8>, p: int) -> int {
    be32(s, p) * 0x1_0000_0000 + be32(s, p + 4)
}

/// The unsigned 128-bit big-endian value at `p`.
pub open spec fn be128(s: Seq<u8>, p: int) -> int {
    be64(s, p) * 0x1_0000_0000_0000_0000 + be64(s, p + 8)
}

/// A 16-bit pattern read as a two's-complement number.
pub open spec fn signed16(u: int) -> int {
    if u >= 0x8000 {
        u - 0x10000
    } else {
        u
    }
}

/// `k` is where the zero-terminated field `s` ends: no zero byte before `k`,
/// and `k` is the field's length or the place of its first zero byte.
pub open spec fn field_end(s: Seq<u8>, k: int) -> bool {
    &&& 0 <= k <= s.len()
    &&& forall|j: int| 0 <= j < k ==> s[j] != 0
    &&& (k == s.len() || s[k] == 0)
}

/// The first `k` bytes of `s` are ASCII.
pub open spec fn ascii_prefix(s: Seq<u8>, k: int) -> bool {
    forall|j: int| 0 <= j < k ==> #[trigger] s[j] < 0x80
}

/// The characters of a zero-terminated field, one per byte (ISO 8859-1).
pub open spec fn latin1_field(s: Seq<u8>) -> Seq<char>
    recommends
        exists|k: int| field_end(s, k),
{
    let k = choose|k: int| field_end(s, k);
    Seq::new(k as nat, |j: int| s[j] as char)
}

/// The text that UTF-8 decoding gives for a zero-terminated field.
pub uninterp spec fn utf8_field_text(field: Seq<u8>) -> Seq<char>;

/// The text that lossy UTF-16 decoding gives for a sequence of code units.
pub uninterp spec fn utf16_lossy_text(units: Seq<u16>) -> Seq<char>;

pub proof fn lemma_field_end_unique(s: Seq<u8>, k1: int, k2: int)
    requires
        field_end(s, k1),
        field_end(s, k2),
    ensures
        k1 == k2,
{
    if k1 < k2 {
        assert(s[k1] != 0);
    } else if k2 < k1 {
        assert(s[k2] != 0);
    }
}

/// Fails with `OutOfBounds` unless `size` bytes from `ptr` lie inside `buf`.
pub fn bound_check(buf: &[u8], ptr: usize, size: usize) -> (r: Result<(), IccError>)
    ensures
        r is Ok <==> ptr + size <= buf@.len(),
        r is Err ==> r == Err::<(), IccError>(
            IccError::OutOfBounds { offset: ptr, size, length: buf@.len() as usize },
        ),
{
    if size > buf.len() || ptr > buf.len() - size {
        Err(IccError::OutOfBounds { offset: ptr, size, length: buf.len() })
    } else {
        Ok(())
    }
}

pub fn read_byte(buf: &[u8], ptr: usize) -> (r: u8)
    requires
        ptr < buf@.len(),
    ensures
        r == buf@[ptr as int],
{
    buf[ptr]
}

pub fn read_u16_be(buf: &[u8], ptr: usize) -> (r: u16)
    requires
        ptr + 2 <= buf@.len(),
    ensures
        r as int == be16(buf@, ptr as int),
{
    (buf[ptr] as u16) * 0x100 + buf[ptr + 1] as u16
}

pub fn read_i16_be(buf: &[u8], ptr: usize) -> (r: i16)
    requires
        ptr + 2 <= buf@.len(),
    ensures
        r as int == signed16(be16(buf@, ptr as int)),
{
    let u = read_u16_be(buf, ptr);
    if u >= 0x8000 {
        (u as i32 - 0x10000) as i16
    } else {
        u as i16
    }
}

pub fn read_u32_be(buf: &[u8], ptr: usize) -> (r: u32)
    requires
        ptr + 4 <= buf@.len(),
    ensures
        r as int == be32(buf@, ptr as int),
{
    let _ = buf.len();
    let hi = read_u16_be(buf, ptr) as u32;
    let lo = read_u16_be(buf, ptr + 2) as u32;
    hi * 0x10000 + lo
}

pub fn read_u64_be(buf: &[u8], ptr: usize) -> (r: u64)
    requires
        ptr + 8 <= buf@.len(),
    ensures
        r as int == be64(buf@, ptr as int),
{
    let _ = buf.len();
    let hi = read_u32_be(buf, ptr) as u64;
    let lo = read_u32_be(buf, ptr + 4) as u64;
    hi * 0x1_0000_0000 + lo
}

pub fn read_u128_be(buf: &[u8], ptr: usize) -> (r: u128)
    requires
        ptr + 16 <= buf@.len(),
    ensures
        r as int == be128(buf@, ptr as int),
{
    let _ = buf.len();
    let hi = read_u64_be(buf, ptr) as u128;
    let lo = read_u64_be(buf, ptr + 8) as u128;
    hi * 0x1_0000_0000_0000_0000 + lo
}

/// Relies on String::push: the string grows by the one character.
#[verifier::external_body]
fn push_char(s: &mut String, c: char)
    ensures
        final(s)@ == old(s)@.push(c),
{
    s.push(c)
}

/// The fixed-length field of `num` bytes at `ptr`, up to its first zero byte,
/// one character per byte. (bin_rs 0.0.10's `read_ascii_string` ignores its
/// offset and length and decodes the whole buffer, so the field is read here.)
pub fn read_ascii_string(buf: &[u8], ptr: usize, num: usize) -> (r: String)
    requires
        ptr + num <= buf@.len(),
    ensures
        r@ == latin1_field(buf@.subrange(ptr as int, ptr + num)),
{
    let ghost field = buf@.subrange(ptr as int, ptr + num);
    let _ = buf.len();
    let mut out = String::new();
    let mut i: usize = 0;
    while i < num
        invariant
            ptr + num <= buf@.len() <= usize::MAX,
            field == buf@.subrange(ptr as int, ptr + num),
            i <= num,
            forall|j: int| 0 <= j < i ==> field[j] != 0,
            out@ == Seq::new(i as nat, |j: int| field[j] as char),
        ensures
            i <= num,
            i == num || field[i as int] == 0,
            forall|j: int| 0 <= j < i ==> field[j] != 0,
            out@ == Seq::new(i as nat, |j: int| field[j] as char),
        decreases num - i,
    {
        let b = buf[ptr + i];
        assert(field[i as int] == b);
        if b == 0 {
            break;
        }
        push_char(&mut out, b as char);
        i = i + 1;
        assert(out@ =~= Seq::new(i as nat, |j: int| field[j] as char));
    }
    proof {
        assert(field_end(field, i as int));
        let k = choose|k: int| field_end(field, k);
        lemma_field_end_unique(field, i as int, k);
        assert(out@ =~= latin1_field(field));
    }
    out
}

/// Relies on bin_rs::io::read_string: it takes the bytes of the field of `num`
/// bytes at `ptr` up to the first zero byte and decodes them as UTF-8, giving an
/// empty string when they are not valid UTF-8. ASCII bytes decode to themselves.
#[verifier::external_body]
pub(crate) fn read_string(buf: &[u8], ptr: usize, num: usize) -> (r: String)
    requires
        ptr + num <= buf@.len(),
    ensures
        r@ == utf8_field_text(buf@.subrange(ptr as int, ptr + num)),
        forall|k: int|
            #![trigger field_end(buf@.subrange(ptr as int, ptr + num), k)]
            field_end(buf@.subrange(ptr as int, ptr + num), k) && ascii_prefix(
                buf@.subrange(ptr as int, ptr + num),
                k,
            ) ==> r@ == Seq::new(k as nat, |j: int| buf@[ptr + j] as char),
{
    bin_rs::io::read_string(buf, ptr, num)
}

/// Relies on String::from_utf16_lossy: the text of a sequence of UTF-16 code
/// units, with unpaired surrogates replaced; no units give an empty string.
#[verifier::external_body]
pub(crate) fn utf16_lossy(units: &Vec<u16>) -> (r: String)
    ensures
        r@ == utf16_lossy_text(units@),
        units@.len() == 0 ==> r@.len() == 0,
{
    String::from_utf16_lossy(units)
}

} // verus!
