//! The length-prefixed wire format.
//!
//! Every field travels as an eight-byte big-endian length followed by that
//! many bytes. A command is a field holding its name followed by a field
//! holding its payload.
use vstd::prelude::*;

verus! {

/// The eight big-endian bytes of `v`, most significant first.
pub open spec fn be_bytes(v: u64) -> Seq<u8> {
    seq![
        (v >> 56u64) as u8,
        (v >> 48u64) as u8,
        (v >> 40u64) as u8,
        (v >> 32u64) as u8,
        (v >> 24u64) as u8,
        (v >> 16u64) as u8,
        (v >> 8u64) as u8,
        v as u8,
    ]
}

/// The number whose big-endian bytes are the first eight of `s`.
#[verifier::opaque]
pub open spec fn be_value(s: Seq<u8>) -> u64
    recommends
        s.len() >= 8,
{
    ((s[0] as u64) << 56u64) | ((s[1] as u64) << 48u64) | ((s[2] as u64) << 40u64) | ((
    s[3] as u64) << 32u64) | ((s[4] as u64) << 24u64) | ((s[5] as u64) << 16u64) | ((
    s[6] as u64) << 8u64) | (s[7] as u64)
}

/// The bytes of an ASCII text, one per character.
pub open spec fn ascii(s: Seq<char>) -> Seq<u8> {
    Seq::new(s.len(), |i: int| s[i] as u8)
}

/// The bytes of an ASCII string literal.
pub fn literal(s: &str) -> (r: &[u8])
    requires
        vstd::string::is_ascii(s),
    ensures
        r@ == ascii(s@),
{
    proof {
        vstd::string::is_ascii_spec_bytes(s);
    }
    s.as_bytes()
}

/// One encoded field: the length of `data` as eight big-endian bytes, then `data`.
pub open spec fn field(data: Seq<u8>) -> Seq<u8> {
    be_bytes(data.len() as u64) + data
}

/// The length that the first eight bytes of `s` announce.
pub open spec fn announced_len(s: Seq<u8>) -> nat {
    be_value(s) as nat
}

/// `s` starts with a complete field: an eight-byte length and at least that
/// many bytes after it.
pub open spec fn is_framed(s: Seq<u8>) -> bool {
    s.len() >= 8 && 8 + announced_len(s) <= s.len()
}

/// The bytes of the first field of `s`.
pub open spec fn frame_body(s: Seq<u8>) -> Seq<u8> {
    s.subrange(8, 8 + announced_len(s) as int)
}

/// What follows the first field of `s`.
pub open spec fn frame_rest(s: Seq<u8>) -> Seq<u8> {
    s.subrange(8 + announced_len(s) as int, s.len() as int)
}

proof fn lemma_be_value_of_be_bytes(v: u64)
    ensures
        be_value(be_bytes(v)) == v,
{
    reveal(be_value);
    let b0 = (v >> 56u64) as u8;
    let b1 = (v >> 48u64) as u8;
    let b2 = (v >> 40u64) as u8;
    let b3 = (v >> 32u64) as u8;
    let b4 = (v >> 24u64) as u8;
    let b5 = (v >> 16u64) as u8;
    let b6 = (v >> 8u64) as u8;
    let b7 = v as u8;
    assert(((b0 as u64) << 56u64) | ((b1 as u64) << 48u64) | ((b2 as u64) << 40u64) | ((
    b3 as u64) << 32u64) | ((b4 as u64) << 24u64) | ((b5 as u64) << 16u64) | ((b6 as u64)
        << 8u64) | (b7 as u64) == v) by (bit_vector)
        requires
            b0 == (v >> 56u64) as u8,
            b1 == (v >> 48u64) as u8,
            b2 == (v >> 40u64) as u8,
            b3 == (v >> 32u64) as u8,
            b4 == (v >> 24u64) as u8,
            b5 == (v >> 16u64) as u8,
            b6 == (v >> 8u64) as u8,
            b7 == v as u8,
    ;
}

proof fn lemma_be_bytes_of_be_value(s: Seq<u8>)
    requires
        s.len() == 8,
    ensures
        be_bytes(be_value(s)) == s,
{
    reveal(be_value);
    let b0 = s[0];
    let b1 = s[1];
    let b2 = s[2];
    let b3 = s[3];
    let b4 = s[4];
    let b5 = s[5];
    let b6 = s[6];
    let b7 = s[7];
    let v = be_value(s);
    assert({
        &&& (v >> 56u64) as u8 == b0
        &&& (v >> 48u64) as u8 == b1
        &&& (v >> 40u64) as u8 == b2
        &&& (v >> 32u64) as u8 == b3
        &&& (v >> 24u64) as u8 == b4
        &&& (v >> 16u64) as u8 == b5
        &&& (v >> 8u64) as u8 == b6
        &&& v as u8 == b7
    }) by (bit_vector)
        requires
            v == ((b0 as u64) << 56u64) | ((b1 as u64) << 48u64) | ((b2 as u64) << 40u64) | ((
            b3 as u64) << 32u64) | ((b4 as u64) << 24u64) | ((b5 as u64) << 16u64) | ((
            b6 as u64) << 8u64) | (b7 as u64),
    ;
    assert(be_bytes(v) =~= s);
}

/// The big-endian bytes of `v`.
pub fn u64_to_be_bytes(v: u64) -> (r: [u8; 8])
    ensures
        r@ == be_bytes(v),
{
    reveal(be_value);
    let r = [
        (v >> 56u64) as u8,
        (v >> 48u64) as u8,
        (v >> 40u64) as u8,
        (v >> 32u64) as u8,
        (v >> 24u64) as u8,
        (v >> 16u64) as u8,
        (v >> 8u64) as u8,
        v as u8,
    ];
    assert(r@ =~= be_bytes(v));
    r
}

/// The number whose big-endian bytes are the first eight of `s`.
pub fn u64_from_be_bytes(s: &[u8]) -> (r: u64)
    requires
        s@.len() >= 8,
    ensures
        r == be_value(s@),
{
    reveal(be_value);
    ((s[0] as u64) << 56u64) | ((s[1] as u64) << 48u64) | ((s[2] as u64) << 40u64) | ((
    s[3] as u64) << 32u64) | ((s[4] as u64) << 24u64) | ((s[5] as u64) << 16u64) | ((
    s[6] as u64) << 8u64) | (s[7] as u64)
}

/// Appends `data` to `buf`, byte by byte.
pub fn append_bytes(buf: &mut Vec<u8>, data: &[u8])
    ensures
        final(buf)@ == old(buf)@ + data@,
{
    let mut i: usize = 0;
    while i < data.len()
        invariant
            i <= data@.len(),
            buf@ == old(buf)@ + data@.take(i as int),
        decreases data@.len() - i,
    {
        buf.push(data[i]);
        i = i + 1;
        assert(data@.take(i as int) =~= data@.take(i - 1 as int).push(data@[i - 1 as int]));
    }
    assert(data@.take(i as int) =~= data@);
}

/// Appends one encoded field holding `data` to `buf`.
pub fn add_field(buf: &mut Vec<u8>, data: &[u8])
    ensures
        final(buf)@ == old(buf)@ + field(data@),
{
    let len = u64_to_be_bytes(data.len() as u64);
    append_bytes(buf, &len);
    append_bytes(buf, data);
    assert(final(buf)@ =~= old(buf)@ + field(data@));
}

/// Splits `payload` into the body of its first field and what follows it.
pub fn simplify(payload: Vec<u8>) -> (r: (Vec<u8>, Vec<u8>))
    requires
        is_framed(payload@),
    ensures
        r.0@ == frame_body(payload@),
        r.1@ == frame_rest(payload@),
{
    let s = payload.as_slice();
    let len = u64_from_be_bytes(s);
    assert(s@ == payload@);
    assert(len as nat == announced_len(payload@));
    let total = s.len();
    assert(len < total);
    let end: usize = 8 + len as usize;
    let acquired = vstd::slice::slice_to_vec(vstd::slice::slice_subrange(s, 8, end));
    let remaining = vstd::slice::slice_to_vec(vstd::slice::slice_subrange(s, end, total));
    (acquired, remaining)
}

/// Whether `s` starts with a complete field.
pub fn starts_with_field(s: &[u8]) -> (r: bool)
    ensures
        r == is_framed(s@),
{
    if s.len() < 8 {
        return false;
    }
    let len = u64_from_be_bytes(s);
    len <= (s.len() - 8) as u64
}

/// Where the first field of `s` ends.
pub fn field_end(s: &[u8]) -> (r: usize)
    requires
        is_framed(s@),
    ensures
        r == 8 + announced_len(s@),
        r <= s@.len(),
{
    let len = u64_from_be_bytes(s);
    let total = s.len();
    assert(8 + len <= total);
    8 + len as usize
}

/// Whether two byte strings are equal.
pub fn bytes_equal(a: &[u8], b: &[u8]) -> (r: bool)
    ensures
        r == (a@ == b@),
{
    if a.len() != b.len() {
        return false;
    }
    let mut i: usize = 0;
    while i < a.len()
        invariant
            i <= a@.len(),
            a@.len() == b@.len(),
            a@.take(i as int) == b@.take(i as int),
        decreases a@.len() - i,
    {
        if a[i] != b[i] {
            assert(a@[i as int] != b@[i as int]);
            return false;
        }
        i = i + 1;
        assert(a@.take(i as int) =~= a@.take(i - 1 as int).push(a@[i - 1 as int]));
        assert(b@.take(i as int) =~= b@.take(i - 1 as int).push(b@[i - 1 as int]));
    }
    assert(a@.take(i as int) =~= a@);
    assert(b@.take(i as int) =~= b@);
    true
}

/// Reading the first field back out of an encoded field followed by any
/// bytes gives the field's data and leaves exactly those bytes.
pub proof fn lemma_field_roundtrip(data: Seq<u8>, rest: Seq<u8>)
    requires
        data.len() <= u64::MAX,
    ensures
        is_framed(field(data) + rest),
        frame_body(field(data) + rest) == data,
        frame_rest(field(data) + rest) == rest,
{
    reveal(be_value);
    let s = field(data) + rest;
    lemma_be_value_of_be_bytes(data.len() as u64);
    assert(s.take(8) =~= be_bytes(data.len() as u64));
    assert(be_value(s) == be_value(s.take(8)));
    assert(frame_body(s) =~= data);
    assert(frame_rest(s) =~= rest);
}

/// A buffer that starts with a complete field is that field, re-encoded,
/// followed by the rest: reading a field loses nothing.
pub proof fn lemma_frame_reassemble(s: Seq<u8>)
    requires
        is_framed(s),
    ensures
        field(frame_body(s)) + frame_rest(s) == s,
{
    reveal(be_value);
    let n = announced_len(s);
    assert(frame_body(s).len() == n);
    assert(be_value(s) == be_value(s.take(8)));
    lemma_be_bytes_of_be_value(s.take(8));
    assert(field(frame_body(s)) + frame_rest(s) =~= s);
}

} // verus!
