//! Leaf encodings: little-endian integers and length-prefixed strings.
//!
//! The byte-level work is done by the `borsh` crate; the functions here give
//! each call a positional reading (`parse_*`) and a printing (`*_bytes`) over
//! sequences, and prove that the two agree.

use borsh::BorshDeserialize;
use borsh::BorshSerialize;
use vstd::bytes::spec_u32_from_le_bytes;
use vstd::bytes::spec_u32_to_le_bytes;
use vstd::bytes::spec_u64_from_le_bytes;
use vstd::bytes::spec_u64_to_le_bytes;
use vstd::bytes::lemma_auto_spec_u32_to_from_le_bytes;
use vstd::bytes::lemma_auto_spec_u64_to_from_le_bytes;
use vstd::prelude::*;
use vstd::slice::slice_subrange;
use vstd::utf8::decode_utf8;
use vstd::utf8::encode_utf8;
use vstd::utf8::valid_utf8;

verus! {

/// The four bytes that encode `value`.
pub open spec fn u32_bytes(value: u32) -> Seq<u8> {
    spec_u32_to_le_bytes(value)
}

/// The eight bytes that encode `value`.
pub open spec fn u64_bytes(value: u64) -> Seq<u8> {
    spec_u64_to_le_bytes(value)
}

/// The encoding of a string: the byte length of its UTF-8 form, then that form.
pub open spec fn string_bytes(chars: Seq<char>) -> Seq<u8> {
    u32_bytes(encode_utf8(chars).len() as u32) + encode_utf8(chars)
}

/// A string can be encoded when its UTF-8 form fits a 32-bit length prefix.
pub open spec fn string_fits(chars: Seq<char>) -> bool {
    encode_utf8(chars).len() <= u32::MAX
}

/// Number of bytes of `string_bytes(chars)`.
pub open spec fn string_len(chars: Seq<char>) -> int {
    4 + encode_utf8(chars).len() as int
}

/// Reads a `u32` at `pos`; the second component is the position after it.
pub open spec fn parse_u32(s: Seq<u8>, pos: int) -> Option<(u32, int)> {
    if 0 <= pos && pos + 4 <= s.len() {
        Some((spec_u32_from_le_bytes(s.subrange(pos, pos + 4)), pos + 4))
    } else {
        None
    }
}

/// Reads a `u64` at `pos`; the second component is the position after it.
pub open spec fn parse_u64(s: Seq<u8>, pos: int) -> Option<(u64, int)> {
    if 0 <= pos && pos + 8 <= s.len() {
        Some((spec_u64_from_le_bytes(s.subrange(pos, pos + 8)), pos + 8))
    } else {
        None
    }
}

/// Reads a length-prefixed UTF-8 string at `pos`.
pub open spec fn parse_string(s: Seq<u8>, pos: int) -> Option<(Seq<char>, int)> {
    match parse_u32(s, pos) {
        Some((n, start)) => {
            if start + n <= s.len() && valid_utf8(s.subrange(start, start + n)) {
                Some((decode_utf8(s.subrange(start, start + n)), start + n))
            } else {
                None
            }
        },
        None => None,
    }
}

/// Whether `bytes` is exactly one encoded string.
pub open spec fn is_string_frame(bytes: Seq<u8>) -> bool {
    &&& bytes.len() >= 4
    &&& spec_u32_from_le_bytes(bytes.subrange(0, 4)) == bytes.len() - 4
    &&& valid_utf8(bytes.subrange(4, bytes.len() as int))
}

/// If `whole` occupies `[pos, pos + whole.len())` of `s` and `whole` is `a + b`,
/// then `a` and `b` occupy the two adjacent parts of that range.
pub proof fn lemma_split_at(s: Seq<u8>, pos: int, a: Seq<u8>, b: Seq<u8>)
    requires
        0 <= pos,
        pos + a.len() + b.len() <= s.len(),
        s.subrange(pos, pos + a.len() + b.len()) == a + b,
    ensures
        s.subrange(pos, pos + a.len()) == a,
        s.subrange(pos + a.len(), pos + a.len() + b.len()) == b,
{
    let whole = s.subrange(pos, pos + a.len() + b.len());
    assert(s.subrange(pos, pos + a.len()) =~= whole.subrange(0, a.len() as int));
    assert((a + b).subrange(0, a.len() as int) =~= a);
    assert(s.subrange(pos + a.len(), pos + a.len() + b.len()) =~= whole.subrange(
        a.len() as int,
        (a.len() + b.len()) as int,
    ));
    assert((a + b).subrange(a.len() as int, (a.len() + b.len()) as int) =~= b);
}

/// Two adjacent ranges of `s` read as one.
pub proof fn lemma_join_at(s: Seq<u8>, pos: int, mid: int, end: int)
    requires
        0 <= pos <= mid <= end <= s.len(),
    ensures
        s.subrange(pos, end) == s.subrange(pos, mid) + s.subrange(mid, end),
{
    assert(s.subrange(pos, end) =~= s.subrange(pos, mid) + s.subrange(mid, end));
}

/// Reading what `u32_bytes` printed gives the value back.
pub proof fn lemma_parse_u32_bytes(s: Seq<u8>, pos: int, value: u32)
    requires
        0 <= pos,
        pos + 4 <= s.len(),
        s.subrange(pos, pos + 4) == u32_bytes(value),
    ensures
        parse_u32(s, pos) == Some((value, pos + 4)),
{
    lemma_auto_spec_u32_to_from_le_bytes();
    assert(spec_u32_to_le_bytes(value).len() == 4);
}

/// What `parse_u32` read is the printing of its result.
pub proof fn lemma_u32_bytes_parse(s: Seq<u8>, pos: int)
    requires
        parse_u32(s, pos) is Some,
    ensures
        s.subrange(pos, pos + 4) == u32_bytes(parse_u32(s, pos).unwrap().0),
        u32_bytes(parse_u32(s, pos).unwrap().0).len() == 4,
{
    lemma_auto_spec_u32_to_from_le_bytes();
}

/// Reading what `u64_bytes` printed gives the value back.
pub proof fn lemma_parse_u64_bytes(s: Seq<u8>, pos: int, value: u64)
    requires
        0 <= pos,
        pos + 8 <= s.len(),
        s.subrange(pos, pos + 8) == u64_bytes(value),
    ensures
        parse_u64(s, pos) == Some((value, pos + 8)),
{
    lemma_auto_spec_u64_to_from_le_bytes();
}

/// What `parse_u64` read is the printing of its result.
pub proof fn lemma_u64_bytes_parse(s: Seq<u8>, pos: int)
    requires
        parse_u64(s, pos) is Some,
    ensures
        s.subrange(pos, pos + 8) == u64_bytes(parse_u64(s, pos).unwrap().0),
        u64_bytes(parse_u64(s, pos).unwrap().0).len() == 8,
{
    lemma_auto_spec_u64_to_from_le_bytes();
}

/// The printed length of an integer.
pub proof fn lemma_int_bytes_len(a: u32, b: u64)
    ensures
        u32_bytes(a).len() == 4,
        u64_bytes(b).len() == 8,
{
    lemma_auto_spec_u32_to_from_le_bytes();
    lemma_auto_spec_u64_to_from_le_bytes();
    assert(spec_u32_to_le_bytes(a).len() == 4);
}

/// The printed length of a string.
pub proof fn lemma_string_bytes_len(chars: Seq<char>)
    ensures
        string_bytes(chars).len() == string_len(chars),
{
    lemma_int_bytes_len(encode_utf8(chars).len() as u32, 0);
}

/// Reading what `string_bytes` printed gives the string back.
pub proof fn lemma_parse_string_bytes(s: Seq<u8>, pos: int, chars: Seq<char>)
    requires
        0 <= pos,
        string_fits(chars),
        pos + string_len(chars) <= s.len(),
        s.subrange(pos, pos + string_len(chars)) == string_bytes(chars),
    ensures
        parse_string(s, pos) == Some((chars, pos + string_len(chars))),
        string_bytes(chars).len() == string_len(chars),
{
    let body = encode_utf8(chars);
    let n = body.len() as u32;
    lemma_int_bytes_len(n, 0);
    lemma_split_at(s, pos, u32_bytes(n), body);
    lemma_parse_u32_bytes(s, pos, n);
    vstd::utf8::encode_utf8_valid_utf8(chars);
    vstd::utf8::encode_utf8_decode_utf8(chars);
}

/// What `parse_string` read is the printing of its result.
pub proof fn lemma_string_bytes_parse(s: Seq<u8>, pos: int)
    requires
        parse_string(s, pos) is Some,
    ensures
        ({
            let (chars, end) = parse_string(s, pos).unwrap();
            &&& string_fits(chars)
            &&& end == pos + string_len(chars)
            &&& 0 <= pos
            &&& end <= s.len()
            &&& s.subrange(pos, end) == string_bytes(chars)
        }),
{
    let (n, start) = parse_u32(s, pos).unwrap();
    let body = s.subrange(start, start + n);
    lemma_u32_bytes_parse(s, pos);
    vstd::utf8::decode_utf8_encode_utf8(body);
    lemma_join_at(s, pos, start, start + n);
}

/// Serialises a `u8` with `borsh` (`<u8 as BorshSerialize>::try_to_vec`): the
/// result is the byte itself.
#[verifier::external_body]
pub(crate) fn borsh_u8(value: u8) -> (bytes: Vec<u8>)
    ensures
        bytes@ == seq![value],
{
    value.try_to_vec().unwrap()
}

/// Serialises a `u32` with `borsh` (`<u32 as BorshSerialize>::try_to_vec`):
/// the result is its four bytes, least significant first.
#[verifier::external_body]
pub(crate) fn borsh_u32(value: u32) -> (bytes: Vec<u8>)
    ensures
        bytes@ == spec_u32_to_le_bytes(value),
{
    value.try_to_vec().unwrap()
}

/// Serialises a `u64` with `borsh` (`<u64 as BorshSerialize>::try_to_vec`):
/// the result is its eight bytes, least significant first.
#[verifier::external_body]
pub(crate) fn borsh_u64(value: u64) -> (bytes: Vec<u8>)
    ensures
        bytes@ == spec_u64_to_le_bytes(value),
{
    value.try_to_vec().unwrap()
}

/// Serialises a string with `borsh` (`<String as BorshSerialize>::try_to_vec`):
/// a 32-bit little-endian byte count followed by the UTF-8 bytes. `borsh`
/// refuses a string whose byte count does not fit 32 bits.
#[verifier::external_body]
pub(crate) fn borsh_string(value: &String) -> (bytes: Option<Vec<u8>>)
    ensures
        string_fits(value@) ==> bytes is Some && bytes.unwrap()@ == string_bytes(value@),
        !string_fits(value@) ==> bytes is None,
{
    value.try_to_vec().ok()
}

/// Deserialises a `u32` with `borsh` (`<u32 as BorshDeserialize>::try_from_slice`),
/// which accepts exactly four bytes and reads them least significant first.
#[verifier::external_body]
pub(crate) fn borsh_read_u32(bytes: &[u8]) -> (value: Option<u32>)
    ensures
        bytes@.len() == 4 ==> value == Some(spec_u32_from_le_bytes(bytes@)),
        bytes@.len() != 4 ==> value is None,
{
    u32::try_from_slice(bytes).ok()
}

/// Deserialises a `u64` with `borsh` (`<u64 as BorshDeserialize>::try_from_slice`),
/// which accepts exactly eight bytes and reads them least significant first.
#[verifier::external_body]
pub(crate) fn borsh_read_u64(bytes: &[u8]) -> (value: Option<u64>)
    ensures
        bytes@.len() == 8 ==> value == Some(spec_u64_from_le_bytes(bytes@)),
        bytes@.len() != 8 ==> value is None,
{
    u64::try_from_slice(bytes).ok()
}

/// Deserialises a string with `borsh` (`<String as BorshDeserialize>::try_from_slice`),
/// which accepts a 32-bit byte count followed by exactly that many bytes of
/// valid UTF-8 and nothing after them.
#[verifier::external_body]
pub(crate) fn borsh_read_string(bytes: &[u8]) -> (value: Option<String>)
    ensures
        is_string_frame(bytes@) ==> value is Some && value.unwrap()@ == decode_utf8(
            bytes@.subrange(4, bytes@.len() as int),
        ),
        !is_string_frame(bytes@) ==> value is None,
{
    String::try_from_slice(bytes).ok()
}

/// Appends the encoding of `value` to `out`.
pub fn put_u32(out: &mut Vec<u8>, value: u32)
    ensures
        final(out)@ == old(out)@ + u32_bytes(value),
{
    let mut bytes = borsh_u32(value);
    out.append(&mut bytes);
}

/// Appends the encoding of `value` to `out`.
pub fn put_u64(out: &mut Vec<u8>, value: u64)
    ensures
        final(out)@ == old(out)@ + u64_bytes(value),
{
    let mut bytes = borsh_u64(value);
    out.append(&mut bytes);
}

/// Appends the encoding of `value` to `out`, or leaves `out` as it was and
/// returns `false` when the string is too long for its length prefix.
pub fn put_string(out: &mut Vec<u8>, value: &String) -> (done: bool)
    ensures
        done == string_fits(value@),
        done ==> final(out)@ == old(out)@ + string_bytes(value@),
        !done ==> final(out)@ == old(out)@,
{
    match borsh_string(value) {
        Some(mut bytes) => {
            out.append(&mut bytes);
            true
        },
        None => false,
    }
}

/// Reads a `u32` at `pos`.
pub fn get_u32(buffer: &Vec<u8>, pos: usize) -> (r: Option<(u32, usize)>)
    ensures
        match r {
            Some((value, end)) => parse_u32(buffer@, pos as int) == Some((value, end as int)),
            None => parse_u32(buffer@, pos as int) is None,
        },
{
    if pos > buffer.len() || buffer.len() - pos < 4 {
        return None;
    }
    let end: usize = pos + 4;
    match borsh_read_u32(slice_subrange(buffer.as_slice(), pos, end)) {
        Some(value) => Some((value, end)),
        None => None,
    }
}

/// Reads a `u64` at `pos`.
pub fn get_u64(buffer: &Vec<u8>, pos: usize) -> (r: Option<(u64, usize)>)
    ensures
        match r {
            Some((value, end)) => parse_u64(buffer@, pos as int) == Some((value, end as int)),
            None => parse_u64(buffer@, pos as int) is None,
        },
{
    if pos > buffer.len() || buffer.len() - pos < 8 {
        return None;
    }
    let end: usize = pos + 8;
    match borsh_read_u64(slice_subrange(buffer.as_slice(), pos, end)) {
        Some(value) => Some((value, end)),
        None => None,
    }
}

/// Reads a length-prefixed string at `pos`.
pub fn get_string(buffer: &Vec<u8>, pos: usize) -> (r: Option<(String, usize)>)
    ensures
        match r {
            Some((value, end)) => parse_string(buffer@, pos as int) == Some(
                (value@, end as int),
            ),
            None => parse_string(buffer@, pos as int) is None,
        },
{
    let (n, start) = match get_u32(buffer, pos) {
        Some(pair) => pair,
        None => { return None; },
    };
    if buffer.len() - start < n as usize {
        return None;
    }
    let end: usize = start + n as usize;
    let frame = slice_subrange(buffer.as_slice(), pos, end);
    proof {
        let s = buffer@;
        assert(frame@.subrange(0, 4) =~= s.subrange(pos as int, pos + 4));
        assert(frame@.subrange(4, frame@.len() as int) =~= s.subrange(
            start as int,
            start + n,
        ));
    }
    match borsh_read_string(frame) {
        Some(value) => Some((value, end)),
        None => None,
    }
}

} // verus!
