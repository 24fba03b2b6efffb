//! Byte-level facts about UTF-8 text and the slicing and splicing operations
//! that the editing code is built from.

use vstd::prelude::*;
use vstd::string::StringSliceAdditionalSpecFns;
use vstd::utf8::*;

verus! {

broadcast use {
    vstd::utf8::encode_utf8_valid_utf8,
    vstd::utf8::is_char_boundary_start_end_of_seq,
};

/// The UTF-8 bytes of a string given by its characters.
pub open spec fn utf8_bytes(chars: Seq<char>) -> Seq<u8> {
    encode_utf8(chars)
}

/// Whether `index` is a character boundary of `bytes`, the way `str::is_char_boundary`
/// decides it.
pub open spec fn char_boundary(bytes: Seq<u8>, index: int) -> bool {
    is_char_boundary(bytes, index)
}

/// `bytes` with the range `[start, end)` replaced by `ins`.
pub open spec fn splice_bytes(bytes: Seq<u8>, start: int, end: int, ins: Seq<u8>) -> Seq<u8> {
    bytes.subrange(0, start) + ins + bytes.subrange(end, bytes.len() as int)
}

/// Encoding distributes over concatenation.
pub proof fn lemma_encode_concat(a: Seq<char>, b: Seq<char>)
    ensures
        encode_utf8(a + b) == encode_utf8(a) + encode_utf8(b),
    decreases a.len(),
{
    if a.len() == 0 {
        assert(a + b =~= b);
        assert(encode_utf8(a) =~= Seq::<u8>::empty());
        assert(encode_utf8(a) + encode_utf8(b) =~= encode_utf8(b));
    } else {
        assert((a + b).drop_first() =~= a.drop_first() + b);
        assert((a + b)[0] == a[0]);
        lemma_encode_concat(a.drop_first(), b);
        assert(encode_utf8(a + b) =~= encode_scalar(a[0] as u32) + encode_utf8(a.drop_first() + b));
        assert(encode_utf8(a) + encode_utf8(b) =~= encode_scalar(a[0] as u32) + (encode_utf8(
            a.drop_first(),
        ) + encode_utf8(b)));
    }
}

/// A character boundary of the left part stays one after appending valid text.
pub proof fn lemma_boundary_concat_left(x: Seq<u8>, y: Seq<u8>, i: int)
    requires
        valid_utf8(x),
        valid_utf8(y),
        is_char_boundary(x, i),
    ensures
        is_char_boundary(x + y, i),
        0 <= i <= x.len(),
{
    valid_utf8_concat(x, y);
    lemma_boundary_in_range(x, i);
    if i < x.len() {
        is_char_boundary_iff_not_is_continuation_byte(x, i);
        assert((x + y)[i] == x[i]);
        is_char_boundary_iff_not_is_continuation_byte(x + y, i);
    } else {
        lemma_boundary_concat_mid(x, y);
    }
}

/// The seam of two valid texts is a character boundary.
pub proof fn lemma_boundary_concat_mid(x: Seq<u8>, y: Seq<u8>)
    requires
        valid_utf8(x),
        valid_utf8(y),
    ensures
        is_char_boundary(x + y, x.len() as int),
{
    valid_utf8_concat(x, y);
    if y.len() == 0 {
        assert(x + y =~= x);
    } else {
        is_char_boundary_iff_not_is_continuation_byte(y, 0);
        assert((x + y)[x.len() as int] == y[0]);
        is_char_boundary_iff_not_is_continuation_byte(x + y, x.len() as int);
    }
}

/// Character boundaries lie within the text.
pub proof fn lemma_boundary_in_range(x: Seq<u8>, i: int)
    requires
        valid_utf8(x),
        is_char_boundary(x, i),
    ensures
        0 <= i <= x.len(),
{
    reveal_with_fuel(is_char_boundary, 1);
}

/// Character boundaries of a text inside a prefix ending at a boundary are boundaries
/// of the prefix.
pub proof fn lemma_boundary_prefix(x: Seq<u8>, cut: int, i: int)
    requires
        valid_utf8(x),
        is_char_boundary(x, cut),
        is_char_boundary(x, i),
        i <= cut,
    ensures
        valid_utf8(x.subrange(0, cut)),
        is_char_boundary(x.subrange(0, cut), i),
{
    valid_utf8_split(x, cut);
    lemma_boundary_in_range(x, cut);
    lemma_boundary_in_range(x, i);
    let p = x.subrange(0, cut);
    if i < cut {
        is_char_boundary_iff_not_is_continuation_byte(x, i);
        is_char_boundary_iff_not_is_continuation_byte(p, i);
    } else {
        assert(p.len() == cut);
    }
}

/// Character boundaries of a text beyond a boundary are, shifted, boundaries of the suffix.
pub proof fn lemma_boundary_suffix(x: Seq<u8>, cut: int, i: int)
    requires
        valid_utf8(x),
        is_char_boundary(x, cut),
        is_char_boundary(x, i),
        cut <= i,
    ensures
        valid_utf8(x.subrange(cut, x.len() as int)),
        is_char_boundary(x.subrange(cut, x.len() as int), i - cut),
{
    valid_utf8_split(x, cut);
    lemma_boundary_in_range(x, cut);
    lemma_boundary_in_range(x, i);
    let s = x.subrange(cut, x.len() as int);
    if i < x.len() {
        is_char_boundary_iff_not_is_continuation_byte(x, i);
        is_char_boundary_iff_not_is_continuation_byte(s, i - cut);
    } else {
        assert(s.len() == i - cut);
    }
}

/// Splicing valid text at character boundaries gives valid text, with boundaries
/// around the inserted part.
pub proof fn lemma_splice_valid(x: Seq<u8>, start: int, end: int, ins: Seq<u8>)
    requires
        valid_utf8(x),
        valid_utf8(ins),
        is_char_boundary(x, start),
        is_char_boundary(x, end),
        start <= end,
    ensures
        valid_utf8(splice_bytes(x, start, end, ins)),
        is_char_boundary(splice_bytes(x, start, end, ins), start),
        is_char_boundary(splice_bytes(x, start, end, ins), start + ins.len()),
        splice_bytes(x, start, end, ins).len() == x.len() - (end - start) + ins.len(),
{
    lemma_boundary_in_range(x, start);
    lemma_boundary_in_range(x, end);
    valid_utf8_split(x, start);
    valid_utf8_split(x, end);
    let a = x.subrange(0, start);
    let c = x.subrange(end, x.len() as int);
    valid_utf8_concat(a, ins);
    valid_utf8_concat(a + ins, c);
    lemma_boundary_concat_mid(a, ins);
    lemma_boundary_concat_left(a + ins, c, start);
    lemma_boundary_concat_mid(a + ins, c);
    assert(splice_bytes(x, start, end, ins) == (a + ins) + c);
}

/// The length of `s` in bytes.
pub fn byte_len(s: &str) -> (n: usize)
    ensures
        n == s.spec_bytes().len(),
{
    s.as_bytes().len()
}

/// Whether a text may be cut at `[start, end)` the way `str` slicing allows.
pub open spec fn sliceable(bytes: Seq<u8>, start: int, end: int) -> bool {
    &&& start <= end
    &&& is_char_boundary(bytes, start)
    &&& is_char_boundary(bytes, end)
}

/// The part `[start, end)` of `s`, both ends being character boundaries.
pub fn slice_str(s: &str, start: usize, end: usize) -> (r: &str)
    requires
        sliceable(s.spec_bytes(), start as int, end as int),
    ensures
        r.spec_bytes() == s.spec_bytes().subrange(start as int, end as int),
{
    let ghost b = s.spec_bytes();
    proof {
        lemma_boundary_in_range(b, end as int);
        lemma_boundary_prefix(b, end as int, start as int);
    }
    let (head, _tail) = s.split_at(end);
    let (_skip, mid) = head.split_at(start);
    proof {
        assert(mid.spec_bytes() =~= b.subrange(start as int, end as int));
    }
    mid
}

/// A new string holding `s` with `[start, end)` replaced by `ins`.
pub fn splice_str(s: &str, start: usize, end: usize, ins: &str) -> (r: String)
    requires
        sliceable(s.spec_bytes(), start as int, end as int),
    ensures
        utf8_bytes(r@) == splice_bytes(s.spec_bytes(), start as int, end as int, ins.spec_bytes()),
{
    let ghost b = s.spec_bytes();
    proof {
        lemma_boundary_in_range(b, start as int);
        lemma_boundary_in_range(b, end as int);
    }
    let (head, _rest) = s.split_at(start);
    let (_gone, tail) = s.split_at(end);
    let mut r = head.to_owned();
    r.append(ins);
    r.append(tail);
    proof {
        lemma_encode_concat(head@, ins@);
        lemma_encode_concat(head@ + ins@, tail@);
        assert(r@ == head@ + ins@ + tail@);
    }
    r
}

/// `String::from(char)`: std builds a string holding just that character.
#[verifier::external_body]
pub(crate) fn string_of_char(ch: char) -> (s: String)
    ensures
        s@ == seq![ch],
{
    String::from(ch)
}

} // verus!
