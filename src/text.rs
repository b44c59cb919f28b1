//! Byte-level views of strings and the primitive string edits used by the
//! line buffer.
use vstd::prelude::*;
use vstd::utf8::{
    encode_utf8, is_char_boundary, length_of_first_scalar, pop_first_scalar, valid_first_scalar,
    valid_utf8,
};

verus! {

broadcast use vstd::utf8::group_utf8_lib;

/// The UTF-8 bytes of a character sequence.
pub open spec fn utf8(s: Seq<char>) -> Seq<u8> {
    encode_utf8(s)
}

/// `b` is the largest character boundary of `bytes` that is at most `to`.
pub open spec fn is_floor_boundary(bytes: Seq<u8>, to: int, b: int) -> bool {
    &&& 0 <= b <= to
    &&& is_char_boundary(bytes, b)
    &&& forall|j: int| b < j <= to ==> !is_char_boundary(bytes, j)
}

/// The largest character boundary of `bytes` that is at most `to`, or 0.
pub open spec fn floor_boundary(bytes: Seq<u8>, to: int) -> int
    decreases to,
{
    if to <= 0 {
        0
    } else if is_char_boundary(bytes, to) {
        to
    } else {
        floor_boundary(bytes, to - 1)
    }
}

/// The floor of `to` is at least any boundary below `to`.
pub proof fn lemma_floor_at_least(bytes: Seq<u8>, to: int, c: int)
    requires
        valid_utf8(bytes),
        0 <= c <= to,
        is_char_boundary(bytes, c),
    ensures
        c <= floor_boundary(bytes, to) <= to,
    decreases to,
{
    if to > 0 && !is_char_boundary(bytes, to) {
        lemma_floor_at_least(bytes, to - 1, c);
    }
}

/// Cutting at the floor of any target ends on a character boundary, no
/// later than the target, and as late as that allows.
pub proof fn lemma_floor_boundary_is_floor(bytes: Seq<u8>, to: int)
    requires
        valid_utf8(bytes),
        to >= 0,
    ensures
        is_floor_boundary(bytes, to, floor_boundary(bytes, to)),
        valid_utf8(bytes.subrange(0, floor_boundary(bytes, to))),
    decreases to,
{
    vstd::utf8::is_char_boundary_start_end_of_seq(bytes);
    if to > 0 && !is_char_boundary(bytes, to) {
        lemma_floor_boundary_is_floor(bytes, to - 1);
    }
    lemma_boundary_in_range(bytes, floor_boundary(bytes, to));
    vstd::utf8::valid_utf8_split(bytes, floor_boundary(bytes, to));
}

/// Encoding distributes over concatenation.
pub proof fn lemma_utf8_concat(a: Seq<char>, b: Seq<char>)
    ensures
        utf8(a + b) == utf8(a) + utf8(b),
    decreases a.len(),
{
    if a.len() == 0 {
        assert(a + b =~= b);
        assert(utf8(a) =~= Seq::<u8>::empty());
        assert(utf8(a) + utf8(b) =~= utf8(b));
    } else {
        assert((a + b).drop_first() =~= a.drop_first() + b);
        lemma_utf8_concat(a.drop_first(), b);
        assert((a + b)[0] == a[0]);
        assert(utf8(a + b) =~= utf8(a) + utf8(b));
    }
}

/// The first character of `x + y` is that of `x`.
proof fn lemma_first_scalar_concat(x: Seq<u8>, y: Seq<u8>)
    requires
        valid_utf8(x),
        x.len() > 0,
    ensures
        valid_first_scalar(x + y),
        length_of_first_scalar(x + y) == length_of_first_scalar(x),
        pop_first_scalar(x + y) == pop_first_scalar(x) + y,
{
    let l = length_of_first_scalar(x);
    assert(valid_first_scalar(x));
    assert(forall|i: int| 0 <= i < x.len() ==> (x + y)[i] == x[i]);
    assert(pop_first_scalar(x + y) =~= pop_first_scalar(x) + y);
}

/// Joining two valid sequences keeps the boundaries of each.
pub proof fn lemma_boundary_concat(x: Seq<u8>, y: Seq<u8>, i: int)
    requires
        valid_utf8(x),
        valid_utf8(y),
    ensures
        0 <= i <= x.len() ==> is_char_boundary(x + y, i) == is_char_boundary(x, i),
        x.len() <= i ==> is_char_boundary(x + y, i) == is_char_boundary(y, i - x.len()),
    decreases x.len(),
{
    vstd::utf8::valid_utf8_concat(x, y);
    if x.len() == 0 {
        assert(x + y =~= y);
    } else if i != 0 {
        lemma_first_scalar_concat(x, y);
        let l = length_of_first_scalar(x);
        lemma_boundary_concat(pop_first_scalar(x), y, i - l);
    }
}

/// A character boundary lies within the sequence.
pub proof fn lemma_boundary_in_range(bytes: Seq<u8>, i: int)
    requires
        valid_utf8(bytes),
        is_char_boundary(bytes, i),
    ensures
        0 <= i <= bytes.len(),
{
}

/// The largest number of bytes a string may hold.
pub open spec fn max_text_len() -> int {
    isize::MAX as int
}

/// Relies on `String::push_str`: appends the characters of `t`; the call
/// panics where the result would pass the largest size of a string.
#[verifier::external_body]
pub(crate) fn push_text(s: &mut String, t: &str)
    requires
        utf8(old(s)@).len() + utf8(t@).len() <= max_text_len(),
    ensures
        final(s)@ == old(s)@ + t@,
{
    s.push_str(t)
}

/// Relies on `String::push`: appends one character; the call panics where
/// the result would pass the largest size of a string.
#[verifier::external_body]
pub(crate) fn push_char(s: &mut String, c: char)
    requires
        utf8(old(s)@).len() + 4 <= max_text_len(),
    ensures
        final(s)@ == old(s)@.push(c),
{
    s.push(c)
}

/// Relies on `String::truncate`: keeps the first `n` bytes; `n` must be a
/// character boundary, where the call would panic otherwise.
#[verifier::external_body]
pub(crate) fn truncate_bytes(s: &mut String, n: usize)
    requires
        is_char_boundary(utf8(old(s)@), n as int),
    ensures
        utf8(final(s)@) == utf8(old(s)@).subrange(0, n as int),
{
    s.truncate(n)
}

/// Relies on `String::clear`: removes every character.
#[verifier::external_body]
pub(crate) fn clear_text(s: &mut String)
    ensures
        final(s)@ == Seq::<char>::empty(),
{
    s.clear()
}

/// Relies on `String::with_capacity`: an empty string.
#[verifier::external_body]
pub(crate) fn empty_with_capacity(capacity: usize) -> (r: String)
    ensures
        r@ == Seq::<char>::empty(),
{
    String::with_capacity(capacity)
}

/// Relies on `String::len`: the length in bytes.
#[verifier::external_body]
pub(crate) fn byte_len(s: &String) -> (r: usize)
    ensures
        r == utf8(s@).len(),
{
    s.len()
}

/// Shrinks `text` to the largest character boundary at most `to` bytes long
/// and returns by how many bytes that boundary falls short of `to`.
///
/// When `to` exceeds the length, the text is kept and the result is the
/// difference.
pub fn safe_truncate(text: &mut String, to: usize) -> (r: usize)
    ensures
        r <= to,
        to - r == floor_boundary(utf8(old(text)@), to as int),
        utf8(final(text)@).len() <= to,
        is_floor_boundary(utf8(old(text)@), to as int, to - r),
        utf8(final(text)@) == utf8(old(text)@).subrange(0, to - r),
{
    let ghost bytes = utf8(text@);
    let mut boundary: usize = to;
    assert(is_char_boundary(bytes, 0));
    while !text.as_str().is_char_boundary(boundary)
        invariant
            boundary <= to,
            utf8(text@) == bytes,
            is_char_boundary(bytes, 0),
            forall|j: int| boundary < j <= to ==> !is_char_boundary(bytes, j),
            floor_boundary(bytes, boundary as int) == floor_boundary(bytes, to as int),
        decreases boundary,
    {
        boundary = boundary - 1;
    }
    proof {
        lemma_boundary_in_range(bytes, boundary as int);
    }
    truncate_bytes(text, boundary);
    to - boundary
}

} // verus!
