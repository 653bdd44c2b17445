//! Text as bytes: decoding spans of the input, comparing names, and the facts
//! about UTF-8 that let a span cut out of valid text be read as text again.

use vstd::prelude::*;
use vstd::slice::slice_subrange;
use vstd::string::*;
use vstd::utf8::*;

verus! {

/// Reads `bytes` as text.
///
/// Trusted: calls `core::str::from_utf8`. The contract claims what its
/// documentation says: the call succeeds exactly on well-formed UTF-8, and the
/// text it hands back is made of the very bytes it was given.
#[verifier::external_body]
pub(crate) fn utf8_text<'a>(bytes: &'a [u8]) -> (r: Option<&'a str>)
    ensures
        r is Some <==> valid_utf8(bytes@),
        r matches Some(text) ==> text.spec_bytes() == bytes@,
{
    match core::str::from_utf8(bytes) {
        Ok(text) => Some(text),
        Err(_) => None,
    }
}

/// Whether the bytes of `s` in `[from, to)` can be cut out and read as text.
pub open spec fn is_text_span(s: Seq<u8>, from: int, to: int) -> bool {
    &&& 0 <= from <= to <= s.len()
    &&& is_char_boundary(s, from)
    &&& is_char_boundary(s, to)
}

/// Two texts are the same characters exactly when they are the same bytes.
pub proof fn lemma_same_text_same_bytes(a: Seq<char>, b: Seq<char>)
    ensures
        (a == b) <==> (encode_utf8(a) == encode_utf8(b)),
{
    encode_utf8_decode_utf8(a);
    encode_utf8_decode_utf8(b);
}

/// Bytes below `0x80` are text.
pub proof fn lemma_ascii_is_text(s: Seq<u8>)
    requires
        forall|i: int| 0 <= i < s.len() ==> #[trigger] s[i] < 0x80,
    ensures
        valid_utf8(s),
    decreases s.len(),
{
    if s.len() > 0 {
        assert(s[0] < 0x80);
        let rest = pop_first_scalar(s);
        assert forall|i: int| 0 <= i < rest.len() implies #[trigger] rest[i] < 0x80 by {
            assert(rest[i] == s[i + 1]);
        }
        lemma_ascii_is_text(rest);
    }
}

/// In valid text a byte below `0x80` starts a character.
pub proof fn lemma_boundary_at_ascii(s: Seq<u8>, i: int)
    requires
        valid_utf8(s),
        0 <= i < s.len(),
        s[i] < 0x80,
    ensures
        is_char_boundary(s, i),
{
    is_char_boundary_iff_not_is_continuation_byte(s, i);
}

/// In valid text the position behind a byte below `0x80` starts a character
/// or is the end.
pub proof fn lemma_boundary_after_ascii(s: Seq<u8>, i: int)
    requires
        valid_utf8(s),
        0 <= i < s.len(),
        s[i] < 0x80,
    ensures
        is_char_boundary(s, i + 1),
{
    lemma_boundary_at_ascii(s, i);
    if i + 1 == s.len() {
        is_char_boundary_start_end_of_seq(s);
    } else {
        let tail = s.subrange(i, s.len() as int);
        valid_utf8_split(s, i);
        assert(tail[0] == s[i]);
        assert(valid_first_scalar(tail));
        assert(length_of_first_scalar(tail) == 1);
        let rest = pop_first_scalar(tail);
        assert(rest =~= s.subrange(i + 1, s.len() as int));
        assert(valid_utf8(rest));
        assert(rest.len() > 0);
        assert(valid_first_scalar(rest));
        assert(rest[0] == s[i + 1]);
        assert(!is_continuation_byte(s[i + 1]));
        is_char_boundary_iff_not_is_continuation_byte(s, i + 1);
    }
}

/// What lies between two character boundaries of valid text is valid text,
/// and the first boundary is one of the text that ends at the second.
pub proof fn lemma_text_span(s: Seq<u8>, from: int, to: int)
    requires
        valid_utf8(s),
        is_text_span(s, from, to),
    ensures
        valid_utf8(s.subrange(from, to)),
        valid_utf8(s.subrange(0, to)),
        is_char_boundary(s.subrange(0, to), from),
{
    let head = s.subrange(0, to);
    valid_utf8_split(s, to);
    if from == to {
        is_char_boundary_start_end_of_seq(head);
    } else if from > 0 {
        is_char_boundary_iff_not_is_continuation_byte(s, from);
        assert(head[from] == s[from]);
        is_char_boundary_iff_not_is_continuation_byte(head, from);
    }
    valid_utf8_split(head, from);
    assert(head.subrange(from, head.len() as int) =~= s.subrange(from, to));
}

/// Cuts the bytes `[from, to)` out of `src` as text.
pub fn text_between<'s>(src: &'s str, from: usize, to: usize) -> (r: &'s str)
    requires
        is_text_span(src.spec_bytes(), from as int, to as int),
    ensures
        r.spec_bytes() == src.spec_bytes().subrange(from as int, to as int),
{
    proof {
        encode_utf8_valid_utf8(src@);
        lemma_text_span(src.spec_bytes(), from as int, to as int);
    }
    let (head, _) = src.split_at(to);
    let (_, tail) = head.split_at(from);
    assert(tail.spec_bytes() =~= src.spec_bytes().subrange(from as int, to as int));
    tail
}

/// Compares two byte strings.
pub fn bytes_equal(a: &[u8], b: &[u8]) -> (r: bool)
    ensures
        r == (a@ == b@),
{
    if a.len() != b.len() {
        return false;
    }
    let mut i: usize = 0;
    while i < a.len()
        invariant
            a@.len() == b@.len(),
            i <= a@.len(),
            forall|j: int| 0 <= j < i ==> a@[j] == b@[j],
        decreases a@.len() - i,
    {
        if a[i] != b[i] {
            return false;
        }
        i += 1;
    }
    assert(a@ =~= b@);
    true
}

/// Compares the bytes `[from, to)` of `line` with `name`.
pub fn span_equals(line: &[u8], from: usize, to: usize, name: &[u8]) -> (r: bool)
    requires
        from <= to <= line@.len(),
    ensures
        r == (line@.subrange(from as int, to as int) == name@),
{
    bytes_equal(slice_subrange(line, from, to), name)
}

/// Compares two texts.
pub fn same_text(a: &str, b: &str) -> (r: bool)
    ensures
        r == (a@ == b@),
{
    proof {
        lemma_same_text_same_bytes(a@, b@);
    }
    bytes_equal(a.as_bytes(), b.as_bytes())
}

} // verus!
