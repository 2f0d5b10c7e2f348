//! Byte strings: literals, comparison, and the words of a line.
//!
//! IRC fixes no character encoding, so the library works on bytes throughout. A
//! word is a run of bytes that holds no space.

use vstd::prelude::*;
use vstd::slice::{slice_subrange, slice_to_vec};
use vstd::string::is_ascii_spec_bytes;

verus! {

/// The byte that separates the words of a line.
pub const SPACE: u8 = 0x20;

/// The bytes of a text that holds ASCII characters only.
pub open spec fn ascii(text: Seq<char>) -> Seq<u8> {
    Seq::new(text.len(), |i: int| text[i] as u8)
}

/// Whether `s` begins with `prefix`.
pub open spec fn has_prefix(s: Seq<u8>, prefix: Seq<u8>) -> bool {
    prefix.len() <= s.len() && s.take(prefix.len() as int) == prefix
}

/// Whether `s` is a word: not empty, and without a space.
pub open spec fn is_word(s: Seq<u8>) -> bool {
    &&& s.len() > 0
    &&& forall|i: int| 0 <= i < s.len() ==> #[trigger] s[i] != SPACE
}

/// Where the word that starts at `from` ends: the index of the first space at
/// or after `from`, or the length of `s` where there is none.
pub open spec fn word_end(s: Seq<u8>, from: int) -> int
    decreases s.len() - from,
{
    if 0 <= from < s.len() && s[from] != SPACE {
        word_end(s, from + 1)
    } else {
        from
    }
}

/// Where the next word starts: the index of the first byte at or after `from`
/// that is no space, or the length of `s` where there is none.
pub open spec fn skip_spaces(s: Seq<u8>, from: int) -> int
    decreases s.len() - from,
{
    if 0 <= from < s.len() && s[from] == SPACE {
        skip_spaces(s, from + 1)
    } else {
        from
    }
}

/// Where the word that ends before `to` starts: the index after the last space
/// before `to`, or 0 where there is none.
pub open spec fn word_start(s: Seq<u8>, to: int) -> int
    decreases to,
{
    if 0 < to <= s.len() && s[to - 1] != SPACE {
        word_start(s, to - 1)
    } else {
        to
    }
}

/// `word_end` stops at the first space and not before.
pub proof fn lemma_word_end(s: Seq<u8>, from: int)
    requires
        0 <= from <= s.len(),
    ensures
        from <= word_end(s, from) <= s.len(),
        forall|k: int| from <= k < word_end(s, from) ==> s[k] != SPACE,
        word_end(s, from) < s.len() ==> s[word_end(s, from)] == SPACE,
    decreases s.len() - from,
{
    if from < s.len() && s[from] != SPACE {
        lemma_word_end(s, from + 1);
    }
}

/// A run without a space that a space or the end of `s` follows is a word's
/// whole extent.
pub proof fn lemma_word_end_is(s: Seq<u8>, from: int, end: int)
    requires
        0 <= from <= end <= s.len(),
        forall|k: int| from <= k < end ==> s[k] != SPACE,
        end < s.len() ==> s[end] == SPACE,
    ensures
        word_end(s, from) == end,
    decreases end - from,
{
    if from < end {
        lemma_word_end_is(s, from + 1, end);
    }
}

/// `skip_spaces` stops at the first byte that is no space and not before.
pub proof fn lemma_skip_spaces(s: Seq<u8>, from: int)
    requires
        0 <= from <= s.len(),
    ensures
        from <= skip_spaces(s, from) <= s.len(),
        forall|k: int| from <= k < skip_spaces(s, from) ==> s[k] == SPACE,
        skip_spaces(s, from) < s.len() ==> s[skip_spaces(s, from)] != SPACE,
    decreases s.len() - from,
{
    if from < s.len() && s[from] == SPACE {
        lemma_skip_spaces(s, from + 1);
    }
}

/// A run of spaces that another byte or the end of `s` follows is skipped
/// whole.
pub proof fn lemma_skip_spaces_is(s: Seq<u8>, from: int, end: int)
    requires
        0 <= from <= end <= s.len(),
        forall|k: int| from <= k < end ==> s[k] == SPACE,
        end < s.len() ==> s[end] != SPACE,
    ensures
        skip_spaces(s, from) == end,
    decreases end - from,
{
    if from < end {
        lemma_skip_spaces_is(s, from + 1, end);
    }
}

/// A run without a space that a space or the start of `s` precedes is a word's
/// whole extent.
pub proof fn lemma_word_start_is(s: Seq<u8>, start: int, to: int)
    requires
        0 <= start <= to <= s.len(),
        forall|k: int| start <= k < to ==> s[k] != SPACE,
        start > 0 ==> s[start - 1] == SPACE,
    ensures
        word_start(s, to) == start,
    decreases to - start,
{
    if start < to {
        lemma_word_start_is(s, start, to - 1);
    }
}

/// The bytes of an ASCII text.
pub(crate) fn ascii_bytes(text: &str) -> (r: &[u8])
    requires
        text.is_ascii(),
    ensures
        r@ == ascii(text@),
{
    proof {
        is_ascii_spec_bytes(text);
    }
    text.as_bytes()
}

/// An ASCII text as a byte string of its own.
pub(crate) fn literal(text: &str) -> (r: Vec<u8>)
    requires
        text.is_ascii(),
    ensures
        r@ == ascii(text@),
{
    slice_to_vec(ascii_bytes(text))
}

/// A copy of the bytes of `s` from `from` up to `to`.
pub(crate) fn copy_range(s: &[u8], from: usize, to: usize) -> (r: Vec<u8>)
    requires
        from <= to <= s.len(),
    ensures
        r@ == s@.subrange(from as int, to as int),
{
    slice_to_vec(slice_subrange(s, from, to))
}

/// Appends `tail` to `dst`.
pub fn append(dst: &mut Vec<u8>, tail: &[u8])
    ensures
        final(dst)@ == old(dst)@ + tail@,
{
    let mut i: usize = 0;
    while i < tail.len()
        invariant
            0 <= i <= tail.len(),
            dst@ == old(dst)@ + tail@.take(i as int),
        decreases tail.len() - i,
    {
        dst.push(tail[i]);
        i += 1;
    }
    proof {
        assert(tail@.take(i as int) == tail@);
    }
}

/// Whether two byte strings are the same.
pub fn bytes_eq(a: &[u8], b: &[u8]) -> (r: bool)
    ensures
        r == (a@ == b@),
{
    if a.len() != b.len() {
        return false;
    }
    let mut i: usize = 0;
    while i < a.len()
        invariant
            0 <= i <= a.len(),
            a.len() == b.len(),
            a@.take(i as int) == b@.take(i as int),
        decreases a.len() - i,
    {
        if a[i] != b[i] {
            return false;
        }
        proof {
            assert(a@.take(i + 1) == a@.take(i as int).push(a@[i as int]));
            assert(b@.take(i + 1) == b@.take(i as int).push(b@[i as int]));
        }
        i += 1;
    }
    proof {
        assert(a@.take(i as int) == a@);
        assert(b@.take(i as int) == b@);
    }
    true
}

/// Whether two texts are the same.
pub fn same_text(a: &str, b: &str) -> (r: bool)
    ensures
        r == (a@ == b@),
{
    let left: String = a.to_owned();
    let right: String = b.to_owned();
    left == right
}

/// Whether `s` begins with `prefix`.
pub fn starts_with(s: &[u8], prefix: &[u8]) -> (r: bool)
    ensures
        r == has_prefix(s@, prefix@),
{
    if prefix.len() > s.len() {
        return false;
    }
    let head = slice_subrange(s, 0, prefix.len());
    bytes_eq(head, prefix)
}

/// The index of the first space at or after `from`, or the length of `s`;
/// `from` itself where it lies behind the end of `s`.
pub fn scan_word(s: &[u8], from: usize) -> (r: usize)
    ensures
        r == word_end(s@, from as int),
        from <= r,
        from <= s.len() ==> r <= s.len(),
{
    let mut i: usize = from;
    while i < s.len() && s[i] != SPACE
        invariant
            from <= i,
            from <= s.len() ==> i <= s.len(),
            word_end(s@, from as int) == word_end(s@, i as int),
        decreases s.len() - i,
    {
        i += 1;
    }
    i
}

/// The index of the first byte at or after `from` that is no space, or the
/// length of `s`; `from` itself where it lies behind the end of `s`.
pub fn scan_spaces(s: &[u8], from: usize) -> (r: usize)
    ensures
        r == skip_spaces(s@, from as int),
        from <= r,
        from <= s.len() ==> r <= s.len(),
{
    let mut i: usize = from;
    while i < s.len() && s[i] == SPACE
        invariant
            from <= i,
            from <= s.len() ==> i <= s.len(),
            skip_spaces(s@, from as int) == skip_spaces(s@, i as int),
        decreases s.len() - i,
    {
        i += 1;
    }
    i
}

/// The index after the last space before `to`, or 0; `to` itself where it
/// lies behind the end of `s`.
pub fn scan_word_back(s: &[u8], to: usize) -> (r: usize)
    ensures
        r == word_start(s@, to as int),
        r <= to,
{
    let mut i: usize = to;
    while 0 < i && i <= s.len() && s[i - 1] != SPACE
        invariant
            0 <= i <= to,
            word_start(s@, to as int) == word_start(s@, i as int),
        decreases i,
    {
        i -= 1;
    }
    i
}

} // verus!
