//! Point insertion and range deletion on a text, as functions on sequences
//! of characters, and the laws that relate them.

use vstd::prelude::*;

verus! {

/// The text `s` with `t` placed so that it begins at offset `index`.
pub open spec fn text_insert(s: Seq<char>, index: int, t: Seq<char>) -> Seq<char> {
    s.subrange(0, index) + t + s.subrange(index, s.len() as int)
}

/// The text `s` without the `length` characters that begin at offset `start`.
pub open spec fn text_delete(s: Seq<char>, start: int, length: int) -> Seq<char> {
    s.subrange(0, start) + s.subrange(start + length, s.len() as int)
}

/// An insertion lengthens the text by the length of what is inserted.
pub proof fn lemma_insert_len(s: Seq<char>, index: int, t: Seq<char>)
    requires
        0 <= index <= s.len(),
    ensures
        text_insert(s, index, t).len() == s.len() + t.len(),
{
}

/// A deletion shortens the text by the length of the range.
pub proof fn lemma_delete_len(s: Seq<char>, start: int, length: int)
    requires
        0 <= start,
        0 <= length,
        start + length <= s.len(),
    ensures
        text_delete(s, start, length).len() == s.len() - length,
{
}

/// Inserting `t` at `index` and then deleting the range that `t` occupies
/// gives back the text as it was.
pub proof fn lemma_insert_then_delete(s: Seq<char>, index: int, t: Seq<char>)
    requires
        0 <= index <= s.len(),
    ensures
        text_delete(text_insert(s, index, t), index, t.len() as int) == s,
{
    assert(text_delete(text_insert(s, index, t), index, t.len() as int) =~= s);
}

/// Inserting at the end of a text appends to it.
pub proof fn lemma_insert_at_end(s: Seq<char>, t: Seq<char>)
    ensures
        text_insert(s, s.len() as int, t) == s + t,
{
    assert(text_insert(s, s.len() as int, t) =~= s + t);
}

/// Deleting the whole range of a text leaves the empty text.
pub proof fn lemma_delete_all(s: Seq<char>)
    ensures
        text_delete(s, 0, s.len() as int) == Seq::<char>::empty(),
{
    assert(text_delete(s, 0, s.len() as int) =~= Seq::<char>::empty());
}

/// Inserting at the start of a text puts the new text in front of it.
pub proof fn lemma_insert_at_start(s: Seq<char>, t: Seq<char>)
    ensures
        text_insert(s, 0, t) == t + s,
{
    assert(text_insert(s, 0, t) =~= t + s);
}

/// An insertion at or after the end of the first part of a text leaves
/// that part as it is and inserts into the rest.
pub proof fn lemma_insert_past_prefix(a: Seq<char>, b: Seq<char>, index: int, t: Seq<char>)
    requires
        a.len() <= index <= a.len() + b.len(),
    ensures
        text_insert(a + b, index, t) == a + text_insert(b, index - a.len(), t),
{
    assert(text_insert(a + b, index, t) =~= a + text_insert(b, index - a.len(), t));
}

/// An insertion inside the first part of a text inserts into that part and
/// leaves the rest as it is.
pub proof fn lemma_insert_in_prefix(a: Seq<char>, b: Seq<char>, index: int, t: Seq<char>)
    requires
        0 <= index <= a.len(),
    ensures
        text_insert(a + b, index, t) == text_insert(a, index, t) + b,
{
    assert(text_insert(a + b, index, t) =~= text_insert(a, index, t) + b);
}

/// A deletion that begins at or after the end of the first part of a text
/// leaves that part as it is and deletes from the rest.
pub proof fn lemma_delete_past_prefix(a: Seq<char>, b: Seq<char>, start: int, length: int)
    requires
        a.len() <= start,
        0 <= length,
        start + length <= a.len() + b.len(),
    ensures
        text_delete(a + b, start, length) == a + text_delete(b, start - a.len(), length),
{
    assert(text_delete(a + b, start, length) =~= a + text_delete(b, start - a.len(), length));
}

/// A deletion that begins inside the first part of a text takes from that
/// part what of the range lies in it, up to the offset `to`, and the rest of
/// the range from the start of what follows.
pub proof fn lemma_delete_in_prefix(
    a: Seq<char>,
    b: Seq<char>,
    start: int,
    to: int,
    length: int,
)
    requires
        0 <= start <= to <= a.len(),
        start + length <= a.len() + b.len(),
        to == start + length || (to == a.len() && to <= start + length),
    ensures
        text_delete(a + b, start, length) == a.subrange(0, start) + a.subrange(
            to,
            a.len() as int,
        ) + text_delete(b, 0, length - (to - start)),
{
    assert(text_delete(a + b, start, length) =~= a.subrange(0, start) + a.subrange(
        to,
        a.len() as int,
    ) + text_delete(b, 0, length - (to - start)));
}

} // verus!
