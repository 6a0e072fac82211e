//! The mirror store: the rope that holds a document's text a second time
//! and serves every read.
//!
//! The rope is `ropey::Rope`. Nothing in this file is proved: each function
//! states what the rope's documentation says of the method that it calls.

use vstd::prelude::*;
use ropey::Rope;
use crate::text::{text_delete, text_insert};

verus! {

#[verifier::external_type_specification]
#[verifier::external_body]
pub struct ExRope(Rope);

// The characters that a rope holds, in their order.
pub uninterp spec fn rope_chars(rope: Rope) -> Seq<char>;

/// `Rope::new`. Claimed: the new rope holds no character.
#[verifier::external_body]
pub(crate) fn rope_new() -> (rope: Rope)
    ensures
        rope_chars(rope) == Seq::<char>::empty(),
{
    Rope::new()
}

/// `Rope::len_chars`. Claimed: it returns the number of characters in the
/// rope.
#[verifier::external_body]
pub(crate) fn rope_len_chars(rope: &Rope) -> (length: usize)
    ensures
        length == rope_chars(*rope).len(),
{
    rope.len_chars()
}

/// `Rope::insert`, which panics if `char_idx` is past the end: that is
/// ruled out. Claimed: afterwards the rope holds what it held, with the
/// characters of `text` placed so that they begin at `char_idx`.
#[verifier::external_body]
pub(crate) fn rope_insert(rope: &mut Rope, char_idx: usize, text: &str)
    requires
        char_idx <= rope_chars(*old(rope)).len(),
    ensures
        rope_chars(*final(rope)) == text_insert(rope_chars(*old(rope)), char_idx as int, text@),
{
    rope.insert(char_idx, text)
}

/// `Rope::remove` on the range `start..end`, which panics if `start > end`
/// or if `end` is past the end: that is ruled out. Claimed: afterwards the
/// rope holds what it held, without the characters from `start` up to `end`.
#[verifier::external_body]
pub(crate) fn rope_remove(rope: &mut Rope, start: usize, end: usize)
    requires
        start <= end <= rope_chars(*old(rope)).len(),
    ensures
        rope_chars(*final(rope)) == text_delete(
            rope_chars(*old(rope)),
            start as int,
            end - start,
        ),
{
    rope.remove(start..end)
}

/// `Rope::slice` on the range `start..end`, which panics if `start > end`
/// or if `end` is past the end: that is ruled out; and the slice written
/// out as a `String`. Claimed: the string holds the rope's characters from
/// `start` up to `end`.
#[verifier::external_body]
pub(crate) fn rope_slice(rope: &Rope, start: usize, end: usize) -> (text: String)
    requires
        start <= end <= rope_chars(*rope).len(),
    ensures
        text@ == rope_chars(*rope).subrange(start as int, end as int),
{
    rope.slice(start..end).to_string()
}

} // verus!
