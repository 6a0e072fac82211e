//! Pieces: spans over two buffers of characters, the text that a sequence
//! of them stands for, and what an insertion and a deletion make of such a
//! sequence.

use vstd::prelude::*;
use crate::text::{
    lemma_delete_in_prefix,
    lemma_delete_past_prefix,
    lemma_insert_at_start,
    lemma_insert_in_prefix,
    lemma_insert_past_prefix,
    text_delete,
    text_insert,
};

verus! {

/// The buffer that a piece takes its characters from.
#[derive(Clone, Copy, Debug)]
pub enum Source {
    /// The text the table was made from, which never changes.
    Original,
    /// The buffer to which every inserted text is appended.
    Added,
}

/// A span of `length` characters that begins at offset `start` of a buffer.
#[derive(Clone, Copy, Debug)]
pub struct Piece {
    pub source: Source,
    pub start: usize,
    pub length: usize,
}

impl Piece {
    /// The first `n` characters of the piece.
    pub open spec fn head(self, n: int) -> Piece {
        Piece { source: self.source, start: self.start, length: n as usize }
    }

    /// The piece without its first `n` characters.
    pub open spec fn tail(self, n: int) -> Piece {
        Piece {
            source: self.source,
            start: (self.start + n) as usize,
            length: (self.length - n) as usize,
        }
    }
}

/// The buffer that `source` names.
pub open spec fn source_text(original: Seq<char>, added: Seq<char>, source: Source) -> Seq<char> {
    match source {
        Source::Original => original,
        Source::Added => added,
    }
}

/// The piece lies inside its buffer.
pub open spec fn piece_in_bounds(original: Seq<char>, added: Seq<char>, p: Piece) -> bool {
    p.start + p.length <= source_text(original, added, p.source).len()
}

/// Every piece lies inside its buffer.
pub open spec fn pieces_in_bounds(
    original: Seq<char>,
    added: Seq<char>,
    pieces: Seq<Piece>,
) -> bool {
    forall|i: int| 0 <= i < pieces.len() ==> piece_in_bounds(original, added, #[trigger] pieces[i])
}

/// The characters that a piece refers to.
pub open spec fn piece_text(original: Seq<char>, added: Seq<char>, p: Piece) -> Seq<char> {
    source_text(original, added, p.source).subrange(p.start as int, p.start + p.length)
}

/// The text of a sequence of pieces: what they refer to, in their order.
pub open spec fn materialize(
    original: Seq<char>,
    added: Seq<char>,
    pieces: Seq<Piece>,
) -> Seq<char>
    decreases pieces.len(),
{
    if pieces.len() == 0 {
        Seq::empty()
    } else {
        piece_text(original, added, pieces[0]) + materialize(original, added, pieces.drop_first())
    }
}

/// The sum of the lengths of the pieces.
pub open spec fn total_length(pieces: Seq<Piece>) -> nat
    decreases pieces.len(),
{
    if pieces.len() == 0 {
        0
    } else {
        pieces[0].length as nat + total_length(pieces.drop_first())
    }
}

/// The pieces after `new_piece` has been put at offset `index` of their
/// text. The piece whose span holds `index` in its inside is split in two
/// round the new piece; at the boundary before a piece the new piece goes
/// in front of it unsplit; at the end of the text it is appended.
pub open spec fn insert_pieces(pieces: Seq<Piece>, index: int, new_piece: Piece) -> Seq<Piece>
    decreases pieces.len(),
{
    if pieces.len() == 0 {
        seq![new_piece]
    } else if index >= pieces[0].length {
        seq![pieces[0]] + insert_pieces(pieces.drop_first(), index - pieces[0].length, new_piece)
    } else if index <= 0 {
        seq![new_piece] + pieces
    } else {
        seq![pieces[0].head(index), new_piece, pieces[0].tail(index)] + pieces.drop_first()
    }
}

/// What is left of the piece `p` when the characters from `from` up to
/// `to` (offsets inside the piece, `from <= to`) are taken out of it:
/// nothing if they are all of it, the piece shortened at its head or at its
/// tail if they touch that edge, and two pieces if they lie in its inside.
pub open spec fn piece_remainders(p: Piece, from: int, to: int) -> Seq<Piece> {
    let before = if from > 0 {
        seq![p.head(from)]
    } else {
        Seq::empty()
    };
    let after = if to < p.length {
        seq![p.tail(to)]
    } else {
        Seq::empty()
    };
    before + after
}

/// The pieces after the `length` characters from offset `start` of their
/// text have been deleted. A piece that the range does not meet stays as it
/// is; of the others `piece_remainders` is left.
pub open spec fn delete_pieces(pieces: Seq<Piece>, start: int, length: int) -> Seq<Piece>
    decreases pieces.len(),
{
    if pieces.len() == 0 || length <= 0 {
        pieces
    } else if start >= pieces[0].length {
        seq![pieces[0]] + delete_pieces(pieces.drop_first(), start - pieces[0].length, length)
    } else {
        let to = if start + length < pieces[0].length {
            start + length
        } else {
            pieces[0].length as int
        };
        piece_remainders(pieces[0], start, to) + delete_pieces(
            pieces.drop_first(),
            0,
            length - (to - start),
        )
    }
}

/// The text of two runs of pieces, one after the other, is the text of the
/// first followed by the text of the second, and their lengths add up.
pub proof fn lemma_materialize_concat(
    original: Seq<char>,
    added: Seq<char>,
    p: Seq<Piece>,
    q: Seq<Piece>,
)
    ensures
        materialize(original, added, p + q) == materialize(original, added, p) + materialize(
            original,
            added,
            q,
        ),
        total_length(p + q) == total_length(p) + total_length(q),
        pieces_in_bounds(original, added, p) && pieces_in_bounds(original, added, q)
            ==> pieces_in_bounds(original, added, p + q),
    decreases p.len(),
{
    if p.len() == 0 {
        assert(p + q =~= q);
        assert(materialize(original, added, p + q) =~= materialize(original, added, p)
            + materialize(original, added, q));
    } else {
        assert((p + q).drop_first() =~= p.drop_first() + q);
        lemma_materialize_concat(original, added, p.drop_first(), q);
        assert(materialize(original, added, p + q) =~= materialize(original, added, p)
            + materialize(original, added, q));
    }
}

/// The text of a single piece.
pub proof fn lemma_materialize_one(original: Seq<char>, added: Seq<char>, p: Piece)
    ensures
        materialize(original, added, seq![p]) == piece_text(original, added, p),
        total_length(seq![p]) == p.length,
{
    let s = seq![p];
    assert(s.drop_first() =~= Seq::<Piece>::empty());
    assert(materialize(original, added, s.drop_first()) =~= Seq::<char>::empty());
    assert(total_length(s.drop_first()) == 0);
    assert(materialize(original, added, s) =~= piece_text(original, added, p));
}

/// Pieces that lie inside their buffers have a text as long as the sum of
/// their lengths.
pub proof fn lemma_materialize_len(original: Seq<char>, added: Seq<char>, pieces: Seq<Piece>)
    requires
        pieces_in_bounds(original, added, pieces),
    ensures
        materialize(original, added, pieces).len() == total_length(pieces),
    decreases pieces.len(),
{
    if pieces.len() > 0 {
        assert(piece_in_bounds(original, added, pieces[0]));
        assert forall|i: int| 0 <= i < pieces.drop_first().len() implies piece_in_bounds(
            original,
            added,
            #[trigger] pieces.drop_first()[i],
        ) by {
            assert(pieces.drop_first()[i] == pieces[i + 1]);
        }
        lemma_materialize_len(original, added, pieces.drop_first());
    }
}

/// Appending to the added buffer changes neither the text of pieces that
/// lie inside the buffers nor that they do.
pub proof fn lemma_materialize_grow(
    original: Seq<char>,
    added: Seq<char>,
    more: Seq<char>,
    pieces: Seq<Piece>,
)
    requires
        pieces_in_bounds(original, added, pieces),
    ensures
        pieces_in_bounds(original, added + more, pieces),
        materialize(original, added + more, pieces) == materialize(original, added, pieces),
    decreases pieces.len(),
{
    assert forall|i: int| 0 <= i < pieces.len() implies piece_in_bounds(
        original,
        added + more,
        #[trigger] pieces[i],
    ) by {
        assert(piece_in_bounds(original, added, pieces[i]));
    }
    if pieces.len() > 0 {
        assert(piece_in_bounds(original, added, pieces[0]));
        assert forall|i: int| 0 <= i < pieces.drop_first().len() implies piece_in_bounds(
            original,
            added,
            #[trigger] pieces.drop_first()[i],
        ) by {
            assert(pieces.drop_first()[i] == pieces[i + 1]);
        }
        lemma_materialize_grow(original, added, more, pieces.drop_first());
        assert(piece_text(original, added + more, pieces[0]) =~= piece_text(
            original,
            added,
            pieces[0],
        ));
    }
}

/// The two parts into which a piece is split at an offset inside it lie
/// inside the buffer as the piece does, and their texts make up its text.
pub proof fn lemma_split(original: Seq<char>, added: Seq<char>, p: Piece, n: int)
    requires
        piece_in_bounds(original, added, p),
        source_text(original, added, p.source).len() <= usize::MAX,
        0 <= n <= p.length,
    ensures
        piece_in_bounds(original, added, p.head(n)),
        piece_in_bounds(original, added, p.tail(n)),
        p.head(n).length == n,
        p.tail(n).length == p.length - n,
        piece_text(original, added, p.head(n)) == piece_text(original, added, p).subrange(0, n),
        piece_text(original, added, p.tail(n)) == piece_text(original, added, p).subrange(
            n,
            p.length as int,
        ),
{
    assert(piece_text(original, added, p.head(n)) =~= piece_text(original, added, p).subrange(
        0,
        n,
    ));
    assert(piece_text(original, added, p.tail(n)) =~= piece_text(original, added, p).subrange(
        n,
        p.length as int,
    ));
}

/// A run of pieces seen as its first piece and the rest.
pub proof fn lemma_cons(original: Seq<char>, added: Seq<char>, first: Piece, rest: Seq<Piece>)
    ensures
        materialize(original, added, seq![first] + rest) == piece_text(original, added, first)
            + materialize(original, added, rest),
        total_length(seq![first] + rest) == first.length + total_length(rest),
        pieces_in_bounds(original, added, seq![first] + rest) <==> piece_in_bounds(
            original,
            added,
            first,
        ) && pieces_in_bounds(original, added, rest),
{
    let s = seq![first] + rest;
    assert(s[0] == first);
    assert(s.drop_first() =~= rest);
    if pieces_in_bounds(original, added, s) {
        assert(piece_in_bounds(original, added, s[0]));
        assert forall|i: int| 0 <= i < rest.len() implies piece_in_bounds(
            original,
            added,
            #[trigger] rest[i],
        ) by {
            assert(rest[i] == s[i + 1]);
        }
    }
    if piece_in_bounds(original, added, first) && pieces_in_bounds(original, added, rest) {
        assert forall|i: int| 0 <= i < s.len() implies piece_in_bounds(
            original,
            added,
            #[trigger] s[i],
        ) by {
            if i > 0 {
                assert(s[i] == rest[i - 1]);
            }
        }
    }
}

/// A run of pieces that is not empty is its first piece followed by the rest.
pub proof fn lemma_uncons(pieces: Seq<Piece>)
    requires
        pieces.len() > 0,
    ensures
        pieces == seq![pieces[0]] + pieces.drop_first(),
{
    assert(pieces =~= seq![pieces[0]] + pieces.drop_first());
}

/// The pieces and the text when a new piece splits the first piece.
proof fn lemma_insert_inside_first(
    original: Seq<char>,
    added: Seq<char>,
    first: Piece,
    rest: Seq<Piece>,
    index: int,
    new_piece: Piece,
)
    requires
        original.len() <= usize::MAX,
        added.len() <= usize::MAX,
        piece_in_bounds(original, added, first),
        pieces_in_bounds(original, added, rest),
        piece_in_bounds(original, added, new_piece),
        0 < index < first.length,
    ensures
        pieces_in_bounds(
            original,
            added,
            seq![first.head(index), new_piece, first.tail(index)] + rest,
        ),
        total_length(seq![first.head(index), new_piece, first.tail(index)] + rest)
            == first.length + new_piece.length + total_length(rest),
        materialize(original, added, seq![first.head(index), new_piece, first.tail(index)] + rest)
            == text_insert(
            piece_text(original, added, first),
            index,
            piece_text(original, added, new_piece),
        ) + materialize(original, added, rest),
{
    let h = first.head(index);
    let t = first.tail(index);
    lemma_split(original, added, first, index);
    let s3 = seq![t] + rest;
    let s2 = seq![new_piece] + s3;
    let s1 = seq![h] + s2;
    lemma_cons(original, added, t, rest);
    lemma_cons(original, added, new_piece, s3);
    lemma_cons(original, added, h, s2);
    assert(seq![h, new_piece, t] + rest =~= s1);
    assert(materialize(original, added, s1) =~= text_insert(
        piece_text(original, added, first),
        index,
        piece_text(original, added, new_piece),
    ) + materialize(original, added, rest));
}

/// `insert_pieces` inserts the text of the new piece at `index` of the text
/// of the pieces, and keeps the pieces inside their buffers.
pub proof fn lemma_insert_pieces(
    original: Seq<char>,
    added: Seq<char>,
    pieces: Seq<Piece>,
    index: int,
    new_piece: Piece,
)
    requires
        original.len() <= usize::MAX,
        added.len() <= usize::MAX,
        pieces_in_bounds(original, added, pieces),
        piece_in_bounds(original, added, new_piece),
        0 <= index <= total_length(pieces),
    ensures
        pieces_in_bounds(original, added, insert_pieces(pieces, index, new_piece)),
        total_length(insert_pieces(pieces, index, new_piece)) == total_length(pieces)
            + new_piece.length,
        materialize(original, added, insert_pieces(pieces, index, new_piece)) == text_insert(
            materialize(original, added, pieces),
            index,
            piece_text(original, added, new_piece),
        ),
    decreases pieces.len(),
{
    let new_text = piece_text(original, added, new_piece);
    if pieces.len() == 0 {
        lemma_materialize_one(original, added, new_piece);
        assert(pieces_in_bounds(original, added, seq![new_piece]));
        lemma_insert_at_start(Seq::<char>::empty(), new_text);
        assert(new_text + Seq::<char>::empty() =~= new_text);
    } else {
        let first = pieces[0];
        let rest = pieces.drop_first();
        let first_text = piece_text(original, added, first);
        let rest_text = materialize(original, added, rest);
        lemma_uncons(pieces);
        lemma_cons(original, added, first, rest);
        lemma_materialize_len(original, added, rest);
        if index >= first.length {
            let sub = insert_pieces(rest, index - first.length, new_piece);
            lemma_insert_pieces(original, added, rest, index - first.length, new_piece);
            lemma_cons(original, added, first, sub);
            lemma_insert_past_prefix(first_text, rest_text, index, new_text);
        } else if index <= 0 {
            lemma_cons(original, added, new_piece, pieces);
            lemma_insert_at_start(materialize(original, added, pieces), new_text);
        } else {
            lemma_insert_inside_first(original, added, first, rest, index, new_piece);
            lemma_insert_in_prefix(first_text, rest_text, index, new_text);
        }
    }
}

/// What `piece_remainders` leaves of a piece.
proof fn lemma_piece_remainders(
    original: Seq<char>,
    added: Seq<char>,
    p: Piece,
    from: int,
    to: int,
)
    requires
        original.len() <= usize::MAX,
        added.len() <= usize::MAX,
        piece_in_bounds(original, added, p),
        0 <= from <= to <= p.length,
    ensures
        pieces_in_bounds(original, added, piece_remainders(p, from, to)),
        total_length(piece_remainders(p, from, to)) == p.length - (to - from),
        materialize(original, added, piece_remainders(p, from, to)) == piece_text(
            original,
            added,
            p,
        ).subrange(0, from) + piece_text(original, added, p).subrange(to, p.length as int),
{
    let text = piece_text(original, added, p);
    let kept = piece_remainders(p, from, to);
    let none = Seq::<Piece>::empty();
    lemma_split(original, added, p, from);
    lemma_split(original, added, p, to);
    lemma_cons(original, added, p.tail(to), none);
    assert(materialize(original, added, none) =~= Seq::<char>::empty());
    assert(total_length(none) == 0);
    if from > 0 && to < p.length {
        lemma_cons(original, added, p.head(from), seq![p.tail(to)] + none);
        assert(kept =~= seq![p.head(from)] + (seq![p.tail(to)] + none));
    } else if from > 0 {
        lemma_cons(original, added, p.head(from), none);
        assert(kept =~= seq![p.head(from)] + none);
    } else if to < p.length {
        assert(kept =~= seq![p.tail(to)] + none);
    } else {
        assert(kept =~= none);
    }
    assert(materialize(original, added, kept) =~= text.subrange(0, from) + text.subrange(
        to,
        p.length as int,
    ));
}

/// `delete_pieces` deletes the range from the text of the pieces, and keeps
/// the pieces inside their buffers.
pub proof fn lemma_delete_pieces(
    original: Seq<char>,
    added: Seq<char>,
    pieces: Seq<Piece>,
    start: int,
    length: int,
)
    requires
        original.len() <= usize::MAX,
        added.len() <= usize::MAX,
        pieces_in_bounds(original, added, pieces),
        0 <= start,
        0 <= length,
        start + length <= total_length(pieces),
    ensures
        pieces_in_bounds(original, added, delete_pieces(pieces, start, length)),
        total_length(delete_pieces(pieces, start, length)) == total_length(pieces) - length,
        materialize(original, added, delete_pieces(pieces, start, length)) == text_delete(
            materialize(original, added, pieces),
            start,
            length,
        ),
    decreases pieces.len(),
{
    let text = materialize(original, added, pieces);
    lemma_materialize_len(original, added, pieces);
    if pieces.len() == 0 || length <= 0 {
        assert(text_delete(text, start, length) =~= text);
    } else {
        let first = pieces[0];
        let rest = pieces.drop_first();
        let first_text = piece_text(original, added, first);
        let rest_text = materialize(original, added, rest);
        lemma_uncons(pieces);
        lemma_cons(original, added, first, rest);
        lemma_materialize_len(original, added, rest);
        if start >= first.length {
            let sub = delete_pieces(rest, start - first.length, length);
            lemma_delete_pieces(original, added, rest, start - first.length, length);
            lemma_cons(original, added, first, sub);
            lemma_delete_past_prefix(first_text, rest_text, start, length);
        } else {
            let to = if start + length < first.length {
                start + length
            } else {
                first.length as int
            };
            let kept = piece_remainders(first, start, to);
            let sub = delete_pieces(rest, 0, length - (to - start));
            lemma_delete_pieces(original, added, rest, 0, length - (to - start));
            lemma_piece_remainders(original, added, first, start, to);
            lemma_materialize_concat(original, added, kept, sub);
            lemma_delete_in_prefix(first_text, rest_text, start, to, length);
        }
    }
}

/// What a piece table is made of: the two buffers and the pieces over them.
pub struct TableState {
    /// The original text.
    pub original: Seq<char>,
    /// All the text that was ever inserted, in the order of the insertions.
    pub added: Seq<char>,
    /// The pieces, in the order of the text.
    pub pieces: Seq<Piece>,
}

impl TableState {
    /// The table that holds `content` as one piece over the original text.
    pub open spec fn holding(content: Seq<char>) -> TableState {
        TableState {
            original: content,
            added: Seq::empty(),
            pieces: seq![
                Piece { source: Source::Original, start: 0, length: content.len() as usize },
            ],
        }
    }

    /// Both buffers have a length that fits a `usize`, and every piece lies
    /// inside its buffer.
    pub open spec fn wf(self) -> bool {
        &&& self.original.len() <= usize::MAX
        &&& self.added.len() <= usize::MAX
        &&& pieces_in_bounds(self.original, self.added, self.pieces)
    }

    /// The text that the table holds.
    pub open spec fn text(self) -> Seq<char> {
        materialize(self.original, self.added, self.pieces)
    }

    /// The table after `text` has been inserted at `index`: `text` is
    /// appended to the added buffer, and a piece over just those characters
    /// is put among the pieces as `insert_pieces` says.
    pub open spec fn insert(self, index: int, text: Seq<char>) -> TableState {
        TableState {
            original: self.original,
            added: self.added + text,
            pieces: insert_pieces(
                self.pieces,
                index,
                Piece {
                    source: Source::Added,
                    start: self.added.len() as usize,
                    length: text.len() as usize,
                },
            ),
        }
    }

    /// The table after `length` characters from `start` have been deleted:
    /// the buffers stay, and the pieces are as `delete_pieces` says.
    pub open spec fn delete(self, start: int, length: int) -> TableState {
        TableState {
            original: self.original,
            added: self.added,
            pieces: delete_pieces(self.pieces, start, length),
        }
    }

    /// The text of a well-formed table is as long as its pieces together.
    pub proof fn lemma_len(self)
        requires
            self.wf(),
        ensures
            self.text().len() == total_length(self.pieces),
    {
        lemma_materialize_len(self.original, self.added, self.pieces);
    }

    /// The table that holds `content` is well formed and has `content` as
    /// its text.
    pub proof fn lemma_holding(content: Seq<char>)
        requires
            content.len() <= usize::MAX,
        ensures
            Self::holding(content).wf(),
            Self::holding(content).text() == content,
    {
        let table = Self::holding(content);
        lemma_materialize_one(table.original, table.added, table.pieces[0]);
        assert(table.pieces =~= seq![table.pieces[0]]);
        assert(piece_text(table.original, table.added, table.pieces[0]) =~= content);
    }

    /// An insertion into a well-formed table, at an offset of its text and
    /// of a text that the added buffer has room for, gives a well-formed
    /// table whose text is the old text with the new one inserted.
    pub proof fn lemma_insert(self, index: int, text: Seq<char>)
        requires
            self.wf(),
            0 <= index <= self.text().len(),
            self.added.len() + text.len() <= usize::MAX,
        ensures
            self.insert(index, text).wf(),
            self.insert(index, text).text() == text_insert(self.text(), index, text),
    {
        let added = self.added + text;
        let new_piece = Piece {
            source: Source::Added,
            start: self.added.len() as usize,
            length: text.len() as usize,
        };
        lemma_materialize_len(self.original, self.added, self.pieces);
        lemma_materialize_grow(self.original, self.added, text, self.pieces);
        assert(piece_text(self.original, added, new_piece) =~= text);
        lemma_insert_pieces(self.original, added, self.pieces, index, new_piece);
    }

    /// A deletion from a well-formed table, of a range of its text, gives a
    /// well-formed table whose text is the old text without the range.
    pub proof fn lemma_delete(self, start: int, length: int)
        requires
            self.wf(),
            0 <= start,
            0 <= length,
            start + length <= self.text().len(),
        ensures
            self.delete(start, length).wf(),
            self.delete(start, length).text() == text_delete(self.text(), start, length),
    {
        lemma_materialize_len(self.original, self.added, self.pieces);
        lemma_delete_pieces(self.original, self.added, self.pieces, start, length);
    }
}

} // verus!
