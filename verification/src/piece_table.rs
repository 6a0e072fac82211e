//! The piece table: a text kept as a sequence of pieces over two buffers.

use vstd::prelude::*;
use vstd::string::*;
use crate::pieces::{
    delete_pieces,
    insert_pieces,
    lemma_cons,
    lemma_uncons,
    materialize,
    piece_in_bounds,
    piece_remainders,
    piece_text,
    pieces_in_bounds,
    total_length,
    Piece,
    Source,
    TableState,
};
use crate::text::{lemma_delete_len, lemma_insert_len, text_delete, text_insert};

verus! {

/// A text held as an ordered sequence of pieces over two buffers: the
/// original text, which never changes, and the added text, which only grows.
/// The pieces partition the text: each covers the offsets from the sum of
/// the lengths before it up to that sum plus its own length.
pub struct PieceTable {
    original: String,
    add_buffer: String,
    pieces: Vec<Piece>,
    total_length: usize,
}

impl View for PieceTable {
    type V = Seq<char>;

    /// The text that the table holds.
    open spec fn view(&self) -> Seq<char> {
        self.state().text()
    }
}

impl PieceTable {
    /// The buffers and the pieces of the table.
    pub closed spec fn state(&self) -> TableState {
        TableState { original: self.original@, added: self.add_buffer@, pieces: self.pieces@ }
    }

    /// The table is well formed: its buffers and pieces are, and the length
    /// that it keeps is the sum of the pieces' lengths.
    pub closed spec fn wf(&self) -> bool {
        &&& self.state().wf()
        &&& self.total_length == total_length(self.pieces@)
    }

    /// In a well-formed table the buffers and the pieces are well formed,
    /// and the text has a length that fits a `usize`.
    pub proof fn lemma_wf(&self)
        requires
            self.wf(),
        ensures
            self.state().wf(),
            self@.len() <= usize::MAX,
    {
        self.state().lemma_len();
    }

    /// A table that holds `content`, as one piece over the original text.
    pub fn new(content: String) -> (table: PieceTable)
        ensures
            table.wf(),
            table.state() == TableState::holding(content@),
            table@ == content@,
    {
        let length = content.as_str().unicode_len();
        let piece = Piece { source: Source::Original, start: 0, length };
        let mut pieces: Vec<Piece> = Vec::new();
        pieces.push(piece);
        let table = PieceTable {
            original: content,
            add_buffer: String::new(),
            pieces,
            total_length: length,
        };
        proof {
            assert(table.pieces@ =~= seq![piece]);
            TableState::lemma_holding(content@);
            table.state().lemma_len();
        }
        table
    }

    /// Inserts `text` so that it begins at offset `index`. An `index` past
    /// the end of the text leaves the table as it is.
    #[verifier::loop_isolation(false)]
    pub fn insert(&mut self, index: usize, text: &str)
        requires
            old(self).wf(),
            index <= old(self)@.len() ==> old(self)@.len() + text@.len() <= usize::MAX,
        ensures
            final(self).wf(),
            index <= old(self)@.len() ==> {
                &&& final(self).state() == old(self).state().insert(index as int, text@)
                &&& final(self)@ == text_insert(old(self)@, index as int, text@)
            },
            index > old(self)@.len() ==> *final(self) == *old(self),
    {
        proof {
            self.state().lemma_len();
        }
        if index > self.total_length {
            return ;
        }
        let ghost original = self.original@;
        let ghost old_pieces = self.pieces@;
        let text_len = text.unicode_len();
        self.add_buffer.append(text);
        let added_len = self.add_buffer.as_str().unicode_len();
        let new_piece = Piece {
            source: Source::Added,
            start: added_len - text_len,
            length: text_len,
        };
        let ghost added = self.add_buffer@;
        let ghost target = insert_pieces(old_pieces, index as int, new_piece);
        proof {
            old(self).state().lemma_insert(index as int, text@);
            old(self).state().insert(index as int, text@).lemma_len();
            lemma_insert_len(old(self)@, index as int, text@);
            assert(old_pieces.skip(0) =~= old_pieces);
            assert(old_pieces.take(0) + target =~= target);
        }
        let mut offset: usize = 0;
        let mut i: usize = 0;
        while i < self.pieces.len()
            invariant
                i <= old_pieces.len(),
                self.pieces@ == old_pieces,
                self.original@ == original,
                self.add_buffer@ == added,
                self.total_length == total_length(old_pieces),
                offset <= index,
                target == old_pieces.take(i as int) + insert_pieces(
                    old_pieces.skip(i as int),
                    index - offset,
                    new_piece,
                ),
            decreases old_pieces.len() - i,
        {
            let piece = self.pieces[i];
            let ghost done = old_pieces.take(i as int);
            let ghost rest = old_pieces.skip(i as int + 1);
            proof {
                assert(old_pieces.skip(i as int)[0] == piece);
                assert(old_pieces.skip(i as int).drop_first() =~= rest);
                assert(piece_in_bounds(original, added, old_pieces[i as int]));
            }
            if index - offset < piece.length {
                let split = index - offset;
                if split > 0 {
                    let before = Piece { source: piece.source, start: piece.start, length: split };
                    let after = Piece {
                        source: piece.source,
                        start: piece.start + split,
                        length: piece.length - split,
                    };
                    self.pieces.set(i, before);
                    self.pieces.insert(i + 1, after);
                    self.pieces.insert(i + 1, new_piece);
                    proof {
                        assert(before == piece.head(split as int));
                        assert(after == piece.tail(split as int));
                        assert(self.pieces@ =~= done + (seq![before, new_piece, after] + rest));
                    }
                } else {
                    self.pieces.insert(i, new_piece);
                    proof {
                        assert(self.pieces@ =~= done + (seq![new_piece] + old_pieces.skip(
                            i as int,
                        )));
                    }
                }
                self.total_length = self.total_length + text_len;
                return ;
            }
            offset = offset + piece.length;
            i = i + 1;
            proof {
                assert(done + (seq![piece] + insert_pieces(rest, index - offset, new_piece))
                    =~= old_pieces.take(i as int) + insert_pieces(
                    rest,
                    index - offset,
                    new_piece,
                ));
            }
        }
        proof {
            assert(old_pieces.skip(i as int) =~= Seq::<Piece>::empty());
            assert(old_pieces.take(i as int) =~= old_pieces);
            assert(old_pieces + seq![new_piece] =~= old_pieces.push(new_piece));
        }
        self.pieces.push(new_piece);
        self.total_length = self.total_length + text_len;
    }

    /// Deletes the `length` characters that begin at offset `start`. A
    /// range that reaches past the end of the text leaves the table as it is.
    pub fn delete(&mut self, start: usize, length: usize)
        requires
            old(self).wf(),
        ensures
            final(self).wf(),
            start + length <= old(self)@.len() ==> {
                &&& final(self).state() == old(self).state().delete(start as int, length as int)
                &&& final(self)@ == text_delete(old(self)@, start as int, length as int)
            },
            start + length > old(self)@.len() ==> *final(self) == *old(self),
    {
        proof {
            self.state().lemma_len();
        }
        if length > self.total_length || start > self.total_length - length {
            return ;
        }
        let ghost original = self.original@;
        let ghost added = self.add_buffer@;
        let ghost old_pieces = self.pieces@;
        let ghost target = delete_pieces(old_pieces, start as int, length as int);
        proof {
            old(self).state().lemma_delete(start as int, length as int);
            old(self).state().delete(start as int, length as int).lemma_len();
            lemma_delete_len(old(self)@, start as int, length as int);
        }
        let mut remaining = length;
        let mut from = start;
        let mut i: usize = 0;
        let ghost mut done: int = 0;
        let ghost mut kept = Seq::<Piece>::empty();
        proof {
            assert(kept + old_pieces.skip(0) =~= old_pieces);
            assert(kept + target =~= target);
        }
        while remaining > 0 && i < self.pieces.len()
            invariant
                original.len() <= usize::MAX,
                added.len() <= usize::MAX,
                pieces_in_bounds(original, added, old_pieces),
                0 <= done <= old_pieces.len(),
                i == kept.len(),
                self.original == old(self).original,
                self.add_buffer == old(self).add_buffer,
                self.pieces@ == kept + old_pieces.skip(done),
                target == kept + delete_pieces(
                    old_pieces.skip(done),
                    from as int,
                    remaining as int,
                ),
                from + remaining <= total_length(old_pieces.skip(done)),
                remaining <= length <= total_length(old_pieces),
                self.total_length == total_length(old_pieces) - (length - remaining),
            decreases old_pieces.len() - done,
        {
            let piece = self.pieces[i];
            let ghost rest = old_pieces.skip(done + 1);
            proof {
                assert(old_pieces.skip(done)[0] == piece);
                assert(old_pieces.skip(done).drop_first() =~= rest);
                assert(piece_in_bounds(original, added, old_pieces[done]));
                lemma_uncons(old_pieces.skip(done));
                lemma_cons(original, added, piece, rest);
            }
            if from >= piece.length {
                from = from - piece.length;
                i = i + 1;
                proof {
                    let after_it = delete_pieces(rest, from as int, remaining as int);
                    assert(kept + (seq![piece] + after_it) =~= (kept + seq![piece]) + after_it);
                    assert(kept + old_pieces.skip(done) =~= (kept + seq![piece]) + rest);
                    kept = kept + seq![piece];
                }
            } else {
                let available = piece.length - from;
                let taken = if remaining < available {
                    remaining
                } else {
                    available
                };
                let to = from + taken;
                let ghost left = piece_remainders(piece, from as int, to as int);
                let ghost after_it = delete_pieces(rest, 0, remaining - taken);
                if from == 0 && taken == piece.length {
                    self.pieces.remove(i);
                    proof {
                        assert(left =~= Seq::<Piece>::empty());
                        assert(self.pieces@ =~= (kept + left) + rest);
                    }
                } else if from == 0 {
                    let shrunk = Piece {
                        source: piece.source,
                        start: piece.start + taken,
                        length: piece.length - taken,
                    };
                    self.pieces.set(i, shrunk);
                    i = i + 1;
                    proof {
                        assert(shrunk == piece.tail(to as int));
                        assert(left =~= seq![shrunk]);
                        assert(self.pieces@ =~= (kept + left) + rest);
                    }
                } else if to == piece.length {
                    let shrunk = Piece { source: piece.source, start: piece.start, length: from };
                    self.pieces.set(i, shrunk);
                    i = i + 1;
                    proof {
                        assert(shrunk == piece.head(from as int));
                        assert(left =~= seq![shrunk]);
                        assert(self.pieces@ =~= (kept + left) + rest);
                    }
                } else {
                    let before = Piece { source: piece.source, start: piece.start, length: from };
                    let after = Piece {
                        source: piece.source,
                        start: piece.start + to,
                        length: piece.length - to,
                    };
                    self.pieces.set(i, before);
                    self.pieces.insert(i + 1, after);
                    proof {
                        assert(before == piece.head(from as int));
                        assert(after == piece.tail(to as int));
                        assert(left =~= seq![before, after]);
                        assert(self.pieces@ =~= (kept + left) + rest);
                        assert(i + 2 <= self.pieces.len());
                    }
                    i = i + 2;
                }
                remaining = remaining - taken;
                self.total_length = self.total_length - taken;
                from = 0;
                proof {
                    assert(kept + (left + after_it) =~= (kept + left) + after_it);
                    kept = kept + left;
                }
            }
            proof {
                done = done + 1;
            }
        }
        proof {
            if remaining > 0 {
                assert(old_pieces.skip(done).len() == 0);
            }
        }
    }

    /// The text that the table holds, as a string.
    pub fn to_string(&self) -> (text: String)
        requires
            self.wf(),
        ensures
            text@ == self@,
    {
        let mut result = String::new();
        let mut i: usize = 0;
        proof {
            assert(self.pieces@.skip(0) =~= self.pieces@);
            assert(result@ + self@ =~= self@);
        }
        while i < self.pieces.len()
            invariant
                self.wf(),
                i <= self.pieces@.len(),
                self@ == result@ + materialize(
                    self.original@,
                    self.add_buffer@,
                    self.pieces@.skip(i as int),
                ),
            decreases self.pieces@.len() - i,
        {
            let piece = self.pieces[i];
            proof {
                let tail = self.pieces@.skip(i as int);
                assert(tail[0] == piece);
                assert(tail.drop_first() =~= self.pieces@.skip(i as int + 1));
                assert(piece_in_bounds(self.original@, self.add_buffer@, self.pieces@[i as int]));
                assert(result@ + (piece_text(self.original@, self.add_buffer@, piece)
                    + materialize(self.original@, self.add_buffer@, tail.drop_first())) =~= (
                result@ + piece_text(self.original@, self.add_buffer@, piece)) + materialize(
                    self.original@,
                    self.add_buffer@,
                    tail.drop_first(),
                ));
            }
            let slice = match piece.source {
                Source::Original => self.original.as_str().substring_char(
                    piece.start,
                    piece.start + piece.length,
                ),
                Source::Added => self.add_buffer.as_str().substring_char(
                    piece.start,
                    piece.start + piece.length,
                ),
            };
            result.append(slice);
            i = i + 1;
        }
        proof {
            assert(self.pieces@.skip(i as int) =~= Seq::<Piece>::empty());
            assert(result@ + Seq::<char>::empty() =~= result@);
        }
        result
    }

    /// The length of the text, which the table keeps up to date.
    pub fn get_length(&self) -> (length: usize)
        requires
            self.wf(),
        ensures
            length == self@.len(),
    {
        proof {
            self.state().lemma_len();
        }
        self.total_length
    }
}

} // verus!
