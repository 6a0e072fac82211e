//! A document: a piece table and the rope that mirrors it, changed in
//! lockstep, and a counter of the changes.

use vstd::prelude::*;
use ropey::Rope;
use crate::mirror::{rope_chars, rope_insert, rope_len_chars, rope_new, rope_remove, rope_slice};
use crate::piece_table::PieceTable;
use crate::pieces::TableState;
use crate::text::{text_delete, text_insert};

verus! {

/// What a document is: its text, its version, and the piece table that
/// holds the text.
pub struct DocumentView {
    pub text: Seq<char>,
    pub version: usize,
    pub table: TableState,
}

/// The version after one more change. The counter wraps round at the
/// largest value.
pub open spec fn next_version(version: usize) -> usize {
    if version == usize::MAX {
        0
    } else {
        (version + 1) as usize
    }
}

impl DocumentView {
    /// The document that holds no text and was never changed.
    pub open spec fn empty() -> DocumentView {
        DocumentView { text: Seq::empty(), version: 0, table: TableState::holding(Seq::empty()) }
    }

    /// The range of `length` characters from `start` lies inside the text.
    pub open spec fn holds(self, start: int, length: int) -> bool {
        0 <= start && 0 <= length && start + length <= self.text.len()
    }

    /// The document after a request to insert `text` at `index`: text and
    /// piece table changed alike, and one version on, if `index` is not
    /// past the end of the text; otherwise as it was.
    pub open spec fn insert(self, index: int, text: Seq<char>) -> DocumentView {
        if self.holds(index, 0) {
            DocumentView {
                text: text_insert(self.text, index, text),
                version: next_version(self.version),
                table: self.table.insert(index, text),
            }
        } else {
            self
        }
    }

    /// The document after a request to delete `length` characters from
    /// `start`: text and piece table changed alike, and one version on, if
    /// the range lies inside the text; otherwise as it was.
    pub open spec fn delete(self, start: int, length: int) -> DocumentView {
        if self.holds(start, length) {
            DocumentView {
                text: text_delete(self.text, start, length),
                version: next_version(self.version),
                table: self.table.delete(start, length),
            }
        } else {
            self
        }
    }

    /// The offset at which a slice asked for up to `end` stops: `end`, or
    /// the end of the text if that comes first.
    pub open spec fn clamp(self, end: int) -> int {
        if end < self.text.len() {
            end
        } else {
            self.text.len() as int
        }
    }

    /// The characters from `start` up to `end`, with `end` clamped to the
    /// end of the text; nothing if that range is empty or out of the text.
    pub open spec fn slice(self, start: int, end: int) -> Option<Seq<char>> {
        if 0 <= start < self.clamp(end) {
            Some(self.text.subrange(start, self.clamp(end)))
        } else {
            None
        }
    }
}

/// One document: its text as a piece table, the same text in a rope, and
/// the number of changes made to it.
pub struct DocumentState {
    rope: Rope,
    piece_table: PieceTable,
    version: usize,
}

impl View for DocumentState {
    type V = DocumentView;

    closed spec fn view(&self) -> DocumentView {
        DocumentView {
            text: self.piece_table@,
            version: self.version,
            table: self.piece_table.state(),
        }
    }
}

impl DocumentState {
    /// The text that the rope holds.
    pub closed spec fn mirror(&self) -> Seq<char> {
        rope_chars(self.rope)
    }

    /// The document is well formed: its piece table is, and the rope holds
    /// the text of the piece table.
    pub closed spec fn wf(&self) -> bool {
        &&& self.piece_table.wf()
        &&& rope_chars(self.rope) == self.piece_table@
    }

    /// In a well-formed document the rope and the piece table hold the same
    /// text, which is the document's text, so they have the same length, and
    /// that length fits a `usize`.
    pub proof fn lemma_mirror_agrees(&self)
        requires
            self.wf(),
        ensures
            self@.table.wf(),
            self@.table.text() == self@.text,
            self.mirror() == self@.text,
            self.mirror().len() == self@.text.len(),
            self@.text.len() <= usize::MAX,
    {
        self.piece_table.lemma_wf();
    }

    /// A document without text, at version 0.
    pub fn new() -> (doc: DocumentState)
        ensures
            doc.wf(),
            doc@ == DocumentView::empty(),
    {
        DocumentState { rope: rope_new(), piece_table: PieceTable::new(String::new()), version: 0 }
    }

    /// Inserts `text` at `index` in the rope and in the piece table, and
    /// counts the change. An `index` past the end changes neither, and is
    /// not counted.
    pub fn insert(&mut self, index: usize, text: &str)
        requires
            old(self).wf(),
        ensures
            final(self).wf(),
            final(self)@ == old(self)@.insert(index as int, text@),
    {
        proof {
            self.piece_table.lemma_wf();
        }
        if index <= rope_len_chars(&self.rope) {
            rope_insert(&mut self.rope, index, text);
            // What the rope now holds has a length that fits a `usize`, so
            // the text that the table is about to hold has one too.
            let mirrored = rope_len_chars(&self.rope);
            assert(mirrored == old(self)@.text.len() + text@.len());
            self.piece_table.insert(index, text);
            self.version = if self.version == usize::MAX {
                0
            } else {
                self.version + 1
            };
        }
    }

    /// Deletes `length` characters from `start` in the rope and in the
    /// piece table, and counts the change. A range that reaches past the
    /// end changes neither, and is not counted.
    pub fn delete(&mut self, start: usize, length: usize)
        requires
            old(self).wf(),
        ensures
            final(self).wf(),
            final(self)@ == old(self)@.delete(start as int, length as int),
    {
        proof {
            self.piece_table.lemma_wf();
        }
        let total = rope_len_chars(&self.rope);
        if length <= total && start <= total - length {
            rope_remove(&mut self.rope, start, start + length);
            self.piece_table.delete(start, length);
            self.version = if self.version == usize::MAX {
                0
            } else {
                self.version + 1
            };
        }
    }

    /// The characters from `start` up to `end`, read from the rope. `end`
    /// is clamped to the end of the text; an empty range, or one that
    /// begins at or past the end, gives `None`.
    pub fn slice(&self, start: usize, end: usize) -> (text: Option<String>)
        requires
            self.wf(),
        ensures
            match text {
                Some(s) => self@.slice(start as int, end as int) == Some(s@),
                None => self@.slice(start as int, end as int) is None,
            },
    {
        let total = rope_len_chars(&self.rope);
        let stop = if end < total {
            end
        } else {
            total
        };
        if start < stop {
            Some(rope_slice(&self.rope, start, stop))
        } else {
            None
        }
    }

    /// The text, written out from the piece table. The reads above never
    /// use it; it shows what the table holds beside the rope.
    pub fn materialize(&self) -> (text: String)
        requires
            self.wf(),
        ensures
            text@ == self@.text,
            text@ == self.mirror(),
    {
        self.piece_table.to_string()
    }

    /// The length of the text, read from the rope: it is the length of
    /// what the piece table holds.
    pub fn len(&self) -> (length: usize)
        requires
            self.wf(),
        ensures
            length == self@.text.len(),
            length == self@.table.text().len(),
    {
        rope_len_chars(&self.rope)
    }

    /// The number of changes made to the document.
    pub fn version(&self) -> (version: usize)
        ensures
            version == self@.version,
    {
        self.version
    }
}

} // verus!
