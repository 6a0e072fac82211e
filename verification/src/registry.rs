//! The registry: the documents by identifier, and the operations that the
//! editor calls on them.
//!
//! Identifiers are handed out from a counter that only goes up, so the
//! identifier of a deleted document is never given to another one.

use std::collections::HashMap;
use vstd::prelude::*;
use crate::document::{DocumentState, DocumentView};

verus! {

broadcast use vstd::std_specs::hash::group_hash_axioms;

/// The documents after a request to insert `text` at `index` of document
/// `id`: that document changed as `DocumentView::insert` says, if there is
/// one; otherwise all as they were.
pub open spec fn insert_text_in(
    docs: Map<usize, DocumentView>,
    id: usize,
    index: int,
    text: Seq<char>,
) -> Map<usize, DocumentView> {
    if docs.contains_key(id) {
        docs.insert(id, docs[id].insert(index, text))
    } else {
        docs
    }
}

/// The documents after a request to delete `length` characters from `start`
/// of document `id`: that document changed as `DocumentView::delete` says,
/// if there is one; otherwise all as they were.
pub open spec fn delete_text_in(
    docs: Map<usize, DocumentView>,
    id: usize,
    start: int,
    length: int,
) -> Map<usize, DocumentView> {
    if docs.contains_key(id) {
        docs.insert(id, docs[id].delete(start, length))
    } else {
        docs
    }
}

/// The slice of document `id` from `start` up to `end`, as
/// `DocumentView::slice` gives it; nothing if there is no such document.
pub open spec fn slice_in(
    docs: Map<usize, DocumentView>,
    id: usize,
    start: int,
    end: int,
) -> Option<Seq<char>> {
    if docs.contains_key(id) {
        docs[id].slice(start, end)
    } else {
        None
    }
}

/// The length of the text of document `id`; 0 if there is no such document.
pub open spec fn length_in(docs: Map<usize, DocumentView>, id: usize) -> nat {
    if docs.contains_key(id) {
        docs[id].text.len()
    } else {
        0
    }
}

/// The version of document `id`; 0 if there is no such document.
pub open spec fn version_in(docs: Map<usize, DocumentView>, id: usize) -> usize {
    if docs.contains_key(id) {
        docs[id].version
    } else {
        0
    }
}

/// The documents of one editor, each under its identifier.
pub struct DocumentRegistry {
    entries: HashMap<usize, DocumentState>,
    next_id: usize,
}

impl View for DocumentRegistry {
    type V = Map<usize, DocumentView>;

    closed spec fn view(&self) -> Map<usize, DocumentView> {
        Map::new(|id: usize| self.entries@.contains_key(id), |id: usize| self.entries@[id]@)
    }
}

impl DocumentRegistry {
    /// The identifier that the next new document gets. Every identifier
    /// handed out so far is below it.
    pub closed spec fn next_id(&self) -> usize {
        self.next_id
    }

    /// The registry is well formed: every document in it is, and has an
    /// identifier below `next_id`.
    pub closed spec fn wf(&self) -> bool {
        forall|id: usize| #[trigger]
            self.entries@.contains_key(id) ==> self.entries@[id].wf() && id < self.next_id
    }

    /// In a well-formed registry every identifier in use is below
    /// `next_id`, and every document has as its text what its piece table
    /// holds, with a length that fits a `usize`.
    pub proof fn lemma_wf(&self)
        requires
            self.wf(),
        ensures
            forall|id: usize| #[trigger]
                self@.contains_key(id) ==> {
                    &&& id < self.next_id()
                    &&& self@[id].table.wf()
                    &&& self@[id].table.text() == self@[id].text
                    &&& self@[id].text.len() <= usize::MAX
                },
    {
        assert forall|id: usize| #[trigger] self@.contains_key(id) implies {
            &&& id < self.next_id()
            &&& self@[id].table.wf()
            &&& self@[id].table.text() == self@[id].text
            &&& self@[id].text.len() <= usize::MAX
        } by {
            assert(self.entries@.contains_key(id));
            self.entries@[id].lemma_mirror_agrees();
        }
    }

    /// A registry without documents.
    pub fn new() -> (registry: DocumentRegistry)
        ensures
            registry.wf(),
            registry@ == Map::<usize, DocumentView>::empty(),
            registry.next_id() == 0,
    {
        let registry = DocumentRegistry { entries: HashMap::new(), next_id: 0 };
        assert(registry@ =~= Map::<usize, DocumentView>::empty());
        registry
    }
}

/// Makes an empty document and returns its identifier, which is
/// `next_id`: one that no document has or ever had. Once the counter has
/// reached `usize::MAX` no identifier is left: the registry stays as it is
/// and `None` is returned.
pub fn create_document(registry: &mut DocumentRegistry) -> (id: Option<usize>)
    requires
        old(registry).wf(),
    ensures
        final(registry).wf(),
        match id {
            Some(id) => {
                &&& id == old(registry).next_id()
                &&& id < usize::MAX
                &&& !old(registry)@.contains_key(id)
                &&& final(registry)@ == old(registry)@.insert(id, DocumentView::empty())
                &&& final(registry).next_id() == id + 1
            },
            None => {
                &&& old(registry).next_id() == usize::MAX
                &&& *final(registry) == *old(registry)
            },
        },
{
    if registry.next_id == usize::MAX {
        return None;
    }
    let id = registry.next_id;
    registry.entries.insert(id, DocumentState::new());
    registry.next_id = id + 1;
    assert(registry@ =~= old(registry)@.insert(id, DocumentView::empty()));
    Some(id)
}

/// Removes document `doc_id`, if there is one.
pub fn delete_document(registry: &mut DocumentRegistry, doc_id: usize)
    requires
        old(registry).wf(),
    ensures
        final(registry).wf(),
        final(registry)@ == old(registry)@.remove(doc_id),
        final(registry).next_id() == old(registry).next_id(),
{
    registry.entries.remove(&doc_id);
    assert(registry@ =~= old(registry)@.remove(doc_id));
}

/// Inserts `text` at `index` of document `doc_id` and counts the change.
/// Without such a document, or with `index` past the end of its text,
/// nothing changes.
pub fn insert_text(registry: &mut DocumentRegistry, doc_id: usize, index: usize, text: &str)
    requires
        old(registry).wf(),
    ensures
        final(registry).wf(),
        final(registry)@ == insert_text_in(old(registry)@, doc_id, index as int, text@),
        final(registry).next_id() == old(registry).next_id(),
{
    match registry.entries.remove(&doc_id) {
        Some(doc) => {
            let mut doc = doc;
            doc.insert(index, text);
            registry.entries.insert(doc_id, doc);
        },
        None => {},
    }
    assert(registry@ =~= insert_text_in(old(registry)@, doc_id, index as int, text@));
}

/// Deletes `length` characters from `start` of document `doc_id` and counts
/// the change. Without such a document, or with a range that reaches past
/// the end of its text, nothing changes.
pub fn delete_text(registry: &mut DocumentRegistry, doc_id: usize, start: usize, length: usize)
    requires
        old(registry).wf(),
    ensures
        final(registry).wf(),
        final(registry)@ == delete_text_in(old(registry)@, doc_id, start as int, length as int),
        final(registry).next_id() == old(registry).next_id(),
{
    match registry.entries.remove(&doc_id) {
        Some(doc) => {
            let mut doc = doc;
            doc.delete(start, length);
            registry.entries.insert(doc_id, doc);
        },
        None => {},
    }
    assert(registry@ =~= delete_text_in(
        old(registry)@,
        doc_id,
        start as int,
        length as int,
    ));
}

/// The characters of document `doc_id` from `start` up to `end`, with `end`
/// clamped to the end of the text. `None` without such a document, for an
/// empty range, and for one that begins at or past the end.
pub fn get_document_slice(
    registry: &DocumentRegistry,
    doc_id: usize,
    start: usize,
    end: usize,
) -> (text: Option<String>)
    requires
        registry.wf(),
    ensures
        match text {
            Some(s) => slice_in(registry@, doc_id, start as int, end as int) == Some(s@),
            None => slice_in(registry@, doc_id, start as int, end as int) is None,
        },
{
    match registry.entries.get(&doc_id) {
        Some(doc) => doc.slice(start, end),
        None => None,
    }
}

/// The length of the text of document `doc_id`: the length of what its
/// piece table holds, which is that of its rope. 0 without such a document.
pub fn get_document_length(registry: &DocumentRegistry, doc_id: usize) -> (length: usize)
    requires
        registry.wf(),
    ensures
        length == length_in(registry@, doc_id),
        registry@.contains_key(doc_id) ==> length == registry@[doc_id].table.text().len(),
{
    match registry.entries.get(&doc_id) {
        Some(doc) => doc.len(),
        None => 0,
    }
}

/// The version of document `doc_id`. 0 without such a document.
pub fn get_document_version(registry: &DocumentRegistry, doc_id: usize) -> (version: usize)
    requires
        registry.wf(),
    ensures
        version == version_in(registry@, doc_id),
{
    match registry.entries.get(&doc_id) {
        Some(doc) => doc.version(),
        None => 0,
    }
}

} // verus!
