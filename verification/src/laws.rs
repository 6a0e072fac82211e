//! What holds of the registry's operations, for every registry and every
//! request.

use vstd::prelude::*;
use crate::document::{next_version, DocumentView};
use crate::registry::{delete_text_in, insert_text_in, length_in, slice_in, version_in};
use crate::text::{
    lemma_delete_all,
    lemma_delete_len,
    lemma_insert_at_end,
    lemma_insert_len,
    lemma_insert_then_delete,
};

verus! {

/// Inserting a text into a document and then deleting the range that it
/// occupies gives the document the text that it had.
pub proof fn lemma_insert_then_delete_restores(
    docs: Map<usize, DocumentView>,
    id: usize,
    index: int,
    text: Seq<char>,
)
    requires
        docs.contains_key(id),
        0 <= index <= docs[id].text.len(),
    ensures
        delete_text_in(insert_text_in(docs, id, index, text), id, index, text.len() as int)[id].text
            == docs[id].text,
{
    lemma_insert_len(docs[id].text, index, text);
    lemma_insert_then_delete(docs[id].text, index, text);
}

/// A request that is within bounds moves the version on by one step, which
/// is one more unless the counter wraps round; a request that is out of
/// bounds leaves the document, and with it the version, as it was.
pub proof fn lemma_version_steps(
    docs: Map<usize, DocumentView>,
    id: usize,
    start: int,
    length: int,
    text: Seq<char>,
)
    requires
        docs.contains_key(id),
    ensures
        docs[id].holds(start, 0) ==> version_in(insert_text_in(docs, id, start, text), id)
            == next_version(docs[id].version),
        docs[id].holds(start, length) ==> version_in(delete_text_in(docs, id, start, length), id)
            == next_version(docs[id].version),
        docs[id].version < usize::MAX ==> next_version(docs[id].version) == docs[id].version + 1,
        !docs[id].holds(start, 0) ==> insert_text_in(docs, id, start, text) == docs,
        !docs[id].holds(start, length) ==> delete_text_in(docs, id, start, length) == docs,
{
    assert(docs.insert(id, docs[id]) =~= docs);
}

/// Inserting at the end of a document's text appends to it.
pub proof fn lemma_insert_at_length_appends(
    docs: Map<usize, DocumentView>,
    id: usize,
    text: Seq<char>,
)
    requires
        docs.contains_key(id),
    ensures
        insert_text_in(docs, id, length_in(docs, id) as int, text)[id].text == docs[id].text + text,
{
    lemma_insert_at_end(docs[id].text, text);
}

/// Deleting the whole range of a document's text leaves it empty, so its
/// length is then 0.
pub proof fn lemma_delete_whole_empties(docs: Map<usize, DocumentView>, id: usize)
    requires
        docs.contains_key(id),
    ensures
        delete_text_in(docs, id, 0, length_in(docs, id) as int)[id].text == Seq::<char>::empty(),
        length_in(delete_text_in(docs, id, 0, length_in(docs, id) as int), id) == 0,
{
    lemma_delete_all(docs[id].text);
}

/// A request changes the length of the text by what it inserts or deletes.
pub proof fn lemma_length_follows(
    docs: Map<usize, DocumentView>,
    id: usize,
    start: int,
    length: int,
    text: Seq<char>,
)
    requires
        docs.contains_key(id),
    ensures
        docs[id].holds(start, 0) ==> length_in(insert_text_in(docs, id, start, text), id)
            == length_in(docs, id) + text.len(),
        docs[id].holds(start, length) ==> length_in(delete_text_in(docs, id, start, length), id)
            == length_in(docs, id) - length,
{
    if docs[id].holds(start, 0) {
        lemma_insert_len(docs[id].text, start, text);
    }
    if docs[id].holds(start, length) {
        lemma_delete_len(docs[id].text, start, length);
    }
}

/// Once a document is removed, its identifier names nothing: its length
/// and version read as 0, it has no slice, and requests to change it change
/// nothing.
pub proof fn lemma_removed_document_is_absent(
    docs: Map<usize, DocumentView>,
    id: usize,
    start: int,
    length: int,
    text: Seq<char>,
)
    ensures
        ({
            let left = docs.remove(id);
            &&& !left.contains_key(id)
            &&& length_in(left, id) == 0
            &&& version_in(left, id) == 0
            &&& slice_in(left, id, start, length) is None
            &&& insert_text_in(left, id, start, text) == left
            &&& delete_text_in(left, id, start, length) == left
        }),
{
}

/// A request on one document leaves every other document as it was.
pub proof fn lemma_other_documents_unchanged(
    docs: Map<usize, DocumentView>,
    id: usize,
    other: usize,
    start: int,
    length: int,
    text: Seq<char>,
)
    requires
        other != id,
    ensures
        insert_text_in(docs, id, start, text).contains_key(other) == docs.contains_key(other),
        delete_text_in(docs, id, start, length).contains_key(other) == docs.contains_key(other),
        docs.contains_key(other) ==> insert_text_in(docs, id, start, text)[other] == docs[other],
        docs.contains_key(other) ==> delete_text_in(docs, id, start, length)[other] == docs[other],
{
}

} // verus!
