use meteor_core::document::DocumentState;
use meteor_core::registry::{
    create_document, delete_document, delete_text, get_document_length, get_document_slice,
    get_document_version, insert_text, DocumentRegistry,
};

fn registry_with_hello() -> (DocumentRegistry, usize) {
    let mut reg = DocumentRegistry::new();
    let id = create_document(&mut reg).unwrap();
    insert_text(&mut reg, id, 0, "hello");
    (reg, id)
}

#[test]
fn scenario_create_and_insert() {
    let (reg, id) = registry_with_hello();
    assert_eq!(get_document_length(&reg, id), 5);
    assert_eq!(get_document_version(&reg, id), 1);
    assert_eq!(get_document_slice(&reg, id, 0, 5), Some(String::from("hello")));
}

#[test]
fn scenario_insert_at_end() {
    let (mut reg, id) = registry_with_hello();
    insert_text(&mut reg, id, 5, " world");
    assert_eq!(get_document_slice(&reg, id, 0, 11), Some(String::from("hello world")));
    assert_eq!(get_document_version(&reg, id), 2);
    assert_eq!(get_document_length(&reg, id), 11);
}

#[test]
fn scenario_delete_from_start() {
    let (mut reg, id) = registry_with_hello();
    insert_text(&mut reg, id, 5, " world");
    delete_text(&mut reg, id, 0, 6);
    assert_eq!(get_document_slice(&reg, id, 0, 5), Some(String::from("world")));
    assert_eq!(get_document_version(&reg, id), 3);
    assert_eq!(get_document_length(&reg, id), 5);
}

#[test]
fn scenario_insert_out_of_range() {
    let (mut reg, id) = registry_with_hello();
    insert_text(&mut reg, id, 999, "x");
    assert_eq!(get_document_length(&reg, id), 5);
    assert_eq!(get_document_version(&reg, id), 1);
    assert_eq!(get_document_slice(&reg, id, 0, 5), Some(String::from("hello")));
}

#[test]
fn scenario_deleted_document() {
    let (mut reg, id) = registry_with_hello();
    delete_document(&mut reg, id);
    assert_eq!(get_document_length(&reg, id), 0);
    assert_eq!(get_document_version(&reg, id), 0);
    assert_eq!(get_document_slice(&reg, id, 0, 5), None);
    insert_text(&mut reg, id, 0, "x");
    delete_text(&mut reg, id, 0, 1);
    delete_document(&mut reg, id);
    assert_eq!(get_document_length(&reg, id), 0);
    assert_eq!(get_document_version(&reg, id), 0);
    assert_eq!(get_document_slice(&reg, id, 0, 1), None);
}

#[test]
fn new_document_is_empty_at_version_zero() {
    let mut reg = DocumentRegistry::new();
    let id = create_document(&mut reg).unwrap();
    assert_eq!(get_document_length(&reg, id), 0);
    assert_eq!(get_document_version(&reg, id), 0);
    assert_eq!(get_document_slice(&reg, id, 0, 1), None);
}

#[test]
fn identifiers_count_up_from_zero() {
    let mut reg = DocumentRegistry::new();
    assert_eq!(create_document(&mut reg), Some(0));
    assert_eq!(create_document(&mut reg), Some(1));
    assert_eq!(create_document(&mut reg), Some(2));
}

#[test]
fn identifier_of_a_deleted_document_is_not_given_again() {
    let mut reg = DocumentRegistry::new();
    let a = create_document(&mut reg).unwrap();
    let b = create_document(&mut reg).unwrap();
    let c = create_document(&mut reg).unwrap();
    insert_text(&mut reg, c, 0, "kept");
    delete_document(&mut reg, a);
    let d = create_document(&mut reg).unwrap();
    assert_eq!(d, 3);
    assert!(d != a && d != b && d != c);
    assert_eq!(get_document_slice(&reg, c, 0, 4), Some(String::from("kept")));
    assert_eq!(get_document_length(&reg, a), 0);
    assert_eq!(get_document_length(&reg, d), 0);
}

#[test]
fn unknown_identifier_reads_as_empty() {
    let mut reg = DocumentRegistry::new();
    assert_eq!(get_document_length(&reg, 7), 0);
    assert_eq!(get_document_version(&reg, 7), 0);
    assert_eq!(get_document_slice(&reg, 7, 0, 1), None);
    insert_text(&mut reg, 7, 0, "x");
    delete_text(&mut reg, 7, 0, 0);
    delete_document(&mut reg, 7);
    assert_eq!(get_document_length(&reg, 7), 0);
    assert_eq!(get_document_version(&reg, 7), 0);
}

#[test]
fn documents_do_not_touch_each_other() {
    let (mut reg, a) = registry_with_hello();
    let b = create_document(&mut reg).unwrap();
    insert_text(&mut reg, b, 0, "other");
    insert_text(&mut reg, b, 5, "!");
    delete_text(&mut reg, a, 1, 3);
    assert_eq!(get_document_slice(&reg, a, 0, 99), Some(String::from("ho")));
    assert_eq!(get_document_version(&reg, a), 2);
    assert_eq!(get_document_slice(&reg, b, 0, 99), Some(String::from("other!")));
    assert_eq!(get_document_version(&reg, b), 2);
    delete_document(&mut reg, a);
    assert_eq!(get_document_slice(&reg, b, 0, 99), Some(String::from("other!")));
}

#[test]
fn version_counts_changes_within_bounds_only() {
    let (mut reg, id) = registry_with_hello();
    insert_text(&mut reg, id, 6, "x");
    assert_eq!(get_document_version(&reg, id), 1);
    delete_text(&mut reg, id, 3, 3);
    assert_eq!(get_document_version(&reg, id), 1);
    delete_text(&mut reg, id, usize::MAX, 2);
    assert_eq!(get_document_version(&reg, id), 1);
    delete_text(&mut reg, id, 2, usize::MAX);
    assert_eq!(get_document_version(&reg, id), 1);
    insert_text(&mut reg, id, 5, "");
    assert_eq!(get_document_version(&reg, id), 2);
    delete_text(&mut reg, id, 5, 0);
    assert_eq!(get_document_version(&reg, id), 3);
    delete_text(&mut reg, id, 3, 2);
    assert_eq!(get_document_version(&reg, id), 4);
    assert_eq!(get_document_slice(&reg, id, 0, 5), Some(String::from("hel")));
}

#[test]
fn insert_then_delete_restores_the_document_text() {
    let (mut reg, id) = registry_with_hello();
    insert_text(&mut reg, id, 2, "XYZ");
    assert_eq!(get_document_slice(&reg, id, 0, 8), Some(String::from("heXYZllo")));
    delete_text(&mut reg, id, 2, 3);
    assert_eq!(get_document_slice(&reg, id, 0, 5), Some(String::from("hello")));
    assert_eq!(get_document_length(&reg, id), 5);
    assert_eq!(get_document_version(&reg, id), 3);
}

#[test]
fn insert_at_length_is_concatenation() {
    let (mut reg, id) = registry_with_hello();
    let n = get_document_length(&reg, id);
    insert_text(&mut reg, id, n, ", there");
    assert_eq!(get_document_slice(&reg, id, 0, 12), Some(String::from("hello, there")));
}

#[test]
fn delete_of_full_range_empties_the_document() {
    let (mut reg, id) = registry_with_hello();
    let n = get_document_length(&reg, id);
    delete_text(&mut reg, id, 0, n);
    assert_eq!(get_document_length(&reg, id), 0);
    assert_eq!(get_document_slice(&reg, id, 0, 5), None);
    assert_eq!(get_document_version(&reg, id), 2);
}

#[test]
fn slice_clamps_its_end() {
    let (reg, id) = registry_with_hello();
    assert_eq!(get_document_slice(&reg, id, 0, 100), Some(String::from("hello")));
    assert_eq!(get_document_slice(&reg, id, 3, usize::MAX), Some(String::from("lo")));
    assert_eq!(get_document_slice(&reg, id, 1, 4), Some(String::from("ell")));
    assert_eq!(get_document_slice(&reg, id, 4, 5), Some(String::from("o")));
}

#[test]
fn slice_of_an_empty_or_outside_range_is_none() {
    let (reg, id) = registry_with_hello();
    assert_eq!(get_document_slice(&reg, id, 3, 3), None);
    assert_eq!(get_document_slice(&reg, id, 4, 2), None);
    assert_eq!(get_document_slice(&reg, id, 5, 9), None);
    assert_eq!(get_document_slice(&reg, id, 6, 9), None);
    assert_eq!(get_document_slice(&reg, id, 0, 0), None);
}

#[test]
fn document_offsets_count_characters() {
    let mut reg = DocumentRegistry::new();
    let id = create_document(&mut reg).unwrap();
    insert_text(&mut reg, id, 0, "na\u{ef}ve caf\u{e9}");
    assert_eq!(get_document_length(&reg, id), 10);
    insert_text(&mut reg, id, 10, " \u{2615}");
    assert_eq!(get_document_length(&reg, id), 12);
    delete_text(&mut reg, id, 2, 1);
    assert_eq!(get_document_slice(&reg, id, 0, 12), Some(String::from("nave caf\u{e9} \u{2615}")));
    assert_eq!(get_document_slice(&reg, id, 8, 9), Some(String::from("\u{e9}")));
    assert_eq!(get_document_length(&reg, id), 11);
}

#[test]
fn document_state_starts_empty() {
    let doc = DocumentState::new();
    assert_eq!(doc.len(), 0);
    assert_eq!(doc.version(), 0);
    assert_eq!(doc.slice(0, 1), None);
    assert_eq!(doc.materialize(), "");
}

#[test]
fn rope_and_piece_table_hold_the_same_text() {
    let mut doc = DocumentState::new();
    doc.insert(0, "hello world");
    assert_eq!(doc.materialize(), "hello world");
    assert_eq!(doc.slice(0, 11), Some(doc.materialize()));
    doc.insert(5, ",");
    doc.delete(0, 1);
    doc.insert(0, "H");
    doc.delete(7, 5);
    doc.insert(7, "w\u{f6}rld");
    doc.insert(99, "dropped");
    doc.delete(8, 9);
    assert_eq!(doc.materialize(), "Hello, w\u{f6}rld");
    assert_eq!(doc.slice(0, usize::MAX), Some(String::from("Hello, w\u{f6}rld")));
    assert_eq!(doc.len(), 12);
    assert_eq!(doc.len(), doc.materialize().chars().count());
    assert_eq!(doc.version(), 6);
}

#[test]
fn document_edits_out_of_range_are_not_counted() {
    let mut doc = DocumentState::new();
    doc.insert(1, "x");
    doc.delete(0, 1);
    assert_eq!(doc.version(), 0);
    assert_eq!(doc.len(), 0);
    doc.insert(0, "abc");
    doc.delete(1, 3);
    assert_eq!(doc.version(), 1);
    assert_eq!(doc.materialize(), "abc");
    assert_eq!(doc.slice(1, 2), Some(String::from("b")));
}
