use meteor_core::piece_table::PieceTable;

fn table(content: &str) -> PieceTable {
    PieceTable::new(String::from(content))
}

#[test]
fn new_table_holds_its_content() {
    let t = table("hello");
    assert_eq!(t.to_string(), "hello");
    assert_eq!(t.get_length(), 5);
}

#[test]
fn new_table_of_empty_content_is_empty() {
    let t = table("");
    assert_eq!(t.to_string(), "");
    assert_eq!(t.get_length(), 0);
}

#[test]
fn insert_into_empty_table() {
    let mut t = table("");
    t.insert(0, "abc");
    assert_eq!(t.to_string(), "abc");
    assert_eq!(t.get_length(), 3);
}

#[test]
fn insert_at_start() {
    let mut t = table("world");
    t.insert(0, "hello ");
    assert_eq!(t.to_string(), "hello world");
    assert_eq!(t.get_length(), 11);
}

#[test]
fn insert_inside_a_piece_splits_it() {
    let mut t = table("held");
    t.insert(2, "llo wor");
    assert_eq!(t.to_string(), "hello world");
    assert_eq!(t.get_length(), 11);
}

#[test]
fn insert_at_end_appends() {
    let mut t = table("hello");
    t.insert(5, " world");
    assert_eq!(t.to_string(), "hello world");
    assert_eq!(t.get_length(), 11);
}

#[test]
fn insert_at_a_piece_boundary() {
    let mut t = table("ab");
    t.insert(2, "ef");
    t.insert(2, "cd");
    assert_eq!(t.to_string(), "abcdef");
    t.insert(4, "-");
    assert_eq!(t.to_string(), "abcd-ef");
    assert_eq!(t.get_length(), 7);
}

#[test]
fn insert_inside_an_added_piece() {
    let mut t = table("");
    t.insert(0, "ad");
    t.insert(1, "bc");
    assert_eq!(t.to_string(), "abcd");
    t.insert(2, "__");
    assert_eq!(t.to_string(), "ab__cd");
}

#[test]
fn insert_past_the_end_changes_nothing() {
    let mut t = table("hello");
    t.insert(6, "x");
    assert_eq!(t.to_string(), "hello");
    assert_eq!(t.get_length(), 5);
    t.insert(usize::MAX, "x");
    assert_eq!(t.to_string(), "hello");
    assert_eq!(t.get_length(), 5);
}

#[test]
fn insert_of_empty_text_keeps_the_text() {
    let mut t = table("hello");
    t.insert(2, "");
    assert_eq!(t.to_string(), "hello");
    assert_eq!(t.get_length(), 5);
    t.insert(2, "xy");
    assert_eq!(t.to_string(), "hexyllo");
}

#[test]
fn delete_a_whole_piece() {
    let mut t = table("hello");
    t.insert(5, " world");
    t.delete(5, 6);
    assert_eq!(t.to_string(), "hello");
    assert_eq!(t.get_length(), 5);
}

#[test]
fn delete_at_the_head_of_a_piece() {
    let mut t = table("hello");
    t.delete(0, 2);
    assert_eq!(t.to_string(), "llo");
    assert_eq!(t.get_length(), 3);
}

#[test]
fn delete_at_the_tail_of_a_piece() {
    let mut t = table("hello");
    t.delete(3, 2);
    assert_eq!(t.to_string(), "hel");
    assert_eq!(t.get_length(), 3);
    t.insert(3, "p");
    assert_eq!(t.to_string(), "help");
}

#[test]
fn delete_inside_a_piece_splits_it() {
    let mut t = table("hello");
    t.delete(1, 3);
    assert_eq!(t.to_string(), "ho");
    assert_eq!(t.get_length(), 2);
    t.insert(1, "ell");
    assert_eq!(t.to_string(), "hello");
}

#[test]
fn delete_across_pieces() {
    let mut t = table("hello");
    t.insert(5, " world");
    t.delete(3, 4);
    assert_eq!(t.to_string(), "helorld");
    assert_eq!(t.get_length(), 7);
}

#[test]
fn delete_across_three_pieces() {
    let mut t = table("abc");
    t.insert(3, "def");
    t.insert(6, "ghi");
    t.delete(2, 5);
    assert_eq!(t.to_string(), "abhi");
    assert_eq!(t.get_length(), 4);
}

#[test]
fn delete_everything() {
    let mut t = table("hello");
    t.insert(2, "XYZ");
    let n = t.get_length();
    t.delete(0, n);
    assert_eq!(t.to_string(), "");
    assert_eq!(t.get_length(), 0);
    t.insert(0, "again");
    assert_eq!(t.to_string(), "again");
}

#[test]
fn delete_of_nothing_keeps_the_text() {
    let mut t = table("hello");
    t.delete(2, 0);
    assert_eq!(t.to_string(), "hello");
    t.delete(5, 0);
    assert_eq!(t.to_string(), "hello");
    assert_eq!(t.get_length(), 5);
}

#[test]
fn delete_past_the_end_changes_nothing() {
    let mut t = table("hello");
    t.delete(3, 3);
    assert_eq!(t.to_string(), "hello");
    t.delete(6, 0);
    assert_eq!(t.to_string(), "hello");
    assert_eq!(t.get_length(), 5);
}

#[test]
fn delete_with_a_range_that_overflows_changes_nothing() {
    let mut t = table("hello");
    t.delete(usize::MAX, 1);
    assert_eq!(t.to_string(), "hello");
    t.delete(1, usize::MAX);
    assert_eq!(t.to_string(), "hello");
    t.delete(usize::MAX, usize::MAX);
    assert_eq!(t.to_string(), "hello");
    assert_eq!(t.get_length(), 5);
}

#[test]
fn offsets_count_characters() {
    let mut t = table("h\u{e9}llo");
    assert_eq!(t.get_length(), 5);
    t.insert(2, "\u{65e5}\u{672c}");
    assert_eq!(t.to_string(), "h\u{e9}\u{65e5}\u{672c}llo");
    assert_eq!(t.get_length(), 7);
    t.delete(1, 2);
    assert_eq!(t.to_string(), "h\u{672c}llo");
    assert_eq!(t.get_length(), 5);
}

#[test]
fn insert_then_delete_restores_the_text() {
    let mut t = table("hello world");
    t.insert(4, "XYZ");
    assert_eq!(t.to_string(), "hellXYZo world");
    t.delete(4, 3);
    assert_eq!(t.to_string(), "hello world");
    assert_eq!(t.get_length(), 11);
}

#[test]
fn length_follows_every_edit() {
    let mut t = table("0123456789");
    let edits: [(bool, usize, usize); 6] =
        [(true, 3, 0), (false, 0, 4), (true, 9, 0), (false, 2, 7), (true, 0, 0), (false, 1, 1)];
    for (is_insert, at, length) in edits {
        if is_insert {
            t.insert(at, "abc");
        } else {
            t.delete(at, length);
        }
        assert_eq!(t.get_length(), t.to_string().chars().count());
    }
    assert_eq!(t.to_string(), "acbcabc");
}
