use hecto::Document;
use hecto::HighlightOptions;
use hecto::HighlightTag;
use hecto::Position;
use hecto::SearchDirection;

fn doc(contents: &str) -> Document {
    Document::open(contents, "buffer.txt")
}

fn row_text(d: &Document, y: usize) -> String {
    d.row(y).expect("row in range").contents()
}

#[test]
fn open_splits_on_terminators() {
    let d = doc("abc\ndef");
    assert_eq!(d.len(), 2);
    assert_eq!(row_text(&d, 0), "abc");
    assert_eq!(row_text(&d, 1), "def");
    assert_eq!(d.row_len(0), Some(3));
    assert_eq!(d.row_len(2), None);
    assert!(!d.is_dirty());
    assert!(!d.is_empty());
}

#[test]
fn open_handles_trailing_and_crlf_terminators() {
    let d = doc("abc\r\ndef\n");
    assert_eq!(d.len(), 2);
    assert_eq!(row_text(&d, 0), "abc");
    assert_eq!(row_text(&d, 1), "def");

    let d = doc("");
    assert_eq!(d.len(), 0);
    assert!(d.is_empty());

    let d = doc("\n\n");
    assert_eq!(d.len(), 2);
    assert_eq!(row_text(&d, 0), "");
    assert_eq!(row_text(&d, 1), "");
}

#[test]
fn delete_at_row_end_merges_rows() {
    let mut d = doc("abc\ndef");
    d.delete(&Position { x: 3, y: 0 });
    assert_eq!(d.len(), 1);
    assert_eq!(row_text(&d, 0), "abcdef");
    assert!(d.is_dirty());
}

#[test]
fn delete_within_row_removes_one_cluster() {
    let mut d = doc("abc\ndef");
    d.delete(&Position { x: 1, y: 1 });
    assert_eq!(d.len(), 2);
    assert_eq!(row_text(&d, 1), "df");
}

#[test]
fn delete_past_last_row_changes_nothing() {
    let mut d = doc("abc");
    d.delete(&Position { x: 0, y: 5 });
    assert_eq!(d.len(), 1);
    assert_eq!(row_text(&d, 0), "abc");
    assert!(!d.is_dirty());
}

#[test]
fn delete_at_end_of_last_row_keeps_row_count() {
    let mut d = doc("abc\ndef");
    d.delete(&Position { x: 3, y: 1 });
    assert_eq!(d.len(), 2);
    assert_eq!(row_text(&d, 1), "def");
    assert!(d.is_dirty());
}

#[test]
fn insert_types_a_character() {
    let mut d = doc("ac");
    d.insert(&Position { x: 1, y: 0 }, 'b');
    assert_eq!(row_text(&d, 0), "abc");
    assert_eq!(d.len(), 1);
    assert!(d.is_dirty());
}

#[test]
fn insert_on_the_end_of_document_slot_opens_a_row() {
    let mut d = doc("abc");
    d.insert(&Position { x: 0, y: 1 }, 'z');
    assert_eq!(d.len(), 2);
    assert_eq!(row_text(&d, 1), "z");
}

#[test]
fn insert_far_past_the_end_changes_nothing() {
    let mut d = doc("abc");
    d.insert(&Position { x: 0, y: 2 }, 'z');
    assert_eq!(d.len(), 1);
    assert!(!d.is_dirty());
}

#[test]
fn insert_newline_character_splits_the_row() {
    let mut d = doc("abcdef");
    d.insert(&Position { x: 3, y: 0 }, '\n');
    assert_eq!(d.len(), 2);
    assert_eq!(row_text(&d, 0), "abc");
    assert_eq!(row_text(&d, 1), "def");
    assert!(d.is_dirty());
}

#[test]
fn insert_newline_on_last_row_slot_appends_empty_row() {
    let mut d = doc("\n");
    assert_eq!(d.len(), 1);
    assert_eq!(d.row_len(0), Some(0));
    d.insert_newline(&Position { x: 0, y: 0 });
    assert_eq!(d.len(), 2);
    assert_eq!(row_text(&d, 0), "");
    assert_eq!(row_text(&d, 1), "");
}

#[test]
fn insert_newline_interior_adds_exactly_one_row() {
    let mut d = doc("abc\ndef");
    d.insert_newline(&Position { x: 1, y: 1 });
    assert_eq!(d.len(), 3);
    assert_eq!(row_text(&d, 1), "d");
    assert_eq!(row_text(&d, 2), "ef");
}

#[test]
fn dirty_flag_lifecycle() {
    let mut d = doc("abc");
    assert!(!d.is_dirty());
    d.insert(&Position { x: 0, y: 0 }, 'x');
    assert!(d.is_dirty());
    d.mark_saved();
    assert!(!d.is_dirty());
    d.delete(&Position { x: 0, y: 0 });
    assert!(d.is_dirty());
    d.mark_saved();
    assert!(!d.is_dirty());
    d.insert_newline(&Position { x: 0, y: 0 });
    assert!(d.is_dirty());
}

#[test]
fn save_content_writes_each_row_with_a_terminator() {
    let d = doc("abc\ndef");
    assert_eq!(d.save_content(), "abc\ndef\n");
    let d = doc("");
    assert_eq!(d.save_content(), "");
}

#[test]
fn file_identity_can_be_reassigned() {
    let mut d = doc("abc");
    assert_eq!(d.file_name().as_deref(), Some("buffer.txt"));
    d.set_file_name(Some(String::from("other.txt")));
    assert_eq!(d.file_name().as_deref(), Some("other.txt"));
    d.set_file_name(None);
    assert!(d.file_name().is_none());
}

#[test]
fn find_forward_walks_rows() {
    let d = doc("hello\nworld\nhello");
    let p = d.find("lo", &Position { x: 0, y: 0 }, SearchDirection::Forward);
    assert_eq!(p, Some(Position { x: 3, y: 0 }));
    let p = d.find("lo", &Position { x: 4, y: 0 }, SearchDirection::Forward);
    assert_eq!(p, Some(Position { x: 3, y: 2 }));
    let p = d.find("zz", &Position { x: 0, y: 0 }, SearchDirection::Forward);
    assert_eq!(p, None);
}

#[test]
fn find_backward_walks_rows() {
    let d = doc("hello\nworld\nhello");
    let p = d.find("l", &Position { x: 1, y: 2 }, SearchDirection::Backward);
    assert_eq!(p, Some(Position { x: 3, y: 1 }));
    let p = d.find("hello", &Position { x: 0, y: 2 }, SearchDirection::Backward);
    assert_eq!(p, Some(Position { x: 0, y: 0 }));
}

#[test]
fn find_from_a_row_past_the_end_finds_nothing() {
    let d = doc("abc");
    assert_eq!(d.find("a", &Position { x: 0, y: 1 }, SearchDirection::Forward), None);
    assert_eq!(d.find_from_start("zzz"), None);
}

#[test]
fn find_from_start_scans_the_whole_document() {
    let d = doc("nothing\nhere but\none needle");
    let p = d.find_from_start("needle");
    assert_eq!(p, Some(Position { x: 4, y: 2 }));
}

#[test]
fn search_symmetry_on_a_document() {
    let d = doc("ab lo\ncd\nlo ef");
    let q = d.find("lo", &Position { x: 0, y: 0 }, SearchDirection::Forward).unwrap();
    assert_eq!(q, Position { x: 3, y: 0 });
    let back = d.find("lo", &Position { x: q.x + 2, y: q.y }, SearchDirection::Backward).unwrap();
    assert_eq!(back, q);
}

#[test]
fn document_highlight_tags_every_row() {
    let mut d = doc("wor\nworld");
    d.highlight(HighlightOptions { numbers: false }, Some("wor"));
    let first = d.row(0).unwrap().highlighting().clone();
    assert_eq!(first, vec![HighlightTag::Match, HighlightTag::Match, HighlightTag::Match]);
    let second = d.row(1).unwrap().highlighting().clone();
    assert_eq!(second[0], HighlightTag::Match);
    assert_eq!(second[3], HighlightTag::Plain);
    assert!(!d.is_dirty());
}

#[test]
fn default_document_is_empty_and_clean() {
    let d = Document::default();
    assert_eq!(d.len(), 0);
    assert!(d.is_empty());
    assert!(!d.is_dirty());
    assert!(d.file_name().is_none());
    assert!(d.row(0).is_none());
}
