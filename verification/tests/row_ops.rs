use hecto::HighlightOptions;
use hecto::HighlightTag;
use hecto::Row;
use hecto::SearchDirection;

#[test]
fn from_counts_graphemes_not_code_points() {
    // A base letter with a combining mark is one user-perceived character.
    let row = Row::from("e\u{301}");
    assert_eq!(row.len(), 1);
    // Several multi-codepoint clusters in a row.
    let row = Row::from("a\u{310}e\u{301}o\u{308}\u{332}");
    assert_eq!(row.len(), 3);
    // A regional-indicator pair is a single cluster.
    let row = Row::from("x\u{1F1E7}\u{1F1EA}y");
    assert_eq!(row.len(), 3);
}

#[test]
fn split_at_three() {
    let mut row = Row::from("abcdef");
    let rest = row.split(3);
    assert_eq!(row.len(), 3);
    assert_eq!(row.contents(), "abc");
    assert_eq!(rest.len(), 3);
    assert_eq!(rest.contents(), "def");
}

#[test]
fn split_then_append_restores_line() {
    let original = "pa\u{310}ste\u{301}board";
    for at in 0..Row::from(original).len() + 1 {
        let mut row = Row::from(original);
        let rest = row.split(at);
        row.append(&rest);
        assert_eq!(row.contents(), original);
        assert_eq!(row.len(), Row::from(original).len());
    }
}

#[test]
fn split_past_end_leaves_line_and_returns_empty() {
    let mut row = Row::from("abc");
    let rest = row.split(7);
    assert_eq!(row.contents(), "abc");
    assert!(rest.is_empty());
    assert_eq!(rest.contents(), "");
}

#[test]
fn insert_then_delete_restores_line() {
    let original = "wo\u{308}rld";
    let n = Row::from(original).len();
    for at in 0..n + 1 {
        let mut row = Row::from(original);
        row.insert(at, 'x');
        assert_eq!(row.len(), n + 1);
        row.delete(at);
        assert_eq!(row.len(), n);
        assert_eq!(row.contents(), original);
    }
}

#[test]
fn insert_never_splits_a_cluster() {
    let mut row = Row::from("e\u{301}o\u{308}");
    assert_eq!(row.len(), 2);
    row.insert(1, 'x');
    assert_eq!(row.len(), 3);
    assert_eq!(row.contents(), "e\u{301}xo\u{308}");
    row.delete(0);
    assert_eq!(row.contents(), "xo\u{308}");
}

#[test]
fn delete_past_end_is_a_no_op() {
    let mut row = Row::from("abc");
    row.delete(3);
    assert_eq!(row.contents(), "abc");
    assert_eq!(row.len(), 3);
}

#[test]
fn append_concatenates_contents_and_lengths() {
    let mut row = Row::from("foo");
    let other = Row::from("ba\u{310}r");
    row.append(&other);
    assert_eq!(row.len(), 6);
    assert_eq!(row.contents(), "fooba\u{310}r");
}

#[test]
fn render_substitutes_tabs_and_clamps() {
    let row = Row::from("a\tb");
    assert_eq!(row.render(0, 3), "a b");
    assert_eq!(row.render(1, 2), " ");
    assert_eq!(row.render(0, 99), "a b");
    assert_eq!(row.render(5, 2), "");
    assert_eq!(row.render(2, 1), "");
}

#[test]
fn render_slices_by_grapheme_column() {
    let row = Row::from("he\u{301}llo");
    assert_eq!(row.render(1, 3), "e\u{301}l");
}

#[test]
fn substr_skip_and_take() {
    let row = Row::from("abcdef");
    assert_eq!(row.substr(None, None), "abcdef");
    assert_eq!(row.substr(Some(2), None), "cdef");
    assert_eq!(row.substr(None, Some(2)), "ab");
    assert_eq!(row.substr(Some(2), Some(3)), "cde");
    assert_eq!(row.substr(Some(9), Some(3)), "");
    assert_eq!(row.substr(Some(4), Some(9)), "ef");
}

#[test]
fn as_bytes_is_the_utf8_of_the_line() {
    let row = Row::from("ab\u{e9}");
    assert_eq!(row.as_bytes(), "ab\u{e9}".as_bytes().to_vec());
}

#[test]
fn update_len_matches_contents() {
    let mut row = Row::from("abc");
    row.update_len();
    assert_eq!(row.len(), 3);
    assert!(!row.is_empty());
    let mut empty = Row::default();
    empty.update_len();
    assert!(empty.is_empty());
}

#[test]
fn find_forward_from_start() {
    let row = Row::from("hello world");
    assert_eq!(row.find("lo", 0, SearchDirection::Forward), Some(3));
}

#[test]
fn find_forward_respects_start_column() {
    let row = Row::from("hello world");
    assert_eq!(row.find("o", 5, SearchDirection::Forward), Some(7));
    assert_eq!(row.find("o", 8, SearchDirection::Forward), None);
}

#[test]
fn find_backward_matches_end_before_column() {
    let row = Row::from("hello world");
    assert_eq!(row.find("o", 11, SearchDirection::Backward), Some(7));
    assert_eq!(row.find("o", 7, SearchDirection::Backward), Some(4));
    assert_eq!(row.find("o", 4, SearchDirection::Backward), None);
    assert_eq!(Row::from("abc").find("c", 3, SearchDirection::Backward), Some(2));
}

#[test]
fn find_returns_grapheme_columns() {
    // Two-codepoint clusters before the match: the answer counts clusters.
    let row = Row::from("e\u{301}e\u{301}ab");
    assert_eq!(row.find("ab", 0, SearchDirection::Forward), Some(2));
}

#[test]
fn find_rejects_empty_query_and_out_of_range_start() {
    let row = Row::from("abc");
    assert_eq!(row.find("", 0, SearchDirection::Forward), None);
    assert_eq!(row.find("a", 4, SearchDirection::Forward), None);
    assert_eq!(row.find("a", 4, SearchDirection::Backward), None);
}

#[test]
fn highlight_tags_search_matches() {
    let mut row = Row::from("hello world");
    row.highlight(HighlightOptions { numbers: true }, Some("wor"));
    let tags = row.highlighting();
    for col in 0..11 {
        if (6..9).contains(&col) {
            assert_eq!(tags[col], HighlightTag::Match);
        } else {
            assert_eq!(tags[col], HighlightTag::Plain);
        }
    }
}

#[test]
fn highlight_numbers_need_a_separator_before() {
    let mut row = Row::from("a1 23 4.5 x7");
    row.highlight(HighlightOptions { numbers: true }, None);
    let tags = row.highlighting().clone();
    // "a1" opens with a letter: no number tag.
    assert_eq!(tags[0], HighlightTag::Plain);
    assert_eq!(tags[1], HighlightTag::Plain);
    // "23" after a space is a numeric literal.
    assert_eq!(tags[3], HighlightTag::Number);
    assert_eq!(tags[4], HighlightTag::Number);
    // "4.5" keeps the dot inside the literal.
    assert_eq!(tags[6], HighlightTag::Number);
    assert_eq!(tags[7], HighlightTag::Number);
    assert_eq!(tags[8], HighlightTag::Number);
    // "x7" opens with a letter: no number tag.
    assert_eq!(tags[11], HighlightTag::Plain);
}

#[test]
fn highlight_numbers_still_apply_outside_matches() {
    let mut row = Row::from("wor 123");
    row.highlight(HighlightOptions { numbers: true }, Some("wor"));
    let tags = row.highlighting();
    assert_eq!(tags[0], HighlightTag::Match);
    assert_eq!(tags[1], HighlightTag::Match);
    assert_eq!(tags[2], HighlightTag::Match);
    assert_eq!(tags[3], HighlightTag::Plain);
    assert_eq!(tags[4], HighlightTag::Number);
    assert_eq!(tags[5], HighlightTag::Number);
    assert_eq!(tags[6], HighlightTag::Number);
}

#[test]
fn highlight_numbers_disabled_gives_plain() {
    let mut row = Row::from("12 34");
    row.highlight(HighlightOptions { numbers: false }, None);
    for tag in row.highlighting() {
        assert_eq!(*tag, HighlightTag::Plain);
    }
}

#[test]
fn highlight_match_wins_over_number() {
    let mut row = Row::from("a 123 b");
    row.highlight(HighlightOptions { numbers: true }, Some("123"));
    let tags = row.highlighting();
    assert_eq!(tags[2], HighlightTag::Match);
    assert_eq!(tags[3], HighlightTag::Match);
    assert_eq!(tags[4], HighlightTag::Match);
    assert!(!tags.contains(&HighlightTag::Number));
}

#[test]
fn highlight_consumes_matches_without_overlap() {
    let mut row = Row::from("aaa");
    row.highlight(HighlightOptions { numbers: false }, Some("aa"));
    let tags = row.highlighting();
    assert_eq!(tags[0], HighlightTag::Match);
    assert_eq!(tags[1], HighlightTag::Match);
    assert_eq!(tags[2], HighlightTag::Plain);
}

#[test]
fn structural_edit_resets_tags_to_plain() {
    let mut row = Row::from("wor wor");
    row.highlight(HighlightOptions { numbers: false }, Some("wor"));
    assert_eq!(row.highlighting()[0], HighlightTag::Match);
    row.insert(0, 'x');
    assert!(row.highlighting().iter().all(|t| *t == HighlightTag::Plain));
}
