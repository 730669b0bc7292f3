use brick::provenance::{SourceMarker, SourceRange};

fn chars(text: &str) -> Vec<char> {
    text.chars().collect()
}

fn range(sl: u32, so: u32, el: u32, eo: u32) -> SourceRange {
    SourceRange::new_offset(SourceMarker::new("file".to_string(), sl, so), el, eo)
}

#[test]
fn marker_keeps_what_it_was_made_of() {
    let m = SourceMarker::new("file".to_string(), 3, 7);
    assert_eq!(m.line(), 3);
    assert_eq!(m.offset(), 7);
    assert_eq!(m.source_name, "file");
}

#[test]
fn range_from_two_markers() {
    let start = SourceMarker::new("a".to_string(), 1, 2);
    let end = SourceMarker::new("b".to_string(), 4, 5);
    let r = SourceRange::new(start, &end);
    assert_eq!(r.source_name, "a");
    assert_eq!(
        (r.start_line, r.start_offset, r.end_line, r.end_offset),
        (1, 2, 4, 5)
    );
    assert_eq!(r.start(), SourceMarker::new("a".to_string(), 1, 2));
    assert_eq!(r.end(), SourceMarker::new("a".to_string(), 4, 5));
}

#[test]
fn set_end_moves_only_the_end() {
    let mut r = range(1, 2, 1, 3);
    r.set_end(SourceMarker::new("other".to_string(), 9, 8));
    assert_eq!(r, range(1, 2, 9, 8));
}

#[test]
fn to_range_is_empty_at_the_marker() {
    let r = SourceMarker::new("file".to_string(), 2, 5).to_range();
    assert_eq!(r, range(2, 5, 2, 5));
    assert!(r.is_one_char());
    assert!(!range(2, 5, 2, 6).is_one_char());
    assert!(!range(2, 5, 3, 5).is_one_char());
}

#[test]
fn contains_includes_both_ends() {
    let r = range(2, 3, 4, 5);
    assert!(r.contains(2, 3));
    assert!(r.contains(4, 5));
    assert!(r.contains(3, 0));
    assert!(r.contains(3, 1000));
    assert!(r.contains(2, 99));
    assert!(r.contains(4, 0));
    assert!(!r.contains(2, 2));
    assert!(!r.contains(4, 6));
    assert!(!r.contains(1, 4));
    assert!(!r.contains(5, 0));
}

#[test]
fn contains_on_one_line() {
    let r = range(7, 3, 7, 5);
    assert!(!r.contains(7, 2));
    assert!(r.contains(7, 3));
    assert!(r.contains(7, 4));
    assert!(r.contains(7, 5));
    assert!(!r.contains(7, 6));
}

#[test]
fn index_counts_characters_to_the_line_and_adds_the_offset() {
    let text = chars("ab\ncde\n\nf");
    let at = |line, offset| SourceMarker::new("file".to_string(), line, offset).index(&text);
    assert_eq!(at(1, 0), Some(0));
    assert_eq!(at(1, 2), Some(2));
    assert_eq!(at(2, 0), Some(3));
    assert_eq!(at(2, 1), Some(4));
    assert_eq!(at(3, 0), Some(7));
    assert_eq!(at(4, 1), Some(9));
    // the offset is not held against the length of the line
    assert_eq!(at(1, 5), Some(5));
}

#[test]
fn index_of_a_line_that_the_text_lacks() {
    let text = chars("ab\ncd");
    let at = |line, offset| SourceMarker::new("file".to_string(), line, offset).index(&text);
    assert_eq!(at(3, 0), None);
    assert_eq!(at(7, 2), None);
    assert_eq!(at(2, 0), Some(3));
    let empty = chars("");
    assert_eq!(
        SourceMarker::new("file".to_string(), 1, 0).index(&empty),
        Some(0)
    );
    assert_eq!(
        SourceMarker::new("file".to_string(), 2, 0).index(&empty),
        None
    );
}

#[test]
fn text_between_the_ends() {
    let text = chars("let x\n  == 12");
    assert_eq!(range(1, 0, 1, 3).text(&text), Some(chars("let")));
    assert_eq!(range(2, 2, 2, 4).text(&text), Some(chars("==")));
    assert_eq!(range(1, 4, 2, 4).text(&text), Some(chars("x\n  ==")));
    assert_eq!(range(1, 2, 1, 2).text(&text), Some(chars("")));
}

#[test]
fn text_of_a_range_that_does_not_fit() {
    let text = chars("let x\n  == 12");
    // end before start
    assert_eq!(range(1, 3, 1, 1).text(&text), None);
    // end after the text
    assert_eq!(range(2, 0, 2, 50).text(&text), None);
    // no such line
    assert_eq!(range(1, 0, 3, 0).text(&text), None);
}

#[test]
fn line_zero_begins_where_the_first_line_does() {
    let text = chars("ab\ncd");
    let at = |line, offset| SourceMarker::new("file".to_string(), line, offset).index(&text);
    assert_eq!(at(0, 0), Some(0));
    assert_eq!(at(0, 4), Some(4));
    assert_eq!(at(1, 4), Some(4));
    assert_eq!(range(0, 0, 1, 1).text(&text), Some(chars("a")));
    assert_eq!(
        SourceMarker::new("file".to_string(), 0, 3).index(&chars("")),
        Some(3)
    );
}

#[test]
fn nowhere_is_at_line_zero() {
    let r = SourceRange::nowhere();
    assert_eq!(r.source_name, "");
    assert_eq!(
        (r.start_line, r.start_offset, r.end_line, r.end_offset),
        (0, 0, 0, 0)
    );
    assert_eq!(r.duplicate(), r);
}
