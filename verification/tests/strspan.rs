use xmltree::strspan::{StrSpan, StringSpan};

#[test]
fn test_strspan_end() {
    let span = StrSpan::end("example");
    assert_eq!(span.text(), "");
    assert_eq!(span.start(), 6);
}

#[test]
fn test_strspan_extend() {
    let src = "example text";
    let mut span1 = StrSpan::new(&src[0..7], 0);
    let span2 = StrSpan::new(&src[8..12], 8);
    span1.extend(&span2, src);
    assert_eq!(span1.text(), "example text");
    assert_eq!(span1.start(), 0);
}

#[test]
fn test_strspan_position() {
    let source = "line1\nline2\nline3";
    let span = StrSpan::new("line2", 6);
    assert_eq!(span.position(source), (2, 1));
}

#[test]
fn test_string_span_new() {
    let span = StringSpan::new("example".to_string(), 5);
    assert_eq!(span.as_str(), "example");
    assert_eq!(span.start(), 5);
}

#[test]
fn test_string_span_position() {
    let source = "line1\nline2\nline3";
    let span = StringSpan::new("line2".to_string(), 6);
    assert_eq!(span.position(source), (2, 1));
}

#[test]
fn test_strspan_partial_eq() {
    let span = StrSpan::new("example", 0);
    assert_eq!(span, "example");
    assert_eq!("example", span);
    assert!(span.text_eq("example"));
    assert!(span != "examplE");
    assert!(span == *"example");
}

#[test]
fn test_string_span_partial_eq() {
    let span = StringSpan::new("example".to_string(), 0);
    assert_eq!(span, "example");
    assert_eq!("example", span);
    assert!(span.text_eq("example"));
    assert!(span != StringSpan::new("example".to_string(), 1));
}

#[test]
fn test_strspan_is_empty() {
    let empty_span = StrSpan::new("", 0);
    let non_empty_span = StrSpan::new("text", 0);
    assert!(empty_span.is_empty());
    assert!(!non_empty_span.is_empty());
}

#[test]
fn test_string_span_is_empty() {
    let empty_span = StringSpan::new(String::new(), 0);
    let non_empty_span = StringSpan::new("text".to_string(), 0);
    assert!(empty_span.is_empty());
    assert!(!non_empty_span.is_empty());
}

#[test]
fn end_of_empty_text_is_zero() {
    let span = StrSpan::end("");
    assert_eq!(span.start(), 0);
    assert!(span.is_empty());
}

#[test]
fn extend_covers_both_spans_in_either_order() {
    let src = "<a>héllo</a>";
    let open = StrSpan::new(&src[0..3], 0);
    let close = StrSpan::new(&src[9..13], 9);
    let mut forward = open;
    forward.extend(&close, src);
    assert_eq!(forward.text(), src);
    assert_eq!(forward.start(), 0);
    let mut backward = close;
    backward.extend(&open, src);
    assert_eq!(backward.text(), src);
    assert_eq!(backward.start(), 0);
}

#[test]
fn position_counts_rows_and_columns_from_one() {
    let source = "ab\ncd€f\ng";
    assert_eq!(StrSpan::position_in_text(0, source), (1, 1));
    assert_eq!(StrSpan::position_in_text(1, source), (1, 2));
    assert_eq!(StrSpan::position_in_text(3, source), (2, 1));
    // The euro sign takes three bytes and one column.
    assert_eq!(StrSpan::position_in_text(8, source), (2, 4));
    assert_eq!(StrSpan::position_in_text(10, source), (3, 1));
}

#[test]
fn position_inside_a_character_runs_to_the_end() {
    let source = "a€\nb";
    // Offset 2 lies inside the euro sign: no character starts there.
    assert_eq!(StrSpan::position_in_text(2, source), (2, 2));
    assert_eq!(StrSpan::position_in_text(100, source), (2, 2));
}

#[test]
fn strip_metadata_sets_the_offset_to_zero() {
    let mut span = StrSpan::new("text", 17);
    span.strip_metadata();
    assert_eq!(span.start(), 0);
    assert_eq!(span.text(), "text");
    let once = span;
    span.strip_metadata();
    assert_eq!(span, once);
}

#[test]
fn spans_are_made_from_text() {
    let span = StrSpan::from("text");
    assert_eq!(span, StrSpan::new("text", 0));
    let span: StrSpan<'_> = "more".into();
    assert_eq!(span.start(), 0);
    let owned = StringSpan::from(StrSpan::new("text", 9));
    assert_eq!(owned, StringSpan::new("text".to_string(), 9));
    assert_eq!(StrSpan::default(), StrSpan::new("", 0));
}
