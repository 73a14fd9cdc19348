use std::path::PathBuf;
use xmltree::document::Document;
use xmltree::error::{first_line, mark_lines, push_decimal, ErrorContext, XmlError, XmlErrorKind};
use xmltree::strspan::StrSpan;
use xmltree::to_bin::BinDecodeError;

#[test]
fn a_context_shows_the_first_line_and_the_place() {
    let source = "line one\nline two with <bad\nmore> text\nlast";
    let start = source.find("<bad").unwrap();
    let span = StrSpan::new(&source[start..start + 10], start);
    let context = ErrorContext::new(source, span);
    assert_eq!(context.position(), (2, 15));
    assert_eq!(context.render(), "| <bad\n= At 2:15\n");
    let context = ErrorContext::with_path(PathBuf::from("dir/file.xml"), source, span);
    assert_eq!(context.render(), "| <bad\n= At dir/file.xml:2:15\n");
    assert_eq!(context.path, Some(PathBuf::from("dir/file.xml")));
    assert_eq!(context.source, source);
    assert_eq!(context.span, "<bad\nmore>");
}

#[test]
fn a_context_at_the_start_names_only_its_path() {
    let context = ErrorContext::new("text", StrSpan::new("", 0));
    assert_eq!(context.render(), "");
    let context = ErrorContext::with_path(PathBuf::from("f.xml"), "text", StrSpan::new("te", 0));
    assert_eq!(context.render(), "| te\n= In f.xml\n");
    assert_eq!(context.position(), (1, 1));
}

#[test]
fn rows_and_columns_are_written_in_base_ten() {
    let mut source = String::new();
    for _ in 0..1233 {
        source.push('\n');
    }
    source.push_str(&"x".repeat(4321));
    let start = source.len() - 1;
    let context = ErrorContext::new(&source, StrSpan::new("x", start));
    assert_eq!(context.position(), (1234, 4321));
    assert_eq!(context.render(), "| x\n= At 1234:4321\n");
}

#[test]
fn every_line_of_the_kind_is_marked() {
    let context = ErrorContext::new("source", StrSpan::new("our", 1));
    let error = XmlError::new(XmlErrorKind::Custom("first\r\nsecond\n\nlast\n".to_string()), context);
    assert_eq!(error.render(), "| our\n= At 1:2\n= first\n= second\n= \n= last\n");
    let error = error.with_path(PathBuf::from("p"));
    assert_eq!(error.render(), "| our\n= At p:1:2\n= first\n= second\n= \n= last\n");
    assert_eq!(error.context.span.start(), 1);
}

#[test]
fn the_error_of_the_tokenizer_is_told_in_its_words() {
    let error = match Document::parse_str("<a b=></a>") {
        Ok(_) => panic!("the document must not parse"),
        Err(e) => e,
    };
    match &error.kind {
        XmlErrorKind::Xml(inner) => {
            assert_eq!(error.kind.message(), format!("XML parser error: {inner}"));
            assert_eq!(error.render(), format!("= XML parser error: {inner}\n"));
        }
        other => panic!("unexpected kind {other:?}"),
    }
}

#[test]
fn errors_without_a_place_wrap_what_failed() {
    let error = XmlError::from_decode(BinDecodeError::InvalidHeader);
    assert!(matches!(error.kind, XmlErrorKind::Decode(BinDecodeError::InvalidHeader)));
    assert_eq!(error.kind.message(), "Invalid bytecode: Data did not have a valid header");
    assert_eq!(error.render(), "= Invalid bytecode: Data did not have a valid header\n");
    assert!(error.context.path.is_none());
    assert_eq!(error.context.source, "");

    let error = XmlError::from_io(std::io::Error::other("disk"));
    assert!(matches!(error.kind, XmlErrorKind::Io(_)));
    assert_eq!(error.kind.message(), "IO error: disk");
    assert_eq!(BinDecodeError::Io(std::io::Error::other("disk")).message(), "IO error: disk");
    assert_eq!(
        XmlErrorKind::Decode(BinDecodeError::Io(std::io::Error::other("disk"))).message(),
        "Invalid bytecode: IO error: disk"
    );
}

#[test]
fn a_failed_reservation_is_told() {
    let mut none: Vec<u64> = Vec::new();
    let failed = none.try_reserve(usize::MAX).unwrap_err();
    let message = BinDecodeError::TryReserveError(failed.clone()).message();
    assert_eq!(message, format!("Memory allocation error: {failed}"));
}

#[test]
fn the_first_line_ends_at_the_first_line_feed() {
    assert_eq!(first_line("one\ntwo\nthree"), "one");
    assert_eq!(first_line("\nrest"), "");
    assert_eq!(first_line("no feed é"), "no feed é");
    assert_eq!(first_line("é\nü"), "é");
    assert_eq!(first_line(""), "");
}

#[test]
fn lines_are_marked_as_the_standard_library_splits_them() {
    let texts = [
        "",
        "one",
        "one\n",
        "one\ntwo",
        "one\r\ntwo\r\n",
        "\n",
        "\n\n",
        "\r\n",
        "a\rb\nc",
        "\r",
        "x\r",
        "x\r\r\ny",
        "é\nü\r\n€",
        "\n\r\n\rz",
    ];
    for text in texts {
        let mut expected = String::from("head ");
        for line in text.lines() {
            expected.push_str("= ");
            expected.push_str(line);
            expected.push('\n');
        }
        let mut out = String::from("head ");
        mark_lines(&mut out, text);
        assert_eq!(out, expected, "{text:?}");
    }
}

#[test]
fn numbers_are_written_as_the_standard_library_writes_them() {
    for n in [0usize, 1, 9, 10, 11, 99, 100, 101, 1234, 90210, 1_000_000, usize::MAX - 1, usize::MAX] {
        let mut out = String::from("n=");
        push_decimal(&mut out, n);
        assert_eq!(out, format!("n={n}"));
    }
}
