use xmltree::document::Document;
use xmltree::error::{XmlError, XmlErrorKind};
use xmltree::node::dtd::{EntityDefinition, ExternalId};
use xmltree::node::Node;
use xmltree::strspan::StrSpan;
use xmltree::token::{Lexeme, TagEnd};

fn parse(src: &str) -> Document<'_> {
    match Document::parse_str(src) {
        Ok(doc) => doc,
        Err(e) => panic!("{}", e.render()),
    }
}

fn fail(src: &str) -> XmlError {
    match Document::parse_str(src) {
        Ok(_) => panic!("the document must not parse"),
        Err(e) => e,
    }
}

#[test]
fn duplicate_attributes_are_kept_and_the_last_is_found() {
    let doc = parse(r#"<root a="1" a="2"/>"#);
    let root = doc.root();
    assert_eq!(root.get_attribute(None, "a").unwrap().value().text(), "2");
    let values: Vec<&str> = root.attributes().iter().map(|a| a.value().text()).collect();
    assert_eq!(values, vec!["1", "2"]);
    assert_eq!(root.attribute_index(None, "a"), Some(1));
    assert!(root.get_attribute(None, "b").is_none());
    assert!(root.get_attribute(Some("x"), "a").is_none());
}

#[test]
fn a_tag_closed_by_another_is_unclosed() {
    let src = "<a><b>x</a>";
    let e = fail(src);
    match &e.kind {
        XmlErrorKind::UnclosedTag(name) => assert_eq!(name, "b"),
        other => panic!("unexpected kind {other:?}"),
    }
    assert_eq!(e.context.span.as_str(), "</a>");
    assert_eq!(e.context.span.start(), 7);
    assert_eq!(e.context.source, src);
    assert_eq!(e.kind.message(), "Unclosed tag: b");
    assert_eq!(e.render(), "| </a>\n= At 1:8\n= Unclosed tag: b\n");
}

#[test]
fn text_of_white_space_alone_is_dropped() {
    let doc = parse("<root>   </root>");
    assert_eq!(doc.root().children().len(), 0);
    let doc = parse("<root>\u{3000}\u{85}\t\r\n</root>");
    assert_eq!(doc.root().children().len(), 0);
}

#[test]
fn text_is_trimmed_and_keeps_its_place() {
    let src = "<root> \n héllo wörld \t</root>";
    let doc = parse(src);
    let children = doc.root().children();
    assert_eq!(children.len(), 1);
    match &children[0] {
        Node::Text(text) => {
            assert_eq!(text.text().text(), "héllo wörld");
            let start = text.text().start();
            assert_eq!(start, 9);
            assert_eq!(&src[start..start + text.text().len()], "héllo wörld");
            assert_eq!(text.span().text(), " \n héllo wörld \t");
            assert_eq!(text.span().start(), 6);
        }
        other => panic!("unexpected node {other:?}"),
    }
}

#[test]
fn deep_nesting_does_not_exhaust_the_stack() {
    let depth = 100_000;
    let mut src = String::with_capacity(depth * 7);
    for _ in 0..depth {
        src.push_str("<a>");
    }
    for _ in 0..depth {
        src.push_str("</a>");
    }
    let parsed = Document::parse_str(&src);
    let doc = match parsed {
        Ok(doc) => doc,
        Err(_) => panic!("the document must parse"),
    };
    assert_eq!(doc.root().children().len(), 1);
    assert_eq!(doc.root().span().len(), src.len());
    let mut depth_seen = 0;
    let mut tag = doc.root();
    loop {
        depth_seen += 1;
        match tag.children().first() {
            Some(Node::Child(inner)) => tag = inner,
            _ => break,
        }
    }
    assert_eq!(depth_seen, depth);
    // The tree is let go without being taken apart, which would follow its
    // nesting.
    std::mem::forget(doc);
}

#[test]
fn spans_cover_tags_from_start_to_end() {
    let src = "<a x='1'><b/><c>t</c></a>";
    let doc = parse(src);
    let root = doc.root();
    assert_eq!(root.span().text(), src);
    assert_eq!(root.span().start(), 0);
    assert!(root.name().equals(None, "a"));
    assert_eq!(root.name().qualified(), "a");
    let children = root.children();
    assert_eq!(children.len(), 2);
    match &children[0] {
        Node::Child(b) => {
            assert_eq!(b.span().text(), "<b/>");
            assert_eq!(b.span().start(), 9);
        }
        other => panic!("unexpected node {other:?}"),
    }
    match &children[1] {
        Node::Child(c) => {
            assert_eq!(c.span().text(), "<c>t</c>");
            assert_eq!(c.span().start(), 13);
            assert_eq!(c.children().len(), 1);
        }
        other => panic!("unexpected node {other:?}"),
    }
    assert_eq!(doc.source(), Some(src));
}

#[test]
fn names_keep_their_prefix() {
    let doc = parse(r#"<ns:root xm:foo="bar"/>"#);
    let root = doc.root();
    assert!(root.name().equals(Some("ns"), "root"));
    assert!(!root.name().equals(None, "root"));
    assert_eq!(root.name().prefix().unwrap().text(), "ns");
    assert_eq!(root.name().local().text(), "root");
    assert_eq!(root.name().qualified(), "ns:root");
    assert!(root.name().is_written("ns:root"));
    let attr = root.get_attribute(Some("xm"), "foo").unwrap();
    assert_eq!(attr.value().text(), "bar");
    assert_eq!(attr.span().text(), r#"xm:foo="bar""#);
    assert_eq!(attr.name().qualified(), "xm:foo");
}

#[test]
fn prolog_and_epilog_hold_what_stands_around_the_root() {
    let src = "<?xml version=\"1.0\" encoding=\"UTF-8\" standalone=\"no\"?>\n<!-- a --><?pi x?><r/><!-- b --><?end?>";
    let doc = parse(src);
    let declaration = doc.declaration().unwrap();
    assert_eq!(declaration.version().text(), "1.0");
    assert_eq!(declaration.encoding().unwrap().text(), "UTF-8");
    assert_eq!(declaration.standalone(), Some(false));
    assert_eq!(declaration.span().start(), 0);
    assert_eq!(doc.prolog().len(), 2);
    assert!(matches!(&doc.prolog()[0], Node::Comment(c) if c.text() == " a "));
    match &doc.prolog()[1] {
        Node::ProcessingInstruction(pi) => {
            assert_eq!(pi.target().text(), "pi");
            assert_eq!(pi.content().unwrap().text(), "x");
            assert_eq!(pi.span().text(), "<?pi x?>");
        }
        other => panic!("unexpected node {other:?}"),
    }
    assert_eq!(doc.epilog().len(), 2);
    assert!(matches!(&doc.epilog()[0], Node::Comment(c) if c.text() == " b "));
    match &doc.epilog()[1] {
        Node::ProcessingInstruction(pi) => {
            assert_eq!(pi.target().text(), "end");
            assert!(pi.content().is_none());
        }
        other => panic!("unexpected node {other:?}"),
    }
}

#[test]
fn doctype_with_entities_is_read_to_its_end() {
    let src = r#"<!DOCTYPE note SYSTEM "note.dtd" [<!ENTITY a "v"><!ENTITY b SYSTEM "s"><!ENTITY c PUBLIC "p" "q">]><note/>"#;
    let doc = parse(src);
    assert_eq!(doc.prolog().len(), 1);
    match &doc.prolog()[0] {
        Node::DocumentType(dtd) => {
            assert_eq!(dtd.name().text(), "note");
            assert!(matches!(dtd.external_id(), Some(ExternalId::System(s)) if s.text() == "note.dtd"));
            assert_eq!(dtd.span().start(), 0);
            assert_eq!(dtd.span().text(), &src[..src.len() - "<note/>".len()]);
            let entities = dtd.entities();
            assert_eq!(entities.len(), 3);
            assert_eq!(entities[0].name.text(), "a");
            assert!(matches!(entities[0].definition, EntityDefinition::EntityValue(v) if v.text() == "v"));
            assert!(matches!(entities[1].definition, EntityDefinition::ExternalId(ExternalId::System(s)) if s.text() == "s"));
            assert!(matches!(entities[2].definition, EntityDefinition::ExternalId(ExternalId::Public(p, q)) if p.text() == "p" && q.text() == "q"));
            assert_eq!(entities[1].span.text(), r#"<!ENTITY b SYSTEM "s">"#);
        }
        other => panic!("unexpected node {other:?}"),
    }
}

#[test]
fn doctype_without_entities_is_complete_at_once() {
    let doc = parse(r#"<!DOCTYPE html PUBLIC "a" "b"><html/>"#);
    match &doc.prolog()[0] {
        Node::DocumentType(dtd) => {
            assert_eq!(dtd.name().text(), "html");
            assert!(matches!(dtd.external_id(), Some(ExternalId::Public(p, s)) if p.text() == "a" && s.text() == "b"));
            assert_eq!(dtd.entities().len(), 0);
            assert_eq!(dtd.span().text(), r#"<!DOCTYPE html PUBLIC "a" "b">"#);
        }
        other => panic!("unexpected node {other:?}"),
    }
}

#[test]
fn children_keep_their_kind_and_order() {
    let doc = parse("<r><!--c--><![CDATA[<d>]]><?p q?>t<e/></r>");
    let children = doc.root().children();
    assert_eq!(children.len(), 5);
    assert!(matches!(&children[0], Node::Comment(c) if c.text() == "c"));
    assert!(matches!(&children[1], Node::Cdata(c) if c.content().text() == "<d>" && c.span().text() == "<![CDATA[<d>]]>"));
    assert!(matches!(&children[2], Node::ProcessingInstruction(p) if p.target().text() == "p"));
    assert!(matches!(&children[3], Node::Text(t) if t.text().text() == "t"));
    assert!(matches!(&children[4], Node::Child(e) if e.name().equals(None, "e")));
    assert!(!children[0].is_tag());
    assert!(children[4].is_tag());
}

#[test]
fn empty_text_is_unexpected_eof() {
    let e = fail("");
    assert!(matches!(e.kind, XmlErrorKind::UnexpectedEof));
    assert_eq!(e.context.span.start(), 0);
    let e = fail("<!-- only a comment -->");
    assert!(matches!(e.kind, XmlErrorKind::UnexpectedEof));
    assert_eq!(e.context.span.start(), "<!-- only a comment -->".len() - 1);
    assert_eq!(e.kind.message(), "End of file reached unexpectedly");
}

#[test]
fn lexical_errors_are_passed_on() {
    let e = fail("<a><b></a></b");
    assert!(matches!(e.kind, XmlErrorKind::UnclosedTag(_)));
    let e = fail("<a b=></a>");
    assert!(matches!(e.kind, XmlErrorKind::Xml(_)));
    assert_eq!(e.context.span.start(), 0);
    assert!(e.kind.message().starts_with("XML parser error: "));
    let e = fail("<a/><a/>");
    assert!(matches!(e.kind, XmlErrorKind::Xml(_)));
}

fn at<'a>(src: &'a str, start: usize, len: usize) -> StrSpan<'a> {
    StrSpan::new(&src[start..start + len], start)
}

#[test]
fn tokens_handed_in_build_the_same_tree() {
    let src = "<a><b>x</b></a>";
    let empty = StrSpan::new("", 0);
    let tokens = vec![
        Lexeme::ElementStart { prefix: empty, local: at(src, 1, 1), span: at(src, 0, 2) },
        Lexeme::ElementEnd { end: TagEnd::Open, span: at(src, 2, 1) },
        Lexeme::ElementStart { prefix: empty, local: at(src, 4, 1), span: at(src, 3, 2) },
        Lexeme::ElementEnd { end: TagEnd::Open, span: at(src, 5, 1) },
        Lexeme::Text { text: at(src, 6, 1) },
        Lexeme::ElementEnd { end: TagEnd::Close(empty, at(src, 9, 1)), span: at(src, 7, 4) },
        Lexeme::ElementEnd { end: TagEnd::Close(empty, at(src, 13, 1)), span: at(src, 11, 4) },
    ];
    let built = match Document::from_lexemes(src, &tokens) {
        Ok(doc) => doc,
        Err(e) => panic!("{}", e.render()),
    };
    assert_eq!(built, parse(src));
}

#[test]
fn a_declaration_behind_other_nodes_is_not_first() {
    let src = "<!--c--><?xml version=\"1.0\"?><a/>";
    let tokens = vec![
        Lexeme::Comment { text: at(src, 4, 1), span: at(src, 0, 8) },
        Lexeme::Declaration {
            version: at(src, 23, 3),
            encoding: None,
            standalone: None,
            span: at(src, 8, 21),
        },
    ];
    let e = match Document::from_lexemes(src, &tokens) {
        Ok(_) => panic!("the tokens must not build a document"),
        Err(e) => e,
    };
    assert!(matches!(e.kind, XmlErrorKind::DeclarationNotFirst));
    assert_eq!(e.context.span.start(), 8);
    assert_eq!(
        e.kind.message(),
        "The <?xml> declaration must appear at the start of the document"
    );
}

#[test]
fn tokens_out_of_place_are_named() {
    let src = "x<a></a>";
    let empty = StrSpan::new("", 0);
    let text = Lexeme::Text { text: at(src, 0, 1) };
    let open = Lexeme::ElementStart { prefix: empty, local: at(src, 2, 1), span: at(src, 1, 2) };
    let end = Lexeme::ElementEnd { end: TagEnd::Open, span: at(src, 3, 1) };
    let close = Lexeme::ElementEnd { end: TagEnd::Close(empty, at(src, 6, 1)), span: at(src, 4, 4) };

    let message = |tokens: &[Lexeme<'_>]| match Document::from_lexemes(src, tokens) {
        Ok(_) => panic!("the tokens must not build a document"),
        Err(e) => e.kind.message(),
    };
    assert_eq!(message(&[text]), "Unexpected text in prolog section");
    assert_eq!(message(&[open, open]), "Unexpected element start in tag attributes");
    assert_eq!(message(&[open, end, end]), "Unexpected element end inside tag");
    assert_eq!(message(&[open, end, close, open]), "Unexpected element start in after root");
    assert_eq!(
        message(&[Lexeme::DtdStart { name: at(src, 2, 1), external_id: None, span: at(src, 1, 2) }, text]),
        "Expected Entity or DTD end"
    );
    assert!(matches!(
        Document::from_lexemes(src, &[Lexeme::DtdStart { name: at(src, 2, 1), external_id: None, span: at(src, 1, 2) }]),
        Err(XmlError { kind: XmlErrorKind::UnexpectedEof, .. })
    ));
}

#[test]
fn more_than_one_open_tag_at_the_end_names_the_innermost() {
    let src = "<a><b>";
    let empty = StrSpan::new("", 0);
    let tokens = vec![
        Lexeme::ElementStart { prefix: empty, local: at(src, 1, 1), span: at(src, 0, 2) },
        Lexeme::ElementEnd { end: TagEnd::Open, span: at(src, 2, 1) },
        Lexeme::ElementStart { prefix: empty, local: at(src, 4, 1), span: at(src, 3, 2) },
        Lexeme::ElementEnd { end: TagEnd::Open, span: at(src, 5, 1) },
    ];
    let e = match Document::from_lexemes(src, &tokens) {
        Ok(_) => panic!("the tokens must not build a document"),
        Err(e) => e,
    };
    match &e.kind {
        XmlErrorKind::UnclosedTag(name) => assert_eq!(name, "b"),
        other => panic!("unexpected kind {other:?}"),
    }
    assert_eq!(e.context.span.start(), 3);
    // One open tag at the end is taken as the root.
    let doc = match Document::from_lexemes(src, &tokens[..2]) {
        Ok(doc) => doc,
        Err(e) => panic!("{}", e.render()),
    };
    assert!(doc.root().name().equals(None, "a"));
}
