use xmltree::document::{read_nodes, write_nodes, Document, OwnedDocument};
use xmltree::node::dtd::ExternalId;
use xmltree::node::name::OwnedNodeName;
use xmltree::node::tag::{OwnedNodeAttribute, OwnedTagNode, TagNode};
use xmltree::node::text::OwnedTextNode;
use xmltree::node::{Node, OwnedNode};
use xmltree::strspan::StrSpan;
use xmltree::to_bin::{BinDecodeError, Decoder, Encoder, ToBinHandler};
use xmltree::token::{Lexeme, Lexemes, TagEnd};

#[test]
fn a_span_knows_whether_it_lies_in_a_source() {
    let src = "aé<b>";
    assert!(StrSpan::new(&src[1..3], 1).placed_in(src));
    assert!(StrSpan::new("", 0).placed_in(src));
    assert!(StrSpan::new("", src.len()).placed_in(src));
    assert!(!StrSpan::new("é", 0).placed_in(src));
    assert!(!StrSpan::new("", 2).placed_in(src));
    assert!(!StrSpan::new("<b>", 4).placed_in(src));
    assert!(!StrSpan::new("a", usize::MAX).placed_in(src));
    assert!(!StrSpan::new("x", 0).placed_in(""));
}

#[test]
fn try_extend_leaves_spans_outside_the_source_alone() {
    let src = "<a></a>";
    let mut span = StrSpan::new(&src[0..2], 0);
    assert!(!span.try_extend(&StrSpan::new("</b>", 3), src));
    assert_eq!(span, StrSpan::new("<a", 0));
    assert!(span.try_extend(&StrSpan::new(&src[3..7], 3), src));
    assert_eq!(span, StrSpan::new(src, 0));
    let mut outside = StrSpan::new("zz", 0);
    assert!(!outside.try_extend(&StrSpan::new(&src[3..7], 3), src));
    assert_eq!(outside.text(), "zz");
}

#[test]
fn tokens_outside_the_source_are_refused() {
    let src = "<a/>";
    let empty = StrSpan::new("", 0);
    let open = Lexeme::ElementStart {
        prefix: empty,
        local: StrSpan::new(&src[1..2], 1),
        span: StrSpan::new(&src[0..2], 0),
    };
    let end = Lexeme::ElementEnd { end: TagEnd::Empty, span: StrSpan::new(&src[2..4], 2) };
    let bad = Lexeme::ElementEnd { end: TagEnd::Empty, span: StrSpan::new("/>", 3) };
    assert!(open.placed_in(src));
    assert!(end.placed_in(src));
    assert!(!bad.placed_in(src));
    assert!(!Lexeme::DtdStart {
        name: StrSpan::new("a", 1),
        external_id: Some(ExternalId::System(StrSpan::new("x", 0))),
        span: StrSpan::new("<a", 0),
    }
    .placed_in(src));
    assert!(Document::checked_from_lexemes(src, &[open, bad]).is_none());
    let built = Document::checked_from_lexemes(src, &[open, end]).unwrap().unwrap();
    assert_eq!(built, Document::parse_str(src).unwrap());
    assert_eq!(open.span(), "<a");
    assert_eq!(open.name(), "element start");
    assert_eq!(end.name(), "element end");
}

#[test]
fn a_token_source_yields_its_tokens_in_order() {
    let src = "<a>t</a>";
    let mut live = Lexemes::of_text(src);
    let mut seen = Vec::new();
    while let Some(item) = live.next() {
        seen.push(item.unwrap());
    }
    assert_eq!(seen.len(), 4);
    assert!(matches!(seen[0], Lexeme::ElementStart { local, .. } if local == "a"));
    assert!(matches!(seen[1], Lexeme::ElementEnd { end: TagEnd::Open, .. }));
    assert!(matches!(seen[2], Lexeme::Text { text } if text == "t" && text.start() == 3));
    assert!(matches!(seen[3], Lexeme::ElementEnd { end: TagEnd::Close(p, l), .. } if p.is_empty() && l == "a"));
    assert!(live.next().is_none());

    let mut given = Lexemes::of_list(&seen);
    let mut again = Vec::new();
    while let Some(item) = given.next() {
        again.push(item.unwrap());
    }
    assert_eq!(again, seen);
    let mut given = Lexemes::of_list(&seen);
    let doc = Document::parse(src, &mut given).unwrap();
    assert_eq!(doc, Document::parse_str(src).unwrap());
    assert!(given.next().is_none());
}

#[test]
fn a_token_source_ends_at_the_first_error() {
    let mut live = Lexemes::of_text("<a><");
    let mut items = 0;
    let mut errors = 0;
    while let Some(item) = live.next() {
        items += 1;
        if item.is_err() {
            errors += 1;
        }
    }
    assert_eq!(items, 3);
    assert_eq!(errors, 1);
}

#[test]
fn owned_values_are_written_and_read_like_borrowed_ones() {
    let mut tag = OwnedTagNode::new(OwnedNodeName::new(Some("p"), "t"));
    tag.attributes.push(OwnedNodeAttribute::new(OwnedNodeName::new(None, "a"), "v"));
    tag.children.push(OwnedNode::Text(OwnedTextNode::new("text")));
    let node = OwnedNode::Tag(tag.clone());

    let mut owned = Encoder::new();
    node.write(&mut owned).unwrap();
    let mut borrowed = Encoder::new();
    node.borrowed().write(&mut borrowed).unwrap();
    let bytes = owned.into_inner();
    assert_eq!(bytes, borrowed.into_inner());
    assert_eq!(bytes[0], 0);

    let mut decoder = Decoder::new(&bytes);
    assert_eq!(OwnedNode::read(&mut decoder).unwrap(), node);
    assert_eq!(decoder.cursor(), bytes.len());
    let mut decoder = Decoder::new(&bytes[1..]);
    assert_eq!(OwnedTagNode::read(&mut decoder).unwrap(), tag);
    let mut decoder = Decoder::new(&bytes[1..]);
    assert_eq!(TagNode::read(&mut decoder).unwrap().to_owned(), tag);

    let mut encoder = Encoder::new();
    tag.name.write(&mut encoder).unwrap();
    tag.attributes.write(&mut encoder).unwrap();
    let bytes = encoder.into_inner();
    let mut decoder = Decoder::new(&bytes);
    assert_eq!(OwnedNodeName::read(&mut decoder).unwrap(), tag.name);
    assert_eq!(Vec::<OwnedNodeAttribute>::read(&mut decoder).unwrap(), tag.attributes);
}

#[test]
fn a_document_switches_the_mode_of_its_encoder_and_decoder() {
    let src = "<a>x</a>";
    let doc = Document::parse_str(src).unwrap();
    let mut encoder = Encoder::new();
    doc.write(&mut encoder).unwrap();
    assert!(encoder.has_source_header());
    let bytes = encoder.into_inner();
    assert_eq!(bytes, doc.to_bin().unwrap());
    let mut decoder = Decoder::new(&bytes);
    let back = Document::read(&mut decoder).unwrap();
    assert_eq!(back, doc);
    assert_eq!(decoder.source(), Some(src));
    assert_eq!(decoder.cursor(), bytes.len());

    let owned = doc.to_owned();
    let mut encoder = Encoder::new();
    owned.write(&mut encoder).unwrap();
    assert!(!encoder.has_source_header());
    let bytes = encoder.into_inner();
    let mut decoder = Decoder::new(&bytes);
    assert_eq!(OwnedDocument::read(&mut decoder).unwrap(), owned);
    assert!(decoder.source().is_none());
}

#[test]
fn nodes_are_written_behind_their_count() {
    let src = "<a><!--c--><b/></a>";
    let doc = Document::parse_str(src).unwrap();
    let nodes: Vec<Node<'_>> = doc.root().children().to_vec();
    let mut encoder = Encoder::new();
    write_nodes(&nodes, &mut encoder);
    let bytes = encoder.into_inner();
    assert_eq!(&bytes[..8], &2usize.to_le_bytes());
    assert_eq!(bytes[8], 2);
    let mut decoder = Decoder::new(&bytes);
    let back = read_nodes(&mut decoder).unwrap();
    assert_eq!(back.len(), 2);
    assert!(matches!(&back[0], Node::Comment(c) if *c == "c"));
    assert!(matches!(&back[1], Node::Child(b) if b.name().equals(None, "b")));
    let mut decoder = Decoder::new(&bytes[..bytes.len() - 1]);
    assert!(matches!(read_nodes(&mut decoder), Err(BinDecodeError::UnexpectedEof)));
}
