use xmltree::document::{Document, OwnedDocument};
use xmltree::node::dtd::{
    OwnedDtdEntity, OwnedDtdNode, OwnedEntityDefinition, OwnedExternalId,
};
use xmltree::node::name::OwnedNodeName;
use xmltree::node::pi::OwnedProcessingInstructionNode;
use xmltree::node::cdata::OwnedCdataNode;
use xmltree::node::tag::{OwnedNodeAttribute, OwnedTagNode};
use xmltree::node::text::OwnedTextNode;
use xmltree::node::{Node, OwnedNode};
use xmltree::strspan::StrSpan;
use xmltree::to_bin::{BinDecodeError, Decoder, Encoder, ToBinHandler};

fn count(n: usize) -> Vec<u8> {
    n.to_le_bytes().to_vec()
}

#[test]
fn a_span_is_an_offset_and_a_length_in_header_mode() {
    let span = StrSpan::new("bc", 1);
    let mut encoder = Encoder::new();
    encoder.with_source_header();
    span.write(&mut encoder).unwrap();
    let mut expected = count(1);
    expected.extend(count(2));
    let bytes = encoder.into_inner();
    assert_eq!(bytes, expected);

    let mut decoder = Decoder::new(&bytes);
    decoder.with_source("abcd");
    let read = StrSpan::read(&mut decoder).unwrap();
    assert_eq!(read, span);
    assert_eq!(decoder.cursor(), 16);
}

#[test]
fn a_span_is_its_text_in_inline_mode_and_takes_its_place_in_the_stream() {
    let span = StrSpan::new("bc", 1);
    let mut encoder = Encoder::new();
    0u8.write(&mut encoder).unwrap();
    span.write(&mut encoder).unwrap();
    let bytes = encoder.into_inner();
    let mut expected = vec![0u8];
    expected.extend(count(2));
    expected.extend(b"bc");
    assert_eq!(bytes, expected);

    let mut decoder = Decoder::new(&bytes);
    assert_eq!(u8::read(&mut decoder).unwrap(), 0);
    let read = StrSpan::read(&mut decoder).unwrap();
    assert_eq!(read.text(), "bc");
    assert_eq!(read.start(), 1);
}

#[test]
fn a_source_shorter_than_the_offsets_fails_to_decode() {
    let src = "<root>some text</root>";
    let doc = Document::parse_str(src).unwrap();
    let bytes = doc.to_bin().unwrap();
    assert_eq!(&bytes[..4], b"XML1");
    // The stream is cut apart behind its header and given a shorter source.
    let body = &bytes[4 + 8 + src.len()..];
    let short = "<root>";
    let mut forged = b"XML1".to_vec();
    forged.extend(count(short.len()));
    forged.extend(short.as_bytes());
    forged.extend(body);
    assert!(matches!(Document::from_bin(&forged), Err(BinDecodeError::UnexpectedEof)));

    let mut decoder = Decoder::new(body);
    decoder.with_source(short);
    assert!(matches!(
        Option::<StrSpan>::read(&mut decoder),
        Ok(None)
    ));
    let mut lone = count(4);
    lone.extend(count(3));
    let mut decoder = Decoder::new(&lone);
    decoder.with_source("abcdef");
    assert!(matches!(StrSpan::read(&mut decoder), Err(BinDecodeError::UnexpectedEof)));
    let mut huge = count(usize::MAX);
    huge.extend(count(2));
    let mut decoder = Decoder::new(&huge);
    decoder.with_source("abcdef");
    assert!(matches!(StrSpan::read(&mut decoder), Err(BinDecodeError::UnexpectedEof)));
}

#[test]
fn an_offset_inside_a_character_fails_to_decode() {
    let mut bytes = count(1);
    bytes.extend(count(1));
    let mut decoder = Decoder::new(&bytes);
    decoder.with_source("é!");
    assert!(matches!(StrSpan::read(&mut decoder), Err(BinDecodeError::InvalidUtf8)));
}

#[test]
fn an_unknown_header_is_invalid() {
    assert!(matches!(Document::from_bin(b"XML3rest"), Err(BinDecodeError::InvalidHeader)));
    assert!(matches!(Document::from_bin(b"XM"), Err(BinDecodeError::UnexpectedEof)));
    assert!(matches!(OwnedDocument::from_bin(b"abcd"), Err(BinDecodeError::InvalidHeader)));
}

#[test]
fn an_unknown_kind_is_an_invalid_variant() {
    let bytes = [6u8, 0, 0];
    let mut decoder = Decoder::new(&bytes);
    assert!(matches!(Node::read(&mut decoder), Err(BinDecodeError::InvalidEnumVariant)));
    let bytes = [2u8, 0, 0];
    let mut decoder = Decoder::new(&bytes);
    assert!(matches!(
        xmltree::node::dtd::ExternalId::read(&mut decoder),
        Err(BinDecodeError::InvalidEnumVariant)
    ));
    let mut decoder = Decoder::new(&bytes);
    assert!(matches!(
        xmltree::node::dtd::EntityDefinition::read(&mut decoder),
        Err(BinDecodeError::InvalidEnumVariant)
    ));
}

#[test]
fn a_truncated_stream_fails_at_every_length() {
    let src = "<?xml version=\"1.0\"?><!DOCTYPE a [<!ENTITY e \"v\">]><a b=\"c\"><d>t</d><!--c--></a>";
    let doc = Document::parse_str(src).unwrap();
    for bytes in [doc.to_bin().unwrap(), doc.to_owned().to_bin().unwrap()] {
        for len in 0..bytes.len() {
            assert!(Document::from_bin(&bytes[..len]).is_err(), "length {len}");
        }
        assert!(Document::from_bin(&bytes).is_ok());
    }
}

fn every_kind() -> OwnedDocument {
    let mut root = OwnedTagNode::new(OwnedNodeName::new(Some("p"), "root"));
    root.attributes.push(OwnedNodeAttribute::new(OwnedNodeName::new(None, "a"), "1"));
    root.attributes.push(OwnedNodeAttribute::new(OwnedNodeName::new(None, "a"), "2"));
    let mut inner = OwnedTagNode::new(OwnedNodeName::new(None, "inner"));
    inner.children.push(OwnedNode::Text(OwnedTextNode::new("tëxt")));
    root.children.push(OwnedNode::Tag(inner));
    root.children.push(OwnedNode::Comment("note".to_string()));
    root.children.push(OwnedNode::Cdata(OwnedCdataNode::new("<raw>")));
    root.children.push(OwnedNode::ProcessingInstruction(OwnedProcessingInstructionNode::new(
        "target".to_string(),
        Some("content".to_string()),
    )));
    let mut doc = OwnedDocument::new(root);
    let mut dtd = OwnedDtdNode::new("root", Some(OwnedExternalId::new_public("pub", "sys")));
    dtd.entities.push(OwnedDtdEntity::new("e1", OwnedEntityDefinition::new_entity_value("v")));
    dtd.entities.push(OwnedDtdEntity::new(
        "e2",
        OwnedEntityDefinition::new_external_id(OwnedExternalId::new_system("s")),
    ));
    doc.prolog.push(OwnedNode::DocumentType(dtd));
    doc.epilog.push(OwnedNode::Comment("end".to_string()));
    doc
}

#[test]
fn an_owned_document_of_every_kind_comes_back_from_its_binary_form() {
    let doc = every_kind();
    let bytes = doc.to_bin().unwrap();
    let back = OwnedDocument::from_bin(&bytes).unwrap();
    assert_eq!(back, doc);
    // The entities of a document type declaration are part of it.
    match &back.prolog[0] {
        OwnedNode::DocumentType(dtd) => assert_eq!(dtd.entities.len(), 2),
        other => panic!("unexpected node {other:?}"),
    }
    let borrowed = Document::from_bin(&bytes).unwrap();
    assert!(borrowed.source().is_none());
    assert_eq!(borrowed.to_owned(), doc);
    assert_eq!(doc.borrowed().to_owned(), doc);
    assert_eq!(doc.root.get_attribute(None, "a").unwrap().value, "2");
}

#[test]
fn strip_metadata_keeps_the_text_and_is_idempotent() {
    let src = "<!DOCTYPE a [<!ENTITY e \"v\">]><a b=\"c\"> <d>t</d> text </a>";
    let doc = Document::parse_str(src).unwrap();
    let mut once = doc.clone();
    once.strip_metadata();
    assert_ne!(once, doc);
    assert_eq!(once.to_owned(), doc.to_owned());
    assert_eq!(once.root().span().start(), 0);
    assert_eq!(once.root().span().text(), doc.root().span().text());
    let mut twice = once.clone();
    twice.strip_metadata();
    assert_eq!(twice, once);
    // Without its source the document is written with its strings, and
    // comes back with the same content.
    assert!(once.source().is_none());
    let bytes = once.to_bin().unwrap();
    assert_eq!(&bytes[..4], b"XML2");
    assert_eq!(Document::from_bin(&bytes).unwrap().to_owned(), doc.to_owned());

    match &doc.prolog()[0] {
        Node::DocumentType(dtd) => {
            let mut dtd = dtd.clone();
            dtd.strip_metadata();
            assert_eq!(dtd.span().start(), 0);
            assert_eq!(dtd.name().start(), 0);
            assert_eq!(dtd.name().text(), "a");
            assert_eq!(dtd.entities()[0].span.start(), 0);
            assert_eq!(dtd.entities()[0].name.text(), "e");
            let mut entity = dtd.entities()[0];
            let before = entity;
            entity.strip_metadata();
            assert_eq!(entity, before);
            let again = dtd.clone();
            dtd.strip_metadata();
            assert_eq!(dtd, again);
        }
        other => panic!("unexpected node {other:?}"),
    }
}
