use xmltree::arena::DocumentSourceRef;
use xmltree::document::Document;
use xmltree::node::dtd::{DtdEntity, EntityDefinition, ExternalId};
use xmltree::node::name::{NodeName, OwnedNodeName};
use xmltree::node::tag::{OwnedNodeAttribute, OwnedTagNode};
use xmltree::strspan::StrSpan;

#[test]
fn names_compare_by_their_text() {
    let src = "<test><p:test2>test</p:test2></test>";
    let doc = Document::parse_str(src).unwrap();
    assert_eq!(doc.root().name(), &"test");
    assert!(*doc.root().name() == *"test");
    let here = NodeName::new(None, StrSpan::new("test", 0));
    let there = NodeName::new(None, StrSpan::new("test", 31));
    assert_eq!(here, there);
    assert!(here.same_text(doc.root().name()));
    assert_ne!(here, NodeName::new(Some(StrSpan::new("p", 0)), StrSpan::new("test", 0)));
    let owned = doc.root().name().to_owned();
    assert_eq!(owned, "test");
    assert!(owned == *doc.root().name());
    assert_eq!(owned, OwnedNodeName::new(None, "test"));
    assert_eq!(owned.qualified(), "test");
    assert_eq!(OwnedNodeName::new(Some("p"), "test2").qualified(), "p:test2");
    assert!(OwnedNodeName::new(Some("p"), "test2").equals(Some("p"), "test2"));
    assert_eq!(OwnedNodeName::new(Some("p"), "test2").borrowed().qualified(), "p:test2");
}

#[test]
fn a_written_name_splits_at_its_colon() {
    assert_eq!(OwnedNodeName::from_qualified("local"), Some(OwnedNodeName::new(None, "local")));
    assert_eq!(
        OwnedNodeName::from_qualified("xm:foo"),
        Some(OwnedNodeName::new(Some("xm"), "foo"))
    );
    assert_eq!(
        OwnedNodeName::from_qualified("é:ü"),
        Some(OwnedNodeName::new(Some("é"), "ü"))
    );
    assert_eq!(OwnedNodeName::from_qualified(":"), Some(OwnedNodeName::new(Some(""), "")));
    assert_eq!(OwnedNodeName::from_qualified(""), Some(OwnedNodeName::new(None, "")));
    assert_eq!(OwnedNodeName::from_qualified("a:b:c"), None);
    assert_eq!(OwnedNodeName::from_qualified("::"), None);
}

#[test]
fn an_attribute_is_changed_in_place() {
    let mut tag = OwnedTagNode::new(OwnedNodeName::new(None, "t"));
    tag.attributes.push(OwnedNodeAttribute::new(OwnedNodeName::new(None, "a"), "1"));
    tag.attributes.push(OwnedNodeAttribute::new(OwnedNodeName::new(None, "b"), "2"));
    tag.attributes.push(OwnedNodeAttribute::new(OwnedNodeName::new(None, "a"), "3"));
    assert!(tag.get_attribute_mut(None, "c").is_none());
    tag.get_attribute_mut(None, "a").unwrap().value = "4".to_string();
    let values: Vec<&str> = tag.attributes.iter().map(|a| a.value.as_str()).collect();
    assert_eq!(values, vec!["1", "2", "4"]);
    assert_eq!(tag.attribute_index(None, "a"), Some(2));
    assert_eq!(tag.attribute_index(None, "b"), Some(1));
}

#[test]
fn the_arena_keeps_copies_of_text() {
    let arena = DocumentSourceRef::default();
    let kept = {
        let text = String::from("héllo");
        arena.alloc_str(&text)
    };
    assert_eq!(kept, "héllo");
    assert_eq!(arena.try_alloc("wörld").unwrap(), "wörld");
    assert!(arena.size() >= "héllo".len() + "wörld".len());
    let span = StrSpan::from_unallocated(&arena, "text");
    assert_eq!(span, "text");
    assert_eq!(span.start(), 0);
    let id = ExternalId::public_from_unallocated(&arena, "p", "s");
    assert!(matches!(id, ExternalId::Public(p, s) if p == "p" && s == "s"));
    let id = ExternalId::system_from_unallocated(&arena, "s");
    assert!(matches!(id, ExternalId::System(s) if s == "s"));
    let definition = EntityDefinition::from_unallocated(&arena, "v");
    let entity = DtdEntity::from_unallocated(&arena, "n", definition);
    assert_eq!(entity.name, "n");
    assert!(entity.span.is_empty());
    assert!(matches!(entity.definition, EntityDefinition::EntityValue(v) if v == "v"));
}

#[test]
fn a_name_is_made_of_its_written_form() {
    let name = OwnedNodeName::from("xm:foo");
    assert_eq!(name.prefix, Some("xm".to_string()));
    assert_eq!(name.local, "foo");
    let name = OwnedNodeName::from("root");
    assert_eq!(name.prefix, None);
    assert_eq!(name.local, "root");
    let tag = OwnedTagNode::new(OwnedNodeName::from("root"));
    assert_eq!(tag.name, "root");
    let attribute = OwnedNodeAttribute::new(OwnedNodeName::from("xm:foo"), "bar");
    assert_eq!(attribute.name, OwnedNodeName::new(Some("xm"), "foo"));
}
