use xmltree::document::{Document, OwnedDeclarationNode, OwnedDocument};
use xmltree::node::name::OwnedNodeName;
use xmltree::node::tag::{OwnedNodeAttribute, OwnedTagNode};
use xmltree::node::text::OwnedTextNode;
use xmltree::node::OwnedNode;

#[test]
fn test_write_xml_with_declaration() {
    let xml = r#"<?xml version="1.0" encoding="UTF-8" standalone="yes" ?><root />"#;
    let document = Document::parse_str(xml).unwrap();
    let xml2 = document.to_xml(None).unwrap();
    assert!(xml2.contains(r#"<?xml version="1.0" encoding="UTF-8" standalone="true" ?>"#));
}

#[test]
fn test_write_xml_without_declaration() {
    let xml = "<root />\n";
    let document = Document::parse_str(xml).unwrap();
    let xml2 = document.to_xml(None).unwrap();
    assert_eq!(xml, xml2);
}

#[test]
fn test_write_xml_with_nested_elements() {
    let xml = "<root><child><subchild /></child></root>";
    let document = Document::parse_str(xml).unwrap();
    let xml2 = document.to_xml(None).unwrap();
    assert_eq!(
        xml2,
        "<root>\n\t<child>\n\t\t<subchild />\n\t</child>\n</root>\n"
    );
}

#[test]
fn test_write_xml_with_attributes() {
    let xml = "<root attr1=\"value1\" attr2=\"value2\" />\n";
    let document = Document::parse_str(xml).unwrap();
    let xml2 = document.to_xml(None).unwrap();
    assert_eq!(xml, xml2);
}

#[test]
fn test_write_xml_with_text_content() {
    let xml = "<root>Some text content</root>";
    let document = Document::parse_str(xml).unwrap();
    let xml2 = document.to_xml(None).unwrap();
    assert_eq!(xml2, "<root>\n\tSome text content\n</root>\n");
}

#[test]
fn test_write_xml_with_cdata() {
    let xml = "<root><![CDATA[Some <CDATA> content]]></root>";
    let document = Document::parse_str(xml).unwrap();
    let xml2 = document.to_xml(None).unwrap();
    assert!(xml2.contains("<![CDATA[Some &lt;CDATA&gt; content]]>"));
}

#[test]
fn test_write_xml_with_comment() {
    let xml = "<root><!-- This is a comment --></root>";
    let document = Document::parse_str(xml).unwrap();
    let xml2 = document.to_xml(None).unwrap();
    assert!(xml2.contains("<!-- This is a comment -->"));
}

#[test]
fn test_write_xml_with_processing_instruction() {
    let xml = "<root><?pi target?></root>";
    let document = Document::parse_str(xml).unwrap();
    let xml2 = document.to_xml(None).unwrap();
    assert!(xml2.contains("<?pi target?>"));
}

#[test]
fn test_write_xml_with_doctype() {
    let xml = "<!DOCTYPE root><root />";
    let document = Document::parse_str(xml).unwrap();
    let xml2 = document.to_xml(None).unwrap();
    assert!(xml2.contains("<!DOCTYPE root>"));
}

#[test]
fn test_write_xml_with_entities() {
    let xml = r#"<!DOCTYPE root [<!ENTITY example "example value">]><root>&example;</root>"#;
    let document = Document::parse_str(xml).unwrap();
    let xml2 = document.to_xml(None).unwrap();
    assert_eq!(
        xml2,
        "<!DOCTYPE root [\n\t<!ENTITY example \"example value\">\n]>\n<root>\n\t&amp;example;\n</root>\n"
    );
}

const GOOD: &str = r#"<?xml version="1.0" encoding="UTF-8"?>
<!DOCTYPE bookstore SYSTEM "bookstore.dtd" [
    <!ENTITY pub "Publisher">
    <!ENTITY ext PUBLIC "-//X//Y" "ext.ent">
]>
<!-- A small shop -->
<bookstore name="Corner &amp; Co" xm:id="7">
    <book category="cooking">
        <title lang="en">Everyday Italian</title>
        <?stock 12?>
        <price>30.00</price>
    </book>
    <book category="web" category="cover">
        <![CDATA[<raw>]]>
        <note/>
    </book>
</bookstore>
<!-- the end -->
"#;

const GOOD_PARSED: &str = "<?xml version=\"1.0\" encoding=\"UTF-8\" ?>\n<!DOCTYPE bookstore SYSTEM \"bookstore.dtd\" [\n\t<!ENTITY pub \"Publisher\">\n\t<!ENTITY ext PUBLIC \"-//X//Y\" \"ext.ent\">\n]>\n<!-- A small shop -->\n<bookstore name=\"Corner &amp;amp; Co\" xm:id=\"7\">\n\t<book category=\"cooking\">\n\t\t<title lang=\"en\">\n\t\t\tEveryday Italian\n\t\t</title>\n\t\t<?stock 12?>\n\t\t<price>\n\t\t\t30.00\n\t\t</price>\n\t</book>\n\t<book category=\"web\" category=\"cover\">\n\t\t<![CDATA[&lt;raw&gt;]]>\n\t\t<note />\n\t</book>\n</bookstore>\n<!-- the end -->\n";

#[test]
fn test_good() {
    let document = match Document::parse_str(GOOD) {
        Ok(doc) => doc,
        Err(e) => panic!("{}", e.render()),
    };

    let str = document.to_xml(None).unwrap();
    if str != GOOD_PARSED {
        let mut src_lines = str.lines();
        for (i, line) in GOOD_PARSED.lines().enumerate() {
            match src_lines.next() {
                None => {
                    panic!(
                        "Diff at line {}: Not enough rows in parsed document!",
                        i + 1
                    );
                }

                Some(l) => {
                    if line == l {
                        continue;
                    } else {
                        println!("Diff at line {}", i + 1);
                        println!("Expected: {line}");
                        println!("Got: {l}");
                        break;
                    }
                }
            }
        }

        panic!("Parsed document does not match expected output");
    }
}

#[test]
fn test_encode() {
    let document = match Document::parse_str(GOOD) {
        Ok(doc) => doc,
        Err(e) => panic!("{}", e.render()),
    };

    let bytes = document.to_bin().unwrap();
    let document2 = Document::from_bin(&bytes).expect("Could not decode document");

    assert_eq!(document, document2);
}

#[test]
fn test_bin() {
    let src = "<test><test2>test</test2></test>";
    let doc = Document::parse_str(src).unwrap();
    let doc2 = doc.to_owned();
    let borrowed_bin = doc.to_bin().unwrap();
    let owned_bin = doc2.to_bin().unwrap();

    // Borrowed -> borrowed
    let borrowed_doc = Document::from_bin(&borrowed_bin).unwrap();
    assert_eq!(borrowed_doc, doc);

    // Borrowed -> owned
    let owned_doc = OwnedDocument::from_bin(&borrowed_bin).unwrap();
    assert_eq!(owned_doc, doc2);

    // Owned -> borrowed
    let borrowed_doc = Document::from_bin(&owned_bin).unwrap();
    assert_eq!(
        borrowed_doc.to_owned().borrowed(),
        doc.to_owned().borrowed()
    );

    // Owned -> owned
    let owned_doc = OwnedDocument::from_bin(&owned_bin).unwrap();
    assert_eq!(owned_doc, doc2);
}

#[test]
fn formatted_text_parses_to_the_same_content() {
    let first = Document::parse_str(GOOD).unwrap();
    let text = first.to_xml(None).unwrap();
    let second = Document::parse_str(&text).unwrap();
    let again = second.to_xml(None).unwrap();
    // Escaping is applied once more on every pass, so the comparison is
    // made on a document without characters that are escaped.
    let plain = "<a x=\"1\"><b>text</b><!--c--><c/>  tail </a>";
    let one = Document::parse_str(plain).unwrap();
    let written = one.to_xml(Some(" ")).unwrap();
    let two = Document::parse_str(&written).unwrap();
    assert_eq!(one.to_owned(), two.to_owned());
    assert_eq!(written, two.to_xml(Some(" ")).unwrap());
    assert!(again.len() >= text.len());
}

#[test]
fn owned_documents_are_written_the_same() {
    let mut root = OwnedTagNode::new(OwnedNodeName::new(None, "root"));
    root.attributes
        .push(OwnedNodeAttribute::new(OwnedNodeName::new(Some("xm"), "foo"), "bar"));
    root.children.push(OwnedNode::Text(OwnedTextNode::new("a < b")));
    let mut document = OwnedDocument::new(root);
    document.declaration = Some(OwnedDeclarationNode::new("1.0", Some("UTF-8"), None));
    assert_eq!(
        document.to_xml(Some("  ")).unwrap(),
        "<?xml version=\"1.0\" encoding=\"UTF-8\" ?>\n<root xm:foo=\"bar\">\n  a &lt; b\n</root>\n"
    );
    let bin = document.to_bin().unwrap();
    assert_eq!(&bin[..4], b"XML2");
    assert_eq!(OwnedDocument::from_bin(&bin).unwrap(), document);
}

#[test]
fn a_tag_before_the_root_writes_nothing() {
    let doc = Document::parse_str("<a/>").unwrap();
    let owned = doc.to_owned();
    let mut odd = owned.clone();
    odd.prolog.push(OwnedNode::Tag(OwnedTagNode::new(OwnedNodeName::new(None, "x"))));
    assert_eq!(odd.to_xml(None).unwrap(), owned.to_xml(None).unwrap());
}

#[test]
fn a_document_is_added_to_a_buffer() {
    let doc = Document::parse_str("<a>ü</a>").unwrap();
    let mut buffer = b"> ".to_vec();
    doc.to_xml_with_writer(&mut buffer, Some("")).unwrap();
    assert_eq!(String::from_utf8(buffer).unwrap(), format!("> {}", doc.to_xml(Some("")).unwrap()));
    let mut buffer = Vec::new();
    doc.to_owned().to_xml_with_writer(&mut buffer, None).unwrap();
    assert_eq!(buffer, doc.to_xml(None).unwrap().into_bytes());
}

#[test]
fn white_space_is_what_the_standard_library_trims() {
    let near = 0..=0x3100u32;
    let far = (0x3101..=0x10FFFFu32).step_by(97);
    for code in near.chain(far) {
        let Some(c) = char::from_u32(code) else { continue };
        let text = format!("<a>{c}x{c}</a>");
        if c == '<' || c == '&' || code < 0x20 && !c.is_whitespace() {
            continue;
        }
        let Ok(doc) = Document::parse_str(&text) else { continue };
        let kept = match doc.root().children().first() {
            Some(xmltree::node::Node::Text(t)) => t.text().text().to_string(),
            _ => String::new(),
        };
        if c.is_whitespace() {
            assert_eq!(kept, "x", "U+{code:04X}");
        } else {
            assert_eq!(kept, format!("{c}x{c}"), "U+{code:04X}");
        }
    }
}
