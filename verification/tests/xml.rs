use apr::pool::Pool;
use apr::status::Status;
use apr::xml::{
    parse, parse_xml, validate, XmlDoc, XmlName, XmlParser, XmlRawAttr, XmlToken,
    APR_XML_X2T_FULL, APR_XML_X2T_INNER, APR_XML_X2T_LANG_INNER,
};

#[test]
fn test_parse_simple_xml() {
    let pool = Pool::new();
    let xml = r#"<?xml version="1.0"?><root><child>Hello</child></root>"#;

    match parse_xml(xml, &pool) {
        Ok(doc) => {
            if let Some(root) = doc.root() {
                assert_eq!(root.name(), "root");

                if let Some(child) = root.first_child() {
                    assert_eq!(child.name(), "child");
                    assert_eq!(child.text(), Some("Hello"));
                }
            }
        }
        Err(_) => {}
    }
}

#[test]
fn test_parse_xml_with_attributes() {
    let pool = Pool::new();
    let xml = r#"<?xml version="1.0"?><root id="1" name="test"/>"#;

    match parse_xml(xml, &pool) {
        Ok(doc) => {
            if let Some(root) = doc.root() {
                let mut attrs = Vec::new();
                let mut it = root.attributes();
                while let Some(a) = it.next() {
                    attrs.push(a);
                }
                assert!(!attrs.is_empty());

                let attr_names: Vec<_> = attrs.iter().map(|a| a.name()).collect();
                assert!(attr_names.contains(&"id"));
                assert!(attr_names.contains(&"name"));

                if let Some(id_attr) = attrs.iter().find(|a| a.name() == "id") {
                    assert_eq!(id_attr.value(), "1");
                }
                if let Some(name_attr) = attrs.iter().find(|a| a.name() == "name") {
                    assert_eq!(name_attr.value(), "test");
                }
            }
        }
        Err(_) => {}
    }
}

#[test]
fn test_xml_parser_feed() {
    let pool = Pool::new();

    if let Ok(mut parser) = XmlParser::new(&pool) {
        let xml_part1 = b"<?xml version=\"1.0\"?>";
        let xml_part2 = b"<root><child>Test</child></root>";

        assert!(parser.feed(xml_part1).is_ok());
        assert!(parser.feed(xml_part2).is_ok());

        match parser.done() {
            Ok(doc) => {
                assert!(doc.root().is_some());
            }
            Err(_) => {}
        }
    }
}

#[test]
fn test_xml_children_iterator() {
    let pool = Pool::new();
    let xml = r#"<?xml version="1.0"?><root><a/><b/><c/></root>"#;

    match parse_xml(xml, &pool) {
        Ok(doc) => {
            if let Some(root) = doc.root() {
                let mut children = Vec::new();
                let mut it = root.children();
                while let Some(elem) = it.next() {
                    children.push(elem.name().to_string());
                }
                assert_eq!(children, vec!["a", "b", "c"]);
            }
        }
        Err(_) => {}
    }
}

#[test]
fn test_parse_writes_back() {
    let pool = Pool::new();
    let xml = r#"<?xml version="1.0"?><root><child>Hello</child></root>"#;
    assert_eq!(parse(xml, &pool).unwrap(), "<root><child>Hello</child></root>");
    // Attributes come last written first; text after a child stays after it.
    assert_eq!(
        parse(r#"<r a="1" b="2"><x/>tail<y>t</y></r>"#, &pool).unwrap(),
        r#"<r b="2" a="1"><x/>tail<y>t</y></r>"#
    );
    // Namespaces are numbered in the order they are met.
    assert_eq!(
        parse(r#"<p:a xmlns:p="urn:p" xmlns:q="urn:q"><q:b q:k="v"/></p:a>"#, &pool).unwrap(),
        r#"<ns0:a><ns1:b ns1:k="v"/></ns0:a>"#
    );
    // A namespace counts from where it is declared, used or not.
    assert_eq!(
        parse(r#"<a xmlns:u="urn:u"><b xmlns="urn:d"/></a>"#, &pool).unwrap(),
        r#"<a><ns1:b/></a>"#
    );
    // xml:lang is kept apart and written quoted, on the root and where a child sets its own.
    assert_eq!(
        parse(r#"<a xml:lang="en&amp;"><b/><c xml:lang="fr"/></a>"#, &pool).unwrap(),
        r#"<a xml:lang="en&amp;"><b/><c xml:lang="fr"/></a>"#
    );
}

#[test]
fn test_to_string_styles() {
    let pool = Pool::new();
    let doc = parse_xml(r#"<a xml:lang="en">x<b/>y</a>"#, &pool).unwrap();
    assert_eq!(doc.to_string(&pool, APR_XML_X2T_FULL).unwrap(), r#"<a xml:lang="en">x<b/>y</a>"#);
    assert_eq!(doc.to_string(&pool, APR_XML_X2T_INNER).unwrap(), "x<b/>y");
    assert_eq!(doc.to_string(&pool, APR_XML_X2T_LANG_INNER).unwrap(), "en");
}

#[test]
fn test_validate_and_errors() {
    assert!(validate("<a><b/></a>").is_ok());
    assert_eq!(validate("<a><b></a>").err().unwrap().status(), Status::General);
    assert!(validate("").is_err());
    assert!(validate("<a>").is_err());
    let pool = Pool::new();
    let mut parser = XmlParser::new(&pool).unwrap();
    parser.feed(b"<a><b></a>").unwrap();
    assert!(parser.get_error().is_some());
    let mut parser = XmlParser::new(&pool).unwrap();
    parser.feed(b"<a/>").unwrap();
    assert!(parser.get_error().is_none());
}

#[test]
fn test_navigation() {
    let pool = Pool::new();
    let doc = parse_xml("<r><a>1</a><b/></r>", &pool).unwrap();
    let root = doc.root().unwrap();
    assert_eq!(root.namespace(), Some(""));
    assert!(root.next().is_none());
    assert!(root.first_attr().is_none());
    assert!(root.text().is_none());
    let a = root.first_child().unwrap();
    assert_eq!(a.text(), Some("1"));
    let b = a.next().unwrap();
    assert_eq!(b.name(), "b");
    assert!(b.next().is_none());
    assert!(b.first_child().is_none());
}

fn name(local: &str) -> XmlName {
    XmlName { prefix: None, local: local.to_string(), uri: None }
}

#[test]
fn test_from_tokens() {
    let pool = Pool::new();
    let tokens = vec![
        XmlToken::Other,
        XmlToken::Start(
            name("r"),
            vec![XmlRawAttr { name: name("k"), value: "v".to_string() }],
            vec![],
        ),
        XmlToken::Text("hi".to_string()),
        XmlToken::Start(name("c"), vec![], vec![]),
        XmlToken::End,
        XmlToken::Text("after".to_string()),
        XmlToken::End,
        XmlToken::Done,
    ];
    let doc = XmlDoc::from_tokens(&tokens).unwrap();
    assert_eq!(doc.to_string(&pool, APR_XML_X2T_FULL).unwrap(), r#"<r k="v">hi<c/>after</r>"#);
    // A second root, an unclosed element, or no end all fail.
    let two_roots = vec![
        XmlToken::Start(name("a"), vec![], vec![]),
        XmlToken::End,
        XmlToken::Start(name("b"), vec![], vec![]),
        XmlToken::End,
        XmlToken::Done,
    ];
    assert!(XmlDoc::from_tokens(&two_roots).is_err());
    let unclosed = vec![XmlToken::Start(name("a"), vec![], vec![]), XmlToken::Done];
    assert!(XmlDoc::from_tokens(&unclosed).is_err());
    let no_end = vec![XmlToken::Start(name("a"), vec![], vec![]), XmlToken::End];
    assert!(XmlDoc::from_tokens(&no_end).is_err());
}
