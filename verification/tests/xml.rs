use jpv_lib::xml::{read_element, Chars, Item, Reader, XmlError};

#[derive(Debug, PartialEq, Eq)]
enum Seen {
    Open(String, Vec<(String, String)>),
    Text(String),
    Close(String),
}

fn seen(item: &Item<'_>) -> Seen {
    match item {
        Item::Open(name, attributes) => Seen::Open(
            name.to_string(),
            attributes.iter().map(|a| (a.name.to_string(), a.value.as_str().to_string())).collect(),
        ),
        Item::Text(text) => Seen::Text(text.as_str().to_string()),
        Item::Close(name) => Seen::Close(name.to_string()),
    }
}

fn open(name: &str, attributes: &[(&str, &str)]) -> Seen {
    Seen::Open(
        name.to_string(),
        attributes.iter().map(|(n, v)| (n.to_string(), v.to_string())).collect(),
    )
}

fn text(text: &str) -> Seen {
    Seen::Text(text.to_string())
}

fn close(name: &str) -> Seen {
    Seen::Close(name.to_string())
}

fn all(input: &[u8], entities: &[(&str, &str)], strict: bool) -> Result<Vec<Seen>, XmlError> {
    let mut reader = Reader::new(input, entities, strict);
    let mut items = Vec::new();
    loop {
        match reader.next()? {
            Some(item) => items.push(seen(&item)),
            None => return Ok(items),
        }
    }
}

#[test]
fn elements_text_and_attributes() {
    let items = all(b"<a x=\"1\" y = '2'>hi<b/> there</a>", &[], true).unwrap();
    assert_eq!(
        items,
        vec![
            open("a", &[("x", "1"), ("y", "2")]),
            text("hi"),
            open("b", &[]),
            close("b"),
            text(" there"),
            close("a"),
        ]
    );
}

#[test]
fn whitespace_in_text_is_kept() {
    let items = all(b"<a>  x \n y\t</a>", &[], true).unwrap();
    assert_eq!(items, vec![open("a", &[]), text("  x \n y\t"), close("a")]);
    let items = all(b"<a> </a>", &[], true).unwrap();
    assert_eq!(items, vec![open("a", &[]), text(" "), close("a")]);
}

#[test]
fn prolog_and_epilog_are_passed_over() {
    let input = "<?xml version=\"1.0\" encoding=\"UTF-8\"?>\n<!-- a > comment -->\n<!DOCTYPE JMdict [\n<!ELEMENT JMdict (entry*)>\n<!ENTITY n \"noun ]> (common)\">\n<!-- it's ]> here -->\n]>\n<JMdict>\n</JMdict>\n<!-- end -->\n";
    let items = all(input.as_bytes(), &[], true).unwrap();
    assert_eq!(items, vec![open("JMdict", &[]), text("\n"), close("JMdict")]);
}

#[test]
fn a_document_type_without_a_subset() {
    let items = all(b"<!DOCTYPE html PUBLIC \"-//W3C//DTD > 1\" 'x'><r/>", &[], true).unwrap();
    assert_eq!(items, vec![open("r", &[]), close("r")]);
}

#[test]
fn references_are_replaced() {
    let entities = [("n", "noun (common)"), ("v1", "v1")];
    let items = all(
        "<r a=\"&lt;&quot;&n;\">&n; &amp; &#x41;&#66;&#x3042;&apos;&gt;&v1;</r>".as_bytes(),
        &entities,
        true,
    )
    .unwrap();
    assert_eq!(
        items,
        vec![
            open("r", &[("a", "<\"noun (common)")]),
            text("noun (common) & ABあ'>v1"),
            close("r"),
        ]
    );
}

#[test]
fn the_first_entity_of_a_name_counts() {
    let entities = [("n", "one"), ("n", "two")];
    let items = all(b"<r>&n;</r>", &entities, true).unwrap();
    assert_eq!(items[1], text("one"));
}

#[test]
fn an_unknown_entity() {
    assert_eq!(all(b"<r>a &uk; b</r>", &[], true), Err(XmlError::UnknownEntity));
    let items = all(b"<r>a &uk; b</r>", &[], false).unwrap();
    assert_eq!(items[1], text("a &uk; b"));
}

#[test]
fn references_that_are_wrong() {
    assert_eq!(all(b"<r>&#xD800;</r>", &[], false), Err(XmlError::Malformed));
    assert_eq!(all(b"<r>&#x110000;</r>", &[], false), Err(XmlError::Malformed));
    assert_eq!(all(b"<r>&#;</r>", &[], false), Err(XmlError::Malformed));
    assert_eq!(all(b"<r>&#12a;</r>", &[], false), Err(XmlError::Malformed));
    assert_eq!(all(b"<r>&#x;</r>", &[], false), Err(XmlError::Malformed));
    assert_eq!(all(b"<r>&amp</r>", &[], false), Err(XmlError::Malformed));
    assert_eq!(all(b"<r>&#00000000000000000000065;</r>", &[], false).unwrap()[1], text("A"));
    assert_eq!(all(b"<r>&#x10FFFF;</r>", &[], false).unwrap()[1], text("\u{10FFFF}"));
}

#[test]
fn text_without_a_reference_is_a_slice_of_the_document() {
    let input = "<r>plain</r><!-- -->";
    let mut reader = Reader::new(input.as_bytes(), &[], true);
    reader.next().unwrap();
    match reader.next().unwrap().unwrap() {
        Item::Text(Chars::Raw(text)) => {
            assert_eq!(text, "plain");
            assert_eq!(text.as_ptr(), input[3..].as_ptr());
        }
        other => panic!("{other:?}"),
    }
    let mut reader = Reader::new(b"<r>a&amp;b</r>", &[], true);
    reader.next().unwrap();
    match reader.next().unwrap().unwrap() {
        Item::Text(Chars::Made(text)) => assert_eq!(text, "a&b"),
        other => panic!("{other:?}"),
    }
}

#[test]
fn names_are_local() {
    let items = all(b"<x:a y:b=\"c\" xmlns:x=\"u\"><x:y:z/></x:a>", &[], true).unwrap();
    assert_eq!(
        items,
        vec![open("a", &[("b", "c"), ("x", "u")]), open("z", &[]), close("z"), close("a")]
    );
    assert_eq!(all(b"<x:a></y:a>", &[], true), Err(XmlError::Malformed));
}

#[test]
fn truncated_documents() {
    assert_eq!(all(b"", &[], true), Err(XmlError::Truncated));
    assert_eq!(all(b"  \n", &[], true), Err(XmlError::Truncated));
    assert_eq!(all(b"<a>", &[], true), Err(XmlError::Truncated));
    assert_eq!(all(b"<a>text", &[], true), Err(XmlError::Truncated));
    assert_eq!(all(b"<a", &[], true), Err(XmlError::Truncated));
    assert_eq!(all(b"<a b", &[], true), Err(XmlError::Truncated));
    assert_eq!(all(b"<a b=", &[], true), Err(XmlError::Truncated));
    assert_eq!(all(b"<a b=\"c", &[], true), Err(XmlError::Truncated));
    assert_eq!(all(b"<a/", &[], true), Err(XmlError::Truncated));
    assert_eq!(all(b"<a></a", &[], true), Err(XmlError::Truncated));
    assert_eq!(all(b"<", &[], true), Err(XmlError::Truncated));
    assert_eq!(all(b"<!-- never closed", &[], true), Err(XmlError::Truncated));
    assert_eq!(all(b"<?xml never closed", &[], true), Err(XmlError::Truncated));
    assert_eq!(all(b"<!DOCTYPE a [ <!ENTITY b \"c\"> ", &[], true), Err(XmlError::Truncated));
}

#[test]
fn malformed_documents() {
    assert_eq!(all(b"text<a/>", &[], true), Err(XmlError::Malformed));
    assert_eq!(all(b"<a/>text", &[], true), Err(XmlError::Malformed));
    assert_eq!(all(b"<a/><b/>", &[], true), Err(XmlError::Malformed));
    assert_eq!(all(b"<a></b>", &[], true), Err(XmlError::Malformed));
    assert_eq!(all(b"</a>", &[], true), Err(XmlError::Malformed));
    assert_eq!(all(b"<a b=c></a>", &[], true), Err(XmlError::Malformed));
    assert_eq!(all(b"<a b></a>", &[], true), Err(XmlError::Malformed));
    assert_eq!(all(b"<a / ></a>", &[], true), Err(XmlError::Malformed));
    assert_eq!(all(b"< a></a>", &[], true), Err(XmlError::Malformed));
    assert_eq!(all(b"<a><![CDATA[x]]></a>", &[], true), Err(XmlError::Malformed));
    assert_eq!(all(b"<a/><!DOCTYPE a>", &[], true), Err(XmlError::Malformed));
    assert_eq!(all(b"<a></ a>", &[], true), Err(XmlError::Malformed));
}

#[test]
fn text_must_be_utf8() {
    assert_eq!(all(b"<a>\xFF</a>", &[], true), Err(XmlError::Encoding));
    assert_eq!(all(b"<a b=\"\xC3\">x</a>", &[], true), Err(XmlError::Encoding));
    assert_eq!(all(b"<\xFF/>", &[], true), Err(XmlError::Encoding));
    assert_eq!(all(b"<a>\xFF&amp;</a>", &[], true), Err(XmlError::Encoding));
}

#[test]
fn the_reader_stays_where_the_error_is() {
    let input = b"<a>ok<b x=1/></a>";
    let mut reader = Reader::new(input, &[], true);
    assert!(reader.next().is_ok());
    assert!(reader.next().is_ok());
    assert_eq!(reader.position(), 5);
    assert_eq!(reader.next().err(), Some(XmlError::Malformed));
    assert_eq!(reader.position(), 5);
    assert_eq!(reader.depth(), 1);
    assert_eq!(reader.next().err(), Some(XmlError::Malformed));
}

#[test]
fn an_element_is_read_whole() {
    let input = b"<r><e a=\"1\">x<f>y</f><g/></e><e/>tail</r>";
    let mut reader = Reader::new(input, &[], true);
    reader.next().unwrap();
    reader.next().unwrap();
    assert_eq!(reader.depth(), 2);
    let items = read_element(&mut reader, 2).unwrap();
    let items: Vec<Seen> = items.iter().map(seen).collect();
    assert_eq!(
        items,
        vec![
            text("x"),
            open("f", &[]),
            text("y"),
            close("f"),
            open("g", &[]),
            close("g"),
            close("e"),
        ]
    );
    assert_eq!(reader.depth(), 1);
    reader.next().unwrap();
    let items = read_element(&mut reader, 2).unwrap();
    assert_eq!(items.iter().map(seen).collect::<Vec<_>>(), vec![close("e")]);
    let mut reader = Reader::new(b"<r><e>x", &[], true);
    reader.next().unwrap();
    reader.next().unwrap();
    assert_eq!(read_element(&mut reader, 2).err(), Some(XmlError::Truncated));
}
