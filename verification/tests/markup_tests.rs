use piper_speechd::markup::{flatten, parse_document, Item, Node};

fn text_of(item: &Item) -> Option<&Vec<u8>> {
    match item {
        Item::Text(t) => Some(t),
        _ => None,
    }
}

fn mark_of(item: &Item) -> Option<&Vec<u8>> {
    match item {
        Item::Mark(m) => Some(m),
        _ => None,
    }
}

#[test]
fn bare_text_parses_to_one_text_node() {
    let doc = parse_document(&b"Hello.\n".to_vec()).unwrap();
    assert_eq!(doc.len(), 1);
    match &doc[0] {
        Node::Text(t) => assert_eq!(t, &b"Hello.\n".to_vec()),
        _ => panic!("expected a text node"),
    }
}

#[test]
fn speak_region_with_mark_flattens_in_document_order() {
    let doc = parse_document(&b"<speak>Hi <mark name=\"m1\"/> there</speak>".to_vec()).unwrap();
    assert_eq!(doc.len(), 1);
    let items = flatten(&doc);
    assert_eq!(items.len(), 5);
    assert!(matches!(items[0], Item::Enter));
    assert_eq!(text_of(&items[1]), Some(&b"Hi ".to_vec()));
    assert_eq!(mark_of(&items[2]), Some(&b"m1".to_vec()));
    assert_eq!(text_of(&items[3]), Some(&b" there".to_vec()));
    assert!(matches!(items[4], Item::Leave));
}

#[test]
fn nested_speak_regions_flatten_in_order() {
    let src = b"a<speak>b<speak>c</speak>d</speak>e".to_vec();
    let doc = parse_document(&src).unwrap();
    let items = flatten(&doc);
    let texts: Vec<Vec<u8>> = items
        .iter()
        .filter_map(|i| text_of(i).cloned())
        .collect();
    assert_eq!(
        texts,
        vec![
            b"a".to_vec(),
            b"b".to_vec(),
            b"c".to_vec(),
            b"d".to_vec(),
            b"e".to_vec()
        ]
    );
}

#[test]
fn speak_attributes_are_skipped() {
    let doc = parse_document(&b"<speak version=\"1.0\">x</speak>".to_vec()).unwrap();
    let items = flatten(&doc);
    assert_eq!(items.len(), 3);
    assert_eq!(text_of(&items[1]), Some(&b"x".to_vec()));
}

#[test]
fn self_closing_speak_is_an_empty_region() {
    let doc = parse_document(&b"<speak/>".to_vec()).unwrap();
    assert_eq!(doc.len(), 1);
    let items = flatten(&doc);
    assert_eq!(items.len(), 2);
    assert!(matches!(items[0], Item::Enter));
    assert!(matches!(items[1], Item::Leave));
}

#[test]
fn unknown_tag_is_a_parse_error_at_its_position() {
    match parse_document(&b"<bogus>hi</bogus>".to_vec()) {
        Err(p) => assert_eq!(p, 0),
        Ok(_) => panic!("an unknown tag must not parse"),
    }
    match parse_document(&b"ab<bogus>".to_vec()) {
        Err(p) => assert_eq!(p, 2),
        Ok(_) => panic!("an unknown tag must not parse"),
    }
}

#[test]
fn stray_closing_tag_is_a_parse_error() {
    assert!(parse_document(&b"</speak>".to_vec()).is_err());
}

#[test]
fn unterminated_region_is_a_parse_error() {
    assert!(parse_document(&b"<speak>hi".to_vec()).is_err());
}

#[test]
fn mark_must_be_self_closing_with_a_name() {
    assert!(parse_document(&b"<mark name=\"m\">".to_vec()).is_err());
    assert!(parse_document(&b"<mark/>".to_vec()).is_err());
    let doc = parse_document(&b"<mark name=\"m\" />".to_vec()).unwrap();
    let items = flatten(&doc);
    assert_eq!(items.len(), 1);
    assert_eq!(mark_of(&items[0]), Some(&b"m".to_vec()));
}
