use slurpjson::{Document, Parser, ValueKind};

#[test]
fn test_raw() {
    let source = br#"{"foo":"bar"}"#;

    let p = Parser::try_new().unwrap();
    let t = p.parse_bytes(source).unwrap();

    let document = Document::new(source, &t);

    assert_eq!(document.root().raw(), br#"{"foo":"bar"}"#);
}

#[test]
fn test_object_entries() {
    let source = br#"{"foo":"bar"}"#;

    let p = Parser::try_new().unwrap();
    let t = p.parse_bytes(source).unwrap();

    let document = Document::new(source, &t);

    let entries = document.root().object_entries().unwrap().collect();

    assert_eq!(entries.len(), 1);

    let (key, value) = entries[0];

    assert!(matches!(value.kind(), ValueKind::String));

    assert_eq!(key, "foo");
    assert_eq!(value.raw(), br#""bar""#);
}

#[test]
fn test_array_elements() {
    let source = br#"[1,"a",null]"#;

    let p = Parser::try_new().unwrap();
    let t = p.parse_bytes(source).unwrap();

    let document = Document::new(source, &t);

    let array_elements = document.root().array_elements().unwrap().collect();

    assert_eq!(array_elements.len(), 3);

    assert_eq!(array_elements[0].raw(), b"1");
    assert_eq!(array_elements[1].raw(), br#""a""#);
    assert_eq!(array_elements[2].raw(), b"null");

    let entries = document.root().object_entries();
    assert!(entries.is_none());
}

#[test]
fn test_nested() {
    let source = br#"
            {
                "foo": "bar",
                "baz": [
                    1, 2, 3, 67
                ],
                "wef": {
                    "yearn": 5
                }
            } 
        "#;

    let p = Parser::try_new().unwrap();
    let t = p.parse_bytes(source).unwrap();

    let document = Document::new(source, &t);

    let root = document.root();

    let object1 = root.object_entries().expect("is object").collect();

    assert_eq!(object1.len(), 3);

    assert_eq!(object1[0].0, "foo");
    assert_eq!(object1[1].0, "baz");
    assert_eq!(object1[2].0, "wef");

    let object1_value_kinds = object1.iter().map(|(_, v)| v.kind()).collect::<Vec<_>>();
    assert_eq!(object1_value_kinds[0], ValueKind::String);
    assert_eq!(object1_value_kinds[1], ValueKind::Array);
    assert_eq!(object1_value_kinds[2], ValueKind::Object);

    let mut array2 = object1[1].1.array_elements().expect("is array");
    assert_eq!(array2.next().map(|v| v.raw()), Some(b"1".as_slice()));
    assert_eq!(array2.next().map(|v| v.raw()), Some(b"2".as_slice()));
    assert_eq!(array2.next().map(|v| v.raw()), Some(b"3".as_slice()));
    assert_eq!(array2.next().map(|v| v.raw()), Some(b"67".as_slice()));
    assert_eq!(array2.next().map(|v| v.raw()), None);

    let mut object2 = object1[2].1.object_entries().expect("is object");
    let Some((k, v)) = object2.next() else {
        panic!("expected 1 entry")
    };

    assert_eq!(k, "yearn");
    assert_eq!(v.raw(), b"5".as_slice());
    assert!(object2.next().is_none());
}

#[test]
fn nested_raw_spans_to_the_closing_delimiter() {
    let source = br#"{"a":{"b":[1,2]},"c":true}"#;
    let t = Parser::try_new().unwrap().parse_bytes(source).unwrap();
    let document = Document::new(source, &t);

    let members = document.root().object_entries().unwrap().collect();
    assert_eq!(members.len(), 2);
    assert_eq!(members[0].0, "a");
    assert_eq!(members[0].1.raw(), br#"{"b":[1,2]}"#);
    assert_eq!(members[0].1.kind(), ValueKind::Object);
    assert_eq!(members[1].0, "c");
    assert_eq!(members[1].1.raw(), b"true");
    assert_eq!(members[1].1.kind(), ValueKind::Bool);
    assert_eq!(document.root().raw(), source.as_slice());
}

#[test]
fn value_kinds_of_scalars() {
    let source = br#"[false, -1.5e3, null, "x", true, {}, []]"#;
    let t = Parser::try_new().unwrap().parse_bytes(source).unwrap();
    let document = Document::new(source, &t);
    let mut it = document.root().array_elements().unwrap();
    let mut kinds = Vec::new();
    let mut raws = Vec::new();
    while let Some(v) = it.next() {
        kinds.push(v.kind());
        raws.push(v.raw());
    }
    assert_eq!(
        kinds,
        vec![
            ValueKind::Bool,
            ValueKind::Number,
            ValueKind::Null,
            ValueKind::String,
            ValueKind::Bool,
            ValueKind::Object,
            ValueKind::Array,
        ]
    );
    assert_eq!(raws[1], b"-1.5e3");
    assert_eq!(raws[5], b"{}");
    assert_eq!(raws[6], b"[]");
}

#[test]
fn object_keys_and_document_accessors() {
    let source = "{\"k1\": 1, \"cl\u{e9}\": [2]}";
    let t = Parser::try_new().unwrap().parse_str(source).unwrap();
    let document = Document::new(source.as_bytes(), &t);
    assert_eq!(document.source(), source.as_bytes());
    assert_eq!(document.tape().len(), t.len());

    let root = document.root();
    assert_eq!(root.tape_index(), 0);
    assert!(std::ptr::eq(root.document(), &document));
    assert!(root.array_elements().is_none());

    let mut keys = root.object_keys().unwrap();
    assert_eq!(keys.next(), Some("k1"));
    assert_eq!(keys.next(), Some("cl\u{e9}"));
    assert_eq!(keys.next(), None);
}

#[test]
fn escaped_quote_stays_inside_the_key() {
    let source = br#"{"a\"b": 1}"#;
    let t = Parser::try_new().unwrap().parse_bytes(source).unwrap();
    let document = Document::new(source, &t);
    let members = document.root().object_entries().unwrap().collect();
    assert_eq!(members.len(), 1);
    assert_eq!(members[0].0, "a\\\"b");
    assert_eq!(members[0].1.raw(), b"1");
}

#[test]
fn object_keys_are_the_keys_of_the_entries() {
    let source = br#"
            {
                "foo": "bar",
                "baz": [
                    1, 2, 3, 67
                ],
                "wef": {
                    "yearn": 5
                }
            } 
        "#;
    let t = Parser::try_new().unwrap().parse_bytes(source).unwrap();
    let document = Document::new(source, &t);
    let root = document.root();
    let keys = root.object_keys().unwrap().collect();
    assert_eq!(keys, vec!["foo", "baz", "wef"]);
    let entry_keys: Vec<&str> = root.object_entries().unwrap().collect().iter().map(|(k, _)| *k).collect();
    assert_eq!(keys, entry_keys);

    let array = root.object_entries().unwrap().collect()[1].1;
    assert!(array.object_keys().is_none());
    let elements = array.array_elements().unwrap().collect();
    let raws: Vec<&[u8]> = elements.iter().map(|v| v.raw()).collect();
    assert_eq!(raws, vec![b"1".as_slice(), b"2", b"3", b"67"]);
}
