use slurpjson::{Document, Parser, Tape, TokenKind};

const SAMPLES: &[&str] = &[
    r#"{"foo":"bar"}"#,
    r#"{"a":{"b":[1,2]}}"#,
    r#"  [ true , false, null, -12.5e+3, "x\"y", {"k": []} ]  "#,
    r#"{"cl\u00e9": "\u00e9t\u00e9", "n": [[[]]]}"#,
    "\"solo\"",
    "42",
    "",
];

fn parse(text: &str) -> Tape {
    Parser::try_new().unwrap().parse_str(text).unwrap()
}

fn is_open(k: TokenKind) -> bool {
    matches!(k, TokenKind::LeftBrace | TokenKind::LeftBracket)
}

fn is_close(k: TokenKind) -> bool {
    matches!(k, TokenKind::RightBrace | TokenKind::RightBracket)
}

fn pair(open: TokenKind, close: TokenKind) -> bool {
    matches!(
        (open, close),
        (TokenKind::LeftBrace, TokenKind::RightBrace) | (TokenKind::LeftBracket, TokenKind::RightBracket)
    )
}

#[test]
fn entries_in_order_and_disjoint() {
    for text in SAMPLES {
        let tape = parse(text);
        let e = tape.entries();
        for k in 0..e.len() {
            assert!(e[k].byte_pos() < e[k].byte_end() && e[k].byte_end() <= text.len());
            if k + 1 < e.len() {
                assert!(e[k].byte_end() <= e[k + 1].byte_pos(), "{text}");
            }
        }
    }
}

#[test]
fn parents_precede_and_open() {
    for text in SAMPLES {
        let tape = parse(text);
        let e = tape.entries();
        for k in 0..e.len() {
            match e[k].parent_index() {
                None => assert_eq!(e[k].parent(), -1),
                Some(p) => {
                    assert!(p < k);
                    assert!(is_open(e[p].token_kind()));
                }
            }
        }
    }
}

#[test]
fn closers_match_and_openers_close() {
    for text in SAMPLES {
        let tape = parse(text);
        let e = tape.entries();
        for k in 0..e.len() {
            let kind = e[k].token_kind();
            if is_close(kind) {
                let p = e[k].parent_index().unwrap();
                assert!(pair(e[p].token_kind(), kind));
            }
            if is_open(kind) {
                assert!((k + 1..e.len())
                    .any(|j| e[j].parent_index() == Some(k) && pair(kind, e[j].token_kind())));
            }
        }
    }
}

#[test]
fn depth_follows_parent() {
    for text in SAMPLES {
        let tape = parse(text);
        let e = tape.entries();
        for k in 0..e.len() {
            let parent_depth = e[k].parent_index().map_or(0, |p| e[p].depth());
            let kind = e[k].token_kind();
            let delta = if is_open(kind) {
                1
            } else if is_close(kind) {
                -1
            } else {
                0
            };
            assert_eq!(e[k].depth(), parent_depth + delta, "{text} at {k}");
        }
    }
}

#[test]
fn parsed_values_and_keys_are_readable() {
    for text in SAMPLES {
        let tape = parse(text);
        let document = Document::new(text.as_bytes(), &tape);
        if tape.is_empty() {
            continue;
        }
        let root = document.root();
        let raw = root.raw();
        assert!(!raw.is_empty());
        if let Some(members) = root.object_entries() {
            for (key, value) in members.clone().collect() {
                assert!(text.contains(key));
                let _ = value.raw();
            }
            let keys = root.object_keys().unwrap().collect();
            let entry_keys: Vec<&str> = members.collect().iter().map(|(k, _)| *k).collect();
            assert_eq!(keys, entry_keys);
        }
        if let Some(elements) = root.array_elements() {
            for value in elements.collect() {
                let _ = value.raw();
                let _ = value.kind();
            }
        }
    }
}

#[test]
fn non_ascii_key_is_decoded() {
    let text = "{\"cl\u{e9}\": 1}";
    let tape = parse(text);
    let document = Document::new(text.as_bytes(), &tape);
    let mut members = document.root().object_entries().unwrap();
    let (key, value) = members.next().unwrap();
    assert_eq!(key, "cl\u{e9}");
    assert_eq!(value.raw(), b"1");
    assert!(members.next().is_none());
}
