use slurpjson::{ParseError, Parser, TokenKind, MAX_INPUT_BYTES};

#[test]
fn test_basic_json() {
    let Ok(parser) = Parser::try_new() else {
        return;
    };

    let tape = parser.parse_str(r#"{"foo":"bar"}"#).unwrap();
    let mut entries = Vec::new();
    let mut it = tape.iter();
    while let Some(e) = it.next() {
        entries.push(*e);
    }

    let expected = [
        (0, 1, 1, -1, TokenKind::LeftBrace),
        (1, 6, 1, 0, TokenKind::String),
        (6, 7, 1, 0, TokenKind::Colon),
        (7, 12, 1, 0, TokenKind::String),
        (12, 13, 0, 0, TokenKind::RightBrace),
    ];
    assert_eq!(entries.len(), expected.len());
    for (e, (pos, end, depth, parent, kind)) in entries.iter().zip(expected.iter()) {
        assert_eq!(e.byte_pos(), *pos);
        assert_eq!(e.byte_end(), *end);
        assert_eq!(e.depth(), *depth);
        assert_eq!(e.parent(), *parent);
        assert_eq!(e.token_kind(), *kind);
    }
}

#[test]
fn test_mismatched_delimiters_error() {
    let Ok(parser) = Parser::try_new() else {
        return;
    };

    let err = parser.parse_str("{]").unwrap_err();

    assert_eq!(err.to_string(), "mismatched json delimiters");
}

#[test]
fn input_too_large_is_refused() {
    let parser = Parser::try_new().unwrap();
    assert_eq!(parser.max_input_bytes(), MAX_INPUT_BYTES);
    let big = vec![b' '; MAX_INPUT_BYTES + 1];
    let err = parser.parse_bytes(&big).unwrap_err();
    assert_eq!(err, ParseError::InputTooLarge);
    assert_eq!(err.to_string(), "input is too large, max len: 256 (for now)");

    let just_fits = vec![b' '; MAX_INPUT_BYTES];
    let tape = parser.parse_bytes(&just_fits).unwrap();
    assert!(tape.is_empty());
}

#[test]
fn unmatched_delimiters_are_refused() {
    let parser = Parser::try_new().unwrap();
    assert_eq!(parser.parse_str("}").unwrap_err(), ParseError::MismatchedDelimiters);
    assert_eq!(parser.parse_str("[1,2").unwrap_err(), ParseError::MismatchedDelimiters);
    assert_eq!(parser.parse_str("[}").unwrap_err(), ParseError::MismatchedDelimiters);
    // delimiters inside strings do not count
    assert!(parser.parse_str(r#"["{]"]"#).is_ok());
}

#[test]
fn parse_and_parse_bytes_agree() {
    let parser = Parser::try_new().unwrap();
    let a = parser.parse(b"[true, null]").unwrap();
    let b = parser.parse_bytes(b"[true, null]").unwrap();
    let c = parser.parse_str("[true, null]").unwrap();
    assert_eq!(a, b);
    assert_eq!(b, c);
    let kinds: Vec<TokenKind> = a.entries().iter().map(|e| e.token_kind()).collect();
    assert_eq!(
        kinds,
        vec![
            TokenKind::LeftBracket,
            TokenKind::True,
            TokenKind::Comma,
            TokenKind::Null,
            TokenKind::RightBracket
        ]
    );
}

#[test]
fn scalar_kinds_and_ends() {
    let parser = Parser::try_new().unwrap();
    let tape = parser.parse_str("[truex, nul, -3, 12.5, abc, \"s\"]").unwrap();
    let got: Vec<(usize, usize, TokenKind)> = tape
        .entries()
        .iter()
        .map(|e| (e.byte_pos(), e.byte_end(), e.token_kind()))
        .collect();
    assert_eq!(
        got,
        vec![
            (0, 1, TokenKind::LeftBracket),
            (1, 6, TokenKind::Invalid),
            (6, 7, TokenKind::Comma),
            (8, 11, TokenKind::Invalid),
            (11, 12, TokenKind::Comma),
            (13, 15, TokenKind::Number),
            (15, 16, TokenKind::Comma),
            (17, 21, TokenKind::Number),
            (21, 22, TokenKind::Comma),
            (23, 26, TokenKind::Invalid),
            (26, 27, TokenKind::Comma),
            (28, 31, TokenKind::String),
            (31, 32, TokenKind::RightBracket),
        ]
    );
}

#[test]
fn unterminated_string_runs_to_the_end() {
    let parser = Parser::try_new().unwrap();
    let tape = parser.parse_str("\"ab").unwrap();
    assert_eq!(tape.len(), 1);
    let e = tape.root().unwrap();
    assert_eq!(e.byte_range(), 0..3);
    assert_eq!(e.token_kind(), TokenKind::String);
}
