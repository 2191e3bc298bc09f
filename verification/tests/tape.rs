use slurpjson::access::StorageAccess;
use slurpjson::parser::{buffer_size, count_buffer_size, parent_summary_buffer_size};
use slurpjson::{Parser, Tape, TapeEntry, TokenKind};

#[test]
fn token_kind_codes_round_trip() {
    for raw in 0u32..20 {
        let kind = TokenKind::from(raw);
        assert_eq!(u32::from(kind), raw);
    }
    assert_eq!(TokenKind::from(1), TokenKind::LeftBrace);
    assert_eq!(TokenKind::from(12), TokenKind::Invalid);
    assert_eq!(TokenKind::from(13), TokenKind::Unknown(13));
    assert_eq!(u32::from(TokenKind::Null), 11);
    // an unknown kind carrying a named code does not come back as itself
    assert_eq!(TokenKind::from(u32::from(TokenKind::Unknown(1))), TokenKind::LeftBrace);
}

#[test]
fn token_kind_predicates() {
    assert!(TokenKind::LeftBrace.is_open());
    assert!(TokenKind::LeftBracket.is_open());
    assert!(!TokenKind::RightBrace.is_open());
    assert!(TokenKind::RightBracket.is_close());
    assert!(!TokenKind::Comma.is_close());
    assert!(TokenKind::Colon.is_separator());
    assert!(!TokenKind::String.is_separator());
    assert!(TokenKind::Invalid.is_scalar());
    assert!(TokenKind::Number.is_scalar());
    assert!(!TokenKind::Unknown(40).is_scalar());
    assert_eq!(TokenKind::LeftBrace.as_byte(), Some(b'{'));
    assert_eq!(TokenKind::RightBracket.as_byte(), Some(b']'));
    assert_eq!(TokenKind::Comma.as_byte(), Some(b','));
    assert_eq!(TokenKind::True.as_byte(), None);
    assert_eq!(TokenKind::Unknown(123).as_byte(), None);
}

#[test]
fn tape_entry_accessors() {
    let e = TapeEntry::new(2, 7, 2, -1, TokenKind::String);
    assert_eq!(e.byte_pos(), 2);
    assert_eq!(e.byte_end(), 7);
    assert_eq!(e.byte_range(), 2..7);
    assert_eq!(e.depth(), 2);
    assert_eq!(e.parent(), -1);
    assert_eq!(e.parent_index(), None);
    assert_eq!(e.token_kind(), TokenKind::String);
    assert_eq!(e.source(b"ab\"xyz\"!!"), Some(b"\"xyz\"".as_slice()));
    assert_eq!(e.source(b"short"), None);

    let child = TapeEntry::new(0, 1, 0, 4, TokenKind::Comma);
    assert_eq!(child.parent_index(), Some(4));
}

#[test]
fn tape_lookups() {
    let tape = Tape::new(vec![
        TapeEntry::new(0, 1, 1, -1, TokenKind::LeftBracket),
        TapeEntry::new(1, 2, 1, 0, TokenKind::Number),
        TapeEntry::new(2, 3, 0, 0, TokenKind::RightBracket),
        TapeEntry::new(3, 4, 0, 9, TokenKind::Comma),
    ]);
    assert_eq!(tape.len(), 4);
    assert!(!tape.is_empty());
    assert_eq!(tape.root().unwrap().token_kind(), TokenKind::LeftBracket);
    assert_eq!(tape.get(1).unwrap().token_kind(), TokenKind::Number);
    assert!(tape.get(4).is_none());
    assert_eq!(tape.parent_of(1).unwrap().token_kind(), TokenKind::LeftBracket);
    assert!(tape.parent_of(0).is_none());
    assert!(tape.parent_of(3).is_none());
    assert!(tape.parent_of(10).is_none());
    assert_eq!(tape.as_slice().len(), 4);
    assert_eq!(tape.entries()[2].token_kind(), TokenKind::RightBracket);

    let empty = Tape::default();
    assert!(empty.is_empty());
    assert!(empty.root().is_none());

    let from_vec: Tape = Tape::from(tape.clone().into_entries());
    assert_eq!(from_vec, tape);
}

#[test]
fn tape_iter_tracks_depth() {
    let tape = Parser::try_new().unwrap().parse_str("[[1]]").unwrap();
    let mut it = tape.iter();
    assert_eq!(it.current_depth(), 0);
    assert_eq!(it.len(), 5);
    assert_eq!(it.size_hint(), (5, Some(5)));
    let mut depths = Vec::new();
    while let Some(e) = it.next() {
        assert_eq!(it.current_depth() as i32, e.depth());
        depths.push(it.current_depth());
    }
    assert_eq!(depths, vec![1, 2, 2, 1, 0]);
    assert_eq!(it.len(), 0);
    let copy = it.clone();
    assert_eq!(copy.current_depth(), 0);

    let negative = Tape::new(vec![TapeEntry::new(0, 1, -1, -1, TokenKind::RightBrace)]);
    let mut it = negative.iter();
    it.next();
    assert_eq!(it.current_depth(), 0);
}

#[test]
fn storage_access_flags() {
    assert!(StorageAccess::read().is_read_only());
    assert!(!StorageAccess::write().is_read_only());
    assert!(!(StorageAccess::read() | StorageAccess::write()).is_read_only());
    assert_eq!(StorageAccess::read() | StorageAccess::read(), StorageAccess::read());
}

#[test]
fn buffer_sizes() {
    assert_eq!(buffer_size(4), 1024);
    assert_eq!(buffer_size(16), 4096);
    assert_eq!(count_buffer_size(), 4);
    assert_eq!(parent_summary_buffer_size(), 256 * 3080);
}

#[test]
fn tape_entry_debug_names_the_kind() {
    let e = TapeEntry::new(0, 1, 1, -1, TokenKind::LeftBrace);
    assert_eq!(
        format!("{:?}", e),
        "TapeEntry { byte_pos: 0, byte_end: 1, depth: 1, parent: -1, token_kind: LeftBrace }"
    );
    // an unknown kind carrying a named code reads back as that named kind
    let u = TapeEntry::new(0, 1, 0, -1, TokenKind::Unknown(1));
    assert_eq!(u.token_kind(), TokenKind::LeftBrace);
    assert_eq!(u, TapeEntry::new(0, 1, 0, -1, TokenKind::LeftBrace));
}

#[test]
fn tape_iter_collects_every_entry_in_order() {
    let tape = Parser::try_new().unwrap().parse_str(r#"{"a":[1]}"#).unwrap();
    let all = tape.iter().collect();
    assert_eq!(all.len(), tape.len());
    for (k, e) in all.iter().enumerate() {
        assert!(std::ptr::eq(*e, &tape.as_slice()[k]));
    }
    let mut it = tape.iter();
    it.next();
    it.next();
    assert_eq!(it.size_hint(), (tape.len() - 2, Some(tape.len() - 2)));
    let rest = it.clone().collect();
    assert_eq!(rest.len(), tape.len() - 2);
    assert!(std::ptr::eq(rest[0], &tape.as_slice()[2]));
    while it.next().is_some() {}
    assert!(it.next().is_none());
    assert_eq!(it.size_hint(), (0, Some(0)));
}
