use slurpjson::scan::{assemble_tape, parent_link, scan_depth, scan_fsm, scan_structural};

#[test]
fn test_fsm_string_detect() {
    let input_str = r#"hello "world" end"#;
    let states = scan_fsm(input_str.as_bytes());

    //                  h  e  l  l  o     "  w  o  r  l  d  "     e  n  d
    assert_eq!(states, [0, 0, 0, 0, 0, 0, 1, 1, 1, 1, 1, 1, 0, 0, 0, 0, 0]);
}

#[test]
fn test_fsm_escape() {
    // the \" inside the string should NOT close it
    let input_str = r#"hello "wo\"rld" end"#;
    let states = scan_fsm(input_str.as_bytes());

    assert_eq!(
        states,
        // h   e  l  l  o     "  w  o  \  "  r  l  d  "     e  n  d
        [0u32, 0, 0, 0, 0, 0, 1, 1, 1, 2, 1, 1, 1, 1, 0, 0, 0, 0, 0]
    );
}

#[test]
fn test_depth() {
    // {"a":{"b":[1,2]}}
    let input_str = r#"{"a":{"b":[1,2]}}"#;
    let input = input_str.as_bytes();

    let states = scan_fsm(input);
    let compact = scan_structural(input, &states);
    let depths = scan_depth(input, &compact);

    assert_eq!(&depths[..], &[1, 1, 1, 2, 2, 2, 3, 3, 3, 3, 2, 1, 0]);
}

#[test]
fn test_parent_link() {
    let input_str = r#"{"a":{"b":[1,2]}}"#;
    let input = input_str.as_bytes();

    let states = scan_fsm(input);
    let compact = scan_structural(input, &states);
    let depths = scan_depth(input, &compact);
    let (parents, error) = parent_link(input, &compact);

    assert!(!error);
    assert_eq!(parents[0], -1);
    assert_eq!(&compact[..], &[0, 1, 4, 5, 6, 9, 10, 11, 12, 13, 14, 15, 16]);
    assert_eq!(&depths[..], &[1, 1, 1, 2, 2, 2, 3, 3, 3, 3, 2, 1, 0]);
    assert_eq!(&parents[..], &[-1, 0, 0, 0, 3, 3, 3, 6, 6, 6, 6, 3, 0]);
}

#[test]
fn compaction_of_the_documented_example() {
    let input = br#"{"foo": "bar\"baz\""}"#;
    let states = scan_fsm(input);
    assert_eq!(
        states,
        [0, 1, 1, 1, 1, 0, 0, 0, 1, 1, 1, 1, 2, 1, 1, 1, 1, 2, 1, 0, 0]
    );
    let compact = scan_structural(input, &states);
    assert_eq!(compact, [0, 1, 6, 8, 20]);
    let depths = scan_depth(input, &compact);
    assert_eq!(depths, [1, 1, 1, 1, 0]);
    let (parents, error) = parent_link(input, &compact);
    assert_eq!(parents, [-1, 0, 0, 0, 0]);
    assert!(!error);
    let tape = assemble_tape(input, &states, &compact, &depths, &parents);
    let got: Vec<(usize, usize, i32, i32)> = tape
        .iter()
        .map(|e| (e.byte_pos(), e.byte_end(), e.depth(), e.parent()))
        .collect();
    assert_eq!(
        got,
        vec![(0, 1, 1, -1), (1, 6, 1, 0), (6, 7, 1, 0), (8, 20, 1, 0), (20, 21, 0, 0)]
    );
}

#[test]
fn parent_link_reports_each_kind_of_mismatch() {
    for (text, expected) in [("{]", true), ("]", true), ("[[]", true), ("[{}]", false), ("1", false)] {
        let input = text.as_bytes();
        let states = scan_fsm(input);
        let compact = scan_structural(input, &states);
        let (_, error) = parent_link(input, &compact);
        assert_eq!(error, expected, "{text}");
    }
}
