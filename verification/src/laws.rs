//! What holds of every tape that the parser gives back.
use vstd::prelude::*;

use vstd::utf8::{
    is_char_boundary_iff_not_is_continuation_byte, valid_utf8, valid_utf8_split,
};

use crate::ascii::{BACKSLASH, LEFT_BRACE, LEFT_BRACKET, MINUS, QUOTE, RIGHT_BRACE, RIGHT_BRACKET};
use crate::document::{
    first_close_from, is_child, key_readable, key_scan, kind_at, member_keys, member_step,
    members_from, ObjectEntryIter, ObjectKeyIter, ValueRef,
    raw_readable, starts_value, value_scan, element_scan,
};
use crate::parser::{spec_parse, MAX_INPUT_BYTES};
use crate::scan::{
    delimiters_pair, depth_after, entry_at, fsm_state, is_close_byte, is_fsm_of, is_open_byte,
    token_positions, scalar_close, is_scalar_byte_at,
    is_token_start, link, link_error, parent_at, positions_in, scalar_kind_code, spec_tape,
    string_close, token_end, token_kind_code, tokens, lemma_token_end_bounds,
    lemma_token_positions,
};
use crate::tape::{kind_from_code, spec_is_close, spec_is_open, EntryView, TokenKind};

verus! {

/// `close` is the kind that closes a value opened by `open`.
pub open spec fn kinds_pair(open: TokenKind, close: TokenKind) -> bool {
    (open is LeftBrace && close is RightBrace) || (open is LeftBracket && close is RightBracket)
}

/// What a token of kind `kind` does to the depth.
pub open spec fn kind_depth_delta(kind: TokenKind) -> int {
    if spec_is_open(kind) {
        1
    } else if spec_is_close(kind) {
        -1
    } else {
        0
    }
}

/// The depth of the parent of entry `k`, `0` when it has none.
pub open spec fn parent_depth(t: Seq<EntryView>, k: int) -> int {
    if t[k].parent < 0 {
        0
    } else {
        t[t[k].parent as int].depth as int
    }
}

// ---------------------------------------------------------------------------------------
// The stack of open delimiters
// ---------------------------------------------------------------------------------------
/// The stack after `m` tokens holds earlier openers, each at the place where it was pushed.
proof fn lemma_stack_facts(s: Seq<u8>, toks: Seq<u32>, m: int)
    requires
        positions_in(s, toks),
        0 <= m <= toks.len(),
    ensures
        link(s, toks, m).0.len() <= m,
        forall|i: int|
            0 <= i < link(s, toks, m).0.len() ==> {
                let e = #[trigger] link(s, toks, m).0[i] as int;
                &&& 0 <= e < m
                &&& is_open_byte(s[toks[e] as int])
                &&& link(s, toks, e + 1).0.len() == i + 1
            },
    decreases m,
{
    if m > 0 {
        lemma_stack_facts(s, toks, m - 1);
        let prev = link(s, toks, m - 1).0;
        let cur = link(s, toks, m).0;
        assert forall|i: int| 0 <= i < cur.len() implies {
            let e = #[trigger] cur[i] as int;
            &&& 0 <= e < m
            &&& is_open_byte(s[toks[e] as int])
            &&& link(s, toks, e + 1).0.len() == i + 1
        } by {
            if i < prev.len() {
                assert(cur[i] == prev[i]);
            }
        }
    }
}

/// Once the delimiters have gone wrong they stay wrong.
proof fn lemma_error_stays(s: Seq<u8>, toks: Seq<u32>, m1: int, m2: int)
    requires
        0 <= m1 <= m2,
        link(s, toks, m1).1,
    ensures
        link(s, toks, m2).1,
    decreases m2 - m1,
{
    if m1 < m2 {
        lemma_error_stays(s, toks, m1, m2 - 1);
    }
}

/// Without an error so far, the depth is the height of the stack.
proof fn lemma_depth_is_height(s: Seq<u8>, toks: Seq<u32>, m: int)
    requires
        0 <= m,
        !link(s, toks, m).1,
    ensures
        depth_after(s, toks, m) == link(s, toks, m).0.len(),
    decreases m,
{
    if m > 0 {
        lemma_depth_is_height(s, toks, m - 1);
    }
}

/// An opener still on the stack after `m` tokens, at place `i`, is popped later by a
/// closer that reads it as its parent, when the delimiters match.
proof fn lemma_opener_popped(s: Seq<u8>, toks: Seq<u32>, m: int, i: int)
    requires
        positions_in(s, toks),
        0 <= m <= toks.len(),
        !link_error(s, toks),
        0 <= i < link(s, toks, m).0.len(),
    ensures
        exists|j: int|
            m <= j < toks.len() && is_close_byte(s[toks[j] as int]) && #[trigger] link(
                s,
                toks,
                j,
            ).0.len() == i + 1 && link(s, toks, j).0[i] == link(s, toks, m).0[i],
    decreases toks.len() - m,
{
    let n = toks.len() as int;
    if m == n {
        assert(false);
    } else {
        let st = link(s, toks, m).0;
        let b = s[toks[m] as int];
        if is_close_byte(b) && st.len() == i + 1 {
            assert(m <= m < n && is_close_byte(s[toks[m] as int]) && link(s, toks, m).0.len() == i
                + 1 && link(s, toks, m).0[i] == link(s, toks, m).0[i]);
        } else {
            if is_close_byte(b) && !is_open_byte(b) {
                if st.len() == 0 {
                    assert(link(s, toks, m + 1).1);
                    lemma_error_stays(s, toks, m + 1, n);
                    assert(false);
                }
            }
            assert(link(s, toks, m + 1).0[i] == st[i]);
            lemma_opener_popped(s, toks, m + 1, i);
        }
    }
}

// ---------------------------------------------------------------------------------------
// Entries of a parsed tape
// ---------------------------------------------------------------------------------------
proof fn lemma_parsed_basics(s: Seq<u8>)
    requires
        spec_parse(s) is Ok,
    ensures
        s.len() <= MAX_INPUT_BYTES,
        positions_in(s, tokens(s)),
        !link_error(s, tokens(s)),
        spec_tape(s).len() == tokens(s).len(),
        tokens(s).len() <= s.len(),
{
    lemma_token_positions(s, s.len() as int);
}

/// The kind of the entry of token `k` follows the byte that starts it.
proof fn lemma_entry_kind(s: Seq<u8>, k: int)
    requires
        spec_parse(s) is Ok,
        0 <= k < tokens(s).len(),
    ensures
        spec_is_open(kind_from_code(spec_tape(s)[k].kind)) == is_open_byte(s[tokens(s)[k] as int]),
        spec_is_close(kind_from_code(spec_tape(s)[k].kind)) == is_close_byte(
            s[tokens(s)[k] as int],
        ),
        kind_from_code(spec_tape(s)[k].kind) is LeftBrace == (s[tokens(s)[k] as int]
            == crate::ascii::LEFT_BRACE),
        kind_from_code(spec_tape(s)[k].kind) is LeftBracket == (s[tokens(s)[k] as int]
            == crate::ascii::LEFT_BRACKET),
        kind_from_code(spec_tape(s)[k].kind) is RightBrace == (s[tokens(s)[k] as int]
            == crate::ascii::RIGHT_BRACE),
        kind_from_code(spec_tape(s)[k].kind) is RightBracket == (s[tokens(s)[k] as int]
            == crate::ascii::RIGHT_BRACKET),
{
    lemma_parsed_basics(s);
    let toks = tokens(s);
    let p = toks[k] as int;
    assert(spec_tape(s)[k] == entry_at(s, toks, k));
    let code = token_kind_code(s, p);
    assert(8 <= scalar_kind_code(s.subrange(p, crate::scan::token_end(s, p))) <= 12);
}

/// Every entry of a parsed tape covers a non-empty range of the input, and the entries
/// come in the order of their positions.
pub proof fn law_entries_in_order(s: Seq<u8>)
    requires
        spec_parse(s) is Ok,
    ensures
        forall|k: int|
            0 <= k < spec_tape(s).len() ==> #[trigger] spec_tape(s)[k].byte_pos
                < spec_tape(s)[k].byte_end <= s.len(),
        forall|j: int, k: int|
            0 <= j < k < spec_tape(s).len() ==> #[trigger] spec_tape(s)[j].byte_pos
                < #[trigger] spec_tape(s)[k].byte_pos,
{
    lemma_parsed_basics(s);
    lemma_token_positions(s, s.len() as int);
    let toks = tokens(s);
    let t = spec_tape(s);
    assert forall|k: int| 0 <= k < t.len() implies #[trigger] t[k].byte_pos < t[k].byte_end
        <= s.len() by {
        assert(t[k] == entry_at(s, toks, k));
        lemma_token_end_bounds(s, toks[k] as int);
    }
    assert forall|j: int, k: int| 0 <= j < k < t.len() implies #[trigger] t[j].byte_pos
        < #[trigger] t[k].byte_pos by {
        assert(t[j] == entry_at(s, toks, j));
        assert(t[k] == entry_at(s, toks, k));
        assert(toks[j] < toks[k]);
    }
}

/// The parent of every entry of a parsed tape is either none (`-1`) or an earlier entry
/// that opens an object or an array.
pub proof fn law_parents_precede_and_open(s: Seq<u8>)
    requires
        spec_parse(s) is Ok,
    ensures
        forall|k: int|
            0 <= k < spec_tape(s).len() ==> #[trigger] spec_tape(s)[k].parent == -1 || (0
                <= spec_tape(s)[k].parent < k && spec_is_open(
                kind_from_code(spec_tape(s)[spec_tape(s)[k].parent as int].kind),
            )),
{
    lemma_parsed_basics(s);
    let toks = tokens(s);
    let t = spec_tape(s);
    assert forall|k: int| 0 <= k < t.len() implies #[trigger] t[k].parent == -1 || (0
        <= t[k].parent < k && spec_is_open(kind_from_code(t[t[k].parent as int].kind))) by {
        assert(t[k] == entry_at(s, toks, k));
        lemma_stack_facts(s, toks, k);
        let st = link(s, toks, k).0;
        if st.len() > 0 {
            let e = st[st.len() - 1] as int;
            assert(parent_at(s, toks, k) == e);
            lemma_entry_kind(s, e);
        }
    }
}

/// In a parsed tape every closing delimiter has a parent, and that parent is the opening
/// delimiter of the same kind.
pub proof fn law_closers_match_parent(s: Seq<u8>)
    requires
        spec_parse(s) is Ok,
    ensures
        forall|k: int|
            0 <= k < spec_tape(s).len() && spec_is_close(kind_from_code(#[trigger] spec_tape(s)[k].kind))
                ==> spec_tape(s)[k].parent >= 0 && kinds_pair(
                kind_from_code(spec_tape(s)[spec_tape(s)[k].parent as int].kind),
                kind_from_code(spec_tape(s)[k].kind),
            ),
{
    lemma_parsed_basics(s);
    let toks = tokens(s);
    let t = spec_tape(s);
    let n = toks.len() as int;
    assert forall|k: int|
        0 <= k < t.len() && spec_is_close(kind_from_code(#[trigger] t[k].kind)) implies t[k].parent
        >= 0 && kinds_pair(kind_from_code(t[t[k].parent as int].kind), kind_from_code(t[k].kind)) by {
        assert(t[k] == entry_at(s, toks, k));
        lemma_entry_kind(s, k);
        lemma_stack_facts(s, toks, k);
        let st = link(s, toks, k).0;
        if st.len() == 0 {
            assert(link(s, toks, k + 1).1);
            lemma_error_stays(s, toks, k + 1, n);
        } else {
            let e = st[st.len() - 1] as int;
            assert(parent_at(s, toks, k) == e);
            lemma_entry_kind(s, e);
            if !delimiters_pair(s[toks[e] as int], s[toks[k] as int]) {
                assert(link(s, toks, k + 1).1);
                lemma_error_stays(s, toks, k + 1, n);
            }
        }
    }
}

/// In a parsed tape every opening delimiter is closed: a later entry names it as its
/// parent and closes it with the delimiter of the same kind.
pub proof fn law_openers_closed(s: Seq<u8>)
    requires
        spec_parse(s) is Ok,
    ensures
        forall|k: int|
            0 <= k < spec_tape(s).len() && spec_is_open(kind_from_code(#[trigger] spec_tape(s)[k].kind))
                ==> exists|j: int|
                k < j < spec_tape(s).len() && spec_tape(s)[j].parent == k && kinds_pair(
                    kind_from_code(spec_tape(s)[k].kind),
                    kind_from_code(#[trigger] spec_tape(s)[j].kind),
                ),
{
    lemma_parsed_basics(s);
    law_closers_match_parent(s);
    let toks = tokens(s);
    let t = spec_tape(s);
    assert forall|k: int|
        0 <= k < t.len() && spec_is_open(kind_from_code(#[trigger] t[k].kind)) implies exists|j: int|
        k < j < t.len() && t[j].parent == k && kinds_pair(
            kind_from_code(t[k].kind),
            kind_from_code(#[trigger] t[j].kind),
        ) by {
        lemma_entry_kind(s, k);
        lemma_stack_facts(s, toks, k + 1);
        let st = link(s, toks, k + 1).0;
        let i = st.len() - 1;
        assert(st[i] == k);
        lemma_opener_popped(s, toks, k + 1, i);
        let j = choose|j: int|
            k + 1 <= j < toks.len() && is_close_byte(s[toks[j] as int]) && #[trigger] link(
                s,
                toks,
                j,
            ).0.len() == i + 1 && link(s, toks, j).0[i] == link(s, toks, k + 1).0[i];
        assert(t[j] == entry_at(s, toks, j));
        assert(parent_at(s, toks, j) == k);
        lemma_entry_kind(s, j);
        assert(spec_is_close(kind_from_code(t[j].kind)));
        assert(t[j].parent == k);
    }
}

/// The depth of each entry of a parsed tape is the depth of its parent (`0` without one),
/// one more for an opening delimiter, one less for a closing one.
pub proof fn law_depth_follows_parent(s: Seq<u8>)
    requires
        spec_parse(s) is Ok,
    ensures
        forall|k: int|
            0 <= k < spec_tape(s).len() ==> #[trigger] spec_tape(s)[k].depth == parent_depth(
                spec_tape(s),
                k,
            ) + kind_depth_delta(kind_from_code(spec_tape(s)[k].kind)),
{
    lemma_parsed_basics(s);
    let toks = tokens(s);
    let t = spec_tape(s);
    let n = toks.len() as int;
    assert forall|k: int| 0 <= k < t.len() implies #[trigger] t[k].depth == parent_depth(t, k)
        + kind_depth_delta(kind_from_code(t[k].kind)) by {
        assert(t[k] == entry_at(s, toks, k));
        lemma_entry_kind(s, k);
        if link(s, toks, k + 1).1 {
            lemma_error_stays(s, toks, k + 1, n);
        }
        assert(!link(s, toks, k).1) by {
            if link(s, toks, k).1 {
                lemma_error_stays(s, toks, k, n);
            }
        }
        lemma_depth_is_height(s, toks, k + 1);
        lemma_stack_facts(s, toks, k);
        let st = link(s, toks, k).0;
        if st.len() > 0 {
            let e = st[st.len() - 1] as int;
            assert(parent_at(s, toks, k) == e);
            assert(t[e] == entry_at(s, toks, e));
            assert(!link(s, toks, e + 1).1) by {
                if link(s, toks, e + 1).1 {
                    lemma_error_stays(s, toks, e + 1, n);
                }
            }
            lemma_depth_is_height(s, toks, e + 1);
        } else if is_close_byte(s[toks[k] as int]) {
            assert(link(s, toks, k + 1).1);
        }
    }
}

/// A later child of `parent` of kind `close` is found by the search from `from`.
proof fn lemma_first_close_found(t: Seq<EntryView>, parent: int, close: TokenKind, from: int, j: int)
    requires
        0 <= from <= j < t.len(),
        is_child(t, j, parent),
        kind_at(t, j) == close,
    ensures
        first_close_from(t, parent, close, from) matches Some(i) && from <= i <= j,
    decreases j - from,
{
    if !(is_child(t, from, parent) && kind_at(t, from) == close) {
        lemma_first_close_found(t, parent, close, from + 1, j);
    }
}

/// Every value of a parsed text can be read: its bytes, up to its closing delimiter when
/// it is an object or an array, lie in the text.
pub proof fn law_parsed_values_readable(s: Seq<u8>, k: int)
    requires
        spec_parse(s) is Ok,
        0 <= k < spec_tape(s).len(),
        starts_value(kind_at(spec_tape(s), k)),
    ensures
        raw_readable(s, spec_tape(s), k),
{
    let t = spec_tape(s);
    law_entries_in_order(s);
    law_openers_closed(s);
    let kind = kind_at(t, k);
    if kind is LeftBrace || kind is LeftBracket {
        assert(spec_is_open(kind_from_code(t[k].kind)));
        let j = choose|j: int|
            k < j < t.len() && t[j].parent == k && kinds_pair(
                kind_from_code(t[k].kind),
                kind_from_code(#[trigger] t[j].kind),
            );
        let close = if kind is LeftBrace {
            TokenKind::RightBrace
        } else {
            TokenKind::RightBracket
        };
        assert(kind_at(t, j) == close);
        lemma_first_close_found(t, k, close, k + 1, j);
        let i = first_close_from(t, k, close, k + 1)->0;
        assert(t[k].byte_pos < t[i].byte_pos);
        assert(t[i].byte_end <= s.len());
    }
}

// ---------------------------------------------------------------------------------------
// Strings and keys
// ---------------------------------------------------------------------------------------
/// Scanning a string from `j` on, with the state nonzero before every position after the
/// opening quote up to `j`: either the string is never closed and the state stays nonzero
/// to the end, or it is closed by a quote at or after `j`.
proof fn lemma_string_scan(s: Seq<u8>, open: int, j: int)
    requires
        0 <= open < j <= s.len(),
        forall|i: int| open < i <= j ==> #[trigger] fsm_state(s, i) != 0,
    ensures
        (string_close(s, j) == s.len() && forall|i: int|
            open < i <= s.len() ==> #[trigger] fsm_state(s, i) != 0) || (j <= string_close(s, j)
            - 1 < s.len() && s[string_close(s, j) - 1] == QUOTE),
        forall|i: int| open < i < string_close(s, j) ==> #[trigger] fsm_state(s, i) != 0,
    decreases s.len() - j,
{
    if j < s.len() && fsm_state(s, j + 1) != 0 {
        assert forall|i: int| open < i <= j + 1 implies #[trigger] fsm_state(s, i) != 0 by {
            if i <= j {
                assert(fsm_state(s, i) != 0);
            }
        }
        lemma_string_scan(s, open, j + 1);
    } else if j < s.len() {
        assert(fsm_state(s, j) != 0);
    }
}

/// Within a run of scalar bytes that starts at `p`, every byte up to where the run stops is
/// a scalar byte.
proof fn lemma_scalar_scan(s: Seq<u8>, p: int, j: int)
    requires
        0 <= p < j,
        forall|i: int| p <= i < j ==> #[trigger] crate::scan::is_scalar_byte_at(s, i),
    ensures
        forall|i: int|
            p <= i < crate::scan::scalar_close(s, j) ==> #[trigger] crate::scan::is_scalar_byte_at(
                s,
                i,
            ),
    decreases s.len() - j,
{
    if j < s.len() && crate::scan::is_scalar_byte_at(s, j) {
        lemma_scalar_scan(s, p, j + 1);
    }
}

/// No token starts strictly inside the token that starts at `p`.
proof fn lemma_no_start_inside(s: Seq<u8>, p: int, i: int)
    requires
        is_token_start(s, p),
        p < i < token_end(s, p),
    ensures
        !is_token_start(s, i),
{
    let b = s[p];
    if crate::scan::is_structural_byte(b) {
    } else if b == QUOTE {
        assert(fsm_state(s, p + 1) != 0);
        lemma_string_scan(s, p, p + 1);
    } else {
        lemma_scalar_scan(s, p, p + 1);
        assert(crate::scan::is_scalar_byte_at(s, i));
        assert(crate::scan::is_scalar_byte_at(s, i - 1));
    }
}

/// The entries of a parsed tape do not overlap: each one ends no later than the next one
/// starts.
pub proof fn law_entries_disjoint(s: Seq<u8>)
    requires
        spec_parse(s) is Ok,
    ensures
        forall|k: int|
            0 <= k && k + 1 < spec_tape(s).len() ==> #[trigger] spec_tape(s)[k].byte_end
                <= spec_tape(s)[k + 1].byte_pos,
{
    lemma_parsed_basics(s);
    lemma_token_positions(s, s.len() as int);
    let toks = tokens(s);
    let t = spec_tape(s);
    assert forall|k: int| 0 <= k && k + 1 < t.len() implies #[trigger] t[k].byte_end
        <= t[k + 1].byte_pos by {
        assert(t[k] == entry_at(s, toks, k));
        assert(t[k + 1] == entry_at(s, toks, k + 1));
        let p = toks[k] as int;
        let q = toks[k + 1] as int;
        assert(is_token_start(s, p));
        assert(is_token_start(s, q));
        assert(p < q);
        lemma_token_end_bounds(s, p);
        if q < token_end(s, p) {
            lemma_no_start_inside(s, p, q);
        }
    }
}

/// The bytes strictly between two quotes of a UTF-8 text are UTF-8.
proof fn lemma_between_quotes_utf8(s: Seq<u8>, a: int, b: int)
    requires
        valid_utf8(s),
        0 <= a < b < s.len(),
        s[a] == QUOTE,
        s[b] == QUOTE,
    ensures
        valid_utf8(s.subrange(a + 1, b)),
{
    is_char_boundary_iff_not_is_continuation_byte(s, a);
    valid_utf8_split(s, a);
    let r = s.subrange(a, s.len() as int);
    assert(valid_utf8(r));
    assert(r[0] == QUOTE);
    let rest = r.subrange(1, r.len() as int);
    assert(vstd::utf8::pop_first_scalar(r) == rest);
    assert(valid_utf8(rest));
    let c = b - (a + 1);
    assert(rest[c] == QUOTE);
    is_char_boundary_iff_not_is_continuation_byte(rest, c);
    valid_utf8_split(rest, c);
    assert(rest.subrange(0, c) =~= s.subrange(a + 1, b));
}

/// In a parsed UTF-8 text, every string inside an object or an array is closed, and its
/// body, without the quotes, is UTF-8: it can be read as a key.
pub proof fn law_nested_strings_readable(s: Seq<u8>, k: int)
    requires
        spec_parse(s) is Ok,
        valid_utf8(s),
        0 <= k < spec_tape(s).len(),
        kind_at(spec_tape(s), k) is String,
        spec_tape(s)[k].parent >= 0,
    ensures
        key_readable(s, spec_tape(s), k),
{
    lemma_parsed_basics(s);
    lemma_token_positions(s, s.len() as int);
    let toks = tokens(s);
    let t = spec_tape(s);
    let n = toks.len() as int;
    let pos = toks[k] as int;
    assert(t[k] == entry_at(s, toks, k));
    assert(is_token_start(s, pos));
    assert(s[pos] == QUOTE) by {
        let code = token_kind_code(s, pos);
        assert(8 <= scalar_kind_code(s.subrange(pos, token_end(s, pos))) <= 12);
    }
    // The parent is still open at token k, so a closing delimiter comes after token k.
    lemma_stack_facts(s, toks, k);
    let st = link(s, toks, k).0;
    assert(st.len() > 0);
    let i = st.len() - 1;
    lemma_opener_popped(s, toks, k, i);
    let j = choose|j: int|
        k <= j < toks.len() && is_close_byte(s[toks[j] as int]) && #[trigger] link(s, toks, j).0.len()
            == i + 1 && link(s, toks, j).0[i] == link(s, toks, k).0[i];
    assert(j != k);
    assert(toks[k] < toks[j]);
    assert(is_token_start(s, toks[j] as int));
    // So the string is closed by a quote.
    lemma_string_scan(s, pos, pos + 1);
    let end = string_close(s, pos + 1);
    assert(end == token_end(s, pos));
    if end == s.len() && forall|i: int| pos < i <= s.len() ==> #[trigger] fsm_state(s, i) != 0 {
        assert(fsm_state(s, toks[j] as int) != 0);
        assert(false);
    }
    lemma_token_end_bounds(s, pos);
    lemma_between_quotes_utf8(s, pos, end - 1);
}

/// The key that a member step finds is a string child of the object.
proof fn lemma_key_scan_finds_string_child(t: Seq<EntryView>, parent: int, from: int)
    requires
        0 <= from,
    ensures
        key_scan(t, parent, from).0 matches Some(k) ==> 0 <= k < t.len() && is_child(t, k, parent)
            && kind_at(t, k) is String,
    decreases t.len() - from,
{
    if from < t.len() {
        lemma_key_scan_finds_string_child(t, parent, from + 1);
    }
}

/// In a document whose tape is the parse of its UTF-8 source, the key of every member
/// that an object's member steps find can be read.
pub proof fn law_member_keys_readable(s: Seq<u8>, parent: int, from: int)
    requires
        spec_parse(s) is Ok,
        valid_utf8(s),
        0 <= from,
    ensures
        member_step(spec_tape(s), parent, from).0 matches Some((k, v)) ==> key_readable(
            s,
            spec_tape(s),
            k,
        ),
{
    let t = spec_tape(s);
    lemma_key_scan_finds_string_child(t, parent, from);
    if let Some(k) = key_scan(t, parent, from).0 {
        law_nested_strings_readable(s, k);
    }
}

/// In a document whose tape is the parse of its UTF-8 source, the key of every member that
/// the member steps of an object find, one after the other, can be read: collecting the
/// members or the keys of an object never fails.
pub proof fn law_all_member_keys_readable(s: Seq<u8>, parent: int, from: int)
    requires
        spec_parse(s) is Ok,
        valid_utf8(s),
        0 <= from,
    ensures
        forall|i: int|
            0 <= i < members_from(spec_tape(s), parent, from).len() ==> key_readable(
                s,
                spec_tape(s),
                #[trigger] members_from(spec_tape(s), parent, from)[i].0,
            ),
    decreases spec_tape(s).len() - from,
{
    let t = spec_tape(s);
    let step = member_step(t, parent, from);
    law_member_keys_readable(s, parent, from);
    if let Some(m) = step.0 {
        if 0 <= from < step.1 <= t.len() {
            law_all_member_keys_readable(s, parent, step.1);
            let rest = members_from(t, parent, step.1);
            assert(members_from(t, parent, from) == seq![m] + rest);
            assert forall|i: int|
                0 <= i < members_from(t, parent, from).len() implies key_readable(
                s,
                t,
                #[trigger] members_from(t, parent, from)[i].0,
            ) by {
                if i > 0 {
                    assert(members_from(t, parent, from)[i] == rest[i - 1]);
                }
            }
        }
    }
}

/// The keys cursor and the entries cursor of one object value walk the same keys: the keys
/// that `object_keys` gives out are the keys of the members that `object_entries` gives out.
pub proof fn law_object_keys_follow_entries<'doc, 'src, 'tape>(
    v: ValueRef<'doc, 'src, 'tape>,
    keys: ObjectKeyIter<'doc, 'src, 'tape>,
    entries: ObjectEntryIter<'doc, 'src, 'tape>,
)
    requires
        keys.spec_members().spec_document() == v.spec_document(),
        keys.spec_members().spec_parent() == v.spec_index(),
        keys.spec_members().spec_next() == v.spec_index() + 1,
        entries.spec_document() == v.spec_document(),
        entries.spec_parent() == v.spec_index(),
        entries.spec_next() == v.spec_index() + 1,
    ensures
        member_keys(
            keys.spec_members().spec_document().spec_source(),
            keys.spec_members().spec_document().spec_tape(),
            keys.spec_members().spec_parent(),
            keys.spec_members().spec_next(),
        ) == member_keys(
            entries.spec_document().spec_source(),
            entries.spec_document().spec_tape(),
            entries.spec_parent(),
            entries.spec_next(),
        ),
{
}

// ---------------------------------------------------------------------------------------
// The string states
// ---------------------------------------------------------------------------------------
/// How the string state moves from one byte to the next, for any states that describe
/// `s`: a quote outside strings opens a string; inside a string a quote closes it and a
/// backslash escapes exactly the one byte after it, whatever that byte is (so `\\` is an
/// escaped backslash, and the quote after it closes the string).
pub proof fn law_string_states(s: Seq<u8>, states: Seq<u32>, i: int)
    requires
        is_fsm_of(s, states),
        0 <= i < s.len(),
    ensures
        ({
            let before = if i == 0 {
                0u32
            } else {
                states[i - 1]
            };
            &&& before == 2 ==> states[i] == 1
            &&& before == 1 && s[i] == QUOTE ==> states[i] == 0
            &&& before == 1 && s[i] == BACKSLASH ==> states[i] == 2
            &&& before == 1 && s[i] != QUOTE && s[i] != BACKSLASH ==> states[i] == 1
            &&& before == 0 && s[i] == QUOTE ==> states[i] == 1
            &&& before == 0 && s[i] != QUOTE ==> states[i] == 0
            &&& states[i] == 0 || states[i] == 1 || states[i] == 2
        }),
{
    lemma_states_in_range(s, i);
    if i > 0 {
        assert(states[i - 1] == fsm_state(s, i));
    }
    assert(states[i] == fsm_state(s, i + 1));
}

proof fn lemma_states_in_range(s: Seq<u8>, n: int)
    ensures
        fsm_state(s, n) == 0 || fsm_state(s, n) == 1 || fsm_state(s, n) == 2,
    decreases n,
{
    if n > 0 {
        lemma_states_in_range(s, n - 1);
    }
}

/// Inside a string, an escaped backslash (`\\`) does not escape what follows it: the
/// quote right after it closes the string.
pub proof fn law_escaped_backslash_then_quote_closes(s: Seq<u8>, states: Seq<u32>, i: int)
    requires
        is_fsm_of(s, states),
        1 <= i,
        i + 2 < s.len(),
        states[i - 1] == 1,
        s[i] == BACKSLASH,
        s[i + 1] == BACKSLASH,
        s[i + 2] == QUOTE,
    ensures
        states[i] == 2,
        states[i + 1] == 1,
        states[i + 2] == 0,
{
    law_string_states(s, states, i);
    law_string_states(s, states, i + 1);
    law_string_states(s, states, i + 2);
}

// ---------------------------------------------------------------------------------------
// Kinds, bytes and whitespace of the entries
// ---------------------------------------------------------------------------------------
/// A JSON whitespace byte: space, tab, line feed or carriage return.
pub open spec fn is_json_whitespace(b: u8) -> bool {
    b == 0x20u8 || b == 0x09u8 || b == 0x0au8 || b == 0x0du8
}

proof fn lemma_tape_entry(s: Seq<u8>, k: int)
    requires
        s.len() <= MAX_INPUT_BYTES,
        0 <= k < spec_tape(s).len(),
    ensures
        positions_in(s, tokens(s)),
        spec_tape(s)[k] == entry_at(s, tokens(s), k),
        spec_tape(s)[k].byte_pos == tokens(s)[k],
        is_token_start(s, tokens(s)[k] as int),
        tokens(s)[k] < s.len(),
        spec_tape(s)[k].byte_end == token_end(s, tokens(s)[k] as int),
{
    lemma_token_positions(s, s.len() as int);
    lemma_token_end_bounds(s, tokens(s)[k] as int);
}

/// The kind of every entry follows the bytes of its token: a digit or a minus sign starts
/// a number (`0`, `0.5` and `-1` included), a quote a string, and each delimiter or
/// separator byte its own kind; the words `true`, `false` and `null` are literals.
pub proof fn law_entry_kinds(s: Seq<u8>)
    requires
        s.len() <= MAX_INPUT_BYTES,
    ensures
        forall|k: int|
            0 <= k < spec_tape(s).len() ==> {
                let e = #[trigger] spec_tape(s)[k];
                let b = s[e.byte_pos as int];
                let kind = kind_from_code(e.kind);
                let text = s.subrange(e.byte_pos as int, e.byte_end as int);
                &&& (b == MINUS || (0x30u8 <= b <= 0x39u8)) ==> kind is Number
                &&& b == QUOTE ==> kind is String
                &&& b == LEFT_BRACE ==> kind is LeftBrace
                &&& b == RIGHT_BRACE ==> kind is RightBrace
                &&& b == LEFT_BRACKET ==> kind is LeftBracket
                &&& b == RIGHT_BRACKET ==> kind is RightBracket
                &&& b == 0x3au8 ==> kind is Colon
                &&& b == 0x2cu8 ==> kind is Comma
                &&& text == seq![0x74u8, 0x72u8, 0x75u8, 0x65u8] ==> kind is True
                &&& text == seq![0x66u8, 0x61u8, 0x6cu8, 0x73u8, 0x65u8] ==> kind is False
                &&& text == seq![0x6eu8, 0x75u8, 0x6cu8, 0x6cu8] ==> kind is Null
            },
{
    assert forall|k: int| 0 <= k < spec_tape(s).len() implies {
        let e = #[trigger] spec_tape(s)[k];
        let b = s[e.byte_pos as int];
        let kind = kind_from_code(e.kind);
        let text = s.subrange(e.byte_pos as int, e.byte_end as int);
        &&& (b == MINUS || (0x30u8 <= b <= 0x39u8)) ==> kind is Number
        &&& b == QUOTE ==> kind is String
        &&& b == LEFT_BRACE ==> kind is LeftBrace
        &&& b == RIGHT_BRACE ==> kind is RightBrace
        &&& b == LEFT_BRACKET ==> kind is LeftBracket
        &&& b == RIGHT_BRACKET ==> kind is RightBracket
        &&& b == 0x3au8 ==> kind is Colon
        &&& b == 0x2cu8 ==> kind is Comma
        &&& text == seq![0x74u8, 0x72u8, 0x75u8, 0x65u8] ==> kind is True
        &&& text == seq![0x66u8, 0x61u8, 0x6cu8, 0x73u8, 0x65u8] ==> kind is False
        &&& text == seq![0x6eu8, 0x75u8, 0x6cu8, 0x6cu8] ==> kind is Null
    } by {
        lemma_tape_entry(s, k);
        let e = spec_tape(s)[k];
        let p = e.byte_pos as int;
        let text = s.subrange(p, e.byte_end as int);
        lemma_token_end_bounds(s, p);
        if text.len() > 0 {
            assert(text[0] == s[p]);
        }
        if text == seq![0x74u8, 0x72u8, 0x75u8, 0x65u8] {
            assert(text[0] == 0x74u8);
        }
        if text == seq![0x66u8, 0x61u8, 0x6cu8, 0x73u8, 0x65u8] {
            assert(text[0] == 0x66u8);
        }
        if text == seq![0x6eu8, 0x75u8, 0x6cu8, 0x6cu8] {
            assert(text[0] == 0x6eu8);
        }
    }
}

/// No entry starts at a whitespace byte, and no entry other than a string covers one:
/// whitespace between tokens belongs to no token.
pub proof fn law_whitespace_outside_tokens(s: Seq<u8>)
    requires
        s.len() <= MAX_INPUT_BYTES,
    ensures
        forall|k: int|
            0 <= k < spec_tape(s).len() ==> !is_json_whitespace(
                s[#[trigger] spec_tape(s)[k].byte_pos as int],
            ),
        forall|k: int, i: int|
            #![trigger spec_tape(s)[k], s[i]]
            0 <= k < spec_tape(s).len() && !(kind_from_code(spec_tape(s)[k].kind) is String)
                && spec_tape(s)[k].byte_pos <= i < spec_tape(s)[k].byte_end ==> !is_json_whitespace(
                s[i],
            ),
{
    assert forall|k: int| 0 <= k < spec_tape(s).len() implies !is_json_whitespace(
        s[#[trigger] spec_tape(s)[k].byte_pos as int],
    ) by {
        lemma_tape_entry(s, k);
    }
    assert forall|k: int, i: int|
        #![trigger spec_tape(s)[k], s[i]]
        0 <= k < spec_tape(s).len() && !(kind_from_code(spec_tape(s)[k].kind) is String)
            && spec_tape(s)[k].byte_pos <= i < spec_tape(s)[k].byte_end implies !is_json_whitespace(
        s[i],
    ) by {
        lemma_tape_entry(s, k);
        let p = spec_tape(s)[k].byte_pos as int;
        if !crate::scan::is_structural_byte(s[p]) {
            assert(s[p] != QUOTE);
            lemma_scalar_scan(s, p, p + 1);
            assert(crate::scan::is_scalar_byte_at(s, i));
        }
    }
}

// ---------------------------------------------------------------------------------------
// Where the delimiter error comes from
// ---------------------------------------------------------------------------------------
/// Only a closing delimiter raises the error, and only when no delimiter is open or the
/// innermost open one is of the other kind: openers (at any depth), separators and scalars
/// never do, and a closer that matches the innermost opener does not either.
pub proof fn law_error_only_from_bad_closers(s: Seq<u8>, toks: Seq<u32>, m: int)
    requires
        positions_in(s, toks),
        0 <= m < toks.len(),
    ensures
        link(s, toks, m + 1).1 && !link(s, toks, m).1 ==> {
            let b = s[toks[m] as int];
            let stack = link(s, toks, m).0;
            &&& (b == RIGHT_BRACE || b == RIGHT_BRACKET)
            &&& (stack.len() == 0 || !((s[toks[stack.last() as int] as int] == LEFT_BRACE && b
                == RIGHT_BRACE) || (s[toks[stack.last() as int] as int] == LEFT_BRACKET && b
                == RIGHT_BRACKET)))
        },
        link(s, toks, m).1 ==> link(s, toks, m + 1).1,
{
}

/// The text of `n` opening delimiters followed by the `n` closing ones of the same kind.
pub open spec fn nested_text(n: nat, brace: bool) -> Seq<u8> {
    Seq::new(
        2 * n,
        |i: int|
            if i < n {
                if brace {
                    LEFT_BRACE
                } else {
                    LEFT_BRACKET
                }
            } else if brace {
                RIGHT_BRACE
            } else {
                RIGHT_BRACKET
            },
    )
}

proof fn lemma_nested_states(n: nat, brace: bool, i: int)
    requires
        0 <= i <= 2 * n,
    ensures
        fsm_state(nested_text(n, brace), i) == 0,
    decreases i,
{
    if i > 0 {
        lemma_nested_states(n, brace, i - 1);
    }
}

proof fn lemma_nested_tokens(n: nat, brace: bool, m: int)
    requires
        0 <= m <= 2 * n,
        2 * n <= u32::MAX,
    ensures
        token_positions(nested_text(n, brace), m) =~= Seq::new(m as nat, |i: int| i as u32),
    decreases m,
{
    if m > 0 {
        lemma_nested_tokens(n, brace, m - 1);
        lemma_nested_states(n, brace, m - 1);
        assert(is_token_start(nested_text(n, brace), m - 1));
    }
}

proof fn lemma_nested_links(n: nat, brace: bool, m: int)
    requires
        0 <= m <= 2 * n,
        2 * n <= MAX_INPUT_BYTES,
    ensures
        !link(nested_text(n, brace), tokens(nested_text(n, brace)), m).1,
        link(nested_text(n, brace), tokens(nested_text(n, brace)), m).0 =~= Seq::new(
            (if m <= n {
                m
            } else {
                2 * n - m
            }) as nat,
            |i: int| i as usize,
        ),
    decreases m,
{
    let s = nested_text(n, brace);
    lemma_nested_tokens(n, brace, (2 * n) as int);
    if m > 0 {
        lemma_nested_links(n, brace, m - 1);
        let toks = tokens(s);
        assert(toks[m - 1] == (m - 1) as u32);
        if m - 1 >= n {
            let prev = link(s, toks, m - 1).0;
            let top = prev.last() as int;
            assert(top == 2 * n - m);
            assert(toks[top] == top as u32);
        }
    }
}

/// Delimiters that pair properly are accepted at any depth: `n` openers followed by the
/// `n` matching closers parse, for every `n` that fits the input limit.
pub proof fn law_nested_delimiters_parse(n: nat, brace: bool)
    requires
        2 * n <= MAX_INPUT_BYTES,
    ensures
        spec_parse(nested_text(n, brace)) is Ok,
{
    lemma_nested_tokens(n, brace, (2 * n) as int);
    lemma_nested_links(n, brace, (2 * n) as int);
}

// ---------------------------------------------------------------------------------------
// Which children are values
// ---------------------------------------------------------------------------------------
/// The kinds that start a JSON value: an object, an array, a string, a number, `true`,
/// `false` or `null`.
pub open spec fn is_json_value_kind(kind: TokenKind) -> bool {
    kind is LeftBrace || kind is LeftBracket || kind is String || kind is Number || kind is True
        || kind is False || kind is Null
}

/// The value of a member is the first child of the object from `start` on whose kind
/// starts a JSON value (`null` included), and there is none when no such child follows.
pub proof fn law_member_value_is_first_value_child(t: Seq<EntryView>, parent: int, start: int)
    requires
        0 <= start,
    ensures
        value_scan(t, parent, start) matches Some(v) ==> {
            &&& start <= v < t.len()
            &&& is_child(t, v, parent)
            &&& is_json_value_kind(kind_at(t, v))
            &&& forall|j: int|
                start <= j < v ==> !(is_child(t, j, parent) && is_json_value_kind(
                    #[trigger] kind_at(t, j),
                ))
        },
        value_scan(t, parent, start) is None ==> forall|j: int|
            start <= j < t.len() ==> !(is_child(t, j, parent) && is_json_value_kind(
                #[trigger] kind_at(t, j),
            )),
    decreases t.len() - start,
{
    if start < t.len() {
        law_member_value_is_first_value_child(t, parent, start + 1);
    }
}

// ---------------------------------------------------------------------------------------
// Which bytes make entries, and where entries end
// ---------------------------------------------------------------------------------------
/// A structural byte of JSON: `{`, `}`, `[`, `]`, `:` or `,`.
pub open spec fn is_json_structural(b: u8) -> bool {
    b == 0x7bu8 || b == 0x7du8 || b == 0x5bu8 || b == 0x5du8 || b == 0x3au8 || b == 0x2cu8
}

/// A byte of a number or a literal, outside strings: neither structural, nor a quote,
/// nor whitespace.
pub open spec fn is_json_scalar_byte(s: Seq<u8>, i: int) -> bool {
    0 <= i < s.len() && fsm_state(s, i) == 0 && !is_json_structural(s[i]) && s[i] != QUOTE
        && !is_json_whitespace(s[i])
}

proof fn lemma_token_start_listed(s: Seq<u8>, n: int, i: int)
    requires
        0 <= i < n <= s.len(),
        s.len() <= u32::MAX,
        is_token_start(s, i),
    ensures
        exists|k: int|
            0 <= k < token_positions(s, n).len() && #[trigger] token_positions(s, n)[k] == i,
    decreases n,
{
    if i < n - 1 {
        lemma_token_start_listed(s, n - 1, i);
        let k = choose|k: int|
            0 <= k < token_positions(s, n - 1).len() && #[trigger] token_positions(s, n - 1)[k]
                == i;
        assert(token_positions(s, n)[k] == i);
    } else {
        let k = token_positions(s, n - 1).len() as int;
        assert(token_positions(s, n)[k] == i);
    }
}

/// Every structural byte and every quote outside strings starts an entry, and so does the
/// first byte of every run of number or literal bytes.
pub proof fn law_every_token_is_an_entry(s: Seq<u8>, i: int)
    requires
        s.len() <= MAX_INPUT_BYTES,
        0 <= i < s.len(),
        fsm_state(s, i) == 0,
        is_json_structural(s[i]) || s[i] == QUOTE || (is_json_scalar_byte(s, i)
            && !is_json_scalar_byte(s, i - 1)),
    ensures
        exists|k: int| 0 <= k < spec_tape(s).len() && #[trigger] spec_tape(s)[k].byte_pos == i,
{
    assert(is_token_start(s, i));
    lemma_token_start_listed(s, s.len() as int, i);
    lemma_token_positions(s, s.len() as int);
    let k = choose|k: int| 0 <= k < tokens(s).len() && #[trigger] tokens(s)[k] == i;
    lemma_tape_entry(s, k);
}

proof fn lemma_string_close_state(s: Seq<u8>, j: int)
    requires
        0 <= j,
    ensures
        string_close(s, j) == s.len() || fsm_state(s, string_close(s, j)) == 0,
    decreases s.len() - j,
{
    if j < s.len() && fsm_state(s, j + 1) != 0 {
        lemma_string_close_state(s, j + 1);
    }
}

/// A string entry runs from its opening quote to the first quote that closes it: every
/// byte after the opening quote up to the end of the entry is read inside the string, and
/// unless the string runs to the end of the input its last byte is a quote after which
/// the text is outside strings again.
pub proof fn law_string_entries(s: Seq<u8>)
    requires
        s.len() <= MAX_INPUT_BYTES,
    ensures
        forall|k: int|
            0 <= k < spec_tape(s).len() && s[(#[trigger] spec_tape(s)[k]).byte_pos as int] == QUOTE
                ==> {
                let e = spec_tape(s)[k];
                &&& forall|i: int|
                    e.byte_pos < i < e.byte_end ==> #[trigger] fsm_state(s, i) != 0
                &&& e.byte_end == s.len() || (s[e.byte_end - 1] == QUOTE && fsm_state(
                    s,
                    e.byte_end as int,
                ) == 0 && e.byte_end >= e.byte_pos + 2)
            },
{
    assert forall|k: int|
        0 <= k < spec_tape(s).len() && s[(#[trigger] spec_tape(s)[k]).byte_pos as int]
            == QUOTE implies {
        let e = spec_tape(s)[k];
        &&& forall|i: int| e.byte_pos < i < e.byte_end ==> #[trigger] fsm_state(s, i) != 0
        &&& e.byte_end == s.len() || (s[e.byte_end - 1] == QUOTE && fsm_state(
            s,
            e.byte_end as int,
        ) == 0 && e.byte_end >= e.byte_pos + 2)
    } by {
        lemma_tape_entry(s, k);
        let p = spec_tape(s)[k].byte_pos as int;
        let end = string_close(s, p + 1);
        assert(fsm_state(s, p + 1) != 0);
        lemma_string_scan(s, p, p + 1);
        lemma_string_close_state(s, p + 1);
        if end != s.len() {
            assert(fsm_state(s, end - 1) != 0);
            lemma_states_in_range(s, end - 1);
        }
    }
}

proof fn lemma_scalar_close_stop(s: Seq<u8>, p: int, j: int)
    requires
        0 <= p < j,
        forall|i: int| p <= i < j ==> #[trigger] is_scalar_byte_at(s, i),
    ensures
        scalar_close(s, j) == s.len() || (fsm_state(s, scalar_close(s, j)) == 0
            && !is_scalar_byte_at(s, scalar_close(s, j))),
    decreases s.len() - j,
{
    assert(is_scalar_byte_at(s, j - 1));
    if j < s.len() && is_scalar_byte_at(s, j) {
        lemma_scalar_close_stop(s, p, j + 1);
    }
}

/// A number or literal entry is a whole run of number or literal bytes: every byte of it
/// is one, and the byte after it (if any) is whitespace, structural or a quote.
pub proof fn law_scalar_entries(s: Seq<u8>)
    requires
        s.len() <= MAX_INPUT_BYTES,
    ensures
        forall|k: int|
            0 <= k < spec_tape(s).len() && !is_json_structural(
                s[(#[trigger] spec_tape(s)[k]).byte_pos as int],
            ) && s[spec_tape(s)[k].byte_pos as int] != QUOTE ==> {
                let e = spec_tape(s)[k];
                &&& forall|i: int|
                    e.byte_pos <= i < e.byte_end ==> #[trigger] is_json_scalar_byte(s, i)
                &&& e.byte_end == s.len() || is_json_whitespace(s[e.byte_end as int])
                    || is_json_structural(s[e.byte_end as int]) || s[e.byte_end as int] == QUOTE
            },
{
    assert forall|k: int|
        0 <= k < spec_tape(s).len() && !is_json_structural(
            s[(#[trigger] spec_tape(s)[k]).byte_pos as int],
        ) && s[spec_tape(s)[k].byte_pos as int] != QUOTE implies {
        let e = spec_tape(s)[k];
        &&& forall|i: int| e.byte_pos <= i < e.byte_end ==> #[trigger] is_json_scalar_byte(s, i)
        &&& e.byte_end == s.len() || is_json_whitespace(s[e.byte_end as int]) || is_json_structural(
            s[e.byte_end as int],
        ) || s[e.byte_end as int] == QUOTE
    } by {
        lemma_tape_entry(s, k);
        let p = spec_tape(s)[k].byte_pos as int;
        lemma_scalar_scan(s, p, p + 1);
        lemma_scalar_close_stop(s, p, p + 1);
        lemma_token_end_bounds(s, p);
        let e = spec_tape(s)[k];
        let end = e.byte_end as int;
        assert(end == scalar_close(s, p + 1));
        if end != s.len() {
            assert(end < s.len());
            assert(fsm_state(s, end) == 0);
            assert(!is_scalar_byte_at(s, end));
        }
        assert forall|i: int| e.byte_pos <= i < e.byte_end implies #[trigger] is_json_scalar_byte(
            s,
            i,
        ) by {
            assert(is_scalar_byte_at(s, i));
        }
    }
}

// ---------------------------------------------------------------------------------------
// Keys and elements
// ---------------------------------------------------------------------------------------
/// The next element of an array is its first child from `from` on whose kind starts a
/// JSON value, unless a `]` child comes first; the search then stops after what it found.
pub proof fn law_element_is_next_value_child(t: Seq<EntryView>, parent: int, from: int)
    requires
        0 <= from,
    ensures
        element_scan(t, parent, from).0 matches Some(e) ==> {
            &&& from <= e < t.len()
            &&& is_child(t, e, parent)
            &&& is_json_value_kind(kind_at(t, e))
            &&& element_scan(t, parent, from).1 == e + 1
            &&& forall|j: int|
                from <= j < e ==> !(is_child(t, j, parent) && (is_json_value_kind(
                    #[trigger] kind_at(t, j),
                ) || kind_at(t, j) is RightBracket))
        },
        element_scan(t, parent, from).0 is None ==> (forall|j: int|
            from <= j < t.len() ==> !(is_child(t, j, parent) && is_json_value_kind(
                #[trigger] kind_at(t, j),
            ))) || (exists|c: int|
            from <= c < t.len() && is_child(t, c, parent) && #[trigger] kind_at(t, c)
                is RightBracket && element_scan(t, parent, from).1 == c + 1 && forall|j: int|
                from <= j < c ==> !(is_child(t, j, parent) && is_json_value_kind(
                    #[trigger] kind_at(t, j),
                ))),
    decreases t.len() - from,
{
    if from < t.len() {
        law_element_is_next_value_child(t, parent, from + 1);
        if is_child(t, from, parent) && kind_at(t, from) is RightBracket {
            assert(kind_at(t, from) is RightBracket);
        }
    }
}

/// The next key of an object is its first string child from `from` on, unless a `}` child
/// comes first; the search then stops after what it found.
pub proof fn law_key_is_next_string_child(t: Seq<EntryView>, parent: int, from: int)
    requires
        0 <= from,
    ensures
        key_scan(t, parent, from).0 matches Some(k) ==> {
            &&& from <= k < t.len()
            &&& is_child(t, k, parent)
            &&& kind_at(t, k) is String
            &&& key_scan(t, parent, from).1 == k + 1
            &&& forall|j: int|
                from <= j < k ==> !(is_child(t, j, parent) && (#[trigger] kind_at(t, j) is String
                    || kind_at(t, j) is RightBrace))
        },
        key_scan(t, parent, from).0 is None ==> (forall|j: int|
            from <= j < t.len() ==> !(is_child(t, j, parent) && #[trigger] kind_at(t, j)
                is String)) || (exists|c: int|
            from <= c < t.len() && is_child(t, c, parent) && #[trigger] kind_at(t, c)
                is RightBrace && key_scan(t, parent, from).1 == c + 1 && forall|j: int|
                from <= j < c ==> !(is_child(t, j, parent) && #[trigger] kind_at(t, j) is String)),
    decreases t.len() - from,
{
    if from < t.len() {
        law_key_is_next_string_child(t, parent, from + 1);
        if is_child(t, from, parent) && kind_at(t, from) is RightBrace {
            assert(kind_at(t, from) is RightBrace);
        }
    }
}

} // verus!
