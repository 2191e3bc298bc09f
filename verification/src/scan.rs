//! The stages that turn JSON bytes into a tape: a string-state machine over the bytes,
//! compaction to token starts, a depth scan, parent linking and tape assembly.
use vstd::prelude::*;

use crate::ascii::{
    BACKSLASH, CARRIAGE_RETURN, COLON, COMMA, DIGIT_NINE, DIGIT_ZERO, LEFT_BRACE, LEFT_BRACKET,
    LINE_FEED, MINUS, QUOTE, RIGHT_BRACE, RIGHT_BRACKET, SPACE, TAB,
};
use crate::tape::{lemma_code_of_kind_from_code, views, EntryView, TapeEntry, TokenKind};

verus! {

/// Outside any string.
pub const STATE_NORMAL: u32 = 0;

/// Inside a string.
pub const STATE_STRING: u32 = 1;

/// Inside a string, right after a backslash.
pub const STATE_ESCAPE: u32 = 2;

// ---------------------------------------------------------------------------------------
// The string-state machine
// ---------------------------------------------------------------------------------------
/// The state after reading byte `b` in state `state`.
pub open spec fn fsm_step(state: u32, b: u8) -> u32 {
    if state == STATE_STRING {
        if b == QUOTE {
            STATE_NORMAL
        } else if b == BACKSLASH {
            STATE_ESCAPE
        } else {
            STATE_STRING
        }
    } else if state == STATE_ESCAPE {
        STATE_STRING
    } else if b == QUOTE {
        STATE_STRING
    } else {
        STATE_NORMAL
    }
}

/// The state after reading the first `n` bytes of `s`.
pub open spec fn fsm_state(s: Seq<u8>, n: int) -> u32
    decreases n,
{
    if n <= 0 {
        STATE_NORMAL
    } else {
        fsm_step(fsm_state(s, n - 1), s[n - 1])
    }
}

/// `states` holds, for each byte of `s`, the state right after it.
pub open spec fn is_fsm_of(s: Seq<u8>, states: Seq<u32>) -> bool {
    &&& states.len() == s.len()
    &&& forall|i: int| 0 <= i < s.len() ==> #[trigger] states[i] == fsm_state(s, i + 1)
}

fn fsm_step_exec(state: u32, b: u8) -> (r: u32)
    ensures
        r == fsm_step(state, b),
{
    if state == STATE_STRING {
        if b == QUOTE {
            STATE_NORMAL
        } else if b == BACKSLASH {
            STATE_ESCAPE
        } else {
            STATE_STRING
        }
    } else if state == STATE_ESCAPE {
        STATE_STRING
    } else if b == QUOTE {
        STATE_STRING
    } else {
        STATE_NORMAL
    }
}

/// The state after each byte of `json`.
pub fn scan_fsm(json: &[u8]) -> (states: Vec<u32>)
    ensures
        is_fsm_of(json@, states@),
{
    let mut states: Vec<u32> = Vec::new();
    let mut state: u32 = STATE_NORMAL;
    let mut i: usize = 0;
    while i < json.len()
        invariant
            i <= json@.len(),
            states@.len() == i,
            state == fsm_state(json@, i as int),
            forall|j: int| 0 <= j < i ==> #[trigger] states@[j] == fsm_state(json@, j + 1),
        decreases json@.len() - i,
    {
        state = fsm_step_exec(state, json[i]);
        states.push(state);
        i = i + 1;
    }
    states
}

// ---------------------------------------------------------------------------------------
// Token starts
// ---------------------------------------------------------------------------------------
pub open spec fn is_structural_byte(b: u8) -> bool {
    b == LEFT_BRACE || b == RIGHT_BRACE || b == LEFT_BRACKET || b == RIGHT_BRACKET || b == COLON
        || b == COMMA
}

pub open spec fn is_whitespace_byte(b: u8) -> bool {
    b == SPACE || b == TAB || b == LINE_FEED || b == CARRIAGE_RETURN
}

/// A byte outside strings that is neither structural, nor a quote, nor whitespace: a byte
/// of a number or a literal.
pub open spec fn is_scalar_byte(state_before: u32, b: u8) -> bool {
    state_before == STATE_NORMAL && !is_structural_byte(b) && b != QUOTE && !is_whitespace_byte(b)
}

pub open spec fn is_scalar_byte_at(s: Seq<u8>, i: int) -> bool {
    0 <= i < s.len() && is_scalar_byte(fsm_state(s, i), s[i])
}

/// Position `i` of `s` starts a token: a structural byte or a quote outside strings, or the
/// first byte of a run of scalar bytes.
pub open spec fn is_token_start(s: Seq<u8>, i: int) -> bool {
    &&& 0 <= i < s.len()
    &&& fsm_state(s, i) == STATE_NORMAL
    &&& (is_structural_byte(s[i]) || s[i] == QUOTE || (is_scalar_byte_at(s, i)
        && !is_scalar_byte_at(s, i - 1)))
}

/// The token starts among the first `n` bytes of `s`, in order.
pub open spec fn token_positions(s: Seq<u8>, n: int) -> Seq<u32>
    decreases n,
{
    if n <= 0 {
        Seq::empty()
    } else if is_token_start(s, n - 1) {
        token_positions(s, n - 1).push((n - 1) as u32)
    } else {
        token_positions(s, n - 1)
    }
}

/// The token starts of `s`, in order.
pub open spec fn tokens(s: Seq<u8>) -> Seq<u32> {
    token_positions(s, s.len() as int)
}

/// The token starts among the first `n` bytes are at most `n` in number, in strictly
/// increasing order, below `n`, and each one is a token start.
pub proof fn lemma_token_positions(s: Seq<u8>, n: int)
    requires
        0 <= n <= s.len(),
        s.len() <= u32::MAX,
    ensures
        token_positions(s, n).len() <= n,
        forall|k: int|
            0 <= k < token_positions(s, n).len() ==> #[trigger] token_positions(s, n)[k] < n
                && is_token_start(s, token_positions(s, n)[k] as int),
        forall|j: int, k: int|
            0 <= j < k < token_positions(s, n).len() ==> token_positions(s, n)[j]
                < token_positions(s, n)[k],
    decreases n,
{
    if n > 0 {
        lemma_token_positions(s, n - 1);
    }
}

fn is_structural_exec(b: u8) -> (r: bool)
    ensures
        r == is_structural_byte(b),
{
    b == LEFT_BRACE || b == RIGHT_BRACE || b == LEFT_BRACKET || b == RIGHT_BRACKET || b == COLON
        || b == COMMA
}

fn is_scalar_byte_exec(state_before: u32, b: u8) -> (r: bool)
    ensures
        r == is_scalar_byte(state_before, b),
{
    state_before == STATE_NORMAL && !is_structural_exec(b) && b != QUOTE && !(b == SPACE || b
        == TAB || b == LINE_FEED || b == CARRIAGE_RETURN)
}

/// The state before byte `i`.
fn state_before(json: &[u8], states: &[u32], i: usize) -> (r: u32)
    requires
        is_fsm_of(json@, states@),
        i <= json@.len(),
    ensures
        r == fsm_state(json@, i as int),
{
    if i == 0 {
        STATE_NORMAL
    } else {
        states[i - 1]
    }
}

/// The positions of the token starts of `json`, in order.
pub fn scan_structural(json: &[u8], states: &[u32]) -> (compact: Vec<u32>)
    requires
        is_fsm_of(json@, states@),
        json@.len() <= u32::MAX,
    ensures
        compact@ == tokens(json@),
{
    let mut compact: Vec<u32> = Vec::new();
    let mut i: usize = 0;
    while i < json.len()
        invariant
            is_fsm_of(json@, states@),
            json@.len() <= u32::MAX,
            i <= json@.len(),
            compact@ == token_positions(json@, i as int),
        decreases json@.len() - i,
    {
        let before = state_before(json, states, i);
        let b = json[i];
        let scalar_here = is_scalar_byte_exec(before, b);
        let scalar_prev = if i > 0 {
            let prev_before = state_before(json, states, i - 1);
            is_scalar_byte_exec(prev_before, json[i - 1])
        } else {
            false
        };
        if before == STATE_NORMAL && (is_structural_exec(b) || b == QUOTE || (scalar_here
            && !scalar_prev)) {
            compact.push(i as u32);
        }
        i = i + 1;
    }
    compact
}

// ---------------------------------------------------------------------------------------
// Depth
// ---------------------------------------------------------------------------------------
pub open spec fn is_open_byte(b: u8) -> bool {
    b == LEFT_BRACE || b == LEFT_BRACKET
}

pub open spec fn is_close_byte(b: u8) -> bool {
    b == RIGHT_BRACE || b == RIGHT_BRACKET
}

/// `close` is the closing delimiter that goes with `open`.
pub open spec fn delimiters_pair(open: u8, close: u8) -> bool {
    (open == LEFT_BRACE && close == RIGHT_BRACE) || (open == LEFT_BRACKET && close
        == RIGHT_BRACKET)
}

pub open spec fn depth_delta(b: u8) -> int {
    if is_open_byte(b) {
        1
    } else if is_close_byte(b) {
        -1
    } else {
        0
    }
}

/// The running depth after the first `n` tokens: each opener adds one, each closer takes
/// one away.
pub open spec fn depth_after(s: Seq<u8>, toks: Seq<u32>, n: int) -> int
    decreases n,
{
    if n <= 0 {
        0
    } else {
        depth_after(s, toks, n - 1) + depth_delta(s[toks[n - 1] as int])
    }
}

/// Every position lies in `s` and there are few enough of them to be counted by an `i32`.
pub open spec fn positions_in(s: Seq<u8>, toks: Seq<u32>) -> bool {
    &&& toks.len() <= i32::MAX
    &&& forall|k: int| 0 <= k < toks.len() ==> #[trigger] toks[k] < s.len()
}

/// The depth after each token.
pub fn scan_depth(json: &[u8], compact: &[u32]) -> (depths: Vec<i32>)
    requires
        positions_in(json@, compact@),
    ensures
        depths@.len() == compact@.len(),
        forall|k: int|
            0 <= k < compact@.len() ==> #[trigger] depths@[k] as int == depth_after(
                json@,
                compact@,
                k + 1,
            ),
{
    let mut depths: Vec<i32> = Vec::new();
    let mut depth: i32 = 0;
    let mut k: usize = 0;
    while k < compact.len()
        invariant
            positions_in(json@, compact@),
            k <= compact@.len(),
            depths@.len() == k,
            depth as int == depth_after(json@, compact@, k as int),
            -(k as int) <= depth <= k,
            forall|j: int|
                0 <= j < k ==> #[trigger] depths@[j] as int == depth_after(json@, compact@, j + 1),
        decreases compact@.len() - k,
    {
        let b = json[compact[k] as usize];
        if b == LEFT_BRACE || b == LEFT_BRACKET {
            depth = depth + 1;
        } else if b == RIGHT_BRACE || b == RIGHT_BRACKET {
            depth = depth - 1;
        }
        depths.push(depth);
        k = k + 1;
    }
    depths
}

// ---------------------------------------------------------------------------------------
// Parent links
// ---------------------------------------------------------------------------------------
/// The stack of open delimiters (as token indices) after the first `n` tokens, and whether
/// a closer has been met that had no opener or did not pair with it.
pub open spec fn link(s: Seq<u8>, toks: Seq<u32>, n: int) -> (Seq<usize>, bool)
    decreases n,
{
    if n <= 0 {
        (Seq::empty(), false)
    } else {
        let prev = link(s, toks, n - 1);
        let b = s[toks[n - 1] as int];
        if is_open_byte(b) {
            (prev.0.push((n - 1) as usize), prev.1)
        } else if is_close_byte(b) {
            if prev.0.len() == 0 {
                (prev.0, true)
            } else {
                (
                    prev.0.drop_last(),
                    prev.1 || !delimiters_pair(s[toks[prev.0.last() as int] as int], b),
                )
            }
        } else {
            prev
        }
    }
}

/// The parent of token `k`: the innermost delimiter open when it is read, `-1` for none.
pub open spec fn parent_at(s: Seq<u8>, toks: Seq<u32>, k: int) -> int {
    let stack = link(s, toks, k).0;
    if stack.len() == 0 {
        -1
    } else {
        stack.last() as int
    }
}

/// The delimiters do not match: a closer without an opener, a closer of the other kind,
/// or an opener never closed.
pub open spec fn link_error(s: Seq<u8>, toks: Seq<u32>) -> bool {
    let last = link(s, toks, toks.len() as int);
    last.1 || last.0.len() > 0
}

/// The parent of each token, and whether the delimiters do not match.
pub fn parent_link(json: &[u8], compact: &[u32]) -> (r: (Vec<i32>, bool))
    requires
        positions_in(json@, compact@),
    ensures
        r.0@.len() == compact@.len(),
        forall|k: int|
            0 <= k < compact@.len() ==> #[trigger] r.0@[k] as int == parent_at(json@, compact@, k),
        r.1 == link_error(json@, compact@),
{
    let mut parents: Vec<i32> = Vec::new();
    let mut stack: Vec<usize> = Vec::new();
    let mut error = false;
    let mut k: usize = 0;
    while k < compact.len()
        invariant
            positions_in(json@, compact@),
            k <= compact@.len(),
            parents@.len() == k,
            stack@ == link(json@, compact@, k as int).0,
            error == link(json@, compact@, k as int).1,
            forall|j: int| 0 <= j < stack@.len() ==> #[trigger] stack@[j] < k,
            forall|j: int|
                0 <= j < k ==> #[trigger] parents@[j] as int == parent_at(json@, compact@, j),
        decreases compact@.len() - k,
    {
        let parent: i32 = if stack.len() == 0 {
            -1
        } else {
            stack[stack.len() - 1] as i32
        };
        parents.push(parent);
        let b = json[compact[k] as usize];
        if b == LEFT_BRACE || b == LEFT_BRACKET {
            stack.push(k);
        } else if b == RIGHT_BRACE || b == RIGHT_BRACKET {
            if stack.len() == 0 {
                error = true;
            } else {
                let top = stack.pop().unwrap();
                let open = json[compact[top] as usize];
                if !((open == LEFT_BRACE && b == RIGHT_BRACE) || (open == LEFT_BRACKET && b
                    == RIGHT_BRACKET)) {
                    error = true;
                }
            }
        }
        k = k + 1;
    }
    let error = error || stack.len() > 0;
    (parents, error)
}

// ---------------------------------------------------------------------------------------
// Tape assembly
// ---------------------------------------------------------------------------------------
/// One past the closing quote of a string whose body starts at `j`; the end of `s` when
/// the string is not closed.
pub open spec fn string_close(s: Seq<u8>, j: int) -> int
    decreases s.len() - j,
{
    if j >= s.len() {
        s.len() as int
    } else if fsm_state(s, j + 1) == STATE_NORMAL {
        j + 1
    } else {
        string_close(s, j + 1)
    }
}

/// The first position from `j` on that is not a scalar byte; the end of `s` when none is.
pub open spec fn scalar_close(s: Seq<u8>, j: int) -> int
    decreases s.len() - j,
{
    if j >= s.len() {
        s.len() as int
    } else if !is_scalar_byte_at(s, j) {
        j
    } else {
        scalar_close(s, j + 1)
    }
}

/// The end (exclusive) of the token that starts at `p`.
pub open spec fn token_end(s: Seq<u8>, p: int) -> int {
    if is_structural_byte(s[p]) {
        p + 1
    } else if s[p] == QUOTE {
        string_close(s, p + 1)
    } else {
        scalar_close(s, p + 1)
    }
}

/// `true`
pub open spec fn word_true() -> Seq<u8> {
    seq![0x74u8, 0x72u8, 0x75u8, 0x65u8]
}

/// `false`
pub open spec fn word_false() -> Seq<u8> {
    seq![0x66u8, 0x61u8, 0x6cu8, 0x73u8, 0x65u8]
}

/// `null`
pub open spec fn word_null() -> Seq<u8> {
    seq![0x6eu8, 0x75u8, 0x6cu8, 0x6cu8]
}

/// The kind code of a scalar token with text `text`: a literal, a number (it starts with
/// `-` or a digit) or an invalid scalar.
pub open spec fn scalar_kind_code(text: Seq<u8>) -> u32 {
    if text == word_true() {
        9
    } else if text == word_false() {
        10
    } else if text == word_null() {
        11
    } else if text.len() > 0 && (text[0] == MINUS || (DIGIT_ZERO <= text[0] <= DIGIT_NINE)) {
        8
    } else {
        12
    }
}

/// The kind code of the token that starts at `p`.
pub open spec fn token_kind_code(s: Seq<u8>, p: int) -> u32 {
    let b = s[p];
    if b == LEFT_BRACE {
        1
    } else if b == RIGHT_BRACE {
        2
    } else if b == LEFT_BRACKET {
        3
    } else if b == RIGHT_BRACKET {
        4
    } else if b == COLON {
        5
    } else if b == COMMA {
        6
    } else if b == QUOTE {
        7
    } else {
        scalar_kind_code(s.subrange(p, token_end(s, p)))
    }
}

/// The tape entry of token `k`.
pub open spec fn entry_at(s: Seq<u8>, toks: Seq<u32>, k: int) -> EntryView {
    let p = toks[k] as int;
    EntryView {
        byte_pos: toks[k],
        byte_end: token_end(s, p) as u32,
        depth: depth_after(s, toks, k + 1) as i32,
        parent: parent_at(s, toks, k) as i32,
        kind: token_kind_code(s, p),
    }
}

/// The tape that the tokens at positions `toks` make.
pub open spec fn assembled(s: Seq<u8>, toks: Seq<u32>) -> Seq<EntryView> {
    Seq::new(toks.len(), |k: int| entry_at(s, toks, k))
}

/// The tape of `s`.
pub open spec fn spec_tape(s: Seq<u8>) -> Seq<EntryView> {
    assembled(s, tokens(s))
}

fn string_end(json: &[u8], states: &[u32], j: usize) -> (r: usize)
    requires
        is_fsm_of(json@, states@),
        j <= json@.len(),
    ensures
        r == string_close(json@, j as int),
{
    let mut k = j;
    while k < json.len() && states[k] != STATE_NORMAL
        invariant
            is_fsm_of(json@, states@),
            j <= k <= json@.len(),
            string_close(json@, j as int) == string_close(json@, k as int),
        decreases json@.len() - k,
    {
        k = k + 1;
    }
    if k < json.len() {
        k + 1
    } else {
        json.len()
    }
}

fn scalar_end(json: &[u8], states: &[u32], j: usize) -> (r: usize)
    requires
        is_fsm_of(json@, states@),
        j <= json@.len(),
    ensures
        r == scalar_close(json@, j as int),
{
    let mut k = j;
    while k < json.len() && is_scalar_byte_exec(state_before(json, states, k), json[k])
        invariant
            is_fsm_of(json@, states@),
            j <= k <= json@.len(),
            scalar_close(json@, j as int) == scalar_close(json@, k as int),
        decreases json@.len() - k,
    {
        k = k + 1;
    }
    k
}

fn scalar_kind(json: &[u8], p: usize, e: usize) -> (r: u32)
    requires
        p <= e <= json@.len(),
    ensures
        r == scalar_kind_code(json@.subrange(p as int, e as int)),
{
    let ghost text = json@.subrange(p as int, e as int);
    let n = e - p;
    if n == 4 && json[p] == 0x74 && json[p + 1] == 0x72 && json[p + 2] == 0x75 && json[p + 3]
        == 0x65 {
        assert(text =~= word_true());
        9
    } else if n == 5 && json[p] == 0x66 && json[p + 1] == 0x61 && json[p + 2] == 0x6c && json[p
        + 3] == 0x73 && json[p + 4] == 0x65 {
        assert(text != word_true()) by {
            assert(text.len() != word_true().len());
        }
        assert(text =~= word_false());
        10
    } else if n == 4 && json[p] == 0x6e && json[p + 1] == 0x75 && json[p + 2] == 0x6c && json[p
        + 3] == 0x6c {
        assert(text != word_true()) by {
            assert(text[0] != word_true()[0]);
        }
        assert(text != word_false()) by {
            assert(text.len() != word_false().len());
        }
        assert(text =~= word_null());
        11
    } else {
        assert(text != word_true()) by {
            if text =~= word_true() {
                assert(text[0] == word_true()[0]);
                assert(text[1] == word_true()[1]);
                assert(text[2] == word_true()[2]);
                assert(text[3] == word_true()[3]);
            }
        }
        assert(text != word_false()) by {
            if text =~= word_false() {
                assert(text[0] == word_false()[0]);
                assert(text[1] == word_false()[1]);
                assert(text[2] == word_false()[2]);
                assert(text[3] == word_false()[3]);
                assert(text[4] == word_false()[4]);
            }
        }
        assert(text != word_null()) by {
            if text =~= word_null() {
                assert(text[0] == word_null()[0]);
                assert(text[1] == word_null()[1]);
                assert(text[2] == word_null()[2]);
                assert(text[3] == word_null()[3]);
            }
        }
        if n > 0 && (json[p] == MINUS || (DIGIT_ZERO <= json[p] && json[p] <= DIGIT_NINE)) {
            8
        } else {
            12
        }
    }
}

fn token_end_exec(json: &[u8], states: &[u32], p: usize) -> (r: usize)
    requires
        is_fsm_of(json@, states@),
        p < json@.len(),
    ensures
        r == token_end(json@, p as int),
{
    let b = json[p];
    if is_structural_exec(b) {
        p + 1
    } else if b == QUOTE {
        string_end(json, states, p + 1)
    } else {
        scalar_end(json, states, p + 1)
    }
}

proof fn lemma_string_close_bounds(s: Seq<u8>, j: int)
    requires
        0 <= j <= s.len(),
    ensures
        j <= string_close(s, j) <= s.len(),
    decreases s.len() - j,
{
    if j < s.len() && fsm_state(s, j + 1) != STATE_NORMAL {
        lemma_string_close_bounds(s, j + 1);
    }
}

proof fn lemma_scalar_close_bounds(s: Seq<u8>, j: int)
    requires
        0 <= j <= s.len(),
    ensures
        j <= scalar_close(s, j) <= s.len(),
    decreases s.len() - j,
{
    if j < s.len() && is_scalar_byte_at(s, j) {
        lemma_scalar_close_bounds(s, j + 1);
    }
}

/// A token that starts at `p` ends after `p` and no later than the end of `s`.
pub proof fn lemma_token_end_bounds(s: Seq<u8>, p: int)
    requires
        0 <= p < s.len(),
    ensures
        p < token_end(s, p) <= s.len(),
{
    lemma_string_close_bounds(s, p + 1);
    lemma_scalar_close_bounds(s, p + 1);
}

/// The tape entries of the tokens at positions `compact`, given the states, depths and
/// parents of the earlier stages.
pub fn assemble_tape(
    json: &[u8],
    states: &[u32],
    compact: &[u32],
    depths: &[i32],
    parents: &[i32],
) -> (tape: Vec<TapeEntry>)
    requires
        is_fsm_of(json@, states@),
        json@.len() <= u32::MAX,
        positions_in(json@, compact@),
        depths@.len() == compact@.len(),
        parents@.len() == compact@.len(),
        forall|k: int|
            0 <= k < compact@.len() ==> #[trigger] depths@[k] as int == depth_after(
                json@,
                compact@,
                k + 1,
            ),
        forall|k: int|
            0 <= k < compact@.len() ==> #[trigger] parents@[k] as int == parent_at(
                json@,
                compact@,
                k,
            ),
    ensures
        views(tape@) == assembled(json@, compact@),
{
    let mut tape: Vec<TapeEntry> = Vec::new();
    let mut k: usize = 0;
    while k < compact.len()
        invariant
            is_fsm_of(json@, states@),
            json@.len() <= u32::MAX,
            positions_in(json@, compact@),
            depths@.len() == compact@.len(),
            parents@.len() == compact@.len(),
            forall|i: int|
                0 <= i < compact@.len() ==> #[trigger] depths@[i] as int == depth_after(
                    json@,
                    compact@,
                    i + 1,
                ),
            forall|i: int|
                0 <= i < compact@.len() ==> #[trigger] parents@[i] as int == parent_at(
                    json@,
                    compact@,
                    i,
                ),
            k <= compact@.len(),
            tape@.len() == k,
            forall|i: int| 0 <= i < k ==> #[trigger] tape@[i]@ == entry_at(json@, compact@, i),
        decreases compact@.len() - k,
    {
        let pos = compact[k];
        let p = pos as usize;
        let end = token_end_exec(json, states, p);
        proof {
            lemma_token_end_bounds(json@, p as int);
        }
        let b = json[p];
        let kind: u32 = if b == LEFT_BRACE {
            1
        } else if b == RIGHT_BRACE {
            2
        } else if b == LEFT_BRACKET {
            3
        } else if b == RIGHT_BRACKET {
            4
        } else if b == COLON {
            5
        } else if b == COMMA {
            6
        } else if b == QUOTE {
            7
        } else {
            scalar_kind(json, p, end)
        };
        proof {
            lemma_code_of_kind_from_code(kind);
        }
        let entry = TapeEntry::new(pos, end as u32, depths[k], parents[k], TokenKind::from(kind));
        tape.push(entry);
        k = k + 1;
    }
    assert(views(tape@) =~= assembled(json@, compact@));
    tape
}

} // verus!
