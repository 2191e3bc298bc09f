//! Navigation over a parsed JSON text: values, their raw bytes, object members and array
//! elements, read from the source bytes and their tape.
use vstd::prelude::*;
use vstd::string::StringSliceAdditionalSpecFns;
use vstd::utf8::valid_utf8;

use crate::tape::{kind_from_code, spec_parent_index, EntryView, Tape, TapeEntry, TokenKind};

verus! {

/// The kind of a JSON value.
#[derive(Debug, Clone, Copy, PartialEq, Eq, Structural)]
pub enum ValueKind {
    Null,
    Bool,
    Number,
    String,
    Array,
    Object,
}

// ---------------------------------------------------------------------------------------
// The model: a tape read as a tree of values
// ---------------------------------------------------------------------------------------
/// The kind of entry `i` of tape `t`.
pub open spec fn kind_at(t: Seq<EntryView>, i: int) -> TokenKind {
    kind_from_code(t[i].kind)
}

/// Entry `i` of `t` names `parent` as its parent.
pub open spec fn is_child(t: Seq<EntryView>, i: int, parent: int) -> bool {
    spec_parent_index(t[i]) == Some(parent)
}

/// A kind that starts a value.
pub open spec fn starts_value(kind: TokenKind) -> bool {
    kind is LeftBrace || kind is LeftBracket || kind is String || kind is Number || kind is True
        || kind is False || kind is Null
}

/// The kind of value that a value-starting kind starts.
pub open spec fn value_kind_of(kind: TokenKind) -> ValueKind {
    match kind {
        TokenKind::LeftBrace => ValueKind::Object,
        TokenKind::LeftBracket => ValueKind::Array,
        TokenKind::String => ValueKind::String,
        TokenKind::Number => ValueKind::Number,
        TokenKind::True | TokenKind::False => ValueKind::Bool,
        _ => ValueKind::Null,
    }
}

/// The kind that closes a value opened by `kind`.
pub open spec fn close_kind_of(kind: TokenKind) -> Option<TokenKind> {
    match kind {
        TokenKind::LeftBrace => Some(TokenKind::RightBrace),
        TokenKind::LeftBracket => Some(TokenKind::RightBracket),
        _ => None,
    }
}

/// The first entry from `from` on that is a child of `parent` of kind `close`.
pub open spec fn first_close_from(t: Seq<EntryView>, parent: int, close: TokenKind, from: int) -> Option<
    int,
>
    decreases t.len() - from,
{
    if from < 0 || from >= t.len() {
        None
    } else if is_child(t, from, parent) && kind_at(t, from) == close {
        Some(from)
    } else {
        first_close_from(t, parent, close, from + 1)
    }
}

/// The end of the bytes of value `i`: its own end for a scalar, the end of its closing
/// delimiter for a compound value (`None` when it has none).
pub open spec fn value_end(t: Seq<EntryView>, i: int) -> Option<int> {
    match close_kind_of(kind_at(t, i)) {
        Some(close) => match first_close_from(t, i, close, i + 1) {
            Some(j) => Some(t[j].byte_end as int),
            None => None,
        },
        None => Some(t[i].byte_end as int),
    }
}

/// The bytes of value `i` can be read: it has an end, and its range lies in the source.
pub open spec fn raw_readable(source: Seq<u8>, t: Seq<EntryView>, i: int) -> bool {
    &&& 0 <= i < t.len()
    &&& value_end(t, i) matches Some(end) && t[i].byte_pos <= end <= source.len()
}

/// The bytes of value `i`.
pub open spec fn raw_bytes(source: Seq<u8>, t: Seq<EntryView>, i: int) -> Seq<u8> {
    source.subrange(t[i].byte_pos as int, value_end(t, i)->0)
}

/// The next child of `parent` from `from` on, and where the search stops: after that
/// child, or at the end of the tape.
pub open spec fn child_scan(t: Seq<EntryView>, parent: int, from: int) -> (Option<int>, int)
    decreases t.len() - from,
{
    if from >= t.len() {
        (None, from)
    } else if is_child(t, from, parent) {
        (Some(from), from + 1)
    } else {
        child_scan(t, parent, from + 1)
    }
}

/// The next key among the children of `parent` from `from` on (`None` at a `}` child or
/// at the end of the tape), and where the search stops.
pub open spec fn key_scan(t: Seq<EntryView>, parent: int, from: int) -> (Option<int>, int)
    decreases t.len() - from,
{
    if from >= t.len() {
        (None, from)
    } else if is_child(t, from, parent) && kind_at(t, from) is RightBrace {
        (None, from + 1)
    } else if is_child(t, from, parent) && kind_at(t, from) is String {
        (Some(from), from + 1)
    } else {
        key_scan(t, parent, from + 1)
    }
}

/// The first child of `parent` from `start` on that starts a value.
pub open spec fn value_scan(t: Seq<EntryView>, parent: int, start: int) -> Option<int>
    decreases t.len() - start,
{
    if start < 0 || start >= t.len() {
        None
    } else if is_child(t, start, parent) && starts_value(kind_at(t, start)) {
        Some(start)
    } else {
        value_scan(t, parent, start + 1)
    }
}

/// One step of the members of object `parent` from `from` on: the key and the value of
/// the next member, and where the next step starts.
pub open spec fn member_step(t: Seq<EntryView>, parent: int, from: int) -> (Option<(int, int)>, int) {
    let key = key_scan(t, parent, from);
    match key.0 {
        None => (None, key.1),
        Some(k) => match value_scan(t, parent, k + 1) {
            None => (None, key.1),
            Some(v) => (Some((k, v)), v + 1),
        },
    }
}

/// One step of the elements of array `parent` from `from` on: the next element (`None`
/// at a `]` child or at the end of the tape), and where the next step starts.
pub open spec fn element_scan(t: Seq<EntryView>, parent: int, from: int) -> (Option<int>, int)
    decreases t.len() - from,
{
    if from >= t.len() {
        (None, from)
    } else if is_child(t, from, parent) && kind_at(t, from) is RightBracket {
        (None, from + 1)
    } else if is_child(t, from, parent) && starts_value(kind_at(t, from)) {
        (Some(from), from + 1)
    } else {
        element_scan(t, parent, from + 1)
    }
}

/// The members of object `parent` that the member steps from `from` on find, in order,
/// until the first step that finds none.
pub open spec fn members_from(t: Seq<EntryView>, parent: int, from: int) -> Seq<(int, int)>
    decreases t.len() - from,
{
    let step = member_step(t, parent, from);
    match step.0 {
        Some(m) => if 0 <= from < step.1 <= t.len() {
            seq![m] + members_from(t, parent, step.1)
        } else {
            Seq::empty()
        },
        None => Seq::empty(),
    }
}

/// The key bytes, without quotes, of the members that the member steps of object `parent`
/// from `from` on find, in order.
pub open spec fn member_keys(source: Seq<u8>, t: Seq<EntryView>, parent: int, from: int) -> Seq<
    Seq<u8>,
> {
    members_from(t, parent, from).map_values(|m: (int, int)| key_bytes(source, t, m.0))
}

/// The elements of array `parent` that the element steps from `from` on find, in order,
/// until the first step that finds none.
pub open spec fn elements_from(t: Seq<EntryView>, parent: int, from: int) -> Seq<int>
    decreases t.len() - from,
{
    let step = element_scan(t, parent, from);
    match step.0 {
        Some(e) => if 0 <= from < step.1 <= t.len() {
            seq![e] + elements_from(t, parent, step.1)
        } else {
            Seq::empty()
        },
        None => Seq::empty(),
    }
}

/// The bytes of key `k` without its quotes can be read and are UTF-8.
pub open spec fn key_readable(source: Seq<u8>, t: Seq<EntryView>, k: int) -> bool {
    &&& 0 <= k < t.len()
    &&& t[k].byte_pos + 2 <= t[k].byte_end <= source.len()
    &&& valid_utf8(key_bytes(source, t, k))
}

/// The bytes of key `k` without its quotes.
pub open spec fn key_bytes(source: Seq<u8>, t: Seq<EntryView>, k: int) -> Seq<u8> {
    source.subrange(t[k].byte_pos + 1, t[k].byte_end - 1)
}

proof fn lemma_key_scan_by_children(t: Seq<EntryView>, parent: int, from: int)
    ensures
        key_scan(t, parent, from) == (match child_scan(t, parent, from).0 {
            None => (None, child_scan(t, parent, from).1),
            Some(j) => if kind_at(t, j) is RightBrace {
                (None, j + 1)
            } else if kind_at(t, j) is String {
                (Some(j), j + 1)
            } else {
                key_scan(t, parent, j + 1)
            },
        }),
    decreases t.len() - from,
{
    if from < t.len() && !is_child(t, from, parent) {
        lemma_key_scan_by_children(t, parent, from + 1);
    }
}

proof fn lemma_element_scan_by_children(t: Seq<EntryView>, parent: int, from: int)
    ensures
        element_scan(t, parent, from) == (match child_scan(t, parent, from).0 {
            None => (None, child_scan(t, parent, from).1),
            Some(j) => if kind_at(t, j) is RightBracket {
                (None, j + 1)
            } else if starts_value(kind_at(t, j)) {
                (Some(j), j + 1)
            } else {
                element_scan(t, parent, j + 1)
            },
        }),
    decreases t.len() - from,
{
    if from < t.len() && !is_child(t, from, parent) {
        lemma_element_scan_by_children(t, parent, from + 1);
    }
}

proof fn lemma_key_scan_bounds(t: Seq<EntryView>, parent: int, from: int)
    ensures
        key_scan(t, parent, from).0 matches Some(k) ==> from <= k < t.len(),
    decreases t.len() - from,
{
    if from < t.len() {
        lemma_key_scan_bounds(t, parent, from + 1);
    }
}

proof fn lemma_value_scan_bounds(t: Seq<EntryView>, parent: int, start: int)
    ensures
        value_scan(t, parent, start) matches Some(v) ==> start <= v < t.len() && is_child(
            t,
            v,
            parent,
        ) && starts_value(kind_at(t, v)),
    decreases t.len() - start,
{
    if 0 <= start < t.len() {
        lemma_value_scan_bounds(t, parent, start + 1);
    }
}

proof fn lemma_element_scan_bounds(t: Seq<EntryView>, parent: int, from: int)
    requires
        0 <= from,
    ensures
        element_scan(t, parent, from).0 matches Some(v) ==> from <= v < t.len() && is_child(
            t,
            v,
            parent,
        ) && starts_value(kind_at(t, v)),
    decreases t.len() - from,
{
    if from < t.len() {
        lemma_element_scan_bounds(t, parent, from + 1);
    }
}

/// The key and the value that a member step finds lie in the tape, the value after the key.
proof fn lemma_scans_bounded(t: Seq<EntryView>, parent: int, from: int)
    ensures
        key_scan(t, parent, from).0 matches Some(k) ==> from <= k < t.len() && (value_scan(
            t,
            parent,
            k + 1,
        ) matches Some(v) ==> k < v < t.len() && is_child(t, v, parent) && starts_value(
            kind_at(t, v),
        )),
{
    lemma_key_scan_bounds(t, parent, from);
    if let Some(k) = key_scan(t, parent, from).0 {
        lemma_value_scan_bounds(t, parent, k + 1);
    }
}

/// A member step from a tape index that finds a member moves forward and stays in the tape.
proof fn lemma_member_step_moves(t: Seq<EntryView>, parent: int, from: int)
    requires
        0 <= from,
    ensures
        member_step(t, parent, from).0 matches Some(m) ==> from <= m.0 < m.1 < t.len()
            && member_step(t, parent, from).1 == m.1 + 1,
{
    lemma_scans_bounded(t, parent, from);
}

proof fn lemma_element_step_moves(t: Seq<EntryView>, parent: int, from: int)
    requires
        0 <= from,
    ensures
        element_scan(t, parent, from).0 matches Some(e) ==> from <= e < t.len() && element_scan(
            t,
            parent,
            from,
        ).1 == e + 1,
    decreases t.len() - from,
{
    if from < t.len() {
        lemma_element_step_moves(t, parent, from + 1);
    }
}

proof fn lemma_child_scan_bounds(t: Seq<EntryView>, parent: int, from: int)
    requires
        0 <= from,
    ensures
        child_scan(t, parent, from).0 matches Some(j) ==> from <= j < t.len() && is_child(
            t,
            j,
            parent,
        ) && child_scan(t, parent, from).1 == j + 1,
        child_scan(t, parent, from).0 is None ==> child_scan(t, parent, from).1 == if from
            < t.len() {
            t.len() as int
        } else {
            from
        },
    decreases t.len() - from,
{
    if from < t.len() && !is_child(t, from, parent) {
        lemma_child_scan_bounds(t, parent, from + 1);
    }
}

// ---------------------------------------------------------------------------------------
// Documents
// ---------------------------------------------------------------------------------------
/// A JSON text together with its tape.
#[derive(Debug)]
pub struct Document<'src, 'tape> {
    source: &'src [u8],
    tape: &'tape Tape,
}

impl<'src, 'tape> Document<'src, 'tape> {
    pub closed spec fn spec_source(&self) -> Seq<u8> {
        self.source@
    }

    pub closed spec fn spec_tape(&self) -> Seq<EntryView> {
        self.tape@
    }

    pub fn new(source: &'src [u8], tape: &'tape Tape) -> (r: Self)
        ensures
            r.spec_source() == source@,
            r.spec_tape() == tape@,
    {
        Document { source, tape }
    }

    /// The value at the first tape entry, which is expected to be the root of the text.
    pub fn root(&self) -> (r: ValueRef<'_, 'src, 'tape>)
        ensures
            r.spec_document() == *self,
            r.spec_index() == 0,
    {
        ValueRef { document: self, tape_index: 0 }
    }

    pub fn tape(&self) -> (r: &'tape Tape)
        ensures
            r@ == self.spec_tape(),
    {
        self.tape
    }

    pub fn source(&self) -> (r: &'src [u8])
        ensures
            r@ == self.spec_source(),
    {
        self.source
    }
}

proof fn lemma_tape_len_fits(document: &Document)
    ensures
        document.spec_tape().len() <= usize::MAX,
{
    document.tape.lemma_len_fits();
}

/// The entry at `index` of the tape of `document`.
fn entry_of<'a>(document: &'a Document, index: usize) -> (r: &'a TapeEntry)
    requires
        index < document.spec_tape().len(),
    ensures
        r@ == document.spec_tape()[index as int],
{
    let entries = document.tape.as_slice();
    assert(entries@[index as int]@ == document.spec_tape()[index as int]);
    &entries[index]
}

/// The next child of `parent` from `from` on, and the index after which the search stopped.
fn next_entry(document: &Document, parent: usize, from: usize) -> (r: (Option<usize>, usize))
    ensures
        r.0 matches Some(j) ==> child_scan(document.spec_tape(), parent as int, from as int).0
            == Some(j as int),
        r.0 is None ==> child_scan(document.spec_tape(), parent as int, from as int).0 is None,
        r.1 == child_scan(document.spec_tape(), parent as int, from as int).1,
{
    let len = document.tape.len();
    let mut next = from;
    while next < len
        invariant
            len == document.spec_tape().len(),
            from <= next,
            child_scan(document.spec_tape(), parent as int, from as int) == child_scan(
                document.spec_tape(),
                parent as int,
                next as int,
            ),
        decreases len - next,
    {
        let index = next;
        next = index + 1;
        let entry = entry_of(document, index);
        match entry.parent_index() {
            Some(p) => {
                if p == parent {
                    return (Some(index), next);
                }
            },
            None => {},
        }
    }
    (None, next)
}

// ---------------------------------------------------------------------------------------
// Values
// ---------------------------------------------------------------------------------------
/// A value of a document: the document and the tape index of the value's first token.
#[derive(Debug, Clone, Copy)]
pub struct ValueRef<'doc, 'src, 'tape> {
    document: &'doc Document<'src, 'tape>,
    tape_index: usize,
}

impl<'doc, 'src, 'tape> ValueRef<'doc, 'src, 'tape> {
    pub closed spec fn spec_document(&self) -> Document<'src, 'tape> {
        *self.document
    }

    pub closed spec fn spec_index_nat(&self) -> nat {
        self.tape_index as nat
    }

    pub open spec fn spec_index(&self) -> int {
        self.spec_index_nat() as int
    }

    pub fn document(&self) -> (r: &'doc Document<'src, 'tape>)
        ensures
            *r == self.spec_document(),
    {
        self.document
    }

    pub fn tape_index(&self) -> (r: usize)
        ensures
            r == self.spec_index(),
    {
        self.tape_index
    }

    /// The kind of the value; its first token must start a value.
    pub fn kind(&self) -> (r: ValueKind)
        requires
            self.spec_index() < self.spec_document().spec_tape().len(),
            starts_value(kind_at(self.spec_document().spec_tape(), self.spec_index())),
        ensures
            r == value_kind_of(kind_at(self.spec_document().spec_tape(), self.spec_index())),
    {
        match self.entry().token_kind() {
            TokenKind::LeftBrace => ValueKind::Object,
            TokenKind::LeftBracket => ValueKind::Array,
            TokenKind::String => ValueKind::String,
            TokenKind::Number => ValueKind::Number,
            TokenKind::True | TokenKind::False => ValueKind::Bool,
            _ => ValueKind::Null,
        }
    }

    /// The bytes of the value: from its first token to the end of its last one (the
    /// closing delimiter of an object or an array).
    pub fn raw(&self) -> (r: &'src [u8])
        requires
            raw_readable(
                self.spec_document().spec_source(),
                self.spec_document().spec_tape(),
                self.spec_index(),
            ),
        ensures
            r@ == raw_bytes(
                self.spec_document().spec_source(),
                self.spec_document().spec_tape(),
                self.spec_index(),
            ),
    {
        let start = self.entry().byte_pos();
        let end = self.byte_end();
        let source: &'src [u8] = self.document.source;
        vstd::slice::slice_subrange(source, start, end)
    }

    /// The members of the value, when it is an object.
    pub fn object_entries(&self) -> (r: Option<ObjectEntryIter<'doc, 'src, 'tape>>)
        requires
            self.spec_index() < self.spec_document().spec_tape().len(),
        ensures
            r is Some <==> kind_at(self.spec_document().spec_tape(), self.spec_index()) is LeftBrace,
            r matches Some(it) ==> it.spec_document() == self.spec_document() && it.spec_parent()
                == self.spec_index() && it.spec_next() == self.spec_index() + 1,
    {
        proof {
            lemma_tape_len_fits(self.document);
        }
        if self.entry().token_kind() == TokenKind::LeftBrace {
            Some(
                ObjectEntryIter {
                    document: self.document,
                    parent_index: self.tape_index,
                    next_index: self.tape_index + 1,
                },
            )
        } else {
            None
        }
    }

    /// The keys of the members of the value, when it is an object.
    pub fn object_keys(&self) -> (r: Option<ObjectKeyIter<'doc, 'src, 'tape>>)
        requires
            self.spec_index() < self.spec_document().spec_tape().len(),
        ensures
            r is Some <==> kind_at(self.spec_document().spec_tape(), self.spec_index()) is LeftBrace,
            r matches Some(it) ==> it.spec_members().spec_document() == self.spec_document()
                && it.spec_members().spec_parent() == self.spec_index()
                && it.spec_members().spec_next() == self.spec_index() + 1,
    {
        match self.object_entries() {
            Some(members) => Some(ObjectKeyIter { members }),
            None => None,
        }
    }

    /// The elements of the value, when it is an array.
    pub fn array_elements(&self) -> (r: Option<ArrayElementIter<'doc, 'src, 'tape>>)
        requires
            self.spec_index() < self.spec_document().spec_tape().len(),
        ensures
            r is Some <==> kind_at(self.spec_document().spec_tape(), self.spec_index())
                is LeftBracket,
            r matches Some(it) ==> it.spec_document() == self.spec_document() && it.spec_parent()
                == self.spec_index() && it.spec_next() == self.spec_index() + 1,
    {
        proof {
            lemma_tape_len_fits(self.document);
        }
        if self.entry().token_kind() == TokenKind::LeftBracket {
            Some(
                ArrayElementIter {
                    document: self.document,
                    parent_index: self.tape_index,
                    next_index: self.tape_index + 1,
                },
            )
        } else {
            None
        }
    }

    fn entry(&self) -> (r: &'doc TapeEntry)
        requires
            self.spec_index() < self.spec_document().spec_tape().len(),
        ensures
            r@ == self.spec_document().spec_tape()[self.spec_index()],
    {
        entry_of(self.document, self.tape_index)
    }

    fn byte_end(&self) -> (r: usize)
        requires
            self.spec_index() < self.spec_document().spec_tape().len(),
            value_end(self.spec_document().spec_tape(), self.spec_index()) is Some,
        ensures
            r == value_end(self.spec_document().spec_tape(), self.spec_index())->0,
    {
        let entry = self.entry();
        match close_kind(entry.token_kind()) {
            None => entry.byte_end(),
            Some(close) => self.matching_close(close).unwrap().byte_end(),
        }
    }

    /// The first later entry that is a child of this value and of kind `close`.
    fn matching_close(&self, close: TokenKind) -> (r: Option<&'doc TapeEntry>)
        requires
            self.spec_index() < self.spec_document().spec_tape().len(),
        ensures
            r matches Some(e) ==> first_close_from(
                self.spec_document().spec_tape(),
                self.spec_index(),
                close,
                self.spec_index() + 1,
            ) matches Some(j) && e@ == self.spec_document().spec_tape()[j],
            r is None ==> first_close_from(
                self.spec_document().spec_tape(),
                self.spec_index(),
                close,
                self.spec_index() + 1,
            ) is None,
    {
        let len = self.document.tape.len();
        let mut j = self.tape_index + 1;
        while j < len
            invariant
                len == self.spec_document().spec_tape().len(),
                self.spec_index() < j,
                first_close_from(
                    self.spec_document().spec_tape(),
                    self.spec_index(),
                    close,
                    self.spec_index() + 1,
                ) == first_close_from(
                    self.spec_document().spec_tape(),
                    self.spec_index(),
                    close,
                    j as int,
                ),
            decreases len - j,
        {
            let entry = entry_of(self.document, j);
            let is_child = match entry.parent_index() {
                Some(p) => p == self.tape_index,
                None => false,
            };
            if is_child && entry.token_kind() == close {
                return Some(entry);
            }
            j = j + 1;
        }
        None
    }
}

fn close_kind(kind: TokenKind) -> (r: Option<TokenKind>)
    ensures
        r == close_kind_of(kind),
{
    match kind {
        TokenKind::LeftBrace => Some(TokenKind::RightBrace),
        TokenKind::LeftBracket => Some(TokenKind::RightBracket),
        _ => None,
    }
}

fn is_value_start(kind: TokenKind) -> (r: bool)
    ensures
        r == starts_value(kind),
{
    matches!(
        kind,
        TokenKind::LeftBrace | TokenKind::LeftBracket | TokenKind::String | TokenKind::Number
            | TokenKind::True | TokenKind::False | TokenKind::Null
    )
}

/// `bytes` read as UTF-8 text, `None` when they are not UTF-8.
///
/// Calls `std::str::from_utf8` and keeps its `Ok` value. Trusted: that the call succeeds
/// exactly when the bytes are valid UTF-8 (vstd's `valid_utf8`), and that the bytes of the
/// text it gives back are the input bytes.
#[verifier::external_body]
fn utf8_str(bytes: &[u8]) -> (r: Option<&str>)
    ensures
        r is Some <==> valid_utf8(bytes@),
        r matches Some(s) ==> s.spec_bytes() == bytes@,
{
    std::str::from_utf8(bytes).ok()
}

// ---------------------------------------------------------------------------------------
// Members and elements
// ---------------------------------------------------------------------------------------
/// The members of an object, in order.
#[derive(Debug, Clone)]
pub struct ObjectEntryIter<'doc, 'src, 'tape> {
    document: &'doc Document<'src, 'tape>,
    parent_index: usize,
    next_index: usize,
}

impl<'doc, 'src, 'tape> ObjectEntryIter<'doc, 'src, 'tape> {
    pub closed spec fn spec_document(&self) -> Document<'src, 'tape> {
        *self.document
    }

    pub closed spec fn spec_parent_nat(&self) -> nat {
        self.parent_index as nat
    }

    pub open spec fn spec_parent(&self) -> int {
        self.spec_parent_nat() as int
    }

    pub closed spec fn spec_next_nat(&self) -> nat {
        self.next_index as nat
    }

    pub open spec fn spec_next(&self) -> int {
        self.spec_next_nat() as int
    }

    /// The step that the next call of `next` takes.
    pub open spec fn spec_step(&self) -> (Option<(int, int)>, int) {
        member_step(self.spec_document().spec_tape(), self.spec_parent(), self.spec_next())
    }

    /// The next member: its key, without quotes, and its value.
    pub fn next(&mut self) -> (r: Option<(&'src str, ValueRef<'doc, 'src, 'tape>)>)
        requires
            old(self).spec_step().0 matches Some((k, v)) ==> key_readable(
                old(self).spec_document().spec_source(),
                old(self).spec_document().spec_tape(),
                k,
            ),
        ensures
            final(self).spec_document() == old(self).spec_document(),
            final(self).spec_parent() == old(self).spec_parent(),
            final(self).spec_next() == old(self).spec_step().1,
            r is Some <==> old(self).spec_step().0 is Some,
            r matches Some(m) ==> {
                let (k, v) = old(self).spec_step().0->0;
                &&& m.0.spec_bytes() == key_bytes(
                    old(self).spec_document().spec_source(),
                    old(self).spec_document().spec_tape(),
                    k,
                )
                &&& m.1.spec_document() == old(self).spec_document()
                &&& m.1.spec_index() == v
                &&& v < old(self).spec_document().spec_tape().len()
                &&& starts_value(kind_at(old(self).spec_document().spec_tape(), v))
            },
    {
        proof {
            lemma_tape_len_fits(self.document);
            lemma_scans_bounded(
                self.spec_document().spec_tape(),
                self.spec_parent(),
                self.spec_next(),
            );
        }
        let key_index = match self.find_next_key() {
            Some(k) => k,
            None => return None,
        };
        let value_index = match self.find_next_value(key_index + 1) {
            Some(v) => v,
            None => return None,
        };
        self.next_index = value_index + 1;
        let key_entry = entry_of(self.document, key_index);
        let start = key_entry.byte_pos();
        let end = key_entry.byte_end();
        let source: &'src [u8] = self.document.source;
        let key = vstd::slice::slice_subrange(source, start + 1, end - 1);
        let key = utf8_str(key).unwrap();
        Some((key, ValueRef { document: self.document, tape_index: value_index }))
    }

    /// The members left, in order: what the calls of `next` give out before the first
    /// `None`. The key of each of them must be readable.
    pub fn collect(self) -> (r: Vec<(&'src str, ValueRef<'doc, 'src, 'tape>)>)
        requires
            forall|i: int|
                0 <= i < members_from(
                    self.spec_document().spec_tape(),
                    self.spec_parent(),
                    self.spec_next(),
                ).len() ==> key_readable(
                    self.spec_document().spec_source(),
                    self.spec_document().spec_tape(),
                    #[trigger] members_from(
                        self.spec_document().spec_tape(),
                        self.spec_parent(),
                        self.spec_next(),
                    )[i].0,
                ),
        ensures
            r@.len() == members_from(
                self.spec_document().spec_tape(),
                self.spec_parent(),
                self.spec_next(),
            ).len(),
            forall|i: int|
                0 <= i < r@.len() ==> {
                    let m = members_from(
                        self.spec_document().spec_tape(),
                        self.spec_parent(),
                        self.spec_next(),
                    )[i];
                    &&& (#[trigger] r@[i]).0.spec_bytes() == key_bytes(
                        self.spec_document().spec_source(),
                        self.spec_document().spec_tape(),
                        m.0,
                    )
                    &&& r@[i].1.spec_document() == self.spec_document()
                    &&& r@[i].1.spec_index() == m.1
                },
            r@.map_values(|m: (&'src str, ValueRef<'doc, 'src, 'tape>)| m.0.spec_bytes())
                == member_keys(
                self.spec_document().spec_source(),
                self.spec_document().spec_tape(),
                self.spec_parent(),
                self.spec_next(),
            ),
    {
        let ghost t = self.spec_document().spec_tape();
        let ghost src = self.spec_document().spec_source();
        let ghost doc = self.spec_document();
        let ghost parent = self.spec_parent();
        let ghost all = members_from(t, parent, self.spec_next());
        let ghost old_next = self.spec_next();
        let mut it = self;
        let mut out: Vec<(&'src str, ValueRef<'doc, 'src, 'tape>)> = Vec::new();
        loop
            invariant_except_break
                members_from(t, parent, it.spec_next()) == all.subrange(
                    out@.len() as int,
                    all.len() as int,
                ),
            invariant
                it.spec_document() == doc,
                doc.spec_tape() == t,
                doc.spec_source() == src,
                it.spec_parent() == parent,
                forall|i: int| 0 <= i < all.len() ==> key_readable(src, t, #[trigger] all[i].0),
                out@.len() <= all.len(),
                forall|i: int|
                    0 <= i < out@.len() ==> {
                        &&& (#[trigger] out@[i]).0.spec_bytes() == key_bytes(src, t, all[i].0)
                        &&& out@[i].1.spec_document() == doc
                        &&& out@[i].1.spec_index() == all[i].1
                    },
            ensures
                out@.len() == all.len(),
                forall|i: int|
                    0 <= i < out@.len() ==> {
                        &&& (#[trigger] out@[i]).0.spec_bytes() == key_bytes(src, t, all[i].0)
                        &&& out@[i].1.spec_document() == doc
                        &&& out@[i].1.spec_index() == all[i].1
                    },
            decreases t.len() - it.spec_next(),
        {
            proof {
                lemma_member_step_moves(t, parent, it.spec_next());
                let from = it.spec_next();
                let step = member_step(t, parent, from);
                assert(it.spec_step() == step);
                if step.0 is Some {
                    let m = step.0->0;
                    assert(members_from(t, parent, from) == seq![m] + members_from(
                        t,
                        parent,
                        step.1,
                    ));
                    assert(members_from(t, parent, from)[0] == m);
                    assert(all[out@.len() as int] == m);
                } else {
                    assert(members_from(t, parent, from) =~= Seq::<(int, int)>::empty());
                }
            }
            match it.next() {
                Some(m) => {
                    out.push(m);
                    proof {
                        assert(all.subrange(out@.len() as int, all.len() as int) =~= all.subrange(
                            out@.len() - 1,
                            all.len() as int,
                        ).drop_first());
                    }
                },
                None => break,
            }
        }
        assert(out@.map_values(|m: (&'src str, ValueRef<'doc, 'src, 'tape>)| m.0.spec_bytes())
            =~= member_keys(src, t, parent, old_next));
        out
    }

    fn find_next_key(&mut self) -> (r: Option<usize>)
        ensures
            final(self).spec_document() == old(self).spec_document(),
            final(self).spec_parent() == old(self).spec_parent(),
            final(self).spec_next() == key_scan(
                old(self).spec_document().spec_tape(),
                old(self).spec_parent(),
                old(self).spec_next(),
            ).1,
            r matches Some(k) ==> key_scan(
                old(self).spec_document().spec_tape(),
                old(self).spec_parent(),
                old(self).spec_next(),
            ).0 == Some(k as int),
            r is None ==> key_scan(
                old(self).spec_document().spec_tape(),
                old(self).spec_parent(),
                old(self).spec_next(),
            ).0 is None,
    {
        let ghost t = self.spec_document().spec_tape();
        loop
            invariant
                self.spec_document() == old(self).spec_document(),
                self.spec_parent() == old(self).spec_parent(),
                key_scan(t, self.spec_parent(), old(self).spec_next()) == key_scan(
                    t,
                    self.spec_parent(),
                    self.spec_next(),
                ),
                t == self.spec_document().spec_tape(),
            decreases t.len() - self.spec_next(),
        {
            let ghost from = self.next_index as int;
            proof {
                lemma_key_scan_by_children(t, self.spec_parent(), from);
                lemma_child_scan_bounds(t, self.spec_parent(), from);
            }
            let (found, next) = next_entry(self.document, self.parent_index, self.next_index);
            self.next_index = next;
            match found {
                None => return None,
                Some(index) => {
                    let kind = entry_of(self.document, index).token_kind();
                    if kind == TokenKind::RightBrace {
                        return None;
                    }
                    if kind == TokenKind::String {
                        return Some(index);
                    }
                },
            }
        }
    }

    fn find_next_value(&self, start_index: usize) -> (r: Option<usize>)
        ensures
            r matches Some(v) ==> value_scan(
                self.spec_document().spec_tape(),
                self.spec_parent(),
                start_index as int,
            ) == Some(v as int),
            r is None ==> value_scan(
                self.spec_document().spec_tape(),
                self.spec_parent(),
                start_index as int,
            ) is None,
    {
        let len = self.document.tape.len();
        let mut j = start_index;
        while j < len
            invariant
                len == self.spec_document().spec_tape().len(),
                start_index <= j,
                value_scan(self.spec_document().spec_tape(), self.spec_parent(), start_index as int)
                    == value_scan(self.spec_document().spec_tape(), self.spec_parent(), j as int),
            decreases len - j,
        {
            let entry = entry_of(self.document, j);
            let is_child = match entry.parent_index() {
                Some(p) => p == self.parent_index,
                None => false,
            };
            if is_child && is_value_start(entry.token_kind()) {
                return Some(j);
            }
            j = j + 1;
        }
        None
    }
}

/// The keys of the members of an object, in order.
#[derive(Debug, Clone)]
pub struct ObjectKeyIter<'doc, 'src, 'tape> {
    members: ObjectEntryIter<'doc, 'src, 'tape>,
}

impl<'doc, 'src, 'tape> ObjectKeyIter<'doc, 'src, 'tape> {
    pub closed spec fn spec_members(&self) -> ObjectEntryIter<'doc, 'src, 'tape> {
        self.members
    }

    /// The keys of the members left, in order: the keys of the members that the member
    /// cursor's `collect` gives out.
    pub fn collect(self) -> (r: Vec<&'src str>)
        requires
            forall|i: int|
                0 <= i < members_from(
                    self.spec_members().spec_document().spec_tape(),
                    self.spec_members().spec_parent(),
                    self.spec_members().spec_next(),
                ).len() ==> key_readable(
                    self.spec_members().spec_document().spec_source(),
                    self.spec_members().spec_document().spec_tape(),
                    #[trigger] members_from(
                        self.spec_members().spec_document().spec_tape(),
                        self.spec_members().spec_parent(),
                        self.spec_members().spec_next(),
                    )[i].0,
                ),
        ensures
            r@.len() == members_from(
                self.spec_members().spec_document().spec_tape(),
                self.spec_members().spec_parent(),
                self.spec_members().spec_next(),
            ).len(),
            forall|i: int|
                0 <= i < r@.len() ==> (#[trigger] r@[i]).spec_bytes() == key_bytes(
                    self.spec_members().spec_document().spec_source(),
                    self.spec_members().spec_document().spec_tape(),
                    members_from(
                        self.spec_members().spec_document().spec_tape(),
                        self.spec_members().spec_parent(),
                        self.spec_members().spec_next(),
                    )[i].0,
                ),
            r@.map_values(|k: &'src str| k.spec_bytes()) == member_keys(
                self.spec_members().spec_document().spec_source(),
                self.spec_members().spec_document().spec_tape(),
                self.spec_members().spec_parent(),
                self.spec_members().spec_next(),
            ),
    {
        proof {
            assert(self.spec_members() == self.members);
        }
        let members = self.members.collect();
        let mut keys: Vec<&'src str> = Vec::new();
        let mut i: usize = 0;
        while i < members.len()
            invariant
                i <= members@.len(),
                keys@.len() == i,
                forall|j: int| 0 <= j < i ==> #[trigger] keys@[j] == members@[j].0,
            decreases members@.len() - i,
        {
            keys.push(members[i].0);
            i = i + 1;
        }
        assert(keys@.map_values(|k: &'src str| k.spec_bytes()) =~= members@.map_values(
            |m: (&'src str, ValueRef<'doc, 'src, 'tape>)| m.0.spec_bytes(),
        ));
        keys
    }

    /// The key of the next member, without quotes.
    pub fn next(&mut self) -> (r: Option<&'src str>)
        requires
            old(self).spec_members().spec_step().0 matches Some((k, v)) ==> key_readable(
                old(self).spec_members().spec_document().spec_source(),
                old(self).spec_members().spec_document().spec_tape(),
                k,
            ),
        ensures
            final(self).spec_members().spec_document() == old(self).spec_members().spec_document(),
            final(self).spec_members().spec_parent() == old(self).spec_members().spec_parent(),
            final(self).spec_members().spec_next() == old(self).spec_members().spec_step().1,
            r is Some <==> old(self).spec_members().spec_step().0 is Some,
            r matches Some(key) ==> key.spec_bytes() == key_bytes(
                old(self).spec_members().spec_document().spec_source(),
                old(self).spec_members().spec_document().spec_tape(),
                (old(self).spec_members().spec_step().0->0).0,
            ),
    {
        match self.members.next() {
            Some((key, _)) => Some(key),
            None => None,
        }
    }
}

/// The elements of an array, in order.
#[derive(Debug, Clone)]
pub struct ArrayElementIter<'doc, 'src, 'tape> {
    document: &'doc Document<'src, 'tape>,
    parent_index: usize,
    next_index: usize,
}

impl<'doc, 'src, 'tape> ArrayElementIter<'doc, 'src, 'tape> {
    pub closed spec fn spec_document(&self) -> Document<'src, 'tape> {
        *self.document
    }

    pub closed spec fn spec_parent_nat(&self) -> nat {
        self.parent_index as nat
    }

    pub open spec fn spec_parent(&self) -> int {
        self.spec_parent_nat() as int
    }

    pub closed spec fn spec_next_nat(&self) -> nat {
        self.next_index as nat
    }

    pub open spec fn spec_next(&self) -> int {
        self.spec_next_nat() as int
    }

    /// The step that the next call of `next` takes.
    pub open spec fn spec_step(&self) -> (Option<int>, int) {
        element_scan(self.spec_document().spec_tape(), self.spec_parent(), self.spec_next())
    }

    /// The elements left, in order: what the calls of `next` give out before the first
    /// `None`.
    pub fn collect(self) -> (r: Vec<ValueRef<'doc, 'src, 'tape>>)
        ensures
            r@.len() == elements_from(
                self.spec_document().spec_tape(),
                self.spec_parent(),
                self.spec_next(),
            ).len(),
            forall|i: int|
                0 <= i < r@.len() ==> (#[trigger] r@[i]).spec_document() == self.spec_document()
                    && r@[i].spec_index() == elements_from(
                    self.spec_document().spec_tape(),
                    self.spec_parent(),
                    self.spec_next(),
                )[i],
    {
        let ghost t = self.spec_document().spec_tape();
        let ghost doc = self.spec_document();
        let ghost parent = self.spec_parent();
        let ghost all = elements_from(t, parent, self.spec_next());
        let mut it = self;
        let mut out: Vec<ValueRef<'doc, 'src, 'tape>> = Vec::new();
        loop
            invariant_except_break
                elements_from(t, parent, it.spec_next()) == all.subrange(
                    out@.len() as int,
                    all.len() as int,
                ),
            invariant
                it.spec_document() == doc,
                doc.spec_tape() == t,
                it.spec_parent() == parent,
                out@.len() <= all.len(),
                forall|i: int|
                    0 <= i < out@.len() ==> (#[trigger] out@[i]).spec_document() == doc
                        && out@[i].spec_index() == all[i],
            ensures
                out@.len() == all.len(),
                forall|i: int|
                    0 <= i < out@.len() ==> (#[trigger] out@[i]).spec_document() == doc
                        && out@[i].spec_index() == all[i],
            decreases t.len() - it.spec_next(),
        {
            proof {
                let from = it.spec_next();
                let step = element_scan(t, parent, from);
                lemma_element_step_moves(t, parent, from);
                assert(it.spec_step() == step);
                if step.0 is Some {
                    let e = step.0->0;
                    assert(elements_from(t, parent, from) == seq![e] + elements_from(
                        t,
                        parent,
                        step.1,
                    ));
                    assert(elements_from(t, parent, from)[0] == e);
                    assert(all[out@.len() as int] == e);
                } else {
                    assert(elements_from(t, parent, from) =~= Seq::<int>::empty());
                }
            }
            match it.next() {
                Some(v) => {
                    out.push(v);
                    proof {
                        assert(all.subrange(out@.len() as int, all.len() as int) =~= all.subrange(
                            out@.len() - 1,
                            all.len() as int,
                        ).drop_first());
                    }
                },
                None => break,
            }
        }
        out
    }

    /// The next element.
    pub fn next(&mut self) -> (r: Option<ValueRef<'doc, 'src, 'tape>>)
        ensures
            final(self).spec_document() == old(self).spec_document(),
            final(self).spec_parent() == old(self).spec_parent(),
            final(self).spec_next() == old(self).spec_step().1,
            r is Some <==> old(self).spec_step().0 is Some,
            r matches Some(v) ==> v.spec_document() == old(self).spec_document() && v.spec_index()
                == old(self).spec_step().0->0 && v.spec_index()
                < old(self).spec_document().spec_tape().len() && starts_value(
                kind_at(old(self).spec_document().spec_tape(), v.spec_index()),
            ),
    {
        let ghost t = self.spec_document().spec_tape();
        proof {
            lemma_element_scan_bounds(t, self.spec_parent(), self.spec_next());
        }
        loop
            invariant
                self.spec_document() == old(self).spec_document(),
                self.spec_parent() == old(self).spec_parent(),
                element_scan(t, self.spec_parent(), old(self).spec_next()) == element_scan(
                    t,
                    self.spec_parent(),
                    self.spec_next(),
                ),
                t == self.spec_document().spec_tape(),
            decreases t.len() - self.spec_next(),
        {
            let ghost from = self.next_index as int;
            proof {
                lemma_element_scan_by_children(t, self.spec_parent(), from);
                lemma_child_scan_bounds(t, self.spec_parent(), from);
            }
            let (found, next) = next_entry(self.document, self.parent_index, self.next_index);
            self.next_index = next;
            match found {
                None => return None,
                Some(index) => {
                    let kind = entry_of(self.document, index).token_kind();
                    if kind == TokenKind::RightBracket {
                        return None;
                    }
                    if is_value_start(kind) {
                        return Some(ValueRef { document: self.document, tape_index: index });
                    }
                },
            }
        }
    }
}

} // verus!
