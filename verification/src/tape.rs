use vstd::prelude::*;

use crate::ascii::{COLON, COMMA, LEFT_BRACE, LEFT_BRACKET, RIGHT_BRACE, RIGHT_BRACKET};

verus! {

/// The kind of a token on the tape, as the pipeline encodes it with a `u32` code.
#[derive(Debug, Copy, Clone, PartialEq, Eq, Structural)]
pub enum TokenKind {
    LeftBrace,
    RightBrace,
    LeftBracket,
    RightBracket,
    Colon,
    Comma,
    String,
    Number,
    True,
    False,
    Null,
    Invalid,
    Unknown(u32),
}

/// The token kind that a raw `u32` code stands for.
pub open spec fn kind_from_code(raw: u32) -> TokenKind {
    if raw == 1 {
        TokenKind::LeftBrace
    } else if raw == 2 {
        TokenKind::RightBrace
    } else if raw == 3 {
        TokenKind::LeftBracket
    } else if raw == 4 {
        TokenKind::RightBracket
    } else if raw == 5 {
        TokenKind::Colon
    } else if raw == 6 {
        TokenKind::Comma
    } else if raw == 7 {
        TokenKind::String
    } else if raw == 8 {
        TokenKind::Number
    } else if raw == 9 {
        TokenKind::True
    } else if raw == 10 {
        TokenKind::False
    } else if raw == 11 {
        TokenKind::Null
    } else if raw == 12 {
        TokenKind::Invalid
    } else {
        TokenKind::Unknown(raw)
    }
}

/// The `u32` code of a token kind.
pub open spec fn kind_code(kind: TokenKind) -> u32 {
    match kind {
        TokenKind::LeftBrace => 1,
        TokenKind::RightBrace => 2,
        TokenKind::LeftBracket => 3,
        TokenKind::RightBracket => 4,
        TokenKind::Colon => 5,
        TokenKind::Comma => 6,
        TokenKind::String => 7,
        TokenKind::Number => 8,
        TokenKind::True => 9,
        TokenKind::False => 10,
        TokenKind::Null => 11,
        TokenKind::Invalid => 12,
        TokenKind::Unknown(raw) => raw,
    }
}

pub open spec fn spec_is_open(kind: TokenKind) -> bool {
    kind is LeftBrace || kind is LeftBracket
}

pub open spec fn spec_is_close(kind: TokenKind) -> bool {
    kind is RightBrace || kind is RightBracket
}

pub open spec fn spec_is_separator(kind: TokenKind) -> bool {
    kind is Colon || kind is Comma
}

pub open spec fn spec_is_scalar(kind: TokenKind) -> bool {
    kind is String || kind is Number || kind is True || kind is False || kind is Null
        || kind is Invalid
}

pub open spec fn spec_as_byte(kind: TokenKind) -> Option<u8> {
    match kind {
        TokenKind::LeftBrace => Some(LEFT_BRACE),
        TokenKind::RightBrace => Some(RIGHT_BRACE),
        TokenKind::LeftBracket => Some(LEFT_BRACKET),
        TokenKind::RightBracket => Some(RIGHT_BRACKET),
        TokenKind::Colon => Some(COLON),
        TokenKind::Comma => Some(COMMA),
        _ => None,
    }
}

impl TokenKind {
    /// Whether the kind opens a compound value (`{` or `[`).
    pub fn is_open(self) -> (r: bool)
        ensures
            r == spec_is_open(self),
    {
        matches!(self, TokenKind::LeftBrace | TokenKind::LeftBracket)
    }

    /// Whether the kind closes a compound value (`}` or `]`).
    pub fn is_close(self) -> (r: bool)
        ensures
            r == spec_is_close(self),
    {
        matches!(self, TokenKind::RightBrace | TokenKind::RightBracket)
    }

    /// Whether the kind separates members (`:` or `,`).
    pub fn is_separator(self) -> (r: bool)
        ensures
            r == spec_is_separator(self),
    {
        matches!(self, TokenKind::Colon | TokenKind::Comma)
    }

    /// Whether the kind is a scalar token (a string, number, literal or an invalid scalar).
    pub fn is_scalar(self) -> (r: bool)
        ensures
            r == spec_is_scalar(self),
    {
        matches!(
            self,
            TokenKind::String | TokenKind::Number | TokenKind::True | TokenKind::False
                | TokenKind::Null | TokenKind::Invalid
        )
    }

    /// The byte of a structural kind, `None` for the others.
    pub fn as_byte(self) -> (r: Option<u8>)
        ensures
            r == spec_as_byte(self),
    {
        match self {
            TokenKind::LeftBrace => Some(LEFT_BRACE),
            TokenKind::RightBrace => Some(RIGHT_BRACE),
            TokenKind::LeftBracket => Some(LEFT_BRACKET),
            TokenKind::RightBracket => Some(RIGHT_BRACKET),
            TokenKind::Colon => Some(COLON),
            TokenKind::Comma => Some(COMMA),
            TokenKind::String | TokenKind::Number | TokenKind::True | TokenKind::False
            | TokenKind::Null | TokenKind::Invalid => None,
            TokenKind::Unknown(_) => None,
        }
    }

    /// The kind that a raw code stands for.
    pub(crate) fn from_code(raw: u32) -> (r: TokenKind)
        ensures
            r == kind_from_code(raw),
    {
        match raw {
            1 => TokenKind::LeftBrace,
            2 => TokenKind::RightBrace,
            3 => TokenKind::LeftBracket,
            4 => TokenKind::RightBracket,
            5 => TokenKind::Colon,
            6 => TokenKind::Comma,
            7 => TokenKind::String,
            8 => TokenKind::Number,
            9 => TokenKind::True,
            10 => TokenKind::False,
            11 => TokenKind::Null,
            12 => TokenKind::Invalid,
            _ => TokenKind::Unknown(raw),
        }
    }

    /// The raw code of the kind.
    pub(crate) fn code(self) -> (r: u32)
        ensures
            r == kind_code(self),
    {
        match self {
            TokenKind::LeftBrace => 1,
            TokenKind::RightBrace => 2,
            TokenKind::LeftBracket => 3,
            TokenKind::RightBracket => 4,
            TokenKind::Colon => 5,
            TokenKind::Comma => 6,
            TokenKind::String => 7,
            TokenKind::Number => 8,
            TokenKind::True => 9,
            TokenKind::False => 10,
            TokenKind::Null => 11,
            TokenKind::Invalid => 12,
            TokenKind::Unknown(raw) => raw,
        }
    }
}

impl From<u32> for TokenKind {
    fn from(raw: u32) -> (r: Self) {
        TokenKind::from_code(raw)
    }
}

impl vstd::std_specs::convert::FromSpecImpl<u32> for TokenKind {
    open spec fn obeys_from_spec() -> bool {
        true
    }

    open spec fn from_spec(v: u32) -> Self {
        kind_from_code(v)
    }
}

impl From<TokenKind> for u32 {
    fn from(kind: TokenKind) -> (r: Self) {
        kind.code()
    }
}

impl vstd::std_specs::convert::FromSpecImpl<TokenKind> for u32 {
    open spec fn obeys_from_spec() -> bool {
        true
    }

    open spec fn from_spec(v: TokenKind) -> Self {
        kind_code(v)
    }
}

/// Every raw code survives a round trip through `TokenKind`.
pub proof fn lemma_code_of_kind_from_code(raw: u32)
    ensures
        kind_code(kind_from_code(raw)) == raw,
{
}

/// A kind survives a round trip through its code, unless it is an `Unknown` kind that
/// carries one of the codes of the named kinds.
pub proof fn lemma_kind_from_code_of_kind(kind: TokenKind)
    requires
        !(kind matches TokenKind::Unknown(raw) && 1 <= raw <= 12),
    ensures
        kind_from_code(kind_code(kind)) == kind,
{
}

/// What a tape entry holds, as plain values.
pub struct EntryView {
    pub byte_pos: u32,
    pub byte_end: u32,
    pub depth: i32,
    pub parent: i32,
    pub kind: u32,
}

/// The tape index of the entry's parent, when it has one.
pub open spec fn spec_parent_index(e: EntryView) -> Option<int> {
    if e.parent >= 0 {
        Some(e.parent as int)
    } else {
        None
    }
}

/// One token of the tape: its half-open byte range, the nesting depth after it, the tape
/// index of its parent (`-1` for none) and its kind (kept as the kind its code stands for).
#[derive(Debug, Copy, Clone, PartialEq, Eq, Structural)]
pub struct TapeEntry {
    byte_pos: u32,
    byte_end: u32,
    depth: i32,
    parent: i32,
    token_kind: TokenKind,
}

impl View for TapeEntry {
    type V = EntryView;

    closed spec fn view(&self) -> EntryView {
        EntryView {
            byte_pos: self.byte_pos,
            byte_end: self.byte_end,
            depth: self.depth,
            parent: self.parent,
            kind: kind_code(self.token_kind),
        }
    }
}

impl TapeEntry {
    pub fn new(byte_pos: u32, byte_end: u32, depth: i32, parent: i32, token_kind: TokenKind) -> (r:
        Self)
        ensures
            r@ == (EntryView { byte_pos, byte_end, depth, parent, kind: kind_code(token_kind) }),
    {
        proof {
            lemma_code_of_kind_from_code(kind_code(token_kind));
        }
        let token_kind = TokenKind::from_code(token_kind.code());
        TapeEntry { byte_pos, byte_end, depth, parent, token_kind }
    }

    pub fn token_kind(&self) -> (r: TokenKind)
        ensures
            r == kind_from_code(self@.kind),
    {
        TokenKind::from_code(self.token_kind.code())
    }

    pub fn byte_pos(&self) -> (r: usize)
        ensures
            r == self@.byte_pos,
    {
        self.byte_pos as usize
    }

    pub fn byte_end(&self) -> (r: usize)
        ensures
            r == self@.byte_end,
    {
        self.byte_end as usize
    }

    pub fn byte_range(&self) -> (r: std::ops::Range<usize>)
        ensures
            r.start == self@.byte_pos,
            r.end == self@.byte_end,
    {
        std::ops::Range { start: self.byte_pos(), end: self.byte_end() }
    }

    /// The bytes of `json` that the entry covers, `None` when its range does not lie in `json`.
    pub fn source<'a>(&self, json: &'a [u8]) -> (r: Option<&'a [u8]>)
        ensures
            r is Some <==> self@.byte_pos <= self@.byte_end <= json@.len(),
            r matches Some(b) ==> b@ == json@.subrange(self@.byte_pos as int, self@.byte_end as int),
    {
        let start = self.byte_pos();
        let end = self.byte_end();
        if start <= end && end <= json.len() {
            Some(vstd::slice::slice_subrange(json, start, end))
        } else {
            None
        }
    }

    pub fn depth(&self) -> (r: i32)
        ensures
            r == self@.depth,
    {
        self.depth
    }

    pub fn parent(&self) -> (r: i32)
        ensures
            r == self@.parent,
    {
        self.parent
    }

    pub fn parent_index(&self) -> (r: Option<usize>)
        ensures
            r matches Some(i) ==> spec_parent_index(self@) == Some(i as int),
            r is None ==> spec_parent_index(self@) is None,
    {
        if self.parent >= 0 {
            Some(self.parent as usize)
        } else {
            None
        }
    }
}

/// The views of a sequence of entries.
pub open spec fn views(entries: Seq<TapeEntry>) -> Seq<EntryView> {
    entries.map_values(|e: TapeEntry| e@)
}

/// The tape: the tokens of a JSON text in the order in which they occur.
#[derive(Debug, Clone, PartialEq, Eq)]
pub struct Tape {
    entries: Vec<TapeEntry>,
}

impl View for Tape {
    type V = Seq<EntryView>;

    closed spec fn view(&self) -> Seq<EntryView> {
        views(self.entries@)
    }
}

impl Default for Tape {
    fn default() -> (r: Self)
        ensures
            r@ == Seq::<EntryView>::empty(),
    {
        let r = Tape { entries: Vec::new() };
        assert(r@ =~= Seq::<EntryView>::empty());
        r
    }
}

impl Tape {
    /// A tape has at most `usize::MAX` entries.
    pub proof fn lemma_len_fits(&self)
        ensures
            self@.len() <= usize::MAX,
    {
        assert(self.entries.len() as int == self.entries@.len());
    }

    pub fn new(entries: Vec<TapeEntry>) -> (r: Self)
        ensures
            r@ == views(entries@),
    {
        Tape { entries }
    }

    pub fn iter(&self) -> (r: TapeIter<'_>)
        ensures
            views(r.spec_entries()) == self@,
            r.spec_pos() == 0,
            r.spec_current_depth() == 0,
    {
        TapeIter { entries: self.entries.as_slice(), pos: 0, current_depth: 0 }
    }

    pub fn as_slice(&self) -> (r: &[TapeEntry])
        ensures
            views(r@) == self@,
    {
        self.entries.as_slice()
    }

    pub fn entries(&self) -> (r: &[TapeEntry])
        ensures
            views(r@) == self@,
    {
        self.entries.as_slice()
    }

    pub fn into_entries(self) -> (r: Vec<TapeEntry>)
        ensures
            views(r@) == self@,
    {
        self.entries
    }

    pub fn get(&self, index: usize) -> (r: Option<&TapeEntry>)
        ensures
            r is Some <==> index < self@.len(),
            r matches Some(e) ==> e@ == self@[index as int],
    {
        if index < self.entries.len() {
            Some(&self.entries[index])
        } else {
            None
        }
    }

    pub fn root(&self) -> (r: Option<&TapeEntry>)
        ensures
            r is Some <==> self@.len() > 0,
            r matches Some(e) ==> e@ == self@[0],
    {
        self.get(0)
    }

    /// The entry that the entry at `index` names as its parent.
    pub fn parent_of(&self, index: usize) -> (r: Option<&TapeEntry>)
        ensures
            r is Some <==> index < self@.len() && (spec_parent_index(self@[index as int]) matches Some(
                p,
            ) && p < self@.len()),
            r matches Some(e) ==> e@ == self@[spec_parent_index(self@[index as int])->0],
    {
        let entry = self.get(index)?;
        let parent_index = entry.parent_index()?;
        self.get(parent_index)
    }

    pub fn len(&self) -> (r: usize)
        ensures
            r == self@.len(),
    {
        self.entries.len()
    }

    pub fn is_empty(&self) -> (r: bool)
        ensures
            r == (self@.len() == 0),
    {
        self.entries.len() == 0
    }
}

impl From<Vec<TapeEntry>> for Tape {
    fn from(tape: Vec<TapeEntry>) -> (r: Self)
        ensures
            r@ == views(tape@),
    {
        Tape { entries: tape }
    }
}

impl vstd::std_specs::convert::FromSpecImpl<Vec<TapeEntry>> for Tape {
    open spec fn obeys_from_spec() -> bool {
        true
    }

    closed spec fn from_spec(v: Vec<TapeEntry>) -> Self {
        Tape { entries: v }
    }
}

/// A cursor over the entries of a tape that remembers the depth of the last entry it gave out.
#[derive(Debug)]
pub struct TapeIter<'a> {
    entries: &'a [TapeEntry],
    pos: usize,
    current_depth: usize,
}

impl<'a> Clone for TapeIter<'a> {
    fn clone(&self) -> (r: Self)
        ensures
            r == *self,
    {
        proof {
            use_type_invariant(self);
        }
        TapeIter { entries: self.entries, pos: self.pos, current_depth: self.current_depth }
    }
}

impl<'a> TapeIter<'a> {
    pub closed spec fn spec_entries(&self) -> Seq<TapeEntry> {
        self.entries@
    }

    pub closed spec fn spec_pos_nat(&self) -> nat {
        self.pos as nat
    }

    pub open spec fn spec_pos(&self) -> int {
        self.spec_pos_nat() as int
    }

    pub closed spec fn spec_current_depth_nat(&self) -> nat {
        self.current_depth as nat
    }

    pub open spec fn spec_current_depth(&self) -> int {
        self.spec_current_depth_nat() as int
    }

    #[verifier::type_invariant]
    closed spec fn inv(&self) -> bool {
        self.pos <= self.entries@.len()
    }

    /// The depth of the entry last given out, `0` before the first one or when that depth
    /// is negative.
    pub fn current_depth(&self) -> (r: usize)
        ensures
            r == self.spec_current_depth(),
    {
        self.current_depth
    }

    /// Gives out the next entry and records its depth.
    pub fn next(&mut self) -> (r: Option<&'a TapeEntry>)
        ensures
            final(self).spec_entries() == old(self).spec_entries(),
            old(self).spec_pos() < old(self).spec_entries().len() ==> {
                &&& r matches Some(e) && *e == old(self).spec_entries()[old(self).spec_pos()]
                &&& final(self).spec_pos() == old(self).spec_pos() + 1
                &&& final(self).spec_current_depth() == depth_as_index(
                    old(self).spec_entries()[old(self).spec_pos()]@.depth,
                )
            },
            old(self).spec_pos() >= old(self).spec_entries().len() ==> {
                &&& r is None
                &&& final(self).spec_pos() == old(self).spec_pos()
                &&& final(self).spec_current_depth() == old(self).spec_current_depth()
            },
    {
        proof {
            use_type_invariant(&*self);
        }
        if self.pos < self.entries.len() {
            let entry = &self.entries[self.pos];
            self.pos = self.pos + 1;
            self.current_depth = depth_to_usize(entry.depth());
            Some(entry)
        } else {
            None
        }
    }

    /// Gives out every entry left, in order: the entries that the calls of `next` give out
    /// before the first `None`.
    pub fn collect(self) -> (r: Vec<&'a TapeEntry>)
        ensures
            r@.len() == self.spec_entries().len() - self.spec_pos(),
            forall|i: int|
                0 <= i < r@.len() ==> *#[trigger] r@[i] == self.spec_entries()[self.spec_pos()
                    + i],
    {
        let ghost entries = self.spec_entries();
        let ghost start = self.spec_pos();
        proof {
            use_type_invariant(&self);
        }
        let mut it = self;
        let mut out: Vec<&'a TapeEntry> = Vec::new();
        loop
            invariant
                it.spec_entries() == entries,
                start <= it.spec_pos() <= entries.len(),
                out@.len() == it.spec_pos() - start,
                forall|i: int| 0 <= i < out@.len() ==> *#[trigger] out@[i] == entries[start + i],
            ensures
                out@.len() == entries.len() - start,
                forall|i: int| 0 <= i < out@.len() ==> *#[trigger] out@[i] == entries[start + i],
            decreases entries.len() - it.spec_pos(),
        {
            match it.next() {
                Some(e) => {
                    proof {
                        use_type_invariant(&it);
                    }
                    out.push(e);
                },
                None => break,
            }
        }
        out
    }

    /// The number of entries left, as a lower and an upper bound.
    pub fn size_hint(&self) -> (r: (usize, Option<usize>))
        ensures
            r.0 == self.spec_entries().len() - self.spec_pos(),
            r.1 == Some(r.0),
    {
        proof {
            use_type_invariant(self);
        }
        let n = self.entries.len() - self.pos;
        (n, Some(n))
    }

    /// The number of entries left.
    pub fn len(&self) -> (r: usize)
        ensures
            r == self.spec_entries().len() - self.spec_pos(),
    {
        proof {
            use_type_invariant(self);
        }
        self.entries.len() - self.pos
    }
}

/// A depth read as an index: negative depths count as `0`.
pub open spec fn depth_as_index(depth: i32) -> int {
    if depth >= 0 {
        depth as int
    } else {
        0
    }
}

fn depth_to_usize(depth: i32) -> (r: usize)
    ensures
        r == depth_as_index(depth),
{
    if depth >= 0 {
        depth as usize
    } else {
        0
    }
}

} // verus!
