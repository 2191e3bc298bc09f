use vstd::prelude::*;
use vstd::string::StringSliceAdditionalSpecFns;

use crate::scan::{
    assemble_tape, link_error, positions_in, parent_link, scan_depth, scan_fsm, scan_structural, spec_tape,
    tokens,
};
use crate::tape::Tape;

verus! {

/// The longest input, in bytes, that the parser takes.
pub const MAX_INPUT_BYTES: usize = 256;

/// Why a parse was refused.
#[derive(Debug, Clone, Copy, PartialEq, Eq, Structural)]
pub enum ParseError {
    /// The input is longer than [`MAX_INPUT_BYTES`].
    InputTooLarge,
    /// A closing delimiter has no opening one, closes one of the other kind, or an opening
    /// delimiter is never closed.
    MismatchedDelimiters,
}

impl ParseError {
    /// The message that describes the error.
    pub fn to_string(&self) -> (r: String)
        ensures
            r@ == self.spec_message(),
    {
        match self {
            ParseError::InputTooLarge => "input is too large, max len: 256 (for now)".to_string(),
            ParseError::MismatchedDelimiters => "mismatched json delimiters".to_string(),
        }
    }

    pub open spec fn spec_message(&self) -> Seq<char> {
        match self {
            ParseError::InputTooLarge => "input is too large, max len: 256 (for now)"@,
            ParseError::MismatchedDelimiters => "mismatched json delimiters"@,
        }
    }
}

/// The outcome of parsing `s`: refused when too large or when its delimiters do not match,
/// its tape otherwise.
pub open spec fn spec_parse(s: Seq<u8>) -> Result<Seq<crate::tape::EntryView>, ParseError> {
    if s.len() > MAX_INPUT_BYTES {
        Err(ParseError::InputTooLarge)
    } else if link_error(s, tokens(s)) {
        Err(ParseError::MismatchedDelimiters)
    } else {
        Ok(spec_tape(s))
    }
}

/// Turns JSON text into a tape of its tokens.
#[derive(Debug)]
pub struct Parser {
    _private: (),
}

impl Parser {
    /// A parser; it is always available.
    pub fn try_new() -> (r: Result<Self, ParseError>)
        ensures
            r is Ok,
    {
        Ok(Parser { _private: () })
    }

    pub fn max_input_bytes(&self) -> (r: usize)
        ensures
            r == MAX_INPUT_BYTES,
    {
        MAX_INPUT_BYTES
    }

    pub fn parse(&self, json: &[u8]) -> (r: Result<Tape, ParseError>)
        ensures
            r matches Ok(t) ==> spec_parse(json@) == Ok::<_, ParseError>(t@),
            r matches Err(e) ==> spec_parse(json@) == Err::<Seq<crate::tape::EntryView>, _>(e),
    {
        self.parse_bytes(json)
    }

    pub fn parse_str(&self, json: &str) -> (r: Result<Tape, ParseError>)
        ensures
            r matches Ok(t) ==> spec_parse(json.spec_bytes()) == Ok::<_, ParseError>(t@),
            r matches Err(e) ==> spec_parse(json.spec_bytes()) == Err::<
                Seq<crate::tape::EntryView>,
                _,
            >(e),
    {
        self.parse_bytes(json.as_bytes())
    }

    /// Parses `json` into its tape: the input is refused when it is longer than
    /// [`MAX_INPUT_BYTES`] or when its delimiters do not match.
    pub fn parse_bytes(&self, json: &[u8]) -> (r: Result<Tape, ParseError>)
        ensures
            r matches Ok(t) ==> spec_parse(json@) == Ok::<_, ParseError>(t@),
            r matches Err(e) ==> spec_parse(json@) == Err::<Seq<crate::tape::EntryView>, _>(e),
    {
        if json.len() > MAX_INPUT_BYTES {
            return Err(ParseError::InputTooLarge);
        }
        let states = scan_fsm(json);
        let compact = scan_structural(json, states.as_slice());
        proof {
            crate::scan::lemma_token_positions(json@, json@.len() as int);
            assert(positions_in(json@, compact@));
        }
        let depths = scan_depth(json, compact.as_slice());
        let (parents, error) = parent_link(json, compact.as_slice());
        let entries = assemble_tape(
            json,
            states.as_slice(),
            compact.as_slice(),
            depths.as_slice(),
            parents.as_slice(),
        );
        if error {
            return Err(ParseError::MismatchedDelimiters);
        }
        let tape = Tape::new(entries);
        Ok(tape)
    }
}

/// The size in bytes of a per-position buffer of elements of `element_size` bytes.
pub fn buffer_size(element_size: usize) -> (r: u64)
    requires
        MAX_INPUT_BYTES * element_size <= usize::MAX,
    ensures
        r == MAX_INPUT_BYTES * element_size,
{
    (MAX_INPUT_BYTES * element_size) as u64
}

/// The size in bytes of the buffer that holds the number of tokens.
pub fn count_buffer_size() -> (r: u64)
    ensures
        r == 4,
{
    4
}

/// The size in bytes of one parent-link summary: two `u32` counts, then for each position
/// two `u32` fields and one `i32` field.
pub const PARENT_SUMMARY_SIZE: usize = 2 * 4 + MAX_INPUT_BYTES * (2 * 4 + 4);

/// The size in bytes of a buffer of parent-link summaries, one per position.
pub fn parent_summary_buffer_size() -> (r: u64)
    ensures
        r == MAX_INPUT_BYTES * PARENT_SUMMARY_SIZE,
{
    (MAX_INPUT_BYTES as u64) * (PARENT_SUMMARY_SIZE as u64)
}

} // verus!
