# slurpjson

A JSON tokenizer that turns JSON text into a flat *tape* of its tokens, and a small
navigation layer over the tape. Every stage is verified with Verus.

The tape is built by five stages, each a function from the bytes (and the results of the
earlier stages) to a buffer with one element per position or per token:

1. `scan_fsm`: the string state after each byte (outside a string, inside one, right after
   a backslash inside one);
2. `scan_structural`: the positions where tokens start (structural bytes and quotes outside
   strings, and the first byte of each run of number or literal bytes);
3. `scan_depth`: the running depth after each token;
4. `parent_link`: the parent of each token (the innermost open delimiter) and whether the
   delimiters match;
5. `assemble_tape`: the tape entries (byte range, depth, parent, kind).

The stages are written as scans over the whole input, one element per position or per
token, and run one after the other on the CPU; there is no GPU execution, so a `Parser`
is always available. `Parser::parse_bytes` runs them and refuses inputs longer than `MAX_INPUT_BYTES` or whose
delimiters do not match. `Document` reads values, object members and array elements back
from the source and its tape.

Layout:

- `src/tape.rs`: `TokenKind`, `TapeEntry`, `Tape`, `TapeIter`.
- `src/scan.rs`: the stages and their specifications.
- `src/parser.rs`: `Parser`, `ParseError`, the input limit and the stage buffer sizes.
- `src/document.rs`: `Document`, `ValueRef`, the member and element cursors.
- `src/laws.rs`: properties of every parsed tape (order, parents, depth, matching
  delimiters, readable values and keys, keys cursor against entries cursor).
- `src/access.rs`: storage-buffer access flags.
- `app/main.rs`: the command line: parses inline JSON or a file and prints the document.
