//! Cutting a short piece out of a long text, around the place of an
//! error.

use vstd::prelude::*;
use vstd::string::StringSliceAdditionalSpecFns;
use vstd::utf8::encode_utf8;

verus! {

/// How many bytes are shown before and after the place of an error.
pub const CONTEXT: usize = 40;

/// A piece of a text, in bytes: where it starts, where it ends, and how
/// far into it the place of the error lies.
#[derive(Clone, Copy, Debug, PartialEq, Eq, Structural)]
pub struct Window {
    pub start: usize,
    pub end: usize,
    pub mark: usize,
}

/// The index of the character at which looking for a line and a column
/// stops, where the look is at character `i`, in line `line` and column
/// `col`, both counted from 0: at the first character that lies in the
/// line `loc_line` or after it and in the column `loc_col` or after it,
/// both counted from 1, or at the end of the text.
pub open spec fn location_stop(
    s: Seq<char>,
    i: int,
    line: int,
    col: int,
    loc_line: int,
    loc_col: int,
) -> int
    decreases s.len() - i,
{
    if i < 0 || i >= s.len() || (line + 1 >= loc_line && col + 1 >= loc_col) {
        i
    } else if s[i] == '\n' {
        location_stop(s, i + 1, line + 1, 0, loc_line, loc_col)
    } else {
        location_stop(s, i + 1, line, col + 1, loc_line, loc_col)
    }
}

/// The offset, in bytes, of the place that a line and a column name,
/// both counted from 1.
pub open spec fn location_offset(s: Seq<char>, loc_line: int, loc_col: int) -> int {
    encode_utf8(s.subrange(0, location_stop(s, 0, 0, 0, loc_line, loc_col))).len() as int
}

/// The piece of a text of `length` bytes around `offset`: up to
/// [`CONTEXT`] bytes before it and up to as many from it on. An offset
/// beyond the end counts as the end.
pub open spec fn window_of(length: int, offset: int) -> Window {
    let at = if offset <= length {
        offset
    } else {
        length
    };
    let start = if at >= CONTEXT {
        at - CONTEXT
    } else {
        0
    };
    let end = if length - at >= CONTEXT {
        at + CONTEXT
    } else {
        length
    };
    Window { start: start as usize, end: end as usize, mark: (at - start) as usize }
}

/// Calls `miette::SourceOffset::from_location`, which walks the
/// characters of `source` counting lines and columns, stops at the first
/// that lies at or after the line and the column asked for, and gives the
/// number of bytes before it.
#[verifier::external_body]
fn offset_from_location(source: &str, line: usize, column: usize) -> (offset: usize)
    ensures
        offset == location_offset(source@, line as int, column as int),
{
    miette::SourceOffset::from_location(source, line, column).offset()
}

/// The piece of a text of `length` bytes around `offset`.
pub fn window(length: usize, offset: usize) -> (piece: Window)
    ensures
        piece == window_of(length as int, offset as int),
        piece.start <= piece.end <= length,
        piece.start + piece.mark <= piece.end,
{
    let at = if offset <= length {
        offset
    } else {
        length
    };
    let start = if at >= CONTEXT {
        at - CONTEXT
    } else {
        0
    };
    let end = if length - at >= CONTEXT {
        at + CONTEXT
    } else {
        length
    };
    Window { start, end, mark: at - start }
}

/// The piece of `text` around the place that a line and a column name,
/// both counted from 1.
pub fn window_at(text: &str, line: usize, column: usize) -> (piece: Window)
    ensures
        piece == window_of(
            text.spec_bytes().len() as int,
            location_offset(text@, line as int, column as int),
        ),
        piece.start <= piece.end <= text.spec_bytes().len(),
        piece.start + piece.mark <= piece.end,
{
    window(text.as_bytes().len(), offset_from_location(text, line, column))
}

} // verus!
