//! Conversion of engine-reported error locations to editor coordinates.
//!
//! The diagnostics engine reports parse errors 1-indexed, either at a
//! single (line, column) position or over a span; the editor wants
//! 0-indexed positions, so each component drops by one.

use vstd::prelude::*;

verus! {

/// Where a parse error of the diagnostics engine lies, in its 1-indexed
/// convention: one position, or a start and end position.
#[derive(Debug, Clone, Copy)]
pub enum ErrorLocation {
    Pos(usize, usize),
    Span((usize, usize), (usize, usize)),
}

/// The 0-indexed editor range of an engine error location: a position
/// becomes an empty range at that point, a span keeps its two ends, and
/// every component drops by one.
pub fn error_range(loc: &ErrorLocation) -> (r: ((usize, usize), (usize, usize)))
    requires
        match *loc {
            ErrorLocation::Pos(line, col) => line >= 1 && col >= 1,
            ErrorLocation::Span(start, end) => start.0 >= 1 && start.1 >= 1 && end.0 >= 1 && end.1
                >= 1,
        },
    ensures
        match *loc {
            ErrorLocation::Pos(line, col) => r == (
                ((line - 1) as usize, (col - 1) as usize),
                ((line - 1) as usize, (col - 1) as usize),
            ),
            ErrorLocation::Span(start, end) => r == (
                ((start.0 - 1) as usize, (start.1 - 1) as usize),
                ((end.0 - 1) as usize, (end.1 - 1) as usize),
            ),
        },
{
    match *loc {
        ErrorLocation::Pos(line, col) => ((line - 1, col - 1), (line - 1, col - 1)),
        ErrorLocation::Span(start, end) => (
            (start.0 - 1, start.1 - 1),
            (end.0 - 1, end.1 - 1),
        ),
    }
}

} // verus!
