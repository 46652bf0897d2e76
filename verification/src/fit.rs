//! Fit classification: how a piece of text relates to the space that is left
//! on the display, and the errors a placement request can end in.
//!
//! The classification works on byte lengths alone. A text no longer than one
//! full display line is always a single write, wherever the cursor stands:
//! the caller is expected to have positioned the cursor so that it fits.
//! Longer text is wrapped across the remaining lines when their total
//! capacity suffices (or when wrap-around is allowed), truncated into the
//! rest of the current line when the caller allows it, and rejected
//! otherwise.

use vstd::prelude::*;

verus! {

/// How a piece of text relates to the space that is left on the display.
#[derive(Clone, Copy, Debug, PartialEq, Eq, Structural)]
pub enum TextFit {
    /// No longer than one full display line: written as a single chunk.
    OneLine,
    /// Too long for the space that is left, but the caller allows truncation
    /// and the current line still has a free column: the head of the text is
    /// written into the rest of the current line and the tail is dropped.
    OneLineTruncated,
    /// Longer than one line, and either the remaining capacity can hold it
    /// or wrap-around is allowed: written in chunks, one line at a time.
    NeedsWrap,
    /// Cannot be placed under the current policy.
    TooLong,
}

/// Why a placement request was rejected. No bytes are produced and the
/// cursor does not move when one of these is returned.
#[derive(Clone, Copy, Debug, PartialEq, Eq, Structural)]
pub enum PlacementError {
    /// The text does not fit in the remaining capacity under the current
    /// policy: `capacity` bytes were free, `provided` were asked for.
    TextTooLong { capacity: usize, provided: usize },
    /// The text needs more than one line, and the operation does not wrap.
    WrapNotAllowed,
}

/// Columns still free on the current line.
pub open spec fn spec_space_on_line(width: int, col: int) -> int {
    width - col
}

/// Whole rows strictly below the current one.
pub open spec fn spec_lines_left(height: int, row: int) -> int {
    if row + 1 <= height {
        height - (row + 1)
    } else {
        0
    }
}

/// Bytes that still fit: the rest of the current line plus every full row
/// below it.
pub open spec fn spec_capacity(width: int, height: int, col: int, row: int) -> int {
    spec_space_on_line(width, col) + spec_lines_left(height, row) * width
}

/// Fit classification of a text of byte length `len` against a display of
/// the given geometry and cursor position.
pub open spec fn spec_classify(
    len: int,
    width: int,
    height: int,
    col: int,
    row: int,
    can_wrap_around: bool,
    can_truncate: bool,
) -> TextFit {
    if len <= width {
        TextFit::OneLine
    } else if spec_capacity(width, height, col, row) >= len {
        TextFit::NeedsWrap
    } else if can_wrap_around {
        TextFit::NeedsWrap
    } else if can_truncate && col < width {
        TextFit::OneLineTruncated
    } else {
        TextFit::TooLong
    }
}

/// Law: text no longer than one full display line is classified `OneLine`,
/// whatever the cursor position and the policy flags.
pub proof fn lemma_short_text_is_one_line(
    len: int,
    width: int,
    height: int,
    col: int,
    row: int,
    can_wrap_around: bool,
    can_truncate: bool,
)
    requires
        len <= width,
    ensures
        spec_classify(len, width, height, col, row, can_wrap_around, can_truncate)
            == TextFit::OneLine,
{
}

/// Law: text longer than one line that exceeds the remaining capacity, with
/// wrap-around and truncation both disabled, is classified `TooLong`; the
/// placement operations then reject it without producing bytes or moving
/// the cursor.
pub proof fn lemma_over_capacity_is_too_long(len: int, width: int, height: int, col: int, row: int)
    requires
        len > width,
        spec_capacity(width, height, col, row) < len,
    ensures
        spec_classify(len, width, height, col, row, false, false) == TextFit::TooLong,
{
}

} // verus!
