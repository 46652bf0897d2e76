//! Layout engine: the logical display with its geometry and cursor.
//!
//! `BirchVfd` owns the display geometry (`width` columns, `height` rows) and
//! the logical cursor, 0-indexed, with `0 <= col <= width` and
//! `0 <= row <= height`. Every operation returns the exact bytes to push
//! down the serial link; raw text writes never move the logical cursor —
//! only cursor-move commands and `clear` do, which mirrors what the device
//! itself is told.

use crate::commands::{clear_command, cursor_command, init_command};
use crate::commands::{clear_seq, cursor_seq, init_seq};
use crate::fit::{spec_capacity, spec_classify, spec_lines_left, spec_space_on_line};
use crate::fit::{PlacementError, TextFit};
use crate::wrap::{lemma_wrap_unfold_chunk, lemma_wrap_unfold_move};
use crate::wrap::{wrap_final, wrap_stream};
use vstd::prelude::*;
use vstd::slice::{slice_subrange, slice_to_vec};
use vstd::string::StringSliceAdditionalSpecFns;

verus! {

/// Mathematical state of a display: geometry and cursor, as plain integers.
pub struct DisplayState {
    pub width: int,
    pub height: int,
    pub col: int,
    pub row: int,
}

impl DisplayState {
    /// The geometry fits the wire encoding and the cursor is inside
    /// `[0, width] x [0, height]`.
    pub open spec fn wf(self) -> bool {
        &&& 1 <= self.width <= 254
        &&& 1 <= self.height <= 254
        &&& 0 <= self.col <= self.width
        &&& 0 <= self.row <= self.height
    }

    /// Columns still free on the current line.
    pub open spec fn space_on_line(self) -> int {
        spec_space_on_line(self.width, self.col)
    }

    /// Whole rows strictly below the current one.
    pub open spec fn lines_left(self) -> int {
        spec_lines_left(self.height, self.row)
    }

    /// Bytes that still fit below and beside the cursor.
    pub open spec fn capacity(self) -> int {
        spec_capacity(self.width, self.height, self.col, self.row)
    }

    /// Fit classification of a text of byte length `len` at this state.
    pub open spec fn classify(self, len: int, can_wrap_around: bool, can_truncate: bool) -> TextFit {
        spec_classify(len, self.width, self.height, self.col, self.row, can_wrap_around, can_truncate)
    }

    /// The same display with the cursor at the given position.
    pub open spec fn with_cursor(self, col: int, row: int) -> DisplayState {
        DisplayState { col, row, ..self }
    }

    /// Where the wrap procedure moves next: column 0 of the row below, or
    /// back to row 0 when wrap-around is on and the bottom is reached.
    pub open spec fn next_line(self, wrap_around: bool) -> DisplayState {
        self.with_cursor(
            0,
            if wrap_around && self.row + 1 >= self.height {
                0
            } else {
                self.row + 1
            },
        )
    }
}

/// Clamping of a requested cursor coordinate to its bound.
pub open spec fn spec_clamp(v: int, bound: int) -> int {
    if v > bound {
        bound
    } else {
        v
    }
}

/// The logical display. It models the device's cursor so that callers never
/// need to track hardware state themselves; it holds no transport handle,
/// every operation returns the bytes to transmit.
pub struct BirchVfd {
    width: u8,
    height: u8,
    cursor_x: u8,
    cursor_y: u8,
}

impl View for BirchVfd {
    type V = DisplayState;

    closed spec fn view(&self) -> DisplayState {
        DisplayState {
            width: self.width as int,
            height: self.height as int,
            col: self.cursor_x as int,
            row: self.cursor_y as int,
        }
    }
}

impl BirchVfd {
    /// A fresh display model with the cursor at the top-left home position.
    /// The geometry is bounded by 254 so that every wire coordinate fits in
    /// one byte.
    pub fn new(width: u8, height: u8) -> (d: BirchVfd)
        requires
            1 <= width <= 254,
            1 <= height <= 254,
        ensures
            d@.wf(),
            d@ == (DisplayState { width: width as int, height: height as int, col: 0, row: 0 }),
    {
        BirchVfd { width, height, cursor_x: 0, cursor_y: 0 }
    }

    /// The initialize (reset) command. The device returns its cursor to the
    /// power-on home position, so the logical cursor is reset to match.
    pub fn initialize(&mut self) -> (cmd: Vec<u8>)
        requires
            old(self)@.wf(),
        ensures
            final(self)@.wf(),
            final(self)@ == old(self)@.with_cursor(0, 0),
            cmd@ == init_seq(),
    {
        self.cursor_x = 0;
        self.cursor_y = 0;
        init_command()
    }

    /// The clear command. The device erases all content and the logical
    /// cursor returns to home, whatever a later flush of the transport does.
    pub fn clear(&mut self) -> (cmd: Vec<u8>)
        requires
            old(self)@.wf(),
        ensures
            final(self)@.wf(),
            final(self)@ == old(self)@.with_cursor(0, 0),
            cmd@ == clear_seq(),
    {
        self.cursor_x = 0;
        self.cursor_y = 0;
        clear_command()
    }

    /// Move the cursor. An out-of-range request is clamped to the nearest
    /// valid edge, never rejected; the clamped position is both what is
    /// stored and what is sent.
    pub fn set_cursor(&mut self, x: u8, y: u8) -> (cmd: Vec<u8>)
        requires
            old(self)@.wf(),
        ensures
            final(self)@.wf(),
            final(self)@ == old(self)@.with_cursor(
                spec_clamp(x as int, old(self)@.width),
                spec_clamp(y as int, old(self)@.height),
            ),
            cmd@ == cursor_seq(final(self)@.col, final(self)@.row),
    {
        let cx = if x > self.width {
            self.width
        } else {
            x
        };
        let cy = if y > self.height {
            self.height
        } else {
            y
        };
        self.cursor_x = cx;
        self.cursor_y = cy;
        cursor_command(cx, cy)
    }

    /// The cursor position, 0-indexed.
    pub fn get_cursor(&self) -> (r: (u8, u8))
        ensures
            r.0 as int == self@.col,
            r.1 as int == self@.row,
    {
        (self.cursor_x, self.cursor_y)
    }

    /// Bytes that still fit: the rest of the current line plus every full
    /// row below it.
    pub fn remaining_capacity(&self) -> (r: usize)
        requires
            self@.wf(),
        ensures
            r as int == self@.capacity(),
    {
        let space = (self.width - self.cursor_x) as usize;
        let lines: usize = if self.cursor_y >= self.height - 1 {
            0
        } else {
            (self.height - self.cursor_y - 1) as usize
        };
        let w = self.width as usize;
        proof {
            assert(lines * w <= 254 * 254) by (nonlinear_arith)
                requires
                    0 <= lines <= 254,
                    0 <= w <= 254,
            ;
        }
        space + lines * w
    }

    /// Classify `text` against the space that is left, under the given
    /// wrap-around and truncation policy.
    pub fn classify(&self, text: &str, can_wrap_around: bool, can_truncate: bool) -> (fit: TextFit)
        requires
            self@.wf(),
        ensures
            fit == self@.classify(text.spec_bytes().len() as int, can_wrap_around, can_truncate),
    {
        let len = text.as_bytes().len();
        if len <= self.width as usize {
            TextFit::OneLine
        } else {
            let cap = self.remaining_capacity();
            if cap >= len {
                TextFit::NeedsWrap
            } else if can_wrap_around {
                TextFit::NeedsWrap
            } else if can_truncate && self.cursor_x < self.width {
                TextFit::OneLineTruncated
            } else {
                TextFit::TooLong
            }
        }
    }

    /// Move to column 0 of the row below, or of row 0 again in wrap-around
    /// mode once the bottom row is reached.
    fn advance_line(&mut self, wrap_around: bool) -> (cmd: Vec<u8>)
        requires
            old(self)@.wf(),
            wrap_around || old(self)@.lines_left() >= 1,
        ensures
            final(self)@.wf(),
            final(self)@ == old(self)@.next_line(wrap_around),
            cmd@ == cursor_seq(final(self)@.col, final(self)@.row),
    {
        let ny: u8 = if wrap_around && self.cursor_y + 1 >= self.height {
            0
        } else {
            self.cursor_y + 1
        };
        self.set_cursor(0, ny)
    }

    /// Realize a wrap placement: write chunks of at most the columns that
    /// remain on the current line, moving to the start of the next line
    /// between chunks.
    fn write_wrapped(&mut self, text: &[u8], wrap_around: bool) -> (out: Vec<u8>)
        requires
            old(self)@.wf(),
            text@.len() > 0,
            wrap_around || old(self)@.capacity() >= text@.len(),
        ensures
            final(self)@.wf(),
            final(self)@.width == old(self)@.width,
            final(self)@.height == old(self)@.height,
            out@ == wrap_stream(text@, old(self)@, wrap_around),
            final(self)@ == wrap_final(text@, old(self)@, wrap_around),
    {
        let ghost d0 = self@;
        let mut out: Vec<u8> = Vec::new();
        let mut i: usize = 0;
        proof {
            assert(text@.skip(0) =~= text@);
            assert(out@ + wrap_stream(text@, d0, wrap_around) =~= wrap_stream(
                text@,
                d0,
                wrap_around,
            ));
        }
        while i < text.len()
            invariant
                self@.wf(),
                self@.width == d0.width,
                self@.height == d0.height,
                i <= text@.len(),
                text@.len() == text.len(),
                wrap_around || self@.capacity() >= text@.len() - i,
                wrap_stream(text@, d0, wrap_around) == out@ + wrap_stream(
                    text@.skip(i as int),
                    self@,
                    wrap_around,
                ),
                wrap_final(text@, d0, wrap_around) == wrap_final(
                    text@.skip(i as int),
                    self@,
                    wrap_around,
                ),
            decreases
                    text@.len() - i,
                    (if self@.col >= self@.width {
                        1int
                    } else {
                        0int
                    }),
        {
            let ghost pre = self@;
            let ghost rem = text@.skip(i as int);
            proof {
                assert(rem.len() == text@.len() - i);
            }
            if self.cursor_x >= self.width {
                proof {
                    if !wrap_around && pre.lines_left() == 0 {
                        assert(pre.capacity() == pre.space_on_line() + pre.lines_left()
                            * pre.width);
                        assert(pre.lines_left() * pre.width == 0);
                        assert(false);
                    }
                }
                let ghost out_pre = out@;
                let mut cmd = self.advance_line(wrap_around);
                out.append(&mut cmd);
                proof {
                    let nd = pre.next_line(wrap_around);
                    lemma_wrap_unfold_move(rem, pre, wrap_around);
                    assert(out_pre + (cursor_seq(nd.col, nd.row) + wrap_stream(
                        rem,
                        nd,
                        wrap_around,
                    )) =~= (out_pre + cursor_seq(nd.col, nd.row)) + wrap_stream(
                        rem,
                        nd,
                        wrap_around,
                    ));
                    if !wrap_around {
                        let ll = pre.lines_left();
                        assert(nd.lines_left() == ll - 1);
                        assert(nd.width + (ll - 1) * nd.width == ll * nd.width)
                            by (nonlinear_arith);
                        assert(nd.capacity() == pre.capacity());
                    }
                }
            } else {
                let space = (self.width - self.cursor_x) as usize;
                let remaining = text.len() - i;
                let n = if space < remaining {
                    space
                } else {
                    remaining
                };
                let ghost nspec: int = if rem.len() as int <= pre.width - pre.col {
                    rem.len() as int
                } else {
                    pre.width - pre.col
                };
                proof {
                    assert(n as int == nspec);
                }
                let chunk = slice_subrange(text, i, i + n);
                let mut cv = slice_to_vec(chunk);
                let ghost out_pre = out@;
                out.append(&mut cv);
                proof {
                    assert(chunk@ =~= rem.take(nspec));
                    lemma_wrap_unfold_chunk(rem, pre, wrap_around);
                    assert(rem.skip(nspec) =~= text@.skip(i as int + nspec));
                }
                i = i + n;
                if i < text.len() {
                    proof {
                        assert(rem.skip(nspec).len() > 0);
                        if !wrap_around && pre.lines_left() == 0 {
                            assert(pre.capacity() == pre.space_on_line() + pre.lines_left()
                                * pre.width);
                            assert(pre.lines_left() * pre.width == 0);
                            assert(false);
                        }
                    }
                    let mut cmd = self.advance_line(wrap_around);
                    out.append(&mut cmd);
                    proof {
                        let nd = pre.next_line(wrap_around);
                        assert(out_pre + (rem.take(nspec) + cursor_seq(nd.col, nd.row)
                            + wrap_stream(rem.skip(nspec), nd, wrap_around)) =~= (out_pre
                            + rem.take(nspec) + cursor_seq(nd.col, nd.row)) + wrap_stream(
                            rem.skip(nspec),
                            nd,
                            wrap_around,
                        ));
                        if !wrap_around {
                            let ll = pre.lines_left();
                            assert(nd.lines_left() == ll - 1);
                            assert(nd.width + (ll - 1) * nd.width == ll * nd.width)
                                by (nonlinear_arith);
                            assert(nd.capacity() == pre.capacity() - pre.space_on_line());
                        }
                    }
                } else {
                    proof {
                        assert(rem.skip(nspec).len() == 0);
                        assert(rem.take(nspec) =~= rem);
                        assert(out_pre + rem =~= out@);
                        assert(text@.skip(i as int) =~= Seq::<u8>::empty());
                        assert(wrap_stream(text@.skip(i as int), self@, wrap_around)
                            =~= Seq::<u8>::empty());
                        assert(out@ + Seq::<u8>::empty() =~= out@);
                    }
                }
            }
        }
        proof {
            assert(text@.skip(i as int) =~= Seq::<u8>::empty());
            assert(wrap_stream(text@.skip(i as int), self@, wrap_around) =~= Seq::<u8>::empty());
            assert(out@ + Seq::<u8>::empty() =~= out@);
        }
        out
    }

    /// Place a single line of text at the cursor. The text is written
    /// verbatim and the logical cursor does not move; text that would need
    /// wrapping or exceeds the remaining capacity is rejected without any
    /// bytes being produced.
    pub fn writeln(&mut self, text: &str) -> (r: Result<Vec<u8>, PlacementError>)
        requires
            old(self)@.wf(),
        ensures
            final(self)@ == old(self)@,
            final(self)@.wf(),
            ({
                let fit = old(self)@.classify(text.spec_bytes().len() as int, false, false);
                match r {
                    Ok(out) => fit == TextFit::OneLine && out@ == text.spec_bytes(),
                    Err(e) => match e {
                        PlacementError::WrapNotAllowed => fit == TextFit::NeedsWrap,
                        PlacementError::TextTooLong { capacity, provided } => fit
                            == TextFit::TooLong && capacity as int == old(self)@.capacity()
                            && provided as int == text.spec_bytes().len(),
                    },
                }
            }),
    {
        let fit = self.classify(text, false, false);
        match fit {
            TextFit::OneLine => Ok(slice_to_vec(text.as_bytes())),
            TextFit::NeedsWrap => Err(PlacementError::WrapNotAllowed),
            TextFit::OneLineTruncated => {
                proof {
                    assert(false);
                }
                Err(PlacementError::WrapNotAllowed)
            },
            TextFit::TooLong => {
                let capacity = self.remaining_capacity();
                Err(PlacementError::TextTooLong { capacity, provided: text.as_bytes().len() })
            },
        }
    }

    /// Place text at the cursor under the given policy. One line is written
    /// verbatim; longer text is wrapped across the remaining lines when
    /// their capacity suffices or wrap-around is allowed, truncated into the
    /// rest of the current line when the caller allows it, and rejected
    /// otherwise — in which case no bytes are produced and the cursor does
    /// not move.
    pub fn write_text(&mut self, text: &str, can_wrap_around: bool, can_truncate: bool) -> (r:
        Result<Vec<u8>, PlacementError>)
        requires
            old(self)@.wf(),
        ensures
            final(self)@.wf(),
            final(self)@.width == old(self)@.width,
            final(self)@.height == old(self)@.height,
            ({
                let bytes = text.spec_bytes();
                let fit = old(self)@.classify(bytes.len() as int, can_wrap_around, can_truncate);
                match r {
                    Ok(out) => match fit {
                        TextFit::OneLine => out@ == bytes && final(self)@ == old(self)@,
                        TextFit::NeedsWrap => out@ == wrap_stream(
                            bytes,
                            old(self)@,
                            can_wrap_around,
                        ) && final(self)@ == wrap_final(bytes, old(self)@, can_wrap_around),
                        TextFit::OneLineTruncated => out@ == bytes.take(old(self)@.space_on_line())
                            && final(self)@ == old(self)@.with_cursor(
                            old(self)@.width,
                            old(self)@.row,
                        ),
                        TextFit::TooLong => false,
                    },
                    Err(e) => old(self)@.classify(bytes.len() as int, can_wrap_around, can_truncate)
                        == TextFit::TooLong && final(self)@ == old(self)@ && e
                        == (PlacementError::TextTooLong {
                        capacity: old(self)@.capacity() as usize,
                        provided: bytes.len() as usize,
                    }),
                }
            }),
    {
        let fit = self.classify(text, can_wrap_around, can_truncate);
        match fit {
            TextFit::OneLine => Ok(slice_to_vec(text.as_bytes())),
            TextFit::NeedsWrap => Ok(self.write_wrapped(text.as_bytes(), can_wrap_around)),
            TextFit::OneLineTruncated => {
                let bytes = text.as_bytes();
                let space = (self.width - self.cursor_x) as usize;
                let chunk = slice_subrange(bytes, 0, space);
                let out = slice_to_vec(chunk);
                self.cursor_x = self.width;
                proof {
                    assert(chunk@ =~= text.spec_bytes().take(old(self)@.space_on_line()));
                }
                Ok(out)
            },
            TextFit::TooLong => {
                let capacity = self.remaining_capacity();
                Err(PlacementError::TextTooLong { capacity, provided: text.as_bytes().len() })
            },
        }
    }
}

/// Law: whatever position a cursor move requests, the stored-and-sent
/// cursor lands inside `[0, width] x [0, height]`, and the display stays
/// well formed.
pub proof fn lemma_clamped_cursor_in_bounds(d: DisplayState, x: int, y: int)
    requires
        d.wf(),
        0 <= x,
        0 <= y,
    ensures
        0 <= spec_clamp(x, d.width) <= d.width,
        0 <= spec_clamp(y, d.height) <= d.height,
        d.with_cursor(spec_clamp(x, d.width), spec_clamp(y, d.height)).wf(),
{
}

} // verus!
