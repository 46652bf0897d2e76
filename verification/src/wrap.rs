//! The multi-line wrap procedure, as a mathematical recursion.
//!
//! `wrap_steps` lists the raw writes the procedure performs: each step holds
//! the cursor position at the moment of the write and the bytes written — at
//! most the columns remaining on that line, the rest of the text continuing
//! at column 0 of the next row (or of row 0 again, in wrap-around mode, once
//! the bottom row is full). `wrap_stream` is the byte stream those steps
//! stand for on the wire: a cursor move in front of every step after the
//! first, and in front of the first too when the current line had no room
//! left. `wrap_final` is where the logical cursor stands afterwards: raw
//! writes do not move it, so it is the target of the last cursor move.
//!
//! The chunk boundary is a raw byte cut, not a word boundary: words may be
//! split across lines. That is the intended policy.

use crate::commands::cursor_seq;
use crate::display::DisplayState;
use vstd::prelude::*;

verus! {

/// One raw write of the wrap procedure: where the cursor stood and what was
/// written there.
pub struct WrapStep {
    pub col: int,
    pub row: int,
    pub bytes: Seq<u8>,
}

/// The writes of the wrap procedure, in order, starting at state `d`.
pub open spec fn wrap_steps(text: Seq<u8>, d: DisplayState, wrap_around: bool) -> Seq<WrapStep>
    decreases text.len(), (if d.col >= d.width { 1int } else { 0int }),
{
    if text.len() == 0 || d.width <= 0 {
        Seq::empty()
    } else if d.col >= d.width {
        wrap_steps(text, d.next_line(wrap_around), wrap_around)
    } else {
        let n = if text.len() as int <= d.width - d.col {
            text.len() as int
        } else {
            d.width - d.col
        };
        let rest = text.skip(n);
        seq![(WrapStep { col: d.col, row: d.row, bytes: text.take(n) })] + (if rest.len() == 0 {
            Seq::empty()
        } else {
            wrap_steps(rest, d.next_line(wrap_around), wrap_around)
        })
    }
}

/// The byte stream of a sequence of wrap steps: each step's bytes, with a
/// cursor move to the next step's position in between.
pub open spec fn steps_stream(steps: Seq<WrapStep>) -> Seq<u8>
    decreases steps.len(),
{
    if steps.len() == 0 {
        Seq::empty()
    } else if steps.len() == 1 {
        steps[0].bytes
    } else {
        steps[0].bytes + cursor_seq(steps[1].col, steps[1].row) + steps_stream(steps.drop_first())
    }
}

/// The full byte stream of the wrap procedure from state `d`: a leading
/// cursor move when the first chunk does not start at the current cursor
/// (the current line had no room left), then the steps' bytes.
pub open spec fn wrap_stream(text: Seq<u8>, d: DisplayState, wrap_around: bool) -> Seq<u8> {
    let steps = wrap_steps(text, d, wrap_around);
    if steps.len() > 0 && !(steps[0].col == d.col && steps[0].row == d.row) {
        cursor_seq(steps[0].col, steps[0].row) + steps_stream(steps)
    } else {
        steps_stream(steps)
    }
}

/// The logical cursor after the wrap procedure: raw writes do not move it,
/// so it is the target of the last cursor move, or the starting position
/// when no move was needed.
pub open spec fn wrap_final(text: Seq<u8>, d: DisplayState, wrap_around: bool) -> DisplayState {
    let steps = wrap_steps(text, d, wrap_around);
    if steps.len() == 0 || (steps.len() == 1 && steps[0].col == d.col && steps[0].row == d.row) {
        d
    } else {
        d.with_cursor(steps.last().col, steps.last().row)
    }
}

/// The wrap procedure writes at least one chunk; the first chunk starts at
/// the current cursor when the current line still has room, and at the start
/// of the next line otherwise.
pub proof fn lemma_wrap_steps_shape(text: Seq<u8>, d: DisplayState, wrap_around: bool)
    requires
        text.len() > 0,
        1 <= d.width,
        d.col <= d.width,
    ensures
        wrap_steps(text, d, wrap_around).len() > 0,
        d.col < d.width ==> wrap_steps(text, d, wrap_around)[0].col == d.col
            && wrap_steps(text, d, wrap_around)[0].row == d.row,
        d.col == d.width ==> wrap_steps(text, d, wrap_around)[0].col == 0
            && wrap_steps(text, d, wrap_around)[0].row == d.next_line(wrap_around).row,
    decreases (if d.col >= d.width { 1int } else { 0int }),
{
    if d.col >= d.width {
        let nd = d.next_line(wrap_around);
        lemma_wrap_steps_shape(text, nd, wrap_around);
    }
}

/// Law: no step of the wrap procedure writes more bytes than the columns
/// remaining on its line at the moment of the write.
pub proof fn lemma_wrap_chunks_bounded(text: Seq<u8>, d: DisplayState, wrap_around: bool)
    ensures
        forall|k: int|
            0 <= k < wrap_steps(text, d, wrap_around).len()
                ==> (#[trigger] wrap_steps(text, d, wrap_around)[k]).bytes.len() <= d.width
                - wrap_steps(text, d, wrap_around)[k].col,
    decreases text.len(), (if d.col >= d.width { 1int } else { 0int }),
{
    let steps = wrap_steps(text, d, wrap_around);
    if text.len() == 0 || d.width <= 0 {
    } else if d.col >= d.width {
        let nd = d.next_line(wrap_around);
        lemma_wrap_chunks_bounded(text, nd, wrap_around);
        assert(steps == wrap_steps(text, nd, wrap_around));
    } else {
        let n = if text.len() as int <= d.width - d.col {
            text.len() as int
        } else {
            d.width - d.col
        };
        let rest = text.skip(n);
        let head = seq![(WrapStep { col: d.col, row: d.row, bytes: text.take(n) })];
        if rest.len() == 0 {
            assert(steps == head + Seq::<WrapStep>::empty());
            assert(steps[0].bytes.len() == n);
        } else {
            let nd = d.next_line(wrap_around);
            lemma_wrap_chunks_bounded(rest, nd, wrap_around);
            let tail = wrap_steps(rest, nd, wrap_around);
            assert(steps == head + tail);
            assert forall|k: int| 0 <= k < steps.len() implies (#[trigger] steps[k]).bytes.len()
                <= d.width - steps[k].col by {
                if k == 0 {
                    assert(steps[0].bytes.len() == n);
                } else {
                    assert(steps[k] == tail[k - 1]);
                }
            }
        }
    }
}

/// The bytes of a sequence of wrap steps, concatenated in order.
pub open spec fn steps_bytes(steps: Seq<WrapStep>) -> Seq<u8>
    decreases steps.len(),
{
    if steps.len() == 0 {
        Seq::empty()
    } else {
        steps[0].bytes + steps_bytes(steps.drop_first())
    }
}

/// Law: the wrap procedure writes every byte of the text, in order, and
/// nothing else — its chunks concatenate back to the text.
pub proof fn lemma_wrap_steps_complete(text: Seq<u8>, d: DisplayState, wrap_around: bool)
    requires
        1 <= d.width,
    ensures
        steps_bytes(wrap_steps(text, d, wrap_around)) == text,
    decreases text.len(), (if d.col >= d.width { 1int } else { 0int }),
{
    let steps = wrap_steps(text, d, wrap_around);
    if text.len() == 0 {
        assert(steps_bytes(steps) =~= text);
    } else if d.col >= d.width {
        lemma_wrap_steps_complete(text, d.next_line(wrap_around), wrap_around);
    } else {
        let n = if text.len() as int <= d.width - d.col {
            text.len() as int
        } else {
            d.width - d.col
        };
        let rest = text.skip(n);
        let head = seq![(WrapStep { col: d.col, row: d.row, bytes: text.take(n) })];
        if rest.len() == 0 {
            assert(steps == head + Seq::<WrapStep>::empty());
            assert(steps =~= head);
            assert(steps.drop_first() =~= Seq::<WrapStep>::empty());
            assert(steps_bytes(Seq::<WrapStep>::empty()) == Seq::<u8>::empty());
            assert(steps_bytes(steps) == text.take(n) + Seq::<u8>::empty());
            assert(steps_bytes(steps) =~= text);
        } else {
            let nd = d.next_line(wrap_around);
            lemma_wrap_steps_complete(rest, nd, wrap_around);
            let tail = wrap_steps(rest, nd, wrap_around);
            assert(steps == head + tail);
            assert(steps.len() >= 1);
            assert(steps.drop_first() =~= tail);
            assert(steps_bytes(steps) == text.take(n) + steps_bytes(tail));
            assert(text.take(n) + rest =~= text);
        }
    }
}

/// Unfolding of the wrap procedure when the current line has no room left:
/// the stream begins with the move to the start of the next line, and the
/// detour does not change where the cursor ends.
pub proof fn lemma_wrap_unfold_move(text: Seq<u8>, d: DisplayState, wrap_around: bool)
    requires
        text.len() > 0,
        1 <= d.width,
        d.col == d.width,
    ensures
        wrap_stream(text, d, wrap_around) == cursor_seq(
            d.next_line(wrap_around).col,
            d.next_line(wrap_around).row,
        ) + wrap_stream(text, d.next_line(wrap_around), wrap_around),
        wrap_final(text, d, wrap_around) == wrap_final(text, d.next_line(wrap_around), wrap_around),
{
    let nd = d.next_line(wrap_around);
    let steps = wrap_steps(text, d, wrap_around);
    assert(steps == wrap_steps(text, nd, wrap_around));
    lemma_wrap_steps_shape(text, nd, wrap_around);
    assert(steps[0].col == 0 && steps[0].row == nd.row);
    assert(steps[0].col != d.col);
    assert(wrap_stream(text, d, wrap_around) == cursor_seq(nd.col, nd.row) + steps_stream(steps));
    assert(wrap_stream(text, nd, wrap_around) == steps_stream(steps));
    if steps.len() == 1 {
        assert(wrap_final(text, nd, wrap_around) == nd);
        assert(wrap_final(text, d, wrap_around) == d.with_cursor(steps.last().col, steps.last().row));
        assert(d.with_cursor(0, nd.row) == nd);
    }
}

/// Unfolding of the wrap procedure at a chunk: the first `n` bytes are
/// written where the cursor stands; when bytes remain, a move to the start
/// of the next line follows, and the procedure continues from there.
pub proof fn lemma_wrap_unfold_chunk(text: Seq<u8>, d: DisplayState, wrap_around: bool)
    requires
        text.len() > 0,
        1 <= d.width,
        0 <= d.col < d.width,
    ensures
        ({
            let n = if text.len() as int <= d.width - d.col {
                text.len() as int
            } else {
                d.width - d.col
            };
            let nd = d.next_line(wrap_around);
            &&& text.skip(n).len() == 0 ==> wrap_stream(text, d, wrap_around) == text
                && wrap_final(text, d, wrap_around) == d
            &&& text.skip(n).len() > 0 ==> wrap_stream(text, d, wrap_around) == text.take(n)
                + cursor_seq(nd.col, nd.row) + wrap_stream(text.skip(n), nd, wrap_around)
                && wrap_final(text, d, wrap_around) == wrap_final(text.skip(n), nd, wrap_around)
        }),
{
    let n = if text.len() as int <= d.width - d.col {
        text.len() as int
    } else {
        d.width - d.col
    };
    let nd = d.next_line(wrap_around);
    let rest = text.skip(n);
    let head = seq![(WrapStep { col: d.col, row: d.row, bytes: text.take(n) })];
    let steps = wrap_steps(text, d, wrap_around);
    if rest.len() == 0 {
        assert(steps == head + Seq::<WrapStep>::empty());
        assert(steps =~= head);
        assert(steps.len() == 1 && steps[0].col == d.col && steps[0].row == d.row);
        assert(wrap_stream(text, d, wrap_around) == steps_stream(steps));
        assert(steps_stream(steps) == steps[0].bytes);
        assert(n == text.len());
        assert(text.take(n) =~= text);
        assert(wrap_final(text, d, wrap_around) == d);
    } else {
        let tail = wrap_steps(rest, nd, wrap_around);
        assert(steps == head + tail);
        lemma_wrap_steps_shape(rest, nd, wrap_around);
        assert(tail.len() > 0);
        assert(tail[0].col == nd.col && tail[0].row == nd.row);
        assert(steps.len() >= 2);
        assert(steps[0].col == d.col && steps[0].row == d.row);
        assert(steps[1] == tail[0]);
        assert(steps.drop_first() =~= tail);
        assert(steps_stream(steps) == steps[0].bytes + cursor_seq(nd.col, nd.row)
            + steps_stream(tail));
        assert(wrap_stream(text, d, wrap_around) == steps_stream(steps));
        assert(wrap_stream(rest, nd, wrap_around) == steps_stream(tail));
        assert(wrap_stream(text, d, wrap_around) =~= text.take(n) + cursor_seq(nd.col, nd.row)
            + wrap_stream(rest, nd, wrap_around));
        // The cursor afterwards: the last step is the same on both sides.
        assert(steps.last() == tail.last());
        assert(wrap_final(text, d, wrap_around) == d.with_cursor(
            steps.last().col,
            steps.last().row,
        ));
        if tail.len() == 1 && tail[0].col == nd.col && tail[0].row == nd.row {
            assert(wrap_final(rest, nd, wrap_around) == nd);
            assert(d.with_cursor(tail.last().col, tail.last().row) == nd);
        } else {
            assert(wrap_final(rest, nd, wrap_around) == nd.with_cursor(
                tail.last().col,
                tail.last().row,
            ));
            assert(d.with_cursor(tail.last().col, tail.last().row) == nd.with_cursor(
                tail.last().col,
                tail.last().row,
            ));
        }
    }
}

} // verus!
