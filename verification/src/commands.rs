//! Command encoder: the exact byte sequences of the device's wire protocol.
//!
//! The device understands a two-byte initialize (reset) sequence, a one-byte
//! clear, and a four-byte cursor move whose coordinates are 1-indexed on the
//! wire; the logical model of this crate is 0-indexed, so the encoder adds a
//! fixed offset of one. The offset is why the geometry is bounded by 254: a
//! wire coordinate must fit in a single byte.

use vstd::prelude::*;

verus! {

/// Escape byte that introduces the initialize command.
pub const CMD_ESC: u8 = 0x1b;

/// Reset code that follows the escape byte.
pub const CMD_RESET: u8 = 0x40;

/// Single-byte clear-screen command (form-feed style).
pub const CMD_CLEAR: u8 = 0x0c;

/// Unit-separator byte that introduces a cursor move.
pub const CMD_US: u8 = 0x1f;

/// Selector byte of a cursor move (`'$'`).
pub const CMD_CURSOR: u8 = 0x24;

/// Bytes of the initialize command.
pub open spec fn init_seq() -> Seq<u8> {
    seq![CMD_ESC, CMD_RESET]
}

/// Bytes of the clear command.
pub open spec fn clear_seq() -> Seq<u8> {
    seq![CMD_CLEAR]
}

/// Bytes of a cursor move to the given 0-indexed position; the wire
/// coordinates are 1-indexed, hence the offset.
pub open spec fn cursor_seq(col: int, row: int) -> Seq<u8> {
    seq![CMD_US, CMD_CURSOR, (col + 1) as u8, (row + 1) as u8]
}

/// Encode the initialize command.
pub fn init_command() -> (cmd: Vec<u8>)
    ensures
        cmd@ == init_seq(),
{
    let mut cmd: Vec<u8> = Vec::new();
    cmd.push(CMD_ESC);
    cmd.push(CMD_RESET);
    proof {
        assert(cmd@ =~= init_seq());
    }
    cmd
}

/// Encode the clear command.
pub fn clear_command() -> (cmd: Vec<u8>)
    ensures
        cmd@ == clear_seq(),
{
    let mut cmd: Vec<u8> = Vec::new();
    cmd.push(CMD_CLEAR);
    proof {
        assert(cmd@ =~= clear_seq());
    }
    cmd
}

/// Encode a cursor move to the given 0-indexed position.
pub fn cursor_command(col: u8, row: u8) -> (cmd: Vec<u8>)
    requires
        col <= 254,
        row <= 254,
    ensures
        cmd@ == cursor_seq(col as int, row as int),
{
    let mut cmd: Vec<u8> = Vec::new();
    cmd.push(CMD_US);
    cmd.push(CMD_CURSOR);
    cmd.push(col + 1);
    cmd.push(row + 1);
    proof {
        assert(cmd@ =~= cursor_seq(col as int, row as int));
    }
    cmd
}

} // verus!
