//! Driver model for a character-grid display (a VFD/LCD-style module) that is
//! driven over a byte-oriented serial link.
//!
//! The crate is split in two layers. [`commands`] is the command encoder: it
//! maps the device's fixed operations (initialize, clear, cursor move) to the
//! exact byte sequences of the wire protocol. [`display`] is the layout
//! engine: it owns the logical cursor and the display geometry, classifies a
//! piece of text against the space that is left ([`fit`]), and turns a
//! placement request into the byte stream to transmit — text chunks
//! interleaved with cursor moves.
//!
//! The crate itself performs no I/O: every operation returns the bytes to
//! send, and the embedding application pushes them down its serial handle.
//! Text is treated as a sequence of single-byte display cells, so all layout
//! arithmetic is over byte lengths.

pub mod commands;
pub mod display;
pub mod fit;
pub mod wrap;
