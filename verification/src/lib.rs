//! Incremental decoding of raw terminal input into key events.
//!
//! A terminal in raw mode hands the application one byte at a time.  Plain
//! printable bytes stand for themselves, but the named keys (arrows, function
//! keys, and their modifier combinations) arrive as multi-byte escape
//! sequences, and a lone escape byte is both a key of its own and the first
//! byte of every such sequence.  This crate resolves that ambiguity
//! incrementally: a [`decoder::Decoder`] accumulates bytes while they are a
//! prefix of a recognized sequence, emits the decoded [`keys::ExtendedChar`]
//! on a complete match, and re-encodes the accumulated bytes as plain text,
//! control, and Alt-modified events when no sequence can match any more (or
//! when the caller decides that no further byte is coming in time).
//!
//! Alongside the decoder, [`quit::check_quit_buffer`] watches the raw byte
//! stream for a caller-configured termination sequence with a sliding window
//! that resynchronizes on mismatch.

pub mod decoder;
pub mod fallback;
pub mod keys;
pub mod quit;
pub mod table;
pub mod unicode;
