//! Prefix every line of a byte stream with two elapsed-time measurements:
//! time since the run started, and time since the previous line was
//! completed.
//!
//! The crate is organised leaves first.  [`duration`] holds the elapsed
//! span value and its two display forms; [`order`] proves that the
//! sortable form compares as text exactly as the spans compare.
//! [`writer`] is the line-timestamping transform: it recognises line
//! boundaries across arbitrarily fragmented chunks and prepends one
//! prefix per line.  [`stream`] pumps a byte source through such a
//! transform until end-of-stream, [`exit`] decides the wrapper's own exit
//! code and summary line, and [`clock`] shims the monotonic clock.

pub mod clock;
pub mod duration;
pub mod exit;
pub mod order;
pub mod stream;
pub mod writer;

pub use duration::{Dur, DurationExt, Format};
pub use stream::{line_timing_copy, FailureOrigin, IoFailure};
pub use writer::RtssWriter;
