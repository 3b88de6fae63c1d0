//! Capture and reconstruction of keyboard timing events.
//!
//! A capture callback stamps key events with a hardware cycle counter and
//! writes them into a fixed-capacity ring buffer. After capture, the events
//! are put in chronological order, the cycle counts are converted to
//! microseconds, and the repeat intervals of each key are summarised.
//!
//! - [`calibration`]: cycle-counter ticks to microseconds.
//! - [`ring`]: the capture ring buffer and the callback's decision.
//! - [`payload`]: the bytes that come with a keyboard notification.
//! - [`keys`]: key codes to labels.
//! - [`reconstruct`]: from raw events to the ordered sequence.
//! - [`stats`] and [`analysis`]: per-key repeat-interval statistics.
//! - [`session`]: the capture loop's decision and the report of a session.
//! - [`export`]: the events as a CSV document.
//! - [`cli`]: the request made on the command line.
//! - [`text`]: numerals.

pub mod analysis;
pub mod calibration;
pub mod cli;
pub mod export;
pub mod keys;
pub mod payload;
pub mod reconstruct;
pub mod ring;
pub mod session;
pub mod stats;
pub mod text;
