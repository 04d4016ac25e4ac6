//! Verified core of a single-connection, line-oriented mail-submission front
//! end: the command grammar, the session state machine, and the per-line
//! driver logic that decides what to write and when to close.

pub mod driver;
pub mod protocol;
pub mod session;
