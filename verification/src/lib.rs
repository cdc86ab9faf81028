//! A validated-prompt-retry reader.
//!
//! The library models a console prompt loop: display a label, take one line
//! of input, trim it, convert it to a target type, and retry on any failure
//! until a line converts. The loop itself is a pure function over the
//! sequence of read events the input source yields, so every decision it
//! makes — what it returns, what it writes, and when an error observer is
//! notified — is stated in its contract. An I/O layer drives the same
//! decisions against a real console.

pub mod convert;
pub mod reader;
pub mod serial;
pub mod text;
