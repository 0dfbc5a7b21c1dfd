//! Decision and formatting logic of a filesystem tracer that is preloaded into
//! a host process and records the path of every open-family call it sees.
//!
//! The exported hooks, the process-wide state and the calls into the dynamic
//! loader live outside this library; everything they decide is decided here.

pub mod record;
pub mod fault;
pub mod mode;
pub mod intercept;
