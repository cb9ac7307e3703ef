//! A verified streaming-download core.
//!
//! The library receives a response body as an ordered sequence of byte
//! chunks of unknown arrival timing, persists each chunk exactly once in
//! order, tracks cumulative bytes received against a declared total, and
//! emits human-readable progress updates no more often than once per
//! second.  All I/O (the HTTP calls, the destination file, the terminal)
//! lives outside the library; the library works on plain values and is
//! verified end to end.

pub mod downloader;
pub mod errors;
pub mod size_format;
pub mod target;
pub mod throttle;
