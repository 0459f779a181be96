//! Collects the chunks of an HTTP body into one contiguous buffer.
//!
//! The collector never touches a transport. It is handed what each pull of a
//! body gave and answers with what to do next, so the same rules serve a live
//! body driven by async code and a recorded one held in memory.

pub mod chunk;
pub mod collector;
pub mod frames;
pub mod replay;
