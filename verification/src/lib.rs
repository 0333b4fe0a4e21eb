//! Checks which hosts answer over HTTP(S), and what they answer.
//!
//! The library holds the decisions of a check: how many requests run at
//! once, the order in which a host is tried, how much of a body is kept,
//! which status codes a run reports, and what is read out of an answer.
//! Sending the requests is left to the caller.

pub mod httplib;
pub mod structs;
pub mod text;
pub mod utils;
