//! A local range-serving resource handler: given a resource identifier in a
//! custom scheme and an optional byte-range header, it resolves which bytes of
//! a file to serve and assembles the response with exact status, headers and
//! body, so a media player can seek inside large files.
//!
//! The handler itself is pure: the surrounding application performs the
//! filesystem probes and reads, and hands their results to these functions as
//! plain values.

pub mod digits;
pub mod handler;
pub mod laws;
pub mod mime;
pub mod range;
pub mod response;
pub mod text;
pub mod uri;
