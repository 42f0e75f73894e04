//! LogShrink: a syslog collection and compact-archival core.
//!
//! Log messages are grouped into chunks; each chunk discovers repeating
//! message templates, replaces variable tokens with `<*>` placeholders,
//! and is written out as a columnar, delta-encoded, block-compressed
//! archive.  The decoder inverts the layout and a reconstructor re-emits
//! syslog-shaped lines from templates and captured variables.
#![verifier::loop_isolation(false)]

pub mod text;
pub mod event;
pub mod chunk;
pub mod discover;
pub mod delta;
pub mod codec;
pub mod storage;
pub mod protocol;
pub mod rfc3164;
pub mod rfc5424;
pub mod reconstruct;
pub mod frame;
pub mod cluster;
pub mod supervisor;
