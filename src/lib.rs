//! A sink for a validator's account and transaction callbacks: each callback
//! becomes an event, the event goes to a channel without waiting, and a writer
//! appends one self-delimiting text record per event to the stream of its kind.
//!
//! - `event`: the event model and its construction from either payload version.
//! - `record`: the record format, its reader, and what holds of written streams.
//! - `text`: hex, decimal and separator-joined tokens.
//! - `plugin`: the callback surface.
//! - `upstream`: the host's payload types and the outside calls relied on.
pub mod event;
pub mod plugin;
pub mod record;
pub mod text;
pub mod upstream;
