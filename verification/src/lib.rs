//! Turns the raw change records of a file watcher into events and puts each
//! on a queue as one line of JSON.
//!
//! A record is classified into an [`Event`] ([`classify`]), the event is
//! encoded for the wire ([`encode`]), and the [`WatchLoop`] says when to
//! append the text to the queue and when to stop. Watching the file system
//! and talking to the queue are the caller's part.

pub mod event;
pub mod json;
pub mod publish;
pub mod record;
pub mod text;
pub mod timestamp;
pub mod watch;
pub mod wire;

pub use event::{classify, Event};
pub use publish::{Failure, PublishError};
pub use record::{ChangeKind, RawChangeRecord};
pub use timestamp::Timestamp;
pub use watch::{Action, LoopState, Outcome, Signal, WatchError, WatchLoop};
pub use wire::{decode, encode, format_event};
