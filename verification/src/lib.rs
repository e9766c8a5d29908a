//! Event-dispatch core for chat-bot backends.
//!
//! The crate covers three subsystems: a stable min-priority dispatch queue
//! that orders handler invocation deterministically, a router predicate
//! algebra that decides which handlers apply to an event, and the
//! connection-registry / broadcast layer that fans inbound frames from many
//! connections into one bounded event stream.
//!
//! `queue` holds the dispatch queue and its drain-order laws; `router` the
//! predicate algebra; `event` the content model and the event capability
//! interface; `entry`, `handler` and `plugin` the registration surface and
//! the dispatcher; `connection` the registry, the bounded backlog and the
//! read loop's frame decisions; `models` the chat protocol's records and
//! the reply builder; `text` the character-level predicates these rest on;
//! and `runtime` the lifecycle controller's decisions.

pub mod connection;
pub mod entry;
pub mod event;
pub mod handler;
pub mod models;
pub mod plugin;
pub mod queue;
pub mod router;
pub mod runtime;
pub mod text;
