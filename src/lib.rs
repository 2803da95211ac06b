//! Projection of signed protocol events into a time-partitioned document store.
//!
//! The library decides everything the write path needs: how an event is
//! routed, what document it becomes, which dated partition it belongs to,
//! whether that partition may still be written, which older documents a
//! replaceable event supersedes, and whether a deletion request is authorized.
//! Talking to the event source and to the store is left to the caller.
pub mod deletion;
pub mod event;
pub mod kind;
pub mod partition;
pub mod store;
pub mod tags;
pub mod text;
pub mod update;
