//! An event-sourced bank account: the protobuf wire format of its events,
//! commands and state, the command handler that folds events into state and
//! decides on commands, and the event-sourcing steps around it.
pub mod wire;
pub mod proto;
pub mod decode;
pub mod encode;
pub mod roundtrip;
pub mod errtext;
pub mod types;
pub mod handler;
pub mod sourcer;
pub mod store;
pub mod laws;
