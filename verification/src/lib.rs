//! Core logic of the exam monitor: wire protocol, identities, room codes,
//! the server's roster and the client's connection workflow.

pub mod calendar;
pub mod client;
pub mod discovery;
pub mod frames;
pub mod identity;
pub mod logging;
pub mod protocol;
pub mod room;
pub mod roster;
pub mod server;
pub mod stress;
pub mod text;
