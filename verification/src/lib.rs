//! A small chat relay: the wire framing, the message store and the
//! per-connection decision logic of a chat server and its client, and the
//! request routing of a thread-pool web server, each with its contract.

pub mod message;
pub mod text;
pub mod framing;
pub mod database;
pub mod store;
pub mod server;
pub mod registry;
pub mod clients;
pub mod client;
pub mod http;
