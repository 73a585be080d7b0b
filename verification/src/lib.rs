//! A small Redis-compatible server: the RESP wire format, the key-value
//! storage with key expiry, the replication settings and the server state.

pub mod resp_result;
pub mod resp;
pub mod table;
pub mod set;
pub mod storage_result;
pub mod storage;
pub mod clock;
pub mod replication;
pub mod server_result;
pub mod server;
pub mod request;
pub mod connection;
pub mod text;
pub mod commands;
pub mod handshake;
pub mod resp_laws;
