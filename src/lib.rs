//! Control plane of a station-based broadcast server: the wire codec, the
//! per-connection state machine with its outbound queue, the table of live
//! connections and the reactor's decisions. Socket I/O is done by the caller,
//! which hands each outcome back to the library.

pub mod commands;
pub mod connection;
pub mod table;
pub mod server;
