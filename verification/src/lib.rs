//! Session-multiplexing adapter for a proxy tunneling protocol carried over a
//! QUIC transport. The library owns the protocol logic: wire headers, payload
//! fragmentation, per-association reassembly, dispatch legality per channel
//! kind and role, and stale-buffer garbage collection. Transport I/O (opening
//! channels, sending datagrams, stream reads) is left to the embedding code,
//! which hands this library plain bytes and takes plain bytes back.

pub mod side;
pub mod error;
pub mod address;
pub mod header;
pub mod fragment;
pub mod assembly;
pub mod connection;
pub mod laws;

pub use address::Address;
pub use connection::{Connect, Connection, Packet, PacketSource, Task};
pub use error::{AssembleError, DecodeErr, Error};
