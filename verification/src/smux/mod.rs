//! The SMUX peer protocol: the PDUs, and the state of the server that peers register with.

pub mod codec;
pub mod laws;
pub mod peer_laws;
pub mod server;
pub mod tags;
