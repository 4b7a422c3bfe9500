//! Wire-level codec for a lightweight publish/subscribe control-packet
//! protocol: primitive data types, the three-part packet structure
//! (fixed header, variable header, payload) and the dispatch over packet
//! types, with proofs that every encoder and decoder agrees with the
//! byte-level wire specification in [`wire`].

pub mod common;
pub mod control_packet;
pub mod error;
pub mod fixed_header;
pub mod payload;
pub mod server;
pub mod variable_header;
pub mod wire;
