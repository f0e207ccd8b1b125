//! Core of a peer-to-peer, content-addressed file transfer node.
//!
//! Files are cut into fixed-size blocks, every block is named by a 128-bit
//! digest of its bytes, and a set of files is named by one 128-bit resource
//! hash. Nodes keep a registry of the resources they share and exchange blocks
//! over a small binary protocol. This crate holds the rules of that system as
//! verified functions on plain values; sockets, files and clocks are supplied
//! by the program around it.

pub mod api;
pub mod codec;
pub mod connection;
pub mod download;
pub mod error;
pub mod filemap;
pub mod hex;
pub mod peers;
pub mod registry;
pub mod server;
pub mod store;
