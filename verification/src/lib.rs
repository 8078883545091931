//! Musify: the logic of a peer-to-peer music sharing node.
//!
//! The node reads commands typed by its user, answers requests for files
//! from other peers and stores the files it receives. This library holds
//! what the node decides and computes; the networking and the file system
//! stay with the program that drives it.
pub mod text;
pub mod varint;
pub mod codec;
pub mod transfer;
pub mod command;
pub mod provide;
