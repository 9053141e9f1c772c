//! Core of a small replicated key-value store that sits on top of a Raft
//! consensus library.
//!
//! The crate is written without I/O of its own: every function works on plain
//! values (bytes, integers, names) and says in its contract what it returns.
//! The program around it reads and writes files, talks to peers and drives
//! the consensus library with what these functions decide.

pub mod checksum;
pub mod errors;
pub mod hex;
pub mod kv;
pub mod layout;
pub mod mumpb;
pub mod mumpb_grpc;
pub mod names;
pub mod node;
pub mod order;
pub mod pbwire;
pub mod raftpb;
pub mod server;
pub mod snap;
pub mod transport;
pub mod util;
pub mod wal;
pub mod wire;
