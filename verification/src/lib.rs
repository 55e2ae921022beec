//! A verified BitTorrent peer-wire-protocol engine.
//!
//! The library covers the binary message codec, the handshake frame, the
//! per-peer bitfield, torrent piece/block partitioning, the piece download
//! engine, the shared piece allocator, the per-connection session state
//! machine, and the tracker's announce URL and response formats.  Socket
//! I/O, timeouts and threading live outside the library; callers feed
//! bytes and events in and carry the computed frames and decisions out.

pub mod bytes;
pub mod download;
pub mod handshake;
pub mod hash;
pub mod message;
pub mod session;
pub mod status;
pub mod torrent;
pub mod tracker;
