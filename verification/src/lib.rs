//! Core of a live Ogg/Vorbis re-streaming server.
//!
//! The library validates client-submitted Ogg/Vorbis tracks, rewrites their
//! comment headers, keeps a bounded play queue with stable handles, and
//! splices the admitted tracks (or a fallback track when the queue is empty)
//! into one logically continuous Ogg page stream: serials are rotated per
//! track, and sequence numbers and granule positions stay coherent across
//! splice points and fast-forwards.
//!
//! Byte-exact Ogg framing (page scanning, CRC recomputation) and all I/O —
//! the outbound Icecast connection, the RPC sockets, configuration loading —
//! sit outside the library; it works on pages and packets already lifted to
//! plain values, and hands back the pages to emit together with the time to
//! wait before the next one.

pub mod engine;
pub mod pacer;
pub mod page;
pub mod queue;
pub mod rewrite;
pub mod track;
pub mod vorbis;
pub mod wire;
