//! Physical-space accounting for files on a copy-on-write filesystem with
//! transparent compression and reflink-shared extents.
//!
//! The crate decodes the fixed little-endian extent records returned by the
//! kernel's paginated extent-search query, classifies each record into a
//! semantic (key, compression, stat) tuple, deduplicates shared physical
//! extents, and accumulates per-compression usage statistics.  The query
//! itself and the surrounding file-tree walk are performed by the embedding
//! program; everything that decides or computes is verified here.

pub mod codec;
pub mod dedup;
pub mod extent;
pub mod session;
pub mod stats;
