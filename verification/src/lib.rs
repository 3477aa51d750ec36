//! Verified core of an SSH/SFTP video streaming engine.
//!
//! Remote files behind an SFTP endpoint are exposed to a local media player
//! as HTTP-range-addressable byte streams.  This crate holds the logic worth
//! proving: the byte-range parser, the partial-content response builder, the
//! per-path worker state machine, and the coordinator that routes requests
//! and invalidates workers when the connection configuration changes.  The
//! network I/O itself (SSH transport, SFTP reads) lives outside, handing this
//! crate plain values.

use vstd::prelude::*;

pub mod coordinator;
pub mod listing;
pub mod media;
pub mod numfmt;
pub mod range;
pub mod reassembly;
pub mod response;
pub mod streampath;
pub mod worker;

pub use media::is_video_path;
pub use media::map_content_type;
pub use numfmt::u64_to_dec;
pub use range::parse_range_header;

verus! {

/// Default number of bytes served when a request carries no usable range:
/// 2 MiB.
pub const DEFAULT_CHUNK_SIZE: u64 = 2 * 1024 * 1024;

} // verus!
