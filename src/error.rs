//! The errors of vault operations.

use vstd::prelude::*;

verus! {

/// Every way a vault operation can fail. Each variant carries the values an
/// operator needs to diagnose the failure.
#[derive(Debug, Clone, PartialEq, Eq)]
pub enum VaultError {
    /// No pad with this id is registered in the vault.
    PadNotFound { pad_id: String },
    /// Automatic selection found no pad with this many contiguous free bytes.
    NoSuitablePad { length: u64 },
    /// The chosen pad has no free contiguous range of this length.
    InsufficientSpace { pad_id: String, length: u64 },
    /// The chosen pad is marked as fully used.
    PadAlreadyFullyUsed { pad_id: String },
    /// The requested range intersects a range that was already consumed.
    SegmentOverlap { pad_id: String, start: u64, length: u64 },
    /// The requested range does not lie inside the pad.
    SegmentOutOfBounds { pad_id: String, start: u64, length: u64, size: u64 },
    /// The content hash of the ciphertext differs from the recorded one.
    IntegrityMismatch { expected_hash: String, actual_hash: String },
    /// Fewer pad bytes could be read than the segment needs.
    PadReadError { wanted: u64, got: u64 },
    /// Pad material could not be produced or written.
    PadWriteError,
    /// A pad of this many megabytes has more bytes than a `u64` counts.
    PadTooLarge { size_mb: u64 },
    /// The vault state could not be loaded, is inconsistent, or could not be saved.
    StateIoError,
    /// The input stream is longer than the pad segment reserved for it.
    InputLongerThanSegment { segment_length: u64 },
}

} // verus!
