//! A one-time-pad vault: bookkeeping of which byte ranges of each pad have
//! been consumed, a first-fit segment allocator, and a streaming XOR cipher
//! whose output is bound to its pad segment by a content hash.

pub mod error;
pub mod segment;
pub mod digest;
pub mod cipher;
pub mod vault;
pub mod lemmas;
pub mod provision;
pub mod summary;
pub mod pipeline;
