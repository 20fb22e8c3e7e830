//! Client-side core of a SAT benchmark database: resolves named tracks to
//! ordered lists of content digests, models the content-addressed blob
//! cache that turns a digest into verified local bytes, and decodes each
//! instance from its compressed blob into a structured DIMACS CNF formula.
//!
//! The filesystem and the network stay with the caller: the library makes
//! every decision (cache paths, fetch-or-serve, listing and formula
//! parsing) over plain values, and callers move the bytes.

pub mod cache;
pub mod digest;
pub mod instance;
pub mod meta;
pub mod parse;
pub mod text;
pub mod track;

pub use crate::cache::{blob_cache_path, blob_fetch_outcome, blob_get_plan, BlobPlan, CacheError};
pub use crate::digest::Digest;
pub use crate::instance::{read_instance, InstanceError};
pub use crate::meta::{sat_result_of, size_of_row, SatResult, Size, SizeFormatError};
pub use crate::parse::{ParseError, CNF};
pub use crate::track::{
    listing_must_fetch, parse_track_listing, track_cache_path, track_listing_request,
    TrackFormatError,
};
