//! Content-addressable blob cache: the decisions that map a digest to its
//! local path or remote URL, and what to do with a lookup or fetch result.
//! The filesystem and the transport stay with the caller; because content
//! is immutable under its digest, a cache hit is always byte-identical to
//! a fresh fetch.

use vstd::prelude::*;
use vstd::string::StringExecFns;

use crate::digest::Digest;

verus! {

/// Why a blob could not be served.
#[derive(Debug, Clone, PartialEq, Eq)]
pub enum CacheError {
    /// The remote fetch failed (network or HTTP condition).
    Retrieval,
    /// A local filesystem read or write failed.
    Storage,
}

/// What `get` must do after the local lookup.
pub enum BlobPlan {
    /// The blob was cached: serve these bytes; no fetch happens.
    Serve(Vec<u8>),
    /// No local entry: fetch this URL.
    Fetch(String),
}

/// The cache-relative location of a digest's blob.
pub fn blob_cache_path(digest: &Digest) -> (r: String)
    ensures
        r@ == "file/"@ + digest@,
{
    let prefix = "file/".to_owned();
    prefix.concat(digest.as_str())
}

/// The cache-relative location of an auxiliary database.
pub fn db_cache_path(name: &str) -> (r: String)
    ensures
        r@ == "db/"@ + name@ + ".db"@,
{
    let prefix = "db/".to_owned();
    prefix.concat(name).concat(".db")
}

/// The remote URL of an auxiliary database.
pub fn db_url(name: &str) -> (r: String)
    ensures
        r@ == "https://benchmark-database.de/getdatabase/"@ + name@,
{
    let prefix = "https://benchmark-database.de/getdatabase/".to_owned();
    prefix.concat(name)
}

/// The decision after the local lookup: a cached blob is served as it is;
/// a miss fetches the digest's fixed content URL.
pub fn blob_get_plan(digest: &Digest, local: Option<Vec<u8>>) -> (r: BlobPlan)
    ensures
        match local {
            Some(b) => r matches BlobPlan::Serve(sb) && sb == b,
            None => r matches BlobPlan::Fetch(u) && u@ == "https://benchmark-database.de/file/"@
                + digest@,
        },
{
    match local {
        Some(b) => BlobPlan::Serve(b),
        None => BlobPlan::Fetch(digest.as_file_url()),
    }
}

/// The decision after a fetch: successful bytes are persisted under the
/// digest's path and served; a transport failure is a `Retrieval` error
/// and must leave no cache entry behind.
pub fn blob_fetch_outcome(fetched: Option<Vec<u8>>) -> (r: Result<Vec<u8>, CacheError>)
    ensures
        match fetched {
            Some(b) => r matches Ok(rb) && rb == b,
            None => r matches Err(e) && e == CacheError::Retrieval,
        },
{
    match fetched {
        Some(b) => Ok(b),
        None => Err(CacheError::Retrieval),
    }
}

/// One `get` round against the local store: the bytes served, whether a
/// remote fetch happened, and the store afterwards (a fetched blob is
/// persisted under its digest).
pub open spec fn spec_blob_get_round(
    store: Map<Seq<char>, Seq<u8>>,
    digest: Seq<char>,
    remote: Seq<u8>,
) -> (Seq<u8>, bool, Map<Seq<char>, Seq<u8>>) {
    if store.contains_key(digest) {
        (store[digest], false, store)
    } else {
        (remote, true, store.insert(digest, remote))
    }
}

/// Getting a digest twice, starting from a store without it, fetches
/// exactly once, and both rounds serve byte-identical content whatever
/// the remote would serve the second time.
pub proof fn lemma_blob_get_twice(
    store: Map<Seq<char>, Seq<u8>>,
    digest: Seq<char>,
    remote1: Seq<u8>,
    remote2: Seq<u8>,
)
    requires
        !store.contains_key(digest),
    ensures
        ({
            let (bytes1, fetched1, store1) = spec_blob_get_round(store, digest, remote1);
            let (bytes2, fetched2, store2) = spec_blob_get_round(store1, digest, remote2);
            &&& fetched1
            &&& !fetched2
            &&& bytes2 == bytes1
            &&& store2 == store1
        }),
{
}

/// A blob already in the store is served from it: no fetch, no change.
pub proof fn lemma_blob_get_hit(store: Map<Seq<char>, Seq<u8>>, digest: Seq<char>, remote: Seq<u8>)
    requires
        store.contains_key(digest),
    ensures
        spec_blob_get_round(store, digest, remote) == (store[digest], false, store),
{
}

} // verus!
