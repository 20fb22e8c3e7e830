use std::collections::HashMap;

use rgbd::{blob_cache_path, blob_fetch_outcome, blob_get_plan, BlobPlan, CacheError, Digest};

#[test]
fn cache_paths_have_the_fixed_shapes() {
    let digest = Digest::new("00213e27".to_string());
    assert_eq!(blob_cache_path(&digest), "file/00213e27");
    assert_eq!(rgbd::cache::db_cache_path("base"), "db/base.db");
    assert_eq!(
        rgbd::cache::db_url("meta"),
        "https://benchmark-database.de/getdatabase/meta"
    );
}

#[test]
fn miss_plans_a_fetch_of_the_content_url() {
    let digest = Digest::new("abc".to_string());
    match blob_get_plan(&digest, None) {
        BlobPlan::Fetch(url) => {
            assert_eq!(url, "https://benchmark-database.de/file/abc");
        }
        BlobPlan::Serve(_) => panic!("a miss must fetch"),
    }
}

#[test]
fn hit_serves_the_cached_bytes() {
    let digest = Digest::new("abc".to_string());
    match blob_get_plan(&digest, Some(b"blob".to_vec())) {
        BlobPlan::Serve(bytes) => assert_eq!(bytes, b"blob".to_vec()),
        BlobPlan::Fetch(_) => panic!("a hit must not fetch"),
    }
}

#[test]
fn failed_fetch_is_a_retrieval_error() {
    assert_eq!(blob_fetch_outcome(None), Err(CacheError::Retrieval));
    assert_eq!(blob_fetch_outcome(Some(b"ok".to_vec())), Ok(b"ok".to_vec()));
}

/// Drives one `get` against an in-memory store, counting remote fetches,
/// as a caller of the library would.
fn get_simulated(
    store: &mut HashMap<String, Vec<u8>>,
    digest: &Digest,
    remote: &[u8],
    fetches: &mut usize,
) -> Vec<u8> {
    let path = blob_cache_path(digest);
    match blob_get_plan(digest, store.get(&path).cloned()) {
        BlobPlan::Serve(bytes) => bytes,
        BlobPlan::Fetch(_url) => {
            *fetches += 1;
            let bytes = blob_fetch_outcome(Some(remote.to_vec())).unwrap();
            store.insert(path, bytes.clone());
            bytes
        }
    }
}

#[test]
fn second_get_serves_from_the_cache() {
    let digest = Digest::new("d1".to_string());
    let mut store: HashMap<String, Vec<u8>> = HashMap::new();
    let mut fetches: usize = 0;
    let first = get_simulated(&mut store, &digest, b"content", &mut fetches);
    let second = get_simulated(&mut store, &digest, b"content", &mut fetches);
    assert_eq!(fetches, 1);
    assert_eq!(first, second);
}

#[test]
fn failed_fetch_leaves_no_entry_behind() {
    let digest = Digest::new("d2".to_string());
    let mut store: HashMap<String, Vec<u8>> = HashMap::new();
    let path = blob_cache_path(&digest);
    match blob_get_plan(&digest, store.get(&path).cloned()) {
        BlobPlan::Fetch(_url) => {
            assert_eq!(blob_fetch_outcome(None), Err(CacheError::Retrieval));
            // Nothing is stored on failure; the next call is free to retry.
        }
        BlobPlan::Serve(_) => panic!("the store is empty"),
    }
    assert!(store.is_empty());
}
