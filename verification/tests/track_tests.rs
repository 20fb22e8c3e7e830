use rgbd::{listing_must_fetch, parse_track_listing, track_cache_path, track_listing_request, Digest};

#[test]
fn listing_yields_digests_in_order() {
    let listing = b"https://benchmark-database.de/file/aaa\nhttps://benchmark-database.de/file/bbb\n";
    let digests = parse_track_listing(listing).unwrap();
    assert_eq!(
        digests,
        vec![Digest::new("aaa".to_string()), Digest::new("bbb".to_string())]
    );
}

#[test]
fn malformed_line_fails_whole_listing() {
    let listing = b"https://benchmark-database.de/file/aaa\nnot a url\nhttps://benchmark-database.de/file/bbb\n";
    let err = parse_track_listing(listing).unwrap_err();
    assert_eq!(err.line, b"not a url".to_vec());
}

#[test]
fn blank_listing_lines_are_skipped() {
    let listing = b"\nhttps://benchmark-database.de/file/aaa\n\n";
    let digests = parse_track_listing(listing).unwrap();
    assert_eq!(digests, vec![Digest::new("aaa".to_string())]);
}

#[test]
fn listing_with_crlf_endings_parses() {
    let listing = b"https://benchmark-database.de/file/aaa\r\nhttps://benchmark-database.de/file/bbb\r\n";
    let digests = parse_track_listing(listing).unwrap();
    assert_eq!(
        digests,
        vec![Digest::new("aaa".to_string()), Digest::new("bbb".to_string())]
    );
}

#[test]
fn digest_file_url_round_trip() {
    let digest = Digest::new("0123456789abcdef".to_string());
    let url = digest.as_file_url();
    assert_eq!(url, "https://benchmark-database.de/file/0123456789abcdef");
    let back = Digest::from_url(&url).unwrap();
    assert_eq!(back, digest);
}

#[test]
fn url_without_path_segments_is_rejected() {
    let err = Digest::from_url("mailto:someone@example.com").unwrap_err();
    assert_eq!(err.line, b"mailto:someone@example.com".to_vec());
}

#[test]
fn cache_and_request_shapes() {
    assert_eq!(track_cache_path("main_2023"), "tracks/main_2023");
    let (endpoint, query, context) = track_listing_request("main_2023");
    assert_eq!(endpoint, "https://benchmark-database.de/getinstances");
    assert_eq!(query, "track=main_2023");
    assert_eq!(context, "cnf");
}

#[test]
fn fetch_decision_honours_cache_and_force() {
    assert!(listing_must_fetch(false, false));
    assert!(!listing_must_fetch(false, true));
    assert!(listing_must_fetch(true, false));
    assert!(listing_must_fetch(true, true));
}

/// Drives two resolutions of one track against an in-memory listing cache,
/// counting remote fetches, as a caller of the library would.
fn resolve_simulated(
    cache: &mut Option<Vec<u8>>,
    force_refresh: bool,
    remote: &[u8],
    fetches: &mut usize,
) -> Vec<Digest> {
    let text: Vec<u8> = if listing_must_fetch(force_refresh, cache.is_some()) {
        *fetches += 1;
        let fetched = remote.to_vec();
        *cache = Some(fetched.clone());
        fetched
    } else {
        cache.clone().unwrap()
    };
    parse_track_listing(&text).unwrap()
}

#[test]
fn second_resolve_uses_cached_listing() {
    let remote = b"https://benchmark-database.de/file/aaa\nhttps://benchmark-database.de/file/bbb\n";
    let mut cache: Option<Vec<u8>> = None;
    let mut fetches: usize = 0;
    let first = resolve_simulated(&mut cache, false, remote, &mut fetches);
    let second = resolve_simulated(&mut cache, false, remote, &mut fetches);
    assert_eq!(fetches, 1);
    assert_eq!(first, second);
}

#[test]
fn force_refresh_always_refetches() {
    let remote = b"https://benchmark-database.de/file/aaa\n";
    let mut cache: Option<Vec<u8>> = None;
    let mut fetches: usize = 0;
    resolve_simulated(&mut cache, false, remote, &mut fetches);
    resolve_simulated(&mut cache, true, remote, &mut fetches);
    assert_eq!(fetches, 2);
}
