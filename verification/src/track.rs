//! Track resolution: a named, ordered collection of instance digests,
//! parsed from a newline-delimited listing of URLs, with a local cache of
//! the raw listing that `force_refresh` bypasses.

use vstd::prelude::*;
use vstd::string::StringExecFns;

use crate::digest::{parse_url_digest, url_last_segment, Digest};
use crate::text::spec_split;

verus! {

broadcast use crate::text::lemma_bytes_deep_view, crate::digest::lemma_digest_deep_view;

/// A listing line that is not a well-formed URL or yields no digest.
#[derive(Debug, Clone, PartialEq, Eq)]
pub struct TrackFormatError {
    /// The offending line, without its line terminator.
    pub line: Vec<u8>,
}

/// One listing line with a single trailing carriage return removed, as a
/// text split on `\n` leaves one before the break.
pub open spec fn clean_line(line: Seq<u8>) -> Seq<u8> {
    if line.len() > 0 && line.last() == 13 {
        line.drop_last()
    } else {
        line
    }
}

/// The digests named by the listing's lines, in listing order: every
/// non-empty line must be a URL with a final path segment, and the first
/// line that is not fails the whole listing.
pub open spec fn spec_track_digests(lines: Seq<Seq<u8>>) -> Result<Seq<Seq<char>>, Seq<u8>>
    decreases lines.len(),
{
    if lines.len() == 0 {
        Ok(Seq::empty())
    } else {
        let l = clean_line(lines.first());
        if l.len() == 0 {
            spec_track_digests(lines.drop_first())
        } else {
            match url_last_segment(l) {
                None => Err(l),
                Some(d) => match spec_track_digests(lines.drop_first()) {
                    Err(e) => Err(e),
                    Ok(ds) => Ok(seq![d] + ds),
                },
            }
        }
    }
}

/// The digest list of raw listing text.
pub open spec fn spec_track_listing(text: Seq<u8>) -> Result<Seq<Seq<char>>, Seq<u8>> {
    spec_track_digests(spec_split(text, 10))
}

/// `r` with the digests `pre` prepended on success.
pub open spec fn with_digest_prefix(pre: Seq<Seq<char>>, r: Result<Seq<Seq<char>>, Seq<u8>>) -> Result<
    Seq<Seq<char>>,
    Seq<u8>,
> {
    match r {
        Ok(ds) => Ok(pre + ds),
        Err(e) => Err(e),
    }
}

/// Parses a track listing: one instance URL per non-empty line; returns
/// the digests in listing order, or the first malformed line. No partial
/// list is ever returned.
pub fn parse_track_listing(text: &[u8]) -> (r: Result<Vec<Digest>, TrackFormatError>)
    ensures
        match r {
            Ok(ds) => spec_track_listing(text@) == Ok::<Seq<Seq<char>>, Seq<u8>>(ds.deep_view()),
            Err(e) => spec_track_listing(text@) == Err::<Seq<Seq<char>>, Seq<u8>>(e.line@),
        },
{
    let lines = crate::text::split_bytes(text, 10);
    let ghost lv = lines.deep_view();
    let n = lines.len();
    let mut digests: Vec<Digest> = Vec::new();
    let mut k: usize = 0;
    proof {
        assert(lv.skip(0) =~= lv);
        assert(digests.deep_view() + Seq::<Seq<char>>::empty() =~~= digests.deep_view());
    }
    while k < n
        invariant
            n == lines.len(),
            lv == lines.deep_view(),
            lv == spec_split(text@, 10),
            k <= n,
            spec_track_digests(lv) == with_digest_prefix(
                digests.deep_view(),
                spec_track_digests(lv.skip(k as int)),
            ),
        decreases n - k,
    {
        let ghost rem = lv.skip(k as int);
        proof {
            assert(rem.first() == lv[k as int]);
            assert(rem.drop_first() =~= lv.skip(k + 1));
        }
        let raw = lines[k].as_slice();
        let len = raw.len();
        let line = if len > 0 && raw[len - 1] == 13 {
            vstd::slice::slice_subrange(raw, 0, len - 1)
        } else {
            raw
        };
        proof {
            if len > 0 && raw@[len - 1] == 13 {
                assert(line@ =~= clean_line(rem.first()));
            } else {
                assert(line@ == clean_line(rem.first()));
            }
        }
        if line.len() == 0 {
            // Blank listing lines carry no digest.
        } else {
            match parse_url_digest(line) {
                Some(s) => {
                    let ghost old_ds = digests.deep_view();
                    let ghost dv = s@;
                    proof {
                        assert(spec_track_digests(rem) == with_digest_prefix(
                            seq![dv],
                            spec_track_digests(lv.skip(k + 1)),
                        ));
                    }
                    digests.push(Digest::new(s));
                    proof {
                        assert(digests.deep_view() =~~= old_ds.push(dv));
                        match spec_track_digests(lv.skip(k + 1)) {
                            Ok(ds) => {
                                assert(old_ds + (seq![dv] + ds) =~~= digests.deep_view() + ds);
                            },
                            Err(_) => {},
                        }
                    }
                },
                None => {
                    proof {
                        assert(spec_track_digests(rem) == Err::<Seq<Seq<char>>, Seq<u8>>(line@));
                    }
                    return Err(
                        TrackFormatError { line: vstd::slice::slice_to_vec(line) },
                    );
                },
            }
        }
        k = k + 1;
    }
    proof {
        assert(lv.skip(n as int) =~= Seq::<Seq<u8>>::empty());
        assert(digests.deep_view() + Seq::<Seq<char>>::empty() =~~= digests.deep_view());
    }
    Ok(digests)
}

/// The cache-relative location of a track's raw listing.
pub fn track_cache_path(track: &str) -> (r: String)
    ensures
        r@ == "tracks/"@ + track@,
{
    let prefix = "tracks/".to_owned();
    prefix.concat(track)
}

/// The remote listing request for a track: the endpoint and the values of
/// its `query` and `context` parameters.
pub fn track_listing_request(track: &str) -> (r: (String, String, String))
    ensures
        r.0@ == "https://benchmark-database.de/getinstances"@,
        r.1@ == "track="@ + track@,
        r.2@ == "cnf"@,
{
    let endpoint = "https://benchmark-database.de/getinstances".to_owned();
    let query = "track=".to_owned().concat(track);
    let context = "cnf".to_owned();
    (endpoint, query, context)
}

/// Whether `resolve` must fetch the listing from the remote store: always
/// under `force_refresh`, otherwise only when no cached listing exists.
pub fn listing_must_fetch(force_refresh: bool, cached: bool) -> (r: bool)
    ensures
        r == (force_refresh || !cached),
{
    force_refresh || !cached
}

/// One `resolve` round against the listing cache: the listing text used,
/// whether a remote fetch happened, and the cache afterwards (a fetched
/// listing is persisted verbatim).
pub open spec fn spec_resolve_round(
    cache: Option<Seq<u8>>,
    force_refresh: bool,
    remote: Seq<u8>,
) -> (Seq<u8>, bool, Option<Seq<u8>>) {
    if !force_refresh && cache is Some {
        (cache->0, false, cache)
    } else {
        (remote, true, Some(remote))
    }
}

/// Resolving a track twice without `force_refresh` fetches the listing at
/// most once: the second round reads the cached text, so it returns the
/// same ordered digest list whatever the remote would now serve.
pub proof fn lemma_resolve_twice_uses_cache(
    cache: Option<Seq<u8>>,
    remote1: Seq<u8>,
    remote2: Seq<u8>,
)
    ensures
        ({
            let (text1, fetched1, cache1) = spec_resolve_round(cache, false, remote1);
            let (text2, fetched2, cache2) = spec_resolve_round(cache1, false, remote2);
            &&& !fetched2
            &&& text2 == text1
            &&& cache2 == cache1
            &&& spec_track_listing(text2) == spec_track_listing(text1)
        }),
{
}

/// A `force_refresh` resolution fetches the listing whatever the cache
/// holds, and uses exactly the freshly fetched text.
pub proof fn lemma_force_refresh_always_fetches(cache: Option<Seq<u8>>, remote: Seq<u8>)
    ensures
        spec_resolve_round(cache, true, remote).1,
        spec_resolve_round(cache, true, remote).0 == remote,
{
}

} // verus!
