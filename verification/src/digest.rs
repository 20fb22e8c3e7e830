//! Digest (hash value) of a benchmark instance, and its two-way relation
//! to the remote store's `.../file/{digest}` URL shape.

use vstd::prelude::*;
use vstd::string::StrSliceExecFns;
use vstd::string::StringExecFns;
use vstd::string::StringSliceAdditionalSpecFns;

use crate::track::TrackFormatError;

verus! {

/// Digest (hash value) of a benchmark instance: an opaque token that
/// always denotes the same byte content.
#[derive(Debug, Clone, PartialEq, Eq, Hash)]
pub struct Digest {
    token: String,
}

impl View for Digest {
    type V = Seq<char>;

    closed spec fn view(&self) -> Seq<char> {
        self.token@
    }
}

impl DeepView for Digest {
    type V = Seq<char>;

    closed spec fn deep_view(&self) -> Seq<char> {
        self.token@
    }
}

/// The deep view of a digest is its view.
pub broadcast proof fn lemma_digest_deep_view(d: Digest)
    ensures
        #[trigger] d.deep_view() == d@,
{
}

/// The last path segment of a URL line, or `None` when the line is not a
/// well-formed URL or cannot have path segments.
pub uninterp spec fn url_last_segment(line: Seq<u8>) -> Option<Seq<char>>;

/// Relies on `url::Url::parse` and `url::Url::path_segments`: parsing is a
/// pure function of the input text, `path_segments` is `None` exactly for
/// cannot-be-a-base URLs, and otherwise yields at least one (possibly
/// empty) segment. A line that is not UTF-8 is not a well-formed URL.
#[verifier::external_body]
pub(crate) fn parse_url_digest(line: &[u8]) -> (r: Option<String>)
    ensures
        r is Some <==> url_last_segment(line@) is Some,
        r matches Some(s) ==> s@ == url_last_segment(line@)->0,
{
    let text = match core::str::from_utf8(line) {
        Ok(t) => t,
        Err(_) => return None,
    };
    let url = match url::Url::parse(text) {
        Ok(u) => u,
        Err(_) => return None,
    };
    let segments = url.path_segments()?;
    segments.last().map(|s| s.to_string())
}

impl Digest {
    pub fn new(digest: String) -> (r: Self)
        ensures
            r@ == digest@,
    {
        Self { token: digest }
    }

    /// The fixed remote content URL that this digest's bytes live under.
    pub fn as_file_url(&self) -> (r: String)
        ensures
            r@ == "https://benchmark-database.de/file/"@ + self@,
    {
        let prefix = "https://benchmark-database.de/file/".to_owned();
        prefix.concat(self.token.as_str())
    }

    /// The digest named by a URL line: its final path segment.
    pub fn from_url(line: &str) -> (r: Result<Self, TrackFormatError>)
        ensures
            match r {
                Ok(d) => url_last_segment(line.spec_bytes()) == Some(d@),
                Err(e) => url_last_segment(line.spec_bytes()) is None && e.line@
                    == line.spec_bytes(),
            },
    {
        match parse_url_digest(line.as_bytes()) {
            Some(s) => Ok(Self { token: s }),
            None => Err(TrackFormatError { line: line.as_bytes_vec() }),
        }
    }

    /// The digest's token, for building cache paths.
    pub fn as_str(&self) -> (r: &str)
        ensures
            r@ == self@,
    {
        self.token.as_str()
    }
}

} // verus!
