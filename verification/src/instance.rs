//! Instance reading: the composition that turns a digest's cached blob
//! into a formula — decompress the XZ stream, then parse the DIMACS text.

use vstd::prelude::*;

use crate::parse::{spec_parse, CnfView, ParseError, ParseErrorView, CNF};

verus! {

/// Why an instance could not be read from its blob.
#[derive(Debug, Clone, PartialEq, Eq)]
pub enum InstanceError {
    /// The compressed stream is malformed.
    Decode,
    /// The decompressed text is not valid DIMACS.
    Parse(ParseError),
}

/// Mathematical model of an instance-reading failure.
pub enum InstanceErrorView {
    Decode,
    Parse(ParseErrorView),
}

impl View for InstanceError {
    type V = InstanceErrorView;

    open spec fn view(&self) -> InstanceErrorView {
        match self {
            InstanceError::Decode => InstanceErrorView::Decode,
            InstanceError::Parse(e) => InstanceErrorView::Parse(e@),
        }
    }
}

/// The decompressed content of an XZ stream, where the stream is well
/// formed; `None` where it is not.
pub uninterp spec fn xz_decoded(data: Seq<u8>) -> Option<Seq<u8>>;

/// Relies on `xz2::read::XzDecoder` (single-stream decoding, driven with
/// `std::io::Read::read_to_end`): whether decoding succeeds, and what it
/// yields, is a pure function of the compressed bytes.
#[verifier::external_body]
fn xz_decode(data: &[u8]) -> (r: Option<Vec<u8>>)
    ensures
        r is Some <==> xz_decoded(data@) is Some,
        r matches Some(b) ==> b@ == xz_decoded(data@)->0,
{
    let mut decoder = xz2::read::XzDecoder::new(data);
    let mut plain = Vec::new();
    match std::io::Read::read_to_end(&mut decoder, &mut plain) {
        Ok(_) => Some(plain),
        Err(_) => None,
    }
}

/// Reads one instance from its raw (still compressed) blob bytes:
/// decompression failure is a `Decode` error and is not retried; the
/// decompressed text parses as DIMACS CNF.
pub fn read_instance(data: &[u8]) -> (r: Result<CNF, InstanceError>)
    ensures
        match r {
            Ok(cnf) => xz_decoded(data@) matches Some(plain) && spec_parse(plain) == Ok::<
                CnfView,
                ParseErrorView,
            >(cnf@),
            Err(e) => match e@ {
                InstanceErrorView::Decode => xz_decoded(data@) is None,
                InstanceErrorView::Parse(pe) => xz_decoded(data@) matches Some(plain)
                    && spec_parse(plain) == Err::<CnfView, ParseErrorView>(pe),
            },
        },
{
    let plain = match xz_decode(data) {
        Some(p) => p,
        None => {
            return Err(InstanceError::Decode);
        },
    };
    match CNF::from_dimacs_format(plain.as_slice()) {
        Ok(cnf) => Ok(cnf),
        Err(e) => Err(InstanceError::Parse(e)),
    }
}

} // verus!
