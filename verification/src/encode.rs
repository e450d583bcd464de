//! Data-URI construction and text decoding: the two places where the library
//! leans on outside code (base64) and on `String::from_utf8`.

use vstd::prelude::*;
use vstd::string::StringSliceAdditionalSpecFns;

use crate::bytes::push_all;
use crate::errors::FetchError;
use crate::resources::{Outcome, Resources};

verus! {

/// What `base64::encode` returns for the given bytes: the standard base64
/// text, as bytes. Stated by name only; the encoding itself is the outside
/// crate's business.
pub uninterp spec fn base64_of(bytes: Seq<u8>) -> Seq<u8>;

/// Relies on base64::encode (standard alphabet, with padding): the result is
/// a function of the input bytes alone, four output bytes for every three
/// input bytes begun.
#[verifier::external_body]
fn base64_bytes(bytes: &[u8]) -> (r: Vec<u8>)
    ensures
        r@ == base64_of(bytes@),
        r@.len() == 4 * ((bytes@.len() + 2) / 3),
{
    base64::encode(bytes).into_bytes()
}

/// Relies on String::from_utf8: it succeeds exactly on valid UTF-8, and then
/// returns its decoding.
#[verifier::external_body]
fn utf8_to_string(bytes: &[u8]) -> (r: Option<String>)
    ensures
        r is Some <==> vstd::utf8::valid_utf8(bytes@),
        r matches Some(s) ==> s@ == vstd::utf8::decode_utf8(bytes@),
{
    String::from_utf8(bytes.to_vec()).ok()
}

/// Is the byte string valid UTF-8 text?
pub fn is_text(bytes: &[u8]) -> (r: bool)
    ensures
        r == vstd::utf8::valid_utf8(bytes@),
{
    match utf8_to_string(bytes) {
        Some(_) => true,
        None => false,
    }
}

/// `data:<mime>;base64,<base64(bytes)>` — no line wrapping, standard base64.
pub open spec fn data_uri(mime: Seq<u8>, bytes: Seq<u8>) -> Seq<u8> {
    "data:".spec_bytes() + mime + ";base64,".spec_bytes() + base64_of(bytes)
}

/// Build the data URI for a fetched resource.
pub fn build_data_uri(mime: &[u8], bytes: &[u8]) -> (r: Vec<u8>)
    ensures
        r@ == data_uri(mime@, bytes@),
{
    let mut out: Vec<u8> = Vec::new();
    push_all(&mut out, ("data:").as_bytes());
    push_all(&mut out, mime);
    push_all(&mut out, (";base64,").as_bytes());
    let b64 = base64_bytes(bytes);
    push_all(&mut out, b64.as_slice());
    out
}

/// What a reference becomes in place: the data URI of its fetched content,
/// or — on any failure — the reference itself, unchanged.
pub open spec fn inlined(url: Seq<u8>, rs: Resources) -> Seq<u8> {
    match rs.get_spec(url) {
        Some(Outcome::Fetched { mime, bytes }) => data_uri(mime@, bytes@),
        _ => url,
    }
}

/// Replace a reference with a data URI of its content; on any fetch failure
/// leave it exactly as it was (soft failure).
pub fn make_data_uri(url: &mut Vec<u8>, rs: &Resources)
    ensures
        final(url)@ == inlined(old(url)@, *rs),
{
    let found = match rs.get(url.as_slice()) {
        Some(Outcome::Fetched { mime, bytes }) => Some(
            build_data_uri(mime.as_slice(), bytes.as_slice()),
        ),
        _ => None,
    };
    if let Some(uri) = found {
        *url = uri;
    }
}

/// As `make_data_uri`, with the MIME type fixed by the caller instead of
/// taken from the fetch.
pub fn make_data_uri_with_mime(mime: &[u8], url: &mut Vec<u8>, rs: &Resources)
    ensures
        final(url)@ == match rs.get_spec(old(url)@) {
            Some(Outcome::Fetched { mime: _, bytes }) => data_uri(mime@, bytes@),
            _ => old(url)@,
        },
{
    let found = match rs.get(url.as_slice()) {
        Some(Outcome::Fetched { mime: _, bytes }) => Some(build_data_uri(mime, bytes.as_slice())),
        _ => None,
    };
    if let Some(uri) = found {
        *url = uri;
    }
}

/// The text of a fetched resource: its bytes decoded as UTF-8. A fetch
/// failure is passed on; content that is not UTF-8 fails with `DecodeError`.
pub fn load_string(outcome: &Outcome) -> (r: Result<String, FetchError>)
    ensures
        match *outcome {
            Outcome::Fetched { mime: _, bytes } => {
                &&& r is Ok <==> vstd::utf8::valid_utf8(bytes@)
                &&& (r matches Ok(s) ==> s@ == vstd::utf8::decode_utf8(bytes@))
                &&& (r is Err ==> r->Err_0 == FetchError::DecodeError)
            },
            Outcome::Failed(e) => r == Result::<String, FetchError>::Err(e),
        },
{
    match outcome {
        Outcome::Fetched { mime: _, bytes } => match utf8_to_string(bytes.as_slice()) {
            Some(s) => Ok(s),
            None => Err(FetchError::DecodeError),
        },
        Outcome::Failed(e) => Err(*e),
    }
}

} // verus!
