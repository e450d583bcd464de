//! The failure kinds of resource loading, and the two small decisions the
//! loader makes before and after a network fetch: which schemes are
//! supported, and which HTTP status codes count as success.

use vstd::prelude::*;

verus! {

/// Why a resource reference could not be resolved into `(mime, bytes)`.
///
/// Every fetch failure is soft at the point of use (the original reference
/// text is preserved verbatim); `ContractViolation` alone is fatal: it marks
/// a handler invoked on a node that lacks the attribute its selector
/// promises, which is a misconfiguration, not a runtime fetch failure.
#[derive(Clone, Copy, PartialEq, Eq, Structural, Debug)]
pub enum FetchError {
    UnsupportedScheme,
    IoError,
    NetworkError,
    HttpStatusError(u16),
    DecodeError,
    ContractViolation,
}

impl FetchError {
    /// A short diagnostic text; the library's types carry no `Display`.
    pub fn as_text(&self) -> (r: &'static str)
        ensures
            r@ == self.text_spec(),
    {
        match self {
            FetchError::UnsupportedScheme => "not supported URL scheme",
            FetchError::IoError => "cannot read file",
            FetchError::NetworkError => "network failure",
            FetchError::HttpStatusError(_) => "bad response status code",
            FetchError::DecodeError => "content is not valid UTF-8",
            FetchError::ContractViolation => "handler applied to a node without its attribute",
        }
    }

    pub open spec fn text_spec(self) -> Seq<char> {
        match self {
            FetchError::UnsupportedScheme => "not supported URL scheme"@,
            FetchError::IoError => "cannot read file"@,
            FetchError::NetworkError => "network failure"@,
            FetchError::HttpStatusError(_) => "bad response status code"@,
            FetchError::DecodeError => "content is not valid UTF-8"@,
            FetchError::ContractViolation => "handler applied to a node without its attribute"@,
        }
    }
}

/// The bytes of the scheme `file`.
pub open spec fn file_scheme() -> Seq<u8> {
    seq![102u8, 105u8, 108u8, 101u8]
}

/// The bytes of the scheme `http`.
pub open spec fn http_scheme() -> Seq<u8> {
    seq![104u8, 116u8, 116u8, 112u8]
}

/// The bytes of the scheme `https`.
pub open spec fn https_scheme() -> Seq<u8> {
    seq![104u8, 116u8, 116u8, 112u8, 115u8]
}

/// The loader supports exactly the schemes `file`, `http` and `https`.
pub open spec fn scheme_supported(scheme: Seq<u8>) -> bool {
    scheme == file_scheme() || scheme == http_scheme() || scheme == https_scheme()
}

/// Gate on the resolved URL's scheme: anything outside `file`, `http` and
/// `https` fails with `UnsupportedScheme` before any fetch is attempted.
pub fn check_scheme(scheme: &[u8]) -> (r: Result<(), FetchError>)
    ensures
        r is Ok <==> scheme_supported(scheme@),
        r is Err ==> r->Err_0 == FetchError::UnsupportedScheme,
{
    let is_file = scheme.len() == 4 && scheme[0] == 102 && scheme[1] == 105 && scheme[2] == 108
        && scheme[3] == 101;
    let is_http = scheme.len() == 4 && scheme[0] == 104 && scheme[1] == 116 && scheme[2] == 116
        && scheme[3] == 112;
    let is_https = scheme.len() == 5 && scheme[0] == 104 && scheme[1] == 116 && scheme[2] == 116
        && scheme[3] == 112 && scheme[4] == 115;
    proof {
        assert(is_file <==> scheme@ =~= file_scheme());
        assert(is_http <==> scheme@ =~= http_scheme());
        assert(is_https <==> scheme@ =~= https_scheme());
    }
    if is_file || is_http || is_https {
        Ok(())
    } else {
        Err(FetchError::UnsupportedScheme)
    }
}

/// An HTTP response is accepted exactly when its status code is 200;
/// anything else fails with `HttpStatusError` carrying the code.
pub fn check_status(code: u16) -> (r: Result<(), FetchError>)
    ensures
        r is Ok <==> code == 200,
        code != 200 ==> r == Result::<(), FetchError>::Err(FetchError::HttpStatusError(code)),
{
    if code == 200 {
        Ok(())
    } else {
        Err(FetchError::HttpStatusError(code))
    }
}

} // verus!
