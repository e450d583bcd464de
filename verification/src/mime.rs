//! MIME determination for a fetched resource, in the loader's order: the
//! server-declared content type if present, else magic-byte sniffing, else a
//! guess from the file extension, else `application/octet-stream`.

use vstd::prelude::*;
use vstd::string::StringSliceAdditionalSpecFns;

use crate::bytes::{at_lit, check_at, to_vec};

verus! {

pub open spec fn octet_stream() -> Seq<u8> {
    "application/octet-stream".spec_bytes()
}

/// The magic-byte signature table: GIF87a/GIF89a, PNG, ICO, JPEG, BMP and
/// the two TIFF byte orders. Anything else is unrecognized.
pub open spec fn magic_mime(data: Seq<u8>) -> Option<Seq<u8>> {
    if at_lit(data, 0, "GIF87a".spec_bytes()) || at_lit(data, 0, "GIF89a".spec_bytes()) {
        Some("image/gif".spec_bytes())
    } else if at_lit(data, 0, seq![0x89u8, 0x50u8, 0x4eu8, 0x47u8, 0x0du8, 0x0au8, 0x1au8, 0x0au8]) {
        Some("image/png".spec_bytes())
    } else if at_lit(data, 0, seq![0x00u8, 0x00u8, 0x01u8, 0x00u8]) {
        Some("image/x-icon".spec_bytes())
    } else if at_lit(data, 0, seq![0xffu8, 0xd8u8, 0xffu8]) {
        Some("image/jpeg".spec_bytes())
    } else if at_lit(data, 0, seq![0x42u8, 0x4du8]) {
        Some("image/bmp".spec_bytes())
    } else if at_lit(data, 0, seq![0x49u8, 0x49u8, 0x2au8, 0x00u8]) || at_lit(
        data,
        0,
        seq![0x4du8, 0x4du8, 0x00u8, 0x2au8],
    ) {
        Some("image/tiff".spec_bytes())
    } else {
        None
    }
}

/// Sniff a MIME type from the first bytes of the content.
pub fn guess_mime(data: &[u8]) -> (r: Option<Vec<u8>>)
    ensures
        match r {
            Some(m) => magic_mime(data@) == Some(m@),
            None => magic_mime(data@) is None,
        },
{
    let png_sig: [u8; 8] = [0x89, 0x50, 0x4e, 0x47, 0x0d, 0x0a, 0x1a, 0x0a];
    let ico_sig: [u8; 4] = [0x00, 0x00, 0x01, 0x00];
    let jpg_sig: [u8; 3] = [0xff, 0xd8, 0xff];
    let bmp_sig: [u8; 2] = [0x42, 0x4d];
    let tif_le: [u8; 4] = [0x49, 0x49, 0x2a, 0x00];
    let tif_be: [u8; 4] = [0x4d, 0x4d, 0x00, 0x2a];
    proof {
        assert(png_sig@ =~= seq![0x89u8, 0x50u8, 0x4eu8, 0x47u8, 0x0du8, 0x0au8, 0x1au8, 0x0au8]);
        assert(ico_sig@ =~= seq![0x00u8, 0x00u8, 0x01u8, 0x00u8]);
        assert(jpg_sig@ =~= seq![0xffu8, 0xd8u8, 0xffu8]);
        assert(bmp_sig@ =~= seq![0x42u8, 0x4du8]);
        assert(tif_le@ =~= seq![0x49u8, 0x49u8, 0x2au8, 0x00u8]);
        assert(tif_be@ =~= seq![0x4du8, 0x4du8, 0x00u8, 0x2au8]);
    }
    if check_at(data, 0, ("GIF87a").as_bytes()) || check_at(data, 0, ("GIF89a").as_bytes()) {
        Some(to_vec(("image/gif").as_bytes()))
    } else if check_at(data, 0, png_sig.as_slice()) {
        Some(to_vec(("image/png").as_bytes()))
    } else if check_at(data, 0, ico_sig.as_slice()) {
        Some(to_vec(("image/x-icon").as_bytes()))
    } else if check_at(data, 0, jpg_sig.as_slice()) {
        Some(to_vec(("image/jpeg").as_bytes()))
    } else if check_at(data, 0, bmp_sig.as_slice()) {
        Some(to_vec(("image/bmp").as_bytes()))
    } else if check_at(data, 0, tif_le.as_slice()) || check_at(data, 0, tif_be.as_slice()) {
        Some(to_vec(("image/tiff").as_bytes()))
    } else {
        None
    }
}

/// What mime_guess::from_ext answers for an extension: a function of the
/// extension text alone. `None` both for an unknown extension and for one
/// that is not UTF-8.
pub uninterp spec fn mime_of_ext(ext: Seq<u8>) -> Option<Seq<u8>>;

/// Relies on mime_guess::from_ext: the guess depends on the extension text
/// alone.
#[verifier::external_body]
fn ext_lookup(ext: &[u8]) -> (r: Option<Vec<u8>>)
    ensures
        (match r {
            Some(m) => Some(m@),
            None => None,
        }) == mime_of_ext(ext@),
{
    match core::str::from_utf8(ext) {
        Ok(s) => mime_guess::from_ext(s).first_raw().map(|m| m.as_bytes().to_vec()),
        Err(_) => None,
    }
}

/// The extension-based guess: explicit overrides for the font extensions
/// that generic extension tables tend to get wrong, then mime_guess, then
/// `application/octet-stream`.
pub open spec fn ext_mime(ext: Seq<u8>) -> Seq<u8> {
    if ext == "ttf".spec_bytes() {
        "font/ttf".spec_bytes()
    } else if ext == "otf".spec_bytes() {
        "font/otf".spec_bytes()
    } else if ext == "woff".spec_bytes() {
        "font/woff".spec_bytes()
    } else if ext == "woff2".spec_bytes() {
        "font/woff2".spec_bytes()
    } else {
        match mime_of_ext(ext) {
            Some(m) => m,
            None => octet_stream(),
        }
    }
}

/// Guess a MIME type from a file extension.
pub fn guess_mime_by_ext(ext: &[u8]) -> (r: Vec<u8>)
    ensures
        r@ == ext_mime(ext@),
{
    if crate::bytes::eq_bytes(ext, ("ttf").as_bytes()) {
        to_vec(("font/ttf").as_bytes())
    } else if crate::bytes::eq_bytes(ext, ("otf").as_bytes()) {
        to_vec(("font/otf").as_bytes())
    } else if crate::bytes::eq_bytes(ext, ("woff").as_bytes()) {
        to_vec(("font/woff").as_bytes())
    } else if crate::bytes::eq_bytes(ext, ("woff2").as_bytes()) {
        to_vec(("font/woff2").as_bytes())
    } else {
        match ext_lookup(ext) {
            Some(m) => m,
            None => to_vec(("application/octet-stream").as_bytes()),
        }
    }
}

/// The loader's full MIME decision: (a) the server-declared content type if
/// one came with the response, else (b) the magic-byte guess, else (c) the
/// extension-based guess if the resolved URL had an extension, else (d)
/// `application/octet-stream`.
pub open spec fn mime_decision(
    header: Option<Vec<u8>>,
    data: Seq<u8>,
    ext: Option<Vec<u8>>,
) -> Seq<u8> {
    match header {
        Some(h) => h@,
        None => match magic_mime(data) {
            Some(m) => m,
            None => match ext {
                Some(e) => ext_mime(e@),
                None => octet_stream(),
            },
        },
    }
}

/// Determine the MIME type of a fetched resource.
pub fn resource_mime(header: Option<Vec<u8>>, data: &[u8], ext: Option<Vec<u8>>) -> (r: Vec<u8>)
    ensures
        r@ == mime_decision(header, data@, ext),
{
    match header {
        Some(h) => h,
        None => match guess_mime(data) {
            Some(m) => m,
            None => match ext {
                Some(e) => guess_mime_by_ext(e.as_slice()),
                None => to_vec(("application/octet-stream").as_bytes()),
            },
        },
    }
}

} // verus!
