//! The trusted boundary: the few outside calls the engine's logic needs,
//! each behind a small wrapper whose contract Verus believes.

use vstd::prelude::*;

verus! {

/// Whether the content type inferred from a path is HTML. The guess is a
/// pure lookup on the path's extension, so it is a function of the path
/// bytes alone; nothing more is assumed of it.
pub uninterp spec fn html_guess(key: Seq<u8>) -> bool;

/// Relies on mime_guess::from_path: the guess is derived from the path's
/// extension alone; this tests whether it is text/html.
#[verifier::external_body]
pub fn is_html_path(key: &Vec<u8>) -> (r: bool)
    ensures
        r == html_guess(key@),
{
    match core::str::from_utf8(key.as_slice()) {
        Ok(s) => {
            let m = mime_guess::from_path(s).first_or_octet_stream();
            m.type_() == mime_guess::mime::TEXT && m.subtype() == mime_guess::mime::HTML
        },
        Err(_) => false,
    }
}

/// Relies on core::str::from_utf8: it returns Ok exactly when the bytes are
/// valid UTF-8, the property vstd::utf8::valid_utf8 states.
#[verifier::external_body]
pub fn utf8_check(b: &Vec<u8>) -> (r: bool)
    ensures
        r == vstd::utf8::valid_utf8(b@),
{
    core::str::from_utf8(b.as_slice()).is_ok()
}

} // verus!
