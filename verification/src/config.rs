//! The poll decisions of the background reloaders: whether a polled layout
//! replaces the current one (forcing a store rebuild), and whether a polled
//! custom-strings document replaces the current mapping.

use vstd::prelude::*;

use crate::customs::{pairs_to_map, raw_pairs_view, CustomStrings};
use crate::store::opt_view;
use crate::textops::bytes_eq;

verus! {

/// What a custom-strings source parses to: a string-to-string mapping when
/// it is a valid document of that shape, nothing otherwise. The outcome is
/// a function of the document bytes alone.
pub uninterp spec fn json_strings_of(s: Seq<u8>) -> Option<Map<Seq<u8>, Seq<u8>>>;

/// Relies on serde_json::from_slice for HashMap<String, String>: success
/// and the resulting mapping depend on the document alone; the iteration
/// order of the map does not, so nothing is said of the pairs' order.
#[verifier::external_body]
fn parse_custom_strings(content: &Vec<u8>) -> (r: Option<Vec<(Vec<u8>, Vec<u8>)>>)
    ensures
        r is Some <==> json_strings_of(content@) is Some,
        r matches Some(v) ==> {
            &&& forall|i: int, j: int|
                0 <= i < j < v@.len() ==> raw_pairs_view(v@)[i].0 != raw_pairs_view(v@)[j].0
            &&& pairs_to_map(raw_pairs_view(v@)) == json_strings_of(content@)->Some_0
        },
{
    match serde_json::from_slice::<std::collections::HashMap<String, String>>(content.as_slice()) {
        Ok(m) => Some(m.into_iter().map(|(k, v)| (k.into_bytes(), v.into_bytes())).collect()),
        Err(_) => None,
    }
}

/// Decide a custom-strings poll: a document that parses yields the new
/// mapping, wholesale; one that does not yields nothing, and the caller
/// keeps the previous mapping untouched.
pub fn updated_customs(content: &Vec<u8>) -> (r: Option<CustomStrings>)
    ensures
        r is Some <==> json_strings_of(content@) is Some,
        r matches Some(c) ==> c.wf() && c.as_map() == json_strings_of(content@)->Some_0,
{
    match parse_custom_strings(content) {
        Some(raw) => {
            let ghost rv = raw_pairs_view(raw@);
            let c = CustomStrings::from_raw(raw);
            proof {
                assert(c.pairs_view() == rv);
                assert forall|i: int, j: int|
                    0 <= i < j < c.pairs@.len() implies c.pairs@[i].key@
                    != c.pairs@[j].key@ by {
                    assert(c.pairs_view()[i].0 == c.pairs@[i].key@);
                    assert(c.pairs_view()[j].0 == c.pairs@[j].key@);
                    assert(rv[i].0 != rv[j].0);
                }
            }
            Some(c)
        },
        None => None,
    }
}

/// Decide a layout poll: replace (and rebuild the store) only when the
/// polled content differs from the layout currently loaded.
pub fn layout_changed(current: &Option<Vec<u8>>, polled: &Vec<u8>) -> (r: bool)
    ensures
        r == (opt_view(*current) != Some(polled@)),
{
    match current {
        Some(c) => !bytes_eq(c, polled),
        None => true,
    }
}

} // verus!
