//! Request routing: mapping an inbound request path to a store key.
//! Leading slashes are stripped, a directory request falls back to its
//! `index.html`, a clean URL (no dot) falls back to the `.html` variant that
//! the store holds, and any path with a dot-prefixed segment is refused.

use vstd::prelude::*;

use crate::consts::{dot_html, index_html, spec_dot_html, spec_index_html};
use crate::store::ContentStore;
use crate::textops::{
    concat, contains_byte, contains_byte_seq, contains_dot_segment, dot_at_segment_start,
    has_dot_segment, last_piece, suffix_after_last, tail_from,
};

verus! {

/// The request path with every leading `/` removed.
pub open spec fn strip_slashes(p: Seq<u8>) -> Seq<u8>
    decreases p.len(),
{
    if p.len() > 0 && p[0] == 47 {
        strip_slashes(p.skip(1))
    } else {
        p
    }
}

/// An empty path or one ending in `/` asks for the directory index.
pub open spec fn with_index(p: Seq<u8>) -> Seq<u8> {
    if p.len() == 0 || p[p.len() - 1] == 47 {
        p + spec_index_html()
    } else {
        p
    }
}

/// The normalized form of a request path, before the store is consulted.
pub open spec fn normalize(p: Seq<u8>) -> Seq<u8> {
    with_index(strip_slashes(p))
}

/// The store key a request path resolves to: the normalized path, or its
/// `.html` variant when the normalized path is absent, its final segment
/// has no dot, and the variant is present.
pub open spec fn resolved_key(p: Seq<u8>, store: ContentStore) -> Seq<u8> {
    let q = normalize(p);
    if !store.has_key(q) && !contains_byte_seq(suffix_after_last(q, 47), 46) && store.has_key(
        q + spec_dot_html(),
    ) {
        q + spec_dot_html()
    } else {
        q
    }
}

/// What the router decides for a request path.
pub enum Resolution {
    /// Serve the payload stored under this key.
    Serve(Vec<u8>),
    /// The path names a dot-prefixed segment: never served.
    Forbidden,
    /// Nothing is stored under the resolved key.
    NotFound,
}

proof fn lemma_strip_prefix(p: Seq<u8>, j: int)
    requires
        0 <= j <= p.len(),
        forall|l: int| 0 <= l < j ==> p[l] == 47,
    ensures
        strip_slashes(p) == strip_slashes(p.skip(j)),
    decreases j,
{
    if j > 0 {
        assert(strip_slashes(p) == strip_slashes(p.skip(1)));
        lemma_strip_prefix(p.skip(1), j - 1);
        assert(p.skip(1).skip(j - 1) =~= p.skip(j));
    } else {
        assert(p.skip(0) =~= p);
    }
}

/// Resolve a request path against the store.
pub fn resolve(path: &Vec<u8>, store: &ContentStore) -> (r: Resolution)
    ensures
        ({
            let k = resolved_key(path@, *store);
            match r {
                Resolution::Serve(key) => key@ == k && !has_dot_segment(k) && store.has_key(k),
                Resolution::Forbidden => has_dot_segment(k),
                Resolution::NotFound => !has_dot_segment(k) && !store.has_key(k),
            }
        }),
{
    let n = path.len();
    let mut j: usize = 0;
    while j < n && path[j] == 47
        invariant
            n == path@.len(),
            0 <= j <= n,
            forall|l: int| 0 <= l < j ==> path@[l] == 47,
        decreases n - j,
    {
        j += 1;
    }
    let mut q = tail_from(path, j);
    proof {
        lemma_strip_prefix(path@, j as int);
        if j < n {
            assert(path@.skip(j as int)[0] == path@[j as int]);
        }
        assert(strip_slashes(path@.skip(j as int)) == path@.skip(j as int));
        assert(q@ == strip_slashes(path@));
    }
    if q.len() == 0 || q[q.len() - 1] == 47 {
        let idx = index_html();
        q.extend_from_slice(idx.as_slice());
        proof {
            assert(q@ =~= normalize(path@));
        }
    }
    proof {
        assert(q@ == normalize(path@));
    }
    let resolved: Vec<u8> = if !store.contains(&q) && !contains_byte(&last_piece(&q, 47), 46) {
        let suffixed = concat(&q, &dot_html());
        if store.contains(&suffixed) {
            suffixed
        } else {
            q
        }
    } else {
        q
    };
    proof {
        assert(resolved@ == resolved_key(path@, *store));
    }
    if contains_dot_segment(&resolved) {
        return Resolution::Forbidden;
    }
    if store.contains(&resolved) {
        Resolution::Serve(resolved)
    } else {
        Resolution::NotFound
    }
}

/// Dotfile protection: when the normalized request path holds a
/// dot-prefixed segment, the resolved key does too — whatever the store
/// holds, such a request is refused.
pub proof fn lemma_dotfile_forbidden(p: Seq<u8>, store: ContentStore)
    requires
        has_dot_segment(normalize(p)),
    ensures
        has_dot_segment(resolved_key(p, store)),
{
    let q = normalize(p);
    let i = choose|i: int| dot_at_segment_start(q, i);
    assert(dot_at_segment_start(q + spec_dot_html(), i));
}

} // verus!
