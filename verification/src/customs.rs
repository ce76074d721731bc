//! Operator-supplied custom strings: a key-to-value mapping replaced
//! wholesale on each successful poll of its source document.

use vstd::prelude::*;

verus! {

/// One custom string: placeholder key and replacement value.
pub struct CustomPair {
    pub key: Vec<u8>,
    pub value: Vec<u8>,
}

/// The view of a list of raw key-value byte pairs.
pub open spec fn raw_pairs_view(s: Seq<(Vec<u8>, Vec<u8>)>) -> Seq<(Seq<u8>, Seq<u8>)> {
    Seq::new(s.len(), |i: int| (s[i].0@, s[i].1@))
}

/// A sequence of key-value pairs as a mapping; a later pair with the same
/// key would win, though a well-formed list has no such pair.
pub open spec fn pairs_to_map(s: Seq<(Seq<u8>, Seq<u8>)>) -> Map<Seq<u8>, Seq<u8>>
    decreases s.len(),
{
    if s.len() == 0 {
        Map::empty()
    } else {
        pairs_to_map(s.drop_last()).insert(s.last().0, s.last().1)
    }
}

/// The custom strings currently loaded.
pub struct CustomStrings {
    pub pairs: Vec<CustomPair>,
}

impl CustomStrings {
    /// The loaded entries, in the order substitution walks them.
    pub open spec fn pairs_view(self) -> Seq<(Seq<u8>, Seq<u8>)> {
        Seq::new(self.pairs@.len(), |i: int| (self.pairs@[i].key@, self.pairs@[i].value@))
    }

    /// Keys are distinct.
    pub open spec fn wf(self) -> bool {
        forall|i: int, j: int|
            0 <= i < j < self.pairs@.len() ==> self.pairs@[i].key@ != self.pairs@[j].key@
    }

    /// The entries as a mapping.
    pub open spec fn as_map(self) -> Map<Seq<u8>, Seq<u8>> {
        pairs_to_map(self.pairs_view())
    }

    /// No custom strings.
    pub fn new() -> (r: CustomStrings)
        ensures
            r.wf(),
            r.pairs_view() == Seq::<(Seq<u8>, Seq<u8>)>::empty(),
    {
        let r = CustomStrings { pairs: Vec::new() };
        proof {
            assert(r.pairs_view() =~= Seq::<(Seq<u8>, Seq<u8>)>::empty());
        }
        r
    }

    /// Wrap a list of raw key-value pairs.
    pub fn from_raw(raw: Vec<(Vec<u8>, Vec<u8>)>) -> (r: CustomStrings)
        ensures
            r.pairs_view() == raw_pairs_view(raw@),
    {
        let mut pairs: Vec<CustomPair> = Vec::new();
        let n = raw.len();
        let ghost rv = raw_pairs_view(raw@);
        let mut i: usize = 0;
        while i < n
            invariant
                n == raw@.len(),
                0 <= i <= n,
                rv == raw_pairs_view(raw@),
                pairs@.len() == i,
                forall|k: int| 0 <= k < i ==> (pairs@[k].key@, pairs@[k].value@) == rv[k],
            decreases n - i,
        {
            let k = crate::textops::copy_bytes(&raw[i].0);
            let v = crate::textops::copy_bytes(&raw[i].1);
            pairs.push(CustomPair { key: k, value: v });
            i += 1;
        }
        let r = CustomStrings { pairs };
        proof {
            assert(r.pairs_view() =~= rv);
        }
        r
    }
}

} // verus!
