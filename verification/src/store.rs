//! The content store: an immutable snapshot mapping normalized relative
//! paths to byte payloads, kept as an association list sorted by
//! byte-lexicographic key order (the order `String` keys sort in), so that
//! lookups are exact and iteration is deterministic.

use vstd::prelude::*;

use crate::consts::{
    gallery_template_key, layout_key, outlet_pat, spec_gallery_template_key, spec_layout_key,
    spec_outlet_pat,
};
use crate::ext::html_guess;
use crate::textops::{
    bytes_eq, contains_dot_segment, copy_bytes, has_dot_segment, replace_all, replace_seq,
};

verus! {

/// Strict byte-lexicographic order on byte strings.
pub open spec fn lex_lt(a: Seq<u8>, b: Seq<u8>) -> bool
    decreases a.len(),
{
    if b.len() == 0 {
        false
    } else if a.len() == 0 {
        true
    } else if a[0] < b[0] {
        true
    } else if a[0] > b[0] {
        false
    } else {
        lex_lt(a.skip(1), b.skip(1))
    }
}

pub proof fn lemma_lex_irrefl(a: Seq<u8>)
    ensures
        !lex_lt(a, a),
    decreases a.len(),
{
    if a.len() > 0 {
        lemma_lex_irrefl(a.skip(1));
    }
}

pub proof fn lemma_lex_trans(a: Seq<u8>, b: Seq<u8>, c: Seq<u8>)
    requires
        lex_lt(a, b),
        lex_lt(b, c),
    ensures
        lex_lt(a, c),
    decreases a.len() + b.len() + c.len(),
{
    if a.len() > 0 && b.len() > 0 && c.len() > 0 && a[0] == b[0] && b[0] == c[0] {
        lemma_lex_trans(a.skip(1), b.skip(1), c.skip(1));
    }
}

pub proof fn lemma_lex_total(a: Seq<u8>, b: Seq<u8>)
    requires
        !lex_lt(a, b),
        !lex_lt(b, a),
    ensures
        a == b,
    decreases a.len(),
{
    if a.len() == 0 || b.len() == 0 {
        assert(a =~= b);
    } else {
        lemma_lex_total(a.skip(1), b.skip(1));
        assert(a =~= seq![a[0]] + a.skip(1));
        assert(b =~= seq![b[0]] + b.skip(1));
    }
}

/// Is `a` strictly before `b` in byte-lexicographic order?
pub fn lex_less(a: &Vec<u8>, b: &Vec<u8>) -> (r: bool)
    ensures
        r == lex_lt(a@, b@),
{
    let r = lex_less_from(a, b, 0);
    proof {
        assert(a@.skip(0) =~= a@);
        assert(b@.skip(0) =~= b@);
    }
    r
}

fn lex_less_from(a: &Vec<u8>, b: &Vec<u8>, i: usize) -> (r: bool)
    requires
        i <= a@.len(),
        i <= b@.len(),
    ensures
        r == lex_lt(a@.skip(i as int), b@.skip(i as int)),
    decreases a@.len() - i,
{
    let ghost sa = a@.skip(i as int);
    let ghost sb = b@.skip(i as int);
    if i == b.len() {
        proof {
            assert(sb.len() == 0);
        }
        false
    } else if i == a.len() {
        proof {
            assert(sa.len() == 0 && sb.len() > 0);
        }
        true
    } else if a[i] < b[i] {
        proof {
            assert(sa[0] == a@[i as int] && sb[0] == b@[i as int]);
        }
        true
    } else if a[i] > b[i] {
        false
    } else {
        let r = lex_less_from(a, b, i + 1);
        proof {
            assert(sa.skip(1) =~= a@.skip(i + 1));
            assert(sb.skip(1) =~= b@.skip(i + 1));
        }
        r
    }
}

/// One store entry: a normalized relative path and the payload served for it.
pub struct Entry {
    pub key: Vec<u8>,
    pub body: Vec<u8>,
}

/// One complete snapshot of the served content.
pub struct ContentStore {
    pub entries: Vec<Entry>,
}

impl ContentStore {
    /// The key of the entry at position `i`.
    pub open spec fn key_at(self, i: int) -> Seq<u8> {
        self.entries[i].key@
    }

    /// The payload of the entry at position `i`.
    pub open spec fn body_at(self, i: int) -> Seq<u8> {
        self.entries[i].body@
    }

    pub open spec fn spec_len(self) -> nat {
        self.entries@.len()
    }

    /// Entries stand in strictly increasing key order (hence keys are unique).
    pub open spec fn wf(self) -> bool {
        forall|i: int, j: int|
            0 <= i < j < self.entries@.len() ==> lex_lt(self.key_at(i), self.key_at(j))
    }

    /// The keys in store order (strictly increasing when well-formed).
    pub open spec fn keys_seq(self) -> Seq<Seq<u8>> {
        Seq::new(self.entries@.len(), |i: int| self.key_at(i))
    }

    /// Some entry holds this key.
    pub open spec fn has_key(self, k: Seq<u8>) -> bool {
        exists|i: int| 0 <= i < self.entries@.len() && self.key_at(i) == k
    }

    /// The payload stored under `k`, if any.
    pub open spec fn spec_get(self, k: Seq<u8>) -> Option<Seq<u8>> {
        if self.has_key(k) {
            Some(
                self.body_at(
                    choose|i: int| 0 <= i < self.entries@.len() && self.key_at(i) == k,
                ),
            )
        } else {
            None
        }
    }

    /// The store as a mapping from key to payload.
    pub open spec fn as_map(self) -> Map<Seq<u8>, Seq<u8>> {
        Map::new(|k: Seq<u8>| self.has_key(k), |k: Seq<u8>| self.spec_get(k)->Some_0)
    }

    /// In a well-formed store the entry holding a key is unique, so whatever
    /// index exhibits `k`, it is the one `spec_get` reads.
    pub proof fn lemma_get_at(self, i: int)
        requires
            self.wf(),
            0 <= i < self.spec_len(),
        ensures
            self.spec_get(self.key_at(i)) == Some(self.body_at(i)),
    {
        assert(self.has_key(self.key_at(i)));
        let j = choose|j: int| 0 <= j < self.entries@.len() && self.key_at(j) == self.key_at(i);
        if i != j {
            if i < j {
                lemma_lex_irrefl(self.key_at(i));
                assert(lex_lt(self.key_at(i), self.key_at(j)));
            } else {
                lemma_lex_irrefl(self.key_at(i));
                assert(lex_lt(self.key_at(j), self.key_at(i)));
            }
        }
    }

    /// An empty snapshot.
    pub fn new() -> (r: ContentStore)
        ensures
            r.wf(),
            r.spec_len() == 0,
            forall|k: Seq<u8>| !r.has_key(k),
    {
        ContentStore { entries: Vec::new() }
    }

    pub fn len(&self) -> (r: usize)
        ensures
            r == self.spec_len(),
    {
        self.entries.len()
    }

    /// The key at position `i`; with `wf`, iteration by index walks the keys
    /// in strictly increasing byte-lexicographic order.
    pub fn key_at_idx(&self, i: usize) -> (r: &Vec<u8>)
        requires
            i < self.spec_len(),
        ensures
            r@ == self.key_at(i as int),
    {
        &self.entries[i].key
    }

    /// The payload at position `i`.
    pub fn body_at_idx(&self, i: usize) -> (r: &Vec<u8>)
        requires
            i < self.spec_len(),
        ensures
            r@ == self.body_at(i as int),
    {
        &self.entries[i].body
    }

    /// Find the position holding key `k`, if any.
    fn find_key(&self, k: &Vec<u8>) -> (r: Option<usize>)
        ensures
            match r {
                Some(i) => i < self.spec_len() && self.key_at(i as int) == k@,
                None => !self.has_key(k@),
            },
    {
        let n = self.entries.len();
        let mut i: usize = 0;
        while i < n
            invariant
                n == self.entries@.len(),
                0 <= i <= n,
                forall|l: int| 0 <= l < i ==> self.key_at(l) != k@,
            decreases n - i,
        {
            if crate::textops::bytes_eq(&self.entries[i].key, k) {
                return Some(i);
            }
            i += 1;
        }
        None
    }

    /// Is `k` present?
    pub fn contains(&self, k: &Vec<u8>) -> (r: bool)
        ensures
            r == self.has_key(k@),
    {
        match self.find_key(k) {
            Some(_) => true,
            None => false,
        }
    }

    /// Look up the payload under `k`.
    pub fn get(&self, k: &Vec<u8>) -> (r: Option<&Vec<u8>>)
        requires
            self.wf(),
        ensures
            match r {
                Some(b) => self.spec_get(k@) == Some(b@),
                None => self.spec_get(k@) is None,
            },
    {
        match self.find_key(k) {
            Some(i) => {
                proof {
                    self.lemma_get_at(i as int);
                }
                Some(&self.entries[i].body)
            },
            None => None,
        }
    }

    /// Insert `key -> body`, overwriting any payload already under `key`.
    pub fn insert(&mut self, key: Vec<u8>, body: Vec<u8>)
        requires
            old(self).wf(),
        ensures
            final(self).wf(),
            final(self).as_map() == old(self).as_map().insert(key@, body@),
            final(self).has_key(key@),
            final(self).spec_get(key@) == Some(body@),
            forall|k: Seq<u8>| k != key@ ==> final(self).spec_get(k) == old(self).spec_get(k),
            forall|k: Seq<u8>| k != key@ ==> final(self).has_key(k) == old(self).has_key(k),
    {
        let ghost kv = key@;
        let ghost bv = body@;
        let ghost pre = *self;
        let n = self.entries.len();
        let mut p: usize = 0;
        while p < n && lex_less(&self.entries[p].key, &key)
            invariant
                n == self.entries@.len(),
                0 <= p <= n,
                *self == pre,
                forall|l: int| 0 <= l < p ==> lex_lt(self.key_at(l), key@),
            decreases n - p,
        {
            p += 1;
        }
        if p < n && crate::textops::bytes_eq(&self.entries[p].key, &key) {
            proof {
                pre.lemma_get_at(p as int);
            }
            let e = Entry { key, body };
            self.entries.set(p, e);
            proof {
                assert forall|l: int|
                    0 <= l < self.entries@.len() implies self.key_at(l) == pre.key_at(l) by {
                    if l != p {
                        assert(self.entries@[l] == pre.entries@[l]);
                    }
                }
                assert forall|i: int, j: int|
                    0 <= i < j < self.entries@.len() implies lex_lt(
                    self.key_at(i),
                    self.key_at(j),
                ) by {
                    assert(self.key_at(i) == pre.key_at(i));
                    assert(self.key_at(j) == pre.key_at(j));
                }
                assert(self.wf());
                assert forall|k: Seq<u8>| k != kv implies self.spec_get(k) == pre.spec_get(k)
                    && self.has_key(k) == pre.has_key(k) by {
                    if self.has_key(k) {
                        let l = choose|l: int|
                            0 <= l < self.entries@.len() && self.key_at(l) == k;
                        assert(pre.key_at(l) == k);
                        self.lemma_get_at(l);
                        pre.lemma_get_at(l);
                    } else if pre.has_key(k) {
                        let l = choose|l: int|
                            0 <= l < pre.entries@.len() && pre.key_at(l) == k;
                        assert(self.key_at(l) == k);
                    }
                }
                self.lemma_get_at(p as int);
                assert(self.as_map() =~= pre.as_map().insert(kv, bv));
            }
        } else {
            proof {
                if p < n {
                    assert(pre.key_at(p as int) != kv);
                    assert(!lex_lt(pre.key_at(p as int), kv));
                    if !lex_lt(kv, pre.key_at(p as int)) {
                        lemma_lex_total(pre.key_at(p as int), kv);
                    }
                    assert(lex_lt(kv, pre.key_at(p as int)));
                }
                assert forall|j: int| p <= j < n implies lex_lt(kv, pre.key_at(j)) by {
                    if p < j {
                        lemma_lex_trans(kv, pre.key_at(p as int), pre.key_at(j));
                    }
                }
                assert(!pre.has_key(kv)) by {
                    if pre.has_key(kv) {
                        let l = choose|l: int|
                            0 <= l < pre.entries@.len() && pre.key_at(l) == kv;
                        lemma_lex_irrefl(kv);
                    }
                }
            }
            let e = Entry { key, body };
            self.entries.insert(p, e);
            proof {
                assert forall|i: int, j: int|
                    0 <= i < j < self.entries@.len() implies lex_lt(
                    self.key_at(i),
                    self.key_at(j),
                ) by {
                    if i < p {
                        assert(self.key_at(i) == pre.key_at(i));
                    }
                    if i > p {
                        assert(self.key_at(i) == pre.key_at(i - 1));
                    }
                    if j < p {
                        assert(self.key_at(j) == pre.key_at(j));
                    }
                    if j > p {
                        assert(self.key_at(j) == pre.key_at(j - 1));
                    }
                    if i == p {
                        assert(self.key_at(i) == kv);
                    }
                    if j == p {
                        assert(self.key_at(j) == kv);
                    }
                }
                assert forall|k: Seq<u8>| k != kv implies self.spec_get(k) == pre.spec_get(k)
                    && self.has_key(k) == pre.has_key(k) by {
                    if self.has_key(k) {
                        let l = choose|l: int|
                            0 <= l < self.entries@.len() && self.key_at(l) == k;
                        let ghost lp = if l < p { l } else { l - 1 };
                        assert(pre.key_at(lp) == k);
                        self.lemma_get_at(l);
                        pre.lemma_get_at(lp);
                    } else if pre.has_key(k) {
                        let l = choose|l: int|
                            0 <= l < pre.entries@.len() && pre.key_at(l) == k;
                        let ghost ln = if l < p { l } else { l + 1 };
                        assert(self.key_at(ln) == k);
                    }
                }
                assert(self.key_at(p as int) == kv);
                self.lemma_get_at(p as int);
                assert(self.as_map() =~= pre.as_map().insert(kv, bv));
            }
        }
    }
}

/// One file handed to the store builder: its normalized relative path and
/// its raw bytes.
pub struct SourceFile {
    pub key: Vec<u8>,
    pub data: Vec<u8>,
}

/// The view of a list of source files.
pub open spec fn files_view(files: Seq<SourceFile>) -> Seq<(Seq<u8>, Seq<u8>)> {
    Seq::new(files.len(), |i: int| (files[i].key@, files[i].data@))
}

pub open spec fn opt_view(o: Option<Vec<u8>>) -> Option<Seq<u8>> {
    match o {
        Some(v) => Some(v@),
        None => None,
    }
}

/// A walked file enters the store unless some segment of its path begins
/// with a dot — except exactly the two reserved template keys, the layout
/// and the gallery item template.
pub open spec fn keep_file(key: Seq<u8>) -> bool {
    ||| !has_dot_segment(key)
    ||| key == spec_layout_key()
    ||| key == spec_gallery_template_key()
}

/// The payload stored for a file: an HTML page (by inferred content type)
/// that is not itself a dot-prefixed template, decodes as UTF-8 text, and
/// meets a loaded layout is wrapped by replacing the layout's `{{outlet}}`
/// placeholder with the page body; anything else is stored raw.
pub open spec fn build_body(key: Seq<u8>, raw: Seq<u8>, layout: Option<Seq<u8>>) -> Seq<u8> {
    if html_guess(key) && !has_dot_segment(key) && layout is Some && vstd::utf8::valid_utf8(raw) {
        replace_seq(layout->Some_0, spec_outlet_pat(), raw)
    } else {
        raw
    }
}

/// The mapping a rebuild produces from the walked files and the current
/// layout; a later file with the same key overwrites an earlier one.
pub open spec fn rebuild_map(files: Seq<(Seq<u8>, Seq<u8>)>, layout: Option<Seq<u8>>) -> Map<
    Seq<u8>,
    Seq<u8>,
>
    decreases files.len(),
{
    if files.len() == 0 {
        Map::empty()
    } else {
        let m = rebuild_map(files.drop_last(), layout);
        let f = files.last();
        if keep_file(f.0) {
            m.insert(f.0, build_body(f.0, f.1, layout))
        } else {
            m
        }
    }
}

/// Build one complete snapshot from the walked files and the current layout.
pub fn rebuild(files: &Vec<SourceFile>, layout: &Option<Vec<u8>>) -> (r: ContentStore)
    ensures
        r.wf(),
        r.as_map() == rebuild_map(files_view(files@), opt_view(*layout)),
{
    let ghost lv = opt_view(*layout);
    let mut store = ContentStore::new();
    proof {
        assert(files_view(files@).take(0) =~= Seq::<(Seq<u8>, Seq<u8>)>::empty());
        assert(store.as_map() =~= Map::<Seq<u8>, Seq<u8>>::empty());
    }
    let n = files.len();
    let mut i: usize = 0;
    while i < n
        invariant
            n == files@.len(),
            0 <= i <= n,
            lv == opt_view(*layout),
            store.wf(),
            store.as_map() == rebuild_map(files_view(files@).take(i as int), lv),
        decreases n - i,
    {
        let f = &files[i];
        let keep = {
            let lkey = layout_key();
            let gkey = gallery_template_key();
            !contains_dot_segment(&f.key) || bytes_eq(&f.key, &lkey) || bytes_eq(&f.key, &gkey)
        };
        if keep {
            let body = assemble_body(&f.key, &f.data, layout);
            let key_copy = copy_bytes(&f.key);
            store.insert(key_copy, body);
        }
        proof {
            assert(files_view(files@).take(i + 1).drop_last() =~= files_view(files@).take(
                i as int,
            ));
            assert(files_view(files@).take(i + 1).last() == (f.key@, f.data@));
        }
        i += 1;
    }
    proof {
        assert(files_view(files@).take(n as int) =~= files_view(files@));
    }
    store
}

/// The payload stored for one file, as `build_body` states it.
pub fn assemble_body(key: &Vec<u8>, raw: &Vec<u8>, layout: &Option<Vec<u8>>) -> (r: Vec<u8>)
    ensures
        r@ == build_body(key@, raw@, opt_view(*layout)),
{
    let is_html = crate::ext::is_html_path(key);
    if is_html && !contains_dot_segment(key) {
        match layout {
            Some(l) => {
                if crate::ext::utf8_check(raw) {
                    let pat = outlet_pat();
                    replace_all(l, &pat, raw)
                } else {
                    copy_bytes(raw)
                }
            },
            None => copy_bytes(raw),
        }
    } else {
        copy_bytes(raw)
    }
}

/// Swapping the layout and rebuilding keeps the same set of keys, leaves
/// every non-HTML payload byte-identical to the raw file, and rebuilds every
/// HTML page against the new layout: the layout-reload consistency law.
/// `rebuild_map(files, None)` is the raw payload of each kept file.
pub proof fn lemma_layout_reload(
    files: Seq<(Seq<u8>, Seq<u8>)>,
    l1: Option<Seq<u8>>,
    l2: Option<Seq<u8>>,
)
    ensures
        rebuild_map(files, l1).dom() == rebuild_map(files, l2).dom(),
        rebuild_map(files, l1).dom() == rebuild_map(files, None).dom(),
        forall|k: Seq<u8>|
            rebuild_map(files, l1).dom().contains(k) && !html_guess(k) ==> rebuild_map(files, l1)[k]
                == rebuild_map(files, None)[k] && rebuild_map(files, l2)[k] == rebuild_map(
                files,
                None,
            )[k],
        forall|k: Seq<u8>|
            rebuild_map(files, l2).dom().contains(k) && html_guess(k) && !has_dot_segment(k)
                && l2 is Some && vstd::utf8::valid_utf8(rebuild_map(files, None)[k])
                ==> rebuild_map(files, l2)[k] == replace_seq(
                l2->Some_0,
                spec_outlet_pat(),
                rebuild_map(files, None)[k],
            ),
    decreases files.len(),
{
    if files.len() > 0 {
        lemma_layout_reload(files.drop_last(), l1, l2);
        let f = files.last();
        if keep_file(f.0) {
            assert(build_body(f.0, f.1, None) == f.1);
        }
        assert(rebuild_map(files, l1).dom() =~= rebuild_map(files, l2).dom());
        assert(rebuild_map(files, l1).dom() =~= rebuild_map(files, None).dom());
    } else {
        assert(rebuild_map(files, l1).dom() =~= rebuild_map(files, l2).dom());
        assert(rebuild_map(files, l1).dom() =~= rebuild_map(files, None).dom());
    }
}

} // verus!
