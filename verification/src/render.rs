//! Request-time rendering: the visit counter, custom strings and the image
//! gallery substituted into a served HTML page, and the full request
//! pipeline from path to response.

use vstd::prelude::*;

use crate::consts::{
    custom_close, custom_open, ext_gif, ext_jpeg, ext_jpg, ext_png, ext_webp, filename_pat,
    filepath_pat, gallery_count_pat, gallery_pat, gallery_prefix, gallery_template_key, newline,
    slash, slash_dot, spec_custom_close, spec_custom_open, spec_ext_gif, spec_ext_jpeg,
    spec_ext_jpg, spec_ext_png, spec_ext_webp, spec_filename_pat, spec_filepath_pat,
    spec_gallery_count_pat, spec_gallery_pat, spec_gallery_prefix, spec_gallery_template_key,
    spec_newline, spec_slash, spec_slash_dot, spec_visits_pat, visits_pat,
};
use crate::customs::CustomStrings;
use crate::ext::html_guess;
use crate::router::{resolved_key, Resolution};
use crate::store::ContentStore;
use crate::textops::{
    bytes_eq, concat, contains_seq, contains_sub, copy_bytes, has_dot_segment, last_piece,
    lower_seq, match_at, replace_all, replace_seq, starts_with, suffix_after_last, to_lower,
};

verus! {

/// The decimal digits of `n`.
pub open spec fn dec_rep(n: nat) -> Seq<u8>
    decreases n,
{
    if n < 10 {
        seq![(48 + n) as u8]
    } else {
        dec_rep(n / 10).push((48 + n % 10) as u8)
    }
}

/// The decimal digits of `n`, as servable text.
pub fn dec_u64(n: u64) -> (r: Vec<u8>)
    ensures
        r@ == dec_rep(n as nat),
    decreases n,
{
    if n < 10 {
        let mut v: Vec<u8> = Vec::new();
        v.push(48 + (n as u8));
        proof {
            assert(v@ =~= dec_rep(n as nat));
        }
        v
    } else {
        let mut v = dec_u64(n / 10);
        v.push(48 + ((n % 10) as u8));
        v
    }
}

/// `s` left-padded with ASCII zeros to at least six digits.
pub open spec fn pad6(s: Seq<u8>) -> Seq<u8> {
    if s.len() >= 6 {
        s
    } else {
        Seq::new((6 - s.len()) as nat, |i: int| 48u8) + s
    }
}

/// The visit counter as served: fixed six digits, zero-padded, more digits
/// only when the count outgrows them.
pub open spec fn visits_text(n: nat) -> Seq<u8> {
    pad6(dec_rep(n))
}

/// Format the visit counter as `visits_text` states.
pub fn format_visits(n: u64) -> (r: Vec<u8>)
    ensures
        r@ == visits_text(n as nat),
{
    let digits = dec_u64(n);
    if digits.len() >= 6 {
        digits
    } else {
        let mut out: Vec<u8> = Vec::new();
        let pad = 6 - digits.len();
        let mut i: usize = 0;
        while i < pad
            invariant
                0 <= i <= pad,
                out@.len() == i,
                forall|k: int| 0 <= k < i ==> out@[k] == 48u8,
            decreases pad - i,
        {
            out.push(48);
            i += 1;
        }
        out.extend_from_slice(digits.as_slice());
        proof {
            assert(out@ =~= pad6(digits@));
        }
        out
    }
}

/// The literal placeholder a custom string replaces.
pub open spec fn custom_pat(key: Seq<u8>) -> Seq<u8> {
    spec_custom_open() + key + spec_custom_close()
}

/// Every loaded custom entry substituted into the body, in list order; keys
/// without an entry are left as written.
pub open spec fn subst_customs(body: Seq<u8>, pairs: Seq<(Seq<u8>, Seq<u8>)>) -> Seq<u8>
    decreases pairs.len(),
{
    if pairs.len() == 0 {
        body
    } else {
        subst_customs(replace_seq(body, custom_pat(pairs[0].0), pairs[0].1), pairs.skip(1))
    }
}

/// Substitute every loaded custom string into the body.
pub fn apply_customs(body: Vec<u8>, customs: &CustomStrings) -> (r: Vec<u8>)
    ensures
        r@ == subst_customs(body@, customs.pairs_view()),
{
    let ghost pv = customs.pairs_view();
    let ghost b0 = body@;
    let mut cur = body;
    let n = customs.pairs.len();
    let mut i: usize = 0;
    proof {
        assert(pv.skip(0) =~= pv);
    }
    while i < n
        invariant
            n == customs.pairs@.len(),
            0 <= i <= n,
            pv == customs.pairs_view(),
            subst_customs(cur@, pv.skip(i as int)) == subst_customs(b0, pv),
        decreases n - i,
    {
        let opener = custom_open();
        let closer = custom_close();
        let pat = concat(&concat(&opener, &customs.pairs[i].key), &closer);
        proof {
            assert(pat@ == custom_pat(pv[i as int].0));
            assert(pat@.len() >= 1);
            assert(pv.skip(i as int)[0] == pv[i as int]);
            assert(pv.skip(i as int).skip(1) =~= pv.skip(i + 1));
        }
        cur = replace_all(&cur, &pat, &customs.pairs[i].value);
        i += 1;
    }
    proof {
        assert(pv.skip(n as int) =~= Seq::<(Seq<u8>, Seq<u8>)>::empty());
    }
    cur
}

/// Is this lowercased extension one of the gallery image kinds?
pub open spec fn is_image_ext(e: Seq<u8>) -> bool {
    ||| e == spec_ext_jpg()
    ||| e == spec_ext_jpeg()
    ||| e == spec_ext_png()
    ||| e == spec_ext_webp()
    ||| e == spec_ext_gif()
}

/// A store key the gallery lists: under `gallery/`, no dot-prefixed
/// segment, and an image extension (case-insensitive).
pub open spec fn is_gallery_key(k: Seq<u8>) -> bool {
    &&& match_at(k, spec_gallery_prefix(), 0)
    &&& !contains_seq(k, spec_slash_dot())
    &&& is_image_ext(lower_seq(suffix_after_last(k, 46)))
}

/// Does the gallery list this key?
pub fn check_gallery_key(k: &Vec<u8>) -> (r: bool)
    ensures
        r == is_gallery_key(k@),
{
    let prefix = gallery_prefix();
    if !starts_with(k, &prefix) {
        return false;
    }
    let sd = slash_dot();
    proof {
        assert(sd@.len() >= 1);
    }
    if contains_sub(k, &sd) {
        return false;
    }
    let ext = to_lower(&last_piece(k, 46));
    bytes_eq(&ext, &ext_jpg()) || bytes_eq(&ext, &ext_jpeg()) || bytes_eq(&ext, &ext_png())
        || bytes_eq(&ext, &ext_webp()) || bytes_eq(&ext, &ext_gif())
}

/// The gallery candidates among the store's keys, kept in store order —
/// with a well-formed store, ascending byte-lexicographic order.
pub open spec fn gallery_keys(keys: Seq<Seq<u8>>) -> Seq<Seq<u8>>
    decreases keys.len(),
{
    if keys.len() == 0 {
        Seq::empty()
    } else {
        let front = gallery_keys(keys.drop_last());
        if is_gallery_key(keys.last()) {
            front.push(keys.last())
        } else {
            front
        }
    }
}

/// The gallery listing is deterministic: candidates drawn from keys in
/// ascending byte-lexicographic order stay in that order.
pub proof fn lemma_gallery_keys_sorted(keys: Seq<Seq<u8>>)
    requires
        forall|i: int, j: int|
            0 <= i < j < keys.len() ==> crate::store::lex_lt(keys[i], keys[j]),
    ensures
        forall|i: int, j: int|
            0 <= i < j < gallery_keys(keys).len() ==> crate::store::lex_lt(
                gallery_keys(keys)[i],
                gallery_keys(keys)[j],
            ),
        forall|i: int|
            0 <= i < gallery_keys(keys).len() ==> is_gallery_key(gallery_keys(keys)[i])
                && keys.contains(gallery_keys(keys)[i]),
        forall|i: int|
            0 <= i < keys.len() && is_gallery_key(keys[i]) ==> gallery_keys(keys).contains(
                keys[i],
            ),
    decreases keys.len(),
{
    if keys.len() > 0 {
        lemma_gallery_keys_sorted(keys.drop_last());
        let front = gallery_keys(keys.drop_last());
        assert forall|i: int|
            0 <= i < front.len() implies keys.contains(front[i]) by {
            let w = choose|w: int| 0 <= w < keys.drop_last().len() && keys.drop_last()[w]
                == front[i];
            assert(keys[w] == front[i]);
        }
        if is_gallery_key(keys.last()) {
            assert forall|i: int|
                0 <= i < front.len() implies crate::store::lex_lt(front[i], keys.last()) by {
                let w = choose|w: int| 0 <= w < keys.drop_last().len() && keys.drop_last()[w]
                    == front[i];
                assert(crate::store::lex_lt(keys[w], keys[keys.len() - 1]));
            }
            assert(keys.contains(keys.last())) by {
                assert(keys[keys.len() - 1] == keys.last());
            }
        }
        assert forall|i: int|
            0 <= i < keys.len() && is_gallery_key(keys[i]) implies gallery_keys(keys).contains(
            keys[i],
        ) by {
            let g = gallery_keys(keys);
            if i < keys.len() - 1 {
                assert(keys.drop_last()[i] == keys[i]);
                assert(front.contains(keys[i]));
                let w = choose|w: int| 0 <= w < front.len() && front[w] == keys[i];
                if is_gallery_key(keys.last()) {
                    assert(g == front.push(keys.last()));
                    assert(g[w] == keys[i]);
                } else {
                    assert(g == front);
                }
            } else {
                assert(keys.last() == keys[i]);
                assert(g == front.push(keys.last()));
                assert(g[g.len() - 1] == keys[i]);
            }
        }
    }
}

/// The view of a list of byte strings.
pub open spec fn vecs_view(s: Seq<Vec<u8>>) -> Seq<Seq<u8>> {
    Seq::new(s.len(), |i: int| s[i]@)
}

/// Collect the gallery candidates from the store, in key order.
pub fn collect_gallery_keys(store: &ContentStore) -> (r: Vec<Vec<u8>>)
    ensures
        vecs_view(r@) == gallery_keys(store.keys_seq()),
{
    let mut out: Vec<Vec<u8>> = Vec::new();
    let n = store.len();
    let mut i: usize = 0;
    proof {
        assert(store.keys_seq().take(0) =~= Seq::<Seq<u8>>::empty());
        assert(vecs_view(out@) =~= gallery_keys(store.keys_seq().take(0)));
    }
    while i < n
        invariant
            n == store.spec_len(),
            0 <= i <= n,
            vecs_view(out@) == gallery_keys(store.keys_seq().take(i as int)),
        decreases n - i,
    {
        let k = store.key_at_idx(i);
        proof {
            assert(store.keys_seq().take(i + 1).drop_last() =~= store.keys_seq().take(i as int));
            assert(store.keys_seq().take(i + 1).last() == k@);
        }
        if check_gallery_key(k) {
            let kc = copy_bytes(k);
            out.push(kc);
        }
        i += 1;
        proof {
            assert(vecs_view(out@) =~= gallery_keys(store.keys_seq().take(i as int)));
        }
    }
    proof {
        assert(store.keys_seq().take(n as int) =~= store.keys_seq());
    }
    out
}

/// One instantiated gallery item: the template with `{filepath}` replaced
/// by `/` + key and `{filename}` by the key's final segment.
pub open spec fn gallery_item(tpl: Seq<u8>, k: Seq<u8>) -> Seq<u8> {
    replace_seq(
        replace_seq(tpl, spec_filepath_pat(), spec_slash() + k),
        spec_filename_pat(),
        suffix_after_last(k, 47),
    )
}

/// The instantiated items joined with newlines.
pub open spec fn gallery_list(tpl: Seq<u8>, ks: Seq<Seq<u8>>) -> Seq<u8>
    decreases ks.len(),
{
    if ks.len() == 0 {
        Seq::empty()
    } else if ks.len() == 1 {
        gallery_item(tpl, ks[0])
    } else {
        gallery_list(tpl, ks.drop_last()) + spec_newline() + gallery_item(tpl, ks.last())
    }
}

/// Instantiate the template once per candidate and join with newlines.
pub fn build_gallery_list(tpl: &Vec<u8>, ks: &Vec<Vec<u8>>) -> (r: Vec<u8>)
    ensures
        r@ == gallery_list(tpl@, vecs_view(ks@)),
{
    let ghost kv = vecs_view(ks@);
    let mut out: Vec<u8> = Vec::new();
    let n = ks.len();
    let mut i: usize = 0;
    proof {
        assert(kv.take(0) =~= Seq::<Seq<u8>>::empty());
    }
    while i < n
        invariant
            n == ks@.len(),
            0 <= i <= n,
            kv == vecs_view(ks@),
            out@ == gallery_list(tpl@, kv.take(i as int)),
        decreases n - i,
    {
        let fp = filepath_pat();
        let fnp = filename_pat();
        let sl = slash();
        let path_text = concat(&sl, &ks[i]);
        let item0 = replace_all(tpl, &fp, &path_text);
        let name = last_piece(&ks[i], 47);
        let item = replace_all(&item0, &fnp, &name);
        proof {
            assert(item@ == gallery_item(tpl@, kv[i as int]));
            assert(kv.take(i + 1).drop_last() =~= kv.take(i as int));
            assert(kv.take(i + 1).last() == kv[i as int]);
        }
        if i == 0 {
            out = item;
        } else {
            let nl = newline();
            out = concat(&concat(&out, &nl), &item);
            proof {
                assert(out@ =~= gallery_list(tpl@, kv.take(i as int)) + spec_newline()
                    + gallery_item(tpl@, kv[i as int]));
            }
        }
        i += 1;
    }
    proof {
        assert(kv.take(n as int) =~= kv);
    }
    out
}

/// The gallery pass over a page body: triggered only by a gallery
/// placeholder, a no-op unless the store holds a UTF-8 gallery template;
/// otherwise both placeholders are replaced, the listing first.
pub open spec fn apply_gallery(body: Seq<u8>, store: ContentStore) -> Seq<u8> {
    if !contains_seq(body, spec_gallery_pat()) && !contains_seq(body, spec_gallery_count_pat()) {
        body
    } else {
        match store.spec_get(spec_gallery_template_key()) {
            Some(tpl) => if vstd::utf8::valid_utf8(tpl) {
                let ks = gallery_keys(store.keys_seq());
                replace_seq(
                    replace_seq(body, spec_gallery_pat(), gallery_list(tpl, ks)),
                    spec_gallery_count_pat(),
                    dec_rep(ks.len()),
                )
            } else {
                body
            },
            None => body,
        }
    }
}

/// Run the gallery pass on a page body.
pub fn render_gallery(body: Vec<u8>, store: &ContentStore) -> (r: Vec<u8>)
    requires
        store.wf(),
    ensures
        r@ == apply_gallery(body@, *store),
{
    let gp = gallery_pat();
    let gcp = gallery_count_pat();
    proof {
        assert(gp@.len() >= 1 && gcp@.len() >= 1);
    }
    if !contains_sub(&body, &gp) && !contains_sub(&body, &gcp) {
        return body;
    }
    let tkey = gallery_template_key();
    match store.get(&tkey) {
        Some(tpl) => {
            if crate::ext::utf8_check(tpl) {
                let ks = collect_gallery_keys(store);
                let listing = build_gallery_list(tpl, &ks);
                let with_list = replace_all(&body, &gp, &listing);
                let count_text = dec_u64(ks.len() as u64);
                proof {
                    assert(vecs_view(ks@).len() == ks@.len());
                }
                replace_all(&with_list, &gcp, &count_text)
            } else {
                body
            }
        },
        None => body,
    }
}

/// A full page render: the visit counter, then every custom string, then
/// the gallery pass.
pub open spec fn render_page(
    body: Seq<u8>,
    visits: nat,
    pairs: Seq<(Seq<u8>, Seq<u8>)>,
    store: ContentStore,
) -> Seq<u8> {
    apply_gallery(
        subst_customs(replace_seq(body, spec_visits_pat(), visits_text(visits)), pairs),
        store,
    )
}

/// Render one HTML page body for serving.
pub fn render_html(
    body: &Vec<u8>,
    visits: u64,
    customs: &CustomStrings,
    store: &ContentStore,
) -> (r: Vec<u8>)
    requires
        store.wf(),
    ensures
        r@ == render_page(body@, visits as nat, customs.pairs_view(), *store),
{
    let vp = visits_pat();
    let vtext = format_visits(visits);
    let with_visits = replace_all(body, &vp, &vtext);
    let with_customs = apply_customs(with_visits, customs);
    render_gallery(with_customs, store)
}

/// What one request is answered with.
pub enum Outcome {
    /// Serve this body under this resolved key.
    Success { key: Vec<u8>, body: Vec<u8> },
    /// The path names a dot-prefixed segment.
    Forbidden,
    /// Nothing is stored under the resolved key.
    NotFound,
}

/// The body served for the store key `k`: an HTML page that decodes as
/// UTF-8 is rendered; anything else is the stored bytes unmodified.
pub open spec fn response_body(
    k: Seq<u8>,
    visits: nat,
    pairs: Seq<(Seq<u8>, Seq<u8>)>,
    store: ContentStore,
) -> Seq<u8> {
    let raw = store.spec_get(k)->Some_0;
    if html_guess(k) && vstd::utf8::valid_utf8(raw) {
        render_page(raw, visits, pairs, store)
    } else {
        raw
    }
}

/// Answer one request: resolve the path, look the key up, and render the
/// body when it is a decodable HTML page. The visit counter is recorded
/// separately, before this runs, as every request counts a visit.
pub fn handle_request(
    store: &ContentStore,
    customs: &CustomStrings,
    visits: u64,
    path: &Vec<u8>,
) -> (r: Outcome)
    requires
        store.wf(),
    ensures
        ({
            let k = resolved_key(path@, *store);
            match r {
                Outcome::Success { key, body } => key@ == k && !has_dot_segment(k)
                    && store.has_key(k) && body@ == response_body(
                    k,
                    visits as nat,
                    customs.pairs_view(),
                    *store,
                ),
                Outcome::Forbidden => has_dot_segment(k),
                Outcome::NotFound => !has_dot_segment(k) && !store.has_key(k),
            }
        }),
{
    match crate::router::resolve(path, store) {
        Resolution::Forbidden => Outcome::Forbidden,
        Resolution::NotFound => Outcome::NotFound,
        Resolution::Serve(key) => {
            match store.get(&key) {
                Some(raw) => {
                    let body = if crate::ext::is_html_path(&key) && crate::ext::utf8_check(raw) {
                        render_html(raw, visits, customs, store)
                    } else {
                        copy_bytes(raw)
                    };
                    Outcome::Success { key, body }
                },
                None => {
                    // resolve only serves keys the store holds
                    Outcome::NotFound
                },
            }
        },
    }
}

} // verus!
