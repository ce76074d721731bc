//! Visit tracking: a 64-bit FNV-1a hash of each client identity, a dedup
//! set of hashes that a window reset clears wholesale, a visit counter
//! incremented once per identity per window, and the changed-since-saved
//! test the persistence task uses.

use vstd::prelude::*;

verus! {

pub const FNV_OFFSET: u64 = 14695981039346656037;

pub const FNV_PRIME: u64 = 1099511628211;

/// The 64-bit FNV-1a hash of a byte string.
pub open spec fn fnv1a(s: Seq<u8>) -> u64
    decreases s.len(),
{
    if s.len() == 0 {
        FNV_OFFSET
    } else {
        vstd::wrapping::u64_specs::wrapping_mul(fnv1a(s.drop_last()) ^ (s.last() as u64), FNV_PRIME)
    }
}

/// Hash a client identity to the 64-bit value the dedup set stores.
pub fn hash_identity(s: &Vec<u8>) -> (r: u64)
    ensures
        r == fnv1a(s@),
{
    let n = s.len();
    let mut h: u64 = FNV_OFFSET;
    let mut i: usize = 0;
    while i < n
        invariant
            n == s@.len(),
            0 <= i <= n,
            h == fnv1a(s@.take(i as int)),
        decreases n - i,
    {
        let b = s[i];
        h = (h ^ (b as u64)).wrapping_mul(FNV_PRIME);
        i += 1;
        proof {
            assert(s@.take(i as int).drop_last() =~= s@.take(i - 1));
            assert(s@.take(i as int).last() == s@[i - 1]);
        }
    }
    proof {
        assert(s@.take(n as int) =~= s@);
    }
    h
}

/// Which string identifies the client: with trusted-proxy handling on, a
/// forwarded-IP header value is preferred over the connection address.
pub open spec fn identity_of(
    trusted_proxy: bool,
    forwarded: Option<Seq<u8>>,
    remote: Seq<u8>,
) -> Seq<u8> {
    if trusted_proxy && forwarded is Some {
        forwarded->Some_0
    } else {
        remote
    }
}

/// Pick the client identity string a visit is recorded under.
pub fn client_identity(trusted_proxy: bool, forwarded: Option<Vec<u8>>, remote: Vec<u8>) -> (r:
    Vec<u8>)
    ensures
        r@ == identity_of(
            trusted_proxy,
            match forwarded {
                Some(f) => Some(f@),
                None => None,
            },
            remote@,
        ),
{
    if trusted_proxy {
        match forwarded {
            Some(f) => f,
            None => remote,
        }
    } else {
        remote
    }
}

/// An ASCII whitespace byte, as the counter file is trimmed of.
pub open spec fn is_ws(b: u8) -> bool {
    b == 9 || b == 10 || b == 11 || b == 12 || b == 13 || b == 32
}

/// An ASCII digit.
pub open spec fn is_digit(b: u8) -> bool {
    48 <= b <= 57
}

/// `s` with leading whitespace removed.
pub open spec fn trim_front(s: Seq<u8>) -> Seq<u8>
    decreases s.len(),
{
    if s.len() > 0 && is_ws(s[0]) {
        trim_front(s.skip(1))
    } else {
        s
    }
}

/// `s` with trailing whitespace removed.
pub open spec fn trim_back(s: Seq<u8>) -> Seq<u8>
    decreases s.len(),
{
    if s.len() > 0 && is_ws(s[s.len() - 1]) {
        trim_back(s.take(s.len() - 1))
    } else {
        s
    }
}

/// `s` with surrounding whitespace removed.
pub open spec fn trim_ws(s: Seq<u8>) -> Seq<u8> {
    trim_back(trim_front(s))
}

/// Every byte of `s` is a digit.
pub open spec fn all_digits(s: Seq<u8>) -> bool {
    forall|i: int| 0 <= i < s.len() ==> is_digit(s[i])
}

/// The numeric value of a digit string.
pub open spec fn dec_value(s: Seq<u8>) -> nat
    decreases s.len(),
{
    if s.len() == 0 {
        0
    } else {
        (dec_value(s.drop_last()) * 10 + (s.last() - 48)) as nat
    }
}

/// The digits of a trimmed counter text: an optional single leading `+`
/// is accepted, as integer parsing accepts it.
pub open spec fn digits_part(t: Seq<u8>) -> Seq<u8> {
    if t.len() >= 1 && t[0] == 43 {
        t.skip(1)
    } else {
        t
    }
}

/// A counter source is good when, after trimming and past an optional
/// leading `+`, it is a non-empty digit string whose value the counter can
/// hold.
pub open spec fn good_counter_text(s: Seq<u8>) -> bool {
    let d = digits_part(trim_ws(s));
    d.len() > 0 && all_digits(d) && dec_value(d) <= u64::MAX
}

proof fn lemma_trim_front_skip(s: Seq<u8>, a: int)
    requires
        0 <= a <= s.len(),
        forall|l: int| 0 <= l < a ==> is_ws(s[l]),
    ensures
        trim_front(s) == trim_front(s.skip(a)),
    decreases a,
{
    if a > 0 {
        assert(trim_front(s) == trim_front(s.skip(1)));
        lemma_trim_front_skip(s.skip(1), a - 1);
        assert(s.skip(1).skip(a - 1) =~= s.skip(a));
    } else {
        assert(s.skip(0) =~= s);
    }
}

proof fn lemma_trim_back_take(s: Seq<u8>, b: int)
    requires
        0 <= b <= s.len(),
        forall|l: int| b <= l < s.len() ==> is_ws(s[l]),
    ensures
        trim_back(s) == trim_back(s.take(b)),
    decreases s.len() - b,
{
    if b < s.len() {
        assert(is_ws(s[s.len() - 1]));
        assert(trim_back(s) == trim_back(s.take(s.len() - 1)));
        lemma_trim_back_take(s.take(s.len() - 1), b);
        assert(s.take(s.len() - 1).take(b) =~= s.take(b));
    } else {
        assert(s.take(b) =~= s);
    }
}

proof fn lemma_dec_value_grows(s: Seq<u8>, i: int)
    requires
        0 <= i <= s.len(),
        forall|l: int| i <= l < s.len() ==> is_digit(s[l]),
    ensures
        dec_value(s.take(i)) <= dec_value(s),
    decreases s.len() - i,
{
    if i < s.len() {
        lemma_dec_value_grows(s, i + 1);
        assert(s.take(i + 1).drop_last() =~= s.take(i));
        assert(s.take(i + 1).last() == s[i]);
        assert(is_digit(s[i]));
        assert(dec_value(s.take(i)) <= dec_value(s.take(i + 1)));
    } else {
        assert(s.take(i) =~= s);
    }
}

/// Is this byte ASCII whitespace?
pub fn ws_byte(b: u8) -> (r: bool)
    ensures
        r == is_ws(b),
{
    b == 9 || b == 10 || b == 11 || b == 12 || b == 13 || b == 32
}

/// Parse the persisted visit counter: surrounding ASCII whitespace (the
/// only kind the persistence task ever writes) is ignored, one leading `+`
/// is accepted; any other source, or a value the counter cannot hold,
/// yields zero.
pub fn parse_visits(content: &Vec<u8>) -> (r: u64)
    ensures
        r == if good_counter_text(content@) {
            dec_value(digits_part(trim_ws(content@)))
        } else {
            0
        },
{
    let n = content.len();
    let mut a: usize = 0;
    while a < n && ws_byte(content[a])
        invariant
            n == content@.len(),
            0 <= a <= n,
            forall|l: int| 0 <= l < a ==> is_ws(content@[l]),
        decreases n - a,
    {
        a += 1;
    }
    let mut b: usize = n;
    while b > a && ws_byte(content[b - 1])
        invariant
            n == content@.len(),
            a <= b <= n,
            forall|l: int| 0 <= l < a ==> is_ws(content@[l]),
            forall|l: int| b <= l < n ==> is_ws(content@[l]),
        decreases b,
    {
        b -= 1;
    }
    let ghost t = trim_ws(content@);
    proof {
        lemma_trim_front_skip(content@, a as int);
        let sk = content@.skip(a as int);
        if a < b {
            assert(!is_ws(sk[0]));
        }
        assert(trim_front(sk) == sk);
        lemma_trim_back_take(sk, b - a);
        let tb = sk.take(b - a);
        if a < b {
            assert(!is_ws(tb[tb.len() - 1]));
        }
        assert(trim_back(tb) == tb);
        assert(t =~= content@.subrange(a as int, b as int));
    }
    let mut g: usize = a;
    if a < b && content[a] == 43 {
        g = a + 1;
    }
    let ghost dg = digits_part(t);
    proof {
        if a < b && content@[a as int] == 43 {
            assert(t[0] == content@[a as int]);
            assert(dg =~= content@.subrange(g as int, b as int));
        } else {
            assert(dg =~= content@.subrange(g as int, b as int));
        }
    }
    if g == b {
        return 0;
    }
    let mut h: u64 = 0;
    let mut i: usize = g;
    proof {
        assert(dg.take(0) =~= Seq::<u8>::empty());
    }
    while i < b
        invariant
            n == content@.len(),
            g <= i <= b <= n,
            dg == content@.subrange(g as int, b as int),
            dg == digits_part(trim_ws(content@)),
            b > g,
            h == dec_value(dg.take(i - g)),
            forall|l: int| g <= l < i ==> is_digit(content@[l]),
        decreases b - i,
    {
        let c = content[i];
        if c < 48 || c > 57 {
            proof {
                assert(dg[i - g] == content@[i as int]);
                assert(!all_digits(dg)) by {
                    assert(!is_digit(dg[i - g]));
                }
                assert(!good_counter_text(content@));
            }
            return 0;
        }
        let d = c - 48;
        if h > (u64::MAX - (d as u64)) / 10 {
            proof {
                assert(dg.take(i - g + 1).drop_last() =~= dg.take(i - g));
                assert(dg.take(i - g + 1).last() == content@[i as int]);
                assert(dec_value(dg.take(i - g + 1)) > u64::MAX) by {
                    assert(h == dec_value(dg.take(i - g)));
                    assert(h * 10 + d > u64::MAX) by (nonlinear_arith)
                        requires
                            h > (u64::MAX - (d as u64)) / 10,
                            0 <= d <= 9,
                    ;
                }
                if all_digits(dg) {
                    assert forall|l: int| i - g + 1 <= l < dg.len() implies is_digit(dg[l]) by {}
                    lemma_dec_value_grows(dg, i - g + 1);
                    assert(dec_value(dg) > u64::MAX);
                }
                assert(!good_counter_text(content@));
            }
            return 0;
        }
        proof {
            assert(dg.take(i - g + 1).drop_last() =~= dg.take(i - g));
            assert(dg.take(i - g + 1).last() == content@[i as int]);
        }
        h = h * 10 + (d as u64);
        i += 1;
    }
    proof {
        assert(dg.take(b - g) =~= dg);
        assert forall|l: int| 0 <= l < dg.len() implies is_digit(dg[l]) by {
            assert(dg[l] == content@[g + l]);
        }
    }
    h
}

/// One step of the visit-counting model: insert the hash into the window's
/// dedup set and count the visit only when it is new there.
pub open spec fn record_step(count: nat, seen: Set<u64>, h: u64) -> (nat, Set<u64>) {
    if seen.contains(h) {
        (count, seen)
    } else {
        ((count + 1) as nat, seen.insert(h))
    }
}

/// The model folded over a sequence of identity hashes.
pub open spec fn record_all(count: nat, seen: Set<u64>, hs: Seq<u64>) -> (nat, Set<u64>)
    decreases hs.len(),
{
    if hs.len() == 0 {
        (count, seen)
    } else {
        let step = record_step(count, seen, hs[0]);
        record_all(step.0, step.1, hs.skip(1))
    }
}

/// Dedup counting: distinct identities none of which the window has seen
/// each raise the counter exactly once, however many they are.
pub proof fn lemma_dedup_counting(count: nat, seen: Set<u64>, hs: Seq<u64>)
    requires
        forall|i: int, j: int| 0 <= i < j < hs.len() ==> hs[i] != hs[j],
        forall|i: int| 0 <= i < hs.len() ==> !seen.contains(hs[i]),
    ensures
        record_all(count, seen, hs).0 == count + hs.len(),
    decreases hs.len(),
{
    if hs.len() > 0 {
        let step = record_step(count, seen, hs[0]);
        assert(step.0 == count + 1 && step.1 == seen.insert(hs[0]));
        assert(forall|i: int| 0 <= i < hs.skip(1).len() ==> hs.skip(1)[i] == hs[i + 1]);
        lemma_dedup_counting(step.0, step.1, hs.skip(1));
    }
}

/// A repeated identity within one window is not counted again: once its
/// hash is in the dedup set, any further visit of it leaves the counter
/// unchanged.
pub proof fn lemma_repeat_not_counted(count: nat, seen: Set<u64>, h: u64)
    ensures
        record_step(record_step(count, seen, h).0, record_step(count, seen, h).1, h).0
            == record_step(count, seen, h).0,
{
}

/// Window reset: after the dedup set is cleared, any identity — seen before
/// or not — raises the counter on its next visit.
pub proof fn lemma_window_reset(count: nat, h: u64)
    ensures
        record_step(count, Set::empty(), h).0 == count + 1,
{
    assert(!Set::<u64>::empty().contains(h));
}

/// The per-process visit state.
pub struct VisitTracker {
    /// Total visits counted, seeded from durable storage at startup.
    pub visits: u64,
    /// The counter value most recently persisted.
    pub last_saved: u64,
    /// Hashes of the identities seen in the current dedup window.
    pub seen: Vec<u64>,
}

impl VisitTracker {
    /// The dedup window as a set of hashes.
    pub open spec fn seen_set(self) -> Set<u64> {
        self.seen@.to_set()
    }

    /// The dedup list holds no duplicates.
    pub open spec fn wf(self) -> bool {
        forall|i: int, j: int| 0 <= i < j < self.seen@.len() ==> self.seen@[i] != self.seen@[j]
    }

    /// A tracker seeded with a persisted counter value and an empty window.
    pub fn new(initial: u64) -> (r: VisitTracker)
        ensures
            r.wf(),
            r.visits == initial,
            r.last_saved == initial,
            r.seen_set() == Set::<u64>::empty(),
    {
        let r = VisitTracker { visits: initial, last_saved: initial, seen: Vec::new() };
        proof {
            assert(r.seen@.to_set() =~= Set::<u64>::empty());
        }
        r
    }

    /// Record one visit by the identity hashed to `h`: exactly the model's
    /// `record_step` on the counter and the window.
    pub fn record_visit(&mut self, h: u64)
        requires
            old(self).wf(),
            old(self).visits < u64::MAX,
        ensures
            final(self).wf(),
            final(self).visits == record_step(
                old(self).visits as nat,
                old(self).seen_set(),
                h,
            ).0,
            final(self).seen_set() == record_step(
                old(self).visits as nat,
                old(self).seen_set(),
                h,
            ).1,
            final(self).last_saved == old(self).last_saved,
    {
        let ghost orig = *self;
        let n = self.seen.len();
        let mut i: usize = 0;
        while i < n
            invariant
                orig.wf(),
                n == self.seen@.len(),
                0 <= i <= n,
                *self == orig,
                self.seen@ == orig.seen@,
                forall|k: int| 0 <= k < i ==> self.seen@[k] != h,
            decreases n - i,
        {
            if self.seen[i] == h {
                proof {
                    assert(self.seen_set().contains(h));
                    assert(self.seen_set().insert(h) =~= self.seen_set());
                    assert forall|i2: int, j2: int|
                        0 <= i2 < j2 < self.seen@.len() implies self.seen@[i2]
                        != self.seen@[j2] by {
                        assert(orig.seen@[i2] != orig.seen@[j2]);
                    }
                }
                return ;
            }
            i += 1;
        }
        proof {
            assert(!self.seen_set().contains(h)) by {
                if self.seen_set().contains(h) {
                    let k = choose|k: int| 0 <= k < self.seen@.len() && self.seen@[k] == h;
                }
            }
        }
        self.seen.push(h);
        self.visits = self.visits + 1;
        proof {
            assert(self.seen@.drop_last() =~= orig.seen@);
            assert(self.seen@ =~= orig.seen@.push(h));
            orig.seen@.lemma_push_to_set_commute(h);
            assert(self.seen_set() =~= orig.seen_set().insert(h));
            assert forall|i2: int, j2: int|
                0 <= i2 < j2 < self.seen@.len() implies self.seen@[i2] != self.seen@[j2] by {
                if j2 == self.seen@.len() - 1 {
                    assert(self.seen@[i2] == orig.seen@[i2]);
                    assert(orig.seen_set().contains(orig.seen@[i2]));
                }
            }
        }
    }

    /// Clear the dedup window; the counter and the persisted marker stand.
    pub fn reset_window(&mut self)
        requires
            old(self).wf(),
        ensures
            final(self).wf(),
            final(self).seen_set() == Set::<u64>::empty(),
            final(self).visits == old(self).visits,
            final(self).last_saved == old(self).last_saved,
    {
        self.seen.clear();
        proof {
            assert(self.seen@.to_set() =~= Set::<u64>::empty());
        }
    }

    /// Has the counter moved since it was last persisted? The persistence
    /// task writes only when this holds.
    pub fn needs_persist(&self) -> (r: bool)
        ensures
            r == (self.visits != self.last_saved),
    {
        self.visits != self.last_saved
    }

    /// Note that the current counter value has been durably written.
    pub fn mark_persisted(&mut self)
        requires
            old(self).wf(),
        ensures
            final(self).wf(),
            final(self).last_saved == final(self).visits,
            final(self).visits == old(self).visits,
            final(self).seen_set() == old(self).seen_set(),
    {
        self.last_saved = self.visits;
    }

    /// The current counter value.
    pub fn current_visits(&self) -> (r: u64)
        ensures
            r == self.visits,
    {
        self.visits
    }
}

} // verus!
