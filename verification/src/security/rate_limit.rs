use vstd::hash_map::StringHashMap;
use vstd::prelude::*;

verus! {

broadcast use vstd::string::group_string_axioms;

/// A point on the monotonic clock (`std::time::Instant`).
#[verifier::external_type_specification]
#[verifier::external_body]
pub struct ExInstant(std::time::Instant);

/// `Instant::now`: the current point of the monotonic clock. Nothing is promised of it.
#[verifier::external_body]
fn clock_now() -> std::time::Instant {
    std::time::Instant::now()
}

/// `Instant::elapsed`, in nanoseconds (`Duration::as_nanos`): the time since `start` on the
/// monotonic clock. Nothing is promised of the value, which depends on when it is called.
#[verifier::external_body]
fn nanos_since(start: &std::time::Instant) -> u128 {
    start.elapsed().as_nanos()
}

/// Seconds between two evictions of idle buckets.
pub const EVICTION_INTERVAL: u64 = 60;

/// Nanoseconds in a second.
pub const NANOS_PER_SEC: u128 = 1_000_000_000;

/// The token bucket of one key. Times are nanoseconds since the limiter was created.
#[derive(Clone, Copy, Debug, PartialEq, Eq, Structural)]
pub struct Bucket {
    pub tokens: u32,
    pub last_refill: u128,
}

/// A token-bucket rate limiter with one bucket per key.
pub struct RateLimiter {
    buckets: StringHashMap<Bucket>,
    keys: Vec<String>,
    capacity: u32,
    refill_rate: u32,
    last_eviction: u128,
    clock: std::time::Instant,
    last_seen: u128,
}

/// The mathematical content of a [`RateLimiter`].
pub struct LimiterView {
    pub buckets: Map<Seq<char>, Bucket>,
    pub capacity: u32,
    pub refill_rate: u32,
    pub last_eviction: u128,
}

/// Whole seconds from `then` to `now`; zero when `now` is earlier
/// (`Instant::duration_since` saturates).
pub open spec fn secs_between(now: u128, then: u128) -> u128 {
    if now >= then {
        ((now - then) as u128 / NANOS_PER_SEC) as u128
    } else {
        0
    }
}

/// `u32::saturating_mul`.
pub open spec fn sat_mul(a: u32, b: u32) -> u32 {
    if a * b > u32::MAX {
        u32::MAX
    } else {
        (a * b) as u32
    }
}

/// `u32::saturating_add`.
pub open spec fn sat_add(a: u32, b: u32) -> u32 {
    if a + b > u32::MAX {
        u32::MAX
    } else {
        (a + b) as u32
    }
}

/// Seconds after its last refill at which an idle bucket is dropped: twice the time a
/// bucket takes to refill (at least one second), or two minutes when nothing refills.
pub open spec fn stale_threshold(capacity: u32, refill_rate: u32) -> u128 {
    if refill_rate > 0 {
        let q = capacity / refill_rate;
        ((if q > 1 { q } else { 1 }) * 2) as u128
    } else {
        120
    }
}

/// A bucket is kept by an eviction at `now` when it was refilled less than the
/// threshold ago.
pub open spec fn bucket_fresh(b: Bucket, now: u128, threshold: u128) -> bool {
    secs_between(now, b.last_refill) < threshold
}

/// The limiter after the eviction step at time `now`: at most once per
/// [`EVICTION_INTERVAL`] seconds, every idle bucket is dropped.
pub open spec fn evict_spec(s: LimiterView, now: u128) -> LimiterView {
    if secs_between(now, s.last_eviction) < EVICTION_INTERVAL as u128 {
        s
    } else {
        let thr = stale_threshold(s.capacity, s.refill_rate);
        LimiterView {
            buckets: Map::new(
                |k: Seq<char>| s.buckets.contains_key(k) && bucket_fresh(s.buckets[k], now, thr),
                |k: Seq<char>| s.buckets[k],
            ),
            capacity: s.capacity,
            refill_rate: s.refill_rate,
            last_eviction: now,
        }
    }
}

/// The bucket of `key` before it is refilled at `now`: its current one, or a full new one.
pub open spec fn bucket_before(s: LimiterView, key: Seq<char>, now: u128) -> Bucket {
    if s.buckets.contains_key(key) {
        s.buckets[key]
    } else {
        Bucket { tokens: s.capacity, last_refill: now }
    }
}

/// A bucket refilled at `now`: whole elapsed seconds (taken modulo 2^32, as the `as u32`
/// cast does) times the refill rate, saturating, capped at the capacity.
pub open spec fn refilled(b: Bucket, now: u128, capacity: u32, refill_rate: u32) -> Bucket {
    let refill = sat_mul(secs_between(now, b.last_refill) as u32, refill_rate);
    if refill > 0 {
        Bucket {
            tokens: if sat_add(b.tokens, refill) < capacity { sat_add(b.tokens, refill) } else { capacity },
            last_refill: now,
        }
    } else {
        b
    }
}

/// One request for `key` at time `now`: evict idle buckets, refill the key's bucket, and
/// take one token if there is one. The request is allowed exactly when a token was taken.
pub open spec fn check_spec(s: LimiterView, key: Seq<char>, now: u128) -> (LimiterView, bool) {
    let e = evict_spec(s, now);
    let b = refilled(bucket_before(e, key, now), now, e.capacity, e.refill_rate);
    if b.tokens > 0 {
        (
            LimiterView {
                buckets: e.buckets.insert(key, Bucket { tokens: (b.tokens - 1) as u32, last_refill: b.last_refill }),
                ..e
            },
            true,
        )
    } else {
        (LimiterView { buckets: e.buckets.insert(key, b), ..e }, false)
    }
}

/// The keys of a list of strings.
pub open spec fn key_texts(v: Seq<String>) -> Seq<Seq<char>> {
    v.map_values(|s: String| s@)
}

impl View for RateLimiter {
    type V = LimiterView;

    closed spec fn view(&self) -> LimiterView {
        LimiterView {
            buckets: self.buckets@,
            capacity: self.capacity,
            refill_rate: self.refill_rate,
            last_eviction: self.last_eviction,
        }
    }
}

/// No bucket holds more tokens than the capacity.
pub open spec fn tokens_bounded(s: LimiterView) -> bool {
    forall|k: Seq<char>| #[trigger] s.buckets.contains_key(k) ==> s.buckets[k].tokens <= s.capacity
}

fn saturating_mul_u32(a: u32, b: u32) -> (r: u32)
    ensures
        r == sat_mul(a, b),
{
    match a.checked_mul(b) {
        Some(x) => x,
        None => u32::MAX,
    }
}

impl RateLimiter {
    /// The limiter is well formed: the key list names each bucket exactly once, and no
    /// bucket holds more tokens than the capacity.
    pub closed spec fn wf(&self) -> bool {
        &&& key_texts(self.keys@).no_duplicates()
        &&& key_texts(self.keys@).to_set() == self.buckets@.dom()
        &&& tokens_bounded(self@)
    }

    /// The latest time that [`RateLimiter::check`] has read from the clock (0 before the
    /// first read); the time it uses never goes below it.
    pub closed spec fn last_seen(&self) -> u128 {
        self.last_seen
    }

    /// A limiter whose buckets hold `capacity` tokens and gain `refill_rate` tokens per second.
    pub fn new(capacity: u32, refill_rate: u32) -> (r: Self)
        ensures
            r.wf(),
            tokens_bounded(r@),
            r.last_seen() == 0,
            r@.buckets == Map::<Seq<char>, Bucket>::empty(),
            r@.capacity == capacity,
            r@.refill_rate == refill_rate,
            r@.last_eviction == 0,
    {
        let r = Self {
            buckets: StringHashMap::new(),
            keys: Vec::new(),
            capacity,
            refill_rate,
            last_eviction: 0,
            clock: clock_now(),
            last_seen: 0,
        };
        assert(key_texts(r.keys@) =~= Seq::<Seq<char>>::empty());
        assert(key_texts(r.keys@).to_set() =~= r.buckets@.dom());
        r
    }

    /// Whether a request for `key` is allowed now; it takes a token from the key's bucket
    /// when it is. The time is read from the monotonic clock, so the contract holds for
    /// some time `t`, not a given one; `t` is never earlier than the time of the previous
    /// call (a reading below it, which a monotonic clock does not give, counts as that time).
    pub fn check(&mut self, key: &str) -> (allowed: bool)
        requires
            old(self).wf(),
        ensures
            final(self).wf(),
            tokens_bounded(final(self)@),
            exists|t: u128|
                #![trigger check_spec(old(self)@, key@, t)]
                t >= old(self).last_seen() && final(self).last_seen() == t && (final(self)@, allowed)
                    == check_spec(old(self)@, key@, t),
    {
        let read = nanos_since(&self.clock);
        let now = if read < self.last_seen { self.last_seen } else { read };
        let r = self.check_at(key, now);
        self.last_seen = now;
        assert((self@, r) == check_spec(old(self)@, key@, now));
        r
    }

    /// Whether a request for `key` at `now` (nanoseconds since the limiter was created) is
    /// allowed; it takes a token from the key's bucket when it is.
    pub fn check_at(&mut self, key: &str, now: u128) -> (allowed: bool)
        requires
            old(self).wf(),
        ensures
            final(self).wf(),
            tokens_bounded(final(self)@),
            final(self).last_seen() == old(self).last_seen(),
            (final(self)@, allowed) == check_spec(old(self)@, key@, now),
    {
        self.maybe_evict(now);
        let ghost e = self@;
        let existing = self.buckets.get(key);
        let is_new = existing.is_none();
        let mut b = match existing {
            Some(b) => *b,
            None => Bucket { tokens: self.capacity, last_refill: now },
        };
        assert(b == bucket_before(e, key@, now));
        let elapsed: u128 = if now >= b.last_refill {
            (now - b.last_refill) / NANOS_PER_SEC
        } else {
            0
        };
        let refill = saturating_mul_u32(elapsed as u32, self.refill_rate);
        if refill > 0 {
            let t = b.tokens.saturating_add(refill);
            b.tokens = if t < self.capacity { t } else { self.capacity };
            b.last_refill = now;
        }
        assert(b == refilled(bucket_before(e, key@, now), now, e.capacity, e.refill_rate));
        let allowed = if b.tokens > 0 {
            b.tokens = b.tokens - 1;
            true
        } else {
            false
        };
        let ghost keys_before = key_texts(self.keys@);
        self.buckets.insert(key.to_owned(), b);
        if is_new {
            self.keys.push(key.to_owned());
            assert(key_texts(self.keys@) =~= keys_before.push(key@));
            assert(!keys_before.contains(key@));
            assert(key_texts(self.keys@).to_set() =~= self.buckets@.dom()) by {
                assert forall|k: Seq<char>| #[trigger] key_texts(self.keys@).contains(k) <==> (
                keys_before.contains(k) || k == key@) by {
                    if key_texts(self.keys@).contains(k) {
                        let j = choose|j: int|
                            0 <= j < key_texts(self.keys@).len() && #[trigger] key_texts(self.keys@)[j] == k;
                        if j < keys_before.len() {
                            assert(keys_before[j] == k);
                        }
                    }
                    if keys_before.contains(k) {
                        let j = choose|j: int| 0 <= j < keys_before.len() && #[trigger] keys_before[j] == k;
                        assert(key_texts(self.keys@)[j] == k);
                    }
                    if k == key@ {
                        assert(key_texts(self.keys@)[keys_before.len() as int] == k);
                    }
                }
            }
            assert(key_texts(self.keys@).no_duplicates()) by {
                assert forall|i: int, j: int|
                    0 <= i < key_texts(self.keys@).len() && 0 <= j < key_texts(self.keys@).len()
                        && i != j implies key_texts(self.keys@)[i] != key_texts(self.keys@)[j] by {
                    if i < keys_before.len() && j < keys_before.len() {
                    } else if i < keys_before.len() {
                        assert(keys_before.contains(keys_before[i]));
                    } else if j < keys_before.len() {
                        assert(keys_before.contains(keys_before[j]));
                    }
                }
            }
        } else {
            assert(self.buckets@.dom() =~= e.buckets.dom());
        }
        allowed
    }

    /// At most once per [`EVICTION_INTERVAL`] seconds, drop every bucket that has been idle
    /// for longer than the stale threshold.
    fn maybe_evict(&mut self, now: u128)
        requires
            old(self).wf(),
        ensures
            final(self).wf(),
            final(self).last_seen == old(self).last_seen,
            final(self)@ == evict_spec(old(self)@, now),
    {
        let since: u128 = if now >= self.last_eviction {
            (now - self.last_eviction) / NANOS_PER_SEC
        } else {
            0
        };
        if since < EVICTION_INTERVAL as u128 {
            return;
        }
        self.last_eviction = now;
        let threshold: u128 = if self.refill_rate > 0 {
            let q = self.capacity / self.refill_rate;
            (if q > 1 { q } else { 1 }) as u128 * 2
        } else {
            120
        };
        let ghost m0 = self.buckets@;
        let ghost ks = key_texts(self.keys@);
        let mut kept: Vec<String> = Vec::new();
        let n = self.keys.len();
        for i in 0..n
            invariant
                n == self.keys@.len(),
                self.capacity == old(self).capacity,
                self.last_seen == old(self).last_seen,
                self.refill_rate == old(self).refill_rate,
                self.last_eviction == now,
                m0 == old(self).buckets@,
                ks == key_texts(self.keys@),
                ks.no_duplicates(),
                ks.to_set() == m0.dom(),
                threshold == stale_threshold(self.capacity, self.refill_rate),
                forall|k: Seq<char>| #[trigger]
                    self.buckets@.contains_key(k) <==> (m0.contains_key(k) && (!bucket_fresh(
                        m0[k],
                        now,
                        threshold,
                    ) ==> !ks.take(i as int).contains(k))),
                forall|k: Seq<char>| #[trigger]
                    self.buckets@.contains_key(k) ==> self.buckets@[k] == m0[k],
                key_texts(kept@).no_duplicates(),
                forall|k: Seq<char>| #[trigger]
                    key_texts(kept@).contains(k) <==> (ks.take(i as int).contains(k)
                        && m0.contains_key(k) && bucket_fresh(m0[k], now, threshold)),
        {
            let ghost k_i = ks[i as int];
            assert(ks.take(i + 1) =~= ks.take(i as int).push(k_i));
            assert(m0.contains_key(k_i)) by {
                assert(ks.contains(k_i));
            }
            assert(!ks.take(i as int).contains(k_i)) by {
                if ks.take(i as int).contains(k_i) {
                    let j = choose|j: int| 0 <= j < i && #[trigger] ks.take(i as int)[j] == k_i;
                    assert(ks[j] == ks[i as int]);
                }
            }
            let ghost kept_before = key_texts(kept@);
            let stale = match self.buckets.get(self.keys[i].as_str()) {
                Some(b) => {
                    let s: u128 = if now >= b.last_refill {
                        (now - b.last_refill) / NANOS_PER_SEC
                    } else {
                        0
                    };
                    s >= threshold
                },
                None => false,
            };
            assert(self.buckets@.contains_key(k_i));
            assert(stale == !bucket_fresh(m0[k_i], now, threshold));
            if stale {
                self.buckets.remove(self.keys[i].as_str());
            } else {
                kept.push(self.keys[i].clone());
                assert(key_texts(kept@) =~= kept_before.push(k_i));
                assert(key_texts(kept@).no_duplicates()) by {
                    assert forall|a: int, c: int|
                        0 <= a < key_texts(kept@).len() && 0 <= c < key_texts(kept@).len() && a
                            != c implies key_texts(kept@)[a] != key_texts(kept@)[c] by {
                        if a < kept_before.len() && c < kept_before.len() {
                        } else if a < kept_before.len() {
                            assert(kept_before.contains(kept_before[a]));
                        } else if c < kept_before.len() {
                            assert(kept_before.contains(kept_before[c]));
                        }
                    }
                }
            }
            assert forall|k: Seq<char>| #[trigger]
                key_texts(kept@).contains(k) <==> (ks.take(i + 1).contains(k)
                    && m0.contains_key(k) && bucket_fresh(m0[k], now, threshold)) by {
                assert(ks.take(i + 1).contains(k) <==> (ks.take(i as int).contains(k) || k == k_i))
                    by {
                    if ks.take(i + 1).contains(k) {
                        let j = choose|j: int| 0 <= j < i + 1 && #[trigger] ks.take(i + 1)[j] == k;
                        if j < i {
                            assert(ks.take(i as int)[j] == k);
                        }
                    }
                    if ks.take(i as int).contains(k) {
                        let j = choose|j: int| 0 <= j < i && #[trigger] ks.take(i as int)[j] == k;
                        assert(ks.take(i + 1)[j] == k);
                    }
                    if k == k_i {
                        assert(ks.take(i + 1)[i as int] == k);
                    }
                }
                if !stale {
                    if key_texts(kept@).contains(k) && k != k_i {
                        let j = choose|j: int|
                            0 <= j < key_texts(kept@).len() && #[trigger] key_texts(kept@)[j] == k;
                        assert(kept_before[j] == k);
                    }
                    if kept_before.contains(k) {
                        let j = choose|j: int| 0 <= j < kept_before.len() && #[trigger] kept_before[j] == k;
                        assert(key_texts(kept@)[j] == k);
                    }
                    if k == k_i {
                        assert(key_texts(kept@)[kept_before.len() as int] == k);
                    }
                }
            }
            assert forall|k: Seq<char>| #[trigger]
                self.buckets@.contains_key(k) <==> (m0.contains_key(k) && (!bucket_fresh(
                    m0[k],
                    now,
                    threshold,
                ) ==> !ks.take(i + 1).contains(k))) by {
                assert(ks.take(i + 1).contains(k) <==> (ks.take(i as int).contains(k) || k == k_i))
                    by {
                    if ks.take(i + 1).contains(k) {
                        let j = choose|j: int| 0 <= j < i + 1 && #[trigger] ks.take(i + 1)[j] == k;
                        if j < i {
                            assert(ks.take(i as int)[j] == k);
                        }
                    }
                    if ks.take(i as int).contains(k) {
                        let j = choose|j: int| 0 <= j < i && #[trigger] ks.take(i as int)[j] == k;
                        assert(ks.take(i + 1)[j] == k);
                    }
                    if k == k_i {
                        assert(ks.take(i + 1)[i as int] == k);
                    }
                }
            }
        }
        assert(ks.take(n as int) =~= ks);
        let ghost target = evict_spec(old(self)@, now).buckets;
        assert(self.buckets@ =~= target) by {
            assert forall|k: Seq<char>| #[trigger] self.buckets@.contains_key(k) <==> target.contains_key(k) by {
                if m0.contains_key(k) {
                    assert(ks.to_set().contains(k));
                }
            }
        }
        self.keys = kept;
        assert(key_texts(self.keys@).to_set() =~= self.buckets@.dom()) by {
            assert forall|k: Seq<char>| #[trigger] key_texts(self.keys@).to_set().contains(k) <==> self.buckets@.dom().contains(k) by {
                if m0.contains_key(k) {
                    assert(ks.to_set().contains(k));
                }
            }
        }
        assert(tokens_bounded(self@)) by {
            assert forall|k: Seq<char>| #[trigger] self@.buckets.contains_key(k) implies self@.buckets[k].tokens <= self@.capacity by {
                assert(m0.contains_key(k));
                assert(old(self)@.buckets.contains_key(k));
            }
        }
        assert(self@ == evict_spec(old(self)@, now));
    }

    /// The number of keys that currently have a bucket.
    pub fn bucket_count(&self) -> (n: usize)
        ensures
            n == self@.buckets.len(),
    {
        self.buckets.len()
    }

    /// The tokens left in the bucket of `key`, if it has one.
    pub fn tokens(&self, key: &str) -> (t: Option<u32>)
        ensures
            t == (if self@.buckets.contains_key(key@) {
                Some(self@.buckets[key@].tokens)
            } else {
                None::<u32>
            }),
    {
        match self.buckets.get(key) {
            Some(b) => Some(b.tokens),
            None => None,
        }
    }
}

/// `n` requests for `key`, all at time `now`.
pub open spec fn checks_at(s: LimiterView, key: Seq<char>, now: u128, n: nat) -> LimiterView
    decreases n,
{
    if n == 0 {
        s
    } else {
        check_spec(checks_at(s, key, now, (n - 1) as nat), key, now).0
    }
}

/// No bucket ever holds more tokens than the capacity: a request keeps that bound.
pub proof fn lemma_check_keeps_tokens_bounded(s: LimiterView, key: Seq<char>, now: u128)
    requires
        tokens_bounded(s),
    ensures
        tokens_bounded(check_spec(s, key, now).0),
        check_spec(s, key, now).0.capacity == s.capacity,
{
    let e = evict_spec(s, now);
    assert(tokens_bounded(e));
}

/// A request for one key touches no other key's bucket: another key keeps its bucket, or
/// loses it only to the eviction of idle buckets.
pub proof fn lemma_buckets_are_per_key(s: LimiterView, key: Seq<char>, other: Seq<char>, now: u128)
    requires
        other != key,
    ensures
        check_spec(s, key, now).0.buckets.contains_key(other) == evict_spec(
            s,
            now,
        ).buckets.contains_key(other),
        check_spec(s, key, now).0.buckets.contains_key(other) ==> check_spec(
            s,
            key,
            now,
        ).0.buckets[other] == s.buckets[other],
{
}

/// After a request, the keys with a bucket are those that survived the eviction, and the
/// requested key.
pub proof fn lemma_check_bucket_keys(s: LimiterView, key: Seq<char>, now: u128)
    ensures
        check_spec(s, key, now).0.buckets.dom() == evict_spec(s, now).buckets.dom().insert(key),
{
    assert(check_spec(s, key, now).0.buckets.dom() =~= evict_spec(s, now).buckets.dom().insert(
        key,
    ));
}

/// Tokens come back with time: when buckets refill at all, a key whose bucket was last
/// refilled at least a second ago (and less than 2^32 seconds ago) is allowed its request,
/// whether or not its bucket was evicted in the meantime.
pub proof fn lemma_waiting_a_second_refills(s: LimiterView, key: Seq<char>, now: u128)
    requires
        s.capacity > 0,
        s.refill_rate > 0,
        s.buckets.contains_key(key) ==> 1 <= secs_between(now, s.buckets[key].last_refill)
            < 0x1_0000_0000,
    ensures
        check_spec(s, key, now).1,
{
    let e = evict_spec(s, now);
    if e.buckets.contains_key(key) {
        let b = e.buckets[key];
        assert(b == s.buckets[key]);
        let el = secs_between(now, b.last_refill);
        assert((el as u32) as int == el);
        assert(sat_mul(el as u32, e.refill_rate) >= 1) by (nonlinear_arith)
            requires
                el as u32 >= 1,
                e.refill_rate >= 1,
        {
        }
    } else {
        assert(secs_between(now, now) == 0);
        assert(sat_mul(0, e.refill_rate) == 0);
    }
}

/// A key seen for the first time gets a full bucket: of requests made at one instant, the
/// first `capacity` are allowed, after which its bucket is empty and requests are refused.
pub proof fn lemma_burst_up_to_capacity(s: LimiterView, key: Seq<char>, now: u128, n: nat)
    requires
        !s.buckets.contains_key(key),
        1 <= n <= s.capacity,
    ensures
        checks_at(s, key, now, n).buckets.contains_key(key),
        checks_at(s, key, now, n).buckets[key] == (Bucket {
            tokens: (s.capacity - n) as u32,
            last_refill: now,
        }),
        checks_at(s, key, now, n).capacity == s.capacity,
        secs_between(now, checks_at(s, key, now, n).last_eviction) < EVICTION_INTERVAL as u128,
        check_spec(checks_at(s, key, now, (n - 1) as nat), key, now).1,
        n == s.capacity ==> !check_spec(checks_at(s, key, now, n), key, now).1,
    decreases n,
{
    if n == 1 {
        assert(checks_at(s, key, now, 0) == s);
        let e = evict_spec(s, now);
        assert(!e.buckets.contains_key(key));
        assert(secs_between(now, now) == 0);
    } else {
        lemma_burst_up_to_capacity(s, key, now, (n - 1) as nat);
        let p = checks_at(s, key, now, (n - 1) as nat);
        assert(evict_spec(p, now) == p);
        assert(secs_between(now, now) == 0);
        assert(sat_mul(0, p.refill_rate) == 0);
    }
    let q = checks_at(s, key, now, n);
    if n == s.capacity {
        assert(evict_spec(q, now) == q);
        assert(secs_between(now, now) == 0);
        assert(sat_mul(0, q.refill_rate) == 0);
    }
}


/// A request within a second of its bucket's last refill adds no tokens and leaves the time
/// of that refill as it was: it takes a token when one is left and is refused otherwise. So
/// refused requests do not push back the time from which tokens come back.
pub proof fn lemma_no_refill_keeps_refill_time(s: LimiterView, key: Seq<char>, now: u128)
    requires
        s.buckets.contains_key(key),
        now < s.buckets[key].last_refill + 1_000_000_000,
    ensures
        ({
            let b = s.buckets[key];
            let (after, allowed) = check_spec(s, key, now);
            &&& allowed == (b.tokens > 0)
            &&& after.buckets.contains_key(key)
            &&& after.buckets[key].last_refill == b.last_refill
            &&& after.buckets[key].tokens == if b.tokens > 0 {
                b.tokens - 1
            } else {
                0
            }
        }),
{
    let b = s.buckets[key];
    assert(secs_between(now, b.last_refill) == 0) by {
        if now >= b.last_refill {
            assert((now - b.last_refill) as u128 / NANOS_PER_SEC == 0) by (nonlinear_arith)
                requires
                    now - b.last_refill < 1_000_000_000,
                    now >= b.last_refill,
                    NANOS_PER_SEC == 1_000_000_000,
            ;
        }
    }
    assert(sat_mul(0, s.refill_rate) == 0);
    let thr = stale_threshold(s.capacity, s.refill_rate);
    assert(thr >= 2) by (nonlinear_arith)
        requires
            thr == stale_threshold(s.capacity, s.refill_rate),
    ;
    let e = evict_spec(s, now);
    assert(e.buckets.contains_key(key) && e.buckets[key] == b);
}

/// A second or more after its bucket's last refill, a request finds the bucket refilled by
/// the refill rate for each whole second that passed, up to the capacity, with the refill
/// time moved to now; it is allowed exactly when that leaves a token, which it takes. This
/// holds whether or not the bucket was dropped as idle in the meantime.
pub proof fn lemma_refill_by_elapsed_seconds(s: LimiterView, key: Seq<char>, now: u128)
    requires
        tokens_bounded(s),
        s.refill_rate > 0,
        s.buckets.contains_key(key),
        s.buckets[key].last_refill + 1_000_000_000 <= now,
        (now - s.buckets[key].last_refill) / 1_000_000_000 < 0x1_0000_0000,
    ensures
        ({
            let b = s.buckets[key];
            let secs = (now - b.last_refill) / 1_000_000_000;
            let full = if b.tokens + secs * s.refill_rate < s.capacity {
                b.tokens + secs * s.refill_rate
            } else {
                s.capacity as int
            };
            let (after, allowed) = check_spec(s, key, now);
            &&& allowed == (full > 0)
            &&& after.buckets.contains_key(key)
            &&& after.buckets[key].last_refill == now
            &&& after.buckets[key].tokens == if full > 0 {
                full - 1
            } else {
                0
            }
        }),
{
    let b = s.buckets[key];
    let secs: int = (now - b.last_refill) / 1_000_000_000;
    let rate = s.refill_rate;
    let cap = s.capacity;
    assert(b.tokens <= cap);
    assert(secs >= 1) by (nonlinear_arith)
        requires
            secs == (now - b.last_refill) / 1_000_000_000,
            now - b.last_refill >= 1_000_000_000,
    ;
    assert(secs_between(now, b.last_refill) == secs);
    assert((secs as u128) as u32 == secs);
    let full = if b.tokens + secs * rate < cap {
        b.tokens + secs * rate
    } else {
        cap as int
    };
    assert(secs * rate >= 1) by (nonlinear_arith)
        requires
            secs >= 1,
            rate >= 1,
    ;
    let e = evict_spec(s, now);
    if e.buckets.contains_key(key) {
        assert(e.buckets[key] == b);
        let m = sat_mul(secs as u32, rate);
        assert(m >= 1);
        assert(m == secs * rate || (m == u32::MAX && secs * rate > u32::MAX));
    } else {
        let thr = stale_threshold(cap, rate);
        assert(!bucket_fresh(b, now, thr));
        assert(secs >= thr);
        let q = cap / rate;
        assert(secs * rate >= cap) by (nonlinear_arith)
            requires
                rate >= 1,
                q == cap / rate,
                secs >= (if q > 1 { q } else { 1 }) * 2,
        {
            assert(cap < (q + 1) * rate);
            assert(secs * rate >= ((if q > 1 { q } else { 1 }) * 2) * rate);
        }
        assert(full == cap);
        assert(secs_between(now, now) == 0);
        assert(0 * rate == 0);
        assert(sat_mul(0, rate) == 0);
    }
}

} // verus!
