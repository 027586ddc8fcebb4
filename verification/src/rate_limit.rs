//! Per-IP token bucket rate limiting for gateway message processing.
//!
//! Token amounts are exact integers in millionths of a token, times are in
//! microseconds on a monotonic clock chosen by the caller.

use vstd::prelude::*;
use std::collections::HashMap;

verus! {

broadcast use vstd::std_specs::hash::group_hash_axioms;

/// One token, in millionths.
pub const TOKEN: u64 = 1000000;

/// Microseconds per second.
pub const SECOND_US: u64 = 1000000;

/// The bucket of one client.
#[derive(Debug, Clone, Copy)]
pub struct TokenBucket {
    /// Tokens available, in millionths.
    pub tokens: u64,
    /// When tokens were last added, in microseconds.
    pub last_refill_us: u64,
}

/// A client address: IPv4 or IPv6, as its bits.
#[derive(Debug, Clone, Copy)]
pub enum IpKey {
    V4(u32),
    V6(u128),
}

/// The bucket after refilling it at `now`: the tokens earned since the last
/// refill (rounded down to a millionth), at most `capacity`.
pub open spec fn refilled(b: TokenBucket, now: u64, capacity: u64, rate: u64) -> TokenBucket {
    if now > b.last_refill_us {
        let earned = (now - b.last_refill_us) * rate / (SECOND_US as int);
        TokenBucket {
            tokens: if b.tokens + earned > capacity {
                capacity
            } else {
                (b.tokens + earned) as u64
            },
            last_refill_us: now,
        }
    } else {
        b
    }
}

/// Whole seconds until `missing` tokens are earned at `rate`, at least one.
pub open spec fn retry_after(missing: nat, rate: nat) -> nat {
    let s = (missing + rate - 1) / (rate as int);
    if s < 1 {
        1
    } else {
        s as nat
    }
}

/// Taking `cost` from a refilled bucket: allowed when it holds enough, with
/// the cost taken; else refused with the seconds to wait, the bucket kept.
pub open spec fn take(b: TokenBucket, cost: u64, rate: u64) -> (TokenBucket, Option<u64>) {
    if b.tokens >= cost {
        (TokenBucket { tokens: (b.tokens - cost) as u64, last_refill_us: b.last_refill_us }, None)
    } else {
        (b, Some(retry_after((cost - b.tokens) as nat, rate as nat) as u64))
    }
}

/// The cost actually charged: at least one token.
pub open spec fn charged(cost: u64) -> u64 {
    if cost < TOKEN {
        TOKEN
    } else {
        cost
    }
}

/// Shared per-IP token bucket limiter.
pub struct IpRateLimiter {
    capacity: u64,
    refill_per_sec: u64,
    v4: HashMap<u32, TokenBucket>,
    v6: HashMap<u128, TokenBucket>,
}

impl IpRateLimiter {
    /// Bucket capacity, in millionths of a token.
    pub closed spec fn capacity_spec(&self) -> u64 {
        self.capacity
    }

    /// Refill rate, in millionths of a token per second.
    pub closed spec fn rate_spec(&self) -> u64 {
        self.refill_per_sec
    }

    /// The bucket of a client, if it has one.
    pub closed spec fn bucket(&self, key: IpKey) -> Option<TokenBucket> {
        match key {
            IpKey::V4(a) => if self.v4@.contains_key(a) {
                Some(self.v4@[a])
            } else {
                None
            },
            IpKey::V6(a) => if self.v6@.contains_key(a) {
                Some(self.v6@[a])
            } else {
                None
            },
        }
    }

    /// Well-formed: capacity at least one token, rate at least a tenth of a
    /// token per second, and no bucket above capacity.
    pub closed spec fn wf(&self) -> bool {
        &&& self.capacity >= TOKEN
        &&& self.refill_per_sec >= TOKEN / 10
        &&& forall|a: u32| #[trigger] self.v4@.contains_key(a) ==> self.v4@[a].tokens <= self.capacity
        &&& forall|a: u128| #[trigger] self.v6@.contains_key(a) ==> self.v6@[a].tokens <= self.capacity
    }

    /// No client's bucket holds more than the capacity.
    pub open spec fn within_capacity(&self) -> bool {
        forall|k: IpKey| #[trigger] self.bucket(k) is Some ==> self.bucket(k)->0.tokens <= self.capacity_spec()
    }

    /// What a well-formed limiter guarantees: no bucket above capacity, a
    /// capacity of at least one token, and a rate of at least a tenth of a
    /// token per second.
    pub proof fn lemma_wf_bounds(&self)
        requires
            self.wf(),
        ensures
            self.within_capacity(),
            self.capacity_spec() >= TOKEN,
            self.rate_spec() >= TOKEN / 10,
    {
        assert forall|k: IpKey| #[trigger] self.bucket(k) is Some implies self.bucket(k)->0.tokens
            <= self.capacity_spec() by {
            match k {
                IpKey::V4(a) => {},
                IpKey::V6(a) => {},
            }
        }
    }

    /// A new limiter; capacity is raised to one token and the rate to a
    /// tenth of a token per second when lower.
    pub fn new(capacity: u64, refill_per_sec: u64) -> (l: IpRateLimiter)
        ensures
            l.wf(),
            l.within_capacity(),
            l.capacity_spec() == (if capacity < TOKEN {
                TOKEN
            } else {
                capacity
            }),
            l.rate_spec() == (if refill_per_sec < TOKEN / 10 {
                TOKEN / 10
            } else {
                refill_per_sec
            }),
            forall|k: IpKey| l.bucket(k) is None,
    {
        let l = IpRateLimiter {
            capacity: if capacity < TOKEN {
                TOKEN
            } else {
                capacity
            },
            refill_per_sec: if refill_per_sec < TOKEN / 10 {
                TOKEN / 10
            } else {
                refill_per_sec
            },
            v4: HashMap::new(),
            v6: HashMap::new(),
        };
        proof {
            l.lemma_wf_bounds();
        }
        l
    }

    /// The bucket of a client before a request at `now`: its own, or a full
    /// new one.
    pub open spec fn current(&self, key: IpKey, now: u64) -> TokenBucket {
        match self.bucket(key) {
            Some(b) => b,
            None => TokenBucket { tokens: self.capacity_spec(), last_refill_us: now },
        }
    }

    /// Try to consume `cost` (millionths of a token, at least one token is
    /// charged) for `key` at time `now`.
    ///
    /// Returns `None` when the request is allowed, and `Some(retry_after_secs)`
    /// when it is rate-limited.
    pub fn consume(&mut self, key: IpKey, now: u64, cost: u64) -> (r: Option<u64>)
        requires
            old(self).wf(),
        ensures
            final(self).wf(),
            final(self).within_capacity(),
            final(self).capacity_spec() == old(self).capacity_spec(),
            final(self).rate_spec() == old(self).rate_spec(),
            ({
                let b = refilled(
                    old(self).current(key, now),
                    now,
                    old(self).capacity_spec(),
                    old(self).rate_spec(),
                );
                let (after, res) = take(b, charged(cost), old(self).rate_spec());
                r == res && final(self).bucket(key) == Some(after)
            }),
            forall|k: IpKey| !same_client(k, key) ==> final(self).bucket(k) == old(self).bucket(k),
    {
        let cost = if cost < TOKEN {
            TOKEN
        } else {
            cost
        };
        let fresh = TokenBucket { tokens: self.capacity, last_refill_us: now };
        let mut b = match key {
            IpKey::V4(a) => match self.v4.get(&a) {
                Some(b) => *b,
                None => fresh,
            },
            IpKey::V6(a) => match self.v6.get(&a) {
                Some(b) => *b,
                None => fresh,
            },
        };
        assert(b == old(self).current(key, now));
        if now > b.last_refill_us {
            let dt = (now - b.last_refill_us) as u128;
            let rate = self.refill_per_sec as u128;
            assert(dt * rate <= 0xffff_ffff_ffff_ffffu128 * 0xffff_ffff_ffff_ffffu128) by (nonlinear_arith)
                requires
                    dt <= 0xffff_ffff_ffff_ffffu128,
                    rate <= 0xffff_ffff_ffff_ffffu128,
            ;
            let earned = dt * rate / (SECOND_US as u128);
            let total = (b.tokens as u128) + earned;
            b.tokens = if total > (self.capacity as u128) {
                self.capacity
            } else {
                total as u64
            };
            b.last_refill_us = now;
        }
        let result = if b.tokens >= cost {
            b.tokens = b.tokens - cost;
            None
        } else {
            let missing = cost - b.tokens;
            let rate = self.refill_per_sec;
            let secs: u128 = ((missing as u128) + (rate as u128) - 1) / (rate as u128);
            assert(secs <= missing) by (nonlinear_arith)
                requires
                    secs as int == (missing as int + rate as int - 1) / (rate as int),
                    missing >= 1,
                    rate >= 1,
            {
                assert((missing as int - 1) * (rate as int - 1) >= 0);
            }
            Some(if secs < 1 {
                1
            } else {
                secs as u64
            })
        };
        match key {
            IpKey::V4(a) => {
                self.v4.insert(a, b);
            },
            IpKey::V6(a) => {
                self.v6.insert(a, b);
            },
        }
        proof {
            self.lemma_wf_bounds();
        }
        result
    }
}

/// A bucket refilled at an instant no later than its last refill is unchanged:
/// requests at one instant draw on the same tokens.
pub proof fn lemma_no_refill_without_time(b: TokenBucket, now: u64, capacity: u64, rate: u64)
    requires
        now <= b.last_refill_us,
    ensures
        refilled(b, now, capacity, rate) == b,
{
}

/// Refilling never takes tokens away and never goes above capacity.
pub proof fn lemma_refill_bounds(b: TokenBucket, now: u64, capacity: u64, rate: u64)
    requires
        b.tokens <= capacity,
    ensures
        b.tokens <= refilled(b, now, capacity, rate).tokens <= capacity,
        refilled(b, now, capacity, rate).last_refill_us >= b.last_refill_us,
{
    if now > b.last_refill_us {
        let earned = (now - b.last_refill_us) * rate / (SECOND_US as int);
        assert(earned >= 0) by (nonlinear_arith)
            requires
                now > b.last_refill_us,
                earned == (now - b.last_refill_us) * rate / (SECOND_US as int),
        ;
    }
}

/// Refilling a bucket at `now` adds the tokens earned since its last refill,
/// `(now - last) * rate / 1_000_000` millionths rounded down, up to the
/// capacity, and moves its clock to `now`. Refilling in two steps earns what
/// one refill over the whole interval earns, short of at most one millionth
/// of a token to rounding: no fraction of a second is lost.
pub proof fn lemma_refill_in_steps(b: TokenBucket, t1: u64, t2: u64, capacity: u64, rate: u64)
    requires
        b.last_refill_us <= t1 <= t2,
        b.tokens <= capacity,
    ensures
        b.last_refill_us < t2 ==> refilled(b, t2, capacity, rate).tokens == (if b.tokens + (t2
            - b.last_refill_us) * rate / 1_000_000 > capacity {
            capacity as int
        } else {
            b.tokens + (t2 - b.last_refill_us) * rate / 1_000_000
        }) && refilled(b, t2, capacity, rate).last_refill_us == t2,
        ({
            let once = refilled(b, t2, capacity, rate);
            let twice = refilled(refilled(b, t1, capacity, rate), t2, capacity, rate);
            &&& twice.last_refill_us == once.last_refill_us
            &&& twice.tokens <= once.tokens <= twice.tokens + 1
        }),
{
    let m: int = 1_000_000;
    let x: int = (t1 - b.last_refill_us) * rate;
    let y: int = (t2 - t1) * rate;
    assert(x >= 0 && y >= 0) by (nonlinear_arith)
        requires
            x == (t1 - b.last_refill_us) * rate,
            y == (t2 - t1) * rate,
            t1 >= b.last_refill_us,
            t2 >= t1,
            rate >= 0,
    ;
    assert(x + y == (t2 - b.last_refill_us) * rate) by (nonlinear_arith)
        requires
            x == (t1 - b.last_refill_us) * rate,
            y == (t2 - t1) * rate,
    ;
    assert(x / m + y / m <= (x + y) / m <= x / m + y / m + 1) by (nonlinear_arith)
        requires
            x >= 0,
            y >= 0,
            m == 1_000_000,
    {
        vstd::arithmetic::div_mod::lemma_fundamental_div_mod(x, m);
        vstd::arithmetic::div_mod::lemma_fundamental_div_mod(y, m);
        vstd::arithmetic::div_mod::lemma_fundamental_div_mod(x + y, m);
    }
}

/// A request is allowed exactly when the bucket holds its cost, and then
/// spends exactly that cost; a refused request spends nothing. Every request
/// is charged at least one token, and a dearer one its own cost.
pub proof fn lemma_take_spends_exactly(b: TokenBucket, cost: u64, rate: u64)
    ensures
        charged(cost) >= TOKEN,
        cost >= TOKEN ==> charged(cost) == cost,
        take(b, cost, rate).1 is None <==> b.tokens >= cost,
        take(b, cost, rate).1 is None ==> take(b, cost, rate).0.tokens + cost == b.tokens
            && take(b, cost, rate).0.last_refill_us == b.last_refill_us,
        take(b, cost, rate).1 is Some ==> take(b, cost, rate).0 == b,
{
}

/// The wait that a refused request is told is long enough and no longer than
/// needed: after `s` whole seconds at `rate`, the missing tokens are earned,
/// and one second less would not do (when more than one second is asked).
pub proof fn lemma_retry_after_exact(missing: nat, rate: nat)
    requires
        missing >= 1,
        rate >= 1,
    ensures
        retry_after(missing, rate) >= 1,
        retry_after(missing, rate) * rate >= missing,
        retry_after(missing, rate) > 1 ==> (retry_after(missing, rate) - 1) * rate < missing,
        retry_after(missing, rate) <= missing,
{
    let s = (missing + rate - 1) / (rate as int);
    assert(s * rate >= missing && (s - 1) * rate < missing && s >= 1 && s <= missing)
        by (nonlinear_arith)
        requires
            missing >= 1,
            rate >= 1,
            s == (missing + rate - 1) / (rate as int),
    {
        assert((missing - 1) * (rate - 1) >= 0);
    }
}

/// A request refused at `now` succeeds when the same client asks again for
/// the same cost after the advertised number of seconds, provided the cost
/// fits in the bucket at all, the clock does not run backwards and no other
/// request came in between.
pub proof fn lemma_retry_after_succeeds(
    b: TokenBucket,
    now: u64,
    capacity: u64,
    rate: u64,
    cost: u64,
)
    requires
        b.tokens <= capacity,
        b.last_refill_us <= now,
        rate >= 1,
        cost <= capacity,
        take(refilled(b, now, capacity, rate), cost, rate).1 is Some,
        now + take(refilled(b, now, capacity, rate), cost, rate).1->0 * SECOND_US <= u64::MAX,
    ensures
        ({
            let b1 = take(refilled(b, now, capacity, rate), cost, rate).0;
            let wait = take(refilled(b, now, capacity, rate), cost, rate).1->0;
            let later = (now + wait * SECOND_US) as u64;
            take(refilled(b1, later, capacity, rate), cost, rate).1 is None
        }),
{
    let r = refilled(b, now, capacity, rate);
    lemma_refill_bounds(b, now, capacity, rate);
    let missing = (cost - r.tokens) as nat;
    lemma_retry_after_exact(missing, rate as nat);
    let s = retry_after(missing, rate as nat);
    let b1 = take(r, cost, rate).0;
    assert(b1 == r);
    let later = (now + s * SECOND_US) as u64;
    // the wait is at least one second, so time has passed since the refill
    let dt = later - r.last_refill_us;
    assert(dt == s * SECOND_US);
    let earned = dt * rate / (SECOND_US as int);
    assert(earned == s * rate) by (nonlinear_arith)
        requires
            dt == s * SECOND_US,
            earned == dt * rate / (SECOND_US as int),
    ;
}

/// The bucket after `n` requests of `cost` taken one after the other at the
/// instant of its last refill.
pub open spec fn after_takes(b: TokenBucket, n: nat, cost: u64, rate: u64) -> TokenBucket
    decreases n,
{
    if n == 0 {
        b
    } else {
        take(after_takes(b, (n - 1) as nat, cost, rate), cost, rate).0
    }
}

proof fn lemma_after_takes_tokens(b: TokenBucket, i: nat, cost: u64, rate: u64)
    requires
        i * cost <= b.tokens,
    ensures
        after_takes(b, i, cost, rate).tokens == b.tokens - i * cost,
    decreases i,
{
    if i > 0 {
        assert((i - 1) * cost <= i * cost) by (nonlinear_arith)
            requires
                i > 0,
        ;
        lemma_after_takes_tokens(b, (i - 1) as nat, cost, rate);
        assert(i * cost == (i - 1) * cost + cost) by (nonlinear_arith);
        let prev = after_takes(b, (i - 1) as nat, cost, rate);
        assert(prev.tokens >= cost);
        assert(after_takes(b, i, cost, rate) == take(prev, cost, rate).0);
    } else {
        assert(i * cost == 0) by (nonlinear_arith)
            requires
                i == 0,
        ;
    }
}

/// At one instant a bucket holding `tokens` allows exactly `tokens / cost`
/// requests of `cost`, one after the other, and refuses the next.
pub proof fn lemma_burst_at_one_instant(b: TokenBucket, cost: u64, rate: u64)
    requires
        cost >= 1,
    ensures
        forall|i: nat|
            i < b.tokens / cost ==> (#[trigger] take(after_takes(b, i, cost, rate), cost, rate)).1
                is None,
        take(after_takes(b, (b.tokens / cost) as nat, cost, rate), cost, rate).1 is Some,
{
    let n = (b.tokens / cost) as nat;
    assert(n * cost <= b.tokens && b.tokens < (n + 1) * cost) by (nonlinear_arith)
        requires
            cost >= 1,
            n == b.tokens / cost,
    ;
    assert forall|i: nat| i < b.tokens / cost implies (#[trigger] take(
        after_takes(b, i, cost, rate),
        cost,
        rate,
    )).1 is None by {
        assert((i + 1) * cost <= n * cost) by (nonlinear_arith)
            requires
                i < n,
        ;
        assert(i * cost + cost == (i + 1) * cost) by (nonlinear_arith);
        lemma_after_takes_tokens(b, i, cost, rate);
    }
    lemma_after_takes_tokens(b, n, cost, rate);
    assert(n * cost + cost == (n + 1) * cost) by (nonlinear_arith);
}

/// Whether two keys name the same client.
pub open spec fn same_client(a: IpKey, b: IpKey) -> bool {
    match (a, b) {
        (IpKey::V4(x), IpKey::V4(y)) => x == y,
        (IpKey::V6(x), IpKey::V6(y)) => x == y,
        _ => false,
    }
}

} // verus!
