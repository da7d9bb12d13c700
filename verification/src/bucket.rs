//! The token bucket of a single client, as pure arithmetic.
//!
//! A bucket holds credit in fractions of a token so that refilling is exact:
//! with a policy of `refill_tokens` tokens every `refill_period_ms`
//! milliseconds, one unit of credit is `1 / refill_period_ms` of a token, each
//! elapsed millisecond adds `refill_tokens` units, and a request costs
//! `refill_period_ms` units.

use vstd::prelude::*;

verus! {

/// What the limiter decides for one request.
#[derive(Clone, Copy, Debug, PartialEq, Eq, Structural)]
pub enum RateDecision {
    Admit,
    Reject,
}

/// The throttling policy, fixed when the limiter is built.
#[derive(Clone, Copy, Debug)]
pub struct RateLimitConfig {
    burst_size: u32,
    refill_tokens: u32,
    refill_period_ms: u32,
}

/// The state kept per client: credit in units of `1 / refill_period_ms`
/// token, and the latest clock reading the bucket was refilled at.
#[derive(Clone, Copy, Debug, PartialEq, Eq, Structural)]
pub struct Bucket {
    pub credit: u64,
    pub last_refill: u64,
}

/// Credit of a bucket in state `(credit, last_refill)` once it has been
/// refilled up to the reading `now`: every millisecond since `last_refill`
/// adds `rate` units, up to `capacity`. A reading earlier than `last_refill`
/// counts as no time elapsed.
pub open spec fn refilled_credit(
    capacity: int,
    rate: int,
    credit: int,
    last_refill: int,
    now: int,
) -> int {
    let elapsed = if now > last_refill {
        now - last_refill
    } else {
        0
    };
    if credit + elapsed * rate >= capacity {
        capacity
    } else {
        credit + elapsed * rate
    }
}

impl RateLimitConfig {
    /// A policy is usable when the bucket can hold a token and refills.
    #[verifier::type_invariant]
    pub closed spec fn wf(self) -> bool {
        self.burst_size > 0 && self.refill_tokens > 0 && self.refill_period_ms > 0
    }

    /// Bucket capacity in tokens.
    pub closed spec fn spec_burst_size(self) -> int {
        self.burst_size as int
    }

    /// Tokens added per refill period.
    pub closed spec fn spec_refill_tokens(self) -> int {
        self.refill_tokens as int
    }

    /// Length of the refill period in milliseconds.
    pub closed spec fn spec_refill_period_ms(self) -> int {
        self.refill_period_ms as int
    }

    /// Credit that one request costs: one token.
    pub open spec fn cost(self) -> int {
        self.spec_refill_period_ms()
    }

    /// Credit of a full bucket: `burst_size` tokens.
    pub open spec fn capacity(self) -> int {
        self.spec_burst_size() * self.spec_refill_period_ms()
    }

    /// The bucket of a client that has not been seen: full.
    pub open spec fn full_bucket(self) -> Bucket {
        Bucket { credit: self.capacity() as u64, last_refill: 0 }
    }

    /// Credit of `bucket` once refilled up to the reading `now`.
    pub open spec fn credit_at(self, bucket: Bucket, now: u64) -> int {
        refilled_credit(
            self.capacity(),
            self.spec_refill_tokens(),
            bucket.credit as int,
            bucket.last_refill as int,
            now as int,
        )
    }

    /// Whether a request at `now` finds a whole token in `bucket`.
    pub open spec fn admits(self, bucket: Bucket, now: u64) -> bool {
        self.credit_at(bucket, now) >= self.cost()
    }

    /// The bucket after a request at `now`: refilled, one token taken if
    /// there was one, and stamped with the later of `now` and its old stamp.
    pub open spec fn step(self, bucket: Bucket, now: u64) -> Bucket {
        let credit = self.credit_at(bucket, now);
        Bucket {
            credit: if credit >= self.cost() {
                (credit - self.cost()) as u64
            } else {
                credit as u64
            },
            last_refill: if now > bucket.last_refill {
                now
            } else {
                bucket.last_refill
            },
        }
    }

    /// The decision for a request at `now` against `bucket`.
    pub open spec fn decision(self, bucket: Bucket, now: u64) -> RateDecision {
        if self.admits(bucket, now) {
            RateDecision::Admit
        } else {
            RateDecision::Reject
        }
    }

    /// Whether `bucket` would be full at `now` and was last touched no later
    /// than `now`: from `now` on it behaves as the bucket of an unseen client.
    pub open spec fn idle(self, bucket: Bucket, now: u64) -> bool {
        bucket.last_refill <= now && self.credit_at(bucket, now) == self.capacity()
    }

    /// Whole tokens in `bucket`.
    pub open spec fn tokens(self, bucket: Bucket) -> int {
        bucket.credit as int / self.cost()
    }

    /// The bucket after requests at the readings `times`, in that order.
    pub open spec fn run(self, bucket: Bucket, times: Seq<u64>) -> Bucket
        decreases times.len(),
    {
        if times.len() == 0 {
            bucket
        } else {
            self.step(self.run(bucket, times.drop_last()), times.last())
        }
    }

    /// How many of the requests at the readings `times` are admitted.
    pub open spec fn admitted(self, bucket: Bucket, times: Seq<u64>) -> nat
        decreases times.len(),
    {
        if times.len() == 0 {
            0
        } else {
            let earlier = self.admitted(bucket, times.drop_last());
            if self.admits(self.run(bucket, times.drop_last()), times.last()) {
                earlier + 1
            } else {
                earlier
            }
        }
    }

    /// Builds a policy of `refill_tokens` tokens every `refill_period_ms`
    /// milliseconds with room for `burst_size` tokens. A policy that could
    /// never admit a request, or never refill, is refused.
    pub fn new(burst_size: u32, refill_tokens: u32, refill_period_ms: u32) -> (cfg: Option<Self>)
        ensures
            cfg is Some <==> burst_size > 0 && refill_tokens > 0 && refill_period_ms > 0,
            cfg is Some ==> {
                &&& cfg->0.wf()
                &&& cfg->0.spec_burst_size() == burst_size
                &&& cfg->0.spec_refill_tokens() == refill_tokens
                &&& cfg->0.spec_refill_period_ms() == refill_period_ms
            },
    {
        if burst_size == 0 || refill_tokens == 0 || refill_period_ms == 0 {
            None
        } else {
            Some(RateLimitConfig { burst_size, refill_tokens, refill_period_ms })
        }
    }

    /// Bucket capacity in tokens.
    pub fn burst_size(&self) -> (n: u32)
        ensures
            n == self.spec_burst_size(),
    {
        self.burst_size
    }

    /// Tokens added per refill period.
    pub fn refill_tokens(&self) -> (n: u32)
        ensures
            n == self.spec_refill_tokens(),
    {
        self.refill_tokens
    }

    /// Length of the refill period in milliseconds.
    pub fn refill_period_ms(&self) -> (n: u32)
        ensures
            n == self.spec_refill_period_ms(),
    {
        self.refill_period_ms
    }

    /// Credit of a full bucket.
    pub fn capacity_credit(&self) -> (c: u64)
        ensures
            c == self.capacity(),
    {
        proof {
            use_type_invariant(self);
            self.lemma_capacity_bounds();
        }
        (self.burst_size as u64) * (self.refill_period_ms as u64)
    }

    /// Credit of `bucket` once refilled up to `now`.
    pub fn refill(&self, bucket: Bucket, now: u64) -> (credit: u64)
        ensures
            credit == self.credit_at(bucket, now),
            credit <= self.capacity(),
    {
        proof {
            use_type_invariant(self);
            self.lemma_capacity_bounds();
        }
        let capacity = self.capacity_credit();
        let elapsed: u64 = if now > bucket.last_refill {
            now - bucket.last_refill
        } else {
            0
        };
        assert(elapsed * self.refill_tokens <= u64::MAX * u32::MAX) by (nonlinear_arith)
            requires
                0 <= elapsed <= u64::MAX,
                0 <= self.refill_tokens <= u32::MAX,
        ;
        let gained: u128 = (elapsed as u128) * (self.refill_tokens as u128);
        let total: u128 = (bucket.credit as u128) + gained;
        if total >= capacity as u128 {
            capacity
        } else {
            total as u64
        }
    }

    /// Decides one request at `now` against `bucket` and gives the bucket's
    /// next state.
    pub fn check_bucket(&self, bucket: Bucket, now: u64) -> (res: (RateDecision, Bucket))
        ensures
            res.0 == self.decision(bucket, now),
            res.1 == self.step(bucket, now),
            res.1.credit <= self.capacity(),
    {
        let credit = self.refill(bucket, now);
        let last_refill = if now > bucket.last_refill {
            now
        } else {
            bucket.last_refill
        };
        let cost = self.refill_period_ms as u64;
        if credit >= cost {
            (RateDecision::Admit, Bucket { credit: credit - cost, last_refill })
        } else {
            (RateDecision::Reject, Bucket { credit, last_refill })
        }
    }

    /// Whether `bucket` may be forgotten at `now`.
    pub fn is_idle(&self, bucket: Bucket, now: u64) -> (idle: bool)
        ensures
            idle == self.idle(bucket, now),
    {
        bucket.last_refill <= now && self.refill(bucket, now) == self.capacity_credit()
    }
}

impl RateLimitConfig {
    /// The capacity fits the credit counter.
    pub proof fn lemma_capacity_bounds(self)
        requires
            self.wf(),
        ensures
            0 < self.cost() <= self.capacity() <= u64::MAX,
    {
        let b = self.burst_size as int;
        let p = self.refill_period_ms as int;
        assert(p <= b * p <= 0xffff_ffff * 0xffff_ffff) by (nonlinear_arith)
            requires
                1 <= b <= 0xffff_ffff,
                1 <= p <= 0xffff_ffff,
        ;
    }

    /// One request leaves a bucket within bounds, whatever it held and
    /// whatever the clock read, and never moves its stamp back.
    pub proof fn lemma_step_bounds(self, bucket: Bucket, now: u64)
        requires
            self.wf(),
        ensures
            0 <= self.credit_at(bucket, now) <= self.capacity(),
            0 <= self.step(bucket, now).credit <= self.capacity(),
            0 <= self.tokens(self.step(bucket, now)) <= self.spec_burst_size(),
            self.step(bucket, now).last_refill >= bucket.last_refill,
            self.step(bucket, now).last_refill >= now,
            now >= bucket.last_refill ==> self.step(bucket, now).last_refill == now,
    {
        self.lemma_capacity_bounds();
        let elapsed = if now > bucket.last_refill {
            now - bucket.last_refill
        } else {
            0
        };
        assert(elapsed * self.spec_refill_tokens() >= 0) by (nonlinear_arith)
            requires
                elapsed >= 0,
                self.spec_refill_tokens() >= 0,
        ;
        let after = self.step(bucket, now).credit as int;
        let b = self.spec_burst_size();
        let p = self.cost();
        assert(0 <= after / p <= b) by (nonlinear_arith)
            requires
                0 <= after <= b * p,
                p > 0,
        ;
    }

    /// Under any sequence of requests and clock readings, a bucket that
    /// starts within bounds stays there: it holds at least no token and at
    /// most `burst_size`. Its stamp never moves back.
    pub proof fn law_tokens_stay_in_bounds(self, bucket: Bucket, times: Seq<u64>)
        requires
            self.wf(),
            bucket.credit <= self.capacity(),
        ensures
            0 <= self.run(bucket, times).credit <= self.capacity(),
            0 <= self.tokens(self.run(bucket, times)) <= self.spec_burst_size(),
            self.run(bucket, times).last_refill >= bucket.last_refill,
        decreases times.len(),
    {
        self.lemma_capacity_bounds();
        if times.len() == 0 {
            let c = bucket.credit as int;
            let b = self.spec_burst_size();
            let p = self.cost();
            assert(0 <= c / p <= b) by (nonlinear_arith)
                requires
                    0 <= c <= b * p,
                    p > 0,
            ;
        } else {
            self.law_tokens_stay_in_bounds(bucket, times.drop_last());
            self.lemma_step_bounds(self.run(bucket, times.drop_last()), times.last());
        }
    }

    /// Requests that all arrive at one reading `now` are admitted until the
    /// tokens the bucket holds at `now` are used up, and rejected after.
    pub proof fn law_simultaneous_requests(self, bucket: Bucket, now: u64, times: Seq<u64>)
        requires
            self.wf(),
            forall|i: int| 0 <= i < times.len() ==> times[i] == now,
        ensures
            self.admitted(bucket, times) == if times.len() <= self.credit_at(bucket, now)
                / self.cost() {
                times.len() as int
            } else {
                self.credit_at(bucket, now) / self.cost()
            },
            times.len() > 0 ==> self.run(bucket, times).credit == self.credit_at(bucket, now)
                - self.admitted(bucket, times) * self.cost(),
            times.len() > 0 ==> self.run(bucket, times).last_refill >= now,
        decreases times.len(),
    {
        self.lemma_capacity_bounds();
        self.lemma_step_bounds(bucket, now);
        let p = self.cost();
        let c0 = self.credit_at(bucket, now);
        assert(c0 / p >= 0) by (nonlinear_arith)
            requires
                c0 >= 0,
                p > 0,
        ;
        if times.len() == 0 {
        } else {
            let earlier = times.drop_last();
            assert(times.last() == now);
            let mid = self.run(bucket, earlier);
            let k = self.admitted(bucket, earlier) as int;
            // Credit that the last request finds, and how many came before.
            let c = self.credit_at(mid, now);
            if earlier.len() == 0 {
                assert(mid == bucket && k == 0 && c == c0);
                assert(c == c0 - k * p) by (nonlinear_arith)
                    requires
                        c == c0,
                        k == 0,
                ;
            } else {
                self.law_simultaneous_requests(bucket, now, earlier);
                assert(mid.last_refill >= now);
                assert(c == mid.credit) by {
                    self.lemma_step_bounds(self.run(bucket, earlier.drop_last()), earlier.last());
                }
            }
            assert(c == c0 - k * p);
            assert(k == if earlier.len() <= c0 / p {
                earlier.len() as int
            } else {
                c0 / p
            });
            assert((c >= p <==> k < c0 / p) && k <= c0 / p) by (nonlinear_arith)
                requires
                    c == c0 - k * p,
                    c >= 0,
                    k >= 0,
                    p > 0,
                    k <= c0 / p || k <= earlier.len(),
                    k == c0 / p || k == earlier.len(),
                    earlier.len() <= c0 / p || k == c0 / p,
            ;
            let after = self.run(bucket, times).credit as int;
            let n = self.admitted(bucket, times) as int;
            if c >= p {
                assert(n == k + 1 && after == c - p);
                assert(after == c0 - n * p) by (nonlinear_arith)
                    requires
                        after == c - p,
                        c == c0 - k * p,
                        n == k + 1,
                ;
            } else {
                assert(n == k && after == c);
            }
        }
    }

    /// Of any number of requests that a client not seen before sends at one
    /// reading, exactly `burst_size` are admitted, or all of them if they are
    /// fewer.
    pub proof fn law_first_burst(self, now: u64, times: Seq<u64>)
        requires
            self.wf(),
            forall|i: int| 0 <= i < times.len() ==> times[i] == now,
        ensures
            self.admitted(self.full_bucket(), times) == if times.len() <= self.spec_burst_size() {
                times.len() as int
            } else {
                self.spec_burst_size()
            },
    {
        self.lemma_capacity_bounds();
        self.law_simultaneous_requests(self.full_bucket(), now, times);
        let r = self.spec_refill_tokens();
        assert(now * r >= 0) by (nonlinear_arith)
            requires
                now >= 0,
                r >= 0,
        ;
        let b = self.spec_burst_size();
        let p = self.cost();
        assert((b * p) / p == b) by (nonlinear_arith)
            requires
                p > 0,
        ;
    }

    /// A bucket that is idle at `now` answers every request from `now` on as
    /// a full bucket does, and is left in the same state.
    pub proof fn law_idle_bucket_is_full(self, bucket: Bucket, now: u64, later: u64)
        requires
            self.wf(),
            self.idle(bucket, now),
            now <= later,
        ensures
            self.decision(bucket, later) == self.decision(self.full_bucket(), later),
            self.step(bucket, later) == self.step(self.full_bucket(), later),
    {
        self.lemma_capacity_bounds();
        let r = self.spec_refill_tokens();
        let e0 = now - bucket.last_refill;
        let e1 = later - bucket.last_refill;
        assert(e0 * r <= e1 * r) by (nonlinear_arith)
            requires
                0 <= e0 <= e1,
                r >= 0,
        ;
        assert(later * r >= 0) by (nonlinear_arith)
            requires
                later >= 0,
                r >= 0,
        ;
    }
}

} // verus!
