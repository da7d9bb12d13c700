//! The rate limiter: one token bucket per client identity.

use crate::bucket::{Bucket, RateDecision, RateLimitConfig};
use std::collections::HashMap;
use vstd::prelude::*;
use vstd::std_specs::iter::IteratorSpec;

verus! {

broadcast use vstd::std_specs::hash::group_hash_axioms;

/// The key that partitions rate-limit state: the client's network source
/// address as a 128-bit number, an IPv4 address in its IPv6-mapped form.
#[derive(Clone, Copy, Debug, PartialEq, Eq, Structural)]
pub struct ClientIdentity {
    pub address: u128,
}

/// The IPv6-mapped form `::ffff:a.b.c.d` of an IPv4 address.
pub open spec fn ipv4_mapped(bits: u32) -> u128 {
    (0xffff_0000_0000u128 + bits) as u128
}

impl ClientIdentity {
    /// The identity of an IPv6 source address, given as its 128 bits.
    pub fn from_ipv6_bits(bits: u128) -> (id: Self)
        ensures
            id.address == bits,
    {
        ClientIdentity { address: bits }
    }

    /// The identity of an IPv4 source address, given as its 32 bits.
    pub fn from_ipv4_bits(bits: u32) -> (id: Self)
        ensures
            id.address == ipv4_mapped(bits),
    {
        ClientIdentity { address: 0xffff_0000_0000u128 + (bits as u128) }
    }

    /// The shard, of `shards` that each serialize their own clients, that
    /// holds this client's bucket. A client always falls to the same shard.
    pub fn shard(&self, shards: usize) -> (index: usize)
        requires
            shards > 0,
        ensures
            index == self.address as int % shards as int,
            index < shards,
    {
        (self.address % (shards as u128)) as usize
    }
}

/// Token buckets by client. A client without an entry has a full bucket.
pub struct RateLimiter {
    config: RateLimitConfig,
    buckets: HashMap<u128, Bucket>,
}

/// The mathematical value of a [`RateLimiter`]: its policy and the buckets
/// that are stored, by client address.
pub struct RateLimiterView {
    pub config: RateLimitConfig,
    pub buckets: Map<u128, Bucket>,
}

impl View for RateLimiter {
    type V = RateLimiterView;

    closed spec fn view(&self) -> RateLimiterView {
        RateLimiterView { config: self.config, buckets: self.buckets@ }
    }
}

impl RateLimiter {
    /// No stored bucket holds more than a full one.
    pub open spec fn wf(self) -> bool {
        &&& self.config().wf()
        &&& self@.buckets.dom().finite()
        &&& forall|a: u128| #[trigger]
            self@.buckets.contains_key(a) ==> self@.buckets[a].credit <= self.config().capacity()
    }

    /// The policy the limiter was built with.
    pub open spec fn config(self) -> RateLimitConfig {
        self@.config
    }

    /// The bucket that decides the next request of the client at `address`.
    pub open spec fn bucket_of(self, address: u128) -> Bucket {
        if self@.buckets.contains_key(address) {
            self@.buckets[address]
        } else {
            self.config().full_bucket()
        }
    }

    /// The clients whose stored bucket may be forgotten at `now`.
    pub open spec fn idle_clients(self, now: u64) -> Set<u128> {
        Set::new(|a: u128| self@.buckets.contains_key(a) && self.config().idle(self@.buckets[a], now))
    }

    /// A limiter that has seen no client.
    pub fn new(config: RateLimitConfig) -> (limiter: Self)
        ensures
            limiter.wf(),
            limiter.config() == config,
            limiter@.buckets == Map::<u128, Bucket>::empty(),
    {
        proof {
            use_type_invariant(config);
        }
        RateLimiter { config, buckets: HashMap::new() }
    }

    /// Number of clients with a stored bucket.
    pub fn len(&self) -> (n: usize)
        ensures
            n == self@.buckets.dom().len(),
    {
        self.buckets.len()
    }

    /// The bucket that decides the next request of `identity`.
    fn current(&self, identity: ClientIdentity) -> (bucket: Bucket)
        ensures
            bucket == self.bucket_of(identity.address),
    {
        match self.buckets.get(&identity.address) {
            Some(bucket) => *bucket,
            None => {
                proof {
                    use_type_invariant(&self.config);
                    self.config.lemma_capacity_bounds();
                }
                Bucket { credit: self.config.capacity_credit(), last_refill: 0 }
            },
        }
    }

    /// Whole tokens that `identity` could spend at the reading `now`.
    pub fn remaining(&self, identity: ClientIdentity, now: u64) -> (tokens: u32)
        ensures
            tokens == self.config().credit_at(self.bucket_of(identity.address), now)
                / self.config().cost(),
            tokens <= self.config().spec_burst_size(),
    {
        proof {
            use_type_invariant(&self.config);
            self.config.lemma_capacity_bounds();
        }
        let current = self.current(identity);
        let credit = self.config.refill(current, now);
        let period = self.config.refill_period_ms();
        let burst = self.config.burst_size();
        proof {
            let c = credit as int;
            let b = burst as int;
            let p = period as int;
            assert(0 <= c / p <= b) by (nonlinear_arith)
                requires
                    0 <= c <= b * p,
                    p > 0,
            ;
        }
        (credit / (period as u64)) as u32
    }

    /// Decides one request of `identity` at the clock reading `now`
    /// (milliseconds) and records the bucket's next state.
    pub fn check(&mut self, identity: ClientIdentity, now: u64) -> (decision: RateDecision)
        ensures
            old(self).wf() ==> final(self).wf(),
            final(self).config() == old(self).config(),
            decision == old(self).config().decision(old(self).bucket_of(identity.address), now),
            final(self)@.buckets == old(self)@.buckets.insert(
                identity.address,
                old(self).config().step(old(self).bucket_of(identity.address), now),
            ),
    {
        let current = self.current(identity);
        let (decision, next) = self.config.check_bucket(current, now);
        self.buckets.insert(identity.address, next);
        decision
    }
}

impl RateLimiter {
    /// Forgetting the buckets that are idle at `now` changes no decision
    /// taken at `now` or later, for any client, nor the state it leaves.
    pub proof fn law_sweep_is_unobservable(self, swept: RateLimiter, now: u64, address: u128, later: u64)
        requires
            self.wf(),
            swept.config() == self.config(),
            swept@.buckets == self@.buckets.remove_keys(self.idle_clients(now)),
            now <= later,
        ensures
            swept.wf(),
            self.config().decision(swept.bucket_of(address), later) == self.config().decision(
                self.bucket_of(address),
                later,
            ),
            self.config().step(swept.bucket_of(address), later) == self.config().step(
                self.bucket_of(address),
                later,
            ),
    {
        assert(swept@.buckets.dom() =~= self@.buckets.dom().difference(self.idle_clients(now)));
        if self.idle_clients(now).contains(address) {
            self.config().law_idle_bucket_is_full(self@.buckets[address], now, later);
        }
    }

    /// Every client holds between no token and `burst_size` tokens.
    pub proof fn law_every_client_in_bounds(self, address: u128)
        requires
            self.wf(),
        ensures
            0 <= self.bucket_of(address).credit <= self.config().capacity(),
            0 <= self.config().tokens(self.bucket_of(address)) <= self.config().spec_burst_size(),
    {
        self.config().lemma_capacity_bounds();
        self.config().law_tokens_stay_in_bounds(self.bucket_of(address), Seq::empty());
    }
}

/// Whether `address` is the key of one of the first `upto` entries.
spec fn visited(entries: Seq<(&u128, &Bucket)>, upto: int, address: u128) -> bool {
    exists|i: int| 0 <= i < upto && *(#[trigger] entries[i]).0 == address
}

/// Whether `entries` lists every entry of `m` once.
spec fn lists(entries: Seq<(&u128, &Bucket)>, m: Map<u128, Bucket>) -> bool {
    &&& forall|i: int|
        0 <= i < entries.len() ==> m.contains_key(*(#[trigger] entries[i]).0) && m[*entries[i].0]
            == *entries[i].1
    &&& forall|i: int, j: int|
        0 <= i < j < entries.len() ==> *(#[trigger] entries[i]).0 != *(#[trigger] entries[j]).0
    &&& forall|a: u128| #[trigger] m.contains_key(a) ==> visited(entries, entries.len() as int, a)
}

impl RateLimiter {
    /// Forgets every stored bucket that is idle at `now` and says how many
    /// it forgot.
    pub fn sweep(&mut self, now: u64) -> (evicted: usize)
        ensures
            old(self).wf() ==> final(self).wf(),
            final(self).config() == old(self).config(),
            final(self)@.buckets == old(self)@.buckets.remove_keys(old(self).idle_clients(now)),
            evicted == old(self).idle_clients(now).len(),
    {
        let ghost before = self.buckets@;
        let ghost idle_set = self.idle_clients(now);
        let mut stale: Vec<u128> = Vec::new();
        let entries = self.buckets.iter();
        proof {
            let listed = entries.remaining();
            assert forall|i: int, j: int| 0 <= i < j < listed.len() implies *(#[trigger] listed[i]).0
                != *(#[trigger] listed[j]).0 by {
                if *listed[i].0 == *listed[j].0 {
                    assert(before[*listed[i].0] == *listed[i].1);
                    assert(before[*listed[j].0] == *listed[j].1);
                    assert(listed[i].0 == listed[j].0);
                    assert(listed[i].1 == listed[j].1);
                    assert(listed[i] == listed[j]);
                }
            }
            assert forall|a: u128| #[trigger] before.contains_key(a) implies visited(
                listed,
                listed.len() as int,
                a,
            ) by {
                let i = choose|i: int| 0 <= i < listed.len() && listed[i] == (&a, &before[a]);
                assert(*listed[i].0 == a);
            }
            assert(lists(listed, before));
        }
        for entry in it: entries
            invariant
                self.buckets@ == before,
                self.config == old(self).config,
                idle_set == old(self).idle_clients(now),
                before == old(self)@.buckets,
                lists(it.seq(), before),
                stale@.no_duplicates(),
                forall|j: int| 0 <= j < stale@.len() ==> idle_set.contains(#[trigger] stale@[j]),
                forall|i: int|
                    0 <= i < it.index() && idle_set.contains(*(#[trigger] it.seq()[i]).0)
                        ==> stale@.contains(*it.seq()[i].0),
                forall|j: int|
                    0 <= j < stale@.len() ==> visited(it.seq(), it.index(), #[trigger] stale@[j]),
        {
            let (address, bucket) = entry;
            let ghost cur = it.index();
            let ghost earlier = stale@;
            assert(entry == it.seq()[cur]);
            if self.config.is_idle(*bucket, now) {
                stale.push(*address);
                assert(stale@[earlier.len() as int] == *address);
                assert forall|j: int| 0 <= j < earlier.len() implies earlier[j] != *address by {
                    assert(visited(it.seq(), cur, earlier[j]));
                }
            }
            assert forall|i: int|
                0 <= i < cur + 1 && idle_set.contains(*(#[trigger] it.seq()[i]).0)
                    implies stale@.contains(*it.seq()[i].0) by {
                if i < cur {
                    let k = choose|k: int| 0 <= k < earlier.len() && earlier[k] == *it.seq()[i].0;
                    assert(stale@[k] == *it.seq()[i].0);
                } else {
                    assert(stale@[earlier.len() as int] == *address);
                }
            }
            assert forall|j: int| 0 <= j < stale@.len() implies visited(
                it.seq(),
                cur + 1,
                #[trigger] stale@[j],
            ) by {
                if j < earlier.len() {
                    assert(visited(it.seq(), cur, earlier[j]));
                } else {
                    assert(*it.seq()[cur].0 == stale@[j]);
                }
            }
        }
        proof {
            assert forall|a: u128| idle_set.contains(a) implies stale@.to_set().contains(a) by {
                assert(before.contains_key(a));
            }
            assert(stale@.to_set() =~= idle_set);
            stale@.unique_seq_to_set();
            assert(stale@.take(0).to_set() =~= Set::<u128>::empty());
            assert(before.remove_keys(Set::<u128>::empty()) =~= before);
        }
        let mut i: usize = 0;
        while i < stale.len()
            invariant
                0 <= i <= stale@.len(),
                self.config == old(self).config,
                self.buckets@ == before.remove_keys(stale@.take(i as int).to_set()),
            decreases stale@.len() - i,
        {
            let ghost done = stale@.take(i as int).to_set();
            self.buckets.remove(&stale[i]);
            proof {
                assert(stale@.take(i + 1) =~= stale@.take(i as int).push(stale@[i as int]));
                assert(stale@.take(i + 1).to_set() =~= done.insert(stale@[i as int])) by {
                    vstd::seq_lib::seq_to_set_is_finite(stale@.take(i as int));
                    stale@.take(i as int).lemma_push_to_set_commute(stale@[i as int]);
                }
                assert(before.remove_keys(done).remove(stale@[i as int]) =~= before.remove_keys(
                    done.insert(stale@[i as int]),
                ));
            }
            i += 1;
        }
        proof {
            assert(stale@.take(stale@.len() as int) =~= stale@);
            assert(self.buckets@.dom() =~= before.dom().difference(idle_set));
        }
        stale.len()
    }
}

} // verus!
