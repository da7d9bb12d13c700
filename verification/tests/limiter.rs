use portfolio_gate::bucket::{Bucket, RateDecision, RateLimitConfig};
use portfolio_gate::limiter::{ClientIdentity, RateLimiter};

fn one_per_second_burst_two() -> RateLimitConfig {
    RateLimitConfig::new(2, 1, 1000).expect("a usable policy")
}

fn client(n: u32) -> ClientIdentity {
    ClientIdentity::from_ipv4_bits(n)
}

#[test]
fn policy_without_room_or_refill_is_refused() {
    assert!(RateLimitConfig::new(0, 1, 1000).is_none());
    assert!(RateLimitConfig::new(2, 0, 1000).is_none());
    assert!(RateLimitConfig::new(2, 1, 0).is_none());
    let cfg = RateLimitConfig::new(2, 1, 1000).expect("a usable policy");
    assert_eq!(cfg.burst_size(), 2);
    assert_eq!(cfg.refill_tokens(), 1);
    assert_eq!(cfg.refill_period_ms(), 1000);
    assert_eq!(cfg.capacity_credit(), 2000);
}

#[test]
fn burst_of_two_then_reject_then_one_after_a_second() {
    let mut limiter = RateLimiter::new(one_per_second_burst_two());
    let id = client(0x7f00_0001);
    assert_eq!(limiter.check(id, 10_000), RateDecision::Admit);
    assert_eq!(limiter.check(id, 10_000), RateDecision::Admit);
    assert_eq!(limiter.check(id, 10_000), RateDecision::Reject);
    assert_eq!(limiter.check(id, 11_000), RateDecision::Admit);
    assert_eq!(limiter.check(id, 11_000), RateDecision::Reject);
}

#[test]
fn waiting_longer_than_a_second_still_gives_one_token() {
    let mut limiter = RateLimiter::new(one_per_second_burst_two());
    let id = client(1);
    assert_eq!(limiter.check(id, 0), RateDecision::Admit);
    assert_eq!(limiter.check(id, 0), RateDecision::Admit);
    assert_eq!(limiter.check(id, 0), RateDecision::Reject);
    assert_eq!(limiter.check(id, 1_700), RateDecision::Admit);
    assert_eq!(limiter.check(id, 1_700), RateDecision::Reject);
    // 700 ms of credit were left over: 300 ms more make a token.
    assert_eq!(limiter.check(id, 1_999), RateDecision::Reject);
    assert_eq!(limiter.check(id, 2_000), RateDecision::Admit);
}

#[test]
fn hundred_requests_at_once_admit_exactly_the_burst() {
    let mut limiter = RateLimiter::new(one_per_second_burst_two());
    let id = client(42);
    let mut admitted = 0;
    let mut rejected = 0;
    for _ in 0..100 {
        match limiter.check(id, 5_000) {
            RateDecision::Admit => admitted += 1,
            RateDecision::Reject => rejected += 1,
        }
    }
    assert_eq!(admitted, 2);
    assert_eq!(rejected, 98);
}

#[test]
fn clients_do_not_share_tokens() {
    let mut limiter = RateLimiter::new(one_per_second_burst_two());
    assert_eq!(limiter.check(client(1), 0), RateDecision::Admit);
    assert_eq!(limiter.check(client(1), 0), RateDecision::Admit);
    assert_eq!(limiter.check(client(1), 0), RateDecision::Reject);
    assert_eq!(limiter.check(client(2), 0), RateDecision::Admit);
    assert_eq!(limiter.check(client(2), 0), RateDecision::Admit);
    assert_eq!(limiter.check(client(2), 0), RateDecision::Reject);
    assert_eq!(limiter.len(), 2);
}

#[test]
fn long_idle_time_never_fills_past_the_burst() {
    let mut limiter = RateLimiter::new(one_per_second_burst_two());
    let id = client(3);
    assert_eq!(limiter.check(id, 0), RateDecision::Admit);
    let late = u64::MAX;
    assert_eq!(limiter.check(id, late), RateDecision::Admit);
    assert_eq!(limiter.check(id, late), RateDecision::Admit);
    assert_eq!(limiter.check(id, late), RateDecision::Reject);
}

#[test]
fn clock_running_backwards_gives_no_tokens() {
    let mut limiter = RateLimiter::new(one_per_second_burst_two());
    let id = client(4);
    assert_eq!(limiter.check(id, 50_000), RateDecision::Admit);
    assert_eq!(limiter.check(id, 50_000), RateDecision::Admit);
    assert_eq!(limiter.check(id, 10_000), RateDecision::Reject);
    assert_eq!(limiter.check(id, 0), RateDecision::Reject);
    // The bucket kept its stamp of 50 000: time counts from there.
    assert_eq!(limiter.check(id, 50_999), RateDecision::Reject);
    assert_eq!(limiter.check(id, 51_000), RateDecision::Admit);
}

#[test]
fn bucket_arithmetic_is_exact() {
    let cfg = RateLimitConfig::new(3, 2, 500).expect("a usable policy");
    assert_eq!(cfg.capacity_credit(), 1_500);
    let start = Bucket { credit: 100, last_refill: 1_000 };
    // 150 ms at 2 units a millisecond: 100 + 300 = 400, not yet a token.
    assert_eq!(cfg.refill(start, 1_150), 400);
    assert_eq!(
        cfg.check_bucket(start, 1_150),
        (RateDecision::Reject, Bucket { credit: 400, last_refill: 1_150 })
    );
    // 200 ms: 100 + 400 = 500, exactly one token, which is taken.
    assert_eq!(
        cfg.check_bucket(start, 1_200),
        (RateDecision::Admit, Bucket { credit: 0, last_refill: 1_200 })
    );
    // Far later the bucket is full and one token of three is taken.
    assert_eq!(
        cfg.check_bucket(start, 9_000),
        (RateDecision::Admit, Bucket { credit: 1_000, last_refill: 9_000 })
    );
    // An earlier reading adds nothing and leaves the stamp.
    assert_eq!(
        cfg.check_bucket(start, 10),
        (RateDecision::Reject, Bucket { credit: 100, last_refill: 1_000 })
    );
}

#[test]
fn bucket_over_capacity_is_cut_to_capacity() {
    let cfg = one_per_second_burst_two();
    let bloated = Bucket { credit: u64::MAX, last_refill: 0 };
    assert_eq!(cfg.refill(bloated, u64::MAX), 2_000);
    assert_eq!(
        cfg.check_bucket(bloated, 7),
        (RateDecision::Admit, Bucket { credit: 1_000, last_refill: 7 })
    );
}

#[test]
fn idle_means_full_and_not_from_the_future() {
    let cfg = one_per_second_burst_two();
    assert!(cfg.is_idle(Bucket { credit: 0, last_refill: 0 }, 2_000));
    assert!(!cfg.is_idle(Bucket { credit: 0, last_refill: 0 }, 1_999));
    assert!(cfg.is_idle(Bucket { credit: 2_000, last_refill: 5 }, 5));
    assert!(!cfg.is_idle(Bucket { credit: 2_000, last_refill: 6 }, 5));
}

#[test]
fn sweep_forgets_only_idle_clients() {
    let mut limiter = RateLimiter::new(one_per_second_burst_two());
    assert_eq!(limiter.check(client(1), 0), RateDecision::Admit);
    assert_eq!(limiter.check(client(2), 1_500), RateDecision::Admit);
    assert_eq!(limiter.check(client(3), 1_900), RateDecision::Admit);
    assert_eq!(limiter.len(), 3);
    // At 2 000 only the first client has its token back.
    assert_eq!(limiter.sweep(2_000), 1);
    assert_eq!(limiter.len(), 2);
    assert_eq!(limiter.sweep(2_000), 0);
    assert_eq!(limiter.sweep(2_900), 2);
    assert_eq!(limiter.len(), 0);
}

#[test]
fn sweep_changes_no_later_decision() {
    let cfg = one_per_second_burst_two();
    let mut kept = RateLimiter::new(cfg);
    let mut swept = RateLimiter::new(cfg);
    let script: [(u32, u64); 8] =
        [(1, 0), (1, 0), (2, 100), (3, 900), (3, 900), (3, 950), (1, 1_200), (2, 1_300)];
    for (who, when) in script {
        assert_eq!(kept.check(client(who), when), swept.check(client(who), when));
    }
    swept.sweep(3_000);
    let after: [(u32, u64); 9] = [
        (1, 3_000),
        (1, 3_000),
        (1, 3_000),
        (2, 3_001),
        (3, 3_500),
        (3, 3_500),
        (3, 3_500),
        (2, 3_600),
        (1, 4_000),
    ];
    for (who, when) in after {
        assert_eq!(kept.check(client(who), when), swept.check(client(who), when));
    }
}

#[test]
fn ipv4_clients_are_keyed_by_their_mapped_address() {
    let v4 = ClientIdentity::from_ipv4_bits(0xc0a8_0001);
    assert_eq!(v4.address, 0x0000_0000_0000_0000_0000_ffff_c0a8_0001);
    let v6 = ClientIdentity::from_ipv6_bits(0x0000_0000_0000_0000_0000_ffff_c0a8_0001);
    assert_eq!(v4, v6);
    assert_ne!(ClientIdentity::from_ipv4_bits(1), ClientIdentity::from_ipv4_bits(2));
    assert_eq!(ClientIdentity::from_ipv4_bits(u32::MAX).address, 0xffff_ffff_ffff);
}

#[test]
fn every_policy_keeps_tokens_within_the_burst() {
    let cfg = RateLimitConfig::new(u32::MAX, u32::MAX, u32::MAX).expect("a usable policy");
    let cap = cfg.capacity_credit();
    assert_eq!(cap, (u32::MAX as u64) * (u32::MAX as u64));
    let mut bucket = Bucket { credit: cap, last_refill: 0 };
    let readings: [u64; 6] = [0, u64::MAX, 3, u64::MAX, 0, 1 << 40];
    for now in readings {
        let (_, next) = cfg.check_bucket(bucket, now);
        assert!(next.credit <= cap);
        assert!(next.last_refill >= bucket.last_refill);
        bucket = next;
    }
}

#[test]
fn remaining_counts_whole_tokens_and_takes_none() {
    let mut limiter = RateLimiter::new(one_per_second_burst_two());
    let id = client(8);
    assert_eq!(limiter.remaining(id, 0), 2);
    assert_eq!(limiter.remaining(id, 0), 2);
    assert_eq!(limiter.len(), 0);
    assert_eq!(limiter.check(id, 0), RateDecision::Admit);
    assert_eq!(limiter.remaining(id, 0), 1);
    assert_eq!(limiter.remaining(id, 999), 1);
    assert_eq!(limiter.remaining(id, 1_000), 2);
    assert_eq!(limiter.remaining(id, u64::MAX), 2);
    assert_eq!(limiter.check(id, 0), RateDecision::Admit);
    assert_eq!(limiter.remaining(id, 0), 0);
    assert_eq!(limiter.remaining(id, 999), 0);
    assert_eq!(limiter.remaining(id, 1_000), 1);
}

#[test]
fn tokens_stay_within_the_burst_under_any_readings() {
    let cfg = RateLimitConfig::new(5, 3, 700).expect("a usable policy");
    let mut limiter = RateLimiter::new(cfg);
    // A fixed pseudo-random walk of clients and clock readings, the clock
    // jumping both ways.
    let mut seed: u64 = 0x9e37_79b9_7f4a_7c15;
    for _ in 0..2_000 {
        seed = seed.wrapping_mul(6364136223846793005).wrapping_add(1442695040888963407);
        let who = client((seed >> 60) as u32);
        let now = (seed >> 20) % 10_000;
        assert!(limiter.remaining(who, now) <= 5);
        let before = limiter.remaining(who, now);
        let decision = limiter.check(who, now);
        assert_eq!(decision == RateDecision::Admit, before >= 1);
        let after = limiter.remaining(who, now);
        assert!(after <= 5);
        assert_eq!(after, if before >= 1 { before - 1 } else { 0 });
    }
}

#[test]
fn a_client_always_falls_to_the_same_shard() {
    let id = ClientIdentity::from_ipv6_bits(1_000_003);
    assert_eq!(id.shard(16), 3);
    assert_eq!(id.shard(16), 3);
    assert_eq!(id.shard(1), 0);
    assert_eq!(id.shard(1_000_000), 3);
    assert_eq!(ClientIdentity::from_ipv6_bits(u128::MAX).shard(usize::MAX), 0);
    for n in 0..64u32 {
        assert!(client(n).shard(7) < 7);
    }
}
