use anicargo::ratelimit::{step_bucket, Bucket, RateDecision, RateLimiter, RatePolicy};

fn policy(user: u32, ip: u32) -> RatePolicy {
    RatePolicy {
        user_per_minute: user,
        ip_per_minute: ip,
        allow_users: vec!["friend".to_string()],
        allow_ips: vec!["10.0.0.1".to_string()],
        block_users: vec!["spammer".to_string()],
        block_ips: vec!["6.6.6.6".to_string()],
    }
}

#[test]
fn ip_limit_of_three_per_minute() {
    let p = policy(0, 3);
    let mut rl = RateLimiter::new();
    assert_eq!(rl.check(&p, None, "1.2.3.4", 100), RateDecision::Allow);
    assert_eq!(rl.check(&p, None, "1.2.3.4", 101), RateDecision::Allow);
    assert_eq!(rl.check(&p, None, "1.2.3.4", 103), RateDecision::Allow);
    assert_eq!(rl.check(&p, None, "1.2.3.4", 105), RateDecision::Limited);
    assert_eq!(rl.check(&p, None, "5.5.5.5", 105), RateDecision::Allow);
    assert_eq!(rl.check(&p, None, "1.2.3.4", 160), RateDecision::Allow);
}

#[test]
fn lists_decide_before_counters() {
    let p = policy(1, 1);
    let mut rl = RateLimiter::new();
    assert_eq!(rl.check(&p, Some("spammer"), "10.0.0.1", 0), RateDecision::Blocked);
    assert_eq!(rl.check(&p, Some("friend"), "6.6.6.6", 0), RateDecision::Allow);
    assert_eq!(rl.check(&p, None, "6.6.6.6", 0), RateDecision::Blocked);
    for t in 0..5 {
        assert_eq!(rl.check(&p, None, "10.0.0.1", t), RateDecision::Allow);
    }
    assert!(rl.buckets.is_empty());
    assert_eq!(rl.check(&p, Some("bob"), "1.1.1.1", 0), RateDecision::Allow);
    assert_eq!(rl.check(&p, Some("bob"), "2.2.2.2", 1), RateDecision::Limited);
    assert_eq!(rl.buckets[0].0, "user:bob");
}

#[test]
fn zero_limit_passes_through_and_idle_buckets_go() {
    let open = policy(0, 0);
    let mut rl = RateLimiter::new();
    assert_eq!(rl.check(&open, None, "1.2.3.4", 0), RateDecision::Allow);
    assert!(rl.buckets.is_empty());
    let p = policy(0, 2);
    rl.check(&p, None, "1.1.1.1", 0);
    rl.check(&p, None, "2.2.2.2", 500);
    assert_eq!(rl.buckets.len(), 2);
    rl.check(&p, None, "2.2.2.2", 700);
    assert_eq!(rl.buckets.len(), 1);
    assert_eq!(rl.buckets[0].0, "ip:2.2.2.2");
}

#[test]
fn bucket_window_resets_after_a_minute() {
    let b = Bucket { window_start: 0, count: 2, last_seen: 10 };
    assert_eq!(step_bucket(b, 59, 2), (false, Bucket { window_start: 0, count: 2, last_seen: 59 }));
    assert_eq!(step_bucket(b, 60, 2), (true, Bucket { window_start: 60, count: 1, last_seen: 60 }));
}
