use vstd::prelude::*;
use crate::text::{chars_of, chars_eq, string_of};
use crate::paths::push_chars;

verus! {

/// Length of a counting window, in seconds.
pub const WINDOW_SECS: i64 = 60;

/// Buckets not seen for this long are dropped.
pub const IDLE_SECS: i64 = 600;

/// The counter of one client: when its window began, how many requests it
/// admitted in that window, and when it was last seen.
#[derive(PartialEq, Eq, Structural, Clone, Copy, Debug)]
pub struct Bucket {
    pub window_start: i64,
    pub count: u32,
    pub last_seen: i64,
}

/// The gateway's answer to a request.
#[derive(PartialEq, Eq, Structural, Clone, Copy, Debug)]
pub enum RateDecision {
    Allow,
    /// The client is on a block list (403).
    Blocked,
    /// The client used up its window (429).
    Limited,
}

/// Per-minute limits (0 turns a limit off) and allow/block lists.
#[derive(Debug, Clone)]
pub struct RatePolicy {
    pub user_per_minute: u32,
    pub ip_per_minute: u32,
    pub allow_users: Vec<String>,
    pub allow_ips: Vec<String>,
    pub block_users: Vec<String>,
    pub block_ips: Vec<String>,
}

/// A new bucket for a client first seen at `now`.
pub open spec fn fresh(now: i64) -> Bucket {
    Bucket { window_start: now, count: 0, last_seen: now }
}

/// One request against a bucket at `now`: the window restarts once 60 s have
/// passed; the request is admitted while the count is below the limit.
pub open spec fn bucket_step(b: Bucket, now: i64, limit: u32) -> (bool, Bucket) {
    let b1 = if (now as int) - (b.window_start as int) >= WINDOW_SECS {
        Bucket { window_start: now, count: 0, last_seen: b.last_seen }
    } else {
        b
    };
    if b1.count >= limit {
        (false, Bucket { last_seen: now, ..b1 })
    } else {
        (true, Bucket { count: (b1.count + 1) as u32, last_seen: now, ..b1 })
    }
}

pub fn step_bucket(b: Bucket, now: i64, limit: u32) -> (r: (bool, Bucket))
    ensures
        r == bucket_step(b, now, limit),
{
    let b1 = if (now as i128) - (b.window_start as i128) >= WINDOW_SECS as i128 {
        Bucket { window_start: now, count: 0, last_seen: b.last_seen }
    } else {
        b
    };
    if b1.count >= limit {
        (false, Bucket { window_start: b1.window_start, count: b1.count, last_seen: now })
    } else {
        (true, Bucket { window_start: b1.window_start, count: b1.count + 1, last_seen: now })
    }
}

/// How many of the requests at `times` a bucket admits, taken in order.
pub open spec fn admitted(b: Bucket, times: Seq<i64>, limit: u32) -> nat
    decreases times.len(),
{
    if times.len() == 0 {
        0
    } else {
        let (ok, b1) = bucket_step(b, times[0], limit);
        admitted(b1, times.drop_first(), limit) + if ok { 1nat } else { 0nat }
    }
}

/// Within one window of a bucket no more than the limit gets through: a
/// bucket that has admitted `count` requests since `window_start` admits at
/// most `limit - count` more before 60 s have passed since then.
pub proof fn lemma_window_cap(b: Bucket, times: Seq<i64>, limit: u32)
    requires
        b.count <= limit,
        forall|i: int| 0 <= i < times.len() ==> b.window_start <= #[trigger] times[i] && (times[i] as int) < (b.window_start as int) + WINDOW_SECS,
    ensures
        admitted(b, times, limit) + b.count <= limit,
    decreases times.len(),
{
    if times.len() > 0 {
        let (ok, b1) = bucket_step(b, times[0], limit);
        assert(b1.window_start == b.window_start);
        assert forall|i: int| 0 <= i < times.drop_first().len() implies b1.window_start <= #[trigger] times.drop_first()[i]
            && (times.drop_first()[i] as int) < (b1.window_start as int) + WINDOW_SECS by {
            assert(times.drop_first()[i] == times[i + 1]);
        }
        lemma_window_cap(b1, times.drop_first(), limit);
    }
}

pub open spec fn listed(list: Seq<String>, x: Seq<char>) -> bool {
    exists|i: int| 0 <= i < list.len() && (#[trigger] list[i])@ == x
}

fn in_list(list: &Vec<String>, x: &str) -> (r: bool)
    ensures
        r == listed(list@, x@),
{
    let xc = chars_of(x);
    let mut i: usize = 0;
    while i < list.len()
        invariant
            xc@ == x@,
            i <= list@.len(),
            forall|k: int| 0 <= k < i ==> (#[trigger] list@[k])@ != x@,
        decreases list.len() - i,
    {
        if chars_eq(&chars_of(list[i].as_str()), &xc) {
            return true;
        }
        i = i + 1;
    }
    false
}

/// What the allow and block lists decide on their own: a listed user first,
/// then a listed address; `None` leaves it to the counters.
pub open spec fn list_decision(p: RatePolicy, user: Option<Seq<char>>, ip: Seq<char>) -> Option<RateDecision> {
    if user is Some && listed(p.block_users@, user->0) {
        Some(RateDecision::Blocked)
    } else if user is Some && listed(p.allow_users@, user->0) {
        Some(RateDecision::Allow)
    } else if listed(p.block_ips@, ip) {
        Some(RateDecision::Blocked)
    } else if listed(p.allow_ips@, ip) {
        Some(RateDecision::Allow)
    } else {
        None
    }
}

/// The counter key of a client: `user:<id>` when signed in, else `ip:<address>`.
pub open spec fn bucket_key(user: Option<Seq<char>>, ip: Seq<char>) -> Seq<char> {
    match user {
        Some(u) => "user:"@ + u,
        None => "ip:"@ + ip,
    }
}

pub open spec fn bucket_limit(p: RatePolicy, user: Option<Seq<char>>) -> u32 {
    if user is Some { p.user_per_minute } else { p.ip_per_minute }
}

/// The counters of all clients seen lately.
#[derive(Debug, Clone)]
pub struct RateLimiter {
    pub buckets: Vec<(String, Bucket)>,
}

/// The bucket stored under a key, if any.
pub open spec fn lookup(bs: Seq<(String, Bucket)>, key: Seq<char>) -> Option<Bucket>
    decreases bs.len(),
{
    if bs.len() == 0 {
        None
    } else if bs[0].0@ == key {
        Some(bs[0].1)
    } else {
        lookup(bs.drop_first(), key)
    }
}

/// A bucket survives eviction while it was seen within the idle period.
pub open spec fn fresh_enough(b: Bucket, now: i64) -> bool {
    (b.last_seen as int) >= (now as int) - IDLE_SECS
}

/// The buckets as a key's lookup after eviction at `now`.
pub open spec fn kept_lookup(bs: Seq<(String, Bucket)>, key: Seq<char>, now: i64) -> Option<Bucket> {
    match lookup(bs, key) {
        Some(b) => if fresh_enough(b, now) { Some(b) } else { None },
        None => None,
    }
}

pub open spec fn opt_view(o: Option<&str>) -> Option<Seq<char>> {
    match o {
        Some(s) => Some(s@),
        None => None,
    }
}

pub open spec fn keys_unique(bs: Seq<(String, Bucket)>) -> bool {
    forall|i: int, j: int| 0 <= i < j < bs.len() ==> (#[trigger] bs[i]).0@ != (#[trigger] bs[j]).0@
}

proof fn lemma_lookup_unique(bs: Seq<(String, Bucket)>, i: int)
    requires
        keys_unique(bs),
        0 <= i < bs.len(),
    ensures
        lookup(bs, bs[i].0@) == Some(bs[i].1),
    decreases bs.len(),
{
    if i > 0 {
        let t = bs.drop_first();
        assert(keys_unique(t)) by {
            assert forall|a: int, b: int| 0 <= a < b < t.len() implies (#[trigger] t[a]).0@ != (#[trigger] t[b]).0@ by {
                assert(t[a] == bs[a + 1] && t[b] == bs[b + 1]);
            }
        }
        assert(bs[0].0@ != bs[i].0@);
        assert(t[i - 1] == bs[i]);
        lemma_lookup_unique(t, i - 1);
    }
}

proof fn lemma_lookup_absent(bs: Seq<(String, Bucket)>, key: Seq<char>)
    requires
        forall|i: int| 0 <= i < bs.len() ==> (#[trigger] bs[i]).0@ != key,
    ensures
        lookup(bs, key) is None,
    decreases bs.len(),
{
    if bs.len() > 0 {
        let t = bs.drop_first();
        assert forall|i: int| 0 <= i < t.len() implies (#[trigger] t[i]).0@ != key by {
            assert(t[i] == bs[i + 1]);
        }
        lemma_lookup_absent(t, key);
    }
}

proof fn lemma_lookup_found(bs: Seq<(String, Bucket)>, key: Seq<char>) -> (i: int)
    requires
        lookup(bs, key) is Some,
    ensures
        0 <= i < bs.len(),
        bs[i].0@ == key,
        lookup(bs, key) == Some(bs[i].1),
    decreases bs.len(),
{
    if bs[0].0@ == key {
        0
    } else {
        let j = lemma_lookup_found(bs.drop_first(), key);
        j + 1
    }
}

impl RateLimiter {
    pub open spec fn wf(&self) -> bool {
        keys_unique(self.buckets@)
    }

    pub fn new() -> (r: Self)
        ensures
            r.wf(),
            r.buckets@.len() == 0,
    {
        RateLimiter { buckets: Vec::new() }
    }

    /// Decides one request from `ip`, signed in as `user` when known. Lists
    /// decide first; otherwise the client's bucket counts the request against
    /// its per-minute limit (a zero limit lets everything through). Buckets
    /// idle for ten minutes are dropped first.
    pub fn check(&mut self, policy: &RatePolicy, user: Option<&str>, ip: &str, now: i64) -> (r: RateDecision)
        requires
            old(self).wf(),
        ensures
            final(self).wf(),
            ({
                let u = opt_view(user);
                let key = bucket_key(u, ip@);
                let limit = bucket_limit(*policy, u);
                match list_decision(*policy, u, ip@) {
                    Some(d) => r == d && *final(self) == *old(self),
                    None => if limit == 0 {
                        r == RateDecision::Allow && *final(self) == *old(self)
                    } else {
                        let b0 = match kept_lookup(old(self).buckets@, key, now) {
                            Some(b) => b,
                            None => fresh(now),
                        };
                        let (ok, b1) = bucket_step(b0, now, limit);
                        &&& r == (if ok { RateDecision::Allow } else { RateDecision::Limited })
                        &&& lookup(final(self).buckets@, key) == Some(b1)
                        &&& forall|k: Seq<char>| k != key ==> #[trigger] lookup(final(self).buckets@, k)
                            == kept_lookup(old(self).buckets@, k, now)
                        &&& forall|i: int| 0 <= i < final(self).buckets@.len() ==> fresh_enough(
                            (#[trigger] final(self).buckets@[i]).1, now)
                    },
                }
            }),
    {
        match user {
            Some(u) => {
                if in_list(&policy.block_users, u) {
                    return RateDecision::Blocked;
                }
                if in_list(&policy.allow_users, u) {
                    return RateDecision::Allow;
                }
            },
            None => {},
        }
        if in_list(&policy.block_ips, ip) {
            return RateDecision::Blocked;
        }
        if in_list(&policy.allow_ips, ip) {
            return RateDecision::Allow;
        }
        let limit = match user {
            Some(_) => policy.user_per_minute,
            None => policy.ip_per_minute,
        };
        if limit == 0 {
            return RateDecision::Allow;
        }
        let key_chars = match user {
            Some(u) => {
                let mut k = chars_of("user:");
                push_chars(&mut k, &chars_of(u));
                k
            },
            None => {
                let mut k = chars_of("ip:");
                push_chars(&mut k, &chars_of(ip));
                k
            },
        };
        let ghost key = bucket_key(opt_view(user), ip@);
        assert(key_chars@ == key);
        // evict idle buckets and take out this client's one
        let ghost old_bs = self.buckets@;
        let mut kept: Vec<(String, Bucket)> = Vec::new();
        let mut found: Option<Bucket> = None;
        let mut src: Vec<(String, Bucket)> = Vec::new();
        std::mem::swap(&mut src, &mut self.buckets);
        let n = src.len();
        let mut i: usize = 0;
        while i < n
            invariant
                n == old_bs.len(),
                src@.len() == n,
                i <= n,
                key_chars@ == key,
                keys_unique(old_bs),
                forall|q: int| i <= q < n ==> src@[q] == old_bs[q],
                forall|q: int| 0 <= q < kept@.len() ==> fresh_enough((#[trigger] kept@[q]).1, now) && (kept@[q].0)@ != key,
                keys_unique(kept@),
                forall|q: int| 0 <= q < kept@.len() ==> exists|p: int| 0 <= p < i && #[trigger] kept@[q] == old_bs[p],
                forall|p: int| 0 <= p < i && fresh_enough(old_bs[p].1, now) && old_bs[p].0@ != key ==> exists|q: int| 0 <= q < kept@.len() && #[trigger] kept@[q] == old_bs[p],
                found is Some ==> exists|p: int| 0 <= p < i && old_bs[p].0@ == key && fresh_enough(old_bs[p].1, now) && found == Some(old_bs[p].1),
                found is None ==> forall|p: int| 0 <= p < i ==> !(old_bs[p].0@ == key && fresh_enough(#[trigger] old_bs[p].1, now)),
            decreases n - i,
        {
            let mut item: (String, Bucket) = (String::new(), Bucket { window_start: 0, count: 0, last_seen: 0 });
            std::mem::swap(&mut item, &mut src[i]);
            assert(item == old_bs[i as int]);
            let idle = (item.1.last_seen as i128) < (now as i128) - (IDLE_SECS as i128);
            if !idle {
                if chars_eq(&chars_of(item.0.as_str()), &key_chars) {
                    found = Some(item.1);
                } else {
                    proof {
                        assert forall|q: int| 0 <= q < kept@.len() implies (#[trigger] kept@[q]).0@ != item.0@ by {
                            let p = choose|p: int| 0 <= p < i && kept@[q] == old_bs[p];
                            assert(old_bs[p].0@ != old_bs[i as int].0@);
                        }
                    }
                    let ghost before = kept@;
                    kept.push(item);
                    proof {
                        assert forall|p: int| 0 <= p < i + 1 && fresh_enough(old_bs[p].1, now) && old_bs[p].0@ != key implies exists|q: int| 0 <= q < kept@.len() && #[trigger] kept@[q] == old_bs[p] by {
                            if p < i {
                                let q = choose|q: int| 0 <= q < before.len() && before[q] == old_bs[p];
                                assert(kept@[q] == old_bs[p]);
                            } else {
                                assert(kept@[before.len() as int] == old_bs[p]);
                            }
                        }
                        assert forall|q: int| 0 <= q < kept@.len() implies exists|p: int| 0 <= p < i + 1 && #[trigger] kept@[q] == old_bs[p] by {
                            if q < before.len() {
                                let p = choose|p: int| 0 <= p < i && before[q] == old_bs[p];
                                assert(kept@[q] == old_bs[p]);
                            } else {
                                assert(kept@[q] == old_bs[i as int]);
                            }
                        }
                    }
                }
            }
            i = i + 1;
        }
        let b0 = match found {
            Some(b) => b,
            None => Bucket { window_start: now, count: 0, last_seen: now },
        };
        proof {
            match kept_lookup(old_bs, key, now) {
                Some(b) => {
                    let p = lemma_lookup_found(old_bs, key);
                    assert(found is Some);
                    let p2 = choose|p2: int| 0 <= p2 < n && old_bs[p2].0@ == key && fresh_enough(old_bs[p2].1, now) && found == Some(old_bs[p2].1);
                    if p2 != p {
                        if p2 < p { assert(old_bs[p2].0@ != old_bs[p].0@); } else { assert(old_bs[p].0@ != old_bs[p2].0@); }
                    }
                },
                None => {
                    if found is Some {
                        let p2 = choose|p2: int| 0 <= p2 < n && old_bs[p2].0@ == key && fresh_enough(old_bs[p2].1, now) && found == Some(old_bs[p2].1);
                        lemma_lookup_unique(old_bs, p2);
                    }
                },
            }
        }
        let (ok, b1) = step_bucket(b0, now, limit);
        let ghost before = kept@;
        kept.push((string_of(&key_chars), b1));
        self.buckets = kept;
        proof {
            let bs = self.buckets@;
            assert forall|a: int, b: int| 0 <= a < b < bs.len() implies (#[trigger] bs[a]).0@ != (#[trigger] bs[b]).0@ by {
                if b == before.len() {
                    assert(bs[a] == before[a]);
                }
            }
            lemma_lookup_unique(bs, before.len() as int);
            assert forall|k: Seq<char>| k != key implies #[trigger] lookup(bs, k) == kept_lookup(old_bs, k, now) by {
                match kept_lookup(old_bs, k, now) {
                    Some(b) => {
                        let p = lemma_lookup_found(old_bs, k);
                        let q = choose|q: int| 0 <= q < before.len() && #[trigger] before[q] == old_bs[p];
                        assert(bs[q] == before[q]);
                        lemma_lookup_unique(bs, q);
                    },
                    None => {
                        assert forall|q: int| 0 <= q < bs.len() implies (#[trigger] bs[q]).0@ != k by {
                            if q < before.len() {
                                let p = choose|p: int| 0 <= p < n && #[trigger] before[q] == old_bs[p];
                                assert(bs[q] == before[q]);
                                if old_bs[p].0@ == k {
                                    lemma_lookup_unique(old_bs, p);
                                }
                            }
                        }
                        lemma_lookup_absent(bs, k);
                    },
                }
            }
            assert forall|q: int| 0 <= q < bs.len() implies fresh_enough((#[trigger] bs[q]).1, now) by {
                if q < before.len() {
                    assert(bs[q] == before[q]);
                }
            }
        }
        if ok { RateDecision::Allow } else { RateDecision::Limited }
    }
}

} // verus!
