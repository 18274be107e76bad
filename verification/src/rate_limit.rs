//! Token buckets for order entry. Time is given by the caller, in whole
//! seconds.
use crate::maps::{buckets_get, buckets_insert, buckets_list, buckets_new};
use crate::text;
use crate::text_map::TextMap;
use dashmap::DashMap;
use vstd::prelude::*;

verus! {

#[derive(Clone, Copy, Debug, PartialEq, Eq, Structural)]
pub struct RateLimitPolicy {
    pub requests_per_second: u32,
    /// The size of the bucket.
    pub burst_capacity: u32,
}

impl RateLimitPolicy {
    pub fn default_trading() -> (r: RateLimitPolicy)
        ensures
            r.requests_per_second == 100,
            r.burst_capacity == 200,
    {
        RateLimitPolicy { requests_per_second: 100, burst_capacity: 200 }
    }

    pub fn strict() -> (r: RateLimitPolicy)
        ensures
            r.requests_per_second == 10,
            r.burst_capacity == 20,
    {
        RateLimitPolicy { requests_per_second: 10, burst_capacity: 20 }
    }

    pub fn lenient() -> (r: RateLimitPolicy)
        ensures
            r.requests_per_second == 1000,
            r.burst_capacity == 2000,
    {
        RateLimitPolicy { requests_per_second: 1000, burst_capacity: 2000 }
    }

    /// The policy that two settings call for: none without a positive rate;
    /// the burst is twice the rate where it is missing, and at least one.
    pub fn from_settings(rps: Option<&str>, burst: Option<&str>) -> (r: Option<RateLimitPolicy>)
        requires
            policy_rate(text::opt_str(rps)) * 2 <= u32::MAX,
        ensures
            r == policy_of(text::opt_str(rps), text::opt_str(burst)),
    {
        let rate: u32 = match rps {
            Some(s) => match text::parse_bounded_chars(text::to_chars(s).as_slice(), 0xffff_ffff) {
                Some(v) => v as u32,
                None => {
                    return None;
                },
            },
            None => {
                return None;
            },
        };
        if rate == 0 {
            return None;
        }
        let doubled = rate * 2;
        let size: u32 = match burst {
            Some(s) => match text::parse_bounded_chars(text::to_chars(s).as_slice(), 0xffff_ffff) {
                Some(v) => v as u32,
                None => doubled,
            },
            None => doubled,
        };
        Some(
            RateLimitPolicy {
                requests_per_second: rate,
                burst_capacity: if size < 1 {
                    1
                } else {
                    size
                },
            },
        )
    }
}

/// The rate that a setting holds, zero where it holds none.
pub open spec fn policy_rate(rps: Option<Seq<char>>) -> int {
    match rps {
        Some(s) => match text::bounded_value(s, 0xffff_ffff) {
            Some(v) => v as int,
            None => 0,
        },
        None => 0,
    }
}

pub open spec fn policy_of(
    rps: Option<Seq<char>>,
    burst: Option<Seq<char>>,
) -> Option<RateLimitPolicy> {
    let rate = policy_rate(rps);
    let size = match burst {
        Some(s) => match text::bounded_value(s, 0xffff_ffff) {
            Some(v) => v as int,
            None => rate * 2,
        },
        None => rate * 2,
    };
    if rate == 0 {
        None
    } else {
        Some(
            RateLimitPolicy {
                requests_per_second: rate as u32,
                burst_capacity: if size < 1 {
                    1
                } else {
                    size as u32
                },
            },
        )
    }
}

/// The tokens of one client.
#[derive(Clone, Copy, Debug, PartialEq, Eq, Structural)]
pub struct TokenBucket {
    pub tokens: u64,
    pub last_update: u64,
    pub policy: RateLimitPolicy,
}

pub open spec fn least(a: int, b: int) -> int {
    if a < b {
        a
    } else {
        b
    }
}

impl TokenBucket {
    pub open spec fn full(policy: RateLimitPolicy, now: u64) -> TokenBucket {
        TokenBucket { tokens: policy.burst_capacity as u64, last_update: now, policy }
    }

    /// The bucket brought up to date: the rate times the time that has passed,
    /// never more than the bucket holds.
    pub open spec fn refilled(self, now: u64) -> TokenBucket {
        TokenBucket {
            tokens: least(
                self.tokens + (now - self.last_update) * self.policy.requests_per_second,
                self.policy.burst_capacity as int,
            ) as u64,
            last_update: now,
            policy: self.policy,
        }
    }

    /// Whether the bucket holds `n` tokens once it is up to date.
    pub open spec fn grants(self, now: u64, n: u32) -> bool {
        self.refilled(now).tokens >= n
    }

    /// The bucket after a request for `n` tokens.
    pub open spec fn after(self, now: u64, n: u32) -> TokenBucket {
        let b = self.refilled(now);
        if b.tokens >= n {
            TokenBucket { tokens: (b.tokens - n) as u64, ..b }
        } else {
            b
        }
    }

    /// A full bucket.
    pub fn new(policy: RateLimitPolicy, now: u64) -> (r: TokenBucket)
        ensures
            r == TokenBucket::full(policy, now),
    {
        TokenBucket { tokens: policy.burst_capacity as u64, last_update: now, policy }
    }

    /// Brings the bucket up to date.
    pub fn refill(&mut self, now: u64)
        requires
            old(self).last_update <= now,
        ensures
            *final(self) == old(self).refilled(now),
    {
        let elapsed = (now - self.last_update) as u128;
        let rate = self.policy.requests_per_second as u128;
        proof {
            assert(elapsed * rate <= 0xffff_ffff_ffff_ffff * 0xffff_ffff) by (nonlinear_arith)
                requires
                    0 <= elapsed <= 0xffff_ffff_ffff_ffff,
                    0 <= rate <= 0xffff_ffff,
            ;
        }
        let total = self.tokens as u128 + elapsed * rate;
        let cap = self.policy.burst_capacity as u128;
        self.tokens = if total < cap {
            total as u64
        } else {
            cap as u64
        };
        self.last_update = now;
    }

    /// Takes `tokens` where the bucket holds them.
    pub fn try_consume(&mut self, tokens: u32, now: u64) -> (r: bool)
        requires
            old(self).last_update <= now,
        ensures
            r == old(self).grants(now, tokens),
            *final(self) == old(self).after(now, tokens),
    {
        self.refill(now);
        if self.tokens >= tokens as u64 {
            self.tokens = self.tokens - tokens as u64;
            true
        } else {
            false
        }
    }
}

/// A bucket after requests at given times, one after the other.
pub open spec fn replay(b: TokenBucket, requests: Seq<(u64, u32)>) -> TokenBucket
    decreases requests.len(),
{
    if requests.len() == 0 {
        b
    } else {
        replay(b, requests.drop_last()).after(requests.last().0, requests.last().1)
    }
}

/// The tokens granted to requests at given times.
pub open spec fn granted(b: TokenBucket, requests: Seq<(u64, u32)>) -> int
    decreases requests.len(),
{
    if requests.len() == 0 {
        0
    } else {
        let before = replay(b, requests.drop_last());
        granted(b, requests.drop_last()) + (if before.grants(
            requests.last().0,
            requests.last().1,
        ) {
            requests.last().1 as int
        } else {
            0
        })
    }
}

/// However requests come in, no more is granted than the bucket held at first
/// and the rate has added since; once the bucket has been refilled it never
/// holds more than its burst.
pub proof fn law_grants_are_bounded(b: TokenBucket, requests: Seq<(u64, u32)>)
    requires
        b.tokens <= b.policy.burst_capacity,
        forall|i: int| 0 <= i < requests.len() ==> b.last_update <= (#[trigger] requests[i]).0,
        forall|i: int, j: int|
            0 <= i <= j < requests.len() ==> (#[trigger] requests[i]).0 <= (#[trigger] requests[j]).0,
    ensures
        replay(b, requests).policy == b.policy,
        replay(b, requests).tokens <= b.policy.burst_capacity,
        replay(b, requests).last_update == (if requests.len() == 0 {
            b.last_update
        } else {
            requests.last().0
        }),
        granted(b, requests) + replay(b, requests).tokens <= b.tokens + (replay(
            b,
            requests,
        ).last_update - b.last_update) * b.policy.requests_per_second,
    decreases requests.len(),
{
    if requests.len() > 0 {
        let rest = requests.drop_last();
        assert forall|i: int| 0 <= i < rest.len() implies b.last_update <= (
        #[trigger] rest[i]).0 by {
            assert(rest[i] == requests[i]);
        }
        assert forall|i: int, j: int| 0 <= i <= j < rest.len() implies (#[trigger] rest[i]).0 <= (
        #[trigger] rest[j]).0 by {
            assert(rest[i] == requests[i]);
            assert(rest[j] == requests[j]);
        }
        law_grants_are_bounded(b, rest);
        let mid = replay(b, rest);
        let now = requests.last().0;
        let rate = b.policy.requests_per_second as int;
        assert(mid.last_update <= now) by {
            if rest.len() > 0 {
                assert(rest.last() == requests[rest.len() - 1]);
                assert(requests[rest.len() - 1].0 <= requests[requests.len() - 1].0);
            } else {
                assert(b.last_update <= requests[0].0);
            }
        }
        let a = mid.last_update - b.last_update;
        let c = now - mid.last_update;
        assert((a + c) * rate == a * rate + c * rate) by (nonlinear_arith);
        assert(c * rate >= 0) by (nonlinear_arith)
            requires
                c >= 0,
                rate >= 0,
        ;
    }
}

/// Text of a refusal that names rate and burst.
pub open spec fn limit_text(policy: RateLimitPolicy, with_burst: bool) -> Seq<char> {
    let head = "Rate limit exceeded: "@ + text::nat_text(policy.requests_per_second as nat)
        + " req/sec"@;
    if with_burst {
        head + " (burst: "@ + text::nat_text(policy.burst_capacity as nat) + ")"@
    } else {
        head
    }
}

fn limit_message(policy: RateLimitPolicy, with_burst: bool) -> (r: String)
    ensures
        r@ == limit_text(policy, with_burst),
{
    let mut out = String::new();
    out.append("Rate limit exceeded: ");
    text::append_nat(&mut out, policy.requests_per_second as u128);
    out.append(" req/sec");
    if with_burst {
        out.append(" (burst: ");
        text::append_nat(&mut out, policy.burst_capacity as u128);
        out.append(")");
    }
    proof {
        assert(out@ =~= limit_text(policy, with_burst));
    }
    out
}

/// Limits clients by name, each with its own bucket.
pub struct RateLimiter {
    buckets: TextMap<TokenBucket>,
    default_policy: RateLimitPolicy,
    custom_policies: TextMap<RateLimitPolicy>,
}

impl RateLimiter {
    pub closed spec fn buckets(&self) -> Map<Seq<char>, TokenBucket> {
        self.buckets.view()
    }

    pub closed spec fn custom(&self) -> Map<Seq<char>, RateLimitPolicy> {
        self.custom_policies.view()
    }

    pub closed spec fn fallback(&self) -> RateLimitPolicy {
        self.default_policy
    }

    pub closed spec fn wf(&self) -> bool {
        self.buckets.wf() && self.custom_policies.wf()
    }

    /// The policy of a client.
    pub open spec fn policy(&self, client: Seq<char>) -> RateLimitPolicy {
        if self.custom().contains_key(client) {
            self.custom()[client]
        } else {
            self.fallback()
        }
    }

    /// The bucket of a client; a client that comes for the first time has a
    /// full one.
    pub open spec fn bucket(&self, client: Seq<char>, now: u64) -> TokenBucket {
        if self.buckets().contains_key(client) {
            self.buckets()[client]
        } else {
            TokenBucket::full(self.policy(client), now)
        }
    }

    pub fn new(default_policy: RateLimitPolicy) -> (r: RateLimiter)
        ensures
            r.wf(),
            (r.buckets() == Map::<Seq<char>, TokenBucket>::empty()),
            (r.custom() == Map::<Seq<char>, RateLimitPolicy>::empty()),
            r.fallback() == default_policy,
    {
        RateLimiter {
            buckets: TextMap::new(),
            default_policy,
            custom_policies: TextMap::new(),
        }
    }

    /// Gives a client a policy of its own; its bucket starts anew.
    pub fn set_policy(&mut self, client_id: &str, policy: RateLimitPolicy)
        requires
            old(self).wf(),
        ensures
            final(self).wf(),
            final(self).custom() == old(self).custom().insert(client_id@, policy),
            final(self).buckets() == old(self).buckets().remove(client_id@),
            final(self).fallback() == old(self).fallback(),
    {
        self.custom_policies.insert(client_id, policy);
        self.buckets.remove(client_id);
    }

    fn find_policy(&self, client_id: &str) -> (r: RateLimitPolicy)
        requires
            self.wf(),
        ensures
            r == self.policy(client_id@),
    {
        match self.custom_policies.get(client_id) {
            Some(policy) => policy,
            None => self.default_policy,
        }
    }

    fn find_bucket(&self, client_id: &str, now: u64) -> (r: TokenBucket)
        requires
            self.wf(),
        ensures
            r == self.bucket(client_id@, now),
    {
        match self.buckets.get(client_id) {
            Some(bucket) => bucket,
            None => TokenBucket::new(self.find_policy(client_id), now),
        }
    }

    /// Tells whether a token is there, without taking it.
    pub fn check_limit(&mut self, client_id: &str, now: u64) -> (r: Result<(), String>)
        requires
            old(self).wf(),
            old(self).bucket(client_id@, now).last_update <= now,
        ensures
            final(self).wf(),
            r is Ok <==> old(self).bucket(client_id@, now).grants(now, 1),
            r is Err ==> (r->Err_0)@ == limit_text(old(self).policy(client_id@), true),
            final(self).buckets() == old(self).buckets().insert(
                client_id@,
                old(self).bucket(client_id@, now).refilled(now),
            ),
            final(self).custom() == old(self).custom(),
            final(self).fallback() == old(self).fallback(),
    {
        let policy = self.find_policy(client_id);
        let mut bucket = self.find_bucket(client_id, now);
        bucket.refill(now);
        self.buckets.insert(client_id, bucket);
        if bucket.tokens >= 1 {
            Ok(())
        } else {
            Err(limit_message(policy, true))
        }
    }

    /// Takes tokens where they are there.
    pub fn consume(&mut self, client_id: &str, tokens: u32, now: u64) -> (r: Result<(), String>)
        requires
            old(self).wf(),
            old(self).bucket(client_id@, now).last_update <= now,
        ensures
            final(self).wf(),
            r is Ok <==> old(self).bucket(client_id@, now).grants(now, tokens),
            r is Err ==> (r->Err_0)@ == limit_text(old(self).policy(client_id@), false),
            final(self).buckets() == old(self).buckets().insert(
                client_id@,
                old(self).bucket(client_id@, now).after(now, tokens),
            ),
            final(self).custom() == old(self).custom(),
            final(self).fallback() == old(self).fallback(),
    {
        let policy = self.find_policy(client_id);
        let mut bucket = self.find_bucket(client_id, now);
        let granted = bucket.try_consume(tokens, now);
        self.buckets.insert(client_id, bucket);
        if granted {
            Ok(())
        } else {
            Err(limit_message(policy, false))
        }
    }

    /// The tokens a client has now.
    pub fn get_tokens(&mut self, client_id: &str, now: u64) -> (r: u64)
        requires
            old(self).wf(),
            old(self).bucket(client_id@, now).last_update <= now,
        ensures
            final(self).wf(),
            r == old(self).bucket(client_id@, now).refilled(now).tokens,
            final(self).buckets() == old(self).buckets().insert(
                client_id@,
                old(self).bucket(client_id@, now).refilled(now),
            ),
            final(self).custom() == old(self).custom(),
            final(self).fallback() == old(self).fallback(),
    {
        let mut bucket = self.find_bucket(client_id, now);
        bucket.refill(now);
        self.buckets.insert(client_id, bucket);
        bucket.tokens
    }

    /// Forgets the bucket of a client.
    pub fn reset(&mut self, client_id: &str)
        requires
            old(self).wf(),
        ensures
            final(self).wf(),
            final(self).buckets() == old(self).buckets().remove(client_id@),
            final(self).custom() == old(self).custom(),
            final(self).fallback() == old(self).fallback(),
    {
        self.buckets.remove(client_id);
    }

    /// Forgets every bucket.
    pub fn reset_all(&mut self)
        requires
            old(self).wf(),
        ensures
            final(self).wf(),
            (final(self).buckets() == Map::<Seq<char>, TokenBucket>::empty()),
            final(self).custom() == old(self).custom(),
            final(self).fallback() == old(self).fallback(),
    {
        self.buckets.clear();
    }
}

/// Placing burns matching capacity; cancels are cheap and have to stay
/// available when placing is limited.
#[derive(Clone, Copy, Debug, PartialEq, Eq, Structural)]
pub enum OpClass {
    Place,
    Cancel,
}

impl OpClass {
    pub open spec fn code(self) -> u8 {
        match self {
            OpClass::Place => 0,
            OpClass::Cancel => 1,
        }
    }

    pub open spec fn refusal_text(self) -> Seq<char> {
        match self {
            OpClass::Place => "rate limit exceeded (place)"@,
            OpClass::Cancel => "rate limit exceeded (cancel)"@,
        }
    }

    pub fn as_u8(self) -> (r: u8)
        ensures
            r == self.code(),
    {
        match self {
            OpClass::Place => 0,
            OpClass::Cancel => 1,
        }
    }
}

/// Limits users across all their connections, by class of operation.
pub struct SharedRateLimiter {
    place: Option<RateLimitPolicy>,
    cancel: Option<RateLimitPolicy>,
    buckets: DashMap<(i64, u8), TokenBucket>,
}

/// One bucket of a snapshot: user, class, tokens and the time it was current.
pub type BucketState = (i64, u8, i64, u64);

impl SharedRateLimiter {
    pub closed spec fn view(&self) -> Map<(i64, u8), TokenBucket> {
        crate::maps::bucket_entries(self.buckets)
    }

    /// The policy of a class by number; `None` where the class is not limited.
    pub closed spec fn policy(&self, op: u8) -> Option<RateLimitPolicy> {
        if op == 0 {
            self.place
        } else if op == 1 {
            self.cancel
        } else {
            None
        }
    }

    pub open spec fn bucket(&self, user_id: i64, op: OpClass, now: u64) -> TokenBucket {
        if self.view().contains_key((user_id, op.code())) {
            self.view()[(user_id, op.code())]
        } else {
            TokenBucket::full(self.policy(op.code())->0, now)
        }
    }

    pub fn new(place: Option<RateLimitPolicy>, cancel: Option<RateLimitPolicy>) -> (r:
        SharedRateLimiter)
        ensures
            (r.view() == Map::<(i64, u8), TokenBucket>::empty()),
            r.policy(0) == place,
            r.policy(1) == cancel,
            forall|op: u8| op > 1 ==> #[trigger] r.policy(op) is None,
    {
        SharedRateLimiter { place, cancel, buckets: buckets_new() }
    }

    pub fn is_enabled(&self) -> (r: bool)
        ensures
            r == (self.policy(0) is Some || self.policy(1) is Some),
    {
        self.place.is_some() || self.cancel.is_some()
    }

    /// Takes one token of the user's class; a class that is not limited always
    /// passes.
    pub fn try_consume(&mut self, user_id: i64, op: OpClass, now: u64) -> (r: Result<
        (),
        &'static str,
    >)
        requires
            old(self).policy(op.code()) is Some ==> old(self).bucket(
                user_id,
                op,
                now,
            ).last_update <= now,
        ensures
            forall|o: u8| #[trigger] final(self).policy(o) == old(self).policy(o),
            old(self).policy(op.code()) is None ==> r is Ok && final(self).view() == old(
                self,
            ).view(),
            old(self).policy(op.code()) is Some ==> {
                let b = old(self).bucket(user_id, op, now);
                &&& r is Ok <==> b.grants(now, 1)
                &&& final(self).view() == old(self).view().insert(
                    (user_id, op.code()),
                    b.after(now, 1),
                )
            },
            r is Err ==> (r->Err_0)@ == op.refusal_text(),
    {
        let policy = match op {
            OpClass::Place => self.place,
            OpClass::Cancel => self.cancel,
        };
        let policy = match policy {
            Some(policy) => policy,
            None => {
                return Ok(());
            },
        };
        let key = (user_id, op.as_u8());
        let mut bucket = match buckets_get(&self.buckets, key) {
            Some(bucket) => bucket,
            None => TokenBucket::new(policy, now),
        };
        let granted = bucket.try_consume(1, now);
        buckets_insert(&mut self.buckets, key, bucket);
        if granted {
            Ok(())
        } else {
            match op {
                OpClass::Place => Err("rate limit exceeded (place)"),
                OpClass::Cancel => Err("rate limit exceeded (cancel)"),
            }
        }
    }

    /// Every bucket, brought up to date, each once.
    pub fn snapshot(&mut self, now: u64) -> (r: Vec<BucketState>)
        requires
            forall|k: (i64, u8)| #[trigger]
                old(self).view().contains_key(k) ==> old(self).view()[k].last_update <= now,
        ensures
            forall|o: u8| #[trigger] final(self).policy(o) == old(self).policy(o),
            final(self).view() == old(self).view().map_values(
                |b: TokenBucket| b.refilled(now),
            ),
            forall|i: int|
                0 <= i < r@.len() ==> {
                    let k = ((#[trigger] r@[i]).0, r@[i].1);
                    &&& final(self).view().contains_key(k)
                    &&& r@[i].2 == final(self).view()[k].tokens
                    &&& r@[i].3 == now
                },
            forall|k: (i64, u8)| #[trigger]
                final(self).view().contains_key(k) ==> exists|i: int|
                    0 <= i < r@.len() && (#[trigger] r@[i]).0 == k.0 && r@[i].1 == k.1,
            forall|i: int, j: int|
                0 <= i < j < r@.len() ==> (r@[i].0, r@[i].1) != (r@[j].0, r@[j].1),
    {
        let entries = buckets_list(&self.buckets);
        let ghost v = self.view();
        let mut out: Vec<BucketState> = Vec::new();
        let mut i: usize = 0;
        while i < entries.len()
            invariant
                0 <= i <= entries@.len(),
                self.place == old(self).place,
                self.cancel == old(self).cancel,
                forall|k: (i64, u8)| #[trigger]
                    v.contains_key(k) ==> v[k].last_update <= now,
                forall|j: int|
                    0 <= j < entries@.len() ==> v.contains_key((#[trigger] entries@[j]).0)
                        && v[entries@[j].0] == entries@[j].1,
                forall|a: int, b: int|
                    0 <= a < b < entries@.len() ==> entries@[a].0 != entries@[b].0,
                self.view().dom() == v.dom(),
                forall|j: int|
                    0 <= j < i ==> self.view()[(#[trigger] entries@[j]).0] == v[entries@[j].0].refilled(
                        now,
                    ),
                forall|j: int|
                    i <= j < entries@.len() ==> self.view()[(#[trigger] entries@[j]).0]
                        == v[entries@[j].0],
                out@.len() == i,
                forall|j: int|
                    0 <= j < i ==> {
                        &&& (#[trigger] out@[j]).0 == entries@[j].0.0
                        &&& out@[j].1 == entries@[j].0.1
                        &&& out@[j].2 == v[entries@[j].0].refilled(now).tokens
                        &&& out@[j].3 == now
                    },
            decreases entries@.len() - i,
        {
            let (key, stored) = entries[i];
            let mut bucket = stored;
            proof {
                assert(v.contains_key(entries@[i as int].0));
            }
            bucket.refill(now);
            buckets_insert(&mut self.buckets, key, bucket);
            out.push((key.0, key.1, bucket.tokens as i64, bucket.last_update));
            proof {
                assert(self.view().dom() =~= v.dom());
                assert forall|j: int| i < j < entries@.len() implies self.view()[(
                #[trigger] entries@[j]).0] == v[entries@[j].0] by {
                    assert(entries@[i as int].0 != entries@[j].0);
                }
                assert forall|j: int| 0 <= j < i + 1 implies self.view()[(
                #[trigger] entries@[j]).0] == v[entries@[j].0].refilled(now) by {
                    if j < i {
                        assert(entries@[j].0 != entries@[i as int].0);
                    }
                }
            }
            i = i + 1;
        }
        proof {
            let goal = v.map_values(|b: TokenBucket| b.refilled(now));
            assert forall|k: (i64, u8)| #[trigger] v.contains_key(k) implies self.view()[k]
                == goal[k] by {
                let j = choose|j: int| 0 <= j < entries@.len() && (#[trigger] entries@[j]).0 == k;
                assert(self.view()[entries@[j].0] == v[entries@[j].0].refilled(now));
            }
            assert(self.view() =~= goal);
            assert forall|j: int| 0 <= j < out@.len() implies {
                let k = ((#[trigger] out@[j]).0, out@[j].1);
                &&& self.view().contains_key(k)
                &&& out@[j].2 == self.view()[k].tokens
                &&& out@[j].3 == now
            } by {
                assert((out@[j].0, out@[j].1) == entries@[j].0);
                assert(v.contains_key(entries@[j].0));
            }
            assert forall|k: (i64, u8)| #[trigger] self.view().contains_key(k) implies exists|
                i: int,
            |
                0 <= i < out@.len() && (#[trigger] out@[i]).0 == k.0 && out@[i].1 == k.1 by {
                assert(v.contains_key(k));
                let j = choose|j: int| 0 <= j < entries@.len() && (#[trigger] entries@[j]).0 == k;
                assert(out@[j].0 == k.0);
            }
            assert forall|a: int, b: int| 0 <= a < b < out@.len() implies (out@[a].0, out@[a].1)
                != (out@[b].0, out@[b].1) by {
                assert(entries@[a].0 != entries@[b].0);
                assert((out@[a].0, out@[a].1) == entries@[a].0);
                assert((out@[b].0, out@[b].1) == entries@[b].0);
            }
        }
        out
    }

    /// Takes over saved buckets. Tokens are clamped to the policy in force, so
    /// that a smaller policy never grants more than its burst; buckets of a
    /// class that is not limited are dropped.
    pub fn restore(&mut self, entries: &Vec<BucketState>)
        ensures
            forall|o: u8| #[trigger] final(self).policy(o) == old(self).policy(o),
            final(self).view() == restored(
                old(self).view(),
                old(self).policy(0),
                old(self).policy(1),
                entries@,
            ),
    {
        let ghost v = self.view();
        let mut i: usize = 0;
        while i < entries.len()
            invariant
                0 <= i <= entries@.len(),
                self.place == old(self).place,
                self.cancel == old(self).cancel,
                self.view() == restored(
                    v,
                    old(self).policy(0),
                    old(self).policy(1),
                    entries@.take(i as int),
                ),
            decreases entries@.len() - i,
        {
            let (user_id, op, tokens, last_update) = entries[i];
            proof {
                assert(entries@.take(i + 1).drop_last() =~= entries@.take(i as int));
                assert(self.policy(0) == old(self).policy(0));
                assert(self.policy(1) == old(self).policy(1));
            }
            let policy = match op {
                0 => self.place,
                1 => self.cancel,
                _ => None,
            };
            if let Some(policy) = policy {
                let cap = policy.burst_capacity as i64;
                let kept = if tokens < 0 {
                    0
                } else if tokens > cap {
                    cap
                } else {
                    tokens
                };
                let bucket = TokenBucket { tokens: kept as u64, last_update, policy };
                buckets_insert(&mut self.buckets, (user_id, op), bucket);
            }
            i = i + 1;
        }
        proof {
            assert(entries@.take(i as int) =~= entries@);
        }
    }
}

/// A saved bucket as it is taken over.
pub open spec fn clamped_bucket(policy: RateLimitPolicy, tokens: i64, last_update: u64) -> TokenBucket {
    TokenBucket {
        tokens: if tokens < 0 {
            0
        } else if tokens > policy.burst_capacity {
            policy.burst_capacity as u64
        } else {
            tokens as u64
        },
        last_update,
        policy,
    }
}

/// The buckets after saved ones were taken over one after the other.
pub open spec fn restored(
    m: Map<(i64, u8), TokenBucket>,
    place: Option<RateLimitPolicy>,
    cancel: Option<RateLimitPolicy>,
    entries: Seq<BucketState>,
) -> Map<(i64, u8), TokenBucket>
    decreases entries.len(),
{
    if entries.len() == 0 {
        m
    } else {
        let before = restored(m, place, cancel, entries.drop_last());
        let (user_id, op, tokens, last_update) = entries.last();
        let policy = if op == 0 {
            place
        } else if op == 1 {
            cancel
        } else {
            None
        };
        match policy {
            Some(p) => before.insert((user_id, op), clamped_bucket(p, tokens, last_update)),
            None => before,
        }
    }
}

/// Taking over saved buckets mints no tokens: a bucket comes back with what it
/// had, cut to the burst of the policy in force.
pub proof fn law_restore_never_mints(policy: RateLimitPolicy, tokens: i64, last_update: u64)
    ensures
        clamped_bucket(policy, tokens, last_update).tokens <= policy.burst_capacity,
        tokens >= 0 ==> clamped_bucket(policy, tokens, last_update).tokens <= tokens,
        0 <= tokens <= policy.burst_capacity ==> clamped_bucket(
            policy,
            tokens,
            last_update,
        ).tokens == tokens,
{
}

/// A bucket gains its rate for every second up to its size, grants what it
/// holds and nothing more, and pays exactly what it grants; a refusal costs
/// nothing. A fresh bucket is full.
pub proof fn law_bucket_pays_what_it_grants(b: TokenBucket, now: u64, n: u32)
    requires
        b.last_update <= now,
        b.tokens <= b.policy.burst_capacity,
    ensures
        b.grants(now, n) <==> n <= b.policy.burst_capacity && n <= b.tokens + (now - b.last_update)
            * b.policy.requests_per_second,
        b.grants(now, n) ==> b.after(now, n).tokens + n == b.refilled(now).tokens,
        !b.grants(now, n) ==> b.after(now, n).tokens == b.refilled(now).tokens,
        b.refilled(now).tokens >= b.tokens,
        b.refilled(now).tokens <= b.policy.burst_capacity,
        b.refilled(now).tokens <= b.tokens + (now - b.last_update) * b.policy.requests_per_second,
        b.tokens + (now - b.last_update) * b.policy.requests_per_second <= b.policy.burst_capacity
            ==> b.refilled(now).tokens == b.tokens + (now - b.last_update)
            * b.policy.requests_per_second,
        b.after(now, n).last_update == now,
        b.after(now, n).policy == b.policy,
        TokenBucket::full(b.policy, now).grants(now, b.policy.burst_capacity),
        !TokenBucket::full(b.policy, now).after(now, b.policy.burst_capacity).grants(now, 1),
{
    let gain = (now - b.last_update) * b.policy.requests_per_second;
    assert(gain >= 0) by (nonlinear_arith)
        requires
            gain == (now - b.last_update) * b.policy.requests_per_second,
            b.last_update <= now,
    ;
    assert((now - now) * b.policy.requests_per_second == 0) by (nonlinear_arith);
}

/// A restored bucket is the last one that was handed in for its user and
/// operation, where the operation is limited; all others stay.
pub proof fn law_restore_touches_what_it_names(
    m: Map<(i64, u8), TokenBucket>,
    place: Option<RateLimitPolicy>,
    cancel: Option<RateLimitPolicy>,
    entries: Seq<BucketState>,
    key: (i64, u8),
)
    ensures
        (forall|i: int|
            0 <= i < entries.len() ==> ((#[trigger] entries[i]).0, entries[i].1) != key)
            ==> restored(m, place, cancel, entries).contains_key(key) == m.contains_key(key)
            && restored(m, place, cancel, entries)[key] == m[key],
        entries.len() > 0 && (entries.last().0, entries.last().1) == key && (key.1 == 0 && place
            is Some || key.1 == 1 && cancel is Some) ==> ({
            let b = restored(m, place, cancel, entries)[key];
            let p = if key.1 == 0 {
                place->0
            } else {
                cancel->0
            };
            &&& restored(m, place, cancel, entries).contains_key(key)
            &&& b.policy == p
            &&& b.last_update == entries.last().3
            &&& 0 <= entries.last().2 <= p.burst_capacity ==> b.tokens == entries.last().2
            &&& entries.last().2 > p.burst_capacity ==> b.tokens == p.burst_capacity
            &&& entries.last().2 < 0 ==> b.tokens == 0
        }),
    decreases entries.len(),
{
    if entries.len() > 0 {
        let d = entries.drop_last();
        if forall|i: int|
            0 <= i < entries.len() ==> ((#[trigger] entries[i]).0, entries[i].1) != key {
            assert forall|i: int| 0 <= i < d.len() implies ((#[trigger] d[i]).0, d[i].1) != key by {
                assert(d[i] == entries[i]);
            }
            assert((entries[entries.len() - 1].0, entries[entries.len() - 1].1) != key);
        }
        law_restore_touches_what_it_names(m, place, cancel, d, key);
    }
}

} // verus!
