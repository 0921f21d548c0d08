//! The decisions of the webhook handler: which requests run the command,
//! token checking and rate limiting.

use vstd::prelude::*;
use vstd::utf8::encode_utf8_decode_utf8;
use crate::clock::now_millis;
use crate::text::str_eq;

verus! {

/// Constant-time string comparison to prevent timing attacks.
/// Returns true if both strings are equal, comparing all bytes
/// regardless of where differences occur.
pub fn constant_time_compare(a: &str, b: &str) -> (r: bool)
    ensures
        r == (a@ == b@),
{
    let a_bytes = a.as_bytes();
    let b_bytes = b.as_bytes();
    proof {
        encode_utf8_decode_utf8(a@);
        encode_utf8_decode_utf8(b@);
    }
    if a_bytes.len() != b_bytes.len() {
        return false;
    }
    let mut result: u8 = 0;
    let mut i: usize = 0;
    while i < a_bytes.len()
        invariant
            a_bytes.len() == b_bytes.len(),
            i <= a_bytes.len(),
            (result == 0) <==> (forall|j: int| 0 <= j < i ==> a_bytes@[j] == b_bytes@[j]),
        decreases a_bytes.len() - i,
    {
        let x = a_bytes[i];
        let y = b_bytes[i];
        let old_result = result;
        result = result | (x ^ y);
        assert((old_result | (x ^ y)) == 0u8 <==> (old_result == 0u8 && x == y)) by (bit_vector);
        i = i + 1;
    }
    assert((result == 0) ==> a_bytes@ =~= b_bytes@);
    result == 0
}

/// The path a webhook handler serves.
pub fn get_expected_path(path: &str) -> (r: String)
    ensures
        r@ == path@,
{
    path.to_owned()
}

/// What a rate limiter holds: burst capacity, refill rate per second,
/// current tokens in thousandths and the time of the last update in
/// milliseconds.
pub ghost struct RateLimiterView {
    pub capacity: nat,
    pub rate: nat,
    pub tokens: nat,
    pub last_update: nat,
}

/// Token bucket rate limiter for controlling request throughput.
/// Allows bursting up to `capacity` requests, then refills at `rate` tokens per second.
pub struct RateLimiter {
    /// Maximum tokens (burst capacity)
    capacity: u64,
    /// Tokens added per second
    rate: u64,
    /// Current token count (scaled by 1000 for precision)
    tokens: u64,
    /// Last update timestamp in milliseconds
    last_update: u64,
}

impl View for RateLimiter {
    type V = RateLimiterView;

    closed spec fn view(&self) -> RateLimiterView {
        RateLimiterView {
            capacity: self.capacity as nat,
            rate: self.rate as nat,
            tokens: self.tokens as nat,
            last_update: self.last_update as nat,
        }
    }
}

/// The tokens of the bucket after refilling up to `now`, capped at the capacity.
pub open spec fn refilled_tokens(v: RateLimiterView, now: nat) -> nat {
    let elapsed: nat = if now > v.last_update { (now - v.last_update) as nat } else { 0 };
    let sum = v.tokens + v.rate * elapsed;
    if sum < v.capacity * 1000 { sum } else { v.capacity * 1000 }
}

/// One acquisition attempt at time `now`: the new state and whether a token
/// was taken.
pub open spec fn acquire_step(v: RateLimiterView, now: nat) -> (RateLimiterView, bool) {
    let t = refilled_tokens(v, now);
    if t >= 1000 {
        (RateLimiterView { tokens: (t - 1000) as nat, last_update: now, ..v }, true)
    } else {
        (RateLimiterView { tokens: t, last_update: now, ..v }, false)
    }
}

/// The limiter state and the number of granted requests after `k`
/// acquisition attempts at the same instant.
pub open spec fn acquire_repeatedly(v: RateLimiterView, now: nat, k: nat) -> (RateLimiterView, nat)
    decreases k,
{
    if k == 0 {
        (v, 0)
    } else {
        let (w, granted) = acquire_repeatedly(v, now, (k - 1) as nat);
        let (x, ok) = acquire_step(w, now);
        (x, if ok { granted + 1 } else { granted })
    }
}

impl RateLimiter {
    #[verifier::type_invariant]
    spec fn inv(self) -> bool {
        &&& self.capacity * 1000 <= u64::MAX
        &&& self.tokens <= self.capacity * 1000
    }

    /// A limiter with a full bucket, last updated at `now_ms`.
    /// - `rate`: requests per second allowed
    /// - `capacity`: burst capacity (defaults to rate if None)
    pub fn new_at(rate: u64, capacity: Option<u64>, now_ms: u64) -> (r: RateLimiter)
        requires
            capacity.unwrap_or(rate) * 1000 <= u64::MAX,
        ensures
            r@.capacity == capacity.unwrap_or(rate),
            r@.rate == rate,
            r@.tokens == r@.capacity * 1000,
            r@.last_update == now_ms,
    {
        let capacity = match capacity {
            Some(c) => c,
            None => rate,
        };
        RateLimiter { capacity, rate, tokens: capacity * 1000, last_update: now_ms }
    }

    /// A limiter with a full bucket, last updated now.
    pub fn new(rate: u64, capacity: Option<u64>) -> (r: RateLimiter)
        requires
            capacity.unwrap_or(rate) * 1000 <= u64::MAX,
        ensures
            r@.capacity == capacity.unwrap_or(rate),
            r@.rate == rate,
            r@.tokens == r@.capacity * 1000,
    {
        let now = now_millis();
        Self::new_at(rate, capacity, now)
    }

    /// Try to acquire a token at time `now_ms`. Returns true if allowed,
    /// false if rate limited; either way the bucket is refilled up to `now_ms`.
    pub fn try_acquire_at(&mut self, now_ms: u64) -> (allowed: bool)
        ensures
            (final(self)@, allowed) == acquire_step(old(self)@, now_ms as nat),
    {
        proof {
            use_type_invariant(&*self);
        }
        let elapsed = now_ms.saturating_sub(self.last_update);
        let tokens_to_add = match self.rate.checked_mul(elapsed) {
            Some(p) => p,
            None => u64::MAX,
        };
        let max_tokens = self.capacity * 1000;
        let sum = self.tokens.saturating_add(tokens_to_add);
        let new_tokens = if sum < max_tokens { sum } else { max_tokens };
        proof {
            let v = self@;
            let e: nat = if now_ms > self.last_update { (now_ms - self.last_update) as nat } else { 0 };
            assert(elapsed == e);
            if self.rate * elapsed <= u64::MAX {
                assert(tokens_to_add == self.rate * elapsed);
            } else {
                assert(tokens_to_add == u64::MAX);
            }
            assert(new_tokens == refilled_tokens(v, now_ms as nat));
        }
        if new_tokens >= 1000 {
            self.tokens = new_tokens - 1000;
            self.last_update = now_ms;
            true
        } else {
            self.tokens = new_tokens;
            self.last_update = now_ms;
            false
        }
    }

    /// Try to acquire a token now. Returns true if allowed, false if rate limited.
    pub fn try_acquire(&mut self) -> (allowed: bool)
        ensures
            (final(self)@, allowed) == acquire_step(old(self)@, final(self)@.last_update),
    {
        let now = now_millis();
        self.try_acquire_at(now)
    }
}

/// An acquisition attempt never lets the tokens exceed the capacity, and
/// changes neither the capacity nor the rate.
pub proof fn lemma_acquire_keeps_bound(v: RateLimiterView, now: nat)
    requires
        v.tokens <= v.capacity * 1000,
    ensures
        acquire_step(v, now).0.tokens <= v.capacity * 1000,
        acquire_step(v, now).0.capacity == v.capacity,
        acquire_step(v, now).0.rate == v.rate,
{
}

/// Requests at a single instant, starting from a bucket holding `b` whole
/// tokens and not refilled since that instant, are granted exactly `b` times
/// and then refused.
pub proof fn lemma_burst_then_refuse(v: RateLimiterView, now: nat, k: nat)
    requires
        v.last_update == now,
        v.tokens % 1000 == 0,
        v.tokens <= v.capacity * 1000,
    ensures
        acquire_repeatedly(v, now, k).1 == if k <= v.tokens / 1000 { k } else { v.tokens / 1000 },
        k <= v.tokens / 1000 ==> acquire_repeatedly(v, now, k).0.tokens == v.tokens - 1000 * k,
        k > v.tokens / 1000 ==> acquire_repeatedly(v, now, k).0.tokens == 0,
        acquire_repeatedly(v, now, k).0.last_update == now,
        acquire_repeatedly(v, now, k).0.capacity == v.capacity,
        acquire_repeatedly(v, now, k).0.rate == v.rate,
    decreases k,
{
    if k > 0 {
        lemma_burst_then_refuse(v, now, (k - 1) as nat);
    }
}

/// An empty bucket that has waited long enough for one token to grow grants
/// the next request.
pub proof fn lemma_refill_grants(v: RateLimiterView, now: nat)
    requires
        v.capacity >= 1,
        now >= v.last_update,
        v.rate * (now - v.last_update) >= 1000,
    ensures
        acquire_step(v, now).1,
{
    let e = (now - v.last_update) as nat;
    assert(v.tokens + v.rate * e >= 1000);
}

/// The limiter state and the number of granted requests after one
/// acquisition attempt at each of `times`, in order.
pub open spec fn acquire_at_times(v: RateLimiterView, times: Seq<nat>) -> (RateLimiterView, nat)
    decreases times.len(),
{
    if times.len() == 0 {
        (v, 0)
    } else {
        let (w, granted) = acquire_at_times(v, times.drop_last());
        let (x, ok) = acquire_step(w, times.last());
        (x, if ok { granted + 1 } else { granted })
    }
}

/// The time of the last attempt, or the last update when there is none.
pub open spec fn last_time(v: RateLimiterView, times: Seq<nat>) -> nat {
    if times.len() == 0 { v.last_update } else { times.last() }
}

/// Attempt times that never go back and start no earlier than the last update.
pub open spec fn attempt_times_ok(v: RateLimiterView, times: Seq<nat>) -> bool {
    &&& forall|i: int, j: int| 0 <= i <= j < times.len() ==> times[i] <= times[j]
    &&& forall|i: int| 0 <= i < times.len() ==> v.last_update <= #[trigger] times[i]
}

proof fn lemma_grants_and_tokens(v: RateLimiterView, times: Seq<nat>)
    requires
        attempt_times_ok(v, times),
    ensures
        1000 * acquire_at_times(v, times).1 + acquire_at_times(v, times).0.tokens
            <= v.tokens + v.rate * (last_time(v, times) - v.last_update),
        acquire_at_times(v, times).0.last_update == last_time(v, times),
        acquire_at_times(v, times).0.rate == v.rate,
        acquire_at_times(v, times).0.capacity == v.capacity,
    decreases times.len(),
{
    if times.len() > 0 {
        let prev = times.drop_last();
        assert(attempt_times_ok(v, prev)) by {
            assert forall|i: int| 0 <= i < prev.len() implies v.last_update <= #[trigger] prev[i] by {
                assert(prev[i] == times[i]);
            }
        }
        lemma_grants_and_tokens(v, prev);
        let (w, g) = acquire_at_times(v, prev);
        let t = times.last();
        let tp = last_time(v, prev);
        assert(tp <= t) by {
            if prev.len() > 0 {
                assert(prev.last() == times[prev.len() - 1]);
            } else {
                assert(v.last_update <= times[times.len() - 1]);
            }
        }
        let e = (t - tp) as nat;
        assert(refilled_tokens(w, t) <= w.tokens + v.rate * e);
        let a = (tp - v.last_update) as nat;
        assert(v.rate * a + v.rate * e == v.rate * (t - v.last_update)) by (nonlinear_arith)
            requires
                a + e == t - v.last_update;
    }
}

/// Over any run of attempts at times that never go back, starting from a
/// limiter within its capacity, the grants are at most the capacity plus
/// the rate times the elapsed seconds: `1000 * granted` is at most
/// `capacity * 1000 + rate * elapsed_ms`.
pub proof fn lemma_grants_in_window(v: RateLimiterView, times: Seq<nat>)
    requires
        v.tokens <= v.capacity * 1000,
        attempt_times_ok(v, times),
    ensures
        1000 * acquire_at_times(v, times).1
            <= v.capacity * 1000 + v.rate * (last_time(v, times) - v.last_update),
        acquire_at_times(v, times).1
            <= v.capacity + v.rate * (last_time(v, times) - v.last_update) / 1000,
{
    lemma_grants_and_tokens(v, times);
    let g = acquire_at_times(v, times).1;
    let d = (last_time(v, times) - v.last_update) as nat;
    let x: nat = v.rate * d;
    assert(g <= v.capacity + x / 1000) by (nonlinear_arith)
        requires
            1000 * g <= v.capacity * 1000 + x,
            x >= 0;
}

/// The number of granted attempts.
pub open spec fn count_granted(granted: Seq<bool>) -> nat
    decreases granted.len(),
{
    if granted.len() == 0 {
        0
    } else {
        count_granted(granted.drop_last()) + if granted.last() { 1nat } else { 0nat }
    }
}

/// `states` and `granted` record a run of acquisition attempts at `times`:
/// attempt `k` takes the limiter from `states[k]` to `states[k + 1]` and
/// answers `granted[k]`, as the `ensures` of `try_acquire_at` states of
/// each call.
pub open spec fn is_acquire_run(states: Seq<RateLimiterView>, granted: Seq<bool>, times: Seq<nat>) -> bool {
    &&& states.len() == times.len() + 1
    &&& granted.len() == times.len()
    &&& forall|k: int| 0 <= k < times.len() ==> (states[k + 1], granted[k]) == #[trigger] acquire_step(states[k], times[k])
}

proof fn lemma_run_follows_steps(states: Seq<RateLimiterView>, granted: Seq<bool>, times: Seq<nat>, k: int)
    requires
        is_acquire_run(states, granted, times),
        0 <= k <= times.len(),
    ensures
        acquire_at_times(states[0], times.take(k)) == (states[k], count_granted(granted.take(k))),
    decreases k,
{
    if k == 0 {
        assert(times.take(0) =~= Seq::<nat>::empty());
        assert(granted.take(0) =~= Seq::<bool>::empty());
    } else {
        lemma_run_follows_steps(states, granted, times, k - 1);
        assert(times.take(k).drop_last() =~= times.take(k - 1));
        assert(granted.take(k).drop_last() =~= granted.take(k - 1));
        assert(times.take(k).last() == times[k - 1]);
        assert(granted.take(k).last() == granted[k - 1]);
        assert((states[k], granted[k - 1]) == acquire_step(states[k - 1], times[k - 1]));
    }
}

/// A run of `try_acquire_at` calls at times that never go back, on a limiter
/// within its capacity, grants at most the capacity plus the rate times the
/// elapsed seconds: `1000 * granted` is at most `capacity * 1000 + rate *
/// elapsed_ms`.
pub proof fn lemma_run_grants_in_window(states: Seq<RateLimiterView>, granted: Seq<bool>, times: Seq<nat>)
    requires
        is_acquire_run(states, granted, times),
        states[0].tokens <= states[0].capacity * 1000,
        attempt_times_ok(states[0], times),
    ensures
        1000 * count_granted(granted)
            <= states[0].capacity * 1000 + states[0].rate * (last_time(states[0], times) - states[0].last_update),
        count_granted(granted)
            <= states[0].capacity + states[0].rate * (last_time(states[0], times) - states[0].last_update) / 1000,
{
    lemma_run_follows_steps(states, granted, times, times.len() as int);
    assert(times.take(times.len() as int) =~= times);
    assert(granted.take(times.len() as int) =~= granted);
    lemma_grants_in_window(states[0], times);
}

/// Each state of `states` follows from the one before by an attempt at the
/// time it records as its last update, with answer `granted[k]`, as the
/// `ensures` of `try_acquire` states of each call.
pub open spec fn is_clock_run(states: Seq<RateLimiterView>, granted: Seq<bool>) -> bool {
    &&& states.len() == granted.len() + 1
    &&& forall|k: int| 0 <= k < granted.len()
        ==> (states[k + 1], granted[k]) == #[trigger] acquire_step(states[k], states[k + 1].last_update)
}

/// A run of `try_acquire` calls, while the clock readings they record never
/// go back, on a limiter within its capacity, grants at most the capacity
/// plus the rate times the elapsed seconds between the first state's last
/// update and the last call.
pub proof fn lemma_clock_run_grants_in_window(states: Seq<RateLimiterView>, granted: Seq<bool>)
    requires
        is_clock_run(states, granted),
        states[0].tokens <= states[0].capacity * 1000,
        forall|k: int| 0 <= k < granted.len() ==> states[k].last_update <= #[trigger] states[k + 1].last_update,
    ensures
        1000 * count_granted(granted)
            <= states[0].capacity * 1000 + states[0].rate * (states.last().last_update - states[0].last_update),
        count_granted(granted)
            <= states[0].capacity + states[0].rate * (states.last().last_update - states[0].last_update) / 1000,
{
    let n = granted.len();
    let times = Seq::new(n, |k: int| states[k + 1].last_update);
    assert forall|k: int| 0 <= k < n implies (states[k + 1], granted[k]) == #[trigger] acquire_step(states[k], times[k]) by {
        assert(times[k] == states[k + 1].last_update);
        assert((states[k + 1], granted[k]) == acquire_step(states[k], states[k + 1].last_update));
    }
    assert(is_acquire_run(states, granted, times));
    lemma_clock_times_ordered(states, granted, 0);
    assert(attempt_times_ok(states[0], times)) by {
        assert forall|i: int, j: int| 0 <= i <= j < times.len() implies times[i] <= times[j] by {
            lemma_clock_times_ordered(states, granted, i + 1);
        }
        assert forall|i: int| 0 <= i < times.len() implies states[0].last_update <= #[trigger] times[i] by {
            lemma_clock_times_ordered(states, granted, 0);
        }
    }
    if n > 0 {
        assert(last_time(states[0], times) == states.last().last_update);
    }
    lemma_run_grants_in_window(states, granted, times);
}

proof fn lemma_clock_times_ordered(states: Seq<RateLimiterView>, granted: Seq<bool>, i: int)
    requires
        states.len() == granted.len() + 1,
        forall|k: int| 0 <= k < granted.len() ==> states[k].last_update <= #[trigger] states[k + 1].last_update,
        0 <= i < states.len(),
    ensures
        forall|j: int| i <= j < states.len() ==> states[i].last_update <= #[trigger] states[j].last_update,
    decreases states.len() - i,
{
    if i + 1 < states.len() {
        lemma_clock_times_ordered(states, granted, i + 1);
        assert(states[i].last_update <= states[i + 1].last_update);
    }
}

/// How the webhook answers a request.
#[derive(Debug, Clone, Copy, PartialEq, Eq)]
pub enum WebhookDecision {
    /// The request path is not the handler's path.
    NotFound,
    /// The rate limit refused the request.
    TooManyRequests,
    /// The auth token is missing or wrong.
    Unauthorized,
    /// The command runs.
    Accepted,
    /// A request on the health-check path.
    Healthy,
}

impl WebhookDecision {
    /// The HTTP status code of the response.
    pub fn status_code(&self) -> (r: u16)
        ensures
            r == match *self {
                WebhookDecision::NotFound => 404u16,
                WebhookDecision::TooManyRequests => 429u16,
                WebhookDecision::Unauthorized => 401u16,
                WebhookDecision::Accepted => 200u16,
                WebhookDecision::Healthy => 200u16,
            },
    {
        match self {
            WebhookDecision::NotFound => 404,
            WebhookDecision::TooManyRequests => 429,
            WebhookDecision::Unauthorized => 401,
            WebhookDecision::Accepted => 200,
            WebhookDecision::Healthy => 200,
        }
    }

    /// The body of the response.
    pub fn body(&self) -> (r: &'static str)
        ensures
            r@ == match *self {
                WebhookDecision::NotFound => "Not Found"@,
                WebhookDecision::TooManyRequests => "Too Many Requests"@,
                WebhookDecision::Unauthorized => "Unauthorized"@,
                WebhookDecision::Accepted => "Webhook received"@,
                WebhookDecision::Healthy => "OK"@,
            },
    {
        match self {
            WebhookDecision::NotFound => "Not Found",
            WebhookDecision::TooManyRequests => "Too Many Requests",
            WebhookDecision::Unauthorized => "Unauthorized",
            WebhookDecision::Accepted => "Webhook received",
            WebhookDecision::Healthy => "OK",
        }
    }
}

/// The request checks of one webhook handler.
pub struct WebhookGate {
    /// The only path that runs the command
    pub path: String,
    /// Optional authentication token - if set, requests must include matching X-Auth-Token header
    pub auth_token: Option<String>,
    /// Optional rate limiter - if set, requests exceeding the rate will be rejected
    pub rate_limiter: Option<RateLimiter>,
    /// Optional health check path, answered without the token or the rate limit
    pub health_path: Option<String>,
}

/// The request is on the health-check path.
pub open spec fn is_health_request(health_path: Option<String>, request_path: Seq<char>) -> bool {
    health_path matches Some(h) && h@ == request_path
}

/// The provided token matches the expected one.
pub open spec fn token_accepted(expected: Option<String>, provided: Option<&str>) -> bool {
    match expected {
        None => true,
        Some(tok) => provided matches Some(p) && p@ == tok@,
    }
}

impl WebhookGate {
    /// A gate for `path`, with the optional token, an optional limit of
    /// requests per second (with a burst of the same size) and an optional
    /// health-check path.
    pub fn new(
        path: String,
        auth_token: Option<String>,
        rate_limit: Option<u64>,
        health_path: Option<String>,
        now_ms: u64,
    ) -> (r: WebhookGate)
        requires
            rate_limit matches Some(rate) ==> rate * 1000 <= u64::MAX,
        ensures
            r.path == path,
            r.auth_token == auth_token,
            r.health_path == health_path,
            match rate_limit {
                None => r.rate_limiter is None,
                Some(rate) => r.rate_limiter matches Some(l) && l@.rate == rate && l@.capacity == rate
                    && l@.tokens == rate * 1000 && l@.last_update == now_ms,
            },
    {
        let rate_limiter = match rate_limit {
            Some(rate) => Some(RateLimiter::new_at(rate, None, now_ms)),
            None => None,
        };
        WebhookGate { path, auth_token, rate_limiter, health_path }
    }

    /// Decides how a request is answered: the health-check path is answered
    /// at once, without the rate limit or the token; other paths than the
    /// handler's are not found; on the handler's path the rate limit is
    /// checked first, then the token.
    pub fn check_request(&mut self, request_path: &str, provided_token: Option<&str>, now_ms: u64) -> (d: WebhookDecision)
        ensures
            final(self).path == old(self).path,
            final(self).auth_token == old(self).auth_token,
            final(self).health_path == old(self).health_path,
            is_health_request(old(self).health_path, request_path@) ==> d == WebhookDecision::Healthy
                && final(self).rate_limiter == old(self).rate_limiter,
            !is_health_request(old(self).health_path, request_path@) && request_path@ != old(self).path@
                ==> d == WebhookDecision::NotFound && final(self).rate_limiter == old(self).rate_limiter,
            !is_health_request(old(self).health_path, request_path@) && request_path@ == old(self).path@
                ==> match old(self).rate_limiter {
                None => final(self).rate_limiter is None && d == if token_accepted(old(self).auth_token, provided_token) {
                    WebhookDecision::Accepted
                } else {
                    WebhookDecision::Unauthorized
                },
                Some(l) => {
                    let (l2, ok) = acquire_step(l@, now_ms as nat);
                    &&& final(self).rate_limiter matches Some(nl) && nl@ == l2
                    &&& d == if !ok {
                        WebhookDecision::TooManyRequests
                    } else if token_accepted(old(self).auth_token, provided_token) {
                        WebhookDecision::Accepted
                    } else {
                        WebhookDecision::Unauthorized
                    }
                },
            },
    {
        match &self.health_path {
            Some(h) => {
                if str_eq(request_path, h.as_str()) {
                    return WebhookDecision::Healthy;
                }
            },
            None => {},
        }
        if !str_eq(request_path, self.path.as_str()) {
            return WebhookDecision::NotFound;
        }
        match &mut self.rate_limiter {
            Some(limiter) => {
                if !limiter.try_acquire_at(now_ms) {
                    return WebhookDecision::TooManyRequests;
                }
            },
            None => {},
        }
        match &self.auth_token {
            Some(expected) => match provided_token {
                Some(token) => {
                    if constant_time_compare(token, expected.as_str()) {
                        WebhookDecision::Accepted
                    } else {
                        WebhookDecision::Unauthorized
                    }
                },
                None => WebhookDecision::Unauthorized,
            },
            None => WebhookDecision::Accepted,
        }
    }
}

} // verus!
