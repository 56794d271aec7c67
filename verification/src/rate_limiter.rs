//! Token-bucket admission control.
//!
//! A bucket holds up to `max_tokens` credits and is refilled continuously at
//! `refill_rate` as time passes; each granted request consumes one whole
//! token. Token amounts are measured in micro-units (millionths of a token)
//! and time in milliseconds, so the refill arithmetic is exact.
//!
//! The clock is injected: every operation that depends on the passage of
//! time takes the current reading in milliseconds. The caller is expected to
//! hand in readings from a monotonic clock; a reading that stands behind the
//! last one seen counts as no time passed.

use vstd::arithmetic::mul::lemma_mul_is_distributive_add_other_way;
use vstd::arithmetic::mul::lemma_mul_nonnegative;
use vstd::prelude::*;

verus! {

/// Micro-units that make up one whole admission token.
pub const TOKEN_UNIT: u64 = 1_000_000;

/// Default bucket capacity in micro-units: 100 tokens of burst.
pub const DEFAULT_MAX_TOKENS: u64 = 100_000_000;

/// Default refill rate in micro-units per millisecond: 0.83 tokens per
/// second, about 3000 per hour.
pub const DEFAULT_REFILL_RATE: u64 = 830;

/// The abstract state of a token bucket: every field of the limiter as a
/// plain value. Contracts and lemmas speak of this record.
pub struct RateLimiterModel {
    /// Available credits, in micro-units.
    pub tokens: u64,
    /// Bucket capacity, in micro-units; constant after construction.
    pub max_tokens: u64,
    /// Credits added per elapsed millisecond, in micro-units; constant
    /// after construction.
    pub refill_rate: u64,
    /// Clock reading at which the bucket was last topped up.
    pub last_refill_ms: u64,
    /// Number of granted requests; telemetry only.
    pub requests_count: u64,
}

/// Token-bucket rate limiter. The state is reachable only through the
/// methods; its mathematical value is the view `self@`.
pub struct RateLimiter {
    tokens: u64,
    max_tokens: u64,
    refill_rate: u64,
    last_refill_ms: u64,
    requests_count: u64,
}

impl View for RateLimiter {
    type V = RateLimiterModel;

    closed spec fn view(&self) -> RateLimiterModel {
        RateLimiterModel {
            tokens: self.tokens,
            max_tokens: self.max_tokens,
            refill_rate: self.refill_rate,
            last_refill_ms: self.last_refill_ms,
            requests_count: self.requests_count,
        }
    }
}

/// Milliseconds elapsed from `last` to `now`; a reading behind `last`
/// counts as no time passed.
pub open spec fn elapsed_ms(last: u64, now: u64) -> int {
    if now >= last {
        now - last
    } else {
        0
    }
}

/// Credits available after topping the bucket up at `now`: they accrue
/// linearly with elapsed time and are clamped at capacity.
pub open spec fn refilled_tokens(m: RateLimiterModel, now: u64) -> int {
    vstd::math::min(
        m.max_tokens as int,
        m.tokens + elapsed_ms(m.last_refill_ms, now) * m.refill_rate,
    )
}

/// The whole bucket state after a refill at `now`.
pub open spec fn refill_model(m: RateLimiterModel, now: u64) -> RateLimiterModel {
    RateLimiterModel {
        tokens: refilled_tokens(m, now) as u64,
        last_refill_ms: now,
        ..m
    }
}

/// A request is admissible when at least one whole token is available.
pub open spec fn can_admit(m: RateLimiterModel) -> bool {
    m.tokens >= TOKEN_UNIT
}

/// The bucket state after recording a request: one whole token is consumed
/// and the grant counted, or nothing changes when no whole token is
/// available.
pub open spec fn record_model(m: RateLimiterModel) -> RateLimiterModel {
    if can_admit(m) {
        RateLimiterModel {
            tokens: (m.tokens - TOKEN_UNIT) as u64,
            requests_count: (m.requests_count + 1) as u64,
            ..m
        }
    } else {
        m
    }
}

impl RateLimiter {
    /// The bucket never holds more credits than its capacity.
    pub open spec fn inv(&self) -> bool {
        self@.tokens <= self@.max_tokens
    }

    /// A fresh limiter starts with a full bucket and no granted requests.
    pub fn new(max_tokens: u64, refill_rate: u64, now_ms: u64) -> (r: Self)
        ensures
            r.inv(),
            r@ == (RateLimiterModel {
                tokens: max_tokens,
                max_tokens: max_tokens,
                refill_rate: refill_rate,
                last_refill_ms: now_ms,
                requests_count: 0,
            }),
    {
        RateLimiter {
            tokens: max_tokens,
            max_tokens,
            refill_rate,
            last_refill_ms: now_ms,
            requests_count: 0,
        }
    }

    /// Top the bucket up for the time elapsed since the last refill.
    fn refill_tokens(&mut self, now_ms: u64)
        ensures
            final(self).inv(),
            final(self)@ == refill_model(old(self)@, now_ms),
    {
        let elapsed: u64 = if now_ms >= self.last_refill_ms {
            now_ms - self.last_refill_ms
        } else {
            0
        };
        match elapsed.checked_mul(self.refill_rate) {
            None => {
                // The exact gain exceeds u64::MAX and so the capacity too:
                // the bucket clamps at capacity.
                self.tokens = self.max_tokens;
            },
            Some(add) => {
                if add >= self.max_tokens || self.tokens >= self.max_tokens - add {
                    self.tokens = self.max_tokens;
                } else {
                    self.tokens = self.tokens + add;
                }
            },
        }
        self.last_refill_ms = now_ms;
    }

    /// Refill, then say whether a whole token is available. A pure query:
    /// no token is consumed.
    pub fn can_make_request(&mut self, now_ms: u64) -> (r: bool)
        ensures
            final(self).inv(),
            final(self)@ == refill_model(old(self)@, now_ms),
            r == can_admit(final(self)@),
    {
        self.refill_tokens(now_ms);
        self.tokens >= TOKEN_UNIT
    }

    /// Consume one whole token and count the grant; a silent no-op when no
    /// whole token is available. Does not refill: the caller is expected to
    /// have just checked admissibility.
    pub fn record_request(&mut self)
        requires
            old(self)@.requests_count < u64::MAX,
        ensures
            final(self)@ == record_model(old(self)@),
            old(self).inv() ==> final(self).inv(),
    {
        if self.tokens >= TOKEN_UNIT {
            self.tokens = self.tokens - TOKEN_UNIT;
            self.requests_count = self.requests_count + 1;
        }
    }

    /// Fused check and consume: refill, then consume one whole token when
    /// one is available, under a single borrow of the state. Leaves no gap
    /// between the admission check and the consumption.
    pub fn try_acquire(&mut self, now_ms: u64) -> (r: bool)
        requires
            old(self)@.requests_count < u64::MAX,
        ensures
            final(self).inv(),
            final(self)@ == record_model(refill_model(old(self)@, now_ms)),
            r == can_admit(refill_model(old(self)@, now_ms)),
    {
        self.refill_tokens(now_ms);
        if self.tokens >= TOKEN_UNIT {
            self.tokens = self.tokens - TOKEN_UNIT;
            self.requests_count = self.requests_count + 1;
            true
        } else {
            false
        }
    }

    /// Refill, then report the available credits in micro-units.
    pub fn get_remaining_tokens(&mut self, now_ms: u64) -> (r: u64)
        ensures
            final(self).inv(),
            final(self)@ == refill_model(old(self)@, now_ms),
            r == final(self)@.tokens,
    {
        self.refill_tokens(now_ms);
        self.tokens
    }

    /// Number of requests granted so far; telemetry only.
    pub fn requests_count(&self) -> (r: u64)
        ensures
            r == self@.requests_count,
    {
        self.requests_count
    }
}

/// Token bound: a refill leaves the available credits between zero and the
/// capacity, whatever the state was; and recording a request never raises
/// them above a bound they already respect.
pub proof fn lemma_token_bound(m: RateLimiterModel, now_ms: u64)
    ensures
        0 <= refill_model(m, now_ms).tokens <= m.max_tokens,
        m.tokens <= m.max_tokens ==> record_model(m).tokens <= m.max_tokens,
{
    lemma_mul_nonnegative(elapsed_ms(m.last_refill_ms, now_ms), m.refill_rate as int);
}

/// Refill linearity: over a stretch in which no request is recorded, the
/// bucket gains exactly the elapsed time times the rate, clamped at the
/// space that was left; and refilling at a point within the stretch and
/// then at its end gives the same state as one refill over the whole
/// stretch.
pub proof fn lemma_refill_linearity(m: RateLimiterModel, mid_ms: u64, now_ms: u64)
    requires
        m.tokens <= m.max_tokens,
        m.last_refill_ms <= mid_ms <= now_ms,
    ensures
        refill_model(m, now_ms).tokens - m.tokens == vstd::math::min(
            elapsed_ms(m.last_refill_ms, now_ms) * m.refill_rate,
            m.max_tokens - m.tokens,
        ),
        refill_model(refill_model(m, mid_ms), now_ms) == refill_model(m, now_ms),
{
    let r = m.refill_rate as int;
    let e = elapsed_ms(m.last_refill_ms, now_ms);
    let e1 = elapsed_ms(m.last_refill_ms, mid_ms);
    let e2 = elapsed_ms(mid_ms, now_ms);
    assert(e == e1 + e2);
    lemma_mul_nonnegative(e1, r);
    lemma_mul_nonnegative(e2, r);
    lemma_mul_is_distributive_add_other_way(r, e1, e2);
    assert(e * r == e1 * r + e2 * r);
    let m1 = refill_model(m, mid_ms);
    assert(refill_model(m1, now_ms).tokens == refill_model(m, now_ms).tokens);
}

/// Admission consistency: a bucket admits a request exactly when recording
/// one on it would consume a token, and exactly when recording one would
/// count the grant.
pub proof fn lemma_admission_consistency(m: RateLimiterModel)
    ensures
        can_admit(m) <==> record_model(m).tokens < m.tokens,
        m.requests_count < u64::MAX ==> (can_admit(m) <==> record_model(m).requests_count
            == m.requests_count + 1),
{
}

} // verus!
