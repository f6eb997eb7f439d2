//! How much one connection may send.
//!
//! Tokens are counted in trillionths and time in nanoseconds, so that a rate in thousandths of a
//! token per second refills a whole number of them every nanosecond.

use vstd::prelude::*;

use super::state::{Limits, Milli};

verus! {

/// How far past the message limit a connection gets before it is closed rather than told.
///
/// Up to this multiple, an over-limit message is answered with an error and dropped — a client
/// with a bug gets to notice. Beyond it the sender is not listening to answers, and every message
/// it costs the server is one it should not be paying for.
pub const CLOSE_AT_MULTIPLE: u128 = 10;

/// One token.
pub const TOKEN: u128 = 1_000_000_000_000;

/// A thousandth of a token.
pub const MILLI_TOKEN: u128 = 1_000_000_000;

/// The largest capacity or rate of a bucket, in thousandths.
pub const MOST_MILLI: u128 = 184_467_440_737_095_516_150;

/// A token bucket: `capacity` tokens, refilled at `per_second`, one spent per message.
#[derive(Debug, Clone, Copy, PartialEq, Eq)]
pub struct TokenBucket {
    /// What is in it, in trillionths of a token.
    pub tokens: u128,
    /// What fits in it, in trillionths of a token.
    pub capacity: u128,
    /// What flows into it, in thousandths of a token per second.
    pub per_second: u128,
    /// When `tokens` was true, in nanoseconds.
    pub refilled: u64,
}

impl TokenBucket {
    /// What flows in from when the bucket was last looked at until `now`. A clock that ran
    /// backwards brings nothing.
    pub open spec fn inflow(self, now: u64) -> int {
        if now >= self.refilled {
            (now - self.refilled) * self.per_second
        } else {
            0
        }
    }

    /// What is in the bucket at `now`: what was in it and what flowed in, as far as it fits.
    pub open spec fn level(self, now: u64) -> int {
        if self.tokens + self.inflow(now) <= self.capacity {
            self.tokens + self.inflow(now)
        } else {
            self.capacity as int
        }
    }

    /// Whether there is a whole token at `now`.
    pub open spec fn has_token(self, now: u64) -> bool {
        self.level(now) >= TOKEN
    }

    /// The bucket once a token was asked for at `now`.
    pub open spec fn charged(self, now: u64) -> TokenBucket {
        TokenBucket {
            tokens: if self.has_token(now) {
                (self.level(now) - TOKEN) as u128
            } else {
                self.level(now) as u128
            },
            refilled: now,
            ..self
        }
    }

    /// A full bucket. `capacity` and `per_second` are in thousandths.
    pub fn new(capacity: u128, per_second: u128, now: u64) -> (bucket: Self)
        requires
            capacity <= MOST_MILLI,
        ensures
            bucket.capacity == capacity * MILLI_TOKEN,
            bucket.tokens == bucket.capacity,
            bucket.per_second == per_second,
            bucket.refilled == now,
    {
        TokenBucket {
            tokens: capacity * MILLI_TOKEN,
            capacity: capacity * MILLI_TOKEN,
            per_second,
            refilled: now,
        }
    }

    /// Spend one token if there is one.
    pub fn try_take(&mut self, now: u64) -> (taken: bool)
        ensures
            taken == old(self).has_token(now),
            *final(self) == old(self).charged(now),
    {
        let elapsed: u128 = now.saturating_sub(self.refilled) as u128;
        let level: u128 = match elapsed.checked_mul(self.per_second) {
            Some(inflow) => match self.tokens.checked_add(inflow) {
                Some(sum) => if sum <= self.capacity {
                    sum
                } else {
                    self.capacity
                },
                None => self.capacity,
            },
            None => self.capacity,
        };
        assert(level == self.level(now)) by {
            assert(0 * self.per_second == 0) by (nonlinear_arith);
            assert(elapsed * self.per_second >= 0) by (nonlinear_arith);
        }
        self.refilled = now;
        if level >= TOKEN {
            self.tokens = level - TOKEN;
            true
        } else {
            self.tokens = level;
            false
        }
    }
}

/// What the rate limiter decided about one frame.
#[derive(Debug, Clone, Copy, PartialEq, Eq, Structural)]
pub enum Verdict {
    Allow,
    /// Over the limit: answer with an error and drop the frame.
    Refuse,
    /// Far over the limit: stop reading from this connection at all.
    Close,
}

/// The per-connection limiter: one bucket at the limit, one at the multiple past which the
/// connection is closed, and a slower one for the operations that are worth guessing at.
#[derive(Debug, Clone, Copy, PartialEq, Eq)]
pub struct RateLimiter {
    pub soft: TokenBucket,
    pub hard: TokenBucket,
    pub lobby_ops: TokenBucket,
}

/// A full bucket for `burst` tokens, refilled at `rate`, both `multiple` times over.
pub open spec fn full_bucket(burst: Milli, rate: Milli, multiple: u128, now: u64) -> TokenBucket {
    TokenBucket {
        tokens: (burst.0 * multiple * MILLI_TOKEN) as u128,
        capacity: (burst.0 * multiple * MILLI_TOKEN) as u128,
        per_second: (rate.0 * multiple) as u128,
        refilled: now,
    }
}

impl RateLimiter {
    /// What becomes of a frame that arrives at `now`.
    pub open spec fn verdict(self, now: u64) -> Verdict {
        if !self.hard.has_token(now) {
            Verdict::Close
        } else if !self.soft.has_token(now) {
            Verdict::Refuse
        } else {
            Verdict::Allow
        }
    }

    /// The limiter once a frame that arrived at `now` was charged.
    pub open spec fn frame_charged(self, now: u64) -> RateLimiter {
        RateLimiter { hard: self.hard.charged(now), soft: self.soft.charged(now), ..self }
    }

    /// The limiter once a lobby operation at `now` was charged.
    pub open spec fn lobby_op_charged(self, now: u64) -> RateLimiter {
        RateLimiter { lobby_ops: self.lobby_ops.charged(now), ..self }
    }

    /// The limiter of a connection that opens at `now`: every bucket is full.
    pub fn new(limits: &Limits, now: u64) -> (limiter: Self)
        ensures
            limiter.soft == full_bucket(limits.message_burst, limits.messages_per_second, 1, now),
            limiter.hard == full_bucket(
                limits.message_burst,
                limits.messages_per_second,
                CLOSE_AT_MULTIPLE,
                now,
            ),
            limiter.lobby_ops == full_bucket(
                limits.lobby_ops_burst,
                limits.lobby_ops_per_second,
                1,
                now,
            ),
    {
        RateLimiter {
            soft: TokenBucket::new(
                limits.message_burst.0 as u128,
                limits.messages_per_second.0 as u128,
                now,
            ),
            hard: TokenBucket::new(
                limits.message_burst.0 as u128 * CLOSE_AT_MULTIPLE,
                limits.messages_per_second.0 as u128 * CLOSE_AT_MULTIPLE,
                now,
            ),
            lobby_ops: TokenBucket::new(
                limits.lobby_ops_burst.0 as u128,
                limits.lobby_ops_per_second.0 as u128,
                now,
            ),
        }
    }

    /// Charge one frame, of any kind, against the connection.
    ///
    /// Both buckets drain on every frame, so the hard one measures the same flood the soft one
    /// does — just with ten times the room before it acts.
    pub fn frame(&mut self, now: u64) -> (verdict: Verdict)
        ensures
            verdict == old(self).verdict(now),
            *final(self) == old(self).frame_charged(now),
    {
        let hard = self.hard.try_take(now);
        let soft = self.soft.try_take(now);
        if !hard {
            Verdict::Close
        } else if !soft {
            Verdict::Refuse
        } else {
            Verdict::Allow
        }
    }

    /// Charge one `CreateLobby` or `JoinLobbyByCode`, on top of the frame it arrived in.
    pub fn lobby_op(&mut self, now: u64) -> (allowed: bool)
        ensures
            allowed == old(self).lobby_ops.has_token(now),
            *final(self) == old(self).lobby_op_charged(now),
    {
        self.lobby_ops.try_take(now)
    }
}

/// How many of the requests at `times` a bucket grants.
pub open spec fn granted(bucket: TokenBucket, times: Seq<u64>) -> int
    decreases times.len(),
{
    if times.len() == 0 {
        0
    } else {
        (if bucket.has_token(times[0]) {
            1int
        } else {
            0int
        }) + granted(bucket.charged(times[0]), times.drop_first())
    }
}

/// Whether a clock that reads these times, one after the other, never ran backwards.
pub open spec fn in_order(times: Seq<u64>) -> bool {
    forall|i: int, j: int| 0 <= i <= j < times.len() ==> times[i] <= times[j]
}

/// Over any stretch of time a bucket grants no more than what it held and what flowed in.
pub proof fn law_granted_is_bounded(bucket: TokenBucket, times: Seq<u64>)
    requires
        in_order(times),
        times.len() > 0,
        bucket.refilled <= times[0],
    ensures
        granted(bucket, times) * TOKEN <= bucket.tokens + (times.last() - bucket.refilled)
            * bucket.per_second,
    decreases times.len(),
{
    let first = times[0];
    let later = times.drop_first();
    let after = bucket.charged(first);
    let inflow = (first - bucket.refilled) * bucket.per_second;
    assert(inflow >= 0) by (nonlinear_arith)
        requires
            inflow == (first - bucket.refilled) * bucket.per_second,
            first >= bucket.refilled,
            bucket.per_second >= 0,
    ;
    assert(bucket.level(first) <= bucket.tokens + inflow);
    assert(0 <= bucket.level(first) <= u128::MAX);
    if later.len() == 0 {
        assert(granted(after, later) == 0);
        assert(times.last() == first);
    } else {
        law_granted_is_bounded(after, later);
        assert(times.last() == later.last());
        let last = times.last();
        assert((last - bucket.refilled) * bucket.per_second == inflow + (last - first)
            * bucket.per_second) by (nonlinear_arith)
            requires
                inflow == (first - bucket.refilled) * bucket.per_second,
        ;
        let rest = granted(after, later);
        assert((1 + rest) * TOKEN == TOKEN + rest * TOKEN) by (nonlinear_arith);
    }
}

/// However long it was idle, a bucket grants at most its capacity at once, and from then on no
/// more than flows in.
pub proof fn law_burst_is_bounded(bucket: TokenBucket, times: Seq<u64>)
    requires
        in_order(times),
        times.len() > 0,
        bucket.refilled <= times[0],
    ensures
        granted(bucket, times) * TOKEN <= bucket.capacity + (times.last() - times[0])
            * bucket.per_second,
{
    let first = times[0];
    let later = times.drop_first();
    let after = bucket.charged(first);
    let inflow = (first - bucket.refilled) * bucket.per_second;
    assert(inflow >= 0) by (nonlinear_arith)
        requires
            inflow == (first - bucket.refilled) * bucket.per_second,
            first >= bucket.refilled,
            bucket.per_second >= 0,
    ;
    assert(0 <= bucket.level(first) <= bucket.capacity);
    if later.len() == 0 {
        assert(granted(after, later) == 0);
        assert((times.last() - times[0]) * bucket.per_second >= 0) by (nonlinear_arith)
            requires
                times.last() >= times[0],
                bucket.per_second >= 0,
        ;
    } else {
        law_granted_is_bounded(after, later);
        assert(times.last() == later.last());
        let rest = granted(after, later);
        assert((1 + rest) * TOKEN == TOKEN + rest * TOKEN) by (nonlinear_arith);
    }
}

/// A token is granted exactly when what was left and what flowed in since make a whole one, as far
/// as both fit; what is not granted stays. A clock that ran backwards brings nothing.
pub proof fn law_what_flows_in_is_granted(bucket: TokenBucket, now: u64)
    ensures
        ({
            let idle = if now >= bucket.refilled {
                now - bucket.refilled
            } else {
                0
            };
            let sum = bucket.tokens + idle * bucket.per_second;
            let held = if sum < bucket.capacity {
                sum
            } else {
                bucket.capacity as int
            };
            let after = bucket.charged(now);
            &&& bucket.has_token(now) == (held >= 1_000_000_000_000)
            &&& after.tokens == if held >= 1_000_000_000_000 {
                held - 1_000_000_000_000
            } else {
                held
            }
            &&& after.refilled == now
            &&& after.capacity == bucket.capacity
            &&& after.per_second == bucket.per_second
        }),
{
    assert(0 * bucket.per_second == 0) by (nonlinear_arith);
    if now >= bucket.refilled {
        let idle = now - bucket.refilled;
        assert(idle * bucket.per_second >= 0) by (nonlinear_arith)
            requires
                idle >= 0,
        ;
    }
}

/// A bucket once tokens were asked for `times` times, all at `now`.
pub open spec fn drained(bucket: TokenBucket, now: u64, times: nat) -> TokenBucket
    decreases times,
{
    if times == 0 {
        bucket
    } else {
        drained(bucket, now, (times - 1) as nat).charged(now)
    }
}

proof fn lemma_drained(bucket: TokenBucket, now: u64, times: nat)
    requires
        bucket.refilled == now,
        bucket.tokens <= bucket.capacity,
    ensures
        ({
            let after = drained(bucket, now, times);
            let whole = bucket.tokens / TOKEN;
            &&& after.refilled == now
            &&& after.capacity == bucket.capacity
            &&& after.per_second == bucket.per_second
            &&& times <= whole ==> after.tokens == bucket.tokens - times * TOKEN
            &&& times >= whole ==> after.tokens == bucket.tokens - whole * TOKEN
            &&& after.has_token(now) == (times < whole)
        }),
    decreases times,
{
    let after = drained(bucket, now, times);
    assert(0 * bucket.per_second == 0) by (nonlinear_arith);
    assert(after.inflow(now) == 0 || after.refilled != now) by {
        assert(0 * after.per_second == 0) by (nonlinear_arith);
    }
    if times > 0 {
        lemma_drained(bucket, now, (times - 1) as nat);
        let before = drained(bucket, now, (times - 1) as nat);
        assert(0 * before.per_second == 0) by (nonlinear_arith);
        assert(after == before.charged(now));
    }
}

proof fn lemma_whole_tokens(burst: Milli, rate: Milli, multiple: u128, now: u64)
    requires
        multiple <= 10,
    ensures
        ({
            let bucket = full_bucket(burst, rate, multiple, now);
            &&& bucket.tokens == bucket.capacity
            &&& bucket.refilled == now
            &&& bucket.tokens / TOKEN == (burst.0 * multiple) / 1000
        }),
{
    let much = burst.0 * multiple;
    assert(0 <= much <= u64::MAX * 10) by (nonlinear_arith)
        requires
            much == burst.0 * multiple,
            multiple <= 10,
            burst.0 <= u64::MAX,
    ;
    assert(burst.0 * multiple * MILLI_TOKEN == much * MILLI_TOKEN);
    assert((much * MILLI_TOKEN) / (TOKEN as int) == much / 1000);
}

/// A limiter once `times` frames arrived, all at `now`.
pub open spec fn flooded(limiter: RateLimiter, now: u64, times: nat) -> RateLimiter
    decreases times,
{
    if times == 0 {
        limiter
    } else {
        flooded(limiter, now, (times - 1) as nat).frame_charged(now)
    }
}

proof fn lemma_flooded(limiter: RateLimiter, now: u64, times: nat)
    ensures
        flooded(limiter, now, times).soft == drained(limiter.soft, now, times),
        flooded(limiter, now, times).hard == drained(limiter.hard, now, times),
        flooded(limiter, now, times).lobby_ops == limiter.lobby_ops,
    decreases times,
{
    if times > 0 {
        lemma_flooded(limiter, now, (times - 1) as nat);
    }
}

/// Of the frames that arrive all at once on a connection that has just opened, as many are let in
/// as the burst says; those after them are refused, until there were ten times as many, and then
/// the connection is closed. However many they are, they cost no lobby operation.
pub proof fn law_a_flood_is_refused_and_then_closed(
    limiter: RateLimiter,
    burst: Milli,
    rate: Milli,
    now: u64,
    times: nat,
)
    requires
        limiter.soft == full_bucket(burst, rate, 1, now),
        limiter.hard == full_bucket(burst, rate, CLOSE_AT_MULTIPLE, now),
    ensures
        flooded(limiter, now, times).verdict(now) == if times < burst.0 / 1000 {
            Verdict::Allow
        } else if times < (10 * burst.0) / 1000 {
            Verdict::Refuse
        } else {
            Verdict::Close
        },
        flooded(limiter, now, times).lobby_ops == limiter.lobby_ops,
{
    lemma_flooded(limiter, now, times);
    lemma_whole_tokens(burst, rate, 1, now);
    lemma_whole_tokens(burst, rate, CLOSE_AT_MULTIPLE, now);
    lemma_drained(limiter.soft, now, times);
    lemma_drained(limiter.hard, now, times);
}

/// Of the lobby operations that are asked for all at once on a connection that has just opened, as
/// many are let in as their burst says; a lobby operation costs no frame.
pub proof fn law_lobby_operations_have_their_own_burst(
    limiter: RateLimiter,
    burst: Milli,
    rate: Milli,
    now: u64,
    times: nat,
)
    requires
        limiter.lobby_ops == full_bucket(burst, rate, 1, now),
    ensures
        drained(limiter.lobby_ops, now, times).has_token(now) == (times < burst.0 / 1000),
        limiter.lobby_op_charged(now).soft == limiter.soft,
        limiter.lobby_op_charged(now).hard == limiter.hard,
        limiter.lobby_op_charged(now).lobby_ops == drained(limiter.lobby_ops, now, 1),
{
    lemma_whole_tokens(burst, rate, 1, now);
    lemma_drained(limiter.lobby_ops, now, times);
    reveal_with_fuel(drained, 2);
}

/// A bucket that ran empty holds, a second later, as many tokens as its rate says, or as many as it
/// can hold.
pub proof fn law_a_second_brings_the_rate(burst: Milli, rate: Milli, multiple: u128, now: u64)
    requires
        multiple <= 10,
        now + 1_000_000_000 <= u64::MAX,
    ensures
        ({
            let empty = TokenBucket { tokens: 0, ..full_bucket(burst, rate, multiple, now) };
            let later = (now + 1_000_000_000) as u64;
            let flowed = rate.0 * multiple;
            let room = burst.0 * multiple;
            empty.level(later) == 1_000_000_000 * if flowed <= room {
                flowed
            } else {
                room
            }
        }),
{
    let flowed = rate.0 * multiple;
    let room = burst.0 * multiple;
    assert(0 <= flowed <= u64::MAX * 10 && 0 <= room <= u64::MAX * 10) by (nonlinear_arith)
        requires
            flowed == rate.0 * multiple,
            room == burst.0 * multiple,
            multiple <= 10,
            burst.0 <= u64::MAX,
            rate.0 <= u64::MAX,
    ;
    assert(burst.0 * multiple * MILLI_TOKEN == room * MILLI_TOKEN);
    let empty = TokenBucket { tokens: 0, ..full_bucket(burst, rate, multiple, now) };
    let later = (now + 1_000_000_000) as u64;
    let idle = later - empty.refilled;
    assert(empty.per_second == flowed);
    assert(idle * empty.per_second == 1_000_000_000 * flowed) by (nonlinear_arith)
        requires
            idle == 1_000_000_000,
            empty.per_second == flowed,
    ;
}

} // verus!
