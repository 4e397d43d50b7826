//! Admission control by two token buckets, one counting operations and one counting bytes.

use vstd::prelude::*;

verus! {

/// What a token stands for.
#[derive(Debug, Clone, Copy, PartialEq, Eq, Structural)]
pub enum TokenType {
    /// One byte.
    Bytes,
    /// One operation.
    Ops,
}

/// Why an event of the rate limiter could not be handled.
#[derive(Debug, Clone, Copy, PartialEq, Eq, Structural)]
pub enum RateLimiterError {
    /// A refill event arrived though the limiter was not blocked.
    SpuriousRateLimiterEvent,
}

/// What a token bucket holds.
pub struct BucketView {
    /// Tokens that a refill brings the budget up to.
    pub size: u64,
    /// Tokens that the bucket was made with on top of its budget.
    pub burst_size: u64,
    /// Tokens left of the one-time burst. They are taken first, a refill does not bring them
    /// back, and only what was taken of them can be given back.
    pub one_time_burst: u64,
    /// Tokens left of the budget.
    pub budget: u64,
}

impl BucketView {
    /// Neither the budget nor the one-time burst holds more than it was made with, and the
    /// budget is full as long as something is left of the one-time burst.
    pub open spec fn wf(self) -> bool {
        &&& self.budget <= self.size
        &&& self.one_time_burst <= self.burst_size
        &&& self.one_time_burst > 0 ==> self.budget == self.size
    }

    /// Whether `tokens` can be taken.
    pub open spec fn affords(self, tokens: u64) -> bool {
        tokens <= self.one_time_burst + self.budget
    }

    /// The bucket after `tokens` were taken, the one-time burst first.
    pub open spec fn reduced(self, tokens: u64) -> BucketView {
        if tokens <= self.one_time_burst {
            BucketView { one_time_burst: (self.one_time_burst - tokens) as u64, ..self }
        } else {
            BucketView {
                one_time_burst: 0,
                budget: (self.budget - (tokens - self.one_time_burst)) as u64,
                ..self
            }
        }
    }

    /// The bucket after `tokens` were given back: to the budget up to the bucket's size, and
    /// what is over to the one-time burst, up to what the bucket was made with. This is the
    /// way back of `reduced`.
    pub open spec fn replenished(self, tokens: u64) -> BucketView {
        if tokens <= self.size - self.budget {
            BucketView { budget: (self.budget + tokens) as u64, ..self }
        } else {
            let over = tokens - (self.size - self.budget);
            BucketView {
                budget: self.size,
                one_time_burst: if over <= self.burst_size - self.one_time_burst {
                    (self.one_time_burst + over) as u64
                } else {
                    self.burst_size
                },
                ..self
            }
        }
    }

    /// The bucket with its budget full.
    pub open spec fn refilled(self) -> BucketView {
        BucketView { budget: self.size, ..self }
    }
}

/// Giving back the tokens that were taken brings a bucket back to what it was, whether they
/// came out of the one-time burst, of the budget, or of both.
pub proof fn lemma_replenish_reverses_reduce(b: BucketView, tokens: u64)
    requires
        b.wf(),
        b.affords(tokens),
    ensures
        b.reduced(tokens).wf(),
        b.reduced(tokens).replenished(tokens) == b,
{
}

/// A budget of tokens that is spent by requests and filled up again by refill events.
#[derive(Debug, Clone, Copy, PartialEq, Eq)]
pub struct TokenBucket {
    size: u64,
    burst_size: u64,
    one_time_burst: u64,
    budget: u64,
}

impl View for TokenBucket {
    type V = BucketView;

    closed spec fn view(&self) -> BucketView {
        BucketView {
            size: self.size,
            burst_size: self.burst_size,
            one_time_burst: self.one_time_burst,
            budget: self.budget,
        }
    }
}

impl TokenBucket {
    /// Whether the bucket is well formed.
    pub open spec fn wf(&self) -> bool {
        self@.wf()
    }

    /// A full bucket. There is none of size 0 or with a refill time of 0: such a
    /// dimension is not limited.
    pub fn new(size: u64, one_time_burst: u64, complete_refill_time_ms: u64) -> (r: Option<Self>)
        ensures
            r is None <==> size == 0 || complete_refill_time_ms == 0,
            r matches Some(b) ==> b.wf() && b@ == (BucketView {
                size,
                burst_size: one_time_burst,
                one_time_burst,
                budget: size,
            }),
    {
        if size == 0 || complete_refill_time_ms == 0 {
            return None;
        }
        Some(TokenBucket { size, burst_size: one_time_burst, one_time_burst, budget: size })
    }

    /// Takes `tokens` out if they are there, the one-time burst first, and says whether
    /// they were.
    pub fn reduce(&mut self, tokens: u64) -> (r: bool)
        requires
            old(self).wf(),
        ensures
            final(self).wf(),
            r == old(self)@.affords(tokens),
            r ==> final(self)@ == old(self)@.reduced(tokens),
            !r ==> final(self)@ == old(self)@,
    {
        if tokens <= self.one_time_burst {
            self.one_time_burst -= tokens;
            return true;
        }
        let rest = tokens - self.one_time_burst;
        if rest > self.budget {
            return false;
        }
        self.one_time_burst = 0;
        self.budget -= rest;
        true
    }

    /// Gives `tokens` back, which undoes a `reduce` of as many: to the budget up to the
    /// bucket's size, and what is over to the one-time burst, up to what the bucket was made
    /// with.
    pub fn force_replenish(&mut self, tokens: u64)
        requires
            old(self).wf(),
        ensures
            final(self).wf(),
            final(self)@ == old(self)@.replenished(tokens),
    {
        let room = self.size - self.budget;
        if tokens <= room {
            self.budget += tokens;
        } else {
            let over = tokens - room;
            self.budget = self.size;
            if over <= self.burst_size - self.one_time_burst {
                self.one_time_burst += over;
            } else {
                self.one_time_burst = self.burst_size;
            }
        }
    }

    /// Fills the budget up.
    pub fn refill(&mut self)
        requires
            old(self).wf(),
        ensures
            final(self).wf(),
            final(self)@ == old(self)@.refilled(),
    {
        self.budget = self.size;
    }
}

/// What a rate limiter holds.
pub struct RateLimiterView {
    /// The bucket of bytes, where bytes are limited.
    pub bandwidth: Option<BucketView>,
    /// The bucket of operations, where operations are limited.
    pub ops: Option<BucketView>,
    /// Whether a request was turned down since the last refill event.
    pub blocked: bool,
}

impl RateLimiterView {
    /// The bucket of a dimension.
    pub open spec fn bucket(self, token_type: TokenType) -> Option<BucketView> {
        match token_type {
            TokenType::Bytes => self.bandwidth,
            TokenType::Ops => self.ops,
        }
    }

    /// The limiter with another bucket in a dimension.
    pub open spec fn with_bucket(self, token_type: TokenType, b: BucketView) -> RateLimiterView {
        match token_type {
            TokenType::Bytes => RateLimiterView { bandwidth: Some(b), ..self },
            TokenType::Ops => RateLimiterView { ops: Some(b), ..self },
        }
    }

    /// Whether `tokens` of a dimension can be taken: always where the dimension is not
    /// limited.
    pub open spec fn affords(self, tokens: u64, token_type: TokenType) -> bool {
        match self.bucket(token_type) {
            Some(b) => b.affords(tokens),
            None => true,
        }
    }

    /// The limiter after `tokens` of a dimension were asked for: taken where they can be,
    /// else the limiter is blocked.
    pub open spec fn consumed(self, tokens: u64, token_type: TokenType) -> RateLimiterView {
        match self.bucket(token_type) {
            Some(b) => if b.affords(tokens) {
                self.with_bucket(token_type, b.reduced(tokens))
            } else {
                RateLimiterView { blocked: true, ..self }
            },
            None => self,
        }
    }

    /// The limiter after `tokens` of a dimension were given back.
    pub open spec fn replenished(self, tokens: u64, token_type: TokenType) -> RateLimiterView {
        match self.bucket(token_type) {
            Some(b) => self.with_bucket(token_type, b.replenished(tokens)),
            None => self,
        }
    }

    /// The limiter after a refill event: both budgets full, and not blocked.
    pub open spec fn refilled(self) -> RateLimiterView {
        RateLimiterView {
            bandwidth: match self.bandwidth {
                Some(b) => Some(b.refilled()),
                None => None,
            },
            ops: match self.ops {
                Some(b) => Some(b.refilled()),
                None => None,
            },
            blocked: false,
        }
    }

    /// Both buckets are well formed.
    pub open spec fn wf(self) -> bool {
        &&& self.bandwidth matches Some(b) ==> b.wf()
        &&& self.ops matches Some(b) ==> b.wf()
    }
}

/// A limiter of bytes and of operations. A request that it turns down blocks it until the
/// next refill event.
#[derive(Debug)]
pub struct RateLimiter {
    bandwidth: Option<TokenBucket>,
    ops: Option<TokenBucket>,
    timer_active: bool,
}

impl View for RateLimiter {
    type V = RateLimiterView;

    closed spec fn view(&self) -> RateLimiterView {
        RateLimiterView {
            bandwidth: match self.bandwidth {
                Some(b) => Some(b@),
                None => None,
            },
            ops: match self.ops {
                Some(b) => Some(b@),
                None => None,
            },
            blocked: self.timer_active,
        }
    }
}

impl RateLimiter {
    /// Whether the limiter is well formed.
    pub open spec fn wf(&self) -> bool {
        self@.wf()
    }

    /// A limiter with full buckets. A dimension with a size or a refill time of 0 is not
    /// limited.
    pub fn new(
        bytes_total_capacity: u64,
        bytes_one_time_burst: u64,
        bytes_complete_refill_time_ms: u64,
        ops_total_capacity: u64,
        ops_one_time_burst: u64,
        ops_complete_refill_time_ms: u64,
    ) -> (r: Self)
        ensures
            r.wf(),
            !r@.blocked,
            r@.bandwidth == (if bytes_total_capacity == 0 || bytes_complete_refill_time_ms == 0 {
                None
            } else {
                Some(
                    BucketView {
                        size: bytes_total_capacity,
                        burst_size: bytes_one_time_burst,
                        one_time_burst: bytes_one_time_burst,
                        budget: bytes_total_capacity,
                    },
                )
            }),
            r@.ops == (if ops_total_capacity == 0 || ops_complete_refill_time_ms == 0 {
                None
            } else {
                Some(
                    BucketView {
                        size: ops_total_capacity,
                        burst_size: ops_one_time_burst,
                        one_time_burst: ops_one_time_burst,
                        budget: ops_total_capacity,
                    },
                )
            }),
    {
        let bandwidth = TokenBucket::new(
            bytes_total_capacity,
            bytes_one_time_burst,
            bytes_complete_refill_time_ms,
        );
        let ops = TokenBucket::new(
            ops_total_capacity,
            ops_one_time_burst,
            ops_complete_refill_time_ms,
        );
        RateLimiter { bandwidth, ops, timer_active: false }
    }

    /// Takes `tokens` of a dimension if they are there, and says whether they were. A
    /// dimension that is not limited always has them. Where they are not there, the limiter
    /// is blocked and nothing is taken.
    pub fn consume(&mut self, tokens: u64, token_type: TokenType) -> (r: bool)
        requires
            old(self).wf(),
        ensures
            final(self).wf(),
            r == old(self)@.affords(tokens, token_type),
            final(self)@ == old(self)@.consumed(tokens, token_type),
    {
        let bucket = match token_type {
            TokenType::Bytes => self.bandwidth,
            TokenType::Ops => self.ops,
        };
        match bucket {
            Some(mut b) => {
                if b.reduce(tokens) {
                    match token_type {
                        TokenType::Bytes => {
                            self.bandwidth = Some(b);
                        },
                        TokenType::Ops => {
                            self.ops = Some(b);
                        },
                    }
                    true
                } else {
                    self.timer_active = true;
                    false
                }
            },
            None => true,
        }
    }

    /// Gives `tokens` of a dimension back, which undoes a `consume` of as many.
    pub fn manual_replenish(&mut self, tokens: u64, token_type: TokenType)
        requires
            old(self).wf(),
        ensures
            final(self).wf(),
            final(self)@ == old(self)@.replenished(tokens, token_type),
    {
        let bucket = match token_type {
            TokenType::Bytes => self.bandwidth,
            TokenType::Ops => self.ops,
        };
        match bucket {
            Some(mut b) => {
                b.force_replenish(tokens);
                match token_type {
                    TokenType::Bytes => {
                        self.bandwidth = Some(b);
                    },
                    TokenType::Ops => {
                        self.ops = Some(b);
                    },
                }
            },
            None => {},
        }
    }

    /// Whether a request was turned down since the last refill event.
    pub fn is_blocked(&self) -> (b: bool)
        ensures
            b == self@.blocked,
    {
        self.timer_active
    }

    /// Handles a refill event: fills both budgets and unblocks the limiter. An event that
    /// finds the limiter not blocked is refused and changes nothing.
    pub fn event_handler(&mut self) -> (r: Result<(), RateLimiterError>)
        requires
            old(self).wf(),
        ensures
            final(self).wf(),
            old(self)@.blocked ==> r is Ok && final(self)@ == old(self)@.refilled(),
            !old(self)@.blocked ==> r == Err::<(), RateLimiterError>(
                RateLimiterError::SpuriousRateLimiterEvent,
            ) && final(self)@ == old(self)@,
    {
        if !self.timer_active {
            return Err(RateLimiterError::SpuriousRateLimiterEvent);
        }
        match self.bandwidth {
            Some(mut b) => {
                b.refill();
                self.bandwidth = Some(b);
            },
            None => {},
        }
        match self.ops {
            Some(mut b) => {
                b.refill();
                self.ops = Some(b);
            },
            None => {},
        }
        self.timer_active = false;
        Ok(())
    }
}

/// Giving back the tokens of a dimension that a limiter handed out brings the limiter back
/// to what it was.
pub proof fn lemma_manual_replenish_reverses_consume(
    v: RateLimiterView,
    tokens: u64,
    token_type: TokenType,
)
    requires
        v.wf(),
        v.affords(tokens, token_type),
    ensures
        v.consumed(tokens, token_type).wf(),
        v.consumed(tokens, token_type).replenished(tokens, token_type) == v,
{
    match v.bucket(token_type) {
        Some(b) => {
            lemma_replenish_reverses_reduce(b, tokens);
        },
        None => {},
    }
}

/// A request that a limiter turns down takes nothing: the limiter is blocked, and its
/// buckets are as they were.
pub proof fn lemma_refused_consume_takes_nothing(
    v: RateLimiterView,
    tokens: u64,
    token_type: TokenType,
)
    requires
        !v.affords(tokens, token_type),
    ensures
        v.consumed(tokens, token_type) == (RateLimiterView { blocked: true, ..v }),
{
}

} // verus!
