//! What a pass over a queue of the entropy device does, step by step, and what holds of
//! every pass.

use crate::iovec::{parse_outcome, read_prefix, ParseMode};
use crate::queue::{chain_len, ChainView, QueueView, UsedElem};
use crate::rate_limiter::{
    lemma_manual_replenish_reverses_consume, RateLimiterView, TokenType,
};
use crate::rng::metrics::EntropyMetrics;
use vstd::prelude::*;

verus! {

/// What a pass over a queue works on.
pub struct DrainState {
    /// The queue that is drained.
    pub queue: QueueView,
    /// The rate limiter of the device.
    pub rate_limiter: RateLimiterView,
    /// The counters of the device.
    pub metrics: EntropyMetrics,
    /// Whether the pass has posted a completion.
    pub used_any: bool,
}

/// A pass over a queue at some point: its state, and whether it has stopped before the
/// queue ran empty.
pub struct RunState {
    pub state: DrainState,
    pub stopped: bool,
}

/// The rate limiter after an item that took one operation and `bytes` bytes gave them
/// back.
pub open spec fn refunded(rate_limiter: RateLimiterView, bytes: u64) -> RateLimiterView {
    rate_limiter.replenished(1, TokenType::Ops).replenished(bytes, TokenType::Bytes)
}

/// Posts the completion of the chain with head `id`. Where the used ring is full, nothing is
/// posted, the pass stops, the failure is counted, and the budget that the item took of
/// the rate limiter, if any, is given back.
pub open spec fn retire(
    s: DrainState,
    id: u16,
    bytes: u32,
    count_bytes: bool,
    consumed: Option<u64>,
) -> RunState {
    if s.queue.used.len() < s.queue.size {
        RunState {
            state: DrainState {
                queue: s.queue.with_used(id, bytes),
                metrics: if count_bytes {
                    s.metrics.with_bytes(bytes)
                } else {
                    s.metrics
                },
                used_any: true,
                ..s
            },
            stopped: false,
        }
    } else {
        RunState {
            state: DrainState {
                rate_limiter: match consumed {
                    Some(n) => refunded(s.rate_limiter, n),
                    None => s.rate_limiter,
                },
                metrics: s.metrics.failed(),
                ..s
            },
            stopped: true,
        }
    }
}

/// The rate limiter after a request for one operation and `bytes` bytes: both are taken
/// where both are there. Where the bytes are not there, the operation is given back.
pub open spec fn rate_limited(rate_limiter: RateLimiterView, bytes: u64) -> RateLimiterView {
    let ops = rate_limiter.consumed(1, TokenType::Ops);
    if !rate_limiter.affords(1, TokenType::Ops) {
        ops
    } else if !ops.affords(bytes, TokenType::Bytes) {
        ops.consumed(bytes, TokenType::Bytes).replenished(1, TokenType::Ops)
    } else {
        ops.consumed(bytes, TokenType::Bytes)
    }
}

/// Whether the rate limiter admits a request for one operation and `bytes` bytes.
pub open spec fn admits(rate_limiter: RateLimiterView, bytes: u64) -> bool {
    rate_limiter.affords(1, TokenType::Ops) && rate_limiter.consumed(1, TokenType::Ops).affords(
        bytes,
        TokenType::Bytes,
    )
}

/// The largest number of bytes that a request may ask for: a completion reports no more.
pub open spec fn max_request_len() -> int {
    u32::MAX as int
}

/// One step of a pass over the entropy queue, on the next chain of the queue.
///
/// A chain that does not parse as write-only, or that has more bytes than a completion can
/// report, is retired with 0 bytes, and counted as failed. A chain without bytes is retired
/// with 0 bytes, whatever the rate limiter holds. Any other chain asks the rate limiter for
/// one operation and its bytes: turned down, the chain stays in the queue and the pass
/// stops; admitted, the chain is filled and retired with its length, or with 0 bytes where
/// the host has no random bytes (`fill_ok` is false).
pub open spec fn main_step(s: DrainState, regions: Seq<(int, int)>, fill_ok: bool) -> RunState {
    let c = s.queue.pending()[0];
    let taken = DrainState { queue: s.queue.popped(), metrics: s.metrics.counted(), ..s };
    if !(parse_outcome(ParseMode::WriteOnly, regions, c.descriptors) is Parsed) || chain_len(
        c.descriptors,
    ) > max_request_len() {
        retire(DrainState { metrics: taken.metrics.failed(), ..taken }, c.index, 0, true, None)
    } else {
        let n = chain_len(c.descriptors) as u32;
        if n == 0 {
            retire(taken, c.index, 0, true, None)
        } else if !admits(s.rate_limiter, n as u64) {
            RunState {
                state: DrainState {
                    queue: s.queue,
                    rate_limiter: rate_limited(s.rate_limiter, n as u64),
                    metrics: taken.metrics.throttled(),
                    ..s
                },
                stopped: true,
            }
        } else {
            let admitted = DrainState {
                rate_limiter: rate_limited(s.rate_limiter, n as u64),
                ..taken
            };
            if fill_ok {
                retire(admitted, c.index, n, true, Some(n as u64))
            } else {
                retire(
                    DrainState { metrics: taken.metrics.rng_failed().failed(), ..admitted },
                    c.index,
                    0,
                    true,
                    Some(n as u64),
                )
            }
        }
    }
}

/// A pass over the entropy queue that takes one step for each element of `fills`, until it
/// stops or the queue runs empty. The element says whether the host had random bytes when
/// the step asked for them.
pub open spec fn main_run(init: DrainState, regions: Seq<(int, int)>, fills: Seq<bool>)
    -> RunState
    decreases fills.len(),
{
    if fills.len() == 0 {
        RunState { state: init, stopped: false }
    } else {
        let before = main_run(init, regions, fills.drop_last());
        if before.stopped || before.state.queue.pending().len() == 0 {
            before
        } else {
            main_step(before.state, regions, fills.last())
        }
    }
}

/// What a request on a leak queue comes to: the number of bytes to report, or a failure.
pub enum LeakOutcome {
    /// The request was served with this many bytes.
    Served(u32),
    /// The request is malformed, names no guest memory, or has more bytes than a completion
    /// can report.
    Refused,
    /// The host had no random bytes.
    NoEntropy,
}

/// What the request of chain `c` on a leak queue comes to.
///
/// A chain whose head is write-only asks to be filled: it must parse as write-only, and is
/// served with its length where the host has random bytes (`fill_ok`); a chain without bytes
/// needs none. A chain whose head is read-only asks for a copy: it must parse as read-only
/// descriptors followed by write-only ones, the two parts must be of one length, and it is
/// served with that length. Either way the length to report must be one that a completion
/// can report.
pub open spec fn leak_request(c: ChainView, regions: Seq<(int, int)>, fill_ok: bool)
    -> LeakOutcome {
    let ds = c.descriptors;
    if ds[0].spec_is_write_only() {
        if !(parse_outcome(ParseMode::WriteOnly, regions, ds) is Parsed) || chain_len(ds)
            > max_request_len() {
            LeakOutcome::Refused
        } else if chain_len(ds) == 0 || fill_ok {
            LeakOutcome::Served(chain_len(ds) as u32)
        } else {
            LeakOutcome::NoEntropy
        }
    } else {
        if !(parse_outcome(ParseMode::Mixed, regions, ds) is Parsed) {
            LeakOutcome::Refused
        } else if chain_len(ds.take(read_prefix(ds))) != chain_len(ds.skip(read_prefix(ds))) {
            LeakOutcome::Refused
        } else if chain_len(ds.take(read_prefix(ds))) > max_request_len() {
            LeakOutcome::Refused
        } else {
            LeakOutcome::Served(chain_len(ds.take(read_prefix(ds))) as u32)
        }
    }
}

/// One step of a pass over a leak queue, on the next chain of the queue: the chain is
/// retired with the bytes it was served with, or with 0 bytes and a failure counted.
pub open spec fn leak_step(s: DrainState, regions: Seq<(int, int)>, fill_ok: bool) -> RunState {
    let c = s.queue.pending()[0];
    let taken = DrainState { queue: s.queue.popped(), ..s };
    match leak_request(c, regions, fill_ok) {
        LeakOutcome::Served(n) => retire(taken, c.index, n, false, None),
        LeakOutcome::Refused => retire(
            DrainState { metrics: s.metrics.failed(), ..taken },
            c.index,
            0,
            false,
            None,
        ),
        LeakOutcome::NoEntropy => retire(
            DrainState { metrics: s.metrics.rng_failed().failed(), ..taken },
            c.index,
            0,
            false,
            None,
        ),
    }
}

/// A pass over a leak queue that takes one step for each element of `fills`, until it stops
/// or the queue runs empty. The element says whether the host had random bytes when the
/// step asked for them.
pub open spec fn leak_run(init: DrainState, regions: Seq<(int, int)>, fills: Seq<bool>)
    -> RunState
    decreases fills.len(),
{
    if fills.len() == 0 {
        RunState { state: init, stopped: false }
    } else {
        let before = leak_run(init, regions, fills.drop_last());
        if before.stopped || before.state.queue.pending().len() == 0 {
            before
        } else {
            leak_step(before.state, regions, fills.last())
        }
    }
}

/// Whether a pass has come to its end: it has stopped, or the queue is empty.
pub open spec fn pass_complete(run: RunState) -> bool {
    run.stopped || run.state.queue.pending().len() == 0
}

/// Whether a pass that found a queue as `before` and left it as `after` served its chains in
/// ring order: the completions that it posted are those of the chains that it took, one
/// each and in their order. The one chain that it may have taken without a completion is
/// the last, and then the used ring is full; the chains that it did not take are still
/// pending.
pub open spec fn served_in_order(before: QueueView, after: QueueView) -> bool {
    let posted = after.used.len() - before.used.len();
    &&& after.size == before.size
    &&& after.avail == before.avail
    &&& posted >= 0
    &&& after.used.take(before.used.len() as int) == before.used
    &&& forall|i: int|
        0 <= i < posted ==> (#[trigger] after.used[before.used.len() + i]).id
            == before.avail[before.next + i].index
    &&& after.next == before.next + posted || (after.next == before.next + posted + 1
        && after.used.len() == after.size)
}

proof fn lemma_retire_in_order(
    first: QueueView,
    s: DrainState,
    taken: DrainState,
    bytes: u32,
    count_bytes: bool,
    consumed: Option<u64>,
)
    requires
        first.wf(),
        s.queue.wf(),
        s.queue.pending().len() > 0,
        served_in_order(first, s.queue),
        s.queue.next == first.next + (s.queue.used.len() - first.used.len()),
        taken.queue == s.queue.popped(),
    ensures
        ({
            let run = retire(taken, s.queue.pending()[0].index, bytes, count_bytes, consumed);
            &&& run.state.queue.wf()
            &&& served_in_order(first, run.state.queue)
            &&& !run.stopped ==> run.state.queue.next == first.next + (
            run.state.queue.used.len() - first.used.len())
        }),
{
    let run = retire(taken, s.queue.pending()[0].index, bytes, count_bytes, consumed);
    let after = run.state.queue;
    if !run.stopped {
        assert(after.used.take(first.used.len() as int) =~= s.queue.used.take(
            first.used.len() as int,
        ));
        let posted = after.used.len() - first.used.len();
        assert forall|i: int| 0 <= i < posted implies (#[trigger] after.used[first.used.len()
            + i]).id == first.avail[first.next + i].index by {
            if i < posted - 1 {
                assert(after.used[first.used.len() + i] == s.queue.used[first.used.len() + i]);
            }
        }
    }
}

/// A pass over the entropy queue serves the chains in ring order.
pub proof fn lemma_main_run_in_order(init: DrainState, regions: Seq<(int, int)>, fills: Seq<bool>)
    requires
        init.queue.wf(),
    ensures
        main_run(init, regions, fills).state.queue.wf(),
        served_in_order(init.queue, main_run(init, regions, fills).state.queue),
        !main_run(init, regions, fills).stopped ==> main_run(
            init,
            regions,
            fills,
        ).state.queue.next == init.queue.next + (main_run(
            init,
            regions,
            fills,
        ).state.queue.used.len() - init.queue.used.len()),
        main_run(init, regions, fills).state.used_any == (init.used_any || main_run(
            init,
            regions,
            fills,
        ).state.queue.used.len() > init.queue.used.len()),
    decreases fills.len(),
{
    if fills.len() == 0 {
        assert(init.queue.used.take(init.queue.used.len() as int) =~= init.queue.used);
    } else {
        lemma_main_run_in_order(init, regions, fills.drop_last());
        let before = main_run(init, regions, fills.drop_last());
        if !before.stopped && before.state.queue.pending().len() > 0 {
            let s = before.state;
            let taken = DrainState { queue: s.queue.popped(), metrics: s.metrics.counted(), ..s };
            let c = s.queue.pending()[0];
            let n = chain_len(c.descriptors) as u32;
            lemma_retire_in_order(
                init.queue,
                s,
                DrainState { metrics: taken.metrics.failed(), ..taken },
                0,
                true,
                None,
            );
            lemma_retire_in_order(init.queue, s, taken, 0, true, None);
            let admitted = DrainState {
                rate_limiter: rate_limited(s.rate_limiter, n as u64),
                ..taken
            };
            lemma_retire_in_order(init.queue, s, admitted, n, true, Some(n as u64));
            lemma_retire_in_order(
                init.queue,
                s,
                DrainState { metrics: taken.metrics.rng_failed().failed(), ..admitted },
                0,
                true,
                Some(n as u64),
            );
        }
    }
}

/// A pass over a leak queue serves the chains in ring order.
pub proof fn lemma_leak_run_in_order(init: DrainState, regions: Seq<(int, int)>, fills: Seq<bool>)
    requires
        init.queue.wf(),
    ensures
        leak_run(init, regions, fills).state.queue.wf(),
        served_in_order(init.queue, leak_run(init, regions, fills).state.queue),
        !leak_run(init, regions, fills).stopped ==> leak_run(
            init,
            regions,
            fills,
        ).state.queue.next == init.queue.next + (leak_run(
            init,
            regions,
            fills,
        ).state.queue.used.len() - init.queue.used.len()),
        leak_run(init, regions, fills).state.rate_limiter == init.rate_limiter,
        leak_run(init, regions, fills).state.used_any == (init.used_any || leak_run(
            init,
            regions,
            fills,
        ).state.queue.used.len() > init.queue.used.len()),
        leak_run(init, regions, fills).stopped ==> leak_run(
            init,
            regions,
            fills,
        ).state.queue.used.len() == init.queue.size,
    decreases fills.len(),
{
    if fills.len() == 0 {
        assert(init.queue.used.take(init.queue.used.len() as int) =~= init.queue.used);
    } else {
        lemma_leak_run_in_order(init, regions, fills.drop_last());
        let before = leak_run(init, regions, fills.drop_last());
        if !before.stopped && before.state.queue.pending().len() > 0 {
            let s = before.state;
            let taken = DrainState { queue: s.queue.popped(), ..s };
            let c = s.queue.pending()[0];
            match leak_request(c, regions, fills.last()) {
                LeakOutcome::Served(n) => {
                    lemma_retire_in_order(init.queue, s, taken, n, false, None);
                },
                LeakOutcome::Refused => {
                    lemma_retire_in_order(
                        init.queue,
                        s,
                        DrainState { metrics: s.metrics.failed(), ..taken },
                        0,
                        false,
                        None,
                    );
                },
                LeakOutcome::NoEntropy => {
                    lemma_retire_in_order(
                        init.queue,
                        s,
                        DrainState { metrics: s.metrics.rng_failed().failed(), ..taken },
                        0,
                        false,
                        None,
                    );
                },
            }
        }
    }
}

/// A request that the rate limiter turns down stays pending: the queue is as it was, the
/// pass stops, the limiter is blocked with its buckets as they were, and nothing but the
/// request and the throttling is counted.
pub proof fn lemma_throttled_request_stays_pending(
    s: DrainState,
    regions: Seq<(int, int)>,
    fill_ok: bool,
)
    requires
        s.queue.wf(),
        s.queue.pending().len() > 0,
        parse_outcome(ParseMode::WriteOnly, regions, s.queue.pending()[0].descriptors) is Parsed,
        s.rate_limiter.wf(),
        0 < chain_len(s.queue.pending()[0].descriptors) <= max_request_len(),
        !admits(s.rate_limiter, chain_len(s.queue.pending()[0].descriptors) as u64),
    ensures
        main_step(s, regions, fill_ok).stopped,
        main_step(s, regions, fill_ok).state.queue == s.queue,
        main_step(s, regions, fill_ok).state.used_any == s.used_any,
        main_step(s, regions, fill_ok).state.metrics == s.metrics.counted().throttled(),
        main_step(s, regions, fill_ok).state.rate_limiter == (RateLimiterView {
            blocked: true,
            ..s.rate_limiter
        }),
{
    lemma_refused_request_takes_nothing(
        s.rate_limiter,
        chain_len(s.queue.pending()[0].descriptors) as u64,
    );
}

/// A request that the rate limiter admits is filled and retired with its length, where the
/// host has random bytes and the used ring has room.
pub proof fn lemma_admitted_request_is_served(s: DrainState, regions: Seq<(int, int)>)
    requires
        s.queue.wf(),
        s.queue.pending().len() > 0,
        parse_outcome(ParseMode::WriteOnly, regions, s.queue.pending()[0].descriptors) is Parsed,
        0 < chain_len(s.queue.pending()[0].descriptors) <= max_request_len(),
        admits(s.rate_limiter, chain_len(s.queue.pending()[0].descriptors) as u64),
        s.queue.used.len() < s.queue.size,
    ensures
        !main_step(s, regions, true).stopped,
        main_step(s, regions, true).state.queue == s.queue.popped().with_used(
            s.queue.pending()[0].index,
            chain_len(s.queue.pending()[0].descriptors) as u32,
        ),
        main_step(s, regions, true).state.used_any,
        main_step(s, regions, true).state.metrics == s.metrics.counted().with_bytes(
            chain_len(s.queue.pending()[0].descriptors) as u32,
        ),
{
    let c = s.queue.pending()[0];
    assert(c == s.queue.avail[s.queue.next]);
    assert(c.wf());
}

/// A copy request whose two parts differ in length is retired with 0 bytes and counted as
/// failed, where the used ring has room.
pub proof fn lemma_copy_of_unequal_parts_is_refused(
    s: DrainState,
    regions: Seq<(int, int)>,
    fill_ok: bool,
)
    requires
        s.queue.wf(),
        s.queue.pending().len() > 0,
        !s.queue.pending()[0].descriptors[0].spec_is_write_only(),
        chain_len(
            s.queue.pending()[0].descriptors.take(read_prefix(s.queue.pending()[0].descriptors)),
        ) != chain_len(
            s.queue.pending()[0].descriptors.skip(read_prefix(s.queue.pending()[0].descriptors)),
        ),
        s.queue.used.len() < s.queue.size,
    ensures
        !leak_step(s, regions, fill_ok).stopped,
        leak_step(s, regions, fill_ok).state.queue == s.queue.popped().with_used(
            s.queue.pending()[0].index,
            0,
        ),
        leak_step(s, regions, fill_ok).state.metrics == s.metrics.failed(),
{
}

/// A request that the rate limiter turns down takes nothing of it: the limiter is blocked,
/// and both buckets are as they were, also where the operation had been taken before the
/// bytes were found missing.
pub proof fn lemma_refused_request_takes_nothing(rate_limiter: RateLimiterView, bytes: u64)
    requires
        rate_limiter.wf(),
        !admits(rate_limiter, bytes),
    ensures
        rate_limited(rate_limiter, bytes) == (RateLimiterView { blocked: true, ..rate_limiter }),
{
    if rate_limiter.affords(1, TokenType::Ops) {
        lemma_manual_replenish_reverses_consume(rate_limiter, 1, TokenType::Ops);
    }
}

/// Giving back what an admitted request took brings the rate limiter back to what it was.
pub proof fn lemma_refund_reverses_request(rate_limiter: RateLimiterView, bytes: u64)
    requires
        rate_limiter.wf(),
        admits(rate_limiter, bytes),
    ensures
        rate_limited(rate_limiter, bytes).wf(),
        refunded(rate_limited(rate_limiter, bytes), bytes) == rate_limiter,
{
    lemma_manual_replenish_reverses_consume(rate_limiter, 1, TokenType::Ops);
    let ops = rate_limiter.consumed(1, TokenType::Ops);
    lemma_manual_replenish_reverses_consume(ops, bytes, TokenType::Bytes);
    let both = ops.consumed(bytes, TokenType::Bytes);
    // The two dimensions do not touch each other, so the order of giving back is free.
    assert(both.replenished(1, TokenType::Ops).replenished(bytes, TokenType::Bytes)
        == both.replenished(bytes, TokenType::Bytes).replenished(1, TokenType::Ops));
}

/// A request that is taken while the used ring is full leaves the buckets of the rate
/// limiter as they were before it was taken: what it took of them is given back when its
/// completion cannot be posted. The pass stops, and unless the request was turned down by
/// the rate limiter and stays pending, it is gone from the queue and a failure is counted.
pub proof fn lemma_unposted_completion_refunds(
    s: DrainState,
    regions: Seq<(int, int)>,
    fill_ok: bool,
)
    requires
        s.queue.wf(),
        s.rate_limiter.wf(),
        s.queue.pending().len() > 0,
        s.queue.used.len() == s.queue.size,
    ensures
        main_step(s, regions, fill_ok).stopped,
        main_step(s, regions, fill_ok).state.rate_limiter.bandwidth == s.rate_limiter.bandwidth,
        main_step(s, regions, fill_ok).state.rate_limiter.ops == s.rate_limiter.ops,
        main_step(s, regions, fill_ok).state.queue.used == s.queue.used,
        main_step(s, regions, fill_ok).state.queue != s.queue ==> main_step(
            s,
            regions,
            fill_ok,
        ).state.queue == s.queue.popped() && main_step(
            s,
            regions,
            fill_ok,
        ).state.metrics.entropy_event_fails >= s.metrics.entropy_event_fails.saturating_add(1),
{
    let c = s.queue.pending()[0];
    let n = chain_len(c.descriptors) as u32;
    if admits(s.rate_limiter, n as u64) {
        lemma_refund_reverses_request(s.rate_limiter, n as u64);
    } else {
        lemma_refused_request_takes_nothing(s.rate_limiter, n as u64);
    }
}

/// A pass is its first step, and, unless that stops it, the pass that goes on from there.
pub proof fn lemma_main_run_first_step(init: DrainState, regions: Seq<(int, int)>, fills: Seq<bool>)
    requires
        fills.len() > 0,
        init.queue.pending().len() > 0,
    ensures
        main_run(init, regions, fills) == (if main_step(init, regions, fills[0]).stopped {
            main_step(init, regions, fills[0])
        } else {
            main_run(main_step(init, regions, fills[0]).state, regions, fills.drop_first())
        }),
    decreases fills.len(),
{
    let step = main_step(init, regions, fills[0]);
    if fills.len() == 1 {
        assert(fills.drop_last().len() == 0);
        assert(fills.drop_first().len() == 0);
    } else {
        lemma_main_run_first_step(init, regions, fills.drop_last());
        assert(fills.drop_last()[0] == fills[0]);
        assert(fills.drop_last().drop_first() == fills.drop_first().drop_last());
        assert(fills.drop_first().last() == fills.last());
    }
}

/// A pass over a leak queue is its first step, and, unless that stops it, the pass that goes
/// on from there.
pub proof fn lemma_leak_run_first_step(init: DrainState, regions: Seq<(int, int)>, fills: Seq<bool>)
    requires
        fills.len() > 0,
        init.queue.pending().len() > 0,
    ensures
        leak_run(init, regions, fills) == (if leak_step(init, regions, fills[0]).stopped {
            leak_step(init, regions, fills[0])
        } else {
            leak_run(leak_step(init, regions, fills[0]).state, regions, fills.drop_first())
        }),
    decreases fills.len(),
{
    if fills.len() == 1 {
        assert(fills.drop_last().len() == 0);
        assert(fills.drop_first().len() == 0);
    } else {
        lemma_leak_run_first_step(init, regions, fills.drop_last());
        assert(fills.drop_last()[0] == fills[0]);
        assert(fills.drop_last().drop_first() == fills.drop_first().drop_last());
        assert(fills.drop_first().last() == fills.last());
    }
}

/// The bytes that a request on a leak queue is retired with: those it was served with, and
/// none where it was not served.
pub open spec fn leak_bytes(outcome: LeakOutcome) -> u32 {
    match outcome {
        LeakOutcome::Served(n) => n,
        _ => 0,
    }
}

/// The completions of the first `fills.len()` chains of `pending` on a leak queue, in their
/// order, where the host had random bytes as `fills` says.
pub open spec fn leak_completions(
    pending: Seq<ChainView>,
    regions: Seq<(int, int)>,
    fills: Seq<bool>,
) -> Seq<UsedElem> {
    Seq::new(
        fills.len(),
        |i: int|
            UsedElem {
                id: pending[i].index,
                len: leak_bytes(leak_request(pending[i], regions, fills[i])),
            },
    )
}

/// A pass over a leak queue retires every chain that it takes, wherever the chain stands in
/// the queue and whatever it asks for, as long as the used ring has room: a chain that is
/// served with its bytes, and one that is refused, such as a copy between parts of unequal
/// length, with none. The pass does not stop, and leaves the rate limiter alone.
pub proof fn lemma_leak_run_retires_every_chain(
    init: DrainState,
    regions: Seq<(int, int)>,
    fills: Seq<bool>,
)
    requires
        init.queue.wf(),
        fills.len() <= init.queue.pending().len(),
        init.queue.used.len() + fills.len() <= init.queue.size,
    ensures
        !leak_run(init, regions, fills).stopped,
        leak_run(init, regions, fills).state.queue == (QueueView {
            next: init.queue.next + fills.len(),
            used: init.queue.used + leak_completions(init.queue.pending(), regions, fills),
            ..init.queue
        }),
        leak_run(init, regions, fills).state.rate_limiter == init.rate_limiter,
        leak_run(init, regions, fills).state.used_any == (init.used_any || fills.len() > 0),
    decreases fills.len(),
{
    let pending = init.queue.pending();
    if fills.len() == 0 {
        assert(init.queue.used + leak_completions(pending, regions, fills) =~= init.queue.used);
    } else {
        let front = fills.drop_last();
        lemma_leak_run_retires_every_chain(init, regions, front);
        let before = leak_run(init, regions, front).state;
        let c = before.queue.pending()[0];
        assert(c == pending[front.len() as int]);
        assert(before.queue.wf());
        let after = leak_run(init, regions, fills).state;
        assert(leak_run(init, regions, fills) == leak_step(before, regions, fills.last()));
        assert(after.queue.used =~= init.queue.used + leak_completions(pending, regions, fills))
            by {
            let posted = leak_completions(pending, regions, fills);
            let earlier = leak_completions(pending, regions, front);
            assert(earlier =~= posted.drop_last());
            assert(after.queue.used == before.queue.used.push(posted.last()));
        }
    }
}

/// The request that stands first in the entropy queue when the rate limiter admits it, as
/// it does after a refill that covers the request, is retired by the pass that takes it:
/// with its length where the host has random bytes, and with 0 bytes where not. The
/// completion stays where it is while the pass goes on.
pub proof fn lemma_main_run_serves_admitted_request(
    init: DrainState,
    regions: Seq<(int, int)>,
    fills: Seq<bool>,
)
    requires
        init.queue.wf(),
        init.rate_limiter.wf(),
        fills.len() > 0,
        init.queue.pending().len() > 0,
        init.queue.used.len() < init.queue.size,
        parse_outcome(ParseMode::WriteOnly, regions, init.queue.pending()[0].descriptors)
            is Parsed,
        0 < chain_len(init.queue.pending()[0].descriptors) <= max_request_len(),
        admits(init.rate_limiter, chain_len(init.queue.pending()[0].descriptors) as u64),
    ensures
        main_run(init, regions, fills).state.queue.used.len() > init.queue.used.len(),
        main_run(init, regions, fills).state.queue.used[init.queue.used.len() as int] == (
        UsedElem {
            id: init.queue.pending()[0].index,
            len: if fills[0] {
                chain_len(init.queue.pending()[0].descriptors) as u32
            } else {
                0
            },
        }),
        main_run(init, regions, fills).state.used_any,
        main_step(init, regions, fills[0]).state.rate_limiter.blocked
            == init.rate_limiter.blocked,
{
    let step = main_step(init, regions, fills[0]);
    lemma_main_run_first_step(init, regions, fills);
    assert(!step.stopped);
    assert(step.state.queue.wf()) by {
        lemma_main_run_in_order(init, regions, seq![fills[0]]);
        lemma_main_run_first_step(init, regions, seq![fills[0]]);
        assert(seq![fills[0]].drop_first().len() == 0);
    }
    let rest = main_run(step.state, regions, fills.drop_first());
    lemma_main_run_in_order(step.state, regions, fills.drop_first());
    let at = init.queue.used.len() as int;
    assert(rest.state.queue.used.take(step.state.queue.used.len() as int)[at]
        == rest.state.queue.used[at]);
}

/// A refill leaves no limiter blocked and every budget full, so that the limiter admits
/// any request that its buckets are large enough for.
pub proof fn lemma_refilled_limiter_admits(rate_limiter: RateLimiterView, bytes: u64)
    requires
        rate_limiter.wf(),
        rate_limiter.ops matches Some(b) ==> b.size >= 1,
        rate_limiter.bandwidth matches Some(b) ==> b.size >= bytes,
    ensures
        rate_limiter.refilled().wf(),
        !rate_limiter.refilled().blocked,
        admits(rate_limiter.refilled(), bytes),
{
}

} // verus!
