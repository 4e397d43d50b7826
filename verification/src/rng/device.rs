//! The entropy device: one queue on which the driver asks for random bytes, throttled by a
//! rate limiter, and two leak queues of which the device serves the one it has signaled.

use crate::device::{
    ack_by_page, acked_after, ActivateError, DeviceState, IrqTrigger, IrqType, VirtioDevice,
    TYPE_RNG,
};
use crate::guest_memory::{guest_regions, GuestMemoryMmap};
use crate::iovec::{
    lemma_first_write_bounds, lemma_regions_of_total, parse_outcome, read_prefix, regions_of,
    window_len, Error as IoVecBufferError, IoVecBuffer, ParseMode,
};
use crate::queue::{chain_len, DescriptorChain, Queue, QueueError, QueueView, UsedElem};
use crate::rate_limiter::{RateLimiter, RateLimiterView, TokenType};
use crate::rng::metrics::EntropyMetrics;
use crate::rng::pass::{
    admits, leak_completions, leak_run, leak_step, lemma_leak_run_retires_every_chain,
    lemma_main_run_first_step, lemma_main_run_serves_admitted_request,
    lemma_unposted_completion_refunds, main_run, main_step, max_request_len, pass_complete,
    rate_limited, refunded, DrainState, RunState,
};
use crate::rng::{
    LeakQueue, NUM_QUEUES, QUEUE_SIZE, RNG_QUEUE, VIRTIO_F_RNG_F_LEAK, VIRTIO_F_VERSION_1,
};
use vstd::prelude::*;

verus! {

/// Identifier of the entropy device.
pub const ENTROPY_DEV_ID: &'static str = "rng";

/// `aws_lc_rs::error::Unspecified`: an error without detail.
#[verifier::external_type_specification]
#[verifier::external_body]
pub struct ExUnspecified(aws_lc_rs::error::Unspecified);

/// `aws_lc_rs::rand::fill` overwrites the bytes of `dest` and keeps their number; it may
/// fail.
pub assume_specification[ aws_lc_rs::rand::fill ](dest: &mut [u8]) -> (r: Result<
    (),
    aws_lc_rs::error::Unspecified,
>)
    ensures
        final(dest)@.len() == old(dest)@.len(),
;

/// Why a request could not be served.
#[derive(Debug)]
pub enum Error {
    /// The host could not provide random bytes.
    Random(aws_lc_rs::error::Unspecified),
    /// The chain of the request could not be parsed.
    ParseDescriptor(IoVecBufferError),
    /// The two parts of a copy request differ in length.
    BufferSizeNotMatch,
    /// The request has more bytes than a completion can report.
    RequestTooLong,
}

/// Whether a completion can report `len` bytes.
pub fn fits_completion(len: usize) -> (b: bool)
    ensures
        b == (len <= max_request_len()),
{
    len <= u32::MAX as usize
}

// Asks the rate limiter for one operation and `bytes` bytes.
fn rate_limit_request(rate_limiter: &mut RateLimiter, bytes: u64) -> (r: bool)
    requires
        old(rate_limiter).wf(),
    ensures
        final(rate_limiter).wf(),
        r == admits(old(rate_limiter)@, bytes),
        final(rate_limiter)@ == rate_limited(old(rate_limiter)@, bytes),
{
    if !rate_limiter.consume(1, TokenType::Ops) {
        return false;
    }
    if !rate_limiter.consume(bytes, TokenType::Bytes) {
        rate_limiter.manual_replenish(1, TokenType::Ops);
        return false;
    }
    true
}

// Gives one operation and `bytes` bytes back to the rate limiter.
fn rate_limit_replenish_request(rate_limiter: &mut RateLimiter, bytes: u64)
    requires
        old(rate_limiter).wf(),
    ensures
        final(rate_limiter).wf(),
        final(rate_limiter)@ == refunded(old(rate_limiter)@, bytes),
{
    rate_limiter.manual_replenish(1, TokenType::Ops);
    rate_limiter.manual_replenish(bytes, TokenType::Bytes);
}

/// Writes `rand_bytes` to the write-only part of `iovec`, where the host's source of random
/// bytes filled them (`filled` is `Ok`), and returns the number of bytes written: as many as
/// both hold. Where the source failed, nothing is written and the failure is counted.
pub fn write_random_bytes(
    iovec: &mut IoVecBuffer<'_>,
    rand_bytes: &[u8],
    filled: Result<(), aws_lc_rs::error::Unspecified>,
    metrics: &mut EntropyMetrics,
) -> (r: Result<usize, Error>)
    requires
        old(iovec).wf(),
    ensures
        *final(iovec) == *old(iovec),
        filled is Ok ==> (r matches Ok(n) && n == window_len(
            old(iovec).write_len() as int,
            0,
            rand_bytes@.len() as int,
        )) && *final(metrics) == *old(metrics),
        filled is Err ==> (r matches Err(e) && e is Random)
            && *final(metrics) == old(metrics).rng_failed(),
{
    match filled {
        Ok(()) => {},
        Err(err) => {
            metrics.host_rng_fails = metrics.host_rng_fails.saturating_add(1);
            return Err(Error::Random(err));
        },
    }
    match iovec.write_at(rand_bytes, 0) {
        Some(n) => Ok(n),
        None => Ok(0),
    }
}

// Fills the write-only part of `iovec` with random bytes.
fn fill_buffer(iovec: &mut IoVecBuffer<'_>, metrics: &mut EntropyMetrics) -> (r: Result<
    usize,
    Error,
>)
    requires
        old(iovec).wf(),
    ensures
        *final(iovec) == *old(iovec),
        old(iovec).write_len() == 0 ==> r is Ok,
        r matches Ok(n) ==> n == old(iovec).write_len() && *final(metrics) == *old(metrics),
        r matches Err(e) ==> e is Random && *final(metrics) == old(metrics).rng_failed(),
{
    if iovec.write_len() == 0 {
        return Ok(0);
    }
    let mut rand_bytes: Vec<u8> = vec![0u8; iovec.write_len()];
    let filled = aws_lc_rs::rand::fill(rand_bytes.as_mut_slice());
    write_random_bytes(iovec, rand_bytes.as_slice(), filled, metrics)
}

// Takes chains from the entropy queue until it is empty, the rate limiter turns one down
// or a completion cannot be posted. Says whether a completion was posted, and of each
// step whether the host had random bytes.
fn drain_entropy_queue(
    mem: &GuestMemoryMmap,
    queue: &mut Queue,
    rate_limiter: &mut RateLimiter,
    metrics: &mut EntropyMetrics,
) -> (r: (bool, Ghost<Seq<bool>>))
    requires
        old(queue).wf(),
        old(rate_limiter).wf(),
    ensures
        final(queue).wf(),
        final(rate_limiter).wf(),
        r.1@.len() <= old(queue)@.pending().len(),
        ({
            let run = main_run(
                DrainState {
                    queue: old(queue)@,
                    rate_limiter: old(rate_limiter)@,
                    metrics: *old(metrics),
                    used_any: false,
                },
                guest_regions(*mem),
                r.1@,
            );
            &&& run.state == (DrainState {
                queue: final(queue)@,
                rate_limiter: final(rate_limiter)@,
                metrics: *final(metrics),
                used_any: r.0,
            })
            &&& run.stopped || final(queue)@.pending().len() == 0
        }),
{
    let ghost init = DrainState {
        queue: queue@,
        rate_limiter: rate_limiter@,
        metrics: *metrics,
        used_any: false,
    };
    let ghost regions = guest_regions(*mem);
    let ghost mut done: Seq<bool> = Seq::empty();
    let mut used_any = false;
    let mut halted = false;
    let mut drained = false;
    let mut iovec = IoVecBuffer::new();
    while !halted && !drained
        invariant
            queue.wf(),
            rate_limiter.wf(),
            iovec.wf(),
            regions == guest_regions(*mem),
            main_run(init, regions, done) == (RunState {
                state: DrainState {
                    queue: queue@,
                    rate_limiter: rate_limiter@,
                    metrics: *metrics,
                    used_any,
                },
                stopped: halted,
            }),
            drained ==> queue@.pending().len() == 0,
            done.len() <= init.queue.pending().len(),
            !halted ==> done.len() + queue@.pending().len() == init.queue.pending().len(),
            queue@.avail == init.queue.avail,
        decreases queue@.pending().len(), (if halted || drained { 0int } else { 1int }),
    {
        let ghost s = DrainState {
            queue: queue@,
            rate_limiter: rate_limiter@,
            metrics: *metrics,
            used_any,
        };
        match queue.pop() {
            None => {
                drained = true;
            },
            Some(desc) => {
                let ghost c = desc@;
                let id = desc.index();
                metrics.entropy_event_count = metrics.entropy_event_count.saturating_add(1);
                let mut consumed: Option<u64> = None;
                let mut throttled = false;
                let ghost mut fill_ok = true;
                let bytes: u32 = match iovec.parse_write_only(mem, desc) {
                    Ok(()) => {
                        proof {
                            lemma_regions_of_total(c.descriptors);
                            assert(iovec.write_regions() == iovec.regions());
                        }
                        let n = iovec.write_len();
                        if !fits_completion(n) {
                            metrics.entropy_event_fails =
                                metrics.entropy_event_fails.saturating_add(1);
                            0
                        } else if n == 0 {
                            0
                        } else if !rate_limit_request(rate_limiter, n as u64) {
                            throttled = true;
                            0
                        } else {
                            consumed = Some(n as u64);
                            match fill_buffer(&mut iovec, metrics) {
                                Ok(written) => written as u32,
                                Err(_) => {
                                    proof {
                                        fill_ok = false;
                                    }
                                    metrics.entropy_event_fails =
                                        metrics.entropy_event_fails.saturating_add(1);
                                    0
                                },
                            }
                        }
                    },
                    Err(_) => {
                        metrics.entropy_event_fails = metrics.entropy_event_fails.saturating_add(1);
                        0
                    },
                };
                if throttled {
                    metrics.entropy_rate_limiter_throttled =
                        metrics.entropy_rate_limiter_throttled.saturating_add(1);
                    queue.undo_pop();
                    halted = true;
                } else {
                    match queue.add_used(id, bytes) {
                        Ok(()) => {
                            used_any = true;
                            metrics.entropy_bytes = metrics.entropy_bytes.saturating_add(
                                bytes as u64,
                            );
                        },
                        Err(_) => {
                            match consumed {
                                Some(n) => {
                                    rate_limit_replenish_request(rate_limiter, n);
                                },
                                None => {},
                            }
                            metrics.entropy_event_fails = metrics.entropy_event_fails.saturating_add(
                                1,
                            );
                            halted = true;
                        },
                    }
                }
                proof {
                    let before = done;
                    done = done.push(fill_ok);
                    assert(done.drop_last() == before);
                    assert(done.last() == fill_ok);
                    assert(main_run(init, regions, done) == main_step(s, regions, fill_ok));
                }
            },
        }
    }
    (used_any, Ghost(done))
}

/// Whether a result says that the host had no random bytes.
pub open spec fn is_random_failure(r: Result<usize, Error>) -> bool {
    r matches Err(e) && e is Random
}

/// Serves a request to fill a chain with random bytes on a leak: parses the chain as
/// write-only into `iovec`, fills its bytes and returns their number. Fails on a chain that
/// does not parse, on one with more bytes than a completion can report, of which nothing is
/// filled, and where the host has no random bytes, which is counted.
pub fn handle_fill_on_leak_request<'a>(
    mem: &'a GuestMemoryMmap,
    head: DescriptorChain,
    iovec: &mut IoVecBuffer<'a>,
    metrics: &mut EntropyMetrics,
) -> (r: Result<usize, Error>)
    requires
        head.wf(),
    ensures
        final(iovec).wf(),
        final(iovec).id() == Some(head@.index),
        ({
            let ds = head@.descriptors;
            let parsed = parse_outcome(ParseMode::WriteOnly, guest_regions(*mem), ds) is Parsed;
            &&& !parsed ==> (r matches Err(e) && e is ParseDescriptor) && final(iovec).is_clear()
                && *final(metrics) == *old(metrics)
            &&& parsed ==> final(iovec).regions() == regions_of(ds) && final(iovec).split_index()
                == 0 && final(iovec).memory() == Some(mem)
            &&& parsed && chain_len(ds) > max_request_len() ==> (r matches Err(e)
                && e is RequestTooLong) && *final(metrics) == *old(metrics)
            &&& parsed && chain_len(ds) <= max_request_len() ==> (match r {
                Ok(n) => n == chain_len(ds) && *final(metrics) == *old(metrics),
                Err(e) => e is Random && chain_len(ds) > 0
                    && *final(metrics) == old(metrics).rng_failed(),
            })
        }),
{
    match iovec.parse_write_only(mem, head) {
        Ok(()) => {},
        Err(e) => {
            return Err(Error::ParseDescriptor(e));
        },
    }
    proof {
        lemma_regions_of_total(head@.descriptors);
        assert(iovec.write_regions() == iovec.regions());
    }
    if !fits_completion(iovec.write_len()) {
        return Err(Error::RequestTooLong);
    }
    fill_buffer(iovec, metrics)
}

/// Serves a request to copy on a leak: parses the chain as read-only descriptors followed
/// by write-only ones into `iovec`, copies the bytes of the read-only part to the write-only
/// part and returns their number. Fails on a chain that does not parse, on one whose two
/// parts differ in length, and on one with more bytes to copy than a completion can report:
/// of these nothing is copied.
pub fn handle_copy_on_leak_request<'a>(
    mem: &'a GuestMemoryMmap,
    head: DescriptorChain,
    iovec: &mut IoVecBuffer<'a>,
) -> (r: Result<usize, Error>)
    requires
        head.wf(),
    ensures
        final(iovec).wf(),
        final(iovec).id() == Some(head@.index),
        ({
            let ds = head@.descriptors;
            let parsed = parse_outcome(ParseMode::Mixed, guest_regions(*mem), ds) is Parsed;
            let read = chain_len(ds.take(read_prefix(ds)));
            let write = chain_len(ds.skip(read_prefix(ds)));
            &&& !parsed ==> (r matches Err(e) && e is ParseDescriptor) && final(iovec).is_clear()
            &&& parsed ==> final(iovec).regions() == regions_of(ds) && final(iovec).split_index()
                == read_prefix(ds) && final(iovec).memory() == Some(mem)
            &&& parsed && read != write ==> (r matches Err(e) && e is BufferSizeNotMatch)
            &&& parsed && read == write && read > max_request_len() ==> (r matches Err(e)
                && e is RequestTooLong)
            &&& parsed && read == write && read <= max_request_len() ==> (r matches Ok(n) && n
                == read)
        }),
{
    match iovec.parse(mem, head) {
        Ok(()) => {},
        Err(e) => {
            return Err(Error::ParseDescriptor(e));
        },
    }
    proof {
        let ds = head@.descriptors;
        let k = read_prefix(ds);
        lemma_first_write_bounds(ds, 0);
        assert(regions_of(ds).take(k) == regions_of(ds.take(k)));
        assert(regions_of(ds).skip(k) == regions_of(ds.skip(k)));
        lemma_regions_of_total(ds.take(k));
        lemma_regions_of_total(ds.skip(k));
    }
    if iovec.read_len() != iovec.write_len() {
        return Err(Error::BufferSizeNotMatch);
    }
    let len = iovec.read_len();
    if !fits_completion(len) {
        return Err(Error::RequestTooLong);
    }
    if len == 0 {
        return Ok(0);
    }
    let mut buffer: Vec<u8> = vec![0u8; len];
    let copied = match iovec.read_at(buffer.as_mut_slice(), 0) {
        Some(_) => iovec.write_at(buffer.as_slice(), 0),
        None => None,
    };
    match copied {
        Some(n) => Ok(n),
        None => Ok(0),
    }
}

// Takes chains from a leak queue until it is empty or a completion cannot be posted. Says
// whether a completion was posted, and of each step whether the host had random bytes.
fn drain_leak_queue(mem: &GuestMemoryMmap, queue: &mut Queue, metrics: &mut EntropyMetrics) -> (r:
    (bool, Ghost<Seq<bool>>))
    requires
        old(queue).wf(),
    ensures
        final(queue).wf(),
        r.1@.len() <= old(queue)@.pending().len(),
        forall|rate_limiter: RateLimiterView|
            {
                let run = #[trigger] leak_run(
                    DrainState {
                        queue: old(queue)@,
                        rate_limiter,
                        metrics: *old(metrics),
                        used_any: false,
                    },
                    guest_regions(*mem),
                    r.1@,
                );
                &&& run.state == (DrainState {
                    queue: final(queue)@,
                    rate_limiter,
                    metrics: *final(metrics),
                    used_any: r.0,
                })
                &&& run.stopped || final(queue)@.pending().len() == 0
            },
{
    let ghost first = queue@;
    let ghost first_metrics = *metrics;
    let ghost regions = guest_regions(*mem);
    let ghost mut done: Seq<bool> = Seq::empty();
    let mut used_any = false;
    let mut halted = false;
    let mut drained = false;
    let mut iovec = IoVecBuffer::new();
    while !halted && !drained
        invariant
            queue.wf(),
            iovec.wf(),
            regions == guest_regions(*mem),
            forall|rate_limiter: RateLimiterView|
                #[trigger] leak_run(
                    DrainState {
                        queue: first,
                        rate_limiter,
                        metrics: first_metrics,
                        used_any: false,
                    },
                    regions,
                    done,
                ) == (RunState {
                    state: DrainState { queue: queue@, rate_limiter, metrics: *metrics, used_any },
                    stopped: halted,
                }),
            drained ==> queue@.pending().len() == 0,
            done.len() <= first.pending().len(),
            !halted ==> done.len() + queue@.pending().len() == first.pending().len(),
        decreases queue@.pending().len(), (if halted || drained { 0int } else { 1int }),
    {
        let ghost q0 = queue@;
        let ghost m0 = *metrics;
        let ghost u0 = used_any;
        match queue.pop() {
            None => {
                drained = true;
            },
            Some(head) => {
                let id = head.index();
                let ghost mut fill_ok = true;
                let served = if head.is_write_only() {
                    let r = handle_fill_on_leak_request(mem, head, &mut iovec, metrics);
                    proof {
                        fill_ok = !is_random_failure(r);
                    }
                    r
                } else {
                    handle_copy_on_leak_request(mem, head, &mut iovec)
                };
                let bytes: u32 = match served {
                    Ok(n) => n as u32,
                    Err(_) => {
                        metrics.entropy_event_fails = metrics.entropy_event_fails.saturating_add(1);
                        0
                    },
                };
                match queue.add_used(id, bytes) {
                    Ok(()) => {
                        used_any = true;
                    },
                    Err(_) => {
                        metrics.entropy_event_fails = metrics.entropy_event_fails.saturating_add(1);
                        halted = true;
                    },
                }
                proof {
                    let before = done;
                    done = done.push(fill_ok);
                    assert(done.drop_last() == before);
                    assert(done.last() == fill_ok);
                    assert forall|rate_limiter: RateLimiterView|
                        #[trigger] leak_run(
                            DrainState {
                                queue: first,
                                rate_limiter,
                                metrics: first_metrics,
                                used_any: false,
                            },
                            regions,
                            done,
                        ) == (RunState {
                            state: DrainState {
                                queue: queue@,
                                rate_limiter,
                                metrics: *metrics,
                                used_any,
                            },
                            stopped: halted,
                        }) by {
                        let s = DrainState { queue: q0, rate_limiter, metrics: m0, used_any: u0 };
                        let init = DrainState {
                            queue: first,
                            rate_limiter,
                            metrics: first_metrics,
                            used_any: false,
                        };
                        assert(leak_run(init, regions, before).state == s);
                        assert(leak_run(init, regions, done) == leak_step(s, regions, fill_ok));
                    }
                }
            },
        }
    }
    (used_any, Ghost(done))
}

/// What the entropy device holds.
pub struct EntropyView {
    /// The features that the device offers.
    pub avail_features: u64,
    /// The features that the driver has acknowledged.
    pub acked_features: u64,
    /// Whether the device is activated.
    pub activated: bool,
    /// The guest memory that is attached to the device, if it is activated.
    pub memory: Option<GuestMemoryMmap>,
    /// The regions of the guest memory that is attached to the device.
    pub regions: Seq<(int, int)>,
    /// The entropy queue and the two leak queues.
    pub queues: Seq<QueueView>,
    /// The interrupt line.
    pub irq_trigger: IrqTrigger,
    /// The rate limiter of the entropy queue.
    pub rate_limiter: RateLimiterView,
    /// The leak queue that the device has signaled last, and serves when the driver kicks it.
    pub signaled_leak_queue: Option<LeakQueue>,
    /// The leak queue that the driver is expected to use.
    pub active_leakq: LeakQueue,
    /// The counters.
    pub metrics: EntropyMetrics,
}

/// An interrupt line after the interrupt for new completions was raised.
pub open spec fn used_signaled(irq_trigger: IrqTrigger) -> IrqTrigger {
    IrqTrigger {
        irq_status: irq_trigger.irq_status | IrqType::Vring.spec_status_bit(),
        signals: irq_trigger.signals.saturating_add(1),
    }
}

impl EntropyView {
    /// There are three queues, they and the rate limiter are well formed, and the device is
    /// activated just when it has a guest memory, whose regions it then knows.
    pub open spec fn wf(self) -> bool {
        &&& self.queues.len() == NUM_QUEUES
        &&& forall|i: int| 0 <= i < self.queues.len() ==> (#[trigger] self.queues[i]).wf()
        &&& self.rate_limiter.wf()
        &&& self.activated == (self.memory is Some)
        &&& self.memory matches Some(mem) ==> self.regions == guest_regions(mem)
    }

    /// What a pass over queue `q` starts from.
    pub open spec fn drain_state(self, q: int) -> DrainState {
        DrainState {
            queue: self.queues[q],
            rate_limiter: self.rate_limiter,
            metrics: self.metrics,
            used_any: false,
        }
    }

    /// The device after a pass over queue `q` that ended in `end`: one interrupt is raised
    /// where the pass posted a completion, however many it posted.
    pub open spec fn after_pass(self, q: int, end: DrainState) -> EntropyView {
        EntropyView {
            queues: self.queues.update(q, end.queue),
            rate_limiter: end.rate_limiter,
            metrics: end.metrics,
            irq_trigger: if end.used_any {
                used_signaled(self.irq_trigger)
            } else {
                self.irq_trigger
            },
            ..self
        }
    }

    /// The pass over the entropy queue in which the host had random bytes as `fills` says.
    pub open spec fn main_pass(self, fills: Seq<bool>) -> RunState {
        main_run(self.drain_state(RNG_QUEUE as int), self.regions, fills)
    }

    /// The pass over a leak queue in which the host had random bytes as `fills` says.
    pub open spec fn leak_pass(self, leakq: LeakQueue, fills: Seq<bool>) -> RunState {
        leak_run(self.drain_state(leakq.spec_index() as int), self.regions, fills)
    }

    /// Whether `after` is the device after a full pass over the entropy queue.
    pub open spec fn main_queue_drained(self, after: EntropyView) -> bool {
        exists|fills: Seq<bool>|
            {
                &&& fills.len() <= self.queues[RNG_QUEUE as int].pending().len()
                &&& pass_complete(#[trigger] self.main_pass(fills))
                &&& after == self.after_pass(RNG_QUEUE as int, self.main_pass(fills).state)
            }
    }

    /// Whether `after` is the device after a full pass over a leak queue.
    pub open spec fn leak_queue_drained(self, leakq: LeakQueue, after: EntropyView) -> bool {
        exists|fills: Seq<bool>|
            {
                &&& fills.len() <= self.queues[leakq.spec_index() as int].pending().len()
                &&& pass_complete(#[trigger] self.leak_pass(leakq, fills))
                &&& after == self.after_pass(
                    leakq.spec_index() as int,
                    self.leak_pass(leakq, fills).state,
                )
            }
    }

    /// Whether `after` is the device after the driver kicked a leak queue: a full pass over
    /// the queue where the device has signaled it, and no change where it has not.
    pub open spec fn leak_queue_kicked(self, leakq: LeakQueue, after: EntropyView) -> bool {
        if self.signaled_leak_queue == Some(leakq) {
            self.leak_queue_drained(leakq, after)
        } else {
            after == self
        }
    }
}

/// The entropy device.
#[derive(Debug)]
pub struct Entropy {
    // VirtIO fields
    avail_features: u64,
    acked_features: u64,
    // Transport fields
    device_state: DeviceState,
    queues: Vec<Queue>,
    irq_trigger: IrqTrigger,
    // Device specific fields
    rate_limiter: RateLimiter,
    signaled_leak_queue: Option<LeakQueue>,
    active_leakq: LeakQueue,
    metrics: EntropyMetrics,
}

impl View for Entropy {
    type V = EntropyView;

    closed spec fn view(&self) -> EntropyView {
        EntropyView {
            avail_features: self.avail_features,
            acked_features: self.acked_features,
            activated: self.device_state is Activated,
            memory: match self.device_state {
                DeviceState::Activated(mem) => Some(mem),
                DeviceState::Inactive => None,
            },
            regions: match self.device_state {
                DeviceState::Activated(mem) => guest_regions(mem),
                DeviceState::Inactive => Seq::empty(),
            },
            queues: self.queues@.map_values(|q: Queue| q@),
            irq_trigger: self.irq_trigger,
            rate_limiter: self.rate_limiter@,
            signaled_leak_queue: self.signaled_leak_queue,
            active_leakq: self.active_leakq,
            metrics: self.metrics,
        }
    }
}

impl Entropy {
    /// Whether the device is well formed.
    pub open spec fn wf(&self) -> bool {
        self@.wf()
    }

    /// The guest memory that is attached to the device.
    pub open spec fn memory(&self) -> Option<GuestMemoryMmap> {
        self@.memory
    }

    // A full pass over the entropy queue.
    fn run_entropy_queue(&mut self) -> (fills: Ghost<Seq<bool>>)
        requires
            old(self).wf(),
            old(self)@.activated,
        ensures
            final(self).wf(),
            final(self).memory() == old(self).memory(),
            fills@.len() <= old(self)@.queues[RNG_QUEUE as int].pending().len(),
            pass_complete(old(self)@.main_pass(fills@)),
            final(self)@ == old(self)@.after_pass(
                RNG_QUEUE as int,
                old(self)@.main_pass(fills@).state,
            ),
    {
        match &self.device_state {
            DeviceState::Activated(mem) => {
                assert(self.queues@[RNG_QUEUE as int]@ == self@.queues[RNG_QUEUE as int]);
                let (used_any, fills) = drain_entropy_queue(
                    mem,
                    &mut self.queues[RNG_QUEUE],
                    &mut self.rate_limiter,
                    &mut self.metrics,
                );
                if used_any {
                    self.irq_trigger.trigger_irq(IrqType::Vring);
                }
                proof {
                    assert(self@.queues =~= old(self)@.queues.update(
                        RNG_QUEUE as int,
                        self.queues@[RNG_QUEUE as int]@,
                    ));
                }
                fills
            },
            DeviceState::Inactive => Ghost(Seq::empty()),
        }
    }

    // A full pass over a leak queue.
    fn run_leak_queue(&mut self, leakq: LeakQueue) -> (fills: Ghost<Seq<bool>>)
        requires
            old(self).wf(),
            old(self)@.activated,
        ensures
            final(self).wf(),
            final(self).memory() == old(self).memory(),
            fills@.len() <= old(self)@.queues[leakq.spec_index() as int].pending().len(),
            pass_complete(old(self)@.leak_pass(leakq, fills@)),
            final(self)@ == old(self)@.after_pass(
                leakq.spec_index() as int,
                old(self)@.leak_pass(leakq, fills@).state,
            ),
    {
        let index = leakq.index();
        match &self.device_state {
            DeviceState::Activated(mem) => {
                assert(self.queues@[index as int]@ == self@.queues[index as int]);
                let (used_any, fills) = drain_leak_queue(
                    mem,
                    &mut self.queues[index],
                    &mut self.metrics,
                );
                if used_any {
                    self.irq_trigger.trigger_irq(IrqType::Vring);
                }
                proof {
                    assert(self@.queues =~= old(self)@.queues.update(
                        index as int,
                        self.queues@[index as int]@,
                    ));
                    assert(old(self)@.leak_pass(leakq, fills@) == leak_run(
                        DrainState {
                            queue: old(self)@.queues[index as int],
                            rate_limiter: old(self)@.rate_limiter,
                            metrics: old(self)@.metrics,
                            used_any: false,
                        },
                        guest_regions(*mem),
                        fills@,
                    ));
                }
                fills
            },
            DeviceState::Inactive => Ghost(Seq::empty()),
        }
    }

    /// A device with three empty queues of 256 entries, that offers the version and the leak
    /// feature, is not activated, and expects the driver on the first leak queue without
    /// having signaled any.
    pub fn new(rate_limiter: RateLimiter) -> (r: Self)
        requires
            rate_limiter.wf(),
        ensures
            r.wf(),
            r@ == (EntropyView {
                avail_features: 1u64 << VIRTIO_F_VERSION_1 | 1u64 << VIRTIO_F_RNG_F_LEAK,
                acked_features: 0,
                activated: false,
                memory: None,
                regions: Seq::empty(),
                queues: Seq::new(
                    NUM_QUEUES as nat,
                    |i: int|
                        QueueView {
                            size: QUEUE_SIZE,
                            avail: Seq::empty(),
                            next: 0,
                            used: Seq::empty(),
                        },
                ),
                irq_trigger: IrqTrigger { irq_status: 0, signals: 0 },
                rate_limiter: rate_limiter@,
                signaled_leak_queue: None,
                active_leakq: LeakQueue::LeakQueue1,
                metrics: EntropyMetrics {
                    activate_fails: 0,
                    entropy_event_fails: 0,
                    entropy_event_count: 0,
                    entropy_bytes: 0,
                    host_rng_fails: 0,
                    entropy_rate_limiter_throttled: 0,
                    rate_limiter_event_count: 0,
                },
            }),
    {
        let mut queues: Vec<Queue> = Vec::new();
        queues.push(Queue::new(QUEUE_SIZE));
        queues.push(Queue::new(QUEUE_SIZE));
        queues.push(Queue::new(QUEUE_SIZE));
        let r = Self::new_with_queues(queues, rate_limiter);
        assert(r@.queues =~= Seq::new(
            NUM_QUEUES as nat,
            |i: int|
                QueueView { size: QUEUE_SIZE, avail: Seq::empty(), next: 0, used: Seq::empty() },
        ));
        r
    }

    /// A device like a new one, with the given three queues.
    pub fn new_with_queues(queues: Vec<Queue>, rate_limiter: RateLimiter) -> (r: Self)
        requires
            queues@.len() == NUM_QUEUES,
            forall|i: int| 0 <= i < queues@.len() ==> (#[trigger] queues@[i]).wf(),
            rate_limiter.wf(),
        ensures
            r.wf(),
            r@ == (EntropyView {
                avail_features: 1u64 << VIRTIO_F_VERSION_1 | 1u64 << VIRTIO_F_RNG_F_LEAK,
                acked_features: 0,
                activated: false,
                memory: None,
                regions: Seq::empty(),
                queues: queues@.map_values(|q: Queue| q@),
                irq_trigger: IrqTrigger { irq_status: 0, signals: 0 },
                rate_limiter: rate_limiter@,
                signaled_leak_queue: None,
                active_leakq: LeakQueue::LeakQueue1,
                metrics: EntropyMetrics {
                    activate_fails: 0,
                    entropy_event_fails: 0,
                    entropy_event_count: 0,
                    entropy_bytes: 0,
                    host_rng_fails: 0,
                    entropy_rate_limiter_throttled: 0,
                    rate_limiter_event_count: 0,
                },
            }),
    {
        Entropy {
            avail_features: 1u64 << VIRTIO_F_VERSION_1 | 1u64 << VIRTIO_F_RNG_F_LEAK,
            acked_features: 0u64,
            device_state: DeviceState::Inactive,
            queues,
            irq_trigger: IrqTrigger::new(),
            rate_limiter,
            signaled_leak_queue: None,
            active_leakq: LeakQueue::LeakQueue1,
            metrics: EntropyMetrics::new(),
        }
    }

    /// The identifier of the device. There is one entropy device, so it is always the same.
    pub fn id(&self) -> (r: &str)
        ensures
            r@ == ENTROPY_DEV_ID@,
    {
        ENTROPY_DEV_ID
    }

    /// Raises the interrupt that tells the driver of new completions.
    pub fn signal_used_queue(&mut self)
        ensures
            final(self).memory() == old(self).memory(),
            final(self)@ == (EntropyView {
                irq_trigger: used_signaled(old(self)@.irq_trigger),
                ..old(self)@
            }),
    {
        self.irq_trigger.trigger_irq(IrqType::Vring);
    }

    /// Fills the write-only part of `iovec` with random bytes and returns their number,
    /// which is 0 for a part without bytes. Fails, with nothing filled, on a part with more
    /// bytes than a completion can report; and where the host has no random bytes, which is
    /// counted.
    pub fn handle_one(&mut self, iovec: &mut IoVecBuffer<'_>) -> (r: Result<u32, Error>)
        requires
            old(iovec).wf(),
        ensures
            *final(iovec) == *old(iovec),
            final(self).memory() == old(self).memory(),
            old(iovec).write_len() > max_request_len() ==> (r matches Err(e)
                && e is RequestTooLong) && final(self)@ == old(self)@,
            old(iovec).write_len() == 0 ==> r is Ok,
            old(iovec).write_len() <= max_request_len() ==> (match r {
                Ok(n) => n == old(iovec).write_len() && final(self)@ == old(self)@,
                Err(e) => e is Random && final(self)@ == (EntropyView {
                    metrics: old(self)@.metrics.rng_failed(),
                    ..old(self)@
                }),
            }),
    {
        if !fits_completion(iovec.write_len()) {
            return Err(Error::RequestTooLong);
        }
        match fill_buffer(iovec, &mut self.metrics) {
            Ok(n) => Ok(n as u32),
            Err(e) => Err(e),
        }
    }

    /// Serves the requests on the entropy queue in order, until the queue is empty, the rate
    /// limiter turns a request down or a completion cannot be posted, and raises one
    /// interrupt if a completion was posted.
    pub fn process_entropy_queue(&mut self)
        requires
            old(self).wf(),
            old(self)@.activated,
        ensures
            final(self).memory() == old(self).memory(),
            final(self).wf(),
            old(self)@.main_queue_drained(final(self)@),
    {
        let _ = self.run_entropy_queue();
    }

    /// Serves the requests on a leak queue in order, until the queue is empty or a
    /// completion cannot be posted, and raises one interrupt if a completion was posted.
    pub fn handle_leak_queue(&mut self, leakq: LeakQueue)
        requires
            old(self).wf(),
            old(self)@.activated,
        ensures
            final(self).memory() == old(self).memory(),
            final(self).wf(),
            old(self)@.leak_queue_drained(leakq, final(self)@),
    {
        let _ = self.run_leak_queue(leakq);
    }

    /// Handles a kick of the driver on a leak queue: serves the queue where the device has
    /// signaled it, and leaves its requests pending where it has not.
    pub fn process_leak_queue(&mut self, leakq: LeakQueue)
        requires
            old(self).wf(),
            old(self)@.activated,
        ensures
            final(self).memory() == old(self).memory(),
            final(self).wf(),
            old(self)@.leak_queue_kicked(leakq, final(self)@),
    {
        match self.signaled_leak_queue {
            Some(queue) => {
                if queue == leakq {
                    self.handle_leak_queue(leakq);
                }
            },
            None => {},
        }
    }

    /// Handles the event of a leak queue. `event_read` says whether the event could be read:
    /// where it could not, that is counted as a failure and the queue is left alone.
    pub fn process_leak_queue_event(&mut self, leakq: LeakQueue, event_read: bool)
        requires
            old(self).wf(),
            old(self)@.activated,
        ensures
            final(self).memory() == old(self).memory(),
            final(self).wf(),
            event_read ==> old(self)@.leak_queue_kicked(leakq, final(self)@),
            !event_read ==> final(self)@ == (EntropyView {
                metrics: old(self)@.metrics.failed(),
                ..old(self)@
            }),
    {
        if !event_read {
            self.metrics.entropy_event_fails = self.metrics.entropy_event_fails.saturating_add(1);
        } else {
            self.process_leak_queue(leakq);
        }
    }

    /// Signals a leak of entropy: serves the requests on the active leak queue, makes the
    /// other leak queue the active one, and records the queue that was active as signaled,
    /// so that the driver's kicks on it are served from now on.
    pub fn signal_entropy_leak(&mut self)
        requires
            old(self).wf(),
            old(self)@.activated,
        ensures
            final(self).memory() == old(self).memory(),
            final(self).wf(),
            final(self)@.active_leakq == old(self)@.active_leakq.spec_other(),
            final(self)@.signaled_leak_queue == Some(old(self)@.active_leakq),
            final(self)@.signaled_leak_queue != Some(final(self)@.active_leakq),
            old(self)@.leak_queue_drained(
                old(self)@.active_leakq,
                EntropyView {
                    active_leakq: old(self)@.active_leakq,
                    signaled_leak_queue: old(self)@.signaled_leak_queue,
                    ..final(self)@
                },
            ),
    {
        let active = self.active_leakq;
        self.handle_leak_queue(active);
        self.active_leakq = active.other();
        self.signaled_leak_queue = Some(active);
    }

    /// Handles the event of the entropy queue. `event_read` says whether the event could be
    /// read: where it could not, that is counted as a failure. While the rate limiter is
    /// blocked the queue is left alone, and the event counted.
    pub fn process_entropy_queue_event(&mut self, event_read: bool)
        requires
            old(self).wf(),
            old(self)@.activated,
        ensures
            final(self).memory() == old(self).memory(),
            final(self).wf(),
            !event_read ==> final(self)@ == (EntropyView {
                metrics: old(self)@.metrics.failed(),
                ..old(self)@
            }),
            event_read && old(self)@.rate_limiter.blocked ==> final(self)@ == (EntropyView {
                metrics: old(self)@.metrics.limiter_event(),
                ..old(self)@
            }),
            event_read && !old(self)@.rate_limiter.blocked ==> old(self)@.main_queue_drained(
                final(self)@,
            ),
    {
        if !event_read {
            self.metrics.entropy_event_fails = self.metrics.entropy_event_fails.saturating_add(1);
        } else if !self.rate_limiter.is_blocked() {
            self.process_entropy_queue();
        } else {
            self.metrics.rate_limiter_event_count =
                self.metrics.rate_limiter_event_count.saturating_add(1);
        }
    }

    /// Handles a refill event of the rate limiter, and counts it: the budgets are filled up
    /// and the entropy queue is served. An event that finds the limiter not blocked is
    /// counted as a failure.
    pub fn process_rate_limiter_event(&mut self)
        requires
            old(self).wf(),
            old(self)@.activated,
        ensures
            final(self).memory() == old(self).memory(),
            final(self).wf(),
            !old(self)@.rate_limiter.blocked ==> final(self)@ == (EntropyView {
                metrics: old(self)@.metrics.limiter_event().failed(),
                ..old(self)@
            }),
            old(self)@.rate_limiter.blocked ==> (EntropyView {
                metrics: old(self)@.metrics.limiter_event(),
                rate_limiter: old(self)@.rate_limiter.refilled(),
                ..old(self)@
            }).main_queue_drained(final(self)@),
    {
        self.metrics.rate_limiter_event_count = self.metrics.rate_limiter_event_count.saturating_add(
            1,
        );
        match self.rate_limiter.event_handler() {
            Ok(()) => {
                self.process_entropy_queue();
            },
            Err(_) => {
                self.metrics.entropy_event_fails = self.metrics.entropy_event_fails.saturating_add(
                    1,
                );
            },
        }
    }

    /// Handles all queues as if the driver had kicked each: the entropy queue, then the first
    /// leak queue, then the second.
    pub fn process_virtio_queues(&mut self)
        requires
            old(self).wf(),
            old(self)@.activated,
        ensures
            final(self).memory() == old(self).memory(),
            final(self).wf(),
            exists|first: EntropyView, second: EntropyView|
                {
                    &&& #[trigger] old(self)@.main_queue_drained(first)
                    &&& #[trigger] first.leak_queue_kicked(LeakQueue::LeakQueue1, second)
                    &&& second.leak_queue_kicked(LeakQueue::LeakQueue2, final(self)@)
                },
    {
        self.process_entropy_queue();
        let ghost first = self@;
        self.process_leak_queue(LeakQueue::LeakQueue1);
        let ghost second = self@;
        self.process_leak_queue(LeakQueue::LeakQueue2);
        assert(old(self)@.main_queue_drained(first) && first.leak_queue_kicked(
            LeakQueue::LeakQueue1,
            second,
        ) && second.leak_queue_kicked(LeakQueue::LeakQueue2, self@));
    }

    /// The rate limiter of the entropy queue.
    pub fn rate_limiter(&self) -> (r: &RateLimiter)
        ensures
            r@ == self@.rate_limiter,
    {
        &self.rate_limiter
    }

    /// The rate limiter of the entropy queue, to change it.
    pub fn rate_limiter_mut(&mut self) -> (r: &mut RateLimiter)
        ensures
            r@ == old(self)@.rate_limiter,
            final(self).memory() == old(self).memory(),
            final(self)@ == (EntropyView { rate_limiter: final(r)@, ..old(self)@ }),
    {
        &mut self.rate_limiter
    }

    /// The counters of the device.
    pub fn metrics(&self) -> (r: EntropyMetrics)
        ensures
            r == self@.metrics,
    {
        self.metrics
    }

    /// Sets the features that the device offers.
    pub fn set_avail_features(&mut self, features: u64)
        ensures
            final(self).memory() == old(self).memory(),
            final(self)@ == (EntropyView { avail_features: features, ..old(self)@ }),
    {
        self.avail_features = features;
    }

    /// Sets the status of the interrupt line.
    pub fn set_irq_status(&mut self, status: u32)
        ensures
            final(self).memory() == old(self).memory(),
            final(self)@ == (EntropyView {
                irq_trigger: IrqTrigger { irq_status: status, ..old(self)@.irq_trigger },
                ..old(self)@
            }),
    {
        self.irq_trigger.irq_status = status;
    }

    /// The status of the interrupt line.
    pub fn interrupt_status(&self) -> (r: u32)
        ensures
            r == self@.irq_trigger.irq_status,
    {
        self.irq_trigger.irq_status
    }

    /// Hands out the number of interrupt signals raised since the last call.
    pub fn take_interrupt_signals(&mut self) -> (n: u64)
        ensures
            final(self).memory() == old(self).memory(),
            n == old(self)@.irq_trigger.signals,
            final(self)@ == (EntropyView {
                irq_trigger: IrqTrigger { signals: 0, ..old(self)@.irq_trigger },
                ..old(self)@
            }),
    {
        self.irq_trigger.take_signals()
    }

    /// Activates the device with the guest memory `mem`.
    pub fn set_activated(&mut self, mem: GuestMemoryMmap)
        ensures
            final(self).memory() == Some(mem),
            final(self)@ == (EntropyView {
                activated: true,
                memory: Some(mem),
                regions: guest_regions(mem),
                ..old(self)@
            }),
    {
        self.device_state = DeviceState::Activated(mem);
    }

    /// The leak queue that the driver is expected to use.
    pub fn get_active_leak_queue(&self) -> (r: &LeakQueue)
        ensures
            *r == self@.active_leakq,
    {
        &self.active_leakq
    }

    /// Sets the leak queue that the driver is expected to use.
    pub fn set_active_leak_queue(&mut self, queue: LeakQueue)
        ensures
            final(self).memory() == old(self).memory(),
            final(self)@ == (EntropyView { active_leakq: queue, ..old(self)@ }),
    {
        self.active_leakq = queue;
    }

    /// The leak queue that was signaled last, if any was.
    pub fn get_signaled_leak_queue(&self) -> (r: &Option<LeakQueue>)
        ensures
            *r == self@.signaled_leak_queue,
    {
        &self.signaled_leak_queue
    }

    /// Sets the leak queue that was signaled last.
    pub fn set_signaled_leak_queue(&mut self, queue: Option<LeakQueue>)
        ensures
            final(self).memory() == old(self).memory(),
            final(self)@ == (EntropyView { signaled_leak_queue: queue, ..old(self)@ }),
    {
        self.signaled_leak_queue = queue;
    }

    /// The queues of the device.
    pub fn queues(&self) -> (r: &[Queue])
        ensures
            r@.len() == self@.queues.len(),
            forall|i: int| 0 <= i < r@.len() ==> (#[trigger] r@[i])@ == self@.queues[i],
    {
        self.queues.as_slice()
    }

    /// Makes a chain available on a queue, as the driver does, unless the queue's ring is
    /// full.
    pub fn add_chain(&mut self, queue: usize, chain: DescriptorChain) -> (r: Result<
        (),
        QueueError,
    >)
        requires
            old(self).wf(),
            queue < NUM_QUEUES,
            chain.wf(),
        ensures
            final(self).wf(),
            final(self).memory() == old(self).memory(),
            final(self)@ == (EntropyView { queues: final(self)@.queues, ..old(self)@ }),
            forall|i: int|
                0 <= i < NUM_QUEUES
                    && i != queue ==> final(self)@.queues[i] == old(self)@.queues[i],
            final(self)@.queues[queue as int].size == old(self)@.queues[queue as int].size,
            final(self)@.queues[queue as int].used == old(self)@.queues[queue as int].used,
            old(self)@.queues[queue as int].pending().len() == old(self)@.queues[queue as int].size
                ==> r == Err::<(), QueueError>(QueueError::AvailRingFull)
                    && final(self)@ == old(self)@,
            old(self)@.queues[queue as int].pending().len() < old(self)@.queues[queue as int].size
                ==> r is Ok
                    && final(self)@.queues[queue as int].pending()
                    == old(self)@.queues[queue as int].pending().push(chain@),
    {
        assert(self.queues@[queue as int]@ == self@.queues[queue as int]);
        let r = self.queues[queue].add_chain(chain);
        proof {
            assert(self@.queues =~= old(self)@.queues.update(
                queue as int,
                self.queues@[queue as int]@,
            ));
            if r is Err {
                assert(self@.queues =~= old(self)@.queues);
            }
        }
        r
    }

    /// Takes all completions out of a queue's used ring, as the driver does.
    pub fn take_used(&mut self, queue: usize) -> (r: Vec<UsedElem>)
        requires
            old(self).wf(),
            queue < NUM_QUEUES,
        ensures
            final(self).wf(),
            final(self).memory() == old(self).memory(),
            r@ == old(self)@.queues[queue as int].used,
            final(self)@ == (EntropyView {
                queues: old(self)@.queues.update(
                    queue as int,
                    QueueView { used: Seq::empty(), ..old(self)@.queues[queue as int] },
                ),
                ..old(self)@
            }),
    {
        assert(self.queues@[queue as int]@ == self@.queues[queue as int]);
        let r = self.queues[queue].take_used();
        proof {
            assert(self@.queues =~= old(self)@.queues.update(
                queue as int,
                self.queues@[queue as int]@,
            ));
        }
        r
    }

    /// Activates the device with the guest memory `mem`. `event_written` says whether the
    /// activation could be announced: where it could not, the device stays as it is, but
    /// for a count of the failure.
    pub fn activate(&mut self, mem: GuestMemoryMmap, event_written: bool) -> (r: Result<
        (),
        ActivateError,
    >)
        ensures
            event_written ==> r is Ok && final(self).memory() == Some(mem) && final(self)@ == (
            EntropyView {
                activated: true,
                memory: Some(mem),
                regions: guest_regions(mem),
                ..old(self)@
            }),
            !event_written ==> final(self).memory() == old(self).memory(),
            !event_written ==> r == Err::<(), ActivateError>(ActivateError::BadActivate)
                && final(self)@ == (EntropyView {
                metrics: old(self)@.metrics.activation_failed(),
                ..old(self)@
            }),
    {
        if !event_written {
            self.metrics.activate_fails = self.metrics.activate_fails.saturating_add(1);
            return Err(ActivateError::BadActivate);
        }
        self.device_state = DeviceState::Activated(mem);
        Ok(())
    }
}

impl VirtioDevice for Entropy {
    open spec fn spec_avail_features(&self) -> u64 {
        self@.avail_features
    }

    open spec fn spec_acked_features(&self) -> u64 {
        self@.acked_features
    }

    fn avail_features(&self) -> (r: u64) {
        self.avail_features
    }

    fn acked_features(&self) -> (r: u64) {
        self.acked_features
    }

    fn set_acked_features(&mut self, acked_features: u64)
        ensures
            final(self).memory() == old(self).memory(),
            final(self)@ == (EntropyView { acked_features, ..old(self)@ }),
    {
        self.acked_features = acked_features;
    }

    fn device_type(&self) -> (r: u32)
        ensures
            r == TYPE_RNG,
    {
        TYPE_RNG
    }

    fn ack_features_by_page(&mut self, page: u32, value: u32)
        ensures
            final(self).memory() == old(self).memory(),
            final(self)@ == (EntropyView {
                acked_features: acked_after(
                    old(self)@.avail_features,
                    old(self)@.acked_features,
                    page,
                    value,
                ),
                ..old(self)@
            }),
    {
        self.acked_features = ack_by_page(self.avail_features, self.acked_features, page, value);
    }

    /// The configuration space is empty: `data` stays as it is.
    fn read_config(&self, _offset: u64, _data: &mut [u8])
        ensures
            final(_data)@ == old(_data)@,
    {
    }

    /// The configuration space is empty: nothing changes.
    fn write_config(&mut self, _offset: u64, _data: &[u8])
        ensures
            final(self).memory() == old(self).memory(),
            final(self)@ == old(self)@,
    {
    }

    fn is_activated(&self) -> (b: bool)
        ensures
            b == self@.activated,
    {
        self.device_state.is_activated()
    }
}

/// A full pass over a leak queue whose used ring has room for every pending chain retires
/// them all, each wherever it stands in the queue: the queue is empty afterwards, and the
/// used ring has grown by one completion for each chain, in their order, with the bytes the
/// chain was served with or with none. One interrupt is raised if there was a chain, and the
/// other queues, the rate limiter and the leak queue tags are as they were.
///
/// This is what a signal of a leak does to the active leak queue, and what a kick of the
/// driver does to the leak queue that was signaled.
pub proof fn lemma_leak_queue_drained_retires_all(
    v: EntropyView,
    leakq: LeakQueue,
    after: EntropyView,
)
    requires
        v.wf(),
        v.queues[leakq.spec_index() as int].used.len()
            + v.queues[leakq.spec_index() as int].pending().len()
            <= v.queues[leakq.spec_index() as int].size,
        v.leak_queue_drained(leakq, after),
    ensures
        after.queues[leakq.spec_index() as int].pending().len() == 0,
        exists|fills: Seq<bool>|
            fills.len() == v.queues[leakq.spec_index() as int].pending().len()
                && after.queues[leakq.spec_index() as int].used
                == v.queues[leakq.spec_index() as int].used + #[trigger] leak_completions(
                v.queues[leakq.spec_index() as int].pending(),
                v.regions,
                fills,
            ),
        forall|j: int|
            0 <= j < NUM_QUEUES && j != leakq.spec_index() ==> after.queues[j] == v.queues[j],
        after.irq_trigger == (if v.queues[leakq.spec_index() as int].pending().len() > 0 {
            used_signaled(v.irq_trigger)
        } else {
            v.irq_trigger
        }),
        after == (EntropyView {
            queues: after.queues,
            irq_trigger: after.irq_trigger,
            metrics: after.metrics,
            ..v
        }),
{
    let q = leakq.spec_index() as int;
    let fills = choose|fills: Seq<bool>|
        {
            &&& fills.len() <= v.queues[q].pending().len()
            &&& pass_complete(#[trigger] v.leak_pass(leakq, fills))
            &&& after == v.after_pass(q, v.leak_pass(leakq, fills).state)
        };
    lemma_leak_run_retires_every_chain(v.drain_state(q), v.regions, fills);
    assert(fills.len() == v.queues[q].pending().len());
    assert(after.queues[q].used == v.queues[q].used + leak_completions(
        v.queues[q].pending(),
        v.regions,
        fills,
    ));
}

/// A full pass over the entropy queue retires the request that stands first, where the rate
/// limiter admits it and the used ring has room: with its length, or with 0 bytes where the
/// host had no random bytes. An interrupt is raised, and the leak queues are as they were.
///
/// With `lemma_refilled_limiter_admits` this is what a refill event does for a request that
/// was throttled.
pub proof fn lemma_main_queue_drained_serves_admitted(v: EntropyView, after: EntropyView)
    requires
        v.wf(),
        v.queues[RNG_QUEUE as int].pending().len() > 0,
        v.queues[RNG_QUEUE as int].used.len() < v.queues[RNG_QUEUE as int].size,
        parse_outcome(
            ParseMode::WriteOnly,
            v.regions,
            v.queues[RNG_QUEUE as int].pending()[0].descriptors,
        ) is Parsed,
        0 < chain_len(v.queues[RNG_QUEUE as int].pending()[0].descriptors) <= max_request_len(),
        admits(
            v.rate_limiter,
            chain_len(v.queues[RNG_QUEUE as int].pending()[0].descriptors) as u64,
        ),
        v.main_queue_drained(after),
    ensures
        after.queues[RNG_QUEUE as int].used.len() > v.queues[RNG_QUEUE as int].used.len(),
        after.queues[RNG_QUEUE as int].used[v.queues[RNG_QUEUE as int].used.len() as int].id
            == v.queues[RNG_QUEUE as int].pending()[0].index,
        after.queues[RNG_QUEUE as int].used[v.queues[RNG_QUEUE as int].used.len() as int].len
            == chain_len(v.queues[RNG_QUEUE as int].pending()[0].descriptors)
            || after.queues[RNG_QUEUE as int].used[v.queues[RNG_QUEUE as int].used.len() as int].len
            == 0,
        after.irq_trigger == used_signaled(v.irq_trigger),
        forall|j: int| 0 < j < NUM_QUEUES ==> after.queues[j] == v.queues[j],
{
    let fills = choose|fills: Seq<bool>|
        {
            &&& fills.len() <= v.queues[RNG_QUEUE as int].pending().len()
            &&& pass_complete(#[trigger] v.main_pass(fills))
            &&& after == v.after_pass(RNG_QUEUE as int, v.main_pass(fills).state)
        };
    assert(fills.len() > 0);
    lemma_main_run_serves_admitted_request(v.drain_state(RNG_QUEUE as int), v.regions, fills);
}

/// A full pass over the entropy queue that finds the used ring full stops at once: it takes
/// no more than the first request, posts no completion and raises no interrupt, and the
/// buckets of the rate limiter are as they were, what the request took of them being given
/// back. Unless the rate limiter turned the request down and it stays pending, the request is
/// gone from the queue and a failure is counted.
pub proof fn lemma_main_queue_drained_on_full_ring(v: EntropyView, after: EntropyView)
    requires
        v.wf(),
        v.queues[RNG_QUEUE as int].pending().len() > 0,
        v.queues[RNG_QUEUE as int].used.len() == v.queues[RNG_QUEUE as int].size,
        v.main_queue_drained(after),
    ensures
        after.rate_limiter.bandwidth == v.rate_limiter.bandwidth,
        after.rate_limiter.ops == v.rate_limiter.ops,
        after.queues[RNG_QUEUE as int].used == v.queues[RNG_QUEUE as int].used,
        after.irq_trigger == v.irq_trigger,
        after.queues[RNG_QUEUE as int] == v.queues[RNG_QUEUE as int] || (
        after.queues[RNG_QUEUE as int] == v.queues[RNG_QUEUE as int].popped()
            && after.metrics.entropy_event_fails >= v.metrics.entropy_event_fails.saturating_add(
            1,
        )),
        forall|j: int| 0 < j < NUM_QUEUES ==> after.queues[j] == v.queues[j],
{
    let fills = choose|fills: Seq<bool>|
        {
            &&& fills.len() <= v.queues[RNG_QUEUE as int].pending().len()
            &&& pass_complete(#[trigger] v.main_pass(fills))
            &&& after == v.after_pass(RNG_QUEUE as int, v.main_pass(fills).state)
        };
    assert(fills.len() > 0);
    let init = v.drain_state(RNG_QUEUE as int);
    lemma_unposted_completion_refunds(init, v.regions, fills[0]);
    lemma_main_run_first_step(init, v.regions, fills);
}

} // verus!
