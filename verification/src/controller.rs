//! Round-robin dispatch and the controller-side logic: the initialization
//! barrier, dispatching generator messages to workers, counting returns and
//! completed packets, and the drain condition.
//!
//! The asynchronous fabric (meshes, executors, timers) lives outside the
//! library; the controller's decisions are pure transitions over
//! [`ControllerState`], so every branch the controller takes is verified
//! here and the runtime only carries messages.

use vstd::arithmetic::div_mod::{
    lemma_fundamental_div_mod, lemma_fundamental_div_mod_converse_div,
    lemma_fundamental_div_mod_converse_mod, lemma_mod_division_less_than_divisor,
    lemma_mod_equivalence,
};
use vstd::prelude::*;

use crate::types::ControlMessage;

verus! {

/// The shard that the next message goes to, skipping shard 0 (the
/// controller): workers are the shards `1..nr_shards`.
pub fn round_robin_get_next_shard(nr_shards: usize, prev_shard: usize) -> (next: usize)
    requires
        nr_shards >= 2,
    ensures
        next == rr_next(nr_shards - 1, prev_shard as int),
        1 <= next < nr_shards,
{
    (prev_shard % (nr_shards - 1)) + 1
}

/// Advances the round-robin counter and returns its new value.
pub fn increment_round_robin(rr: &mut usize, nr_shards: usize) -> (next: usize)
    requires
        nr_shards >= 2,
    ensures
        *final(rr) == rr_next(nr_shards - 1, *old(rr) as int),
        next == *final(rr),
        1 <= next < nr_shards,
{
    *rr = round_robin_get_next_shard(nr_shards, *rr);
    *rr
}

/// The worker that a round-robin counter at `prev` selects next, among
/// `workers` workers (shards `1..=workers`).
pub open spec fn rr_next(workers: int, prev: int) -> int {
    prev % workers + 1
}

/// A protocol violation: the fabric delivered a control message that the
/// current phase does not admit.
#[derive(Clone, Copy, PartialEq, Eq, Structural, Debug)]
pub enum ProtocolError {
    /// A control message arrived that the current phase does not admit.
    UnexpectedControlMessage,
    /// A lifecycle event arrived that the current state does not admit.
    UnexpectedEvent,
}

/// What the controller observes of a message returning to shard 0: whether
/// its next slot is empty, and whether it came back before the deadline.
#[derive(Clone, Copy, PartialEq, Eq, Structural, Debug)]
pub struct ReturnEvent {
    pub terminal: bool,
    pub before_stop: bool,
}

impl ReturnEvent {
    /// A return completes a message's life when no further stage will run:
    /// the pipeline is exhausted, or the deadline has passed.
    pub open spec fn completes(self) -> bool {
        self.terminal || !self.before_stop
    }
}

/// What the controller does with a returned message.
#[derive(Clone, Copy, PartialEq, Eq, Structural, Debug)]
pub enum ControllerAction {
    /// The message still has stages and the deadline has not passed: it is
    /// forwarded to this worker shard.
    Redispatch { next_shard: usize },
    /// The message's life is over; it is kept at shard 0.
    Complete,
}

/// The counters the controller shard owns. Only shard 0 mutates them; the
/// fabric hands it one event at a time.
#[derive(Clone, Copy, PartialEq, Eq, Structural, Debug)]
pub struct ControllerState {
    /// Round-robin dispatch counter.
    pub rr_counter: usize,
    /// Messages whose life has ended at shard 0 (drain progress).
    pub return_counter: u64,
    /// Messages that completed their whole pipeline before the deadline.
    pub processed_packets: u64,
    /// Messages dispatched from the generator into the mesh.
    pub sent_messages: u64,
    /// Shards on the data mesh, the controller included.
    pub nr_shards: usize,
}

impl ControllerState {
    /// The mesh has the controller and at least one worker.
    pub open spec fn wf(self) -> bool {
        self.nr_shards >= 2
    }

    /// A fresh controller before any dispatch.
    pub fn new(nr_shards: usize) -> (r: ControllerState)
        requires
            nr_shards >= 2,
        ensures
            r.wf(),
            r.rr_counter == 0,
            r.return_counter == 0,
            r.processed_packets == 0,
            r.sent_messages == 0,
            r.nr_shards == nr_shards,
    {
        ControllerState {
            rr_counter: 0,
            return_counter: 0,
            processed_packets: 0,
            sent_messages: 0,
            nr_shards,
        }
    }

    /// Drain is over once every dispatched message has ended its life at
    /// shard 0.
    pub open spec fn spec_drain_complete(self) -> bool {
        self.return_counter == self.sent_messages
    }

    /// Whether the controller may stop polling for returns.
    pub fn drain_complete(&self) -> (r: bool)
        ensures
            r == self.spec_drain_complete(),
    {
        self.return_counter == self.sent_messages
    }
}

/// The controller state after handling one returned message.
pub open spec fn spec_handle_return(st: ControllerState, ev: ReturnEvent) -> ControllerState {
    if !ev.completes() {
        ControllerState { rr_counter: rr_next(st.nr_shards - 1, st.rr_counter as int) as usize, ..st }
    } else {
        ControllerState {
            return_counter: (st.return_counter + 1) as u64,
            processed_packets: if ev.terminal && ev.before_stop {
                (st.processed_packets + 1) as u64
            } else {
                st.processed_packets
            },
            ..st
        }
    }
}

/// Handles one message routed back to shard 0. A message that still has a
/// stage ahead of it and returned before the deadline is re-dispatched
/// round-robin; otherwise its life ends here: the return counter always
/// advances then, and the processed-packet counter advances exactly when the
/// whole pipeline ran before the deadline.
pub fn controller_handle_return(st: &mut ControllerState, ev: ReturnEvent) -> (act: ControllerAction)
    requires
        old(st).wf(),
        old(st).return_counter < u64::MAX,
        old(st).processed_packets < u64::MAX,
    ensures
        *final(st) == spec_handle_return(*old(st), ev),
        final(st).wf(),
        ev.completes() <==> act is Complete,
        act matches ControllerAction::Redispatch { next_shard } ==> {
            &&& 1 <= next_shard < final(st).nr_shards
            &&& next_shard == rr_next(old(st).nr_shards - 1, old(st).rr_counter as int)
        },
{
    if ev.before_stop && !ev.terminal {
        let next_shard = increment_round_robin(&mut st.rr_counter, st.nr_shards);
        ControllerAction::Redispatch { next_shard }
    } else {
        st.return_counter = st.return_counter + 1;
        if ev.terminal && ev.before_stop {
            st.processed_packets = st.processed_packets + 1;
        }
        ControllerAction::Complete
    }
}

/// The controller state after dispatching one generator message (or
/// dropping it when the deadline has passed).
pub open spec fn spec_dispatch(st: ControllerState, before_stop: bool) -> ControllerState {
    if before_stop {
        ControllerState {
            rr_counter: rr_next(st.nr_shards - 1, st.rr_counter as int) as usize,
            sent_messages: (st.sent_messages + 1) as u64,
            ..st
        }
    } else {
        st
    }
}

/// Dispatches one message received from the generator: before the deadline
/// it goes to the round-robin next worker and counts as sent; at or past the
/// deadline it is dropped and nothing changes.
pub fn controller_dispatch(st: &mut ControllerState, before_stop: bool) -> (dest: Option<usize>)
    requires
        old(st).wf(),
        old(st).sent_messages < u64::MAX,
    ensures
        *final(st) == spec_dispatch(*old(st), before_stop),
        final(st).wf(),
        before_stop ==> (dest matches Some(d) && 1 <= d < final(st).nr_shards && d == rr_next(
            final(st).nr_shards - 1,
            old(st).rr_counter as int,
        )),
        !before_stop ==> dest is None,
{
    if before_stop {
        let next_shard = increment_round_robin(&mut st.rr_counter, st.nr_shards);
        st.sent_messages = st.sent_messages + 1;
        Some(next_shard)
    } else {
        None
    }
}

/// One step of the initialization barrier: the controller accepts exactly
/// `nr_workers` worker-initialization notices and nothing else. Returns
/// whether the barrier is complete; any other control message during
/// initialization is a protocol error and leaves the count unchanged.
pub fn controller_init_step(received: &mut usize, msg: ControlMessage, nr_workers: usize) -> (r:
    Result<bool, ProtocolError>)
    requires
        *old(received) < nr_workers,
    ensures
        msg is WorkerInitializationComplete ==> {
            &&& *final(received) == *old(received) + 1
            &&& r matches Ok(done) && done == (*final(received) == nr_workers)
        },
        !(msg is WorkerInitializationComplete) ==> {
            &&& *final(received) == *old(received)
            &&& r matches Err(e) && e == ProtocolError::UnexpectedControlMessage
        },
{
    match msg {
        ControlMessage::WorkerInitializationComplete => {
            *received = *received + 1;
            Ok(*received == nr_workers)
        },
        _ => Err(ProtocolError::UnexpectedControlMessage),
    }
}

/// The controller state after handling a whole sequence of returns.
pub open spec fn apply_returns(st: ControllerState, evs: Seq<ReturnEvent>) -> ControllerState
    decreases evs.len(),
{
    if evs.len() == 0 {
        st
    } else {
        spec_handle_return(apply_returns(st, evs.drop_last()), evs.last())
    }
}

/// How many events of `evs` end a message's life at shard 0.
pub open spec fn count_completed(evs: Seq<ReturnEvent>) -> nat
    decreases evs.len(),
{
    if evs.len() == 0 {
        0
    } else {
        count_completed(evs.drop_last()) + if evs.last().completes() {
            1nat
        } else {
            0nat
        }
    }
}

/// The return counter counts exactly the completing returns; re-dispatched
/// messages do not advance it, and no return changes what was sent.
pub proof fn lemma_return_counter_counts_completions(st: ControllerState, evs: Seq<ReturnEvent>)
    requires
        st.wf(),
        st.return_counter + count_completed(evs) <= u64::MAX,
    ensures
        apply_returns(st, evs).return_counter == st.return_counter + count_completed(evs),
        apply_returns(st, evs).sent_messages == st.sent_messages,
        apply_returns(st, evs).nr_shards == st.nr_shards,
        apply_returns(st, evs).wf(),
    decreases evs.len(),
{
    if evs.len() > 0 {
        lemma_return_counter_counts_completions(st, evs.drop_last());
    }
}

/// Drain termination: when every message the controller dispatched has
/// produced exactly one life-ending return, the drain condition holds, so
/// the controller's post-deadline polling terminates.
pub proof fn lemma_drain_terminates(st: ControllerState, evs: Seq<ReturnEvent>)
    requires
        st.wf(),
        st.return_counter == 0,
        count_completed(evs) == st.sent_messages,
    ensures
        apply_returns(st, evs).spec_drain_complete(),
{
    lemma_return_counter_counts_completions(st, evs);
}

/// The round-robin counter after `k` dispatches among `workers` workers,
/// starting from counter value `c0`.
pub open spec fn rr_iter(workers: int, c0: int, k: nat) -> int
    decreases k,
{
    if k == 0 {
        c0
    } else {
        rr_next(workers, rr_iter(workers, c0, (k - 1) as nat))
    }
}

/// How many of the first `k` dispatches from counter `c0` select worker
/// `target`.
pub open spec fn rr_hits(workers: int, c0: int, k: nat, target: int) -> nat
    decreases k,
{
    if k == 0 {
        0
    } else {
        rr_hits(workers, c0, (k - 1) as nat, target) + if rr_iter(workers, c0, k) == target {
            1nat
        } else {
            0nat
        }
    }
}

/// Closed form of the iterated round-robin counter: dispatch `k` lands on
/// worker `(c0 + k - 1) % workers + 1`.
proof fn lemma_rr_iter_closed_form(workers: int, c0: int, k: nat)
    requires
        workers >= 1,
        c0 >= 0,
        k >= 1,
    ensures
        rr_iter(workers, c0, k) == (c0 + k - 1) % workers + 1,
    decreases k,
{
    if k == 1 {
        reveal_with_fuel(rr_iter, 2);
        assert(rr_iter(workers, c0, 1) == c0 % workers + 1);
    } else {
        lemma_rr_iter_closed_form(workers, c0, (k - 1) as nat);
        let x = c0 + k - 2;
        // rr_iter(k) == (x % workers + 1) % workers + 1; show that this
        // equals (x + 1) % workers + 1
        lemma_fundamental_div_mod(x, workers);
        lemma_mod_division_less_than_divisor(x, workers);
        let q = x / workers;
        let r = x % workers;
        if r + 1 < workers {
            lemma_small_mod_int(r + 1, workers);
            assert(x + 1 == q * workers + (r + 1)) by (nonlinear_arith)
                requires
                    x == workers * q + r,
            ;
            lemma_fundamental_div_mod_converse_mod(x + 1, workers, q, r + 1);
        } else {
            assert(r + 1 == workers);
            assert(workers % workers == 0) by {
                lemma_fundamental_div_mod_converse_mod(workers, workers, 1, 0);
            }
            assert(x + 1 == (q + 1) * workers + 0) by (nonlinear_arith)
                requires
                    x == workers * q + r,
                    r + 1 == workers,
            ;
            lemma_fundamental_div_mod_converse_mod(x + 1, workers, q + 1, 0);
        }
    }
}

/// Division steps by one exactly at multiples: `(m + 1) / w` is `m / w + 1`
/// when `(m + 1) % w == 0` and `m / w` otherwise.
proof fn lemma_div_step(m: int, w: int)
    requires
        w >= 1,
        m >= 0,
    ensures
        (m + 1) % w == 0 ==> (m + 1) / w == m / w + 1,
        (m + 1) % w != 0 ==> (m + 1) / w == m / w,
        ((m + 1) % w == 0) <==> (m % w == w - 1),
{
    lemma_fundamental_div_mod(m, w);
    lemma_mod_division_less_than_divisor(m, w);
    let q = m / w;
    let r = m % w;
    if r == w - 1 {
        assert(m + 1 == (q + 1) * w + 0) by (nonlinear_arith)
            requires
                m == w * q + r,
                r == w - 1,
        ;
        lemma_fundamental_div_mod_converse_mod(m + 1, w, q + 1, 0);
        lemma_fundamental_div_mod_converse_div(m + 1, w, q + 1, 0);
    } else {
        assert(m + 1 == q * w + (r + 1)) by (nonlinear_arith)
            requires
                m == w * q + r,
        ;
        lemma_fundamental_div_mod_converse_mod(m + 1, w, q, r + 1);
        lemma_fundamental_div_mod_converse_div(m + 1, w, q, r + 1);
    }
}

/// `x % m == x` for `0 <= x < m`.
proof fn lemma_small_mod_int(x: int, m: int)
    requires
        0 <= x < m,
    ensures
        x % m == x,
{
    lemma_fundamental_div_mod_converse_mod(x, m, 0, x);
}

/// Closed form of the hit count: with `r` the offset of `target` in the
/// rotation order after `c0`, the first `k` dispatches hit it
/// `(k + workers - 1 - r) / workers` times.
proof fn lemma_rr_hits_closed_form(workers: int, c0: int, k: nat, target: int)
    requires
        workers >= 1,
        c0 >= 0,
        1 <= target <= workers,
    ensures
        rr_hits(workers, c0, k, target) == (k + workers - 1 - ((target - 1 - c0) % workers))
            / workers,
    decreases k,
{
    let r = (target - 1 - c0) % workers;
    lemma_mod_division_less_than_divisor(target - 1 - c0, workers);
    if k == 0 {
        lemma_fundamental_div_mod_converse_div(workers - 1 - r, workers, 0, workers - 1 - r);
    } else {
        let kp = (k - 1) as nat;
        lemma_rr_hits_closed_form(workers, c0, kp, target);
        lemma_rr_iter_closed_form(workers, c0, k);
        // dispatch k hits `target` iff (c0 + k - 1) % workers == target - 1,
        // iff (kp - r) % workers == 0
        assert(((c0 + k - 1) % workers == target - 1) <==> ((kp - r) % workers == 0)) by {
            lemma_small_mod_int(target - 1, workers);
            lemma_mod_equivalence(c0 + k - 1, target - 1, workers);
            assert((c0 + k - 1) - (target - 1) == kp - (target - 1 - c0));
            lemma_small_mod_int(r, workers);
            lemma_mod_equivalence(r, target - 1 - c0, workers);
            assert((r - (target - 1 - c0)) % workers == 0);
            lemma_mod_equivalence(kp - (target - 1 - c0), kp - r, workers);
            assert((kp - (target - 1 - c0)) - (kp - r) == r - (target - 1 - c0));
        }
        let m = kp + workers - 1 - r;
        lemma_div_step(m, workers);
        // m % workers == workers - 1 iff (kp - r) % workers == 0
        assert((m % workers == workers - 1) <==> ((kp - r) % workers == 0)) by {
            lemma_small_mod_int(workers - 1, workers);
            lemma_mod_equivalence(m, workers - 1, workers);
            assert(m - (workers - 1) == kp - r);
        }
    }
}

/// Round-robin fairness: over `k` dispatches among `workers` workers, every
/// worker is selected either `k / workers` or `k / workers + 1` times, and
/// exactly `k / workers` times when `workers` divides `k`.
pub proof fn lemma_round_robin_fairness(workers: int, c0: int, k: nat, target: int)
    requires
        workers >= 1,
        c0 >= 0,
        1 <= target <= workers,
    ensures
        rr_hits(workers, c0, k, target) == k as int / workers || rr_hits(workers, c0, k, target)
            == k as int / workers + 1,
        k as int % workers == 0 ==> rr_hits(workers, c0, k, target) == k as int / workers,
{
    let r = (target - 1 - c0) % workers;
    lemma_mod_division_less_than_divisor(target - 1 - c0, workers);
    lemma_rr_hits_closed_form(workers, c0, k, target);
    lemma_fundamental_div_mod(k as int, workers);
    lemma_mod_division_less_than_divisor(k as int, workers);
    let q = k as int / workers;
    let kr = k as int % workers;
    let s = workers - 1 - r;
    // k + s == workers * q + (kr + s), with 0 <= kr + s <= 2 * workers - 2
    if kr + s < workers {
        assert(k + s == q * workers + (kr + s)) by (nonlinear_arith)
            requires
                k as int == workers * q + kr,
        ;
        lemma_fundamental_div_mod_converse_div(k + s, workers, q, kr + s);
    } else {
        assert(k + s == (q + 1) * workers + (kr + s - workers)) by (nonlinear_arith)
            requires
                k as int == workers * q + kr,
        ;
        lemma_fundamental_div_mod_converse_div(k + s, workers, q + 1, kr + s - workers);
    }
}

} // verus!
