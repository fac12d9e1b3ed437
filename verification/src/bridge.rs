//! The coroutine-to-future bridge.
//!
//! A document render runs as one stackful coroutine.  An adapter turns the
//! coroutine into a poll-based future: every outer poll resumes the coroutine
//! with a fresh context handle, a yield becomes `Pending`, and the coroutine's
//! return value becomes `Ready`.  Synchronous callback code running on the
//! coroutine's stack waits for an inner future by repeatedly polling it with
//! the handle of the current resume and suspending whenever it is pending.
//!
//! The context handle is only valid between the resume that delivered it and
//! the next suspend, so it lives in a single-slot cell ([`HandleSlot`]): the
//! slot is occupied exactly while callback code runs, and empty exactly while
//! the coroutine is suspended.
//!
//! The actual stack switching needs a platform coroutine primitive that the
//! verifier cannot look into; the decision logic around it is here, verified:
//! the slot discipline, the adapter's state step ([`adapter_step`]), and a
//! whole-bridge model ([`BridgeModel`]) over a deterministic inner future
//! ([`ScriptFuture`]) on which the bridge's laws are proved.

use vstd::prelude::*;

verus! {

/// Single-slot cell for the transient context handle.
///
/// Taking from an empty slot is a contract violation (reentrant misuse) and
/// is excluded by precondition; an unverified caller that breaks it fails
/// fast with a panic rather than observing a stale handle.
pub struct HandleSlot<T> {
    slot: Option<T>,
}

impl<T> HandleSlot<T> {
    /// The slot currently holds a handle.
    pub closed spec fn is_occupied(self) -> bool {
        self.slot is Some
    }

    /// The handle held by an occupied slot.
    pub closed spec fn stored(self) -> T
        recommends
            self.is_occupied(),
    {
        self.slot->Some_0
    }

    /// A slot already holding `handle`, as handed to a freshly resumed coroutine.
    pub fn filled(handle: T) -> (s: Self)
        ensures
            s.is_occupied(),
            s.stored() == handle,
    {
        HandleSlot { slot: Some(handle) }
    }

    /// An empty slot, the state while the coroutine is suspended.
    pub fn vacant() -> (s: Self)
        ensures
            !s.is_occupied(),
    {
        HandleSlot { slot: None }
    }

    /// Remove and return the held handle, leaving the slot empty.
    pub fn take(&mut self) -> (h: T)
        requires
            old(self).is_occupied(),
        ensures
            !final(self).is_occupied(),
            h == old(self).stored(),
    {
        let opt = self.slot.take();
        opt.unwrap()
    }

    /// Store a handle into the empty slot.
    pub fn put(&mut self, handle: T)
        requires
            !old(self).is_occupied(),
        ensures
            final(self).is_occupied(),
            final(self).stored() == handle,
    {
        self.slot = Some(handle);
    }

    /// Whether the slot currently holds a handle.
    pub fn occupied(&self) -> (b: bool)
        ensures
            b == self.is_occupied(),
    {
        self.slot.is_some()
    }
}

/// Lifecycle of the coroutine behind one adapter future.
#[derive(Clone, Copy, Debug, PartialEq, Eq, Structural)]
pub enum AdapterState {
    /// The coroutine has not run yet.
    Fresh,
    /// The coroutine yielded and waits to be resumed.
    Suspended,
    /// The coroutine returned its value; the future is spent.
    Complete,
}

/// What a single resume of the coroutine came back with.
pub enum ResumeOutcome<V> {
    /// The coroutine suspended while waiting on an inner future.
    Yielded,
    /// The coroutine ran to the end and produced its output.
    Returned(V),
}

/// Result of polling a future once.
pub enum PollStatus<V> {
    Pending,
    Ready(V),
}

/// The adapter's poll decision: a yield becomes `Pending`, a return becomes
/// `Ready`, exactly once.  Polling again after `Complete` is unsupported and
/// excluded by precondition.
pub fn adapter_step<V>(state: AdapterState, outcome: ResumeOutcome<V>) -> (r: (
    AdapterState,
    PollStatus<V>,
))
    requires
        state != AdapterState::Complete,
    ensures
        outcome is Yielded ==> r.0 == AdapterState::Suspended && r.1 is Pending,
        forall|v: V|
            outcome == ResumeOutcome::Returned(v) ==> r.0 == AdapterState::Complete && r.1
                == PollStatus::Ready(v),
{
    match outcome {
        ResumeOutcome::Yielded => (AdapterState::Suspended, PollStatus::Pending),
        ResumeOutcome::Returned(v) => (AdapterState::Complete, PollStatus::Ready(v)),
    }
}

/// Deterministic model of an inner future: it reports `Pending` a fixed
/// number of times and then stays `Ready` with a fixed value.  It records the
/// handle of its latest poll, so contracts can state which context handle was
/// used to drive it.
pub struct ScriptFuture {
    /// How many more polls return `Pending`.
    pub pending_left: u64,
    /// The value the future resolves to.
    pub value: u64,
    /// The context handle the future was last polled with.
    pub last_polled_with: Option<u64>,
}

impl ScriptFuture {
    /// A future that is `Pending` for `pending` polls and then `Ready(value)`.
    pub fn new(pending: u64, value: u64) -> (f: Self)
        ensures
            f.pending_left == pending,
            f.value == value,
            f.last_polled_with is None,
    {
        ScriptFuture { pending_left: pending, value, last_polled_with: None }
    }

    /// One poll, driven by the context handle `handle`.
    pub fn poll(&mut self, handle: u64) -> (r: PollStatus<u64>)
        ensures
            final(self).value == old(self).value,
            final(self).last_polled_with == Some(handle),
            old(self).pending_left > 0 ==> r is Pending && final(self).pending_left == old(self).pending_left - 1,
            old(self).pending_left == 0 ==> r == PollStatus::Ready(old(self).value) && final(self).pending_left == 0,
    {
        self.last_polled_with = Some(handle);
        if self.pending_left > 0 {
            self.pending_left = self.pending_left - 1;
            PollStatus::Pending
        } else {
            PollStatus::Ready(self.value)
        }
    }
}

/// The outcome of directly polling, up to `times` times, a future that is
/// `Pending` for `pending` polls and then resolves to `value`.
pub open spec fn direct_result_counting(pending: nat, value: u64, times: nat) -> Option<u64>
    decreases times,
{
    if times == 0 {
        None
    } else if pending == 0 {
        Some(value)
    } else {
        direct_result_counting((pending - 1) as nat, value, (times - 1) as nat)
    }
}

/// The outcome of polling `f` directly, without any coroutine, up to `times`
/// times: `Some` of the resolved value as soon as a poll reports `Ready`,
/// `None` if every poll reported `Pending`.
pub open spec fn direct_result(f: ScriptFuture, times: nat) -> Option<u64> {
    direct_result_counting(f.pending_left as nat, f.value, times)
}

/// Poll `fut` directly up to `times` times with one fixed handle, stopping at
/// the first `Ready`.
pub fn poll_directly(fut: &mut ScriptFuture, times: u64, handle: u64) -> (r: Option<u64>)
    ensures
        r == direct_result(*old(fut), times as nat),
{
    let mut i: u64 = 0;
    while i < times
        invariant
            i <= times,
            direct_result(*old(fut), times as nat) == direct_result(*fut, (times - i) as nat),
            fut.value == old(fut).value,
        decreases times - i,
    {
        match fut.poll(handle) {
            PollStatus::Ready(v) => {
                return Some(v);
            },
            PollStatus::Pending => {},
        }
        i = i + 1;
    }
    None
}

/// Where a bridged operation stands between two outer polls.
#[derive(Clone, Copy, Debug, PartialEq, Eq, Structural)]
pub enum BridgePhase {
    /// The coroutine has not been resumed yet.
    NotStarted,
    /// The coroutine is suspended inside its wait loop.
    InBlockOn,
    /// The coroutine returned; the bridged future is spent.
    Complete,
}

/// Small-step model of one whole bridged operation: the adapter future, the
/// coroutine with its handle slot, and the inner future the callback waits
/// on.  Context handles are modelled as the values of a counter that grows by
/// one at every resume, which makes every delivered handle distinct.
pub struct BridgeModel {
    /// The inner future the synchronous callback waits on.
    pub inner: ScriptFuture,
    /// The awaiter's single-slot cell.
    pub slot: HandleSlot<u64>,
    /// The handle the next resume will deliver.
    pub next_handle: u64,
    /// Lifecycle of the bridged operation.
    pub phase: BridgePhase,
    /// Every handle a resume has delivered so far, oldest first.
    pub handle_log: Vec<u64>,
}

impl BridgeModel {
    /// The slot is empty exactly while the coroutine is not running: before
    /// the first resume and while suspended.  After completion the handle has
    /// been put back.
    pub open spec fn wf(self) -> bool {
        &&& self.phase is NotStarted ==> !self.slot.is_occupied()
        &&& self.phase is InBlockOn ==> !self.slot.is_occupied()
        &&& self.phase is Complete ==> self.slot.is_occupied()
    }

    /// A bridged operation around the inner future `inner`, not yet polled.
    pub fn new(inner: ScriptFuture) -> (m: Self)
        ensures
            m.wf(),
            m.phase is NotStarted,
            m.inner == inner,
            m.next_handle == 0,
            m.handle_log@ == Seq::<u64>::empty(),
    {
        BridgeModel {
            inner,
            slot: HandleSlot::vacant(),
            next_handle: 0,
            phase: BridgePhase::NotStarted,
            handle_log: Vec::new(),
        }
    }

    /// One outer poll: resume the coroutine with a fresh handle; the wait
    /// loop takes the handle from the slot, polls the inner future once with
    /// it, and either suspends (inner `Pending`) or restores the slot and
    /// lets the coroutine return (inner `Ready`).
    pub fn poll(&mut self) -> (r: PollStatus<u64>)
        requires
            old(self).wf(),
            !(old(self).phase is Complete),
            old(self).next_handle < u64::MAX,
        ensures
            final(self).wf(),
            final(self).next_handle == old(self).next_handle + 1,
            final(self).handle_log@ == old(self).handle_log@.push(old(self).next_handle),
            final(self).inner.value == old(self).inner.value,
            // the inner future is only ever polled with the handle of the
            // current resume, never a cached one
            final(self).inner.last_polled_with == Some(old(self).next_handle),
            old(self).inner.pending_left > 0 ==> r is Pending && final(self).phase is InBlockOn
                && final(self).inner.pending_left == old(self).inner.pending_left - 1 && !final(self).slot.is_occupied(),
            old(self).inner.pending_left == 0 ==> r == PollStatus::Ready(old(self).inner.value)
                && final(self).phase is Complete && final(self).slot.stored() == old(self).next_handle,
    {
        // The resume delivers a fresh handle into the slot ...
        let handle = self.next_handle;
        self.next_handle = self.next_handle + 1;
        self.handle_log.push(handle);
        self.slot.put(handle);
        // ... and the wait loop immediately takes it to drive the inner poll.
        let h = self.slot.take();
        match self.inner.poll(h) {
            PollStatus::Pending => {
                // Suspend with the slot empty; the handle dies here.
                self.phase = BridgePhase::InBlockOn;
                PollStatus::Pending
            },
            PollStatus::Ready(v) => {
                // Restore the slot, let the coroutine return the value.
                self.slot.put(h);
                self.phase = BridgePhase::Complete;
                PollStatus::Ready(v)
            },
        }
    }

    /// Drive the bridged operation to completion, as the host scheduler does,
    /// and count the outer polls: a future that is `Pending` `n` times
    /// resolves after exactly `n + 1` polls with the inner future's own value.
    pub fn drive(&mut self) -> (r: (u64, u64))
        requires
            old(self).wf(),
            old(self).phase is NotStarted,
            old(self).next_handle + old(self).inner.pending_left < u64::MAX,
        ensures
            r.0 == old(self).inner.value,
            r.1 == old(self).inner.pending_left + 1,
            final(self).phase is Complete,
            final(self).next_handle == old(self).next_handle + r.1,
            final(self).handle_log@ == old(self).handle_log@ + consecutive_handles(
                old(self).next_handle,
                r.1 as nat,
            ),
    {
        let mut polls: u64 = 0;
        loop
            invariant
                self.wf(),
                self.inner.value == old(self).inner.value,
                !(self.phase is Complete),
                polls == old(self).inner.pending_left - self.inner.pending_left,
                self.next_handle == old(self).next_handle + polls,
                self.next_handle + self.inner.pending_left < u64::MAX,
                self.handle_log@ == old(self).handle_log@ + consecutive_handles(
                    old(self).next_handle,
                    polls as nat,
                ),
            decreases self.inner.pending_left,
        {
            let ghost pre = self.handle_log@;
            let ghost base = old(self).next_handle;
            match self.poll() {
                PollStatus::Ready(v) => {
                    proof {
                        assert(self.handle_log@ =~= old(self).handle_log@ + consecutive_handles(
                            base,
                            (polls + 1) as nat,
                        ));
                    }
                    return (v, polls + 1);
                },
                PollStatus::Pending => {
                    polls = polls + 1;
                    proof {
                        assert(self.handle_log@ =~= old(self).handle_log@ + consecutive_handles(
                            base,
                            polls as nat,
                        ));
                    }
                },
            }
        }
    }
}

/// The handles delivered by `n` consecutive resumes starting from `base`.
pub open spec fn consecutive_handles(base: u64, n: nat) -> Seq<u64> {
    Seq::new(n, |i: int| (base + i) as u64)
}

/// Law: for any inner future that becomes ready after `n` pending polls,
/// driving it through the bridge gives the same final value as polling it
/// directly `n + 1` times.  The bridge side is `BridgeModel::drive`, whose
/// result is the inner future's own value; this lemma pins the direct side
/// to that same value.
pub proof fn lemma_bridge_agrees_with_direct_polling(f: ScriptFuture)
    ensures
        direct_result(f, (f.pending_left + 1) as nat) == Some(f.value),
    decreases f.pending_left,
{
    if f.pending_left > 0 {
        lemma_bridge_agrees_with_direct_polling(
            ScriptFuture {
                pending_left: (f.pending_left - 1) as u64,
                value: f.value,
                last_polled_with: f.last_polled_with,
            },
        );
    }
}

/// Law: the context handles that `n` suspend/resume cycles deliver are
/// pairwise distinct — no resume ever sees a reused handle.
pub proof fn lemma_delivered_handles_distinct(base: u64, n: nat)
    requires
        base + n <= u64::MAX,
    ensures
        forall|i: int, j: int|
            0 <= i < j < n ==> consecutive_handles(base, n)[i] != consecutive_handles(base, n)[j],
{
}

} // verus!
