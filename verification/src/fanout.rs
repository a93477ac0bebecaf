//! The fanout core: an ordered sequence of output slots, a readiness-sweep
//! cursor, and the operations the driver steps through — control-message
//! application, the readiness sweep, the broadcast of one item, and the
//! flush/close sweeps.
//!
//! The driver performs the actual downstream calls. Wherever a slot's handle
//! must be polled, the core hands the handle out by value (leaving the slot
//! temporarily empty), the driver makes the call, and reports the outcome
//! back; the core then restores or evicts the slot and decides how the sweep
//! goes on.

use vstd::prelude::*;

use crate::slot::{
    contains_id, ids_unique, index_of_id, lemma_index_of_id, lemma_remove_keeps_unique, Slot,
};

verus! {

/// A topology mutation, pushed by the control plane and applied by the fanout
/// at the start of a poll.
pub enum ControlMessage<S> {
    /// Introduce a new output. Invalid if the identifier already exists.
    Add(u64, S),
    /// Retire an output. Invalid if the identifier is absent.
    Remove(u64),
    /// Swap an output's handle in place. `None` opens a replacement window
    /// (the slot stops reporting ready); `Some` closes it.
    Replace(u64, Option<S>),
}

/// What applying one control message did.
pub enum ApplyOutcome<S> {
    /// The message was applied. For `Remove`, the detached handle rides along
    /// so the caller can schedule its best-effort close.
    Applied(Option<S>),
    /// An `Add` named an identifier that already exists; nothing changed.
    DuplicateId,
    /// A `Remove` or `Replace` named an unknown identifier; nothing changed.
    UnknownId,
}

/// Result of draining a batch of control messages.
pub struct ControlResult<S> {
    /// Handles detached by `Remove` messages, in message order; the caller
    /// owes each a best-effort close.
    pub detached: Vec<S>,
    /// False when a message was invalid: the valid prefix was applied, the
    /// offending message and the rest were discarded. The control plane
    /// violated the topology invariants, which the caller treats as fatal.
    pub ok: bool,
}

/// Whether one control message is valid against the given slots.
pub open spec fn msg_valid<S>(slots: Seq<Slot<S>>, msg: ControlMessage<S>) -> bool {
    match msg {
        ControlMessage::Add(id, _) => !contains_id(slots, id),
        ControlMessage::Remove(id) => contains_id(slots, id),
        ControlMessage::Replace(id, _) => contains_id(slots, id),
    }
}

/// The slots after one valid control message.
pub open spec fn apply_slots<S>(slots: Seq<Slot<S>>, msg: ControlMessage<S>) -> Seq<Slot<S>> {
    match msg {
        ControlMessage::Add(id, sink) => slots.push(Slot { id, handle: Some(sink) }),
        ControlMessage::Remove(id) => slots.remove(index_of_id(slots, id)),
        ControlMessage::Replace(id, sink) => slots.update(
            index_of_id(slots, id),
            Slot { id, handle: sink },
        ),
    }
}

/// The cursor after one valid control message: a removal at or before the
/// cursor shifts it down so it keeps pointing at the same logical output.
pub open spec fn apply_cursor<S>(slots: Seq<Slot<S>>, cursor: int, msg: ControlMessage<S>) -> int {
    match msg {
        ControlMessage::Remove(id) => if index_of_id(slots, id) < cursor {
            cursor - 1
        } else {
            cursor
        },
        _ => cursor,
    }
}

/// The handle a valid control message detaches (only `Remove` detaches one).
pub open spec fn apply_detached<S>(slots: Seq<Slot<S>>, msg: ControlMessage<S>) -> Option<S> {
    match msg {
        ControlMessage::Remove(id) => slots[index_of_id(slots, id)].handle,
        _ => None,
    }
}

/// The state after a sequence of control messages (assuming each is valid in
/// turn): slots and cursor.
pub open spec fn run_state<S>(
    slots: Seq<Slot<S>>,
    cursor: int,
    msgs: Seq<ControlMessage<S>>,
) -> (Seq<Slot<S>>, int)
    decreases msgs.len(),
{
    if msgs.len() == 0 {
        (slots, cursor)
    } else {
        let prior = run_state(slots, cursor, msgs.drop_last());
        (
            apply_slots(prior.0, msgs.last()),
            apply_cursor(prior.0, prior.1, msgs.last()),
        )
    }
}

/// The handles detached over a sequence of control messages, in order.
pub open spec fn run_detached<S>(
    slots: Seq<Slot<S>>,
    cursor: int,
    msgs: Seq<ControlMessage<S>>,
) -> Seq<S>
    decreases msgs.len(),
{
    if msgs.len() == 0 {
        Seq::empty()
    } else {
        let prior = run_state(slots, cursor, msgs.drop_last());
        run_detached(slots, cursor, msgs.drop_last()) + (
        match apply_detached(prior.0, msgs.last()) {
            Some(sink) => seq![sink],
            None => Seq::empty(),
        })
    }
}

/// How many messages of the sequence, from the front, are valid in turn.
pub open spec fn valid_count<S>(
    slots: Seq<Slot<S>>,
    cursor: int,
    msgs: Seq<ControlMessage<S>>,
) -> int
    decreases msgs.len(),
{
    if msgs.len() == 0 {
        0
    } else if valid_count(slots, cursor, msgs.drop_last()) == msgs.len() - 1
        && msg_valid(run_state(slots, cursor, msgs.drop_last()).0, msgs.last()) {
        msgs.len() as int
    } else {
        valid_count(slots, cursor, msgs.drop_last())
    }
}

/// The broadcast stage. Owns the slots and the readiness-sweep cursor; the
/// driver owns the downstream calls.
pub struct Fanout<S> {
    sinks: Vec<Slot<S>>,
    i: usize,
}

impl<S> Fanout<S> {
    /// The ordered sequence of output slots.
    pub closed spec fn slots(self) -> Seq<Slot<S>> {
        self.sinks@
    }

    /// The readiness-sweep cursor: slots before it are confirmed ready for
    /// the item in flight; the sweep resumes here.
    pub closed spec fn cursor(self) -> int {
        self.i as int
    }

    /// The structural invariant: identifiers are unique and the cursor stays
    /// within `[0, number_of_slots]`.
    pub open spec fn wf(self) -> bool {
        &&& ids_unique(self.slots())
        &&& 0 <= self.cursor() <= self.slots().len()
    }

    /// An empty fanout: no outputs, cursor at the start.
    pub fn new() -> (r: Fanout<S>)
        ensures
            r.wf(),
            r.slots().len() == 0,
            r.cursor() == 0,
    {
        Fanout { sinks: Vec::new(), i: 0 }
    }

    /// How many slots are registered (present or mid-replacement).
    pub fn output_count(&self) -> (r: usize)
        ensures
            r == self.slots().len(),
    {
        self.sinks.len()
    }

    /// Where the readiness sweep stands.
    pub fn cursor_index(&self) -> (r: usize)
        ensures
            r == self.cursor(),
    {
        self.i
    }

    /// Whether some slot carries the identifier.
    pub fn has_output(&self, id: u64) -> (r: bool)
        ensures
            r == contains_id(self.slots(), id),
    {
        match self.position_of(id) {
            Some(_) => true,
            None => false,
        }
    }

    /// Whether the slot at `index` exists and is currently without a handle.
    pub fn is_vacant(&self, index: usize) -> (r: bool)
        ensures
            r == (index < self.slots().len() && self.slots()[index as int].handle is None),
    {
        if index < self.sinks.len() {
            match &self.sinks[index].handle {
                None => true,
                Some(_) => false,
            }
        } else {
            false
        }
    }

    /// The index of the slot carrying `id`, if any.
    pub fn position_of(&self, id: u64) -> (r: Option<usize>)
        ensures
            match r {
                Some(j) => j < self.slots().len() && self.slots()[j as int].id == id,
                None => !contains_id(self.slots(), id),
            },
    {
        let mut j: usize = 0;
        while j < self.sinks.len()
            invariant
                j <= self.slots().len(),
                forall|k: int| 0 <= k < j ==> self.slots()[k].id != id,
            decreases self.sinks.len() - j,
        {
            if self.sinks[j].id == id {
                return Some(j);
            }
            j += 1;
        }
        None
    }

    /// Register a new output at the end of the sequence. The caller must have
    /// ruled out a duplicate identifier (a duplicate is a topology bug, not a
    /// runtime state).
    pub fn add(&mut self, id: u64, sink: S)
        requires
            old(self).wf(),
            !contains_id(old(self).slots(), id),
        ensures
            final(self).wf(),
            final(self).slots() == old(self).slots().push(Slot { id, handle: Some(sink) }),
            final(self).cursor() == old(self).cursor(),
    {
        self.sinks.push(Slot { id, handle: Some(sink) });
        proof {
            let s = self.slots();
            assert forall|a: int, b: int| 0 <= a < b < s.len() implies s[a].id != s[b].id by {
                if b < s.len() - 1 {
                    assert(old(self).slots()[a].id != old(self).slots()[b].id);
                } else {
                    assert(!contains_id(old(self).slots(), id));
                    assert(old(self).slots()[a].id != id);
                }
            }
        }
    }

    /// Retire the output carrying `id`: detach its handle (returned to the
    /// caller, who owes it a best-effort close), drop the slot, and shift the
    /// cursor down when the removal happened before it.
    pub fn remove(&mut self, id: u64) -> (r: Option<S>)
        requires
            old(self).wf(),
            contains_id(old(self).slots(), id),
        ensures
            final(self).wf(),
            ({
                let j = index_of_id(old(self).slots(), id);
                &&& final(self).slots() == old(self).slots().remove(j)
                &&& r == old(self).slots()[j].handle
                &&& final(self).cursor() == if j < old(self).cursor() {
                    old(self).cursor() - 1
                } else {
                    old(self).cursor()
                }
            }),
    {
        let j = match self.position_of(id) {
            Some(j) => j,
            None => {
                proof {
                    assert(contains_id(self.slots(), id));
                }
                unreached()
            },
        };
        proof {
            lemma_index_of_id(self.slots(), id, j as int);
        }
        let slot = self.sinks.remove(j);
        if self.i > j {
            self.i -= 1;
        }
        proof {
            lemma_remove_keeps_unique(old(self).slots(), j as int);
        }
        slot.handle
    }

    /// Swap the handle of the output carrying `id` in place, keeping its
    /// position and identifier. `None` opens a replacement window.
    pub fn replace(&mut self, id: u64, sink: Option<S>)
        requires
            old(self).wf(),
            contains_id(old(self).slots(), id),
        ensures
            final(self).wf(),
            final(self).slots() == old(self).slots().update(
                index_of_id(old(self).slots(), id),
                Slot { id, handle: sink },
            ),
            final(self).cursor() == old(self).cursor(),
    {
        let j = match self.position_of(id) {
            Some(j) => j,
            None => {
                proof {
                    assert(contains_id(self.slots(), id));
                }
                unreached()
            },
        };
        proof {
            lemma_index_of_id(self.slots(), id, j as int);
        }
        self.sinks[j] = Slot { id, handle: sink };
        proof {
            let s = self.slots();
            assert forall|a: int, b: int| 0 <= a < b < s.len() implies s[a].id != s[b].id by {
                assert(old(self).slots()[a].id != old(self).slots()[b].id);
            }
        }
    }

    /// Apply one control message. Valid messages mutate the topology exactly
    /// as `apply_slots`/`apply_cursor` say; invalid ones change nothing and
    /// name the violation.
    pub fn apply(&mut self, msg: ControlMessage<S>) -> (r: ApplyOutcome<S>)
        requires
            old(self).wf(),
        ensures
            final(self).wf(),
            msg_valid(old(self).slots(), msg) ==> {
                &&& final(self).slots() == apply_slots(old(self).slots(), msg)
                &&& final(self).cursor() == apply_cursor(
                    old(self).slots(),
                    old(self).cursor(),
                    msg,
                )
                &&& r == ApplyOutcome::Applied(apply_detached(old(self).slots(), msg))
            },
            !msg_valid(old(self).slots(), msg) ==> {
                &&& final(self).slots() == old(self).slots()
                &&& final(self).cursor() == old(self).cursor()
                &&& r == (match msg {
                    ControlMessage::Add(_, _) => ApplyOutcome::<S>::DuplicateId,
                    _ => ApplyOutcome::<S>::UnknownId,
                })
            },
    {
        match msg {
            ControlMessage::Add(id, sink) => {
                if self.has_output(id) {
                    ApplyOutcome::DuplicateId
                } else {
                    self.add(id, sink);
                    ApplyOutcome::Applied(None)
                }
            },
            ControlMessage::Remove(id) => {
                if self.has_output(id) {
                    let detached = self.remove(id);
                    ApplyOutcome::Applied(detached)
                } else {
                    ApplyOutcome::UnknownId
                }
            },
            ControlMessage::Replace(id, sink) => {
                if self.has_output(id) {
                    self.replace(id, sink);
                    ApplyOutcome::Applied(None)
                } else {
                    ApplyOutcome::UnknownId
                }
            },
        }
    }

    /// Drain a batch of control messages, applying each in order, strictly
    /// before any protocol phase runs. On the first invalid message the drain
    /// stops: the valid prefix stays applied, `ok` turns false, and the caller
    /// treats the violation as fatal.
    #[verifier::loop_isolation(false)]
    pub fn process_control_messages(&mut self, msgs: Vec<ControlMessage<S>>) -> (r: ControlResult<
        S,
    >)
        requires
            old(self).wf(),
        ensures
            final(self).wf(),
            ({
                let n = valid_count(old(self).slots(), old(self).cursor(), msgs@);
                let run = run_state(old(self).slots(), old(self).cursor(), msgs@.take(n));
                &&& r.ok == (n == msgs@.len())
                &&& final(self).slots() == run.0
                &&& final(self).cursor() == run.1
                &&& r.detached@ == run_detached(old(self).slots(), old(self).cursor(), msgs@.take(n))
            }),
    {
        let ghost all = msgs@;
        let ghost slots0 = self.slots();
        let ghost cursor0 = self.cursor();
        proof {
            assert(all.len() == msgs.len());
        }
        let mut msgs = msgs;
        let mut detached: Vec<S> = Vec::new();
        let mut k: usize = 0;
        proof {
            assert(all.take(0) =~= Seq::<ControlMessage<S>>::empty());
        }
        loop
            invariant
                self.wf(),
                k <= all.len(),
                msgs@ == all.skip(k as int),
                valid_count(slots0, cursor0, all.take(k as int)) == k,
                self.slots() == run_state(slots0, cursor0, all.take(k as int)).0,
                self.cursor() == run_state(slots0, cursor0, all.take(k as int)).1,
                detached@ == run_detached(slots0, cursor0, all.take(k as int)),
            decreases all.len() - k,
        {
            if msgs.len() == 0 {
                proof {
                    assert(all.skip(k as int).len() == 0);
                    assert(k as int == all.len());
                    assert(all.take(k as int) =~= all);
                    lemma_valid_count_total(slots0, cursor0, all, k as int);
                    assert(valid_count(slots0, cursor0, all) == k as int);
                }
                return ControlResult { detached, ok: true };
            }
            let msg = msgs.remove(0);
            proof {
                assert(msg == all[k as int]);
                assert(msgs@ =~= all.skip(k as int + 1));
                assert(all.take(k as int + 1).drop_last() =~= all.take(k as int));
                assert(all.take(k as int + 1).last() == all[k as int]);
            }
            let ghost pre_slots = self.slots();
            let ghost pre_cursor = self.cursor();
            match self.apply(msg) {
                ApplyOutcome::Applied(d) => {
                    proof {
                        assert(msg_valid(pre_slots, msg));
                    }
                    match d {
                        Some(sink) => {
                            detached.push(sink);
                        },
                        None => {
                            proof {
                                assert(detached@ + Seq::<S>::empty() =~= detached@);
                            }
                        },
                    }
                    k += 1;
                },
                _ => {
                    proof {
                        assert(!msg_valid(pre_slots, msg));
                        lemma_valid_count_stops(slots0, cursor0, all, k as int);
                    }
                    return ControlResult { detached, ok: false };
                },
            }
        }
    }
}

/// What the driver of the readiness sweep must do next.
pub enum ReadyStep<S> {
    /// Every output is confirmed ready; the cursor was reset for the next
    /// sweep. The item in flight may now be broadcast.
    Ready,
    /// The slot at the cursor is mid-replacement: the whole broadcast is
    /// pending until the control plane installs a handle.
    Blocked,
    /// The driver must poll this handle's readiness and report the outcome
    /// through `finish_ready_step`. The handle's slot keeps its place.
    Check(S),
}

/// The outcome of one downstream protocol call, as the driver saw it.
pub enum SinkPoll {
    /// The output cannot take the call yet.
    Pending,
    /// The call completed.
    Success,
    /// The output failed; the failure policy decides what happens.
    Failure,
}

/// How the readiness sweep goes on after one reported outcome.
pub enum StepOutcome {
    /// Keep sweeping: ask `poll_ready_step` again.
    Continue,
    /// The sweep suspends; the cursor keeps its place so a later poll resumes
    /// exactly here.
    Pending,
    /// The only remaining output failed: the fanout as a whole fails.
    Escalated,
}

/// What the driver of a broadcast or flush/close sweep must do at `index`.
pub enum SweepStep<S> {
    /// The sweep has passed the last slot.
    Done,
    /// The slot is mid-replacement; the sweep skips it.
    Skip,
    /// The driver must make the phase's call on this handle and report the
    /// outcome through `finish_send` or `finish_sweep_step`.
    Visit(S),
}

/// How a broadcast sweep goes on after one reported outcome.
pub enum SendOutcome {
    /// Keep sweeping from this index.
    Continue(usize),
    /// The only remaining output rejected the item: the fanout fails.
    Escalated,
}

/// How a flush/close sweep goes on after one reported outcome: the next index
/// and whether some slot has reported pending so far.
pub enum SweepOutcome {
    Continue(usize, bool),
    Escalated,
}

impl<S> Fanout<S> {
    /// The failure policy: with a single output left, its failure is the
    /// fanout's failure (there is nothing to make progress with); with more,
    /// the failing slot is silently evicted and the rest keep flowing. An
    /// eviction before the cursor shifts the cursor down.
    pub fn handle_sink_error(&mut self, index: usize) -> (r: Result<(), ()>)
        requires
            old(self).wf(),
            index < old(self).slots().len(),
        ensures
            final(self).wf(),
            ({
                if old(self).slots().len() == 1 {
                    &&& r is Err
                    &&& final(self).slots() == old(self).slots()
                    &&& final(self).cursor() == old(self).cursor()
                } else {
                    &&& r is Ok
                    &&& final(self).slots() == old(self).slots().remove(index as int)
                    &&& final(self).cursor() == if index < old(self).cursor() {
                        old(self).cursor() - 1
                    } else {
                        old(self).cursor()
                    }
                }
            }),
    {
        if self.sinks.len() == 1 {
            Err(())
        } else {
            self.sinks.remove(index);
            if self.i > index {
                self.i -= 1;
            }
            proof {
                lemma_remove_keeps_unique(old(self).slots(), index as int);
            }
            Ok(())
        }
    }

    /// One step of the readiness sweep: look at the slot under the cursor.
    /// With the cursor past the last slot, every output is confirmed and the
    /// cursor resets; a mid-replacement slot blocks the broadcast; otherwise
    /// the slot's handle is handed out for the driver to poll, its slot left
    /// vacant until `finish_ready_step` restores or evicts it.
    pub fn poll_ready_step(&mut self) -> (r: ReadyStep<S>)
        requires
            old(self).wf(),
        ensures
            final(self).wf(),
            match r {
                ReadyStep::Ready => {
                    &&& old(self).cursor() == old(self).slots().len()
                    &&& final(self).slots() == old(self).slots()
                    &&& final(self).cursor() == 0
                },
                ReadyStep::Blocked => {
                    &&& old(self).cursor() < old(self).slots().len()
                    &&& old(self).slots()[old(self).cursor()].handle is None
                    &&& final(self).slots() == old(self).slots()
                    &&& final(self).cursor() == old(self).cursor()
                },
                ReadyStep::Check(s) => {
                    &&& old(self).cursor() < old(self).slots().len()
                    &&& old(self).slots()[old(self).cursor()].handle == Some(s)
                    &&& final(self).slots() == old(self).slots().update(
                        old(self).cursor(),
                        Slot { id: old(self).slots()[old(self).cursor()].id, handle: None },
                    )
                    &&& final(self).cursor() == old(self).cursor()
                },
            },
    {
        if self.i >= self.sinks.len() {
            self.i = 0;
            return ReadyStep::Ready;
        }
        let taken = self.sinks[self.i].handle.take();
        match taken {
            None => {
                proof {
                    assert(self.slots() =~= old(self).slots());
                }
                ReadyStep::Blocked
            },
            Some(s) => {
                proof {
                    assert(self.slots() =~= old(self).slots().update(
                        old(self).cursor(),
                        Slot { id: old(self).slots()[old(self).cursor()].id, handle: None },
                    ));
                    lemma_same_ids_unique(old(self).slots(), self.slots());
                }
                ReadyStep::Check(s)
            },
        }
    }

    /// Take back the handle handed out by `poll_ready_step` and apply the
    /// reported outcome: success advances the cursor past the slot, pending
    /// suspends the sweep with the cursor held in place, and a failure goes
    /// to the failure policy (eviction keeps sweeping at the same cursor;
    /// escalation leaves the broken handle in place and fails the fanout).
    pub fn finish_ready_step(&mut self, sink: S, result: SinkPoll) -> (r: StepOutcome)
        requires
            old(self).wf(),
            old(self).cursor() < old(self).slots().len(),
            old(self).slots()[old(self).cursor()].handle is None,
        ensures
            final(self).wf(),
            ({
                let c = old(self).cursor();
                let restored = old(self).slots().update(
                    c,
                    Slot { id: old(self).slots()[c].id, handle: Some(sink) },
                );
                match result {
                    SinkPoll::Pending => {
                        &&& r is Pending
                        &&& final(self).slots() == restored
                        &&& final(self).cursor() == c
                    },
                    SinkPoll::Success => {
                        &&& r is Continue
                        &&& final(self).slots() == restored
                        &&& final(self).cursor() == c + 1
                    },
                    SinkPoll::Failure => if old(self).slots().len() == 1 {
                        &&& r is Escalated
                        &&& final(self).slots() == restored
                        &&& final(self).cursor() == c
                    } else {
                        &&& r is Continue
                        &&& final(self).slots() == old(self).slots().remove(c)
                        &&& final(self).cursor() == c
                    },
                }
            }),
    {
        proof {
            assert(self.sinks.len() == self.slots().len());
        }
        match result {
            SinkPoll::Pending => {
                self.restore(self.i, sink);
                StepOutcome::Pending
            },
            SinkPoll::Success => {
                self.restore(self.i, sink);
                self.i += 1;
                StepOutcome::Continue
            },
            SinkPoll::Failure => {
                if self.sinks.len() == 1 {
                    self.restore(self.i, sink);
                    StepOutcome::Escalated
                } else {
                    let index = self.i;
                    match self.handle_sink_error(index) {
                        Ok(()) => StepOutcome::Continue,
                        Err(()) => unreached(),
                    }
                }
            },
        }
    }

    /// One step of a broadcast or flush/close sweep: look at the slot at
    /// `index`. A present handle is handed out for the driver to call, its
    /// slot left vacant until the matching finish call restores or evicts it.
    pub fn sweep_step(&mut self, index: usize) -> (r: SweepStep<S>)
        requires
            old(self).wf(),
        ensures
            final(self).wf(),
            match r {
                SweepStep::Done => {
                    &&& index >= old(self).slots().len()
                    &&& final(self).slots() == old(self).slots()
                    &&& final(self).cursor() == old(self).cursor()
                },
                SweepStep::Skip => {
                    &&& index < old(self).slots().len()
                    &&& old(self).slots()[index as int].handle is None
                    &&& final(self).slots() == old(self).slots()
                    &&& final(self).cursor() == old(self).cursor()
                },
                SweepStep::Visit(s) => {
                    &&& index < old(self).slots().len()
                    &&& old(self).slots()[index as int].handle == Some(s)
                    &&& final(self).slots() == old(self).slots().update(
                        index as int,
                        Slot { id: old(self).slots()[index as int].id, handle: None },
                    )
                    &&& final(self).cursor() == old(self).cursor()
                },
            },
    {
        if index >= self.sinks.len() {
            return SweepStep::Done;
        }
        let taken = self.sinks[index].handle.take();
        match taken {
            None => {
                proof {
                    assert(self.slots() =~= old(self).slots());
                }
                SweepStep::Skip
            },
            Some(s) => {
                proof {
                    assert(self.slots() =~= old(self).slots().update(
                        index as int,
                        Slot { id: old(self).slots()[index as int].id, handle: None },
                    ));
                    lemma_same_ids_unique(old(self).slots(), self.slots());
                }
                SweepStep::Visit(s)
            },
        }
    }

    /// Take back the handle handed out by `sweep_step` during a broadcast and
    /// apply the outcome of the accept call: on success the sweep moves to
    /// the next slot; on rejection the failure policy runs (eviction keeps
    /// sweeping at the same index, so no remaining output is skipped;
    /// escalation restores the handle and fails the fanout).
    pub fn finish_send(&mut self, index: usize, sink: S, accepted: bool) -> (r: SendOutcome)
        requires
            old(self).wf(),
            index < old(self).slots().len(),
            old(self).slots()[index as int].handle is None,
        ensures
            final(self).wf(),
            ({
                let restored = old(self).slots().update(
                    index as int,
                    Slot { id: old(self).slots()[index as int].id, handle: Some(sink) },
                );
                if accepted {
                    &&& r == SendOutcome::Continue((index + 1) as usize)
                    &&& final(self).slots() == restored
                    &&& final(self).cursor() == old(self).cursor()
                } else if old(self).slots().len() == 1 {
                    &&& r is Escalated
                    &&& final(self).slots() == restored
                    &&& final(self).cursor() == old(self).cursor()
                } else {
                    &&& r == SendOutcome::Continue(index)
                    &&& final(self).slots() == old(self).slots().remove(index as int)
                    &&& final(self).cursor() == if index < old(self).cursor() {
                        old(self).cursor() - 1
                    } else {
                        old(self).cursor()
                    }
                }
            }),
    {
        proof {
            assert(self.sinks.len() == self.slots().len());
        }
        if accepted {
            self.restore(index, sink);
            SendOutcome::Continue(index + 1)
        } else if self.sinks.len() == 1 {
            self.restore(index, sink);
            SendOutcome::Escalated
        } else {
            match self.handle_sink_error(index) {
                Ok(()) => SendOutcome::Continue(index),
                Err(()) => unreached(),
            }
        }
    }

    /// Take back the handle handed out by `sweep_step` during a flush or
    /// close sweep and apply the outcome. A pending slot does not stop the
    /// sweep — it only forces the overall result to pending; the sweep visits
    /// every slot on every call.
    pub fn finish_sweep_step(
        &mut self,
        index: usize,
        sink: S,
        result: SinkPoll,
        pending: bool,
    ) -> (r: SweepOutcome)
        requires
            old(self).wf(),
            index < old(self).slots().len(),
            old(self).slots()[index as int].handle is None,
        ensures
            final(self).wf(),
            ({
                let restored = old(self).slots().update(
                    index as int,
                    Slot { id: old(self).slots()[index as int].id, handle: Some(sink) },
                );
                match result {
                    SinkPoll::Pending => {
                        &&& r == SweepOutcome::Continue((index + 1) as usize, true)
                        &&& final(self).slots() == restored
                        &&& final(self).cursor() == old(self).cursor()
                    },
                    SinkPoll::Success => {
                        &&& r == SweepOutcome::Continue((index + 1) as usize, pending)
                        &&& final(self).slots() == restored
                        &&& final(self).cursor() == old(self).cursor()
                    },
                    SinkPoll::Failure => if old(self).slots().len() == 1 {
                        &&& r is Escalated
                        &&& final(self).slots() == restored
                        &&& final(self).cursor() == old(self).cursor()
                    } else {
                        &&& r == SweepOutcome::Continue(index, pending)
                        &&& final(self).slots() == old(self).slots().remove(index as int)
                        &&& final(self).cursor() == if index < old(self).cursor() {
                            old(self).cursor() - 1
                        } else {
                            old(self).cursor()
                        }
                    },
                }
            }),
    {
        proof {
            assert(self.sinks.len() == self.slots().len());
        }
        match result {
            SinkPoll::Pending => {
                self.restore(index, sink);
                SweepOutcome::Continue(index + 1, true)
            },
            SinkPoll::Success => {
                self.restore(index, sink);
                SweepOutcome::Continue(index + 1, pending)
            },
            SinkPoll::Failure => {
                if self.sinks.len() == 1 {
                    self.restore(index, sink);
                    SweepOutcome::Escalated
                } else {
                    match self.handle_sink_error(index) {
                        Ok(()) => SweepOutcome::Continue(index, pending),
                        Err(()) => unreached(),
                    }
                }
            },
        }
    }

    /// Put a handle back into the vacant slot it was taken from.
    fn restore(&mut self, index: usize, sink: S)
        requires
            old(self).wf(),
            index < old(self).slots().len(),
            old(self).slots()[index as int].handle is None,
        ensures
            final(self).wf(),
            final(self).slots() == old(self).slots().update(
                index as int,
                Slot { id: old(self).slots()[index as int].id, handle: Some(sink) },
            ),
            final(self).cursor() == old(self).cursor(),
    {
        let id = self.sinks[index].id;
        self.sinks[index] = Slot { id, handle: Some(sink) };
        proof {
            lemma_same_ids_unique(old(self).slots(), self.slots());
        }
    }
}

/// Two slot sequences of equal length and identical identifiers are unique
/// together.
proof fn lemma_same_ids_unique<S>(a: Seq<Slot<S>>, b: Seq<Slot<S>>)
    requires
        ids_unique(a),
        a.len() == b.len(),
        forall|i: int| 0 <= i < a.len() ==> a[i].id == b[i].id,
    ensures
        ids_unique(b),
{
    assert forall|i: int, j: int| 0 <= i < j < b.len() implies b[i].id != b[j].id by {
        assert(a[i].id != a[j].id);
    }
}

/// When every message of the sequence is valid in turn, the valid prefix is
/// the whole sequence.
proof fn lemma_valid_count_total<S>(
    slots: Seq<Slot<S>>,
    cursor: int,
    msgs: Seq<ControlMessage<S>>,
    k: int,
)
    requires
        k == msgs.len(),
        valid_count(slots, cursor, msgs.take(k)) == k,
    ensures
        valid_count(slots, cursor, msgs) == k,
{
    assert(msgs.take(k) =~= msgs);
}

/// When the first `k` messages are valid and message `k` is not, the valid
/// prefix of the whole sequence has length `k`.
proof fn lemma_valid_count_stops<S>(
    slots: Seq<Slot<S>>,
    cursor: int,
    msgs: Seq<ControlMessage<S>>,
    k: int,
)
    requires
        0 <= k < msgs.len(),
        valid_count(slots, cursor, msgs.take(k)) == k,
        !msg_valid(run_state(slots, cursor, msgs.take(k)).0, msgs[k]),
    ensures
        valid_count(slots, cursor, msgs) == k,
    decreases msgs.len(),
{
    if msgs.len() == k + 1 {
        assert(msgs.drop_last() =~= msgs.take(k));
        assert(msgs.last() == msgs[k]);
    } else {
        assert(msgs.drop_last().take(k) =~= msgs.take(k));
        assert(msgs.drop_last()[k] == msgs[k]);
        lemma_valid_count_stops(slots, cursor, msgs.drop_last(), k);
        assert(valid_count(slots, cursor, msgs.drop_last()) == k);
        assert(k < msgs.len() - 1);
    }
}

} // verus!
