//! The broadcast laws: what the fanout guarantees over whole sweeps, proved
//! against spec-level replays of the readiness and broadcast sweeps. The
//! replays compose the step contracts (`poll_ready_step`,
//! `finish_ready_step`, `sweep_step`, `finish_send`, the failure policy) the
//! way the driver does, so each law quantifies over every behaviour the
//! downstream outputs could show.

use vstd::prelude::*;

use crate::fanout::{Fanout, SinkPoll};
use crate::slot::{contains_id, ids_unique, index_of_id, lemma_index_of_id, lemma_remove_keeps_unique, Slot};

verus! {

/// How a whole readiness sweep ends.
pub enum ReadyVerdict {
    /// Every output confirmed readiness.
    Ready,
    /// Some output is pending or mid-replacement (or the driver has no
    /// further outcome yet): the broadcast waits.
    Pending,
    /// The only remaining output failed its readiness check.
    Failed,
}

/// A whole readiness sweep, replayed over the outcomes the polled outputs
/// report, in the order the sweep reaches them: the composition of
/// `poll_ready_step` and `finish_ready_step` that the driver runs. A sweep
/// that runs out of reported outcomes is still waiting.
pub open spec fn ready_sweep<S>(
    slots: Seq<Slot<S>>,
    cursor: int,
    outcomes: Seq<SinkPoll>,
) -> ReadyVerdict
    decreases outcomes.len(),
{
    if cursor >= slots.len() {
        ReadyVerdict::Ready
    } else if slots[cursor].handle is None {
        ReadyVerdict::Pending
    } else if outcomes.len() == 0 {
        ReadyVerdict::Pending
    } else {
        match outcomes.first() {
            SinkPoll::Pending => ReadyVerdict::Pending,
            SinkPoll::Success => ready_sweep(slots, cursor + 1, outcomes.drop_first()),
            SinkPoll::Failure => if slots.len() == 1 {
                ReadyVerdict::Failed
            } else {
                ready_sweep(slots.remove(cursor), cursor, outcomes.drop_first())
            },
        }
    }
}

/// Whether a whole broadcast sweep from `index` succeeds when exactly the
/// outputs whose identifiers lie in `bad` reject the item: the composition
/// of `sweep_step`, `finish_send` and the failure policy.
pub open spec fn broadcast_succeeds<S>(slots: Seq<Slot<S>>, index: int, bad: Set<u64>) -> bool
    decreases slots.len() - index,
{
    if index < 0 || index >= slots.len() {
        true
    } else if slots[index].handle is None {
        broadcast_succeeds(slots, index + 1, bad)
    } else if !bad.contains(slots[index].id) {
        broadcast_succeeds(slots, index + 1, bad)
    } else if slots.len() == 1 {
        false
    } else {
        broadcast_succeeds(slots.remove(index), index, bad)
    }
}

/// How many copies of the item the output named `x` receives in that same
/// broadcast sweep: one each time a present slot carrying `x` accepts it.
pub open spec fn broadcast_deliveries<S>(
    slots: Seq<Slot<S>>,
    index: int,
    bad: Set<u64>,
    x: u64,
) -> nat
    decreases slots.len() - index,
{
    if index < 0 || index >= slots.len() {
        0
    } else if slots[index].handle is None {
        broadcast_deliveries(slots, index + 1, bad, x)
    } else if !bad.contains(slots[index].id) {
        (if slots[index].id == x {
            1nat
        } else {
            0nat
        }) + broadcast_deliveries(slots, index + 1, bad, x)
    } else if slots.len() == 1 {
        0
    } else {
        broadcast_deliveries(slots.remove(index), index, bad, x)
    }
}

/// No slot at or after `index` carries `x`, so the sweep delivers nothing to
/// that output.
proof fn lemma_deliveries_absent<S>(slots: Seq<Slot<S>>, index: int, bad: Set<u64>, x: u64)
    requires
        forall|p: int| index <= p < slots.len() ==> slots[p].id != x,
    ensures
        broadcast_deliveries(slots, index, bad, x) == 0,
    decreases slots.len() - index,
{
    if 0 <= index < slots.len() {
        if slots[index].handle is None || !bad.contains(slots[index].id) {
            lemma_deliveries_absent(slots, index + 1, bad, x);
        } else if slots.len() > 1 {
            let r = slots.remove(index);
            assert forall|p: int| index <= p < r.len() implies r[p].id != x by {
                assert(r[p] == slots[p + 1]);
            }
            lemma_deliveries_absent(r, index, bad, x);
        }
    }
}

/// Exactly once: whichever outputs fail and wherever they stand, a broadcast
/// sweep hands the item to every present output that accepts it exactly one
/// time — never zero, never twice.
pub proof fn lemma_broadcast_delivers_exactly_once<S>(
    slots: Seq<Slot<S>>,
    index: int,
    bad: Set<u64>,
    j: int,
)
    requires
        ids_unique(slots),
        0 <= index <= j < slots.len(),
        slots[j].present(),
        !bad.contains(slots[j].id),
    ensures
        broadcast_deliveries(slots, index, bad, slots[j].id) == 1,
    decreases slots.len() - index,
{
    let x = slots[j].id;
    if index == j {
        assert(forall|p: int| index + 1 <= p < slots.len() ==> slots[p].id != x);
        lemma_deliveries_absent(slots, index + 1, bad, x);
    } else if slots[index].handle is None || !bad.contains(slots[index].id) {
        assert(slots[index].id != x);
        lemma_broadcast_delivers_exactly_once(slots, index + 1, bad, j);
    } else {
        let r = slots.remove(index);
        lemma_remove_keeps_unique(slots, index);
        assert(r[j - 1] == slots[j]);
        lemma_broadcast_delivers_exactly_once(r, index, bad, j - 1);
    }
}

/// The failure policy keeps survivors flowing: as long as one output that
/// does not fail remains registered — present and accepting, or even just
/// mid-replacement — the broadcast as a whole succeeds, no matter how many
/// outputs fail or where they stand.
pub proof fn lemma_failure_policy_spares_survivors<S>(
    slots: Seq<Slot<S>>,
    index: int,
    bad: Set<u64>,
    j: int,
)
    requires
        0 <= index <= slots.len(),
        0 <= j < slots.len(),
        slots[j].handle is None || !bad.contains(slots[j].id),
    ensures
        broadcast_succeeds(slots, index, bad),
    decreases slots.len() - index,
{
    if index < slots.len() {
        if slots[index].handle is None || !bad.contains(slots[index].id) {
            lemma_failure_policy_spares_survivors(slots, index + 1, bad, j);
        } else {
            assert(j != index);
            assert(slots.len() > 1);
            let r = slots.remove(index);
            let j2 = if j > index {
                j - 1
            } else {
                j
            };
            assert(r[j2] == slots[j]);
            lemma_failure_policy_spares_survivors(r, index, bad, j2);
        }
    }
}

/// Registering a new output leaves every older output's deliveries exactly
/// as they were, and the new output receives each later item exactly once:
/// outputs registered before item `k` see items `1..`, the new one sees
/// `k..` only.
pub proof fn lemma_added_output_receives_from_now_on<S>(
    slots: Seq<Slot<S>>,
    id: u64,
    sink: S,
    bad: Set<u64>,
    j: int,
)
    requires
        ids_unique(slots),
        !contains_id(slots, id),
        !bad.contains(id),
        0 <= j < slots.len(),
        slots[j].present(),
        !bad.contains(slots[j].id),
    ensures
        ({
            let grown = slots.push(Slot { id, handle: Some(sink) });
            &&& broadcast_deliveries(grown, 0, bad, id) == 1
            &&& broadcast_deliveries(grown, 0, bad, slots[j].id) == 1
            &&& broadcast_succeeds(grown, 0, bad)
        }),
{
    let grown = slots.push(Slot { id, handle: Some(sink) });
    assert forall|a: int, b: int| 0 <= a < b < grown.len() implies grown[a].id != grown[b].id by {
        if b < grown.len() - 1 {
            assert(slots[a].id != slots[b].id);
        } else {
            assert(slots[a].id != id);
        }
    }
    assert(grown[slots.len() as int].present());
    lemma_broadcast_delivers_exactly_once(grown, 0, bad, slots.len() as int);
    assert(grown[j] == slots[j]);
    lemma_broadcast_delivers_exactly_once(grown, 0, bad, j);
    lemma_failure_policy_spares_survivors(grown, 0, bad, j);
}

/// Retiring an output stops its deliveries at once and leaves every
/// remaining present output's deliveries exactly as they were: the removed
/// output sees only the items sent before the removal, the rest keep
/// receiving every item.
pub proof fn lemma_removed_output_stops_receiving<S>(
    slots: Seq<Slot<S>>,
    id: u64,
    bad: Set<u64>,
    j: int,
)
    requires
        ids_unique(slots),
        contains_id(slots, id),
        0 <= j < slots.len(),
        slots[j].present(),
        !bad.contains(slots[j].id),
        slots[j].id != id,
    ensures
        ({
            let shrunk = slots.remove(index_of_id(slots, id));
            &&& broadcast_deliveries(shrunk, 0, bad, id) == 0
            &&& broadcast_deliveries(shrunk, 0, bad, slots[j].id) == 1
        }),
{
    let k = index_of_id(slots, id);
    assert(0 <= k < slots.len() && slots[k].id == id);
    let shrunk = slots.remove(k);
    lemma_remove_keeps_unique(slots, k);
    assert forall|p: int| 0 <= p < shrunk.len() implies shrunk[p].id != id by {
        let p0 = if p < k {
            p
        } else {
            p + 1
        };
        assert(shrunk[p] == slots[p0]);
        lemma_index_of_id(slots, id, k);
        if slots[p0].id == id {
            lemma_index_of_id(slots, id, p0);
        }
    }
    lemma_deliveries_absent(shrunk, 0, bad, id);
    let j2 = if j > k {
        j - 1
    } else {
        j
    };
    assert(shrunk[j2] == slots[j]);
    lemma_broadcast_delivers_exactly_once(shrunk, 0, bad, j2);
}

/// With zero outputs registered the protocol is trivially satisfied: every
/// readiness sweep reports ready at once, every broadcast sweep succeeds,
/// and no output receives anything — items are accepted and discarded.
pub proof fn lemma_no_outputs_always_ready<S>(f: Fanout<S>)
    requires
        f.wf(),
        f.slots().len() == 0,
    ensures
        f.cursor() == 0,
        forall|outcomes: Seq<SinkPoll>|
            ready_sweep(f.slots(), f.cursor(), outcomes) == ReadyVerdict::Ready,
        forall|bad: Set<u64>| #[trigger] broadcast_succeeds(f.slots(), 0, bad),
        forall|bad: Set<u64>, x: u64| broadcast_deliveries(f.slots(), 0, bad, x) == 0,
{
}

/// Backpressure propagates: while every output ahead of the cursor is
/// present, one output reporting pending at its turn — say, one at capacity
/// — suspends the whole readiness sweep, so nothing is broadcast yet.
pub proof fn lemma_pending_output_suspends_sweep<S>(
    slots: Seq<Slot<S>>,
    cursor: int,
    outcomes: Seq<SinkPoll>,
    q: int,
)
    requires
        0 <= cursor,
        cursor + q < slots.len(),
        forall|p: int| cursor <= p < slots.len() ==> slots[p].present(),
        0 <= q < outcomes.len(),
        outcomes[q] == SinkPoll::Pending,
        forall|t: int| 0 <= t < q ==> outcomes[t] == SinkPoll::Success,
    ensures
        ready_sweep(slots, cursor, outcomes) == ReadyVerdict::Pending,
    decreases q,
{
    if q > 0 {
        assert(outcomes.first() == outcomes[0]);
        let rest = outcomes.drop_first();
        assert(rest[q - 1] == outcomes[q]);
        assert(forall|t: int| 0 <= t < q - 1 ==> rest[t] == outcomes[t + 1]);
        lemma_pending_output_suspends_sweep(slots, cursor + 1, rest, q - 1);
    }
}

/// And it resolves: once every output ahead of the cursor is present and
/// reports ready in turn — say, after the output at capacity has drained —
/// the sweep completes and the held-back item can be broadcast.
pub proof fn lemma_all_ready_completes_sweep<S>(
    slots: Seq<Slot<S>>,
    cursor: int,
    outcomes: Seq<SinkPoll>,
)
    requires
        0 <= cursor <= slots.len(),
        forall|p: int| cursor <= p < slots.len() ==> slots[p].present(),
        outcomes.len() >= slots.len() - cursor,
        forall|q: int| 0 <= q < outcomes.len() ==> outcomes[q] == SinkPoll::Success,
    ensures
        ready_sweep(slots, cursor, outcomes) == ReadyVerdict::Ready,
    decreases slots.len() - cursor,
{
    if cursor < slots.len() {
        assert(outcomes.first() == outcomes[0]);
        let rest = outcomes.drop_first();
        assert(forall|q: int| 0 <= q < rest.len() ==> rest[q] == outcomes[q + 1]);
        lemma_all_ready_completes_sweep(slots, cursor + 1, rest);
    }
}

/// A mid-replacement slot at or past the cursor keeps the whole broadcast
/// from becoming ready, whatever every other output reports: the readiness
/// sweep can only wait for the replacement to be installed.
pub proof fn lemma_replacement_blocks_every_sweep<S>(
    slots: Seq<Slot<S>>,
    cursor: int,
    outcomes: Seq<SinkPoll>,
    j: int,
)
    requires
        0 <= cursor <= j < slots.len(),
        slots[j].handle is None,
    ensures
        ready_sweep(slots, cursor, outcomes) == ReadyVerdict::Pending,
    decreases outcomes.len(),
{
    if slots[cursor].handle is Some && outcomes.len() > 0 {
        assert(cursor != j);
        match outcomes.first() {
            SinkPoll::Pending => {},
            SinkPoll::Success => {
                lemma_replacement_blocks_every_sweep(slots, cursor + 1, outcomes.drop_first(), j);
            },
            SinkPoll::Failure => {
                assert(slots.len() > 1);
                let r = slots.remove(cursor);
                assert(r[j - 1] == slots[j]);
                lemma_replacement_blocks_every_sweep(r, cursor, outcomes.drop_first(), j - 1);
            },
        }
    }
}

} // verus!
