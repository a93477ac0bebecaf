//! Output slots: the record the fanout keeps for one registered output, and
//! the spec-level vocabulary the contracts are written in.

use vstd::prelude::*;

verus! {

/// One output's record: its identifier and, when the output is not
/// mid-replacement, the owned handle to its consumer.
pub struct Slot<S> {
    /// Identifier of the output, unique across all slots of one fanout.
    pub id: u64,
    /// The consumer handle. `None` marks a replacement window: the output is
    /// acknowledged by the topology but cannot accept items yet.
    pub handle: Option<S>,
}

impl<S> Slot<S> {
    /// A slot is present when it holds a handle, i.e. it is not
    /// mid-replacement.
    pub open spec fn present(self) -> bool {
        self.handle is Some
    }
}

/// No two slots share an identifier.
pub open spec fn ids_unique<S>(slots: Seq<Slot<S>>) -> bool {
    forall|i: int, j: int| 0 <= i < j < slots.len() ==> slots[i].id != slots[j].id
}

/// Some slot carries the identifier.
pub open spec fn contains_id<S>(slots: Seq<Slot<S>>, id: u64) -> bool {
    exists|i: int| 0 <= i < slots.len() && slots[i].id == id
}

/// The index of the slot carrying the identifier (meaningful when
/// `contains_id` holds; unique when `ids_unique` holds).
pub open spec fn index_of_id<S>(slots: Seq<Slot<S>>, id: u64) -> int {
    choose|i: int| 0 <= i < slots.len() && slots[i].id == id
}

/// With unique identifiers, any slot carrying `id` stands at `index_of_id`.
pub proof fn lemma_index_of_id<S>(slots: Seq<Slot<S>>, id: u64, j: int)
    requires
        ids_unique(slots),
        0 <= j < slots.len(),
        slots[j].id == id,
    ensures
        index_of_id(slots, id) == j,
{
    assert(contains_id(slots, id));
    let k = index_of_id(slots, id);
    assert(0 <= k < slots.len() && slots[k].id == id);
    if k != j {
        if k < j {
            assert(slots[k].id != slots[j].id);
        } else {
            assert(slots[j].id != slots[k].id);
        }
    }
}

/// Removing one slot keeps the remaining identifiers unique.
pub proof fn lemma_remove_keeps_unique<S>(slots: Seq<Slot<S>>, j: int)
    requires
        ids_unique(slots),
        0 <= j < slots.len(),
    ensures
        ids_unique(slots.remove(j)),
{
    let r = slots.remove(j);
    assert forall|a: int, b: int| 0 <= a < b < r.len() implies r[a].id != r[b].id by {
        let a0 = if a < j { a } else { a + 1 };
        let b0 = if b < j { b } else { b + 1 };
        assert(r[a] == slots[a0]);
        assert(r[b] == slots[b0]);
        assert(slots[a0].id != slots[b0].id);
    }
}

} // verus!
