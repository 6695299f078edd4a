use vstd::prelude::*;

use crate::store::{
    advances, after_deregister, after_register, decide, lookup_of, lookups, marker_of, retains,
    snapshot_of, Decision, RefreshMode, SlotIndexMarker, SnapshotView, StoreView,
};

verus! {

/// Whether marker `x` comes no later than `y`: generation first, then state id.
pub open spec fn marker_le(x: SlotIndexMarker, y: SlotIndexMarker) -> bool {
    x.generation < y.generation || (x.generation == y.generation && x.state_id <= y.state_id)
}

/// Across any two steps of the store, the observed markers never go back:
/// `advances` composes, and it orders the markers by generation, then by
/// state id.
pub proof fn markers_are_monotonic(a: StoreView, b: StoreView, c: StoreView)
    requires
        advances(a, b),
        advances(b, c),
    ensures
        advances(a, c),
        marker_le(marker_of(a), marker_of(b)),
        marker_le(marker_of(a), marker_of(c)),
{
}

/// Within one generation, what a state retains of an earlier one is retained
/// by every later state too.
pub proof fn retains_is_transitive(a: StoreView, b: StoreView, c: StoreView)
    requires
        advances(a, b),
        advances(b, c),
        retains(a, b),
        retains(b, c),
    ensures
        retains(a, c),
{
    if a.generation == c.generation {
        assert forall|j: int| 0 <= j < a.slot_indices.len() implies {
            let id = #[trigger] a.slot_indices[j];
            &&& c.slot_indices.contains(id)
            &&& id < c.slots.len() && c.slots[id as int] is Some
            &&& c.slots[id as int].unwrap().multi == a.slots[id as int].unwrap().multi
            &&& c.slots[id as int].unwrap().path == a.slots[id as int].unwrap().path
            &&& (a.slots[id as int].unwrap().index is Some ==> c.slots[id as int].unwrap().index
                == a.slots[id as int].unwrap().index)
        } by {
            let id = a.slot_indices[j];
            let jb = choose|jb: int| 0 <= jb < b.slot_indices.len() && b.slot_indices[jb] == id;
            assert(b.slot_indices[jb] == id);
        }
    }
}

/// Every lookup of `lookups(m, ids)` is the lookup of one of `ids`.
proof fn lemma_lookup_source(m: StoreView, ids: Seq<usize>, i: int)
    requires
        0 <= i < lookups(m, ids).len(),
    ensures
        exists|j: int| 0 <= j < ids.len() && lookup_of(m, #[trigger] ids[j]) == Some(lookups(m, ids)[i]),
    decreases ids.len(),
{
    let rest = lookups(m, ids.drop_last());
    if i < rest.len() {
        lemma_lookup_source(m, ids.drop_last(), i);
        let j = choose|j: int|
            0 <= j < ids.drop_last().len() && lookup_of(m, #[trigger] ids.drop_last()[j]) == Some(rest[i]);
        assert(ids[j] == ids.drop_last()[j]);
    } else {
        assert(lookup_of(m, ids[ids.len() - 1]) == Some(lookups(m, ids)[i]));
    }
}

/// The lookup of each loaded slot among `ids` is in `lookups(m, ids)`.
proof fn lemma_lookup_present(m: StoreView, ids: Seq<usize>, j: int)
    requires
        0 <= j < ids.len(),
        lookup_of(m, ids[j]) is Some,
    ensures
        exists|i: int| 0 <= i < lookups(m, ids).len() && #[trigger] lookups(m, ids)[i] == lookup_of(m, ids[j]).unwrap(),
    decreases ids.len(),
{
    let rest = lookups(m, ids.drop_last());
    if j == ids.len() - 1 {
        assert(lookups(m, ids)[rest.len() as int] == lookup_of(m, ids[j]).unwrap());
    } else {
        assert(ids.drop_last()[j] == ids[j]);
        lemma_lookup_present(m, ids.drop_last(), j);
        let i = choose|i: int| 0 <= i < rest.len() && #[trigger] rest[i] == lookup_of(m, ids[j]).unwrap();
        assert(lookups(m, ids)[i] == rest[i]);
    }
}

/// A snapshot is consistent on its own: it carries its index's marker, and
/// each of its lookups is the lookup of a slot of that index. This is all a
/// caller may rely on after a plain replacement, which any other generation
/// in the caller's marker brings.
pub proof fn snapshot_is_self_consistent(m: StoreView, mode: RefreshMode, k: SlotIndexMarker)
    requires
        m.wf(),
    ensures
        snapshot_of(m).marker == marker_of(m),
        forall|i: int|
            0 <= i < snapshot_of(m).indices.len() ==> {
                let l = #[trigger] snapshot_of(m).indices[i];
                m.slot_indices.contains(l.id) && lookup_of(m, l.id) == Some(l)
            },
        m.initialized && k.generation != m.generation ==> decide(m, mode, Some(k)) == Decision::Replace,
{
    assert forall|i: int| 0 <= i < snapshot_of(m).indices.len() implies {
        let l = #[trigger] snapshot_of(m).indices[i];
        m.slot_indices.contains(l.id) && lookup_of(m, l.id) == Some(l)
    } by {
        lemma_lookup_source(m, m.slot_indices, i);
        let j = choose|j: int|
            0 <= j < m.slot_indices.len() && lookup_of(m, #[trigger] m.slot_indices[j]) == Some(
                lookups(m, m.slot_indices)[i],
            );
        assert(m.slot_indices[j] == snapshot_of(m).indices[i].id);
    }
}

/// Whether the `i`-th lookup of `x` has one in `y` with the same slot id,
/// kind and loaded index.
pub open spec fn kept_in(x: SnapshotView, y: SnapshotView, i: int) -> bool {
    exists|k: int|
        0 <= k < y.indices.len() && #[trigger] y.indices[k].id == x.indices[i].id && y.indices[k].multi
            == x.indices[i].multi && y.indices[k].index == x.indices[i].index
}

/// A stable replacement keeps every slot id of the caller's snapshot: where
/// a caller holds the snapshot of state `a` and a later state `b` answers its
/// marker with a stable replacement, each lookup of the old snapshot has one
/// in the new snapshot with the same slot id, kind and loaded index.
pub proof fn stable_replacement_keeps_slots(a: StoreView, b: StoreView, mode: RefreshMode)
    requires
        a.wf(),
        b.wf(),
        retains(a, b),
        decide(b, mode, Some(snapshot_of(a).marker)) == Decision::ReplaceStable,
    ensures
        forall|i: int| 0 <= i < snapshot_of(a).indices.len() ==> #[trigger] kept_in(snapshot_of(a), snapshot_of(b), i),
{
    assert forall|i: int| 0 <= i < snapshot_of(a).indices.len() implies #[trigger] kept_in(
        snapshot_of(a),
        snapshot_of(b),
        i,
    ) by {
        lemma_lookup_source(a, a.slot_indices, i);
        let l = snapshot_of(a).indices[i];
        let j = choose|j: int|
            0 <= j < a.slot_indices.len() && lookup_of(a, #[trigger] a.slot_indices[j]) == Some(l);
        let id = a.slot_indices[j];
        assert(b.slot_indices.contains(id));
        let jb = choose|jb: int| 0 <= jb < b.slot_indices.len() && b.slot_indices[jb] == id;
        lemma_lookup_present(b, b.slot_indices, jb);
        let k = choose|k: int|
            0 <= k < lookups(b, b.slot_indices).len() && #[trigger] lookups(b, b.slot_indices)[k]
                == lookup_of(b, b.slot_indices[jb]).unwrap();
        assert(snapshot_of(b).indices[k].id == l.id);
    }
}

/// Without a refresh, asking again with the marker of the current index
/// yields nothing new, however often it is asked.
pub proof fn no_refresh_is_idempotent(m: StoreView)
    requires
        m.initialized,
    ensures
        decide(m, RefreshMode::Never, Some(marker_of(m))) == Decision::Stop,
        decide(m, RefreshMode::Never, Some(snapshot_of(m).marker)) == Decision::Stop,
{
}

/// A handle coming or going: registered or deregistered, with or without
/// the need for stable slot ids.
pub struct HandleEvent {
    pub register: bool,
    pub stable: bool,
}

/// `m` after the handle events `evs`, in order.
pub open spec fn replay(m: StoreView, evs: Seq<HandleEvent>) -> StoreView
    decreases evs.len(),
{
    if evs.len() == 0 {
        m
    } else {
        let prev = replay(m, evs.drop_last());
        if evs.last().register {
            after_register(prev, evs.last().stable)
        } else {
            after_deregister(prev, evs.last().stable)
        }
    }
}

/// How many handles `evs` leaves live; only stable ones where `stable_only`.
pub open spec fn live(evs: Seq<HandleEvent>, stable_only: bool) -> int
    decreases evs.len(),
{
    if evs.len() == 0 {
        0
    } else {
        let prev = live(evs.drop_last(), stable_only);
        if stable_only && !evs.last().stable {
            prev
        } else if evs.last().register {
            prev + 1
        } else {
            prev - 1
        }
    }
}

/// Whether every deregistration in `evs` ends a handle of its kind that is live.
pub open spec fn well_paired(evs: Seq<HandleEvent>) -> bool
    decreases evs.len(),
{
    if evs.len() == 0 {
        true
    } else {
        let prev = evs.drop_last();
        let e = evs.last();
        well_paired(prev) && (e.register || if e.stable {
            live(prev, true) > 0
        } else {
            live(prev, false) - live(prev, true) > 0
        })
    }
}

proof fn lemma_replay_counts(m: StoreView, evs: Seq<HandleEvent>)
    requires
        m.num_handles == 0,
        m.num_handles_stable == 0,
        well_paired(evs),
        evs.len() < usize::MAX,
    ensures
        replay(m, evs).num_handles == live(evs, false),
        replay(m, evs).num_handles_stable == live(evs, true),
        0 <= live(evs, true) <= live(evs, false) <= evs.len(),
    decreases evs.len(),
{
    if evs.len() > 0 {
        lemma_replay_counts(m, evs.drop_last());
    }
}

/// Unloading is refused exactly while a handle that needs stable slot ids
/// is live: from a store without handles, after any sequence of handle
/// registrations and matching deregistrations, packs may be unloaded if and
/// only if every stable handle registered was deregistered again.
pub proof fn unload_waits_for_stable_handles(m: StoreView, evs: Seq<HandleEvent>)
    requires
        m.num_handles == 0,
        m.num_handles_stable == 0,
        well_paired(evs),
        evs.len() < usize::MAX,
    ensures
        (replay(m, evs).num_handles_stable == 0) <==> live(evs, true) == 0,
        replay(m, evs).num_handles == live(evs, false),
{
    lemma_replay_counts(m, evs);
}

} // verus!
