//! Sequences of pool operations, and what every such sequence preserves.

use vstd::prelude::*;
use crate::backend::BackendStatus;
use crate::model::{
    expand, fingerprint, healthy_view, least_loaded, resolve, EntryView, PoolView,
};
use crate::backend::pool::{lemma_healthy_upto, lemma_healthy_upto_prefix};

verus! {

/// One operation on the pool.
pub enum PoolEvent {
    /// A select-and-reserve; `draw` is what the random policy drew.
    Select { draw: int },
    /// A release of the entry at `index`.
    Release { index: int },
    /// The publication of `status` for the entry at `index`.
    Publish { index: int, status: BackendStatus },
}

/// The selection with the given draw, as an operation.
pub open spec fn select_event(draw: int) -> PoolEvent {
    PoolEvent::Select { draw }
}

impl PoolView {
    /// The state after one operation.
    pub open spec fn step(self, event: PoolEvent) -> PoolView {
        match event {
            PoolEvent::Select { draw } => self.selected(draw).1,
            PoolEvent::Release { index } => self.released(index),
            PoolEvent::Publish { index, status } => self.with_status(index, status),
        }
    }

    /// The entry that one operation hands out: a selection's pick, nothing
    /// for the others.
    pub open spec fn outcome(self, event: PoolEvent) -> Option<int> {
        match event {
            PoolEvent::Select { draw } => self.selected(draw).0,
            _ => None,
        }
    }

    /// The state after a sequence of operations, first to last.
    pub open spec fn after(self, events: Seq<PoolEvent>) -> PoolView
        decreases events.len(),
    {
        if events.len() == 0 {
            self
        } else {
            self.after(events.drop_last()).step(events.last())
        }
    }

    /// How many operations of the sequence handed out entry `index`.
    pub open spec fn times_chosen(self, events: Seq<PoolEvent>, index: int) -> nat
        decreases events.len(),
    {
        if events.len() == 0 {
            0
        } else {
            let earlier = self.times_chosen(events.drop_last(), index);
            if self.after(events.drop_last()).outcome(events.last()) == Some(index) {
                earlier + 1
            } else {
                earlier
            }
        }
    }
}

/// How many operations of the sequence release entry `index`.
pub open spec fn times_released(events: Seq<PoolEvent>, index: int) -> nat
    decreases events.len(),
{
    if events.len() == 0 {
        0
    } else {
        let earlier = times_released(events.drop_last(), index);
        if events.last() == (PoolEvent::Release { index }) {
            earlier + 1
        } else {
            earlier
        }
    }
}

/// Whether every operation of the sequence is a selection.
pub open spec fn only_selections(events: Seq<PoolEvent>) -> bool {
    forall|j: int| 0 <= j < events.len() ==> #[trigger] events[j] is Select
}

/// Whether two snapshots hold the same backends with the same statuses;
/// the counters may differ.
pub open spec fn same_backends(a: Seq<EntryView>, b: Seq<EntryView>) -> bool {
    &&& a.len() == b.len()
    &&& forall|j: int|
        0 <= j < a.len() ==> (#[trigger] a[j]).backend == b[j].backend && a[j].status
            == b[j].status
}

/// Whether place `place` of the view holds an entry that carries no more
/// reserved requests than any entry of the view, and fewer than every entry
/// before it.
pub open spec fn first_least_loaded_at(entries: Seq<EntryView>, view: Seq<int>, place: int) -> bool {
    &&& 0 <= place < view.len()
    &&& forall|j: int|
        0 <= j < view.len() ==> entries[view[place]].inflight <= entries[#[trigger] view[j]].inflight
    &&& forall|j: int|
        0 <= j < place ==> entries[view[place]].inflight < entries[#[trigger] view[j]].inflight
}

/// The least loaded entry of a non-empty view is one of the view: the
/// first of those with the fewest reserved requests.
pub proof fn lemma_least_loaded_member(entries: Seq<EntryView>, view: Seq<int>)
    requires
        view.len() > 0,
    ensures
        view.contains(least_loaded(entries, view)),
        exists|place: int|
            first_least_loaded_at(entries, view, place) && #[trigger] view[place] == least_loaded(
                entries,
                view,
            ),
    decreases view.len(),
{
    if view.len() <= 1 {
        assert(view[0] == least_loaded(entries, view));
        assert(first_least_loaded_at(entries, view, 0));
    } else {
        let shorter = view.drop_last();
        lemma_least_loaded_member(entries, shorter);
        let best = least_loaded(entries, shorter);
        let place = choose|place: int|
            first_least_loaded_at(entries, shorter, place) && #[trigger] shorter[place] == best;
        assert(view[place] == best);
        let end = view.len() - 1;
        assert(view[end] == view.last());
        assert forall|j: int| 0 <= j < shorter.len() implies entries[best].inflight
            <= entries[#[trigger] view[j]].inflight by {
            assert(shorter[j] == view[j]);
        }
        if entries[view.last()].inflight < entries[best].inflight {
            assert(first_least_loaded_at(entries, view, end));
        } else {
            assert forall|j: int| 0 <= j < place implies entries[view[place]].inflight
                < entries[#[trigger] view[j]].inflight by {
                assert(shorter[j] == view[j]);
            }
            assert(first_least_loaded_at(entries, view, place));
        }
    }
}

/// A resolved name names an entry of the view, and that entry carries it.
pub proof fn lemma_resolve_member(
    entries: Seq<EntryView>,
    view: Seq<int>,
    name: Seq<char>,
    from: int,
)
    requires
        0 <= from,
    ensures
        resolve(entries, view, name, from) is Some ==> {
            &&& view.contains(resolve(entries, view, name, from)->0)
            &&& entries[resolve(entries, view, name, from)->0].backend.name == name
        },
    decreases view.len() - from,
{
    if from < view.len() {
        if entries[view[from]].backend.name == name {
            assert(view[from] == resolve(entries, view, name, from)->0);
        } else {
            lemma_resolve_member(entries, view, name, from + 1);
        }
    }
}

/// The healthy view reads statuses only.
pub proof fn lemma_healthy_view_frame(a: Seq<EntryView>, b: Seq<EntryView>)
    requires
        same_backends(a, b),
    ensures
        healthy_view(a) == healthy_view(b),
{
    lemma_healthy_upto_prefix(a, b, a.len() as int);
}

/// The expanded list, the fingerprint and name resolution read backends
/// only.
pub proof fn lemma_names_frame(a: Seq<EntryView>, b: Seq<EntryView>, view: Seq<int>)
    requires
        same_backends(a, b),
        forall|j: int| 0 <= j < view.len() ==> 0 <= #[trigger] view[j] < a.len(),
    ensures
        expand(a, view) == expand(b, view),
        fingerprint(a, view) == fingerprint(b, view),
    decreases view.len(),
{
    if view.len() > 0 {
        let shorter = view.drop_last();
        assert forall|j: int| 0 <= j < shorter.len() implies 0 <= #[trigger] shorter[j]
            < a.len() by {
            assert(shorter[j] == view[j]);
        }
        lemma_names_frame(a, b, shorter);
        assert(view.last() == view[view.len() - 1]);
    }
}

/// Name resolution reads backends only.
pub proof fn lemma_resolve_frame(
    a: Seq<EntryView>,
    b: Seq<EntryView>,
    view: Seq<int>,
    name: Seq<char>,
    from: int,
)
    requires
        same_backends(a, b),
        0 <= from,
        forall|j: int| 0 <= j < view.len() ==> 0 <= #[trigger] view[j] < a.len(),
    ensures
        resolve(a, view, name, from) == resolve(b, view, name, from),
    decreases view.len() - from,
{
    if from < view.len() {
        lemma_resolve_frame(a, b, view, name, from + 1);
    }
}

/// What the policy's pick leaves alone: the snapshot and the policy. What
/// it picks is an entry of the healthy view.
pub proof fn lemma_pick_frame(pool: PoolView, draw: int)
    ensures
        pool.pick(draw).1.entries == pool.entries,
        pool.pick(draw).1.strategy == pool.strategy,
        pool.pick(draw).0 is Some ==> pool.healthy().contains(pool.pick(draw).0->0),
{
    let view = pool.healthy();
    if view.len() > 0 {
        lemma_least_loaded_member(pool.entries, view);
        let size = view.len() as int;
        assert(0 <= draw % size < size);
        assert(0 <= pool.cursor as int % size < size);
        let fresh = pool.refreshed(view);
        if fresh.expanded.len() > 0 {
            let name = fresh.expanded[fresh.cursor as int % fresh.expanded.len() as int];
            lemma_resolve_member(fresh.entries, view, name, 0);
        }
    }
}

/// A selection changes one counter at most: that of the entry it hands
/// out, which is a `Healthy` entry of the snapshot.
pub proof fn lemma_selected_frame(pool: PoolView, draw: int)
    ensures
        same_backends(pool.entries, pool.selected(draw).1.entries),
        pool.selected(draw).1.strategy == pool.strategy,
        pool.selected(draw).1.healthy() == pool.healthy(),
        pool.selected(draw).0 == pool.pick(draw).0,
        match pool.selected(draw).0 {
            Some(index) => {
                &&& 0 <= index < pool.entries.len()
                &&& pool.healthy().contains(index)
                &&& pool.entries[index].status == BackendStatus::Healthy
                &&& pool.selected(draw).1.entries == pool.entries.update(
                    index,
                    EntryView {
                        inflight: crate::model::incremented(pool.entries[index].inflight),
                        ..pool.entries[index]
                    },
                )
            },
            None => pool.selected(draw).1.entries == pool.entries,
        },
{
    lemma_pick_frame(pool, draw);
    lemma_healthy_upto(pool.entries, pool.entries.len() as int);
    let choice = pool.pick(draw).0;
    if choice is Some {
        let index = choice->0;
        let view = pool.healthy();
        let slot = choose|slot: int| 0 <= slot < view.len() && view[slot] == index;
        assert(0 <= view[slot] < pool.entries.len());
        assert(pool.entries[view[slot]].status == BackendStatus::Healthy);
    }
    lemma_healthy_view_frame(pool.entries, pool.selected(draw).1.entries);
}

/// Every operation keeps the snapshot's length, its backends and its
/// policy; only a publication changes a status.
pub proof fn lemma_step_frame(pool: PoolView, event: PoolEvent)
    ensures
        pool.step(event).entries.len() == pool.entries.len(),
        pool.step(event).strategy == pool.strategy,
        forall|j: int|
            0 <= j < pool.entries.len() ==> (#[trigger] pool.step(event).entries[j]).backend
                == pool.entries[j].backend,
        !(event is Publish) ==> same_backends(pool.entries, pool.step(event).entries),
{
    match event {
        PoolEvent::Select { draw } => {
            lemma_selected_frame(pool, draw);
        },
        _ => {},
    }
}

/// The snapshot never shrinks or grows, whatever the operations.
pub proof fn lemma_length_is_constant(pool: PoolView, events: Seq<PoolEvent>)
    ensures
        pool.after(events).entries.len() == pool.entries.len(),
        pool.after(events).strategy == pool.strategy,
    decreases events.len(),
{
    if events.len() > 0 {
        lemma_length_is_constant(pool, events.drop_last());
        lemma_step_frame(pool.after(events.drop_last()), events.last());
    }
}

/// One more operation at the end of a sequence is one more step from the
/// state the sequence led to, and counts once where it hands out or
/// releases the entry asked about. With it a caller follows a loop of calls:
/// each call's contract gives one step, and this lemma appends it.
pub proof fn lemma_one_more(pool: PoolView, events: Seq<PoolEvent>, event: PoolEvent, index: int)
    ensures
        pool.after(events.push(event)) == pool.after(events).step(event),
        pool.times_chosen(events.push(event), index) == pool.times_chosen(events, index) + if pool.after(
            events,
        ).outcome(event) == Some(index) {
            1nat
        } else {
            0nat
        },
        times_released(events.push(event), index) == times_released(events, index) + if event
            == (PoolEvent::Release { index }) {
            1nat
        } else {
            0nat
        },
        only_selections(events) && event is Select ==> only_selections(events.push(event)),
{
    assert(events.push(event).drop_last() =~= events);
    assert(events.push(event).last() == event);
}

} // verus!
