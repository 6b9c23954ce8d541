//! Reservation accounting: counters balance over paired operations, and an
//! entry published as unhealthy is never handed out.

use vstd::prelude::*;
use crate::backend::BackendStatus;
use crate::history::{lemma_length_is_constant, lemma_selected_frame, times_released, PoolEvent};
use crate::model::PoolView;

verus! {

/// Whether the event publishes a status for entry `index`.
pub open spec fn publishes_for(event: PoolEvent, index: int) -> bool {
    match event {
        PoolEvent::Publish { index: target, .. } => target == index,
        _ => false,
    }
}

/// Whether, at every point of the sequence, entry `index` has been released
/// no more often than it has been handed out.
pub open spec fn never_over_released(pool: PoolView, events: Seq<PoolEvent>, index: int) -> bool {
    forall|n: int|
        0 <= n <= events.len() ==> times_released(#[trigger] events.take(n), index)
            <= pool.times_chosen(events.take(n), index)
}

/// Whether the sequence pairs every selection with one later release of the
/// entry it handed out, and holds no other release.
pub open spec fn paired(pool: PoolView, events: Seq<PoolEvent>) -> bool {
    forall|index: int|
        0 <= index < pool.entries.len() ==> {
            &&& never_over_released(pool, events, index)
            &&& times_released(events, index) == #[trigger] pool.times_chosen(events, index)
        }
}

/// As long as an entry is never released more often than handed out, its
/// counter is where it started, plus the selections, minus the releases.
pub proof fn lemma_counter_balance(pool: PoolView, events: Seq<PoolEvent>, index: int)
    requires
        0 <= index < pool.entries.len(),
        never_over_released(pool, events, index),
        pool.entries[index].inflight + events.len() <= u32::MAX,
    ensures
        pool.after(events).entries[index].inflight == pool.entries[index].inflight
            + pool.times_chosen(events, index) - times_released(events, index),
        pool.times_chosen(events, index) <= events.len(),
    decreases events.len(),
{
    if events.len() > 0 {
        let earlier = events.drop_last();
        assert forall|n: int| 0 <= n <= earlier.len() implies times_released(
            #[trigger] earlier.take(n),
            index,
        ) <= pool.times_chosen(earlier.take(n), index) by {
            assert(earlier.take(n) =~= events.take(n));
        }
        lemma_counter_balance(pool, earlier, index);
        lemma_length_is_constant(pool, earlier);
        assert(events.take(earlier.len() as int) =~= earlier);
        assert(events.take(events.len() as int) =~= events);
        let state = pool.after(earlier);
        match events.last() {
            PoolEvent::Select { draw } => {
                lemma_selected_frame(state, draw);
            },
            PoolEvent::Release { index: target } => {},
            PoolEvent::Publish { index: target, status } => {},
        }
    }
}

/// As long as an entry is never released more often than handed out, its
/// counter never exceeds where it started, plus the selections, minus the
/// releases; and this whether or not the counter wraps on the way.
pub proof fn lemma_counter_bound(pool: PoolView, events: Seq<PoolEvent>, index: int)
    requires
        0 <= index < pool.entries.len(),
        never_over_released(pool, events, index),
    ensures
        pool.after(events).entries[index].inflight <= pool.entries[index].inflight
            + pool.times_chosen(events, index) - times_released(events, index),
    decreases events.len(),
{
    if events.len() > 0 {
        let earlier = events.drop_last();
        assert forall|n: int| 0 <= n <= earlier.len() implies times_released(
            #[trigger] earlier.take(n),
            index,
        ) <= pool.times_chosen(earlier.take(n), index) by {
            assert(earlier.take(n) =~= events.take(n));
        }
        lemma_counter_bound(pool, earlier, index);
        lemma_length_is_constant(pool, earlier);
        assert(events.take(earlier.len() as int) =~= earlier);
        assert(events.take(events.len() as int) =~= events);
        let state = pool.after(earlier);
        match events.last() {
            PoolEvent::Select { draw } => {
                lemma_selected_frame(state, draw);
            },
            PoolEvent::Release { index: target } => {},
            PoolEvent::Publish { index: target, status } => {},
        }
    }
}

/// After any sequence of paired selections and releases on an idle pool,
/// every counter is at zero again.
pub proof fn lemma_paired_operations_end_idle(pool: PoolView, events: Seq<PoolEvent>)
    requires
        paired(pool, events),
        forall|index: int|
            0 <= index < pool.entries.len() ==> (#[trigger] pool.entries[index]).inflight == 0,
    ensures
        pool.after(events).entries.len() == pool.entries.len(),
        forall|index: int|
            0 <= index < pool.entries.len() ==> (#[trigger] pool.after(
                events,
            ).entries[index]).inflight == 0,
{
    lemma_length_is_constant(pool, events);
    assert forall|index: int| 0 <= index < pool.entries.len() implies (#[trigger] pool.after(
        events,
    ).entries[index]).inflight == 0 by {
        assert(pool.times_chosen(events, index) == times_released(events, index));
        assert(pool.entries[index].inflight == 0);
        lemma_counter_bound(pool, events, index);
    }
}

/// After any sequence of paired selections and releases, every counter is
/// back where it started, provided the sequence is short enough for no
/// counter to wrap.
pub proof fn lemma_paired_operations_balance(pool: PoolView, events: Seq<PoolEvent>)
    requires
        paired(pool, events),
        forall|index: int|
            0 <= index < pool.entries.len() ==> (#[trigger] pool.entries[index]).inflight
                + events.len() <= u32::MAX,
    ensures
        pool.after(events).entries.len() == pool.entries.len(),
        forall|index: int|
            0 <= index < pool.entries.len() ==> (#[trigger] pool.after(
                events,
            ).entries[index]).inflight == pool.entries[index].inflight,
{
    lemma_length_is_constant(pool, events);
    assert forall|index: int| 0 <= index < pool.entries.len() implies (#[trigger] pool.after(
        events,
    ).entries[index]).inflight == pool.entries[index].inflight by {
        assert(pool.times_chosen(events, index) == times_released(events, index));
        lemma_counter_balance(pool, events, index);
    }
}

/// A selection directly followed by the release of what it handed out
/// leaves every counter as it was.
pub proof fn lemma_select_then_release(pool: PoolView, draw: int)
    requires
        forall|index: int|
            0 <= index < pool.entries.len() ==> (#[trigger] pool.entries[index]).inflight
                < u32::MAX,
    ensures
        match pool.selected(draw).0 {
            Some(index) => pool.selected(draw).1.released(index).entries == pool.entries,
            None => pool.selected(draw).1.entries == pool.entries,
        },
{
    lemma_selected_frame(pool, draw);
    match pool.selected(draw).0 {
        Some(index) => {
            assert(pool.selected(draw).1.released(index).entries =~= pool.entries);
        },
        None => {},
    }
}

/// A release never takes a counter below zero: a counter at zero stays at
/// zero, however many releases follow.
pub proof fn lemma_release_stops_at_zero(pool: PoolView, index: int)
    requires
        0 <= index < pool.entries.len(),
        pool.entries[index].inflight == 0,
    ensures
        pool.released(index).entries[index].inflight == 0,
        pool.released(index) == pool,
{
    assert(pool.released(index).entries =~= pool.entries);
}

/// Only `Healthy` entries are handed out.
pub proof fn lemma_only_healthy_is_chosen(pool: PoolView, draw: int)
    ensures
        match pool.selected(draw).0 {
            Some(index) => 0 <= index < pool.entries.len() && pool.entries[index].status
                == BackendStatus::Healthy,
            None => true,
        },
{
    lemma_selected_frame(pool, draw);
}

/// Once `Unhealthy` is published for an entry, no later selection hands it
/// out, whatever operations follow, until a status is published for it
/// again.
pub proof fn lemma_unhealthy_is_excluded(pool: PoolView, index: int, events: Seq<PoolEvent>)
    requires
        0 <= index < pool.entries.len(),
        forall|j: int| 0 <= j < events.len() ==> !publishes_for(#[trigger] events[j], index),
    ensures
        pool.with_status(index, BackendStatus::Unhealthy).after(events).entries[index].status
            == BackendStatus::Unhealthy,
        pool.with_status(index, BackendStatus::Unhealthy).times_chosen(events, index) == 0,
        forall|draw: int|
            pool.with_status(index, BackendStatus::Unhealthy).after(events).selected(draw).0
                != Some(index),
    decreases events.len(),
{
    let start = pool.with_status(index, BackendStatus::Unhealthy);
    lemma_length_is_constant(start, events);
    if events.len() > 0 {
        let earlier = events.drop_last();
        assert forall|j: int| 0 <= j < earlier.len() implies !publishes_for(
            #[trigger] earlier[j],
            index,
        ) by {
            assert(earlier[j] == events[j]);
        }
        lemma_unhealthy_is_excluded(pool, index, earlier);
        lemma_length_is_constant(start, earlier);
        let state = start.after(earlier);
        assert(!publishes_for(events[events.len() - 1], index));
        match events.last() {
            PoolEvent::Select { draw } => {
                lemma_selected_frame(state, draw);
            },
            PoolEvent::Release { index: target } => {},
            PoolEvent::Publish { index: target, status } => {},
        }
    }
    let last = start.after(events);
    assert forall|draw: int| last.selected(draw).0 != Some(index) by {
        lemma_selected_frame(last, draw);
    }
}

} // verus!
