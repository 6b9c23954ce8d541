//! Fairness of the two cursor-driven policies over a stable healthy set.

use vstd::prelude::*;
use vstd::arithmetic::div_mod::{lemma_fundamental_div_mod, lemma_fundamental_div_mod_converse};
use crate::backend::LoadBalancingStrategy;
use crate::history::{
    lemma_names_frame, lemma_resolve_frame, lemma_resolve_member, lemma_selected_frame,
    only_selections, same_backends, PoolEvent,
};
use crate::model::{
    expand, expansion_current_or_due, repeated, resolve, total_weight, EntryView, PoolView,
};
use crate::backend::pool::lemma_healthy_upto;

verus! {

/// How many of the integers `0, .., x - 1` leave the remainder `slot` when
/// divided by `k`.
pub open spec fn turns_below(x: int, k: int, slot: int) -> int {
    x / k + if x % k > slot {
        1int
    } else {
        0int
    }
}

/// Quotient and remainder of the successor.
proof fn lemma_successor(x: int, k: int)
    requires
        0 <= x,
        0 < k,
    ensures
        0 <= x % k < k,
        x % k + 1 < k ==> (x + 1) / k == x / k && (x + 1) % k == x % k + 1,
        x % k + 1 == k ==> (x + 1) / k == x / k + 1 && (x + 1) % k == 0,
{
    lemma_fundamental_div_mod(x, k);
    vstd::arithmetic::div_mod::lemma_mod_bound(x, k);
    let q = x / k;
    let r = x % k;
    assert(k * q == q * k) by (nonlinear_arith);
    if r + 1 < k {
        lemma_fundamental_div_mod_converse(x + 1, k, q, r + 1);
    } else {
        assert((q + 1) * k == q * k + k) by (nonlinear_arith);
        lemma_fundamental_div_mod_converse(x + 1, k, q + 1, 0);
    }
}

/// Quotient and remainder of a sum, from those of its terms.
proof fn lemma_sum(c: int, n: int, k: int)
    requires
        0 <= c,
        0 <= n,
        0 < k,
    ensures
        0 <= c % k < k,
        0 <= n % k < k,
        c % k + n % k < k ==> (c + n) / k == c / k + n / k && (c + n) % k == c % k + n % k,
        c % k + n % k >= k ==> (c + n) / k == c / k + n / k + 1 && (c + n) % k == c % k + n % k
            - k,
{
    lemma_fundamental_div_mod(c, k);
    lemma_fundamental_div_mod(n, k);
    vstd::arithmetic::div_mod::lemma_mod_bound(c, k);
    vstd::arithmetic::div_mod::lemma_mod_bound(n, k);
    let q = c / k + n / k;
    let r = c % k + n % k;
    assert(k * (c / k) + k * (n / k) == q * k) by (nonlinear_arith)
        requires
            q == c / k + n / k,
    ;
    if r < k {
        lemma_fundamental_div_mod_converse(c + n, k, q, r);
    } else {
        assert((q + 1) * k == q * k + k) by (nonlinear_arith);
        lemma_fundamental_div_mod_converse(c + n, k, q + 1, r - k);
    }
}

/// Round-robin over a stable healthy set: after any run of selections the
/// cursor has advanced by their number, and the entry at place `slot` of
/// the healthy view was handed out once for each cursor value that pointed
/// at it.
pub proof fn lemma_round_robin_run(pool: PoolView, events: Seq<PoolEvent>, slot: int)
    requires
        pool.strategy == LoadBalancingStrategy::RoundRobin,
        only_selections(events),
        0 <= slot < pool.healthy().len(),
        pool.cursor + events.len() <= usize::MAX,
    ensures
        pool.after(events).cursor == pool.cursor + events.len(),
        pool.after(events).strategy == pool.strategy,
        pool.after(events).healthy() == pool.healthy(),
        pool.times_chosen(events, pool.healthy()[slot]) == turns_below(
            pool.cursor + events.len(),
            pool.healthy().len() as int,
            slot,
        ) - turns_below(pool.cursor as int, pool.healthy().len() as int, slot),
    decreases events.len(),
{
    if events.len() > 0 {
        let earlier = events.drop_last();
        assert forall|j: int| 0 <= j < earlier.len() implies #[trigger] earlier[j] is Select by {
            assert(earlier[j] == events[j]);
        }
        lemma_round_robin_run(pool, earlier, slot);
        let state = pool.after(earlier);
        let view = pool.healthy();
        let k = view.len() as int;
        let x = pool.cursor + earlier.len();
        assert(events[events.len() - 1] is Select);
        let draw = events.last()->draw;
        lemma_selected_frame(state, draw);
        lemma_successor(x, k);
        lemma_healthy_upto(pool.entries, pool.entries.len() as int);
        assert(state.cursor as int == x);
        assert(state.pick(draw).0 == Some(view[x % k]));
        assert(state.pick(draw).1.cursor == x + 1);
        assert(view[x % k] == view[slot] <==> x % k == slot) by {
            if x % k < slot {
                assert(view[x % k] < view[slot]);
            }
            if slot < x % k {
                assert(view[slot] < view[x % k]);
            }
        }
    }
}

/// Round-robin is fair: over any `n` selections on a stable healthy set of
/// size `k`, every healthy backend is handed out either `n / k` times,
/// rounded down, or `n / k` times, rounded up. The cursor must not wrap
/// within the run.
pub proof fn lemma_round_robin_is_fair(pool: PoolView, events: Seq<PoolEvent>, slot: int)
    requires
        pool.strategy == LoadBalancingStrategy::RoundRobin,
        only_selections(events),
        0 <= slot < pool.healthy().len(),
        pool.cursor + events.len() <= usize::MAX,
    ensures
        ({
            let n = events.len() as int;
            let k = pool.healthy().len() as int;
            let times = pool.times_chosen(events, pool.healthy()[slot]) as int;
            &&& n / k <= times <= n / k + 1
            &&& n % k == 0 ==> times == n / k
        }),
{
    lemma_round_robin_run(pool, events, slot);
    lemma_sum(pool.cursor as int, events.len() as int, pool.healthy().len() as int);
}

/// How often `name` occurs in `list`.
pub open spec fn occurrences(list: Seq<Seq<char>>, name: Seq<char>) -> nat
    decreases list.len(),
{
    if list.len() == 0 {
        0
    } else if list.last() == name {
        occurrences(list.drop_last(), name) + 1
    } else {
        occurrences(list.drop_last(), name)
    }
}

/// Whether the entries of the view carry pairwise different names.
pub open spec fn distinct_names(entries: Seq<EntryView>, view: Seq<int>) -> bool {
    forall|a: int, b: int|
        0 <= a < b < view.len() ==> entries[#[trigger] view[a]].backend.name
            != entries[#[trigger] view[b]].backend.name
}

proof fn lemma_occurrences_concat(a: Seq<Seq<char>>, b: Seq<Seq<char>>, name: Seq<char>)
    ensures
        occurrences(a + b, name) == occurrences(a, name) + occurrences(b, name),
    decreases b.len(),
{
    if b.len() == 0 {
        assert(a + b =~= a);
    } else {
        assert((a + b).drop_last() =~= a + b.drop_last());
        assert((a + b).last() == b.last());
        lemma_occurrences_concat(a, b.drop_last(), name);
    }
}

proof fn lemma_occurrences_repeated(item: Seq<char>, times: nat, name: Seq<char>)
    ensures
        occurrences(repeated(item, times), name) == if item == name {
            times
        } else {
            0
        },
    decreases times,
{
    if times > 0 {
        assert(repeated(item, times).drop_last() =~= repeated(item, (times - 1) as nat));
        lemma_occurrences_repeated(item, (times - 1) as nat, name);
    }
}

proof fn lemma_expand_absent(entries: Seq<EntryView>, view: Seq<int>, name: Seq<char>)
    requires
        forall|j: int| 0 <= j < view.len() ==> entries[#[trigger] view[j]].backend.name != name,
    ensures
        occurrences(expand(entries, view), name) == 0,
    decreases view.len(),
{
    if view.len() > 0 {
        let shorter = view.drop_last();
        assert forall|j: int| 0 <= j < shorter.len() implies entries[#[trigger] shorter[j]].backend.name
            != name by {
            assert(shorter[j] == view[j]);
        }
        lemma_expand_absent(entries, shorter, name);
        let last = entries[view.last()].backend;
        assert(view[view.len() - 1] == view.last());
        lemma_occurrences_repeated(last.name, last.weight as nat, name);
        lemma_occurrences_concat(
            expand(entries, shorter),
            repeated(last.name, last.weight as nat),
            name,
        );
    }
}

/// In the expansion of a view with distinct names, each entry's name occurs
/// as often as its weight says.
pub proof fn lemma_expand_occurrences(entries: Seq<EntryView>, view: Seq<int>, slot: int)
    requires
        distinct_names(entries, view),
        0 <= slot < view.len(),
    ensures
        occurrences(expand(entries, view), entries[view[slot]].backend.name)
            == entries[view[slot]].backend.weight,
    decreases view.len(),
{
    let name = entries[view[slot]].backend.name;
    let shorter = view.drop_last();
    let last = entries[view.last()].backend;
    assert(view[view.len() - 1] == view.last());
    lemma_occurrences_repeated(last.name, last.weight as nat, name);
    lemma_occurrences_concat(expand(entries, shorter), repeated(last.name, last.weight as nat), name);
    if slot == view.len() - 1 {
        assert forall|j: int| 0 <= j < shorter.len() implies entries[#[trigger] shorter[j]].backend.name
            != name by {
            assert(shorter[j] == view[j]);
            assert(entries[view[j]].backend.name != entries[view[slot]].backend.name);
        }
        lemma_expand_absent(entries, shorter, name);
    } else {
        assert(shorter[slot] == view[slot]);
        assert forall|a: int, b: int| 0 <= a < b < shorter.len() implies entries[#[trigger] shorter[a]].backend.name
            != entries[#[trigger] shorter[b]].backend.name by {
            assert(shorter[a] == view[a]);
            assert(shorter[b] == view[b]);
        }
        lemma_expand_occurrences(entries, shorter, slot);
        assert(entries[view[slot]].backend.name != entries[view[view.len() - 1]].backend.name);
    }
}

/// In a view with distinct names, an entry's name resolves to that entry.
pub proof fn lemma_resolve_distinct(entries: Seq<EntryView>, view: Seq<int>, slot: int, from: int)
    requires
        distinct_names(entries, view),
        0 <= from <= slot < view.len(),
    ensures
        resolve(entries, view, entries[view[slot]].backend.name, from) == Some(view[slot]),
    decreases slot - from,
{
    if from < slot {
        assert(entries[view[from]].backend.name != entries[view[slot]].backend.name);
        lemma_resolve_distinct(entries, view, slot, from + 1);
    }
}

/// Weighted round-robin over a stable healthy set with distinct names,
/// from an aligned cursor: within one cycle, the entry at place `slot` was
/// handed out as often as its name occurs among the expanded names already
/// passed.
pub proof fn lemma_weighted_run(pool: PoolView, events: Seq<PoolEvent>, slot: int)
    requires
        pool.strategy == LoadBalancingStrategy::WeightedRoundRobin,
        only_selections(events),
        0 <= slot < pool.healthy().len(),
        distinct_names(pool.entries, pool.healthy()),
        expansion_current_or_due(pool),
        events.len() <= expand(pool.entries, pool.healthy()).len(),
        pool.cursor as int % expand(pool.entries, pool.healthy()).len() as int == 0,
        pool.cursor + events.len() <= usize::MAX,
    ensures
        same_backends(pool.entries, pool.after(events).entries),
        pool.after(events).strategy == pool.strategy,
        pool.after(events).cursor == pool.cursor + events.len(),
        pool.after(events).healthy() == pool.healthy(),
        expansion_current_or_due(pool.after(events)),
        pool.times_chosen(events, pool.healthy()[slot]) == occurrences(
            expand(pool.entries, pool.healthy()).take(events.len() as int),
            pool.entries[pool.healthy()[slot]].backend.name,
        ),
    decreases events.len(),
{
    let view = pool.healthy();
    let cycle = expand(pool.entries, view);
    let name = pool.entries[view[slot]].backend.name;
    if events.len() == 0 {
        assert(cycle.take(0) =~= Seq::<Seq<char>>::empty());
    } else {
        let earlier = events.drop_last();
        assert forall|j: int| 0 <= j < earlier.len() implies #[trigger] earlier[j] is Select by {
            assert(earlier[j] == events[j]);
        }
        lemma_weighted_run(pool, earlier, slot);
        let state = pool.after(earlier);
        let done = earlier.len() as int;
        let width = cycle.len() as int;
        assert(events[events.len() - 1] is Select);
        let draw = events.last()->draw;
        lemma_selected_frame(state, draw);
        lemma_healthy_upto(pool.entries, pool.entries.len() as int);
        lemma_names_frame(pool.entries, state.entries, view);
        let fresh = state.refreshed(view);
        assert(fresh.expanded == cycle);
        assert(fresh.cursor as int == pool.cursor + done);
        lemma_fundamental_div_mod(pool.cursor as int, width);
        assert(width * (pool.cursor as int / width) == (pool.cursor as int / width) * width)
            by (nonlinear_arith);
        lemma_fundamental_div_mod_converse(
            pool.cursor + done,
            width,
            pool.cursor as int / width,
            done,
        );
        let current = cycle[done];
        assert(fresh.expanded[fresh.cursor as int % fresh.expanded.len() as int] == current);
        lemma_resolve_frame(pool.entries, state.entries, view, current, 0);
        assert(state.pick(draw).0 == resolve(pool.entries, view, current, 0));
        assert(state.pick(draw).1 == fresh.advanced());
        if current == name {
            lemma_resolve_distinct(pool.entries, view, slot, 0);
        } else {
            lemma_resolve_member(pool.entries, view, current, 0);
        }
        assert(cycle.take(done + 1).drop_last() =~= cycle.take(done));
        assert(cycle.take(done + 1).last() == current);
        let next = pool.after(events);
        assert(same_backends(pool.entries, next.entries));
        lemma_names_frame(pool.entries, next.entries, view);
    }
}

/// Every name of an expansion is the name of an entry of the view.
pub proof fn lemma_expanded_names_are_of_the_view(
    entries: Seq<EntryView>,
    view: Seq<int>,
    at: int,
)
    requires
        0 <= at < expand(entries, view).len(),
    ensures
        exists|slot: int|
            0 <= slot < view.len() && entries[#[trigger] view[slot]].backend.name == expand(
                entries,
                view,
            )[at],
    decreases view.len(),
{
    let shorter = view.drop_last();
    let before = expand(entries, shorter);
    if at < before.len() {
        lemma_expanded_names_are_of_the_view(entries, shorter, at);
        let slot = choose|slot: int|
            0 <= slot < shorter.len() && entries[#[trigger] shorter[slot]].backend.name
                == before[at];
        assert(view[slot] == shorter[slot]);
    } else {
        assert(view[view.len() - 1] == view.last());
    }
}

/// A name that an entry of the view carries resolves to an entry.
pub proof fn lemma_resolve_present(
    entries: Seq<EntryView>,
    view: Seq<int>,
    name: Seq<char>,
    slot: int,
    from: int,
)
    requires
        0 <= from <= slot < view.len(),
        entries[view[slot]].backend.name == name,
    ensures
        resolve(entries, view, name, from) is Some,
    decreases slot - from,
{
    if from < slot && entries[view[from]].backend.name != name {
        lemma_resolve_present(entries, view, name, slot, from + 1);
    }
}

/// Weighted round-robin hands out a backend whenever the healthy view
/// carries any weight, as long as the expanded list is current or due for a
/// rebuild.
pub proof fn lemma_weighted_selects(pool: PoolView, draw: int)
    requires
        pool.strategy == LoadBalancingStrategy::WeightedRoundRobin,
        expansion_current_or_due(pool),
        total_weight(pool.entries, pool.healthy()) > 0,
    ensures
        pool.selected(draw).0 is Some,
{
    let view = pool.healthy();
    lemma_expand_length(pool.entries, view);
    let fresh = pool.refreshed(view);
    let cycle = expand(pool.entries, view);
    assert(fresh.expanded == cycle);
    let at = fresh.cursor as int % cycle.len() as int;
    assert(0 <= at < cycle.len()) by {
        vstd::arithmetic::div_mod::lemma_mod_bound(fresh.cursor as int, cycle.len() as int);
    }
    lemma_expanded_names_are_of_the_view(pool.entries, view, at);
    let slot = choose|slot: int|
        0 <= slot < view.len() && pool.entries[#[trigger] view[slot]].backend.name == cycle[at];
    lemma_resolve_present(pool.entries, view, cycle[at], slot, 0);
}

/// The length of the expansion is the sum of the weights.
pub proof fn lemma_expand_length(entries: Seq<EntryView>, view: Seq<int>)
    ensures
        expand(entries, view).len() == total_weight(entries, view),
    decreases view.len(),
{
    if view.len() > 0 {
        lemma_expand_length(entries, view.drop_last());
    }
}

/// Weighted round-robin is exact: over a stable healthy set with distinct
/// names, whose weights sum to `W > 0`, a cycle of `W` selections that
/// starts with the cursor at a multiple of `W` hands out each backend
/// exactly as often as its weight says. The expanded list must be current
/// or due for a rebuild, and the cursor must not wrap within the cycle.
pub proof fn lemma_weighted_cycle_is_exact(pool: PoolView, events: Seq<PoolEvent>, slot: int)
    requires
        pool.strategy == LoadBalancingStrategy::WeightedRoundRobin,
        only_selections(events),
        0 <= slot < pool.healthy().len(),
        distinct_names(pool.entries, pool.healthy()),
        expansion_current_or_due(pool),
        events.len() == total_weight(pool.entries, pool.healthy()),
        pool.cursor as int % total_weight(pool.entries, pool.healthy()) as int == 0,
        pool.cursor + events.len() <= usize::MAX,
    ensures
        pool.times_chosen(events, pool.healthy()[slot]) == pool.entries[pool.healthy()[slot]].backend.weight,
{
    let cycle = expand(pool.entries, pool.healthy());
    lemma_expand_length(pool.entries, pool.healthy());
    lemma_weighted_run(pool, events, slot);
    assert(cycle.take(events.len() as int) =~= cycle);
    lemma_expand_occurrences(pool.entries, pool.healthy(), slot);
}

} // verus!
