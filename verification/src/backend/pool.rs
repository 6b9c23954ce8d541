//! The backend pool: the snapshot of entries, the shared cursor and the
//! weighted round-robin state, with select-and-reserve and release.

use vstd::prelude::*;
use crate::backend::{Backend, BackendStatus, LoadBalancingStrategy};
use crate::model::{
    expand, fingerprint, healthy_upto, healthy_view, mix_bytes, positions, repeated, resolve,
    pick_is_owed, weighted_pick_is_owed, EntryView, PoolView, FINGERPRINT_PRIME,
    FINGERPRINT_SEED,
};
use crate::history::{select_event, PoolEvent};
use crate::fairness::lemma_weighted_selects;
use crate::random::random_index;
use crate::text::str_equal;

verus! {

/// The mutable cell of one backend.
#[derive(Debug)]
pub struct BackendEntry {
    pub backend: Backend,
    pub status: BackendStatus,
    pub inflight: u32,
}

impl View for BackendEntry {
    type V = EntryView;

    open spec fn view(&self) -> EntryView {
        EntryView { backend: self.backend@, status: self.status, inflight: self.inflight }
    }
}

/// The expanded name list of weighted round-robin, the fingerprint of the
/// healthy view it was built from, and how often it was rebuilt.
#[derive(Debug)]
pub struct WeightedRRState {
    pub expanded_names: Vec<String>,
    pub generation: u64,
    pub last_hash: u64,
}

impl Default for WeightedRRState {
    /// The state that matches an empty healthy view.
    fn default() -> (state: Self)
        ensures
            state.expanded_names@.len() == 0,
            state.generation == 0,
            state.last_hash == FINGERPRINT_SEED,
    {
        WeightedRRState { expanded_names: Vec::new(), generation: 0, last_hash: FINGERPRINT_SEED }
    }
}

/// The pool of backends and everything selection reads and writes.
#[derive(Debug)]
pub struct BackendPool {
    pub entries: Vec<BackendEntry>,
    pub strategy: LoadBalancingStrategy,
    pub current_index: usize,
    pub weighted_rr_state: WeightedRRState,
}

/// The entries of a snapshot as the model sees them.
pub open spec fn entry_views(entries: Seq<BackendEntry>) -> Seq<EntryView> {
    Seq::new(entries.len(), |j: int| entries[j]@)
}

/// A list of names as the model sees it.
pub open spec fn name_views(names: Seq<String>) -> Seq<Seq<char>> {
    Seq::new(names.len(), |j: int| names[j]@)
}

/// An optional position as a mathematical integer.
pub open spec fn as_position(choice: Option<usize>) -> Option<int> {
    match choice {
        Some(index) => Some(index as int),
        None => None,
    }
}

/// The positions `0, 1, .., n - 1`.
pub open spec fn all_positions(n: nat) -> Seq<int> {
    Seq::new(n, |j: int| j)
}

impl View for BackendPool {
    type V = PoolView;

    open spec fn view(&self) -> PoolView {
        PoolView {
            entries: entry_views(self.entries@),
            strategy: self.strategy,
            cursor: self.current_index,
            expanded: name_views(self.weighted_rr_state.expanded_names@),
            generation: self.weighted_rr_state.generation,
            last_hash: self.weighted_rr_state.last_hash,
        }
    }
}

/// Every position of a healthy view lies in the snapshot, names a `Healthy`
/// entry, and the positions increase.
pub proof fn lemma_healthy_upto(entries: Seq<EntryView>, n: int)
    requires
        0 <= n <= entries.len(),
    ensures
        forall|j: int|
            0 <= j < healthy_upto(entries, n).len() ==> 0 <= #[trigger] healthy_upto(entries, n)[j]
                < n,
        forall|j: int|
            0 <= j < healthy_upto(entries, n).len() ==> entries[#[trigger] healthy_upto(
                entries,
                n,
            )[j]].status == BackendStatus::Healthy,
        forall|i: int, j: int|
            0 <= i < j < healthy_upto(entries, n).len() ==> #[trigger] healthy_upto(entries, n)[i]
                < #[trigger] healthy_upto(entries, n)[j],
        forall|p: int|
            0 <= p < n && entries[p].status == BackendStatus::Healthy ==> healthy_upto(
                entries,
                n,
            ).contains(p),
        healthy_upto(entries, n).len() <= n,
    decreases n,
{
    if n > 0 {
        lemma_healthy_upto(entries, n - 1);
        let before = healthy_upto(entries, n - 1);
        let now = healthy_upto(entries, n);
        if entries[n - 1].status == BackendStatus::Healthy {
            assert(now == before.push(n - 1));
            assert(now[now.len() - 1] == n - 1);
            assert forall|p: int|
                0 <= p < n && entries[p].status == BackendStatus::Healthy implies now.contains(
                p,
            ) by {
                if p < n - 1 {
                    assert(before.contains(p));
                    let j = choose|j: int| 0 <= j < before.len() && before[j] == p;
                    assert(now[j] == p);
                } else {
                    assert(now[now.len() - 1] == p);
                }
            }
        }
    }
}

/// A list that is the healthy view holds positions of the snapshot only.
pub proof fn lemma_view_in_range(entries: Seq<EntryView>, list: Seq<usize>)
    requires
        positions(list) == healthy_view(entries),
    ensures
        forall|j: int| 0 <= j < list.len() ==> (#[trigger] list[j]) < entries.len(),
{
    lemma_healthy_upto(entries, entries.len() as int);
    assert forall|j: int| 0 <= j < list.len() implies (#[trigger] list[j]) < entries.len() by {
        assert(positions(list)[j] == list[j] as int);
    }
}

/// The fingerprint of the entries at `view`, in order.
pub fn fingerprint_of(entries: &Vec<BackendEntry>, view: &Vec<usize>) -> (hash: u64)
    requires
        forall|j: int| 0 <= j < view@.len() ==> view@[j] < entries@.len(),
    ensures
        hash == fingerprint(entry_views(entries@), positions(view@)),
{
    let ghost model = entry_views(entries@);
    let ghost all = positions(view@);
    let mut hash: u64 = FINGERPRINT_SEED;
    let mut j: usize = 0;
    while j < view.len()
        invariant
            0 <= j <= view@.len(),
            model == entry_views(entries@),
            all == positions(view@),
            forall|t: int| 0 <= t < view@.len() ==> view@[t] < entries@.len(),
            hash == fingerprint(model, all.take(j as int)),
        decreases view@.len() - j,
    {
        let entry = &entries[view[j]];
        let bytes = entry.backend.name.as_str().as_bytes();
        let ghost start = hash;
        let mut t: usize = 0;
        while t < bytes.len()
            invariant
                0 <= t <= bytes@.len(),
                hash == mix_bytes(start, bytes@.take(t as int)),
            decreases bytes@.len() - t,
        {
            proof {
                assert(bytes@.take(t + 1).drop_last() =~= bytes@.take(t as int));
            }
            hash = hash.wrapping_mul(FINGERPRINT_PRIME).wrapping_add(bytes[t] as u64);
            t += 1;
        }
        proof {
            assert(bytes@.take(t as int) =~= bytes@);
            assert(all.take(j + 1).drop_last() =~= all.take(j as int));
            assert(all.take(j + 1).last() == view@[j as int] as int);
            assert(model[view@[j as int] as int] == entries@[view@[j as int] as int]@);
        }
        hash = hash.wrapping_mul(FINGERPRINT_PRIME).wrapping_add(bytes.len() as u64);
        hash = hash.wrapping_mul(FINGERPRINT_PRIME).wrapping_add(entry.backend.weight as u64);
        j += 1;
    }
    proof {
        assert(all.take(j as int) =~= all);
    }
    hash
}

/// The expanded list of the entries at `view`: each name, `weight` times.
pub fn expand_names(entries: &Vec<BackendEntry>, view: &Vec<usize>) -> (names: Vec<String>)
    requires
        forall|j: int| 0 <= j < view@.len() ==> view@[j] < entries@.len(),
    ensures
        name_views(names@) == expand(entry_views(entries@), positions(view@)),
{
    let ghost model = entry_views(entries@);
    let ghost all = positions(view@);
    let mut names: Vec<String> = Vec::new();
    let mut j: usize = 0;
    proof {
        assert(name_views(names@) =~= expand(model, all.take(0)));
    }
    while j < view.len()
        invariant
            0 <= j <= view@.len(),
            model == entry_views(entries@),
            all == positions(view@),
            forall|t: int| 0 <= t < view@.len() ==> view@[t] < entries@.len(),
            name_views(names@) == expand(model, all.take(j as int)),
        decreases view@.len() - j,
    {
        let entry = &entries[view[j]];
        let ghost name = entry.backend.name@;
        let ghost before = name_views(names@);
        let mut t: u32 = 0;
        proof {
            assert(before + repeated(name, 0) =~= before);
        }
        while t < entry.backend.weight
            invariant
                0 <= t <= entry.backend.weight,
                name == entry.backend.name@,
                name_views(names@) == before + repeated(name, t as nat),
            decreases entry.backend.weight - t,
        {
            let copy = entry.backend.name.clone();
            proof {
                assert(name_views(names@.push(copy)) =~= (before + repeated(name, t as nat)).push(
                    name,
                ));
                assert((before + repeated(name, t as nat)).push(name) =~= before + repeated(
                    name,
                    (t + 1) as nat,
                ));
            }
            names.push(copy);
            t += 1;
        }
        proof {
            assert(all.take(j + 1).drop_last() =~= all.take(j as int));
            assert(all.take(j + 1).last() == view@[j as int] as int);
            assert(model[view@[j as int] as int] == entries@[view@[j as int] as int]@);
        }
        j += 1;
    }
    proof {
        assert(all.take(j as int) =~= all);
    }
    names
}

/// The first position of `view` whose entry is named `name`.
pub fn resolve_name(entries: &Vec<BackendEntry>, view: &Vec<usize>, name: &str) -> (found: Option<
    usize,
>)
    requires
        forall|j: int| 0 <= j < view@.len() ==> view@[j] < entries@.len(),
    ensures
        as_position(found) == resolve(entry_views(entries@), positions(view@), name@, 0),
        found is Some ==> view@.contains(found->0),
{
    let ghost model = entry_views(entries@);
    let ghost all = positions(view@);
    let mut j: usize = 0;
    while j < view.len()
        invariant
            0 <= j <= view@.len(),
            model == entry_views(entries@),
            all == positions(view@),
            forall|t: int| 0 <= t < view@.len() ==> view@[t] < entries@.len(),
            resolve(model, all, name@, 0) == resolve(model, all, name@, j as int),
        decreases view@.len() - j,
    {
        let index = view[j];
        proof {
            assert(model[index as int] == entries@[index as int]@);
            assert(all[j as int] == index as int);
        }
        if str_equal(entries[index].backend.name.as_str(), name) {
            return Some(index);
        }
        j += 1;
    }
    None
}

impl BackendPool {
    /// A pool over `backends`: every status `Unknown`, every counter zero, the
    /// cursor at zero. Under weighted round-robin the expanded list is
    /// precomputed from all the entries; under any other policy it is empty.
    pub fn new(backends: Vec<Backend>, strategy: LoadBalancingStrategy) -> (pool: Self)
        ensures
            pool@.entries.len() == backends@.len(),
            forall|j: int|
                0 <= j < backends@.len() ==> #[trigger] pool@.entries[j] == (EntryView {
                    backend: backends@[j]@,
                    status: BackendStatus::Unknown,
                    inflight: 0,
                }),
            pool@.strategy == strategy,
            pool@.cursor == 0,
            pool@.generation == 0,
            pool@.healthy().len() == 0,
            strategy == LoadBalancingStrategy::WeightedRoundRobin ==> {
                &&& pool@.expanded == expand(pool@.entries, all_positions(backends@.len()))
                &&& pool@.last_hash == fingerprint(
                    pool@.entries,
                    all_positions(backends@.len()),
                )
            },
            strategy != LoadBalancingStrategy::WeightedRoundRobin ==> {
                &&& pool@.expanded.len() == 0
                &&& pool@.last_hash == FINGERPRINT_SEED
            },
    {
        let mut entries: Vec<BackendEntry> = Vec::new();
        let mut everyone: Vec<usize> = Vec::new();
        let mut j: usize = 0;
        while j < backends.len()
            invariant
                0 <= j <= backends@.len(),
                entries@.len() == j,
                everyone@.len() == j,
                forall|t: int| 0 <= t < j ==> everyone@[t] == t,
                forall|t: int|
                    0 <= t < j ==> #[trigger] entries@[t]@ == (EntryView {
                        backend: backends@[t]@,
                        status: BackendStatus::Unknown,
                        inflight: 0,
                    }),
                healthy_upto(entry_views(entries@), j as int).len() == 0,
            decreases backends@.len() - j,
        {
            let ghost before = entry_views(entries@);
            entries.push(
                BackendEntry {
                    backend: backends[j].clone(),
                    status: BackendStatus::Unknown,
                    inflight: 0,
                },
            );
            everyone.push(j);
            proof {
                lemma_healthy_upto_prefix(before, entry_views(entries@), j as int);
            }
            j += 1;
        }
        let weighted = match strategy {
            LoadBalancingStrategy::WeightedRoundRobin => true,
            _ => false,
        };
        proof {
            assert(positions(everyone@) =~= all_positions(backends@.len()));
        }
        let state = if weighted {
            WeightedRRState {
                expanded_names: expand_names(&entries, &everyone),
                generation: 0,
                last_hash: fingerprint_of(&entries, &everyone),
            }
        } else {
            WeightedRRState::default()
        };
        BackendPool { entries, strategy, current_index: 0, weighted_rr_state: state }
    }

    /// The healthy view: the positions of the entries whose status is
    /// `Healthy`, in snapshot order.
    pub fn get_healthy_backends(&self) -> (healthy: Vec<usize>)
        ensures
            positions(healthy@) == self@.healthy(),
            forall|j: int| 0 <= j < healthy@.len() ==> healthy@[j] < self.entries@.len(),
    {
        let ghost model = entry_views(self.entries@);
        let mut healthy: Vec<usize> = Vec::new();
        let mut i: usize = 0;
        proof {
            assert(positions(healthy@) =~= healthy_upto(model, 0));
        }
        while i < self.entries.len()
            invariant
                0 <= i <= self.entries@.len(),
                model == entry_views(self.entries@),
                positions(healthy@) == healthy_upto(model, i as int),
                forall|j: int| 0 <= j < healthy@.len() ==> healthy@[j] < i,
            decreases self.entries@.len() - i,
        {
            proof {
                assert(model[i as int] == self.entries@[i as int]@);
            }
            if self.entries[i].status.is_eligible() {
                proof {
                    assert(positions(healthy@.push(i)) =~= positions(healthy@).push(i as int));
                }
                healthy.push(i);
            }
            i += 1;
        }
        healthy
    }

    /// Select and reserve: the policy picks one entry of the healthy view and
    /// its counter goes up by one. Nothing is picked from an empty view;
    /// round-robin, least-connections and random pick from every other, and
    /// weighted round-robin from every view that carries some weight, as
    /// long as its expanded list is current or due for a rebuild.
    pub fn select_and_increment(&mut self) -> (chosen: Option<usize>)
        ensures
            exists|draw: int|
                0 <= draw && #[trigger] old(self)@.selected(draw) == (
                    as_position(chosen),
                    final(self)@,
                ),
            old(self).strategy != LoadBalancingStrategy::Random ==> old(self)@.selected(0) == (
                as_position(chosen),
                final(self)@,
            ),
            old(self)@.healthy().len() == 0 ==> chosen is None && final(self)@ == old(self)@,
            old(self).strategy != LoadBalancingStrategy::WeightedRoundRobin ==> (chosen is None
                <==> old(self)@.healthy().len() == 0),
            pick_is_owed(old(self)@) ==> chosen is Some,
            exists|draw: int|
                0 <= draw && final(self)@ == old(self)@.step(#[trigger] select_event(draw))
                    && as_position(chosen) == old(self)@.outcome(select_event(draw)),
            old(self).strategy != LoadBalancingStrategy::Random ==> final(self)@ == old(self)@.step(
                select_event(0),
            ) && as_position(chosen) == old(self)@.outcome(select_event(0)),
            chosen is Some ==> chosen->0 < old(self).entries@.len() && old(self)@.healthy().contains(
                chosen->0 as int,
            ),
            final(self)@.entries.len() == old(self)@.entries.len(),
    {
        let healthy = self.get_healthy_backends();
        if healthy.len() == 0 {
            assert(old(self)@.selected(0) == (as_position(None), old(self)@));
            proof {
                if weighted_pick_is_owed(old(self)@) {
                    lemma_weighted_selects(old(self)@, 0);
                }
                assert(old(self)@.step(select_event(0)) == old(self)@.selected(0).1);
            }
            return None;
        }
        let draw = match self.strategy {
            LoadBalancingStrategy::Random => random_index(healthy.len()),
            _ => 0,
        };
        self.select_with_draw(&healthy, draw)
    }

    /// Select and reserve with the random draw given: exactly the model's
    /// `selected`.
    pub fn select_with_draw(&mut self, healthy: &Vec<usize>, draw: usize) -> (chosen: Option<
        usize,
    >)
        requires
            positions(healthy@) == old(self)@.healthy(),
        ensures
            old(self)@.selected(draw as int) == (as_position(chosen), final(self)@),
            old(self).strategy != LoadBalancingStrategy::Random ==> old(self)@.selected(0) == (
                as_position(chosen),
                final(self)@,
            ),
            old(self)@.healthy().len() == 0 ==> chosen is None && final(self)@ == old(self)@,
            old(self).strategy != LoadBalancingStrategy::WeightedRoundRobin ==> (chosen is None
                <==> old(self)@.healthy().len() == 0),
            pick_is_owed(old(self)@) ==> chosen is Some,
            exists|draw: int|
                0 <= draw && final(self)@ == old(self)@.step(#[trigger] select_event(draw))
                    && as_position(chosen) == old(self)@.outcome(select_event(draw)),
            old(self).strategy != LoadBalancingStrategy::Random ==> final(self)@ == old(self)@.step(
                select_event(0),
            ) && as_position(chosen) == old(self)@.outcome(select_event(0)),
            chosen is Some ==> chosen->0 < old(self).entries@.len() && old(self)@.healthy().contains(
                chosen->0 as int,
            ),
            final(self)@.entries.len() == old(self)@.entries.len(),
    {
        proof {
            lemma_view_in_range(old(self)@.entries, healthy@);
            if weighted_pick_is_owed(old(self)@) {
                lemma_weighted_selects(old(self)@, draw as int);
            }
            assert(old(self)@.step(select_event(draw as int)) == old(self)@.selected(draw as int).1);
            assert(old(self)@.step(select_event(0)) == old(self)@.selected(0).1);
        }
        if healthy.len() == 0 {
            return None;
        }
        let ghost view = positions(healthy@);
        let picked = match self.strategy {
            LoadBalancingStrategy::RoundRobin => self.round_robin_select(healthy),
            LoadBalancingStrategy::LeastConnections => self.least_connections_select(healthy),
            LoadBalancingStrategy::WeightedRoundRobin => self.weighted_round_robin_select(healthy),
            LoadBalancingStrategy::Random => self.pick_at(healthy, draw),
        };
        proof {
            if picked is Some {
                let slot = choose|slot: int| 0 <= slot < healthy@.len() && healthy@[slot] == picked->0;
                assert(view[slot] == picked->0 as int);
            }
        }
        match picked {
            Some(index) => {
                self.reserve(index);
                Some(index)
            },
            None => None,
        }
    }

    /// One more request is reserved on entry `index`; the counter wraps as
    /// an atomic counter does.
    pub fn reserve(&mut self, index: usize)
        ensures
            final(self)@ == old(self)@.reserved(index as int),
            final(self).entries@.len() == old(self).entries@.len(),
    {
        if index < self.entries.len() {
            let count = self.entries[index].inflight.wrapping_add(1);
            self.entries[index].inflight = count;
            assert(self@.entries =~= old(self)@.reserved(index as int).entries);
        }
    }

    /// Release: the counter of entry `index` goes down by one and stops at
    /// zero. A position outside the snapshot changes nothing.
    pub fn decrement_connections(&mut self, index: usize)
        ensures
            final(self)@ == old(self)@.released(index as int),
            final(self)@ == old(self)@.step(PoolEvent::Release { index: index as int }),
            final(self).entries@.len() == old(self).entries@.len(),
            index < old(self).entries@.len() ==> final(self)@.entries[index as int].inflight
                == if old(self)@.entries[index as int].inflight > 0 {
                (old(self)@.entries[index as int].inflight - 1) as u32
            } else {
                0u32
            },
    {
        if index < self.entries.len() {
            let current = self.entries[index].inflight;
            if current > 0 {
                self.entries[index].inflight = current - 1;
            }
            assert(self@.entries =~= old(self)@.released(index as int).entries);
        }
    }

    /// The number of requests reserved on entry `index`; zero for a position
    /// outside the snapshot.
    pub fn get_connection_count(&self, index: usize) -> (count: u32)
        ensures
            index < self.entries@.len() ==> count == self@.entries[index as int].inflight,
            index >= self.entries@.len() ==> count == 0,
    {
        if index < self.entries.len() {
            self.entries[index].inflight
        } else {
            0
        }
    }

    /// The first entry whose backend is named `name`.
    pub fn find_by_name(&self, name: &str) -> (found: Option<usize>)
        ensures
            as_position(found) == self@.position_of(name@),
            found is Some ==> found->0 < self.entries@.len() && self@.entries[found->0 as int].backend.name
                == name@,
            found is None ==> forall|j: int|
                0 <= j < self@.entries.len() ==> (#[trigger] self@.entries[j]).backend.name
                    != name@,
    {
        let ghost model = entry_views(self.entries@);
        let ghost all = all_positions(self.entries@.len());
        let mut j: usize = 0;
        while j < self.entries.len()
            invariant
                0 <= j <= self.entries@.len(),
                model == entry_views(self.entries@),
                all == all_positions(self.entries@.len()),
                resolve(model, all, name@, 0) == resolve(model, all, name@, j as int),
                forall|t: int| 0 <= t < j ==> (#[trigger] model[t]).backend.name != name@,
            decreases self.entries@.len() - j,
        {
            proof {
                assert(model[j as int] == self.entries@[j as int]@);
            }
            if str_equal(self.entries[j].backend.name.as_str(), name) {
                return Some(j);
            }
            j += 1;
        }
        None
    }

    /// The number of requests reserved on the backend named `name`; zero when
    /// no backend has that name.
    pub fn inflight_of(&self, name: &str) -> (count: u32)
        ensures
            count == match self@.position_of(name@) {
                Some(index) => self@.entries[index].inflight,
                None => 0u32,
            },
    {
        match self.find_by_name(name) {
            Some(index) => self.entries[index].inflight,
            None => 0,
        }
    }
}

/// A healthy view reads only the entries below its bound.
pub proof fn lemma_healthy_upto_prefix(a: Seq<EntryView>, b: Seq<EntryView>, n: int)
    requires
        0 <= n <= a.len(),
        n <= b.len(),
        forall|j: int| 0 <= j < n ==> (#[trigger] a[j]).status == b[j].status,
    ensures
        healthy_upto(a, n) == healthy_upto(b, n),
    decreases n,
{
    if n > 0 {
        lemma_healthy_upto_prefix(a, b, n - 1);
    }
}

} // verus!
