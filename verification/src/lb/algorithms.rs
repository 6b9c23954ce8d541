//! The four distribution policies over a healthy view, and the publication
//! of a status.

use vstd::prelude::*;
use crate::backend::BackendStatus;
use crate::history::{first_least_loaded_at, lemma_least_loaded_member, PoolEvent};
use crate::fairness::lemma_weighted_selects;
use crate::model::{least_loaded, positions, weighted_pick_is_owed};
use crate::backend::pool::{
    as_position, entry_views, expand_names, fingerprint_of, lemma_view_in_range, resolve_name,
    BackendPool,
};
use crate::random::random_index;

verus! {

impl BackendPool {
    /// Round-robin: the entry of the view under the cursor, reduced modulo
    /// the view's length; the cursor then moves on by one, wrapping at the
    /// end of its range. An empty view gives nothing and leaves the cursor.
    pub fn round_robin_select(&mut self, healthy: &Vec<usize>) -> (chosen: Option<usize>)
        requires
            positions(healthy@) == old(self)@.healthy(),
        ensures
            (as_position(chosen), final(self)@) == old(self)@.round_robin(positions(healthy@)),
            chosen is Some ==> healthy@.contains(chosen->0),
    {
        if healthy.len() == 0 {
            return None;
        }
        let slot = self.current_index % healthy.len();
        self.current_index = self.current_index.wrapping_add(1);
        Some(healthy[slot])
    }

    /// Least-connections: the entry of the view with the fewest reserved
    /// requests, the first of them in snapshot order.
    pub fn least_connections_select(&self, healthy: &Vec<usize>) -> (chosen: Option<usize>)
        requires
            positions(healthy@) == self@.healthy(),
        ensures
            as_position(chosen) == self@.least_connections(positions(healthy@)),
            healthy@.len() > 0 ==> chosen is Some,
            chosen is Some ==> healthy@.contains(chosen->0),
            chosen is Some ==> exists|place: int|
                first_least_loaded_at(self@.entries, positions(healthy@), place) && #[trigger] healthy@[place]
                    == chosen->0,
    {
        proof {
            lemma_view_in_range(self@.entries, healthy@);
            if healthy@.len() > 0 {
                let view = positions(healthy@);
                lemma_least_loaded_member(self@.entries, view);
                let place = choose|place: int|
                    first_least_loaded_at(self@.entries, view, place) && #[trigger] view[place]
                        == least_loaded(self@.entries, view);
                assert(healthy@[place] as int == view[place]);
            }
        }
        if healthy.len() == 0 {
            return None;
        }
        let ghost model = entry_views(self.entries@);
        let ghost all = positions(healthy@);
        let mut best: usize = healthy[0];
        let mut j: usize = 1;
        proof {
            assert(all[0] == healthy@[0] as int);
        }
        while j < healthy.len()
            invariant
                1 <= j <= healthy@.len(),
                model == entry_views(self.entries@),
                all == positions(healthy@),
                forall|t: int| 0 <= t < all.len() ==> 0 <= #[trigger] all[t] < model.len(),
                best < self.entries@.len(),
                healthy@.contains(best),
                best as int == least_loaded(model, all.take(j as int)),
            decreases healthy@.len() - j,
        {
            let candidate = healthy[j];
            proof {
                assert(all[j as int] == candidate as int);
                assert(all.take(j + 1).drop_last() =~= all.take(j as int));
                assert(all.take(j + 1).last() == candidate as int);
                assert(model[candidate as int] == self.entries@[candidate as int]@);
                assert(model[best as int] == self.entries@[best as int]@);
            }
            if self.entries[candidate].inflight < self.entries[best].inflight {
                best = candidate;
            }
            j += 1;
        }
        proof {
            assert(all.take(j as int) =~= all);
        }
        Some(best)
    }

    /// Weighted round-robin: the expanded list is rebuilt when the view's
    /// fingerprint is not the one last seen; the name under the cursor is
    /// resolved in the view and the cursor moves on. Nothing is picked when
    /// the expanded list is empty or the name is no longer in the view.
    pub fn weighted_round_robin_select(&mut self, healthy: &Vec<usize>) -> (chosen: Option<usize>)
        requires
            positions(healthy@) == old(self)@.healthy(),
        ensures
            (as_position(chosen), final(self)@) == old(self)@.weighted_round_robin(
                positions(healthy@),
            ),
            chosen is Some ==> healthy@.contains(chosen->0),
            weighted_pick_is_owed(old(self)@) ==> chosen is Some,
    {
        proof {
            lemma_view_in_range(self@.entries, healthy@);
            if weighted_pick_is_owed(old(self)@) {
                lemma_weighted_selects(old(self)@, 0);
            }
        }
        let hash = fingerprint_of(&self.entries, healthy);
        if hash != self.weighted_rr_state.last_hash {
            self.weighted_rr_state.expanded_names = expand_names(&self.entries, healthy);
            self.weighted_rr_state.last_hash = hash;
            self.weighted_rr_state.generation = self.weighted_rr_state.generation.wrapping_add(1);
        }
        let len = self.weighted_rr_state.expanded_names.len();
        if len == 0 {
            return None;
        }
        let slot = self.current_index % len;
        self.current_index = self.current_index.wrapping_add(1);
        resolve_name(
            &self.entries,
            healthy,
            self.weighted_rr_state.expanded_names[slot].as_str(),
        )
    }

    /// Random: the entry of the view under a uniform draw.
    pub fn random_select(&self, healthy: &Vec<usize>) -> (chosen: Option<usize>)
        ensures
            healthy@.len() == 0 ==> chosen is None,
            healthy@.len() > 0 ==> chosen is Some && exists|draw: int|
                0 <= draw < healthy@.len() && chosen->0 == #[trigger] healthy@[draw],
    {
        if healthy.len() == 0 {
            return None;
        }
        let draw = random_index(healthy.len());
        self.pick_at(healthy, draw)
    }

    /// The entry of the view that `draw` points at, reduced modulo the
    /// view's length.
    pub fn pick_at(&self, healthy: &Vec<usize>, draw: usize) -> (chosen: Option<usize>)
        ensures
            as_position(chosen) == self@.random(positions(healthy@), draw as int),
            healthy@.len() > 0 ==> chosen == Some(healthy@[draw as int % healthy@.len() as int]),
            healthy@.len() == 0 ==> chosen is None,
            chosen is Some ==> healthy@.contains(chosen->0),
    {
        if healthy.len() == 0 {
            return None;
        }
        Some(healthy[draw % healthy.len()])
    }

    /// Publishes `status` for entry `index`: every other entry, and every
    /// counter, stays. Reports whether `index` lies in the snapshot.
    pub fn update_backend_status(&mut self, index: usize, status: BackendStatus) -> (known: bool)
        ensures
            known == (index < old(self).entries@.len()),
            final(self)@ == old(self)@.with_status(index as int, status),
            final(self)@ == old(self)@.step(PoolEvent::Publish { index: index as int, status }),
            final(self).entries@.len() == old(self).entries@.len(),
    {
        if index < self.entries.len() {
            self.entries[index].status = status;
            assert(self@.entries =~= old(self)@.with_status(index as int, status).entries);
            true
        } else {
            false
        }
    }
}

} // verus!
