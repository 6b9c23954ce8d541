//! The mathematical model of the pool: what a snapshot holds and how each
//! operation changes it.

use vstd::prelude::*;
use crate::backend::{BackendStatus, BackendView, LoadBalancingStrategy};

verus! {

/// One cell of the snapshot: the backend, its published status and the
/// number of requests currently reserved on it.
pub struct EntryView {
    pub backend: BackendView,
    pub status: BackendStatus,
    pub inflight: u32,
}

/// The whole pool: the snapshot, the policy, the shared cursor and the
/// weighted round-robin expansion with its fingerprint.
pub struct PoolView {
    pub entries: Seq<EntryView>,
    pub strategy: LoadBalancingStrategy,
    pub cursor: usize,
    pub expanded: Seq<Seq<char>>,
    pub generation: u64,
    pub last_hash: u64,
}

/// Positions below `n` whose entry is `Healthy`, in snapshot order.
pub open spec fn healthy_upto(entries: Seq<EntryView>, n: int) -> Seq<int>
    decreases n,
{
    if n <= 0 {
        Seq::empty()
    } else if entries[n - 1].status == BackendStatus::Healthy {
        healthy_upto(entries, n - 1).push(n - 1)
    } else {
        healthy_upto(entries, n - 1)
    }
}

/// The healthy view: positions of all `Healthy` entries, in snapshot order.
pub open spec fn healthy_view(entries: Seq<EntryView>) -> Seq<int> {
    healthy_upto(entries, entries.len() as int)
}

/// A list of positions as mathematical integers.
pub open spec fn positions(list: Seq<usize>) -> Seq<int> {
    Seq::new(list.len(), |j: int| list[j] as int)
}

/// `name` repeated `times` times.
pub open spec fn repeated(name: Seq<char>, times: nat) -> Seq<Seq<char>> {
    Seq::new(times, |j: int| name)
}

/// The expanded list of a view: each entry's name, `weight` times, in the
/// view's order.
pub open spec fn expand(entries: Seq<EntryView>, view: Seq<int>) -> Seq<Seq<char>>
    decreases view.len(),
{
    if view.len() == 0 {
        Seq::empty()
    } else {
        let last = entries[view.last()].backend;
        expand(entries, view.drop_last()) + repeated(last.name, last.weight as nat)
    }
}

/// The sum of the weights of the entries of a view.
pub open spec fn total_weight(entries: Seq<EntryView>, view: Seq<int>) -> nat
    decreases view.len(),
{
    if view.len() == 0 {
        0
    } else {
        total_weight(entries, view.drop_last()) + entries[view.last()].backend.weight as nat
    }
}

pub const FINGERPRINT_SEED: u64 = 14695981039346656037;

pub const FINGERPRINT_PRIME: u64 = 1099511628211;

/// One step of the fingerprint: fold a value into the running hash.
pub open spec fn mix(hash: u64, value: u64) -> u64 {
    hash.wrapping_mul(FINGERPRINT_PRIME).wrapping_add(value)
}

/// The running hash after folding in `bytes`, first to last.
pub open spec fn mix_bytes(hash: u64, bytes: Seq<u8>) -> u64
    decreases bytes.len(),
{
    if bytes.len() == 0 {
        hash
    } else {
        mix(mix_bytes(hash, bytes.drop_last()), bytes.last() as u64)
    }
}

/// The fingerprint of a view: for each entry in order, the bytes of its
/// name, the length of the name and its weight are folded in.
pub open spec fn fingerprint(entries: Seq<EntryView>, view: Seq<int>) -> u64
    decreases view.len(),
{
    if view.len() == 0 {
        FINGERPRINT_SEED
    } else {
        let last = entries[view.last()].backend;
        let bytes = vstd::utf8::encode_utf8(last.name);
        let named = mix_bytes(fingerprint(entries, view.drop_last()), bytes);
        mix(mix(named, (bytes.len() as u64)), last.weight as u64)
    }
}

/// The first position of `view`, at or after `from`, whose entry is named
/// `name`.
pub open spec fn resolve(entries: Seq<EntryView>, view: Seq<int>, name: Seq<char>, from: int)
    -> Option<int>
    decreases view.len() - from,
{
    if from < 0 || from >= view.len() {
        None
    } else if entries[view[from]].backend.name == name {
        Some(view[from])
    } else {
        resolve(entries, view, name, from + 1)
    }
}

/// The position in a non-empty `view` with the fewest reserved requests; of
/// several, the first.
pub open spec fn least_loaded(entries: Seq<EntryView>, view: Seq<int>) -> int
    decreases view.len(),
{
    if view.len() <= 1 {
        view[0]
    } else {
        let best = least_loaded(entries, view.drop_last());
        if entries[view.last()].inflight < entries[best].inflight {
            view.last()
        } else {
            best
        }
    }
}

/// The counter after one more reservation.
pub open spec fn incremented(inflight: u32) -> u32 {
    inflight.wrapping_add(1)
}

/// The counter after one release: it stops at zero.
pub open spec fn decremented(inflight: u32) -> u32 {
    if inflight > 0 {
        (inflight - 1) as u32
    } else {
        0
    }
}

impl PoolView {
    /// The healthy view of the current snapshot.
    pub open spec fn healthy(self) -> Seq<int> {
        healthy_view(self.entries)
    }

    /// The state with the cursor advanced by one.
    pub open spec fn advanced(self) -> PoolView {
        PoolView { cursor: self.cursor.wrapping_add(1), ..self }
    }

    /// Round-robin: the entry under the cursor, and the cursor moves on.
    pub open spec fn round_robin(self, view: Seq<int>) -> (Option<int>, PoolView) {
        if view.len() == 0 {
            (None, self)
        } else {
            (Some(view[self.cursor as int % view.len() as int]), self.advanced())
        }
    }

    /// Least-connections: the least loaded entry of the view.
    pub open spec fn least_connections(self, view: Seq<int>) -> Option<int> {
        if view.len() == 0 {
            None
        } else {
            Some(least_loaded(self.entries, view))
        }
    }

    /// Random: the entry of the view that the draw points at.
    pub open spec fn random(self, view: Seq<int>, draw: int) -> Option<int> {
        if view.len() == 0 {
            None
        } else {
            Some(view[draw % view.len() as int])
        }
    }

    /// The weighted state brought up to date with `view`: rebuilt when the
    /// fingerprint of the view is not the one last seen.
    pub open spec fn refreshed(self, view: Seq<int>) -> PoolView {
        if fingerprint(self.entries, view) == self.last_hash {
            self
        } else {
            PoolView {
                expanded: expand(self.entries, view),
                last_hash: fingerprint(self.entries, view),
                generation: self.generation.wrapping_add(1),
                ..self
            }
        }
    }

    /// Weighted round-robin: the state is refreshed, the name under the
    /// cursor in the expanded list is resolved in the view, and the cursor
    /// moves on. With an empty expanded list nothing is picked and the cursor
    /// stays.
    pub open spec fn weighted_round_robin(self, view: Seq<int>) -> (Option<int>, PoolView) {
        let fresh = self.refreshed(view);
        if fresh.expanded.len() == 0 {
            (None, fresh)
        } else {
            let name = fresh.expanded[fresh.cursor as int % fresh.expanded.len() as int];
            (resolve(fresh.entries, view, name, 0), fresh.advanced())
        }
    }

    /// What the configured policy picks from the healthy view, and the state
    /// it leaves. `draw` is read by the random policy only.
    pub open spec fn pick(self, draw: int) -> (Option<int>, PoolView) {
        let view = self.healthy();
        if view.len() == 0 {
            (None, self)
        } else {
            match self.strategy {
                LoadBalancingStrategy::RoundRobin => self.round_robin(view),
                LoadBalancingStrategy::LeastConnections => (self.least_connections(view), self),
                LoadBalancingStrategy::Random => (self.random(view, draw), self),
                LoadBalancingStrategy::WeightedRoundRobin => self.weighted_round_robin(view),
            }
        }
    }

    /// The state with one more request reserved on entry `index`.
    pub open spec fn reserved(self, index: int) -> PoolView {
        if 0 <= index < self.entries.len() {
            let entry = self.entries[index];
            PoolView {
                entries: self.entries.update(
                    index,
                    EntryView { inflight: incremented(entry.inflight), ..entry },
                ),
                ..self
            }
        } else {
            self
        }
    }

    /// Select and reserve: the policy's pick, with the reservation made on it.
    pub open spec fn selected(self, draw: int) -> (Option<int>, PoolView) {
        let (choice, next) = self.pick(draw);
        match choice {
            Some(index) => (Some(index), next.reserved(index)),
            None => (None, next),
        }
    }

    /// The state with one request released on entry `index`.
    pub open spec fn released(self, index: int) -> PoolView {
        if 0 <= index < self.entries.len() {
            let entry = self.entries[index];
            PoolView {
                entries: self.entries.update(
                    index,
                    EntryView { inflight: decremented(entry.inflight), ..entry },
                ),
                ..self
            }
        } else {
            self
        }
    }

    /// The state with `status` published for entry `index`.
    pub open spec fn with_status(self, index: int, status: BackendStatus) -> PoolView {
        if 0 <= index < self.entries.len() {
            let entry = self.entries[index];
            PoolView { entries: self.entries.update(index, EntryView { status, ..entry }), ..self }
        } else {
            self
        }
    }

    /// The first position whose backend is named `name`.
    pub open spec fn position_of(self, name: Seq<char>) -> Option<int> {
        resolve(self.entries, Seq::new(self.entries.len(), |j: int| j), name, 0)
    }
}

/// Whether the expanded list is either the expansion of the healthy view,
/// or will be rebuilt by the next selection because the fingerprint differs.
pub open spec fn expansion_current_or_due(pool: PoolView) -> bool {
    pool.last_hash == fingerprint(pool.entries, pool.healthy()) ==> pool.expanded == expand(
        pool.entries,
        pool.healthy(),
    )
}

/// Whether a selection owes a backend: under round-robin, least-connections
/// and random, some backend is healthy; under weighted round-robin, the
/// healthy view carries some weight and the expanded list is current or due
/// for a rebuild.
pub open spec fn pick_is_owed(pool: PoolView) -> bool {
    if pool.strategy == LoadBalancingStrategy::WeightedRoundRobin {
        weighted_pick_is_owed(pool)
    } else {
        pool.healthy().len() > 0
    }
}

/// Whether weighted round-robin owes a backend: the healthy view carries
/// some weight, and the expanded list is current or due for a rebuild.
pub open spec fn weighted_pick_is_owed(pool: PoolView) -> bool {
    &&& pool.strategy == LoadBalancingStrategy::WeightedRoundRobin
    &&& expansion_current_or_due(pool)
    &&& total_weight(pool.entries, pool.healthy()) > 0
}

} // verus!
