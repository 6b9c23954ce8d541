//! Backend identity, liveness status and the distribution policies.

use vstd::prelude::*;
use vstd::std_specs::cmp::PartialEqSpecImpl;

verus! {

/// An upstream server: its origin, its operator-chosen name and its weight,
/// which is at least 1.
#[derive(Debug)]
pub struct Backend {
    pub url: String,
    pub name: String,
    pub weight: u32,
}

/// What a [`Backend`] is, mathematically.
pub struct BackendView {
    pub url: Seq<char>,
    pub name: Seq<char>,
    pub weight: u32,
}

impl View for Backend {
    type V = BackendView;

    open spec fn view(&self) -> BackendView {
        BackendView { url: self.url@, name: self.name@, weight: self.weight }
    }
}

/// Liveness of a backend as last published by the health prober.
#[derive(Debug, Clone, Copy, PartialEq, Eq, Structural)]
pub enum BackendStatus {
    Healthy,
    Unhealthy,
    Unknown,
}

/// How the pool distributes requests over its healthy backends.
#[derive(Debug, Clone, Copy, PartialEq, Eq, Structural)]
pub enum LoadBalancingStrategy {
    RoundRobin,
    LeastConnections,
    Random,
    WeightedRoundRobin,
}

impl Clone for Backend {
    fn clone(&self) -> (copy: Self)
        ensures
            copy@ == self@,
    {
        Backend { url: self.url.clone(), name: self.name.clone(), weight: self.weight }
    }
}

/// Two backends are the same backend when they have the same origin.
impl PartialEq for Backend {
    fn eq(&self, other: &Self) -> (same: bool) {
        self.url == other.url
    }
}

impl PartialEqSpecImpl for Backend {
    open spec fn obeys_eq_spec() -> bool {
        true
    }

    open spec fn eq_spec(&self, other: &Self) -> bool {
        self.url@ == other.url@
    }
}

impl Eq for Backend {}

/// `String`'s `Hash::hash` from std, which feeds the string to the hasher.
/// Nothing is claimed of what the hasher then holds.
pub assume_specification<H: core::hash::Hasher>[ <String as core::hash::Hash>::hash ](
    text: &String,
    state: &mut H,
);

/// A backend hashes as its origin does, in line with its equality.
impl core::hash::Hash for Backend {
    fn hash<H: core::hash::Hasher>(&self, state: &mut H) {
        self.url.hash(state);
    }
}

impl Backend {
    /// Whether the weight is a positive number.
    pub open spec fn well_formed(&self) -> bool {
        self.weight >= 1
    }

    /// A backend with the given origin, name and weight. The weight is a
    /// multiplier and must be at least 1.
    pub fn new(url: String, name: String, weight: u32) -> (backend: Self)
        requires
            weight >= 1,
        ensures
            backend@ == (BackendView { url: url@, name: name@, weight }),
            backend.well_formed(),
    {
        Self { url, name, weight }
    }
}

impl Default for BackendStatus {
    /// A backend that was never probed is `Unknown`.
    fn default() -> (status: Self)
        ensures
            status == BackendStatus::Unknown,
    {
        BackendStatus::Unknown
    }
}

impl BackendStatus {
    /// Only a `Healthy` backend takes part in selection.
    pub fn is_eligible(&self) -> (eligible: bool)
        ensures
            eligible == (*self == BackendStatus::Healthy),
    {
        match self {
            BackendStatus::Healthy => true,
            _ => false,
        }
    }
}

} // verus!
