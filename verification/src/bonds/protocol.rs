//! The protocol's state as it is held at run time.

use vstd::prelude::*;
use super::model::{Settings, State};
use super::registry::{Entry, Registry, lists};
use super::types::{Bond, BondId};

verus! {

/// The bond protocol: its settings, its registry, and the counter that
/// names new bonds.
pub struct Bonds {
    pub(crate) settings: Settings,
    pub(crate) registry: Registry,
    pub(crate) next_id: BondId,
}

impl View for Bonds {
    type V = State;

    open(crate) spec fn view(&self) -> State {
        State { bonds: self.registry@, next_id: self.next_id }
    }
}

impl Bonds {
    #[verifier::type_invariant]
    pub(crate) open spec fn state_valid(self) -> bool {
        self@.valid()
    }

    /// The settings the protocol was set up with.
    pub open(crate) spec fn settings(&self) -> Settings {
        self.settings
    }

    /// A protocol without bonds.
    pub fn new(settings: Settings) -> (bonds: Bonds)
        ensures
            bonds@ == State::initial(),
            bonds.settings() == settings,
    {
        Bonds { settings, registry: Registry::new(), next_id: 0 }
    }

    /// The bond registered under `id`, if there is one.
    pub fn bond(&self, id: BondId) -> (bond: Option<Bond>)
        ensures
            bond == (if self@.bonds.contains_key(id) {
                Some(self@.bonds[id])
            } else {
                None
            }),
            self@.valid(),
    {
        proof {
            use_type_invariant(self);
        }
        self.registry.get(id)
    }

    /// Every bond with its identifier, in ascending order of identifier.
    pub fn iterate(&self) -> (listing: Vec<Entry>)
        ensures
            lists(listing@, self@.bonds),
            self@.valid(),
    {
        proof {
            use_type_invariant(self);
        }
        self.registry.iterate()
    }
}

} // verus!
