//! The bond registry: the one record of which bonds exist.
//!
//! The registry is a map from identifier to bond, kept as a vector of entries
//! in ascending order of identifier.

use vstd::prelude::*;
use super::types::{Balance, Bond, BondId, Error, Moment};

verus! {

/// One stored bond with its identifier.
pub type Entry = (BondId, Bond);

/// Whether every bond of `bonds` still holds principal.
pub open spec fn all_funded(bonds: Map<BondId, Bond>) -> bool {
    forall|id: BondId| #[trigger] bonds.contains_key(id) ==> bonds[id].amount > 0
}

/// Whether `listing` names each bond of `bonds` once, in ascending order of
/// identifier, and nothing else.
pub open spec fn lists(listing: Seq<Entry>, bonds: Map<BondId, Bond>) -> bool {
    &&& ascending(listing)
    &&& forall|i: int|
        0 <= i < listing.len() ==> #[trigger] bonds.contains_pair(listing[i].0, listing[i].1)
    &&& forall|id: BondId| #[trigger]
        bonds.contains_key(id) ==> exists|i: int| 0 <= i < listing.len() && listing[i].0 == id
}

/// Whether the identifiers of `entries` strictly increase.
pub open spec fn ascending(entries: Seq<Entry>) -> bool {
    forall|i: int, j: int| 0 <= i < j < entries.len() ==> entries[i].0 < entries[j].0
}

/// Whether some entry of `entries` carries `id`.
spec fn has_id(entries: Seq<Entry>, id: BondId) -> bool {
    exists|i: int| 0 <= i < entries.len() && #[trigger] entries[i].0 == id
}

/// The place of `id` in `entries`, where it has one.
spec fn place_of(entries: Seq<Entry>, id: BondId) -> int {
    choose|i: int| 0 <= i < entries.len() && #[trigger] entries[i].0 == id
}

/// The map that `entries` stands for.
spec fn as_map(entries: Seq<Entry>) -> Map<BondId, Bond> {
    Map::new(|id: BondId| has_id(entries, id), |id: BondId| entries[place_of(entries, id)].1)
}

/// An entry of an ascending sequence is what the map holds under its identifier.
proof fn lemma_entry_in_map(entries: Seq<Entry>, i: int)
    requires
        ascending(entries),
        0 <= i < entries.len(),
    ensures
        as_map(entries).contains_key(entries[i].0),
        as_map(entries)[entries[i].0] == entries[i].1,
        place_of(entries, entries[i].0) == i,
{
    let id = entries[i].0;
    assert(has_id(entries, id));
    let p = place_of(entries, id);
    assert(0 <= p < entries.len() && entries[p].0 == id);
    if p < i {
        assert(entries[p].0 < entries[i].0);
    } else if i < p {
        assert(entries[i].0 < entries[p].0);
    }
}

/// An identifier that falls between two neighbours is not in the map.
proof fn lemma_gap_not_in_map(entries: Seq<Entry>, pos: int, id: BondId)
    requires
        0 <= pos <= entries.len(),
        forall|i: int| 0 <= i < pos ==> (#[trigger] entries[i]).0 < id,
        forall|i: int| pos <= i < entries.len() ==> (#[trigger] entries[i]).0 > id,
    ensures
        !as_map(entries).contains_key(id),
{
    if has_id(entries, id) {
        let p = place_of(entries, id);
        assert(entries[p].0 == id);
        assert(false);
    }
}

/// Putting an entry into its gap puts it into the map.
proof fn lemma_insert_in_map(entries: Seq<Entry>, pos: int, entry: Entry)
    requires
        ascending(entries),
        0 <= pos <= entries.len(),
        forall|i: int| 0 <= i < pos ==> (#[trigger] entries[i]).0 < entry.0,
        forall|i: int| pos <= i < entries.len() ==> (#[trigger] entries[i]).0 > entry.0,
    ensures
        ascending(entries.insert(pos, entry)),
        as_map(entries.insert(pos, entry)) == as_map(entries).insert(entry.0, entry.1),
{
    let after = entries.insert(pos, entry);
    assert forall|i: int, j: int| 0 <= i < j < after.len() implies after[i].0 < after[j].0 by {
        let oi = if i < pos { i } else { i - 1 };
        let oj = if j < pos { j } else { j - 1 };
        if i != pos && j != pos {
            assert(entries[oi].0 < entries[oj].0);
        } else if i == pos {
            assert(entries[oj].0 > entry.0);
        } else {
            assert(entries[oi].0 < entry.0);
        }
    }
    let left = as_map(after);
    let right = as_map(entries).insert(entry.0, entry.1);
    assert forall|id: BondId| left.contains_key(id) <==> right.contains_key(id) by {
        if left.contains_key(id) {
            let p = place_of(after, id);
            assert(after[p].0 == id);
            if p != pos {
                let op = if p < pos { p } else { p - 1 };
                assert(entries[op].0 == id);
            }
        }
        if right.contains_key(id) {
            if id == entry.0 {
                assert(after[pos].0 == id);
            } else {
                let op = place_of(entries, id);
                assert(entries[op].0 == id);
                let p = if op < pos { op } else { op + 1 };
                assert(after[p].0 == id);
            }
        }
    }
    assert forall|id: BondId| left.contains_key(id) implies left[id] == right[id] by {
        let p = place_of(after, id);
        assert(after[p].0 == id);
        lemma_entry_in_map(after, p);
        if p != pos {
            let op = if p < pos { p } else { p - 1 };
            assert(entries[op] == after[p]);
            lemma_entry_in_map(entries, op);
        }
    }
    assert(left =~= right);
}

/// Taking an entry out takes it out of the map.
proof fn lemma_remove_in_map(entries: Seq<Entry>, pos: int)
    requires
        ascending(entries),
        0 <= pos < entries.len(),
    ensures
        ascending(entries.remove(pos)),
        as_map(entries.remove(pos)) == as_map(entries).remove(entries[pos].0),
{
    let after = entries.remove(pos);
    assert forall|i: int, j: int| 0 <= i < j < after.len() implies after[i].0 < after[j].0 by {
        let oi = if i < pos { i } else { i + 1 };
        let oj = if j < pos { j } else { j + 1 };
        assert(entries[oi].0 < entries[oj].0);
    }
    let left = as_map(after);
    let right = as_map(entries).remove(entries[pos].0);
    assert forall|id: BondId| left.contains_key(id) <==> right.contains_key(id) by {
        if left.contains_key(id) {
            let p = place_of(after, id);
            assert(after[p].0 == id);
            let op = if p < pos { p } else { p + 1 };
            assert(entries[op].0 == id);
            if op < pos {
                assert(entries[op].0 < entries[pos].0);
            } else {
                assert(entries[pos].0 < entries[op].0);
            }
        }
        if right.contains_key(id) {
            let op = place_of(entries, id);
            assert(entries[op].0 == id);
            let p = if op < pos { op } else { op - 1 };
            assert(after[p].0 == id);
        }
    }
    assert forall|id: BondId| left.contains_key(id) implies left[id] == right[id] by {
        let p = place_of(after, id);
        assert(after[p].0 == id);
        lemma_entry_in_map(after, p);
        let op = if p < pos { p } else { p + 1 };
        assert(entries[op] == after[p]);
        lemma_entry_in_map(entries, op);
    }
    assert(left =~= right);
}

/// Replacing the bond of an entry replaces it in the map.
proof fn lemma_update_in_map(entries: Seq<Entry>, pos: int, bond: Bond)
    requires
        ascending(entries),
        0 <= pos < entries.len(),
    ensures
        ascending(entries.update(pos, (entries[pos].0, bond))),
        as_map(entries.update(pos, (entries[pos].0, bond))) == as_map(entries).insert(
            entries[pos].0,
            bond,
        ),
{
    let after = entries.update(pos, (entries[pos].0, bond));
    assert forall|i: int, j: int| 0 <= i < j < after.len() implies after[i].0 < after[j].0 by {
        assert(entries[i].0 < entries[j].0);
    }
    let left = as_map(after);
    let right = as_map(entries).insert(entries[pos].0, bond);
    assert forall|id: BondId| left.contains_key(id) <==> right.contains_key(id) by {
        if left.contains_key(id) {
            let p = place_of(after, id);
            assert(after[p].0 == id);
            assert(entries[p].0 == id);
        }
        if right.contains_key(id) {
            if id == entries[pos].0 {
                assert(after[pos].0 == id);
            } else {
                let op = place_of(entries, id);
                assert(entries[op].0 == id);
                assert(after[op].0 == id);
            }
        }
    }
    assert forall|id: BondId| left.contains_key(id) implies left[id] == right[id] by {
        let p = place_of(after, id);
        assert(after[p].0 == id);
        lemma_entry_in_map(after, p);
        if p != pos {
            lemma_entry_in_map(entries, p);
        }
    }
    assert(left =~= right);
}

/// The bonds that exist, each under its identifier.
pub struct Registry {
    entries: Vec<Entry>,
}

impl View for Registry {
    type V = Map<BondId, Bond>;

    closed spec fn view(&self) -> Map<BondId, Bond> {
        as_map(self.entries@)
    }
}

impl Registry {
    #[verifier::type_invariant]
    spec fn ordered_and_funded(self) -> bool {
        &&& ascending(self.entries@)
        &&& forall|i: int| 0 <= i < self.entries@.len() ==> (#[trigger] self.entries@[i]).1.amount > 0
    }

    /// What holds of the map of every registry.
    proof fn lemma_view_funded(entries: Seq<Entry>)
        requires
            ascending(entries),
            forall|i: int| 0 <= i < entries.len() ==> (#[trigger] entries[i]).1.amount > 0,
        ensures
            all_funded(as_map(entries)),
    {
        assert forall|id: BondId| #[trigger] as_map(entries).contains_key(id) implies as_map(
            entries,
        )[id].amount > 0 by {
            let p = place_of(entries, id);
            assert(entries[p].0 == id);
            assert(entries[p].1.amount > 0);
        }
    }

    /// A registry without bonds.
    pub fn new() -> (registry: Registry)
        ensures
            registry@ == Map::<BondId, Bond>::empty(),
    {
        let registry = Registry { entries: Vec::new() };
        assert(registry@ =~= Map::<BondId, Bond>::empty());
        registry
    }

    /// The first place whose identifier is not below `id`.
    fn lower_bound(&self, id: BondId) -> (pos: usize)
        ensures
            pos <= self.entries@.len(),
            forall|i: int| 0 <= i < pos ==> (#[trigger] self.entries@[i]).0 < id,
            forall|i: int| pos <= i < self.entries@.len() ==> (#[trigger] self.entries@[i]).0 >= id,
    {
        proof {
            use_type_invariant(self);
        }
        let mut lo: usize = 0;
        let mut hi: usize = self.entries.len();
        while lo < hi
            invariant
                lo <= hi <= self.entries@.len(),
                ascending(self.entries@),
                forall|i: int| 0 <= i < lo ==> (#[trigger] self.entries@[i]).0 < id,
                forall|i: int| hi <= i < self.entries@.len() ==> (#[trigger] self.entries@[i]).0 >= id,
            decreases hi - lo,
        {
            let mid: usize = lo + (hi - lo) / 2;
            if self.entries[mid].0 < id {
                assert forall|i: int| 0 <= i < mid + 1 implies (#[trigger] self.entries@[i]).0 < id by {
                    if i < mid {
                        assert(self.entries@[i].0 < self.entries@[mid as int].0);
                    }
                }
                lo = mid + 1;
            } else {
                assert forall|i: int|
                    mid <= i < self.entries@.len() implies (#[trigger] self.entries@[i]).0 >= id by {
                    if mid < i {
                        assert(self.entries@[mid as int].0 < self.entries@[i].0);
                    }
                }
                hi = mid;
            }
        }
        lo
    }

    /// The place of `id` among the entries, where it has one.
    fn find(&self, id: BondId) -> (found: Option<usize>)
        ensures
            found.is_some() <==> self@.contains_key(id),
            found matches Some(pos) ==> pos < self.entries@.len() && self.entries@[pos as int].0 == id
                && self.entries@[pos as int].1 == self@[id],
    {
        proof {
            use_type_invariant(self);
        }
        let pos = self.lower_bound(id);
        if pos < self.entries.len() && self.entries[pos].0 == id {
            proof {
                lemma_entry_in_map(self.entries@, pos as int);
            }
            Some(pos)
        } else {
            proof {
                lemma_gap_not_in_map(self.entries@, pos as int, id);
            }
            None
        }
    }

    /// The bond registered under `id`, if there is one.
    pub fn get(&self, id: BondId) -> (bond: Option<Bond>)
        ensures
            bond == (if self@.contains_key(id) {
                Some(self@[id])
            } else {
                None
            }),
            all_funded(self@),
    {
        proof {
            use_type_invariant(self);
            Self::lemma_view_funded(self.entries@);
        }
        match self.find(id) {
            Some(pos) => Some(self.entries[pos].1),
            None => None,
        }
    }

    /// Registers `bond` under `id`. An identifier that is taken is refused,
    /// and so is a bond without principal; the registry then stays as it was.
    pub fn insert(&mut self, id: BondId, bond: Bond) -> (done: Result<(), Error>)
        ensures
            done == (if old(self)@.contains_key(id) {
                Err::<(), Error>(Error::DuplicateBond)
            } else if bond.amount == 0 {
                Err::<(), Error>(Error::InvalidAmount)
            } else {
                Ok::<(), Error>(())
            }),
            final(self)@ == (if done.is_ok() {
                old(self)@.insert(id, bond)
            } else {
                old(self)@
            }),
            all_funded(final(self)@),
    {
        proof {
            use_type_invariant(&*self);
            Self::lemma_view_funded(self.entries@);
        }
        let pos = self.lower_bound(id);
        if pos < self.entries.len() && self.entries[pos].0 == id {
            proof {
                lemma_entry_in_map(self.entries@, pos as int);
            }
            return Err(Error::DuplicateBond);
        }
        proof {
            lemma_gap_not_in_map(self.entries@, pos as int, id);
        }
        if bond.amount == 0 {
            return Err(Error::InvalidAmount);
        }
        proof {
            lemma_insert_in_map(self.entries@, pos as int, (id, bond));
            Self::lemma_view_funded(self.entries@.insert(pos as int, (id, bond)));
        }
        let mut entries: Vec<Entry> = Vec::new();
        std::mem::swap(&mut entries, &mut self.entries);
        entries.insert(pos, (id, bond));
        self.entries = entries;
        Ok(())
    }

    /// Sets what is left of the bond under `id`. A bond that is left with
    /// nothing is removed.
    pub fn update_amount(&mut self, id: BondId, new_amount: Balance) -> (done: Result<(), Error>)
        ensures
            done == (if old(self)@.contains_key(id) {
                Ok::<(), Error>(())
            } else {
                Err::<(), Error>(Error::UnknownBond)
            }),
            final(self)@ == (if !old(self)@.contains_key(id) {
                old(self)@
            } else if new_amount == 0 {
                old(self)@.remove(id)
            } else {
                old(self)@.insert(id, (Bond { amount: new_amount, ..old(self)@[id] }))
            }),
            all_funded(final(self)@),
    {
        proof {
            use_type_invariant(&*self);
            Self::lemma_view_funded(self.entries@);
        }
        match self.find(id) {
            None => Err(Error::UnknownBond),
            Some(pos) => {
                let bond = self.entries[pos].1;
                let mut entries: Vec<Entry> = Vec::new();
                std::mem::swap(&mut entries, &mut self.entries);
                if new_amount == 0 {
                    proof {
                        lemma_remove_in_map(entries@, pos as int);
                        Self::lemma_view_funded(entries@.remove(pos as int));
                    }
                    entries.remove(pos);
                } else {
                    let kept = Bond { amount: new_amount, ..bond };
                    proof {
                        lemma_update_in_map(entries@, pos as int, kept);
                        Self::lemma_view_funded(entries@.update(pos as int, (id, kept)));
                    }
                    entries.set(pos, (id, kept));
                }
                self.entries = entries;
                Ok(())
            },
        }
    }

    /// Sets the maturity of the bond under `id` and leaves the rest of it.
    pub fn set_maturity(&mut self, id: BondId, new_maturity: Moment) -> (done: Result<(), Error>)
        ensures
            done == (if old(self)@.contains_key(id) {
                Ok::<(), Error>(())
            } else {
                Err::<(), Error>(Error::UnknownBond)
            }),
            final(self)@ == (if old(self)@.contains_key(id) {
                old(self)@.insert(id, (Bond { maturity: new_maturity, ..old(self)@[id] }))
            } else {
                old(self)@
            }),
            all_funded(final(self)@),
    {
        proof {
            use_type_invariant(&*self);
            Self::lemma_view_funded(self.entries@);
        }
        match self.find(id) {
            None => Err(Error::UnknownBond),
            Some(pos) => {
                let bond = self.entries[pos].1;
                let kept = Bond { maturity: new_maturity, ..bond };
                proof {
                    lemma_update_in_map(self.entries@, pos as int, kept);
                    Self::lemma_view_funded(self.entries@.update(pos as int, (id, kept)));
                }
                let mut entries: Vec<Entry> = Vec::new();
                std::mem::swap(&mut entries, &mut self.entries);
                entries.set(pos, (id, kept));
                self.entries = entries;
                Ok(())
            },
        }
    }

    /// Every bond with its identifier, in ascending order of identifier.
    pub fn iterate(&self) -> (listing: Vec<Entry>)
        ensures
            lists(listing@, self@),
            all_funded(self@),
    {
        proof {
            use_type_invariant(self);
            Self::lemma_view_funded(self.entries@);
        }
        let mut listing: Vec<Entry> = Vec::new();
        let mut i: usize = 0;
        while i < self.entries.len()
            invariant
                i <= self.entries@.len(),
                listing@ == self.entries@.subrange(0, i as int),
            decreases self.entries@.len() - i,
        {
            listing.push(self.entries[i]);
            assert(listing@ =~= self.entries@.subrange(0, i + 1));
            i += 1;
        }
        proof {
            assert(listing@ =~= self.entries@);
            assert forall|k: int| 0 <= k < listing@.len() implies #[trigger] self@.contains_pair(
                listing@[k].0,
                listing@[k].1,
            ) by {
                lemma_entry_in_map(self.entries@, k);
            }
            assert forall|id: BondId| #[trigger] self@.contains_key(id) implies exists|k: int|
                0 <= k < listing@.len() && listing@[k].0 == id by {
                let p = place_of(self.entries@, id);
                assert(self.entries@[p].0 == id);
            }
        }
        listing
    }
}

} // verus!
