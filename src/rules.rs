//! A single matchable condition on the neighbours of a cell.

use std::collections::HashSet;
use std::hash::Hash;

use vstd::prelude::*;
use vstd::std_specs::hash::obeys_key_model;

use crate::board::Neighbor;
use crate::direction::{combine, combine_spec, AsMask};

verus! {

/// The OR of the bits of the directions of those neighbours whose terrain
/// lies in `terrains`.
pub open spec fn observed_mask<T: Clone, D: AsMask>(
    terrains: Set<T>,
    ns: Seq<Neighbor<T, D>>,
) -> u32
    decreases ns.len(),
{
    if ns.len() == 0 {
        0
    } else {
        let rest = observed_mask(terrains, ns.drop_last());
        if terrains.contains(ns.last().terrain) {
            rest | ns.last().direction.spec_mask()
        } else {
            rest
        }
    }
}

/// "At least these directions must hold one of these terrains, and none of
/// those other directions may."
pub struct Requirement<T> {
    terrains: HashSet<T>,
    mask: u32,
    not_mask: Option<u32>,
}

impl<T> Requirement<T> {
    /// The terrains that can satisfy the requirement.
    pub closed spec fn terrains(&self) -> Set<T> {
        self.terrains@
    }

    /// The bits of the directions that must be occupied.
    pub closed spec fn required_mask(&self) -> u32 {
        self.mask
    }

    /// The bits of the directions that must not be occupied, if any are set.
    pub closed spec fn forbidden_mask(&self) -> Option<u32> {
        self.not_mask
    }
}

impl<T: Clone> Requirement<T> {
    /// The requirement holds of `ns`: every required direction is occupied
    /// by an accepted terrain, and no forbidden one is.
    pub open spec fn spec_matches<D: AsMask>(&self, ns: Seq<Neighbor<T, D>>) -> bool {
        let seen = observed_mask(self.terrains(), ns);
        &&& seen & self.required_mask() == self.required_mask()
        &&& match self.forbidden_mask() {
            None => true,
            Some(f) => f & seen == 0,
        }
    }
}

impl<T: Eq + Clone + Hash> Requirement<T> {
    /// Requires the directions `directions` to hold one of `terrains`.
    pub fn new<D: AsMask>(terrains: HashSet<T>, directions: &[D]) -> (r: Self)
        ensures
            r.terrains() == terrains@,
            r.required_mask() == combine_spec(directions@),
            r.forbidden_mask() is None,
    {
        Self { terrains, mask: combine(directions), not_mask: None }
    }

    /// Requires the directions `directions` to hold `terrain`.
    pub fn new_single<D: AsMask>(terrain: T, directions: &[D]) -> (r: Self)
        ensures
            obeys_key_model::<T>() ==> r.terrains() == set![terrain],
            r.required_mask() == combine_spec(directions@),
            r.forbidden_mask() is None,
    {
        let mut terrains = HashSet::new();
        terrains.insert(terrain);
        proof {
            if obeys_key_model::<T>() {
                assert(terrains@ =~= set![terrain]);
            }
        }
        Self::new(terrains, directions)
    }

    /// Forbids the directions `directions`, none of which may be required.
    pub fn not_wanted<D: AsMask>(self, directions: &[D]) -> (r: Self)
        requires
            combine_spec(directions@) & self.required_mask() == 0,
        ensures
            r.terrains() == self.terrains(),
            r.required_mask() == self.required_mask(),
            r.forbidden_mask() == Some(combine_spec(directions@)),
    {
        let not_mask = combine(directions);
        let mut s = self;
        s.not_mask = Some(not_mask);
        s
    }

    /// Forbids those of the directions `directions` that are not required.
    pub fn not_wanted_comp<D: AsMask>(self, directions: &[D]) -> (r: Self)
        ensures
            r.terrains() == self.terrains(),
            r.required_mask() == self.required_mask(),
            r.forbidden_mask() == Some(combine_spec(directions@) & !self.required_mask()),
    {
        let adj = combine(directions);
        let mut s = self;
        s.not_mask = Some(adj & !s.mask);
        s
    }

    /// Whether the requirement holds of the neighbours `neighbors`.
    pub fn matches<D: AsMask>(&self, neighbors: &[Neighbor<T, D>]) -> (r: bool)
        ensures
            obeys_key_model::<T>() ==> r == self.spec_matches(neighbors@),
    {
        let mut combination: u32 = 0;
        let mut i: usize = 0;
        while i < neighbors.len()
            invariant
                i <= neighbors@.len(),
                obeys_key_model::<T>() ==> combination == observed_mask(
                    self.terrains(),
                    neighbors@.subrange(0, i as int),
                ),
            decreases neighbors@.len() - i,
        {
            proof {
                assert(neighbors@.subrange(0, i + 1).drop_last() =~= neighbors@.subrange(
                    0,
                    i as int,
                ));
            }
            let neighbor = &neighbors[i];
            if self.terrains.contains(&neighbor.terrain) {
                combination = combination | neighbor.direction.as_mask();
            }
            i = i + 1;
        }
        proof {
            assert(neighbors@.subrange(0, neighbors@.len() as int) =~= neighbors@);
        }
        let result = (combination & self.mask) == self.mask;
        let not_wanted = match self.not_mask {
            None => false,
            Some(not_mask) => not_mask & combination > 0,
        };
        result && !not_wanted
    }
}

/// A requirement with no required direction and no forbidden one holds of
/// every list of neighbours, the empty list included.
pub proof fn lemma_vacuous_requirement<T: Clone, D: AsMask>(
    req: Requirement<T>,
    ns: Seq<Neighbor<T, D>>,
)
    requires
        req.required_mask() == combine_spec(Seq::<D>::empty()),
        req.forbidden_mask() is None,
    ensures
        req.spec_matches(ns),
{
    let seen = observed_mask(req.terrains(), ns);
    assert(seen & 0u32 == 0u32) by (bit_vector);
}

} // verus!
