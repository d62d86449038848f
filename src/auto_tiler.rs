//! Tile definitions and the registry that resolves a cell to a tile.

use std::hash::Hash;

use vstd::laws_eq::obeys_concrete_eq;
use vstd::prelude::*;
use vstd::std_specs::hash::obeys_key_model;

use crate::board::{BoardTrait, Neighbor};
use crate::direction::AsMask;
use crate::rules::Requirement;

verus! {

/// A terrain type whose `==` and `Hash` behave as plain equality: the
/// premise under which matching is exactly described by the spec functions.
pub open spec fn lawful_terrain<T: PartialEq>() -> bool {
    obeys_key_model::<T>() && obeys_concrete_eq::<T>()
}

/// The tile `tile`, for cells of terrain `terrain` whose neighbours satisfy
/// any one of its possibility groups (each a list of requirements that must
/// all hold).
pub struct TileDefinition<T, I> {
    tile: I,
    terrain: T,
    rules: Vec<Vec<Requirement<T>>>,
    priority: i32,
}

impl<T, I> TileDefinition<T, I> {
    pub closed spec fn spec_tile(&self) -> I {
        self.tile
    }

    pub closed spec fn spec_terrain(&self) -> T {
        self.terrain
    }

    /// The possibility groups, in the order they were added.
    pub closed spec fn spec_rules(&self) -> Seq<Seq<Requirement<T>>> {
        self.rules@.map_values(|g: Vec<Requirement<T>>| g@)
    }

    pub closed spec fn spec_priority(&self) -> i32 {
        self.priority
    }
}

impl<T: Clone, I> TileDefinition<T, I> {
    /// Every requirement of `group` holds of `ns`.
    pub open spec fn group_matches<D: AsMask>(
        group: Seq<Requirement<T>>,
        ns: Seq<Neighbor<T, D>>,
    ) -> bool {
        forall|k: int| 0 <= k < group.len() ==> #[trigger] group[k].spec_matches(ns)
    }

    /// The definition has no groups, or one of its groups holds of `ns`.
    pub open spec fn spec_matches<D: AsMask>(&self, ns: Seq<Neighbor<T, D>>) -> bool {
        ||| self.spec_rules().len() == 0
        ||| exists|j: int|
            0 <= j < self.spec_rules().len() && #[trigger] Self::group_matches(
                self.spec_rules()[j],
                ns,
            )
    }
}

impl<T: Eq + Clone + Hash, I> TileDefinition<T, I> {
    /// A definition with no groups, which matches unconditionally, at priority 0.
    pub fn new(tile: I, terrain: T) -> (r: Self)
        ensures
            r.spec_tile() == tile,
            r.spec_terrain() == terrain,
            r.spec_rules() == Seq::<Seq<Requirement<T>>>::empty(),
            r.spec_priority() == 0,
    {
        let r = Self { tile, terrain, rules: Vec::new(), priority: 0 };
        proof {
            assert(r.spec_rules() =~= Seq::<Seq<Requirement<T>>>::empty());
        }
        r
    }

    /// Adds one more possibility group.
    pub fn add_possible_requirements(self, requirements: Vec<Requirement<T>>) -> (r: Self)
        ensures
            r.spec_tile() == self.spec_tile(),
            r.spec_terrain() == self.spec_terrain(),
            r.spec_rules() == self.spec_rules().push(requirements@),
            r.spec_priority() == self.spec_priority(),
    {
        let mut s = self;
        let ghost before = s.spec_rules();
        s.rules.push(requirements);
        proof {
            assert(s.spec_rules() =~= before.push(requirements@));
        }
        s
    }

    /// Sets the priority.
    pub fn change_priority(self, priority: i32) -> (r: Self)
        ensures
            r.spec_tile() == self.spec_tile(),
            r.spec_terrain() == self.spec_terrain(),
            r.spec_rules() == self.spec_rules(),
            r.spec_priority() == priority,
    {
        let mut s = self;
        s.priority = priority;
        s
    }

    /// Whether the definition matches the neighbours `neighbors`.
    pub fn matches<D: AsMask>(&self, neighbors: &Vec<Neighbor<T, D>>) -> (r: bool)
        ensures
            obeys_key_model::<T>() ==> r == self.spec_matches(neighbors@),
    {
        if self.rules.len() == 0 {
            return true;
        }
        let mut j: usize = 0;
        while j < self.rules.len()
            invariant
                j <= self.rules@.len(),
                self.spec_rules().len() == self.rules@.len(),
                obeys_key_model::<T>() ==> forall|m: int|
                    0 <= m < j ==> !#[trigger] Self::group_matches(
                        self.spec_rules()[m],
                        neighbors@,
                    ),
            decreases self.rules@.len() - j,
        {
            let group = &self.rules[j];
            assert(group@ == self.spec_rules()[j as int]);
            let mut k: usize = 0;
            let mut all = true;
            while k < group.len()
                invariant
                    k <= group@.len(),
                    obeys_key_model::<T>() ==> (all <==> forall|m: int|
                        0 <= m < k ==> #[trigger] group@[m].spec_matches(neighbors@)),
                decreases group@.len() - k,
            {
                if !group[k].matches(neighbors.as_slice()) {
                    all = false;
                }
                k = k + 1;
            }
            if all {
                proof {
                    if obeys_key_model::<T>() {
                        assert(Self::group_matches(self.spec_rules()[j as int], neighbors@));
                    }
                }
                return true;
            }
            j = j + 1;
        }
        false
    }
}

/// The first definition of `defs`, in order, that is for terrain `terrain`
/// and matches `ns`; its tile, or none.
pub open spec fn first_match<T: Clone, I, D: AsMask>(
    defs: Seq<TileDefinition<T, I>>,
    terrain: T,
    ns: Seq<Neighbor<T, D>>,
) -> Option<I>
    decreases defs.len(),
{
    if defs.len() == 0 {
        None
    } else if defs[0].spec_terrain() == terrain && defs[0].spec_matches(ns) {
        Some(defs[0].spec_tile())
    } else {
        first_match(defs.drop_first(), terrain, ns)
    }
}

/// An ordered registry of tile definitions, always sorted by ascending
/// priority; the first definition that matches a cell gives its tile.
pub struct AutoTiler<T, I> {
    tiles: Vec<TileDefinition<T, I>>,
}

impl<T, I> View for AutoTiler<T, I> {
    type V = Seq<TileDefinition<T, I>>;

    closed spec fn view(&self) -> Seq<TileDefinition<T, I>> {
        self.tiles@
    }
}

/// The priorities of `defs` never decrease.
pub open spec fn sorted_by_priority<T, I>(defs: Seq<TileDefinition<T, I>>) -> bool {
    forall|a: int, b: int|
        0 <= a <= b < defs.len() ==> #[trigger] defs[a].spec_priority()
            <= #[trigger] defs[b].spec_priority()
}

/// `i` is where a definition of priority `p` goes in `defs`: after every
/// definition of priority at most `p`, before every one above it.
pub open spec fn insertion_point<T, I>(defs: Seq<TileDefinition<T, I>>, p: i32, i: int) -> bool {
    &&& 0 <= i <= defs.len()
    &&& forall|k: int| 0 <= k < i ==> #[trigger] defs[k].spec_priority() <= p
    &&& forall|k: int| i <= k < defs.len() ==> #[trigger] defs[k].spec_priority() > p
}

impl<T, I> AutoTiler<T, I> {
    pub open spec fn wf(&self) -> bool {
        sorted_by_priority(self@)
    }
}

impl<T, I> Default for AutoTiler<T, I> {
    fn default() -> (r: Self)
        ensures
            r@ == Seq::<TileDefinition<T, I>>::empty(),
            r.wf(),
    {
        AutoTiler { tiles: Vec::new() }
    }
}

impl<T: Eq + Clone + Hash, I: Copy> AutoTiler<T, I> {
    /// Registers `tile` after every definition whose priority is at most its
    /// own, keeping the registry sorted; returns the registry for chaining.
    pub fn add_tile(&mut self, tile: TileDefinition<T, I>) -> (r: &mut Self)
        requires
            old(self).wf(),
        ensures
            exists|i: int|
                insertion_point(old(self)@, tile.spec_priority(), i) && (*r)@ == old(self)@.insert(
                    i,
                    tile,
                ),
            r.wf(),
            *final(self) == *final(r),
    {
        let p = tile.priority;
        let mut lo: usize = 0;
        let mut hi: usize = self.tiles.len();
        while lo < hi
            invariant
                lo <= hi <= self.tiles@.len(),
                forall|k: int| 0 <= k < lo ==> #[trigger] self@[k].spec_priority() <= p,
                forall|k: int| hi <= k < self@.len() ==> #[trigger] self@[k].spec_priority() > p,
                self.wf(),
            decreases hi - lo,
        {
            let mid = lo + (hi - lo) / 2;
            let mp = self.tiles[mid].priority;
            assert(mp == self@[mid as int].spec_priority());
            if mp <= p {
                assert forall|k: int| 0 <= k < mid + 1 implies #[trigger] self@[k].spec_priority()
                    <= p by {
                    assert(self@[k].spec_priority() <= self@[mid as int].spec_priority());
                }
                lo = mid + 1;
            } else {
                assert forall|k: int| mid <= k < self@.len() implies #[trigger] self@[
                    k
                ].spec_priority() > p by {
                    assert(self@[mid as int].spec_priority() <= self@[k].spec_priority());
                }
                hi = mid;
            }
        }
        let ghost before = self@;
        self.tiles.insert(lo, tile);
        proof {
            assert(insertion_point(before, p, lo as int));
            let after = self@;
            assert(after =~= before.insert(lo as int, tile));
            assert forall|a: int, b: int| 0 <= a <= b < after.len() implies #[trigger] after[
                a
            ].spec_priority() <= #[trigger] after[b].spec_priority() by {
                if a < lo {
                    assert(after[a] == before[a]);
                }
                if b > lo {
                    assert(after[b] == before[b - 1]);
                }
                if a > lo {
                    assert(after[a] == before[a - 1]);
                }
                if b < lo {
                    assert(after[b] == before[b]);
                }
            }
        }
        self
    }

    /// The tile of the first definition, in ascending priority, that is for
    /// the terrain at `pos` and matches its neighbours in every direction;
    /// none where `pos` has no terrain or nothing matches.
    pub fn get_tile<P, D: AsMask, B: BoardTrait<T, P, D>>(&self, board: &B, pos: P) -> (r: Option<
        I,
    >)
        ensures
            lawful_terrain::<T>() ==> r == match board.spec_get(pos) {
                None => None,
                Some(t) => first_match(self@, t, board.spec_neighbors(pos, D::spec_all())),
            },
    {
        let terrain = match board.get(&pos) {
            Some(terrain) => terrain,
            None => {
                return None;
            },
        };
        let all = D::all();
        let neighbors = board.get_neighbors(&pos, all.as_slice());
        let ghost ns = neighbors@;
        proof {
            assert(self@.subrange(0, self@.len() as int) =~= self@);
        }
        let mut i: usize = 0;
        while i < self.tiles.len()
            invariant
                i <= self@.len(),
                board.spec_get(pos) == Some(*terrain),
                ns == board.spec_neighbors(pos, D::spec_all()),
                ns == neighbors@,
                lawful_terrain::<T>() ==> first_match(self@, *terrain, ns) == first_match(
                    self@.subrange(i as int, self@.len() as int),
                    *terrain,
                    ns,
                ),
            decreases self@.len() - i,
        {
            let definition = &self.tiles[i];
            assert(self@.len() == self.tiles@.len());
            assert(*definition == self@[i as int]);
            let same = definition.terrain == *terrain;
            proof {
                let rest = self@.subrange(i as int, self@.len() as int);
                assert(rest[0] == *definition);
                assert(rest.drop_first() =~= self@.subrange(i + 1, self@.len() as int));
                if lawful_terrain::<T>() {
                    reveal(obeys_concrete_eq);
                    assert(same == (definition.spec_terrain() == *terrain));
                }
            }
            let m = definition.matches(&neighbors);
            if same && m {
                proof {
                    if lawful_terrain::<T>() {
                        let rest = self@.subrange(i as int, self@.len() as int);
                        assert(first_match(rest, *terrain, ns) == Some(rest[0].spec_tile()));
                    }
                }
                return Some(definition.tile);
            }
            i = i + 1;
        }
        proof {
            assert(self@.subrange(i as int, self@.len() as int).len() == 0);
        }
        None
    }

    /// The tiles of all registered definitions, in registry order.
    pub fn get_defined_tiles(&self) -> (r: Vec<I>)
        ensures
            r@ == self@.map_values(|d: TileDefinition<T, I>| d.spec_tile()),
    {
        let mut out: Vec<I> = Vec::new();
        let mut i: usize = 0;
        while i < self.tiles.len()
            invariant
                i <= self@.len(),
                out@ == self@.subrange(0, i as int).map_values(
                    |d: TileDefinition<T, I>| d.spec_tile(),
                ),
            decreases self@.len() - i,
        {
            out.push(self.tiles[i].tile);
            proof {
                assert(self@.subrange(0, i + 1).map_values(|d: TileDefinition<T, I>| d.spec_tile())
                    =~= out@);
            }
            i = i + 1;
        }
        proof {
            assert(self@.subrange(0, self@.len() as int) =~= self@);
        }
        out
    }
}

/// A definition whose possibility groups include one whose requirements all
/// hold of `ns` matches `ns`, whatever its other groups say.
pub proof fn lemma_any_group_suffices<T: Clone, I, D: AsMask>(
    def: TileDefinition<T, I>,
    ns: Seq<Neighbor<T, D>>,
    j: int,
)
    requires
        0 <= j < def.spec_rules().len(),
        forall|k: int|
            0 <= k < def.spec_rules()[j].len() ==> #[trigger] def.spec_rules()[j][k].spec_matches(
                ns,
            ),
    ensures
        def.spec_matches(ns),
{
    assert(TileDefinition::<T, I>::group_matches(def.spec_rules()[j], ns));
}

/// A cell whose terrain no definition is for resolves to no tile.
pub proof fn lemma_no_definition_no_tile<T: Clone, I, D: AsMask>(
    defs: Seq<TileDefinition<T, I>>,
    terrain: T,
    ns: Seq<Neighbor<T, D>>,
)
    requires
        forall|k: int| 0 <= k < defs.len() ==> #[trigger] defs[k].spec_terrain() != terrain,
    ensures
        first_match(defs, terrain, ns) is None,
    decreases defs.len(),
{
    if defs.len() > 0 {
        assert(defs[0].spec_terrain() != terrain);
        assert forall|k: int| 0 <= k < defs.drop_first().len() implies #[trigger] defs.drop_first()[
            k
        ].spec_terrain() != terrain by {
            assert(defs.drop_first()[k] == defs[k + 1]);
        }
        lemma_no_definition_no_tile(defs.drop_first(), terrain, ns);
    }
}

/// Registering an unconditional definition of priority 0 and then one of
/// priority -1 for the same terrain puts the second one first, so a cell
/// that satisfies both resolves to the second one's tile.
pub proof fn lemma_lower_priority_wins<T: Clone, I, D: AsMask>(
    fallback: TileDefinition<T, I>,
    specific: TileDefinition<T, I>,
    ns: Seq<Neighbor<T, D>>,
    i: int,
)
    requires
        fallback.spec_priority() == 0,
        fallback.spec_rules().len() == 0,
        specific.spec_priority() == -1,
        specific.spec_terrain() == fallback.spec_terrain(),
        specific.spec_matches(ns),
        insertion_point(seq![fallback], specific.spec_priority(), i),
    ensures
        i == 0,
        first_match(seq![fallback].insert(i, specific), fallback.spec_terrain(), ns) == Some(
            specific.spec_tile(),
        ),
{
    if i == 1 {
        assert(seq![fallback][0].spec_priority() <= -1);
    }
    assert(seq![fallback].insert(0, specific)[0] == specific);
}

} // verus!
