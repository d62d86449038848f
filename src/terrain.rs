//! The rule set of the game's terrain sheet: which tile of the sheet shows a
//! cell of each terrain, given its neighbours. Families of four rules are
//! drawn from one template by rotating its directions by quarter turns.

use std::collections::HashSet;

use vstd::prelude::*;
use vstd::std_specs::hash::obeys_key_model;

use crate::auto_tiler::{insertion_point, AutoTiler, TileDefinition};
use crate::direction::{combine_spec, lemma_combine_bit, AsMask, Direction};
use crate::rules::Requirement;

verus! {

/// The terrains that the tile sheet draws.
#[derive(Debug, Eq, Clone, Copy, PartialEq, Default, PartialOrd, Hash, Structural)]
pub enum TileTerrain {
    #[default]
    Plain,
    Sea,
    Mountain,
    Road,
    Beach,
    Bridge,
    Forest,
    Wall,
}

/// Every direction of `ds` turned clockwise by `steps` times 45 degrees.
pub open spec fn rotate_all(ds: Seq<Direction>, steps: int) -> Seq<Direction> {
    ds.map_values(|d: Direction| d.rotated(steps))
}

/// No direction is in both `a` and `b`.
pub open spec fn disjoint(a: Seq<Direction>, b: Seq<Direction>) -> bool {
    forall|i: int, j: int| 0 <= i < a.len() && 0 <= j < b.len() ==> a[i] != b[j]
}

/// Lists with no direction in common combine into masks with no bit in
/// common.
proof fn lemma_disjoint_masks(a: Seq<Direction>, b: Seq<Direction>)
    requires
        disjoint(a, b),
    ensures
        combine_spec(a) & combine_spec(b) == 0,
    decreases a.len(),
{
    let cb = combine_spec(b);
    if a.len() == 0 {
        assert(0u32 & cb == 0) by (bit_vector);
    } else {
        let rest = a.drop_last();
        let l = a.last();
        assert(disjoint(rest, b)) by {
            assert forall|i: int, j: int| 0 <= i < rest.len() && 0 <= j < b.len() implies rest[i]
                != b[j] by {
                assert(rest[i] == a[i]);
            }
        }
        lemma_disjoint_masks(rest, b);
        lemma_combine_bit(b, l);
        assert(!b.contains(l)) by {
            if b.contains(l) {
                let j = choose|j: int| 0 <= j < b.len() && b[j] == l;
                assert(a[a.len() - 1] != b[j]);
            }
        }
        let c = combine_spec(rest);
        let m = l.spec_mask();
        assert(cb & m == 0);
        assert(c & cb == 0 && cb & m == 0 ==> (c | m) & cb == 0) by (bit_vector);
    }
}

/// Turning two directions by the same number of steps keeps them apart.
proof fn lemma_rotation_injective(d: Direction, e: Direction, steps: int)
    requires
        steps >= 0,
        d != e,
    ensures
        d.rotated(steps) != e.rotated(steps),
{
    let i = d.index() as int;
    let j = e.index() as int;
    assert(d.rotated(steps).index() == (i + steps) % 8);
    assert(e.rotated(steps).index() == (j + steps) % 8);
    assert(i != j);
    assert((i + steps) % 8 != (j + steps) % 8) by {
        vstd::arithmetic::div_mod::lemma_add_mod_noop(i, steps, 8);
        vstd::arithmetic::div_mod::lemma_add_mod_noop(j, steps, 8);
    }
}

proof fn lemma_rotate_disjoint(a: Seq<Direction>, b: Seq<Direction>, steps: int)
    requires
        steps >= 0,
        disjoint(a, b),
    ensures
        disjoint(rotate_all(a, steps), rotate_all(b, steps)),
{
    assert forall|i: int, j: int|
        0 <= i < a.len() && 0 <= j < b.len() implies rotate_all(a, steps)[i] != rotate_all(
        b,
        steps,
    )[j] by {
        lemma_rotation_injective(a[i], b[j], steps);
    }
}

/// Turns every direction of `ds` by `steps` times 45 degrees.
fn rotate_each(ds: &[Direction], steps: u8) -> (r: Vec<Direction>)
    ensures
        r@ == rotate_all(ds@, steps as int),
{
    let mut out: Vec<Direction> = Vec::new();
    let mut i: usize = 0;
    while i < ds.len()
        invariant
            i <= ds@.len(),
            out@ == rotate_all(ds@.subrange(0, i as int), steps as int),
        decreases ds@.len() - i,
    {
        out.push(ds[i].rotate_45(steps));
        proof {
            assert(out@ =~= rotate_all(ds@.subrange(0, i + 1), steps as int));
        }
        i = i + 1;
    }
    proof {
        assert(ds@.subrange(0, ds@.len() as int) =~= ds@);
    }
    out
}

/// The set of the terrains of `list`.
fn terrain_set(list: &[TileTerrain]) -> (r: HashSet<TileTerrain>)
    ensures
        obeys_key_model::<TileTerrain>() ==> r@ == list@.to_set(),
{
    let mut set: HashSet<TileTerrain> = HashSet::new();
    let mut i: usize = 0;
    while i < list.len()
        invariant
            i <= list@.len(),
            obeys_key_model::<TileTerrain>() ==> set@ == list@.subrange(0, i as int).to_set(),
        decreases list@.len() - i,
    {
        set.insert(list[i]);
        proof {
            if obeys_key_model::<TileTerrain>() {
                let next = list@.subrange(0, i + 1);
                assert(next =~= list@.subrange(0, i as int).push(list@[i as int]));
                list@.subrange(0, i as int).lemma_push_to_set_commute(list@[i as int]);
            }
        }
        i = i + 1;
    }
    proof {
        assert(list@.subrange(0, list@.len() as int) =~= list@);
    }
    set
}

/// How the rules of a rotated family forbid directions.
pub enum NotWanted {
    /// Forbid those of these directions that the rule does not require.
    Computed(Vec<Direction>),
    /// Forbid these directions, turned with the rule.
    Rotated(Vec<Direction>),
}

/// The definitions `defs` were appended to `old`: `new` is `old` followed by
/// `n` definitions of priority 0 for `terrain`.
pub open spec fn appended_for(
    old: Seq<TileDefinition<TileTerrain, (u32, u32)>>,
    new: Seq<TileDefinition<TileTerrain, (u32, u32)>>,
    terrain: TileTerrain,
    n: int,
) -> bool {
    &&& new.len() == old.len() + n
    &&& new.subrange(0, old.len() as int) == old
    &&& forall|k: int|
        old.len() <= k < new.len() ==> #[trigger] new[k].spec_terrain() == terrain
            && new[k].spec_priority() == 0
}

/// No definition of `defs` has a priority above 0.
pub open spec fn at_most_zero(defs: Seq<TileDefinition<TileTerrain, (u32, u32)>>) -> bool {
    forall|k: int| 0 <= k < defs.len() ==> #[trigger] defs[k].spec_priority() <= 0
}

/// `def` is the rule of a rotated family for the template `dirs` and
/// `forbid`, turned by `steps` times 45 degrees: it shows `tile` on cells of
/// `terrain` whose neighbours of `neighbors` occupy the turned directions.
pub open spec fn rotated_rule(
    def: TileDefinition<TileTerrain, (u32, u32)>,
    terrain: TileTerrain,
    neighbors: Set<TileTerrain>,
    tile: (u32, u32),
    dirs: Seq<Direction>,
    forbid: NotWanted,
    steps: int,
) -> bool {
    let required = combine_spec(rotate_all(dirs, steps));
    &&& def.spec_tile() == tile
    &&& def.spec_terrain() == terrain
    &&& def.spec_priority() == 0
    &&& def.spec_rules().len() == 1
    &&& def.spec_rules()[0].len() == 1
    &&& obeys_key_model::<TileTerrain>() ==> def.spec_rules()[0][0].terrains() == neighbors
    &&& def.spec_rules()[0][0].required_mask() == required
    &&& def.spec_rules()[0][0].forbidden_mask() == Some(
        match forbid {
            NotWanted::Computed(ds) => combine_spec(ds@) & !required,
            NotWanted::Rotated(ds) => combine_spec(rotate_all(ds@, steps)),
        },
    )
}

/// `tile` moved by `offset`.
pub open spec fn shifted(tile: (u32, u32), offset: (u32, u32)) -> (u32, u32) {
    ((tile.0 + offset.0) as u32, (tile.1 + offset.1) as u32)
}

/// Registers one rule for each tile of `tiles`, the `q`-th turned by `q`
/// quarter turns from the template `directions`.
fn calculate(
    auto_tiler: &mut AutoTiler<TileTerrain, (u32, u32)>,
    terrain: TileTerrain,
    neighbors: &[TileTerrain],
    offset: (u32, u32),
    tiles: &[(u32, u32)],
    directions: &[Direction],
    not_wanted_reference: &NotWanted,
)
    requires
        old(auto_tiler).wf(),
        at_most_zero(old(auto_tiler)@),
        tiles@.len() <= 4,
        forall|k: int|
            0 <= k < tiles@.len() ==> #[trigger] tiles@[k].0 + offset.0 <= u32::MAX && tiles@[k].1
                + offset.1 <= u32::MAX,
        not_wanted_reference matches NotWanted::Rotated(ds) ==> disjoint(directions@, ds@),
    ensures
        final(auto_tiler).wf(),
        at_most_zero(final(auto_tiler)@),
        appended_for(old(auto_tiler)@, final(auto_tiler)@, terrain, tiles@.len() as int),
        forall|q: int|
            0 <= q < tiles@.len() ==> rotated_rule(
                #[trigger] final(auto_tiler)@[old(auto_tiler)@.len() + q],
                terrain,
                neighbors@.to_set(),
                shifted(tiles@[q], offset),
                directions@,
                *not_wanted_reference,
                2 * q,
            ),
{
    let ghost start = auto_tiler@;
    proof {
        assert(start.subrange(0, start.len() as int) =~= start);
    }
    let mut quarter: usize = 0;
    while quarter < tiles.len()
        invariant
            quarter <= tiles@.len() <= 4,
            auto_tiler.wf(),
            at_most_zero(auto_tiler@),
            appended_for(start, auto_tiler@, terrain, quarter as int),
            forall|k: int|
                0 <= k < tiles@.len() ==> #[trigger] tiles@[k].0 + offset.0 <= u32::MAX
                    && tiles@[k].1 + offset.1 <= u32::MAX,
            not_wanted_reference matches NotWanted::Rotated(ds) ==> disjoint(directions@, ds@),
            forall|q: int|
                0 <= q < quarter ==> rotated_rule(
                    #[trigger] auto_tiler@[start.len() + q],
                    terrain,
                    neighbors@.to_set(),
                    shifted(tiles@[q], offset),
                    directions@,
                    *not_wanted_reference,
                    2 * q,
                ),
        decreases tiles@.len() - quarter,
    {
        let rotation = (quarter * 2) as u8;
        let tile = (tiles[quarter].0 + offset.0, tiles[quarter].1 + offset.1);
        let dirs = rotate_each(directions, rotation);
        let requirement = Requirement::new(terrain_set(neighbors), dirs.as_slice());
        let requirement = match not_wanted_reference {
            NotWanted::Computed(ds) => requirement.not_wanted_comp(ds.as_slice()),
            NotWanted::Rotated(ds) => {
                let rotated = rotate_each(ds.as_slice(), rotation);
                proof {
                    lemma_rotate_disjoint(directions@, ds@, rotation as int);
                    lemma_disjoint_masks(rotated@, dirs@);
                }
                requirement.not_wanted(rotated.as_slice())
            },
        };
        let definition = TileDefinition::new(tile, terrain).add_possible_requirements(
            vec![requirement],
        );
        let ghost before = auto_tiler@;
        proof {
            assert(definition.spec_rules()[0] =~= seq![requirement]);
        }
        auto_tiler.add_tile(definition);
        proof {
            let i = choose|i: int|
                insertion_point(before, 0, i) && auto_tiler@ == before.insert(i, definition);
            if i < before.len() {
                assert(before[i].spec_priority() <= 0);
            }
            assert(i == before.len());
            assert(auto_tiler@ =~= before.push(definition));
            assert(auto_tiler@.subrange(0, start.len() as int) =~= before.subrange(
                0,
                start.len() as int,
            ));
            assert forall|q: int| 0 <= q <= quarter implies rotated_rule(
                #[trigger] auto_tiler@[start.len() + q],
                terrain,
                neighbors@.to_set(),
                shifted(tiles@[q], offset),
                directions@,
                *not_wanted_reference,
                2 * q,
            ) by {
                if q < quarter {
                    assert(auto_tiler@[start.len() + q] == before[start.len() + q]);
                }
            }
        }
        quarter = quarter + 1;
    }
}

proof fn lemma_appended_trans(
    a: Seq<TileDefinition<TileTerrain, (u32, u32)>>,
    b: Seq<TileDefinition<TileTerrain, (u32, u32)>>,
    c: Seq<TileDefinition<TileTerrain, (u32, u32)>>,
    terrain: TileTerrain,
    n: int,
    m: int,
)
    requires
        n >= 0,
        m >= 0,
        appended_for(a, b, terrain, n),
        appended_for(b, c, terrain, m),
    ensures
        appended_for(a, c, terrain, n + m),
{
    assert forall|k: int| 0 <= k < a.len() implies c[k] == a[k] by {
        assert(c[k] == c.subrange(0, b.len() as int)[k]);
        assert(b[k] == b.subrange(0, a.len() as int)[k]);
    }
    assert(c.subrange(0, a.len() as int) =~= a);
    assert forall|k: int| a.len() <= k < c.len() implies #[trigger] c[k].spec_terrain() == terrain
        && c[k].spec_priority() == 0 by {
        if k < b.len() {
            assert(c[k] == c.subrange(0, b.len() as int)[k]);
            assert(b[k].spec_terrain() == terrain);
        }
    }
}

/// Registering a definition of priority 0 after definitions of priority at
/// most 0 appends it.
proof fn lemma_append_zero(
    before: Seq<TileDefinition<TileTerrain, (u32, u32)>>,
    after: Seq<TileDefinition<TileTerrain, (u32, u32)>>,
    def: TileDefinition<TileTerrain, (u32, u32)>,
)
    requires
        at_most_zero(before),
        def.spec_priority() == 0,
        exists|i: int| insertion_point(before, 0, i) && after == before.insert(i, def),
    ensures
        after == before.push(def),
        at_most_zero(after),
        appended_for(before, after, def.spec_terrain(), 1),
{
    let i = choose|i: int| insertion_point(before, 0, i) && after == before.insert(i, def);
    if i < before.len() {
        assert(before[i].spec_priority() <= 0);
    }
    assert(after =~= before.push(def));
    assert(after.subrange(0, before.len() as int) =~= before);
}

/// Registers the 29 rules of a terrain drawn with the standard layout of the
/// sheet, whose tiles start at `offset`; cells of `terrain` count as joined
/// to neighbours of `neighbors`, or of `terrain` alone when none are given.
fn add_std_tiles(
    auto_tiler: &mut AutoTiler<TileTerrain, (u32, u32)>,
    terrain: TileTerrain,
    offset: (u32, u32),
    neighbors: Option<Vec<TileTerrain>>,
)
    requires
        old(auto_tiler).wf(),
        at_most_zero(old(auto_tiler)@),
        offset.0 + 10 <= u32::MAX,
        offset.1 + 3 <= u32::MAX,
    ensures
        final(auto_tiler).wf(),
        at_most_zero(final(auto_tiler)@),
        appended_for(old(auto_tiler)@, final(auto_tiler)@, terrain, 29),
{
    let ghost start = auto_tiler@;
    let neighbors = match neighbors {
        None => vec![terrain],
        Some(opts) => opts,
    };
    let all = Direction::all();
    let adjacent = Direction::adjacent();
    let none: Vec<Direction> = Vec::new();

    // An isolated cell.
    let lone = Requirement::new(terrain_set(neighbors.as_slice()), none.as_slice());
    proof {
        let m = combine_spec(adjacent@);
        assert(m & 0u32 == 0) by (bit_vector);
    }
    let lone = lone.not_wanted(adjacent.as_slice());
    let def = TileDefinition::new((3 + offset.0, 3 + offset.1), terrain).add_possible_requirements(
        vec![lone],
    );
    let ghost s0 = auto_tiler@;
    let ghost d = def;
    auto_tiler.add_tile(def);
    proof {
        lemma_append_zero(s0, auto_tiler@, d);
    }

    // A cell surrounded on every side.
    let inner = Requirement::new(terrain_set(neighbors.as_slice()), all.as_slice());
    let def = TileDefinition::new((1 + offset.0, 1 + offset.1), terrain).add_possible_requirements(
        vec![inner],
    );
    let ghost s1 = auto_tiler@;
    let ghost d = def;
    auto_tiler.add_tile(def);
    proof {
        lemma_append_zero(s1, auto_tiler@, d);
        lemma_appended_trans(start, s1, auto_tiler@, terrain, 1, 1);
    }

    // A crossing: the four sides and no corner.
    let cross = Requirement::new(terrain_set(neighbors.as_slice()), adjacent.as_slice());
    let cross = cross.not_wanted_comp(all.as_slice());
    let def = TileDefinition::new((10 + offset.0, 3 + offset.1), terrain).add_possible_requirements(
        vec![cross],
    );
    let ghost s2 = auto_tiler@;
    let ghost d = def;
    auto_tiler.add_tile(def);
    proof {
        lemma_append_zero(s2, auto_tiler@, d);
        lemma_appended_trans(start, s2, auto_tiler@, terrain, 2, 1);
    }

    // The end of a line.
    let ghost s3 = auto_tiler@;
    let tiles = vec![(3u32, 2u32), (0, 3), (3, 0), (2, 3)];
    let directions = vec![Direction::North];
    proof {
        assert(tiles@ =~= seq![(3u32, 2u32), (0, 3), (3, 0), (2, 3)]);
    }
    calculate(
        auto_tiler,
        terrain,
        neighbors.as_slice(),
        offset,
        tiles.as_slice(),
        directions.as_slice(),
        &NotWanted::Computed(Direction::adjacent()),
    );
    proof {
        lemma_appended_trans(start, s3, auto_tiler@, terrain, 3, 4);
    }

    // The corners of a lake.
    let ghost s4 = auto_tiler@;
    let tiles = vec![(0u32, 0u32), (2, 0), (2, 2), (0, 2)];
    let directions = vec![Direction::South, Direction::SouthEast, Direction::East];
    let forbidden = vec![Direction::North, Direction::West];
    proof {
        assert(tiles@ =~= seq![(0u32, 0u32), (2, 0), (2, 2), (0, 2)]);
        assert(directions@ =~= seq![Direction::South, Direction::SouthEast, Direction::East]);
        assert(forbidden@ =~= seq![Direction::North, Direction::West]);
    }
    calculate(
        auto_tiler,
        terrain,
        neighbors.as_slice(),
        offset,
        tiles.as_slice(),
        directions.as_slice(),
        &NotWanted::Rotated(forbidden),
    );
    proof {
        lemma_appended_trans(start, s4, auto_tiler@, terrain, 7, 4);
    }

    // The borders of a lake.
    let ghost s5 = auto_tiler@;
    let tiles = vec![(1u32, 0u32), (2, 1), (1, 2), (0, 1)];
    let directions = vec![
        Direction::South,
        Direction::East,
        Direction::West,
        Direction::SouthEast,
        Direction::SouthWest,
    ];
    proof {
        assert(tiles@ =~= seq![(1u32, 0u32), (2, 1), (1, 2), (0, 1)]);
    }
    calculate(
        auto_tiler,
        terrain,
        neighbors.as_slice(),
        offset,
        tiles.as_slice(),
        directions.as_slice(),
        &NotWanted::Computed(Direction::adjacent()),
    );
    proof {
        lemma_appended_trans(start, s5, auto_tiler@, terrain, 11, 4);
    }

    // A simple corner.
    let ghost s6 = auto_tiler@;
    let tiles = vec![(4u32, 2u32), (5, 2), (5, 3), (4, 3)];
    let directions = vec![Direction::South, Direction::East];
    let forbidden = vec![Direction::North, Direction::West, Direction::SouthEast];
    proof {
        assert(tiles@ =~= seq![(4u32, 2u32), (5, 2), (5, 3), (4, 3)]);
        assert(directions@ =~= seq![Direction::South, Direction::East]);
        assert(forbidden@ =~= seq![Direction::North, Direction::West, Direction::SouthEast]);
    }
    calculate(
        auto_tiler,
        terrain,
        neighbors.as_slice(),
        offset,
        tiles.as_slice(),
        directions.as_slice(),
        &NotWanted::Rotated(forbidden),
    );
    proof {
        lemma_appended_trans(start, s6, auto_tiler@, terrain, 15, 4);
    }

    // A straight line, upright then level.
    let ghost s7 = auto_tiler@;
    let tiles = vec![(3u32, 1u32), (1, 3)];
    let directions = vec![Direction::North, Direction::South];
    proof {
        assert(tiles@ =~= seq![(3u32, 1u32), (1, 3)]);
    }
    calculate(
        auto_tiler,
        terrain,
        neighbors.as_slice(),
        offset,
        tiles.as_slice(),
        directions.as_slice(),
        &NotWanted::Computed(Direction::adjacent()),
    );
    proof {
        lemma_appended_trans(start, s7, auto_tiler@, terrain, 19, 2);
    }

    // Three ways.
    let ghost s8 = auto_tiler@;
    let tiles = vec![(6u32, 1u32), (9, 0), (7, 1), (9, 1)];
    let directions = vec![Direction::South, Direction::East, Direction::North];
    proof {
        assert(tiles@ =~= seq![(6u32, 1u32), (9, 0), (7, 1), (9, 1)]);
    }
    calculate(
        auto_tiler,
        terrain,
        neighbors.as_slice(),
        offset,
        tiles.as_slice(),
        directions.as_slice(),
        &NotWanted::Computed(Direction::all()),
    );
    proof {
        lemma_appended_trans(start, s8, auto_tiler@, terrain, 21, 4);
    }

    // Every side but one corner.
    let ghost s9 = auto_tiler@;
    let tiles = vec![(5u32, 0u32), (5, 1), (4, 1), (4, 0)];
    let directions = vec![
        Direction::North,
        Direction::NorthEast,
        Direction::East,
        Direction::SouthEast,
        Direction::South,
        Direction::West,
        Direction::NorthWest,
    ];
    proof {
        assert(tiles@ =~= seq![(5u32, 0u32), (5, 1), (4, 1), (4, 0)]);
    }
    calculate(
        auto_tiler,
        terrain,
        neighbors.as_slice(),
        offset,
        tiles.as_slice(),
        directions.as_slice(),
        &NotWanted::Computed(Direction::all()),
    );
    proof {
        lemma_appended_trans(start, s9, auto_tiler@, terrain, 25, 4);
    }
}

/// Registers the 16 rules of the mountains, whose tiles lie apart on the
/// sheet.
fn add_mountain(auto_tiler: &mut AutoTiler<TileTerrain, (u32, u32)>)
    requires
        old(auto_tiler).wf(),
        at_most_zero(old(auto_tiler)@),
    ensures
        final(auto_tiler).wf(),
        at_most_zero(final(auto_tiler)@),
        appended_for(old(auto_tiler)@, final(auto_tiler)@, TileTerrain::Mountain, 16),
{
    let ghost start = auto_tiler@;
    let terrain = TileTerrain::Mountain;
    let neighbors = vec![terrain];
    let all = Direction::all();
    let adjacent = Direction::adjacent();
    let none: Vec<Direction> = Vec::new();
    let origin = (0u32, 0u32);

    // An isolated peak.
    let lone = Requirement::new_single(terrain, none.as_slice());
    proof {
        let m = combine_spec(adjacent@);
        assert(m & 0u32 == 0) by (bit_vector);
    }
    let lone = lone.not_wanted(adjacent.as_slice());
    let def = TileDefinition::new((2, 25), terrain).add_possible_requirements(vec![lone]);
    let ghost s0 = auto_tiler@;
    let ghost d = def;
    auto_tiler.add_tile(def);
    proof {
        lemma_append_zero(s0, auto_tiler@, d);
    }

    // Inside a range.
    let inner = Requirement::new_single(terrain, all.as_slice());
    let def = TileDefinition::new((12, 22), terrain).add_possible_requirements(vec![inner]);
    let ghost s1 = auto_tiler@;
    let ghost d = def;
    auto_tiler.add_tile(def);
    proof {
        lemma_append_zero(s1, auto_tiler@, d);
        lemma_appended_trans(start, s1, auto_tiler@, terrain, 1, 1);
    }

    // The corners of a range.
    let ghost s2 = auto_tiler@;
    let tiles = vec![(11u32, 21u32), (13, 21), (13, 23), (11, 23)];
    let directions = vec![Direction::South, Direction::SouthEast, Direction::East];
    let forbidden = vec![Direction::North, Direction::West];
    proof {
        assert(tiles@ =~= seq![(11u32, 21u32), (13, 21), (13, 23), (11, 23)]);
        assert(directions@ =~= seq![Direction::South, Direction::SouthEast, Direction::East]);
        assert(forbidden@ =~= seq![Direction::North, Direction::West]);
    }
    calculate(
        auto_tiler,
        terrain,
        neighbors.as_slice(),
        origin,
        tiles.as_slice(),
        directions.as_slice(),
        &NotWanted::Rotated(forbidden),
    );
    proof {
        lemma_appended_trans(start, s2, auto_tiler@, terrain, 2, 4);
    }

    // The sides of a range.
    let ghost s3 = auto_tiler@;
    let tiles = vec![(12u32, 21u32), (13, 22), (12, 23), (11, 22)];
    let directions = vec![Direction::South, Direction::West, Direction::East];
    let forbidden = vec![Direction::North];
    proof {
        assert(tiles@ =~= seq![(12u32, 21u32), (13, 22), (12, 23), (11, 22)]);
        assert(directions@ =~= seq![Direction::South, Direction::West, Direction::East]);
        assert(forbidden@ =~= seq![Direction::North]);
    }
    calculate(
        auto_tiler,
        terrain,
        neighbors.as_slice(),
        origin,
        tiles.as_slice(),
        directions.as_slice(),
        &NotWanted::Rotated(forbidden),
    );
    proof {
        lemma_appended_trans(start, s3, auto_tiler@, terrain, 6, 4);
    }

    // Joined on one side only.
    let ghost s4 = auto_tiler@;
    let tiles = vec![(0u32, 23u32), (3, 21), (0, 24), (0, 21)];
    let directions = vec![Direction::South];
    proof {
        assert(tiles@ =~= seq![(0u32, 23u32), (3, 21), (0, 24), (0, 21)]);
    }
    calculate(
        auto_tiler,
        terrain,
        neighbors.as_slice(),
        origin,
        tiles.as_slice(),
        directions.as_slice(),
        &NotWanted::Computed(Direction::adjacent()),
    );
    proof {
        lemma_appended_trans(start, s4, auto_tiler@, terrain, 10, 4);
    }

    // Joined on two opposite sides.
    let ghost s5 = auto_tiler@;
    let tiles = vec![(1u32, 21u32), (0, 24)];
    let directions = vec![Direction::East, Direction::West];
    proof {
        assert(tiles@ =~= seq![(1u32, 21u32), (0, 24)]);
    }
    calculate(
        auto_tiler,
        terrain,
        neighbors.as_slice(),
        origin,
        tiles.as_slice(),
        directions.as_slice(),
        &NotWanted::Computed(Direction::adjacent()),
    );
    proof {
        lemma_appended_trans(start, s5, auto_tiler@, terrain, 14, 2);
    }
}

/// The terrain of the `k`-th rule of the sheet's rule set.
pub open spec fn sheet_terrain(k: int) -> TileTerrain {
    if k == 0 {
        TileTerrain::Plain
    } else if k < 30 {
        TileTerrain::Road
    } else if k < 59 {
        TileTerrain::Sea
    } else if k < 88 {
        TileTerrain::Beach
    } else if k < 104 {
        TileTerrain::Mountain
    } else {
        TileTerrain::Forest
    }
}

proof fn lemma_keeps_prefix(
    a: Seq<TileDefinition<TileTerrain, (u32, u32)>>,
    b: Seq<TileDefinition<TileTerrain, (u32, u32)>>,
    terrain: TileTerrain,
    n: int,
)
    requires
        n >= 0,
        appended_for(a, b, terrain, n),
    ensures
        forall|k: int| 0 <= k < a.len() ==> #[trigger] b[k] == a[k],
{
    assert forall|k: int| 0 <= k < a.len() implies #[trigger] b[k] == a[k] by {
        assert(b[k] == b.subrange(0, a.len() as int)[k]);
    }
}

/// The rule set of the terrain sheet: a plain tile, the standard layouts of
/// road, sea and beach, the mountains, and a forest tile; 105 rules, all of
/// priority 0, in that order.
pub fn build_auto_tiler() -> (r: AutoTiler<TileTerrain, (u32, u32)>)
    ensures
        r.wf(),
        r@.len() == 105,
        forall|k: int|
            0 <= k < 105 ==> #[trigger] r@[k].spec_terrain() == sheet_terrain(k)
                && r@[k].spec_priority() == 0,
{
    let mut auto_tiler: AutoTiler<TileTerrain, (u32, u32)> = AutoTiler::default();
    let none: Vec<Direction> = Vec::new();
    let anything = Requirement::new(HashSet::new(), none.as_slice());
    let def = TileDefinition::new((0, 15), TileTerrain::Plain).add_possible_requirements(
        vec![anything],
    );
    let ghost s0 = auto_tiler@;
    let ghost d = def;
    auto_tiler.add_tile(def);
    proof {
        lemma_append_zero(s0, auto_tiler@, d);
    }
    let ghost s1 = auto_tiler@;
    add_std_tiles(&mut auto_tiler, TileTerrain::Road, (0, 0), None);
    let ghost s2 = auto_tiler@;
    add_std_tiles(
        &mut auto_tiler,
        TileTerrain::Sea,
        (0, 5),
        Some(vec![TileTerrain::Sea, TileTerrain::Beach]),
    );
    let ghost s3 = auto_tiler@;
    add_std_tiles(
        &mut auto_tiler,
        TileTerrain::Beach,
        (0, 10),
        Some(vec![TileTerrain::Sea, TileTerrain::Beach]),
    );
    let ghost s4 = auto_tiler@;
    add_mountain(&mut auto_tiler);
    let ghost s5 = auto_tiler@;
    let anything = Requirement::new(HashSet::new(), none.as_slice());
    let def = TileDefinition::new((1, 40), TileTerrain::Forest).add_possible_requirements(
        vec![anything],
    );
    let ghost d = def;
    auto_tiler.add_tile(def);
    proof {
        let s6 = auto_tiler@;
        lemma_append_zero(s5, s6, d);
        lemma_keeps_prefix(s5, s6, TileTerrain::Forest, 1);
        lemma_keeps_prefix(s4, s5, TileTerrain::Mountain, 16);
        lemma_keeps_prefix(s3, s4, TileTerrain::Beach, 29);
        lemma_keeps_prefix(s2, s3, TileTerrain::Sea, 29);
        lemma_keeps_prefix(s1, s2, TileTerrain::Road, 29);
        assert forall|k: int| 0 <= k < 105 implies #[trigger] s6[k].spec_terrain() == sheet_terrain(
            k,
        ) && s6[k].spec_priority() == 0 by {
            if k < 1 {
                assert(s6[k] == s1[k]);
            } else if k < 30 {
                assert(s6[k] == s2[k]);
            } else if k < 59 {
                assert(s6[k] == s3[k]);
            } else if k < 88 {
                assert(s6[k] == s4[k]);
            } else if k < 104 {
                assert(s6[k] == s5[k]);
            }
        }
    }
    auto_tiler
}

} // verus!
