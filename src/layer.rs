//! A board layer: a grid of optional terrains on the `u32` plane, read
//! through the eight compass directions.

use std::collections::HashSet;
use std::hash::Hash;

use vstd::prelude::*;
use vstd::std_specs::hash::obeys_key_model;

use crate::board::{BoardTrait, Neighbor};
use crate::direction::Direction;
use crate::matrix::{lemma_offset_in_range, Matrix};

verus! {

/// The terrain of each cell of a rectangle whose corner is `(0, 0)`;
/// positions outside it, or cells left empty, have no terrain.
pub struct BoardLayer<T> {
    tiles: Matrix<Option<T>>,
}

impl<T> BoardLayer<T> {
    #[verifier::type_invariant]
    spec fn inv(&self) -> bool {
        self.tiles.wf()
    }

    /// The terrain at `pos`, if any.
    pub closed spec fn cell(&self, pos: (u32, u32)) -> Option<T> {
        if self.tiles.in_bounds(pos.0 as int, pos.1 as int) {
            self.tiles.spec_at(pos.0 as int, pos.1 as int)
        } else {
            None
        }
    }

    pub closed spec fn spec_width(&self) -> nat {
        self.tiles.spec_cols()
    }

    pub closed spec fn spec_height(&self) -> nat {
        self.tiles.spec_rows()
    }
}

impl<T: Copy> BoardLayer<T> {
    /// The neighbours of `pos` in the directions `dirs`, in that order: one
    /// for each direction whose step from `pos` lands on a cell with terrain.
    pub open spec fn neighbors_in(&self, pos: (u32, u32), dirs: Seq<Direction>) -> Seq<
        Neighbor<T, Direction>,
    >
        decreases dirs.len(),
    {
        if dirs.len() == 0 {
            Seq::empty()
        } else {
            let rest = self.neighbors_in(pos, dirs.drop_last());
            let d = dirs.last();
            match d.spec_step(pos) {
                Some(q) => match self.cell(q) {
                    Some(t) => rest.push(Neighbor { direction: d, terrain: t }),
                    None => rest,
                },
                None => rest,
            }
        }
    }
}

/// What a layer keeps of a terrain `t`: itself when it is one of
/// `required`, else `fill`.
pub open spec fn kept<T>(required: Set<T>, fill: Option<T>, t: T) -> Option<T> {
    if required.contains(t) {
        Some(t)
    } else {
        fill
    }
}

impl<T: Copy + Eq + Hash> BoardLayer<T> {
    /// The layer of the terrains of `map` that lie in `required`; every other
    /// cell of `map` takes `fill`.
    pub fn build(map: &Matrix<T>, required: &HashSet<T>, fill: Option<T>) -> (r: Self)
        requires
            map.wf(),
        ensures
            r.spec_width() == map.spec_cols(),
            r.spec_height() == map.spec_rows(),
            forall|pos: (u32, u32)|
                !map.in_bounds(pos.0 as int, pos.1 as int) ==> #[trigger] r.cell(pos) is None,
            obeys_key_model::<T>() ==> forall|pos: (u32, u32)|
                map.in_bounds(pos.0 as int, pos.1 as int) ==> #[trigger] r.cell(pos) == kept(
                    required@,
                    fill,
                    map.spec_at(pos.0 as int, pos.1 as int),
                ),
    {
        let cols = map.cols();
        let rows = map.rows();
        let mut data: Vec<Option<T>> = Vec::new();
        let mut y: usize = 0;
        while y < rows
            invariant
                map.wf(),
                cols == map.spec_cols(),
                rows == map.spec_rows(),
                y <= rows,
                data@.len() == y * cols,
                obeys_key_model::<T>() ==> forall|col: int, row: int|
                    0 <= col < cols && 0 <= row < y ==> data@[#[trigger] map.offset(col, row)]
                        == kept(required@, fill, map.spec_at(col, row)),
            decreases rows - y,
        {
            let mut x: usize = 0;
            while x < cols
                invariant
                    map.wf(),
                    cols == map.spec_cols(),
                    rows == map.spec_rows(),
                    y < rows,
                    x <= cols,
                    data@.len() == y * cols + x,
                    obeys_key_model::<T>() ==> forall|col: int, row: int|
                        0 <= col < cols && 0 <= row < y ==> data@[#[trigger] map.offset(col, row)]
                            == kept(required@, fill, map.spec_at(col, row)),
                    obeys_key_model::<T>() ==> forall|col: int|
                        0 <= col < x ==> data@[#[trigger] map.offset(col, y as int)] == kept(
                            required@,
                            fill,
                            map.spec_at(col, y as int),
                        ),
                decreases cols - x,
            {
                proof {
                    lemma_offset_in_range(x as int, y as int, cols as int, rows as int);
                    assert forall|col: int, row: int|
                        0 <= col < cols && 0 <= row < y implies #[trigger] map.offset(col, row) < y
                        * cols by {
                        lemma_offset_in_range(col, row, cols as int, y as int);
                    }
                }
                let tile = map[(x, y)];
                let cell = if required.contains(&tile) {
                    Some(tile)
                } else {
                    fill
                };
                proof {
                    assert(map.offset(x as int, y as int) == data@.len());
                }
                data.push(cell);
                x = x + 1;
            }
            proof {
                assert((y + 1) * cols == y * cols + cols) by (nonlinear_arith);
            }
            y = y + 1;
        }
        let r = BoardLayer { tiles: Matrix::from_parts(data, cols, rows) };
        proof {
            assert forall|pos: (u32, u32)| obeys_key_model::<T>() && map.in_bounds(
                pos.0 as int,
                pos.1 as int,
            ) implies #[trigger] r.cell(pos) == kept(required@, fill, map.spec_at(pos.0 as int, pos.1 as int)) by {
                assert(r.tiles.offset(pos.0 as int, pos.1 as int) == map.offset(
                    pos.0 as int,
                    pos.1 as int,
                ));
            }
        }
        r
    }
}

impl<T: Copy> BoardTrait<T, (u32, u32), Direction> for BoardLayer<T> {
    open spec fn spec_get(&self, pos: (u32, u32)) -> Option<T> {
        self.cell(pos)
    }

    open spec fn spec_neighbors(&self, pos: (u32, u32), directions: Seq<Direction>) -> Seq<
        Neighbor<T, Direction>,
    > {
        self.neighbors_in(pos, directions)
    }

    fn get(&self, pos: &(u32, u32)) -> (r: Option<&T>) {
        self.get_cell(pos)
    }

    fn get_neighbors(&self, pos: &(u32, u32), directions: &[Direction]) -> (r: Vec<
        Neighbor<T, Direction>,
    >) {
        let mut out: Vec<Neighbor<T, Direction>> = Vec::new();
        let mut i: usize = 0;
        while i < directions.len()
            invariant
                i <= directions@.len(),
                out@ == self.neighbors_in(*pos, directions@.subrange(0, i as int)),
            decreases directions@.len() - i,
        {
            proof {
                assert(directions@.subrange(0, i + 1).drop_last() =~= directions@.subrange(
                    0,
                    i as int,
                ));
            }
            let dir = directions[i];
            if let Some(next) = dir.move_point(pos) {
                if let Some(terrain) = self.get_cell(&next) {
                    out.push(Neighbor::new(*terrain, dir));
                }
            }
            i = i + 1;
        }
        proof {
            assert(directions@.subrange(0, directions@.len() as int) =~= directions@);
        }
        out
    }
}

impl<T> BoardLayer<T> {
    /// The terrain at `pos`, if any.
    fn get_cell(&self, pos: &(u32, u32)) -> (r: Option<&T>)
        ensures
            r matches Some(t) ==> self.cell(*pos) == Some(*t),
            r is None ==> self.cell(*pos) is None,
    {
        proof {
            use_type_invariant(self);
        }
        let x = pos.0 as usize;
        let y = pos.1 as usize;
        if x < self.tiles.cols() && y < self.tiles.rows() {
            match self.tiles.get(x, y) {
                Some(Some(t)) => Some(t),
                _ => None,
            }
        } else {
            None
        }
    }
}

} // verus!
