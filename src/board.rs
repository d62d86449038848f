//! What the tile selector needs to know of a board: the terrain at a
//! position, and the terrains found one step away in given directions.

use vstd::prelude::*;

use crate::direction::AsMask;

verus! {

/// One observed neighbouring cell: its terrain and the direction in which
/// it lies.
#[derive(Clone, Debug)]
pub struct Neighbor<T: Clone, D: AsMask> {
    pub direction: D,
    pub terrain: T,
}

impl<T: Clone, D: AsMask> Neighbor<T, D> {
    pub fn new(terrain: T, direction: D) -> (r: Self)
        ensures
            r.terrain == terrain,
            r.direction == direction,
    {
        Self { terrain, direction }
    }
}

/// A source of terrain: the surrounding application implements it for its
/// own board.
pub trait BoardTrait<T: Clone, P, D: AsMask> {
    /// The terrain at `pos`, if there is any.
    spec fn spec_get(&self, pos: P) -> Option<T>;

    /// The neighbours of `pos` found in the directions `directions`.
    spec fn spec_neighbors(&self, pos: P, directions: Seq<D>) -> Seq<Neighbor<T, D>>;

    fn get(&self, pos: &P) -> (r: Option<&T>)
        ensures
            r matches Some(t) ==> self.spec_get(*pos) == Some(*t),
            r is None ==> self.spec_get(*pos) is None,
    ;

    fn get_neighbors(&self, pos: &P, directions: &[D]) -> (r: Vec<Neighbor<T, D>>)
        ensures
            r@ == self.spec_neighbors(*pos, directions@),
    ;
}

} // verus!
