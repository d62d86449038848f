//! Directions as bits of a mask, and the rotation of the eight compass
//! directions by steps of 45 degrees.

use vstd::prelude::*;

verus! {

/// True when `m` has exactly one bit set.
pub open spec fn is_single_bit(m: u32) -> bool {
    m != 0 && m & ((m - 1) as u32) == 0
}

/// A finite set of directions, each of which owns one bit of a `u32` mask.
pub trait AsMask: Copy + Sized {
    /// The bit that stands for this direction.
    spec fn spec_mask(self) -> u32;

    /// Every member of the set, each once.
    spec fn spec_all() -> Seq<Self>;

    /// Each direction owns exactly one bit, no two share it, and every
    /// direction is listed in `spec_all`.
    proof fn lemma_mask_laws()
        ensures
            forall|d: Self| #[trigger] is_single_bit(d.spec_mask()),
            forall|d: Self, e: Self|
                d != e ==> #[trigger] d.spec_mask() & #[trigger] e.spec_mask() == 0,
            forall|d: Self| Self::spec_all().contains(d),
            Self::spec_all().no_duplicates(),
    ;

    fn as_mask(self) -> (r: u32)
        ensures
            r == self.spec_mask(),
    ;

    fn all() -> (r: Vec<Self>)
        ensures
            r@ == Self::spec_all(),
    ;
}

/// The OR of the bits of the directions of `s`.
pub open spec fn combine_spec<D: AsMask>(s: Seq<D>) -> u32
    decreases s.len(),
{
    if s.len() == 0 {
        0
    } else {
        combine_spec(s.drop_last()) | s.last().spec_mask()
    }
}

/// Reduces a list of directions to the OR of their bits.
pub fn combine<D: AsMask>(list: &[D]) -> (r: u32)
    ensures
        r == combine_spec(list@),
{
    let mut acc: u32 = 0;
    let mut i: usize = 0;
    while i < list.len()
        invariant
            i <= list@.len(),
            acc == combine_spec(list@.subrange(0, i as int)),
        decreases list@.len() - i,
    {
        proof {
            assert(list@.subrange(0, i + 1).drop_last() =~= list@.subrange(0, i as int));
        }
        acc = acc | list[i].as_mask();
        i = i + 1;
    }
    proof {
        assert(list@.subrange(0, list@.len() as int) =~= list@);
    }
    acc
}

/// A direction's bit is set in the combination of a list exactly when the
/// direction is in the list.
pub proof fn lemma_combine_bit<D: AsMask>(s: Seq<D>, d: D)
    ensures
        combine_spec(s) & d.spec_mask() == (if s.contains(d) {
            d.spec_mask()
        } else {
            0
        }),
    decreases s.len(),
{
    D::lemma_mask_laws();
    let m = d.spec_mask();
    if s.len() == 0 {
        assert(0u32 & m == 0) by (bit_vector);
    } else {
        let rest = s.drop_last();
        let l = s.last();
        lemma_combine_bit(rest, d);
        let c = combine_spec(rest);
        let ml = l.spec_mask();
        assert((c | ml) & m == (c & m) | (ml & m)) by (bit_vector);
        assert(s =~= rest.push(l));
        if l == d {
            assert(m & m == m) by (bit_vector);
            assert(c & m == 0 || c & m == m);
            assert(0u32 | m == m && m | m == m) by (bit_vector);
            assert(s.contains(d)) by {
                assert(s[s.len() - 1] == d);
            }
        } else {
            assert(ml & m == 0);
            assert(0u32 | 0u32 == 0 && m | 0u32 == m) by (bit_vector);
            assert(s.contains(d) == rest.contains(d)) by {
                if s.contains(d) {
                    let j = choose|j: int| 0 <= j < s.len() && s[j] == d;
                    assert(j < s.len() - 1);
                    assert(rest[j] == d);
                }
                if rest.contains(d) {
                    let j = choose|j: int| 0 <= j < rest.len() && rest[j] == d;
                    assert(s[j] == d);
                }
            }
        }
    }
}

/// Every direction alone combines to its own single bit, no two directions
/// share a bit, and the combination of all directions holds the bit of each
/// of them.
pub proof fn lemma_mask_round_trip<D: AsMask>(d: D, e: D)
    ensures
        combine_spec(seq![d]) == d.spec_mask(),
        is_single_bit(combine_spec(seq![d])),
        d != e ==> combine_spec(seq![d]) != combine_spec(seq![e]),
        combine_spec(D::spec_all()) & d.spec_mask() == d.spec_mask(),
{
    D::lemma_mask_laws();
    let m = d.spec_mask();
    assert(seq![d].drop_last() =~= Seq::<D>::empty());
    assert(combine_spec(Seq::<D>::empty()) == 0);
    assert(0u32 | m == m) by (bit_vector);
    assert(combine_spec(seq![d]) == m);
    if d != e {
        let n = e.spec_mask();
        assert(m & n == 0);
        assert(is_single_bit(m));
        assert(m != 0 && m & ((m - 1) as u32) == 0 && m & n == 0 ==> m != n) by (bit_vector);
        assert(seq![e].drop_last() =~= Seq::<D>::empty());
        assert(0u32 | n == n) by (bit_vector);
        assert(combine_spec(seq![e]) == n);
    }
    lemma_combine_bit(D::spec_all(), d);
}

/// The four cardinal directions.
#[derive(Debug, Clone, Copy, PartialEq, Eq, Hash, Structural)]
pub enum AdjacentDirection {
    North,
    East,
    South,
    West,
}

impl AsMask for AdjacentDirection {
    open spec fn spec_mask(self) -> u32 {
        match self {
            AdjacentDirection::North => 1,
            AdjacentDirection::East => 2,
            AdjacentDirection::South => 4,
            AdjacentDirection::West => 8,
        }
    }

    open spec fn spec_all() -> Seq<Self> {
        seq![
            AdjacentDirection::North,
            AdjacentDirection::East,
            AdjacentDirection::South,
            AdjacentDirection::West,
        ]
    }

    proof fn lemma_mask_laws() {
        assert(1u32 & 0u32 == 0 && 2u32 & 1u32 == 0 && 4u32 & 3u32 == 0 && 8u32 & 7u32 == 0)
            by (bit_vector);
        assert forall|d: Self, e: Self| d != e implies #[trigger] d.spec_mask()
            & #[trigger] e.spec_mask() == 0 by {
            assert(1u32 & 2 == 0 && 1u32 & 4 == 0 && 1u32 & 8 == 0 && 2u32 & 4 == 0 && 2u32 & 8
                == 0 && 4u32 & 8 == 0 && 2u32 & 1 == 0 && 4u32 & 1 == 0 && 8u32 & 1 == 0 && 4u32
                & 2 == 0 && 8u32 & 2 == 0 && 8u32 & 4 == 0) by (bit_vector);
        }
        assert forall|d: Self| Self::spec_all().contains(d) by {
            match d {
                AdjacentDirection::North => assert(Self::spec_all()[0] == d),
                AdjacentDirection::East => assert(Self::spec_all()[1] == d),
                AdjacentDirection::South => assert(Self::spec_all()[2] == d),
                AdjacentDirection::West => assert(Self::spec_all()[3] == d),
            }
        }
    }

    fn as_mask(self) -> (r: u32) {
        match self {
            AdjacentDirection::North => 1,
            AdjacentDirection::East => 2,
            AdjacentDirection::South => 4,
            AdjacentDirection::West => 8,
        }
    }

    fn all() -> (r: Vec<Self>) {
        vec![
            AdjacentDirection::North,
            AdjacentDirection::East,
            AdjacentDirection::South,
            AdjacentDirection::West,
        ]
    }
}

/// The eight compass directions, clockwise from North, 45 degrees apart.
#[derive(Debug, Clone, Copy, PartialEq, Eq, Hash, Structural)]
pub enum Direction {
    North,
    NorthEast,
    East,
    SouthEast,
    South,
    SouthWest,
    West,
    NorthWest,
}

impl Direction {
    /// The position of the direction on the compass ring, clockwise from North.
    pub open spec fn index(self) -> nat {
        match self {
            Direction::North => 0,
            Direction::NorthEast => 1,
            Direction::East => 2,
            Direction::SouthEast => 3,
            Direction::South => 4,
            Direction::SouthWest => 5,
            Direction::West => 6,
            Direction::NorthWest => 7,
        }
    }

    /// The direction at position `i` of the ring, taken modulo 8.
    pub open spec fn at_index(i: int) -> Direction {
        let k = i % 8;
        if k == 0 {
            Direction::North
        } else if k == 1 {
            Direction::NorthEast
        } else if k == 2 {
            Direction::East
        } else if k == 3 {
            Direction::SouthEast
        } else if k == 4 {
            Direction::South
        } else if k == 5 {
            Direction::SouthWest
        } else if k == 6 {
            Direction::West
        } else {
            Direction::NorthWest
        }
    }

    /// The direction reached by turning `self` clockwise by `steps` times 45 degrees.
    pub open spec fn rotated(self, steps: int) -> Direction {
        Direction::at_index(self.index() + steps)
    }

    /// The four cardinal directions.
    pub open spec fn spec_adjacent() -> Seq<Direction> {
        seq![Direction::North, Direction::East, Direction::South, Direction::West]
    }

    /// The four cardinal directions, North, East, South and West.
    pub fn adjacent() -> (r: Vec<Direction>)
        ensures
            r@ == Self::spec_adjacent(),
    {
        vec![Direction::North, Direction::East, Direction::South, Direction::West]
    }

    /// Turns the direction clockwise by `times` steps of 45 degrees: its bit
    /// is rotated left by `times % 8` places within a ring of eight bits.
    pub fn rotate_45(self, times: u8) -> (r: Direction)
        ensures
            r == self.rotated(times as int),
    {
        let bits = self.as_mask();
        let shift = (times % 8) as u32;
        let i = self.index_exec();
        proof {
            lemma_rotate_bit(i, shift);
        }
        let new_bits = (bits << shift) | (bits >> (8 - shift));
        let moded = new_bits % 256;
        proof {
            let k = ((i + shift) % 8) as u32;
            assert(moded == 1u32 << k);
            lemma_pow_bits();
            assert(self.rotated(times as int) == Direction::at_index(k as int)) by {
                assert((self.index() + times as int) % 8 == k as int);
            }
        }
        if moded == Direction::North.as_mask() {
            Direction::North
        } else if moded == Direction::NorthEast.as_mask() {
            Direction::NorthEast
        } else if moded == Direction::East.as_mask() {
            Direction::East
        } else if moded == Direction::SouthEast.as_mask() {
            Direction::SouthEast
        } else if moded == Direction::South.as_mask() {
            Direction::South
        } else if moded == Direction::SouthWest.as_mask() {
            Direction::SouthWest
        } else if moded == Direction::West.as_mask() {
            Direction::West
        } else {
            Direction::NorthWest
        }
    }

    /// The column and row offsets of one step in this direction; North
    /// raises the row.
    pub open spec fn offset(self) -> (int, int) {
        match self {
            Direction::North => (0, 1),
            Direction::NorthEast => (1, 1),
            Direction::East => (1, 0),
            Direction::SouthEast => (1, -1),
            Direction::South => (0, -1),
            Direction::SouthWest => (-1, -1),
            Direction::West => (-1, 0),
            Direction::NorthWest => (-1, 1),
        }
    }

    /// The position one step from `pos` in this direction, if both of its
    /// coordinates fit a `u32`.
    pub open spec fn spec_step(self, pos: (u32, u32)) -> Option<(u32, u32)> {
        let x = pos.0 + self.offset().0;
        let y = pos.1 + self.offset().1;
        if 0 <= x <= u32::MAX && 0 <= y <= u32::MAX {
            Some((x as u32, y as u32))
        } else {
            None
        }
    }

    /// The position one step from `pos` in this direction, or none past the
    /// edge of the `u32` plane.
    pub fn move_point(self, pos: &(u32, u32)) -> (r: Option<(u32, u32)>)
        ensures
            r == self.spec_step(*pos),
    {
        let (x, y) = *pos;
        let nx = match self {
            Direction::North | Direction::South => Some(x),
            Direction::NorthEast | Direction::East | Direction::SouthEast => x.checked_add(1),
            Direction::SouthWest | Direction::West | Direction::NorthWest => x.checked_sub(1),
        };
        let ny = match self {
            Direction::East | Direction::West => Some(y),
            Direction::NorthWest | Direction::North | Direction::NorthEast => y.checked_add(1),
            Direction::SouthEast | Direction::South | Direction::SouthWest => y.checked_sub(1),
        };
        match (nx, ny) {
            (Some(a), Some(b)) => Some((a, b)),
            _ => None,
        }
    }

    fn index_exec(self) -> (r: u32)
        ensures
            r == self.index(),
            self.spec_mask() == 1u32 << r,
    {
        proof {
            lemma_pow_bits();
        }
        match self {
            Direction::North => 0,
            Direction::NorthEast => 1,
            Direction::East => 2,
            Direction::SouthEast => 3,
            Direction::South => 4,
            Direction::SouthWest => 5,
            Direction::West => 6,
            Direction::NorthWest => 7,
        }
    }
}

/// Rotation is a cyclic group action of order 8: eight steps come back to
/// the start, and two rotations compose into one by the sum of their steps
/// modulo 8.
pub proof fn lemma_rotation_cycle(d: Direction, a: u8, b: u8)
    ensures
        d.rotated(8) == d,
        d.rotated(a as int).rotated(b as int) == d.rotated((a + b) % 8),
{
    let i = d.index() as int;
    assert((i + 8) % 8 == i);
    let j = (i + a as int) % 8;
    assert(d.rotated(a as int).index() == j);
    assert((j + b as int) % 8 == (i + (a + b) % 8) % 8) by {
        vstd::arithmetic::div_mod::lemma_add_mod_noop_right(b as int, i + a as int, 8);
        vstd::arithmetic::div_mod::lemma_add_mod_noop_right(i, a + b, 8);
    }
}

proof fn lemma_pow_bits()
    ensures
        1u32 << 0u32 == 1,
        1u32 << 1u32 == 2,
        1u32 << 2u32 == 4,
        1u32 << 3u32 == 8,
        1u32 << 4u32 == 16,
        1u32 << 5u32 == 32,
        1u32 << 6u32 == 64,
        1u32 << 7u32 == 128,
{
    assert(1u32 << 0u32 == 1 && 1u32 << 1u32 == 2 && 1u32 << 2u32 == 4 && 1u32 << 3u32 == 8
        && 1u32 << 4u32 == 16 && 1u32 << 5u32 == 32 && 1u32 << 6u32 == 64 && 1u32 << 7u32 == 128)
        by (bit_vector);
}

/// Rotating a single bit of an eight-bit ring left by `s` places moves it
/// from place `i` to place `(i + s) % 8`.
proof fn lemma_rotate_bit(i: u32, s: u32)
    requires
        i < 8,
        s < 8,
    ensures
        (((1u32 << i) << s) | ((1u32 << i) >> (8 - s) as u32)) % 256 == 1u32 << ((i + s) % 8),
{
    assert(i < 8 && s < 8 ==> (((1u32 << i) << s) | ((1u32 << i) >> (8 - s) as u32)) % 256 == 1u32
        << ((i + s) % 8)) by (bit_vector);
}

impl AsMask for Direction {
    open spec fn spec_mask(self) -> u32 {
        match self {
            Direction::North => 1,
            Direction::NorthEast => 2,
            Direction::East => 4,
            Direction::SouthEast => 8,
            Direction::South => 16,
            Direction::SouthWest => 32,
            Direction::West => 64,
            Direction::NorthWest => 128,
        }
    }

    open spec fn spec_all() -> Seq<Self> {
        seq![
            Direction::North,
            Direction::NorthEast,
            Direction::East,
            Direction::SouthEast,
            Direction::South,
            Direction::SouthWest,
            Direction::West,
            Direction::NorthWest,
        ]
    }

    proof fn lemma_mask_laws() {
        assert forall|d: Self| #[trigger] is_single_bit(d.spec_mask()) by {
            assert(1u32 & 0u32 == 0 && 2u32 & 1u32 == 0 && 4u32 & 3u32 == 0 && 8u32 & 7u32 == 0
                && 16u32 & 15u32 == 0 && 32u32 & 31u32 == 0 && 64u32 & 63u32 == 0 && 128u32
                & 127u32 == 0) by (bit_vector);
        }
        assert forall|d: Self, e: Self| d != e implies #[trigger] d.spec_mask()
            & #[trigger] e.spec_mask() == 0 by {
            let a = d.index() as u32;
            let b = e.index() as u32;
            assert(d.spec_mask() == 1u32 << a && e.spec_mask() == 1u32 << b) by {
                lemma_pow_bits();
            }
            assert(a != b);
            assert(a < 8 && b < 8 && a != b ==> (1u32 << a) & (1u32 << b) == 0) by (bit_vector);
        }
        assert forall|d: Self| Self::spec_all().contains(d) by {
            assert(Self::spec_all()[d.index() as int] == d);
        }
    }

    fn as_mask(self) -> (r: u32) {
        match self {
            Direction::North => 1,
            Direction::NorthEast => 2,
            Direction::East => 4,
            Direction::SouthEast => 8,
            Direction::South => 16,
            Direction::SouthWest => 32,
            Direction::West => 64,
            Direction::NorthWest => 128,
        }
    }

    fn all() -> (r: Vec<Self>) {
        vec![
            Direction::North,
            Direction::NorthEast,
            Direction::East,
            Direction::SouthEast,
            Direction::South,
            Direction::SouthWest,
            Direction::West,
            Direction::NorthWest,
        ]
    }
}

} // verus!
