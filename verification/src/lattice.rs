//! The D2Q9 lattice: the nine directions a cell exchanges fluid along,
//! their unit vectors, their fixed order, and their opposites.
use vstd::prelude::*;

verus! {

/// Number of lattice directions of a D2Q9 cell.
pub const Q: usize = 9;

/// One of the nine directions of a D2Q9 cell, the rest direction included.
#[derive(Clone, Copy, Debug, PartialEq, Eq, Structural)]
pub enum CardinalDirection {
    Rest,
    North,
    NorthEast,
    East,
    SouthEast,
    South,
    SouthWest,
    West,
    NorthWest,
}

/// The unit vector `(dx, dy)` of a direction; north is `+y`, east is `+x`.
pub open spec fn spec_direction_vector(direction: CardinalDirection) -> (int, int) {
    match direction {
        CardinalDirection::Rest => (0, 0),
        CardinalDirection::North => (0, 1),
        CardinalDirection::NorthEast => (1, 1),
        CardinalDirection::East => (1, 0),
        CardinalDirection::SouthEast => (1, -1),
        CardinalDirection::South => (0, -1),
        CardinalDirection::SouthWest => (-1, -1),
        CardinalDirection::West => (-1, 0),
        CardinalDirection::NorthWest => (-1, 1),
    }
}

/// The direction stored at slot `i` of a cell: rest first, then clockwise from north.
pub open spec fn direction_of(i: int) -> CardinalDirection {
    if i == 0 {
        CardinalDirection::Rest
    } else if i == 1 {
        CardinalDirection::North
    } else if i == 2 {
        CardinalDirection::NorthEast
    } else if i == 3 {
        CardinalDirection::East
    } else if i == 4 {
        CardinalDirection::SouthEast
    } else if i == 5 {
        CardinalDirection::South
    } else if i == 6 {
        CardinalDirection::SouthWest
    } else if i == 7 {
        CardinalDirection::West
    } else {
        CardinalDirection::NorthWest
    }
}

/// The slot of a cell that holds a direction.
pub open spec fn index_of(direction: CardinalDirection) -> int {
    match direction {
        CardinalDirection::Rest => 0,
        CardinalDirection::North => 1,
        CardinalDirection::NorthEast => 2,
        CardinalDirection::East => 3,
        CardinalDirection::SouthEast => 4,
        CardinalDirection::South => 5,
        CardinalDirection::SouthWest => 6,
        CardinalDirection::West => 7,
        CardinalDirection::NorthWest => 8,
    }
}

/// The direction pointing the other way (rest is its own opposite).
pub open spec fn spec_opposite(direction: CardinalDirection) -> CardinalDirection {
    match direction {
        CardinalDirection::Rest => CardinalDirection::Rest,
        CardinalDirection::North => CardinalDirection::South,
        CardinalDirection::NorthEast => CardinalDirection::SouthWest,
        CardinalDirection::East => CardinalDirection::West,
        CardinalDirection::SouthEast => CardinalDirection::NorthWest,
        CardinalDirection::South => CardinalDirection::North,
        CardinalDirection::SouthWest => CardinalDirection::NorthEast,
        CardinalDirection::West => CardinalDirection::East,
        CardinalDirection::NorthWest => CardinalDirection::SouthEast,
    }
}

/// The x component of the vector of slot `i`.
pub open spec fn offset_x(i: int) -> int {
    spec_direction_vector(direction_of(i)).0
}

/// The y component of the vector of slot `i`.
pub open spec fn offset_y(i: int) -> int {
    spec_direction_vector(direction_of(i)).1
}

/// The slot that holds the opposite of the direction of slot `i`.
pub open spec fn opposite_index(i: int) -> int {
    index_of(spec_opposite(direction_of(i)))
}

/// The unit vector of a direction.
pub fn direction_vector(direction: CardinalDirection) -> (v: (i32, i32))
    ensures
        v.0 as int == spec_direction_vector(direction).0,
        v.1 as int == spec_direction_vector(direction).1,
{
    match direction {
        CardinalDirection::Rest => (0, 0),
        CardinalDirection::North => (0, 1),
        CardinalDirection::NorthEast => (1, 1),
        CardinalDirection::East => (1, 0),
        CardinalDirection::SouthEast => (1, -1),
        CardinalDirection::South => (0, -1),
        CardinalDirection::SouthWest => (-1, -1),
        CardinalDirection::West => (-1, 0),
        CardinalDirection::NorthWest => (-1, 1),
    }
}

/// The nine directions in slot order.
pub fn directions() -> (dirs: [CardinalDirection; Q])
    ensures
        forall|i: int| 0 <= i < Q ==> #[trigger] dirs@[i] == direction_of(i),
{
    [
        CardinalDirection::Rest,
        CardinalDirection::North,
        CardinalDirection::NorthEast,
        CardinalDirection::East,
        CardinalDirection::SouthEast,
        CardinalDirection::South,
        CardinalDirection::SouthWest,
        CardinalDirection::West,
        CardinalDirection::NorthWest,
    ]
}

/// The direction stored at slot `i`.
pub fn direction_at(i: usize) -> (direction: CardinalDirection)
    requires
        i < Q,
    ensures
        direction == direction_of(i as int),
{
    if i == 0 {
        CardinalDirection::Rest
    } else if i == 1 {
        CardinalDirection::North
    } else if i == 2 {
        CardinalDirection::NorthEast
    } else if i == 3 {
        CardinalDirection::East
    } else if i == 4 {
        CardinalDirection::SouthEast
    } else if i == 5 {
        CardinalDirection::South
    } else if i == 6 {
        CardinalDirection::SouthWest
    } else if i == 7 {
        CardinalDirection::West
    } else {
        CardinalDirection::NorthWest
    }
}

/// The slot that holds a direction.
pub fn direction_index(direction: CardinalDirection) -> (i: usize)
    ensures
        i as int == index_of(direction),
        i < Q,
{
    match direction {
        CardinalDirection::Rest => 0,
        CardinalDirection::North => 1,
        CardinalDirection::NorthEast => 2,
        CardinalDirection::East => 3,
        CardinalDirection::SouthEast => 4,
        CardinalDirection::South => 5,
        CardinalDirection::SouthWest => 6,
        CardinalDirection::West => 7,
        CardinalDirection::NorthWest => 8,
    }
}

/// The direction pointing the other way.
pub fn opposite(direction: CardinalDirection) -> (o: CardinalDirection)
    ensures
        o == spec_opposite(direction),
{
    match direction {
        CardinalDirection::Rest => CardinalDirection::Rest,
        CardinalDirection::North => CardinalDirection::South,
        CardinalDirection::NorthEast => CardinalDirection::SouthWest,
        CardinalDirection::East => CardinalDirection::West,
        CardinalDirection::SouthEast => CardinalDirection::NorthWest,
        CardinalDirection::South => CardinalDirection::North,
        CardinalDirection::SouthWest => CardinalDirection::NorthEast,
        CardinalDirection::West => CardinalDirection::East,
        CardinalDirection::NorthWest => CardinalDirection::SouthEast,
    }
}

/// The slot a distribution bounces back into when its direction `i` hits a wall.
pub fn opposite_direction_index(i: usize) -> (o: usize)
    requires
        i < Q,
    ensures
        o as int == opposite_index(i as int),
        o < Q,
{
    direction_index(opposite(direction_at(i)))
}

/// Slots and directions correspond one to one: every slot below `Q` holds a
/// direction whose slot it is, and every direction sits in a slot below `Q`.
pub proof fn lemma_slot_order_is_bijective()
    ensures
        forall|i: int| 0 <= i < Q ==> #[trigger] index_of(direction_of(i)) == i,
        forall|d: CardinalDirection|
            0 <= #[trigger] index_of(d) < Q && direction_of(index_of(d)) == d,
{
}

/// Opposite is an involution, reverses the unit vector, and only rest is its own opposite.
pub proof fn lemma_opposite(d: CardinalDirection)
    ensures
        spec_opposite(spec_opposite(d)) == d,
        spec_direction_vector(spec_opposite(d)).0 == -spec_direction_vector(d).0,
        spec_direction_vector(spec_opposite(d)).1 == -spec_direction_vector(d).1,
        (spec_opposite(d) == d) == (d == CardinalDirection::Rest),
{
}

/// Every component of a direction vector is -1, 0 or 1, and only rest has the zero vector.
pub proof fn lemma_unit_vectors(d: CardinalDirection)
    ensures
        -1 <= spec_direction_vector(d).0 <= 1,
        -1 <= spec_direction_vector(d).1 <= 1,
        (spec_direction_vector(d) == (0int, 0int)) == (d == CardinalDirection::Rest),
{
}

/// Different directions have different vectors.
pub proof fn lemma_vectors_distinct(a: CardinalDirection, b: CardinalDirection)
    ensures
        spec_direction_vector(a) == spec_direction_vector(b) ==> a == b,
{
}

/// Sum of the x components of the vectors of slots `0..n`.
pub open spec fn sum_x(n: nat) -> int
    decreases n,
{
    if n == 0 {
        0
    } else {
        sum_x((n - 1) as nat) + offset_x(n - 1)
    }
}

/// Sum of the y components of the vectors of slots `0..n`.
pub open spec fn sum_y(n: nat) -> int
    decreases n,
{
    if n == 0 {
        0
    } else {
        sum_y((n - 1) as nat) + offset_y(n - 1)
    }
}

/// The nine vectors cancel: a cell holding equal amounts in every direction has
/// zero momentum.
pub proof fn lemma_vectors_cancel()
    ensures
        sum_x(Q as nat) == 0,
        sum_y(Q as nat) == 0,
{
    reveal_with_fuel(sum_x, 10);
    reveal_with_fuel(sum_y, 10);
}

} // verus!
