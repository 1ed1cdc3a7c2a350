use vstd::prelude::*;

verus! {

/// One of the four cardinal orientations of the grid.
#[derive(Debug, Clone, Copy, PartialEq, Eq, Structural)]
pub enum Direction {
    Up,
    Down,
    Left,
    Right,
}

/// The opposite orientation.
pub open spec fn spec_rev(d: Direction) -> Direction {
    match d {
        Direction::Up => Direction::Down,
        Direction::Down => Direction::Up,
        Direction::Left => Direction::Right,
        Direction::Right => Direction::Left,
    }
}

/// A quarter turn clockwise: Up, Right, Down, Left, Up.
pub open spec fn spec_rotate_cw(d: Direction) -> Direction {
    match d {
        Direction::Up => Direction::Right,
        Direction::Right => Direction::Down,
        Direction::Down => Direction::Left,
        Direction::Left => Direction::Up,
    }
}

/// A quarter turn counter-clockwise.
pub open spec fn spec_rotate_ccw(d: Direction) -> Direction {
    match d {
        Direction::Up => Direction::Left,
        Direction::Left => Direction::Down,
        Direction::Down => Direction::Right,
        Direction::Right => Direction::Up,
    }
}

/// The unit step of a direction on screen axes (y grows downwards).
pub open spec fn spec_offset(d: Direction) -> (int, int) {
    match d {
        Direction::Up => (0, -1),
        Direction::Down => (0, 1),
        Direction::Left => (-1, 0),
        Direction::Right => (1, 0),
    }
}

/// Whether two directions are at a right angle to each other.
pub open spec fn orthogonal(a: Direction, b: Direction) -> bool {
    a != b && a != spec_rev(b)
}

impl Direction {
    pub fn rev(self) -> (r: Direction)
        ensures
            r == spec_rev(self),
    {
        match self {
            Direction::Up => Direction::Down,
            Direction::Down => Direction::Up,
            Direction::Left => Direction::Right,
            Direction::Right => Direction::Left,
        }
    }

    pub fn rotate_cw(self) -> (r: Direction)
        ensures
            r == spec_rotate_cw(self),
    {
        match self {
            Direction::Up => Direction::Right,
            Direction::Right => Direction::Down,
            Direction::Down => Direction::Left,
            Direction::Left => Direction::Up,
        }
    }

    pub fn rotate_ccw(self) -> (r: Direction)
        ensures
            r == spec_rotate_ccw(self),
    {
        match self {
            Direction::Up => Direction::Left,
            Direction::Left => Direction::Down,
            Direction::Down => Direction::Right,
            Direction::Right => Direction::Up,
        }
    }

    /// The four directions in canonical order: Up, Right, Down, Left.
    pub fn all() -> (r: [Direction; 4])
        ensures
            r@ == seq![Direction::Up, Direction::Right, Direction::Down, Direction::Left],
    {
        let r = [Direction::Up, Direction::Right, Direction::Down, Direction::Left];
        assert(r@ =~= seq![Direction::Up, Direction::Right, Direction::Down, Direction::Left]);
        r
    }

    /// The unit step `(dx, dy)` of this direction.
    pub fn offset(self) -> (r: (i32, i32))
        ensures
            r.0 as int == spec_offset(self).0,
            r.1 as int == spec_offset(self).1,
    {
        match self {
            Direction::Up => (0, -1),
            Direction::Down => (0, 1),
            Direction::Left => (-1, 0),
            Direction::Right => (1, 0),
        }
    }
}

/// Turning clockwise undoes turning counter-clockwise, and the reverse is an involution.
pub proof fn lemma_rotations_inverse(d: Direction)
    ensures
        spec_rotate_cw(spec_rotate_ccw(d)) == d,
        spec_rotate_ccw(spec_rotate_cw(d)) == d,
        spec_rev(spec_rev(d)) == d,
        spec_rotate_cw(spec_rotate_cw(d)) == spec_rev(d),
        spec_rotate_cw(spec_rotate_cw(spec_rotate_cw(spec_rotate_cw(d)))) == d,
{
}

} // verus!
