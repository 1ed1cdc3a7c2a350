use vstd::prelude::*;
use crate::direction::{Direction, spec_rev, spec_rotate_cw, orthogonal};

verus! {

/// The logic element held by one grid unit, with its orientation and signal state.
#[derive(Debug, Clone, Copy, PartialEq, Eq, Structural)]
pub enum Cell {
    Empty,
    /// A junction node; `marked` is the epoch at which a flood fill last visited it.
    Point { active: bool, marked: u32 },
    /// A wire carrying a signal from the side opposite `direction` towards `direction`.
    Cable { active: bool, direction: Direction },
    /// A two-input gate reading the two sides orthogonal to `direction`.
    And { active: bool, direction: Direction },
    /// An inverter reading the side opposite `direction`.
    Not { active: bool, direction: Direction },
    /// A splitter reading the side opposite `direction` and feeding both orthogonal sides.
    Tee { active: bool, direction: Direction },
}

/// Why a byte does not decode to a cell: the byte and the offending field.
#[derive(Debug, Clone, Copy, PartialEq, Eq, Structural)]
pub enum CellParseError {
    DirectionInvalid(u8, u8),
    KindInvalid(u8, u8),
}

pub open spec fn spec_is_active(c: Cell) -> bool {
    match c {
        Cell::Empty => false,
        Cell::Point { active, .. } => active,
        Cell::Cable { active, .. } => active,
        Cell::And { active, .. } => active,
        Cell::Not { active, .. } => active,
        Cell::Tee { active, .. } => active,
    }
}

pub open spec fn spec_direction(c: Cell) -> Option<Direction> {
    match c {
        Cell::Empty => None,
        Cell::Point { .. } => None,
        Cell::Cable { direction, .. } => Some(direction),
        Cell::And { direction, .. } => Some(direction),
        Cell::Not { direction, .. } => Some(direction),
        Cell::Tee { direction, .. } => Some(direction),
    }
}

pub open spec fn is_point(c: Cell) -> bool {
    c is Point
}

/// The cell with its signal state replaced; Empty has none.
pub open spec fn spec_set(c: Cell, signal: bool) -> Cell {
    match c {
        Cell::Empty => Cell::Empty,
        Cell::Point { marked, .. } => Cell::Point { active: signal, marked },
        Cell::Cable { direction, .. } => Cell::Cable { active: signal, direction },
        Cell::And { direction, .. } => Cell::And { active: signal, direction },
        Cell::Not { direction, .. } => Cell::Not { active: signal, direction },
        Cell::Tee { direction, .. } => Cell::Tee { active: signal, direction },
    }
}

/// The cell with its orientation replaced; Empty and Point have none.
pub open spec fn set_direction(c: Cell, d: Direction) -> Cell {
    match c {
        Cell::Cable { active, .. } => Cell::Cable { active, direction: d },
        Cell::And { active, .. } => Cell::And { active, direction: d },
        Cell::Not { active, .. } => Cell::Not { active, direction: d },
        Cell::Tee { active, .. } => Cell::Tee { active, direction: d },
        _ => c,
    }
}

/// The cell turned a quarter clockwise; Empty and Point have no orientation.
pub open spec fn spec_rotate(c: Cell) -> Cell {
    match c {
        Cell::Empty => Cell::Empty,
        Cell::Point { active, marked } => Cell::Point { active, marked },
        Cell::Cable { active, direction } => Cell::Cable { active, direction: spec_rotate_cw(direction) },
        Cell::And { active, direction } => Cell::And { active, direction: spec_rotate_cw(direction) },
        Cell::Not { active, direction } => Cell::Not { active, direction: spec_rotate_cw(direction) },
        Cell::Tee { active, direction } => Cell::Tee { active, direction: spec_rotate_cw(direction) },
    }
}

/// Whether the cell asserts a signal towards a neighbour lying on side `d` of it.
pub open spec fn spec_signals(c: Cell, d: Direction) -> bool {
    match c {
        Cell::Empty => false,
        Cell::Point { active, .. } => active,
        Cell::Cable { active, direction } => active && direction == d,
        Cell::And { active, direction } => active && direction == d,
        Cell::Not { active, direction } => active && direction == d,
        Cell::Tee { active, direction } => active && orthogonal(d, direction),
    }
}

/// The cell as the rest of the world sees it: a Point's flood-fill stamp is dropped.
pub open spec fn strip(c: Cell) -> Cell {
    match c {
        Cell::Point { active, .. } => Cell::Point { active, marked: 0 },
        _ => c,
    }
}

pub open spec fn kind_id(c: Cell) -> int {
    match c {
        Cell::Empty => 0,
        Cell::Cable { .. } => 1,
        Cell::And { .. } => 2,
        Cell::Not { .. } => 3,
        Cell::Tee { .. } => 4,
        Cell::Point { .. } => 5,
    }
}

pub open spec fn direction_id(d: Direction) -> int {
    match d {
        Direction::Up => 0,
        Direction::Right => 1,
        Direction::Down => 2,
        Direction::Left => 3,
    }
}

pub open spec fn id_direction(n: int) -> Direction {
    if n == 0 {
        Direction::Up
    } else if n == 1 {
        Direction::Right
    } else if n == 2 {
        Direction::Down
    } else {
        Direction::Left
    }
}

/// The packed byte of a cell: kind in bits 5..3, direction in bits 2..1, signal in bit 0.
pub open spec fn spec_to_byte(c: Cell) -> u8 {
    let dir = match spec_direction(c) {
        Some(d) => direction_id(d),
        None => 0,
    };
    (kind_id(c) * 8 + dir * 2 + if spec_is_active(c) { 1int } else { 0int }) as u8
}

/// The cell a byte stands for, or why it stands for none.
pub open spec fn spec_from_byte(b: u8) -> Result<Cell, CellParseError> {
    let kind = (b / 8) % 8;
    let dir = (b / 2) % 4;
    let active = b % 2 == 1;
    if kind == 5 {
        Ok(Cell::Point { active, marked: 0 })
    } else if dir > 3 {
        Err(CellParseError::DirectionInvalid(b, dir))
    } else if kind == 0 {
        Ok(Cell::Empty)
    } else if kind == 1 {
        Ok(Cell::Cable { active, direction: id_direction(dir as int) })
    } else if kind == 2 {
        Ok(Cell::And { active, direction: id_direction(dir as int) })
    } else if kind == 3 {
        Ok(Cell::Not { active, direction: id_direction(dir as int) })
    } else if kind == 4 {
        Ok(Cell::Tee { active, direction: id_direction(dir as int) })
    } else {
        Err(CellParseError::KindInvalid(b, kind))
    }
}

impl Cell {
    pub fn is_active(&self) -> (r: bool)
        ensures
            r == spec_is_active(*self),
    {
        match self {
            Cell::Empty => false,
            Cell::Point { active, .. } => *active,
            Cell::Cable { active, .. } => *active,
            Cell::And { active, .. } => *active,
            Cell::Not { active, .. } => *active,
            Cell::Tee { active, .. } => *active,
        }
    }

    pub fn direction(&self) -> (r: Option<Direction>)
        ensures
            r == spec_direction(*self),
    {
        match self {
            Cell::Empty | Cell::Point { .. } => None,
            Cell::Cable { direction, .. } => Some(*direction),
            Cell::And { direction, .. } => Some(*direction),
            Cell::Not { direction, .. } => Some(*direction),
            Cell::Tee { direction, .. } => Some(*direction),
        }
    }

    /// The orientation of a directional cell, for editing in place.
    pub fn direction_mut(&mut self) -> (r: Option<&mut Direction>)
        ensures
            r is Some <==> spec_direction(*old(self)) is Some,
            r is Some ==> *(r->0) == spec_direction(*old(self))->0,
            r is Some ==> *final(self) == set_direction(*old(self), *final(r->0)),
            r is None ==> *final(self) == *old(self),
    {
        match self {
            Cell::Empty | Cell::Point { .. } => None,
            Cell::Cable { direction, .. } => Some(direction),
            Cell::And { direction, .. } => Some(direction),
            Cell::Not { direction, .. } => Some(direction),
            Cell::Tee { direction, .. } => Some(direction),
        }
    }

    /// Whether this cell asserts a signal observable by a neighbour on side `dir` of it.
    pub fn signal_in_direction(&self, dir: Direction) -> (r: bool)
        ensures
            r == spec_signals(*self, dir),
    {
        match self {
            Cell::Empty => false,
            Cell::Point { active, .. } => *active,
            Cell::Tee { active, direction } => *active && *direction != dir && direction.rev() != dir,
            Cell::Cable { active, direction } => *active && *direction == dir,
            Cell::And { active, direction } => *active && *direction == dir,
            Cell::Not { active, direction } => *active && *direction == dir,
        }
    }

    /// Overwrites the signal state; Empty is left as it is.
    pub fn set(&mut self, signal: bool)
        ensures
            *final(self) == spec_set(*old(self), signal),
    {
        match self {
            Cell::Empty => {},
            Cell::Point { active, .. } => *active = signal,
            Cell::Cable { active, .. } => *active = signal,
            Cell::And { active, .. } => *active = signal,
            Cell::Not { active, .. } => *active = signal,
            Cell::Tee { active, .. } => *active = signal,
        }
    }

    /// Turns a directional cell a quarter clockwise; Empty and Point are left as they are.
    pub fn rotate(&mut self)
        ensures
            *final(self) == spec_rotate(*old(self)),
    {
        match self {
            Cell::Empty | Cell::Point { .. } => {},
            Cell::Cable { direction, .. } => *direction = direction.rotate_cw(),
            Cell::And { direction, .. } => *direction = direction.rotate_cw(),
            Cell::Not { direction, .. } => *direction = direction.rotate_cw(),
            Cell::Tee { direction, .. } => *direction = direction.rotate_cw(),
        }
    }

    /// The packed byte of this cell.
    pub fn to_byte(&self) -> (r: u8)
        ensures
            r == spec_to_byte(*self),
    {
        let kind: u8 = match self {
            Cell::Empty => 0,
            Cell::Cable { .. } => 1,
            Cell::And { .. } => 2,
            Cell::Not { .. } => 3,
            Cell::Tee { .. } => 4,
            Cell::Point { .. } => 5,
        };
        let dir: u8 = match self.direction() {
            Some(Direction::Up) | None => 0,
            Some(Direction::Right) => 1,
            Some(Direction::Down) => 2,
            Some(Direction::Left) => 3,
        };
        let active: u8 = if self.is_active() { 1 } else { 0 };
        kind * 8 + dir * 2 + active
    }

    /// Decodes a packed byte; bits 7 and 6 are ignored.
    pub fn from_byte(value: u8) -> (r: Result<Cell, CellParseError>)
        ensures
            r == spec_from_byte(value),
    {
        let kind: u8 = (value / 8) % 8;
        let active = value % 2 == 1;
        if kind == 5 {
            return Ok(Cell::Point { active, marked: 0 });
        }
        let dir: u8 = (value / 2) % 4;
        let direction = if dir == 0 {
            Direction::Up
        } else if dir == 1 {
            Direction::Right
        } else if dir == 2 {
            Direction::Down
        } else if dir == 3 {
            Direction::Left
        } else {
            return Err(CellParseError::DirectionInvalid(value, dir));
        };
        if kind == 0 {
            Ok(Cell::Empty)
        } else if kind == 1 {
            Ok(Cell::Cable { active, direction })
        } else if kind == 2 {
            Ok(Cell::And { active, direction })
        } else if kind == 3 {
            Ok(Cell::Not { active, direction })
        } else if kind == 4 {
            Ok(Cell::Tee { active, direction })
        } else {
            Err(CellParseError::KindInvalid(value, kind))
        }
    }
}

/// Decoding the byte of a cell gives the cell back, less its flood-fill stamp.
pub proof fn lemma_byte_round_trip(c: Cell)
    ensures
        spec_from_byte(spec_to_byte(c)) == Ok::<Cell, CellParseError>(strip(c)),
{
}

/// Turning a cell and dropping its stamp commute.
pub proof fn lemma_strip_rotate(c: Cell)
    ensures
        strip(spec_rotate(c)) == spec_rotate(strip(c)),
{
    match c {
        Cell::Point { .. } => {},
        _ => {},
    }
}

/// Four quarter turns bring a cell back; Empty and Point do not turn at all.
pub proof fn lemma_rotate_cycle(c: Cell)
    ensures
        spec_rotate(spec_rotate(spec_rotate(spec_rotate(c)))) == c,
        (c is Empty || c is Point) ==> spec_rotate(c) == c,
        spec_direction(c) is Some ==> spec_direction(spec_rotate(c)) == Some(
            spec_rotate_cw(spec_direction(c)->0),
        ),
{
}

/// A byte whose kind field holds 6 or 7 is refused as an invalid kind.
pub proof fn lemma_kind_invalid(b: u8)
    requires
        (b / 8) % 8 >= 6,
    ensures
        spec_from_byte(b) == Err::<Cell, CellParseError>(CellParseError::KindInvalid(b, (b / 8) % 8)),
{
}

} // verus!
