use circuits::cell::{Cell, CellParseError};
use circuits::direction::Direction;
use circuits::grid::{Grid, GridParseError};

fn cable(active: bool, direction: Direction) -> Cell {
    Cell::Cable { active, direction }
}

fn point(active: bool) -> Cell {
    Cell::Point { active, marked: 0 }
}

#[test]
fn grid_serialize() {
    let mut grid = Grid::new(10, 10);
    grid.set_cell(
        0,
        5,
        Cell::And {
            active: true,
            direction: Direction::Left,
        },
    );
    assert_eq!(grid, Grid::deserialize(&grid.serialize()).unwrap());
}

#[test]
fn serialize_exact_bytes() {
    let mut grid = Grid::new(2, 1);
    grid.set_cell(1, 0, Cell::And { active: true, direction: Direction::Left });
    assert_eq!(grid.serialize(), vec![1, 0, 0, 0, 2, 0, 0, 0, 0, 23]);
}

#[test]
fn header_is_height_then_width() {
    let grid = Grid::deserialize(&[1, 0, 0, 0, 3, 0, 0, 0, 0, 0, 0]).unwrap();
    assert_eq!(grid.width(), 3);
    assert_eq!(grid.height(), 1);
}

#[test]
fn round_trip_after_ticks() {
    let mut grid = Grid::new(4, 3);
    grid.set_cell(0, 0, cable(true, Direction::Right));
    grid.set_cell(1, 0, point(false));
    grid.set_cell(1, 1, point(true));
    grid.set_cell(2, 2, Cell::Tee { active: false, direction: Direction::Down });
    grid.simulate();
    grid.simulate();
    let back = Grid::deserialize(&grid.serialize()).unwrap();
    assert_eq!(grid, back);
    assert_eq!(back.marker(), 1);
}

#[test]
fn simulate_is_deterministic() {
    let mut a = Grid::new(3, 3);
    a.set_cell(0, 1, Cell::Not { active: false, direction: Direction::Right });
    a.set_cell(1, 1, point(false));
    a.set_cell(2, 1, cable(false, Direction::Down));
    let mut b = Grid::deserialize(&a.serialize()).unwrap();
    assert_eq!(a, b);
    a.simulate();
    b.simulate();
    assert_eq!(a, b);
}

#[test]
fn adjacent_points_without_driver_turn_off() {
    let mut grid = Grid::new(3, 3);
    grid.set_cell(1, 1, point(true));
    grid.set_cell(2, 1, point(true));
    grid.simulate();
    assert!(!grid.get(1, 1).unwrap().is_active());
    assert!(!grid.get(2, 1).unwrap().is_active());
}

#[test]
fn cable_drives_whole_point_component() {
    let mut grid = Grid::new(4, 3);
    grid.set_cell(0, 0, cable(true, Direction::Right));
    grid.set_cell(1, 0, point(false));
    grid.set_cell(2, 0, point(false));
    grid.set_cell(2, 1, point(false));
    grid.set_cell(2, 2, point(false));
    grid.set_cell(0, 2, point(false));
    grid.simulate();
    assert!(grid.get(1, 0).unwrap().is_active());
    assert!(grid.get(2, 0).unwrap().is_active());
    assert!(grid.get(2, 1).unwrap().is_active());
    assert!(grid.get(2, 2).unwrap().is_active());
    assert!(!grid.get(0, 2).unwrap().is_active());
    // The cable itself has no input on its left edge.
    assert!(!grid.get(0, 0).unwrap().is_active());
}

#[test]
fn cable_pointing_away_does_not_drive() {
    let mut grid = Grid::new(2, 1);
    grid.set_cell(0, 0, cable(true, Direction::Left));
    grid.set_cell(1, 0, point(false));
    grid.simulate();
    assert!(!grid.get(1, 0).unwrap().is_active());
}

#[test]
fn not_without_input_turns_on() {
    let mut grid = Grid::new(3, 3);
    grid.set_cell(0, 1, Cell::Not { active: false, direction: Direction::Right });
    grid.set_cell(2, 2, Cell::Not { active: false, direction: Direction::Up });
    grid.simulate();
    assert!(grid.get(0, 1).unwrap().is_active());
    assert!(grid.get(2, 2).unwrap().is_active());
}

#[test]
fn not_with_driven_input_turns_off() {
    let mut grid = Grid::new(2, 1);
    grid.set_cell(0, 0, cable(true, Direction::Right));
    grid.set_cell(1, 0, Cell::Not { active: true, direction: Direction::Right });
    grid.simulate();
    assert!(!grid.get(1, 0).unwrap().is_active());
}

#[test]
fn and_needs_both_inputs() {
    let mut grid = Grid::new(3, 2);
    grid.set_cell(0, 0, Cell::Not { active: false, direction: Direction::Right });
    grid.set_cell(1, 0, Cell::And { active: false, direction: Direction::Down });
    grid.set_cell(2, 0, Cell::Not { active: false, direction: Direction::Left });
    grid.simulate();
    assert!(!grid.get(1, 0).unwrap().is_active());
    grid.simulate();
    assert!(grid.get(1, 0).unwrap().is_active());
    grid.set_cell(2, 0, cable(false, Direction::Left));
    grid.simulate();
    assert!(!grid.get(1, 0).unwrap().is_active());
}

#[test]
fn and_with_one_input_stays_off() {
    let mut grid = Grid::new(3, 1);
    grid.set_cell(0, 0, cable(true, Direction::Right));
    grid.set_cell(1, 0, Cell::And { active: true, direction: Direction::Up });
    grid.simulate();
    assert!(!grid.get(1, 0).unwrap().is_active());
}

#[test]
fn tee_feeds_both_sides() {
    let mut grid = Grid::new(3, 3);
    grid.set_cell(1, 2, cable(true, Direction::Up));
    grid.set_cell(1, 1, Cell::Tee { active: false, direction: Direction::Up });
    grid.set_cell(0, 1, cable(false, Direction::Left));
    grid.set_cell(2, 1, cable(false, Direction::Right));
    grid.set_cell(1, 0, cable(false, Direction::Up));
    grid.simulate();
    assert!(grid.get(1, 1).unwrap().is_active());
    grid.simulate();
    assert!(grid.get(0, 1).unwrap().is_active());
    assert!(grid.get(2, 1).unwrap().is_active());
    assert!(!grid.get(1, 0).unwrap().is_active());
}

#[test]
fn kind_six_and_seven_are_invalid() {
    assert!(matches!(Cell::from_byte(6 << 3), Err(CellParseError::KindInvalid(48, 6))));
    assert!(matches!(Cell::from_byte(7 << 3 | 1), Err(CellParseError::KindInvalid(57, 7))));
    let bytes = vec![1, 0, 0, 0, 1, 0, 0, 0, 6 << 3];
    assert!(matches!(
        Grid::deserialize(&bytes),
        Err(GridParseError::CellParseError(CellParseError::KindInvalid(48, 6)))
    ));
}

#[test]
fn truncated_input_is_too_short() {
    assert!(matches!(Grid::deserialize(&[1, 0, 0, 0, 1, 0, 0]), Err(GridParseError::InputTooShort)));
    assert!(matches!(Grid::deserialize(&[]), Err(GridParseError::InputTooShort)));
    assert!(matches!(
        Grid::deserialize(&[2, 0, 0, 0, 2, 0, 0, 0, 0, 0, 0]),
        Err(GridParseError::InputTooShort)
    ));
}

#[test]
fn bad_byte_before_end_is_reported_first() {
    assert!(matches!(
        Grid::deserialize(&[2, 0, 0, 0, 2, 0, 0, 0, 0, 7 << 3]),
        Err(GridParseError::CellParseError(CellParseError::KindInvalid(56, 7)))
    ));
}

#[test]
fn byte_encoding_values() {
    assert_eq!(Cell::Empty.to_byte(), 0);
    assert_eq!(cable(false, Direction::Up).to_byte(), 8);
    assert_eq!(Cell::Not { active: true, direction: Direction::Down }.to_byte(), 29);
    assert_eq!(Cell::Tee { active: false, direction: Direction::Right }.to_byte(), 34);
    assert_eq!(Cell::Point { active: true, marked: 9 }.to_byte(), 41);
    assert_eq!(Cell::from_byte(41).unwrap(), point(true));
    assert_eq!(Cell::from_byte(29).unwrap(), Cell::Not { active: true, direction: Direction::Down });
    assert_eq!(Cell::from_byte(0b1100_0000).unwrap(), Cell::Empty);
}

#[test]
fn rotate_cycles_directional_cells() {
    let mut c = cable(true, Direction::Up);
    let mut seen = vec![];
    for _ in 0..4 {
        c.rotate();
        seen.push(c.direction().unwrap());
    }
    assert_eq!(seen, vec![Direction::Right, Direction::Down, Direction::Left, Direction::Up]);
    let mut e = Cell::Empty;
    e.rotate();
    assert_eq!(e, Cell::Empty);
    let mut p = Cell::Point { active: true, marked: 3 };
    p.rotate();
    assert_eq!(p, Cell::Point { active: true, marked: 3 });
}

#[test]
fn direction_operations() {
    assert_eq!(Direction::Up.rev(), Direction::Down);
    assert_eq!(Direction::Left.rev(), Direction::Right);
    assert_eq!(Direction::Up.rotate_ccw(), Direction::Left);
    assert_eq!(Direction::Left.rotate_cw(), Direction::Up);
    assert_eq!(Direction::all(), [Direction::Up, Direction::Right, Direction::Down, Direction::Left]);
    assert_eq!(Direction::Up.offset(), (0, -1));
    assert_eq!(Direction::Right.offset(), (1, 0));
}

#[test]
fn cell_queries() {
    let mut c = Cell::Tee { active: true, direction: Direction::Up };
    assert!(c.signal_in_direction(Direction::Left));
    assert!(c.signal_in_direction(Direction::Right));
    assert!(!c.signal_in_direction(Direction::Up));
    assert!(!c.signal_in_direction(Direction::Down));
    c.set(false);
    assert!(!c.is_active());
    assert!(!c.signal_in_direction(Direction::Left));
    let mut e = Cell::Empty;
    e.set(true);
    assert!(!e.is_active());
    assert_eq!(e.direction(), None);
    assert!(point(true).signal_in_direction(Direction::Down));
    assert_eq!(point(true).direction(), None);
}

#[test]
fn get_checks_bounds() {
    let grid = Grid::new(3, 2);
    assert!(grid.get(2, 1).is_some());
    assert!(grid.get(3, 0).is_none());
    assert!(grid.get(0, 2).is_none());
}

#[test]
fn epoch_grows_with_components() {
    let mut grid = Grid::new(3, 1);
    grid.set_cell(0, 0, point(false));
    grid.set_cell(2, 0, point(false));
    let before = grid.marker();
    grid.simulate();
    assert!(grid.marker() > before);
}

#[test]
fn direction_mut_edits_in_place() {
    let mut c = Cell::Not { active: true, direction: Direction::Up };
    if let Some(d) = c.direction_mut() {
        *d = d.rotate_ccw();
    }
    assert_eq!(c, Cell::Not { active: true, direction: Direction::Left });
    let mut p = point(true);
    assert!(p.direction_mut().is_none());
    assert!(Cell::Empty.clone().direction_mut().is_none());
}
