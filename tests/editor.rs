use circuits::cell::Cell;
use circuits::direction::Direction;
use circuits::editor::{hotbar, Editor};
use circuits::grid::Grid;
use circuits::keys::{Key, KeyState};
use circuits::save::{decode_save, encode_save};

#[test]
fn key_codes_parse() {
    assert_eq!(Key::from_code("KeyA"), Ok(Key::A));
    assert_eq!(Key::from_code("Digit7"), Ok(Key::Seven));
    assert_eq!(Key::from_code("ShiftLeft"), Ok(Key::Shift));
    assert_eq!(Key::from_code("ArrowDown"), Ok(Key::Down));
    assert_eq!(Key::from_code("ShiftRight"), Err(()));
    assert_eq!(Key::from_code(""), Err(()));
    assert_eq!("Space".parse::<Key>(), Ok(Key::Space));
    assert_eq!(Key::Escape.code(), "Escape");
}

#[test]
fn key_state_tracks_presses() {
    let mut keys = KeyState::default();
    assert!(!keys.get(Key::E));
    keys.set(Key::E, true);
    assert!(keys.get(Key::E));
    assert!(!keys.get(Key::R));
    keys.set(Key::E, false);
    assert!(!keys.get(Key::E));
}

#[test]
fn save_text_shifts_bytes() {
    assert_eq!(encode_save(&[0, 1, 94]), Some(vec![33, 34, 127]));
    assert_eq!(encode_save(&[223]), None);
    assert_eq!(decode_save(&[33, 34, 127]), Some(vec![0, 1, 94]));
    assert_eq!(decode_save(&[32]), None);
}

#[test]
fn save_text_round_trip_of_grid() {
    let mut grid = Grid::new(3, 2);
    grid.set_cell(2, 1, Cell::Cable { active: true, direction: Direction::Down });
    let text = encode_save(&grid.serialize()).unwrap();
    let back = Grid::deserialize(&decode_save(&text).unwrap()).unwrap();
    assert_eq!(grid, back);
}

#[test]
fn iterator_walks_row_major() {
    let mut grid = Grid::new(2, 2);
    grid.set_cell(1, 0, Cell::Point { active: true, marked: 0 });
    let mut it = grid.iter();
    let mut seen = vec![];
    while let Some((xy, cell)) = it.next() {
        seen.push((xy, cell.is_active()));
    }
    assert_eq!(seen, vec![([0, 0], false), ([1, 0], true), ([0, 1], false), ([1, 1], false)]);
}

#[test]
fn editor_places_rotates_and_clears() {
    let mut ed = Editor::new(Grid::new(4, 4));
    ed.click(1, 1);
    assert_eq!(ed.grid().get(1, 1), Some(&Cell::Empty));
    ed.take(hotbar()[1]);
    ed.click(1, 1);
    assert_eq!(ed.grid().get(1, 1), Some(&Cell::Cable { active: false, direction: Direction::Up }));
    ed.key_down(Key::R, 0, 0);
    assert_eq!(ed.hand(), Cell::Cable { active: false, direction: Direction::Right });
    ed.key_up(Key::R);
    ed.key_down(Key::Shift, 0, 0);
    ed.click(1, 1);
    assert_eq!(ed.grid().get(1, 1), Some(&Cell::Empty));
    ed.click(9, 9);
    assert!(ed.grid().get(9, 9).is_none());
}

#[test]
fn editor_picks_toggles_and_steps() {
    let mut grid = Grid::new(3, 1);
    grid.set_cell(2, 0, Cell::Not { active: false, direction: Direction::Right });
    let mut ed = Editor::new(grid);
    ed.key_down(Key::Q, 2, 0);
    assert_eq!(ed.hand(), Cell::Not { active: false, direction: Direction::Right });
    ed.key_down(Key::E, 0, 0);
    assert!(ed.hand().is_active());
    ed.key_down(Key::Q, 0, 0);
    assert_eq!(ed.hand(), Cell::Empty);
    ed.key_down(Key::E, 2, 0);
    assert!(ed.grid().get(2, 0).unwrap().is_active());
    ed.key_down(Key::Right, 0, 0);
    assert!(ed.grid().get(2, 0).unwrap().is_active());
    assert!(!ed.running());
    ed.key_down(Key::Space, 0, 0);
    assert!(ed.running());
    let saved = ed.key_down(Key::S, 0, 0).unwrap();
    assert_eq!(saved, ed.grid().serialize());
}

#[test]
fn editor_update_forces_signal_while_e_held() {
    let mut grid = Grid::new(2, 1);
    grid.set_cell(0, 0, Cell::Cable { active: false, direction: Direction::Right });
    let mut ed = Editor::new(grid);
    ed.key_down(Key::E, 1, 0);
    ed.update(0, 0);
    assert!(ed.grid().get(0, 0).unwrap().is_active());
    assert!(ed.is_held(Key::E));
}
