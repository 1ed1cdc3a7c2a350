pub mod cell;
pub mod direction;
pub mod grid;
pub mod keys;
pub mod save;
pub mod editor;
