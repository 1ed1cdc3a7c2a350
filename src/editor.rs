use vstd::prelude::*;
use crate::cell::{Cell, is_point, spec_is_active, spec_rotate, spec_set, strip, lemma_strip_rotate};
use crate::direction::Direction;
use crate::grid::{Grid, GridModel, tick, spec_serialize};
use crate::keys::{Key, KeyState};

verus! {

/// Whether column `x`, row `y` lies on the grid.
pub open spec fn in_grid(g: GridModel, x: int, y: int) -> bool {
    0 <= x < g.width && 0 <= y < g.height
}

/// The grid with the cell at `(x, y)` replaced by `c`; off the grid nothing changes.
pub open spec fn edited(g: GridModel, x: int, y: int, c: Cell) -> GridModel {
    if in_grid(g, x, y) {
        GridModel { cells: g.cells.update(x + y * g.width, c), ..g }
    } else {
        g
    }
}

pub open spec fn cell_at(g: GridModel, x: int, y: int) -> Cell {
    g.cells[x + y * g.width]
}

/// The signal of a non-Point cell at `(x, y)` set to `signal`; Points and off-grid spots stay.
pub open spec fn signal_set_at(g: GridModel, x: int, y: int, signal: bool) -> GridModel {
    if in_grid(g, x, y) && !is_point(cell_at(g, x, y)) {
        edited(g, x, y, spec_set(cell_at(g, x, y), signal))
    } else {
        g
    }
}

/// Whether a grid's epoch counter has room for one more tick.
pub open spec fn tick_room(epoch: u32, g: GridModel) -> bool {
    epoch + 2 * g.cells.len() <= u32::MAX
}

/// The grid after one tick, or unchanged when its epoch counter has no room for one.
pub open spec fn stepped(epoch: u32, g: GridModel) -> GridModel {
    if tick_room(epoch, g) {
        GridModel { cells: tick(g.cells, g.width as int), ..g }
    } else {
        g
    }
}

/// The cells a player can take into the hand, in the order the hotbar shows them.
pub open spec fn spec_hotbar() -> Seq<Cell> {
    seq![
        Cell::And { active: false, direction: Direction::Up },
        Cell::Cable { active: false, direction: Direction::Up },
        Cell::Not { active: false, direction: Direction::Up },
        Cell::Tee { active: false, direction: Direction::Up },
        Cell::Point { active: true, marked: 0 },
    ]
}

pub fn hotbar() -> (r: [Cell; 5])
    ensures
        r@ == spec_hotbar(),
{
    let r = [
        Cell::And { active: false, direction: Direction::Up },
        Cell::Cable { active: false, direction: Direction::Up },
        Cell::Not { active: false, direction: Direction::Up },
        Cell::Tee { active: false, direction: Direction::Up },
        Cell::Point { active: true, marked: 0 },
    ];
    assert(r@ =~= spec_hotbar());
    r
}

/// The editing session around a grid: the cell in the player's hand, the keys held down,
/// and whether ticks run on their own.
pub struct Editor {
    grid: Grid,
    hand: Cell,
    keys: KeyState,
    running: bool,
}

impl Editor {
    pub closed spec fn wf(&self) -> bool {
        self.grid.wf() && self.keys.wf()
    }

    pub closed spec fn spec_grid(&self) -> Grid {
        self.grid
    }

    pub closed spec fn spec_hand(&self) -> Cell {
        self.hand
    }

    pub closed spec fn spec_keys(&self) -> KeyState {
        self.keys
    }

    pub closed spec fn spec_running(&self) -> bool {
        self.running
    }

    /// A session on `grid` with an empty hand, no key held and ticking paused.
    pub fn new(grid: Grid) -> (r: Editor)
        requires
            grid.wf(),
        ensures
            r.wf(),
            r.spec_grid() == grid,
            r.spec_hand() == Cell::Empty,
            !r.spec_running(),
            forall|k: Key| !r.spec_keys().held(k),
    {
        Editor { grid, hand: Cell::Empty, keys: KeyState::new(), running: false }
    }

    pub fn grid(&self) -> (r: &Grid)
        ensures
            r == self.spec_grid(),
    {
        &self.grid
    }

    pub fn hand(&self) -> (r: Cell)
        ensures
            r == self.spec_hand(),
    {
        self.hand
    }

    pub fn running(&self) -> (r: bool)
        ensures
            r == self.spec_running(),
    {
        self.running
    }

    pub fn is_held(&self, key: Key) -> (r: bool)
        requires
            self.wf(),
        ensures
            r == self.spec_keys().held(key),
    {
        self.keys.get(key)
    }

    /// Puts `cell` into the hand, as picking it from the hotbar does.
    pub fn take(&mut self, cell: Cell)
        ensures
            final(self).spec_hand() == cell,
            final(self).spec_grid() == old(self).spec_grid(),
            final(self).spec_keys() == old(self).spec_keys(),
            final(self).spec_running() == old(self).spec_running(),
    {
        self.hand = cell;
    }

    /// Runs one tick if the epoch counter has room for it; says whether it ran.
    pub fn step(&mut self) -> (r: bool)
        requires
            old(self).wf(),
        ensures
            final(self).wf(),
            r == (old(self).spec_grid().epoch() + 2 * old(self).spec_grid()@.cells.len()
                <= u32::MAX),
            r ==> final(self).spec_grid()@ == (GridModel {
                cells: tick(old(self).spec_grid()@.cells, old(self).spec_grid()@.width as int),
                ..old(self).spec_grid()@
            }),
            !r ==> final(self).spec_grid() == old(self).spec_grid(),
            final(self).spec_hand() == old(self).spec_hand(),
            final(self).spec_keys() == old(self).spec_keys(),
            final(self).spec_running() == old(self).spec_running(),
    {
        let n = self.grid.cell_count();
        let room = (u32::MAX - self.grid.marker()) as usize / 2;
        if n <= room {
            self.grid.simulate();
            true
        } else {
            false
        }
    }

    /// Sets the signal of the non-Point cell under the cursor.
    fn set_signal_at(&mut self, x: u32, y: u32, signal: bool)
        requires
            old(self).wf(),
        ensures
            final(self).wf(),
            final(self).spec_grid()@ == signal_set_at(old(self).spec_grid()@, x as int, y as int, signal),
            final(self).spec_grid().epoch() == old(self).spec_grid().epoch(),
            final(self).spec_hand() == old(self).spec_hand(),
            final(self).spec_keys() == old(self).spec_keys(),
            final(self).spec_running() == old(self).spec_running(),
    {
        let xu = x as usize;
        let yu = y as usize;
        match self.grid.get(xu, yu) {
            Some(c) => {
                let is_pt = match c {
                    Cell::Point { .. } => true,
                    _ => false,
                };
                if !is_pt {
                    let mut c2 = *c;
                    c2.set(signal);
                    self.grid.set_cell(xu, yu, c2);
                }
            },
            None => {},
        }
    }

    /// A primary click on the grid at `(x, y)`: clears the cell while Shift is held, else
    /// places the cell in hand, if any.
    pub fn click(&mut self, x: u32, y: u32)
        requires
            old(self).wf(),
        ensures
            final(self).wf(),
            final(self).spec_grid()@ == if old(self).spec_keys().held(Key::Shift) {
                edited(old(self).spec_grid()@, x as int, y as int, Cell::Empty)
            } else if old(self).spec_hand() != Cell::Empty {
                edited(old(self).spec_grid()@, x as int, y as int, strip(old(self).spec_hand()))
            } else {
                old(self).spec_grid()@
            },
            final(self).spec_hand() == old(self).spec_hand(),
            final(self).spec_keys() == old(self).spec_keys(),
            final(self).spec_running() == old(self).spec_running(),
    {
        let xu = x as usize;
        let yu = y as usize;
        if xu < self.grid.width() && yu < self.grid.height() {
            if self.keys.get(Key::Shift) {
                self.grid.set_cell(xu, yu, Cell::Empty);
            } else if self.hand != Cell::Empty {
                self.grid.set_cell(xu, yu, self.hand);
            }
        }
    }

    /// A key pressed with the cursor over `(x, y)`. Returns the grid's bytes when the key
    /// asks for a save.
    pub fn key_down(&mut self, key: Key, x: u32, y: u32) -> (r: Option<Vec<u8>>)
        requires
            old(self).wf(),
        ensures
            final(self).wf(),
            final(self).spec_keys().held(key),
            forall|k: Key| k != key ==> final(self).spec_keys().held(k) == old(self).spec_keys().held(k),
            ({
                let g = old(self).spec_grid()@;
                let hand = old(self).spec_hand();
                let g2 = final(self).spec_grid()@;
                match key {
                    Key::R => if hand != Cell::Empty {
                        final(self).spec_hand() == spec_rotate(hand) && g2 == g
                    } else {
                        final(self).spec_hand() == hand && g2 == if in_grid(g, x as int, y as int) {
                            edited(g, x as int, y as int, spec_rotate(cell_at(g, x as int, y as int)))
                        } else {
                            g
                        }
                    },
                    Key::E => if hand != Cell::Empty {
                        final(self).spec_hand() == spec_set(hand, !spec_is_active(hand)) && g2 == g
                    } else {
                        final(self).spec_hand() == hand && g2 == signal_set_at(
                            g,
                            x as int,
                            y as int,
                            !spec_is_active(cell_at(g, x as int, y as int)),
                        )
                    },
                    Key::Q => g2 == g && (hand != Cell::Empty ==> final(self).spec_hand() == Cell::Empty)
                        && (hand == Cell::Empty && in_grid(g, x as int, y as int) ==> strip(
                        final(self).spec_hand(),
                    ) == cell_at(g, x as int, y as int)) && (hand == Cell::Empty && !in_grid(
                        g,
                        x as int,
                        y as int,
                    ) ==> final(self).spec_hand() == Cell::Empty),
                    Key::Right => final(self).spec_hand() == hand && g2 == stepped(
                        old(self).spec_grid().epoch(),
                        g,
                    ),
                    Key::Space => final(self).spec_hand() == hand && g2 == g
                        && final(self).spec_running() == !old(self).spec_running(),
                    Key::S => final(self).spec_hand() == hand && g2 == g && (r is Some <==> (g.width
                        <= u32::MAX && g.height <= u32::MAX)) && (r is Some ==> r->0@
                        == spec_serialize(g)),
                    _ => final(self).spec_hand() == hand && g2 == g,
                }
            }),
            key != Key::Space ==> final(self).spec_running() == old(self).spec_running(),
            key != Key::S ==> r is None,
    {
        self.keys.set(key, true);
        match key {
            Key::R => {
                if self.hand != Cell::Empty {
                    self.hand.rotate();
                } else {
                    let xu = x as usize;
                    let yu = y as usize;
                    match self.grid.get(xu, yu) {
                        Some(c) => {
                            let mut c2 = *c;
                            c2.rotate();
                            proof {
                                lemma_strip_rotate(*c);
                            }
                            self.grid.set_cell(xu, yu, c2);
                        },
                        None => {},
                    }
                }
                None
            },
            Key::E => {
                if self.hand != Cell::Empty {
                    let a = self.hand.is_active();
                    self.hand.set(!a);
                } else {
                    match self.grid.get(x as usize, y as usize) {
                        Some(c) => {
                            let a = c.is_active();
                            self.set_signal_at(x, y, !a);
                        },
                        None => {},
                    }
                }
                None
            },
            Key::Q => {
                if self.hand == Cell::Empty {
                    self.hand = match self.grid.get(x as usize, y as usize) {
                        Some(c) => *c,
                        None => Cell::Empty,
                    };
                } else {
                    self.hand = Cell::Empty;
                }
                None
            },
            Key::Right => {
                self.step();
                None
            },
            Key::Space => {
                self.running = !self.running;
                None
            },
            Key::S => {
                if self.grid.width() <= u32::MAX as usize && self.grid.height() <= u32::MAX as usize {
                    Some(self.grid.serialize())
                } else {
                    None
                }
            },
            _ => None,
        }
    }

    /// A key released.
    pub fn key_up(&mut self, key: Key)
        requires
            old(self).wf(),
        ensures
            final(self).wf(),
            !final(self).spec_keys().held(key),
            forall|k: Key| k != key ==> final(self).spec_keys().held(k) == old(self).spec_keys().held(k),
            final(self).spec_grid() == old(self).spec_grid(),
            final(self).spec_hand() == old(self).spec_hand(),
            final(self).spec_running() == old(self).spec_running(),
    {
        self.keys.set(key, false);
    }

    /// One frame with the cursor over `(x, y)`: while E is held the cell there is switched
    /// on, then, if ticking runs on its own, one tick runs.
    pub fn update(&mut self, x: u32, y: u32)
        requires
            old(self).wf(),
        ensures
            final(self).wf(),
            ({
                let g = old(self).spec_grid()@;
                let g1 = if old(self).spec_keys().held(Key::E) {
                    signal_set_at(g, x as int, y as int, true)
                } else {
                    g
                };
                let g2 = final(self).spec_grid()@;
                if old(self).spec_running() {
                    g2 == stepped(old(self).spec_grid().epoch(), g1)
                } else {
                    g2 == g1
                }
            }),
            final(self).spec_hand() == old(self).spec_hand(),
            final(self).spec_keys() == old(self).spec_keys(),
            final(self).spec_running() == old(self).spec_running(),
    {
        if self.keys.get(Key::E) {
            self.set_signal_at(x, y, true);
        }
        if self.running {
            self.step();
        }
    }
}

} // verus!
