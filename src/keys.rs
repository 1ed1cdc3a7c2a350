use vstd::prelude::*;

verus! {

/// A keyboard key that the editor reacts to.
#[derive(Debug, PartialEq, Eq, Copy, Clone, Hash, Structural)]
pub enum Key {
    A,
    B,
    C,
    D,
    E,
    F,
    G,
    H,
    I,
    J,
    K,
    L,
    M,
    N,
    O,
    P,
    Q,
    R,
    S,
    T,
    U,
    V,
    W,
    X,
    Y,
    Z,
    Zero,
    One,
    Two,
    Three,
    Four,
    Five,
    Six,
    Seven,
    Eight,
    Nine,
    Shift,
    Control,
    Space,
    Escape,
    Alt,
    Right,
    Left,
    Up,
    Down,
}

/// The browser's code for the physical key.
pub open spec fn key_code(k: Key) -> Seq<char> {
    match k {
        Key::A => "KeyA"@,
        Key::B => "KeyB"@,
        Key::C => "KeyC"@,
        Key::D => "KeyD"@,
        Key::E => "KeyE"@,
        Key::F => "KeyF"@,
        Key::G => "KeyG"@,
        Key::H => "KeyH"@,
        Key::I => "KeyI"@,
        Key::J => "KeyJ"@,
        Key::K => "KeyK"@,
        Key::L => "KeyL"@,
        Key::M => "KeyM"@,
        Key::N => "KeyN"@,
        Key::O => "KeyO"@,
        Key::P => "KeyP"@,
        Key::Q => "KeyQ"@,
        Key::R => "KeyR"@,
        Key::S => "KeyS"@,
        Key::T => "KeyT"@,
        Key::U => "KeyU"@,
        Key::V => "KeyV"@,
        Key::W => "KeyW"@,
        Key::X => "KeyX"@,
        Key::Y => "KeyY"@,
        Key::Z => "KeyZ"@,
        Key::Zero => "Digit0"@,
        Key::One => "Digit1"@,
        Key::Two => "Digit2"@,
        Key::Three => "Digit3"@,
        Key::Four => "Digit4"@,
        Key::Five => "Digit5"@,
        Key::Six => "Digit6"@,
        Key::Seven => "Digit7"@,
        Key::Eight => "Digit8"@,
        Key::Nine => "Digit9"@,
        Key::Shift => "ShiftLeft"@,
        Key::Control => "ControlLeft"@,
        Key::Space => "Space"@,
        Key::Escape => "Escape"@,
        Key::Alt => "AltLeft"@,
        Key::Right => "ArrowRight"@,
        Key::Left => "ArrowLeft"@,
        Key::Up => "ArrowUp"@,
        Key::Down => "ArrowDown"@,
    }
}

/// The slot of a key in a table of all keys.
pub open spec fn key_index(k: Key) -> int {
    match k {
        Key::A => 0,
        Key::B => 1,
        Key::C => 2,
        Key::D => 3,
        Key::E => 4,
        Key::F => 5,
        Key::G => 6,
        Key::H => 7,
        Key::I => 8,
        Key::J => 9,
        Key::K => 10,
        Key::L => 11,
        Key::M => 12,
        Key::N => 13,
        Key::O => 14,
        Key::P => 15,
        Key::Q => 16,
        Key::R => 17,
        Key::S => 18,
        Key::T => 19,
        Key::U => 20,
        Key::V => 21,
        Key::W => 22,
        Key::X => 23,
        Key::Y => 24,
        Key::Z => 25,
        Key::Zero => 26,
        Key::One => 27,
        Key::Two => 28,
        Key::Three => 29,
        Key::Four => 30,
        Key::Five => 31,
        Key::Six => 32,
        Key::Seven => 33,
        Key::Eight => 34,
        Key::Nine => 35,
        Key::Shift => 36,
        Key::Control => 37,
        Key::Space => 38,
        Key::Escape => 39,
        Key::Alt => 40,
        Key::Right => 41,
        Key::Left => 42,
        Key::Up => 43,
        Key::Down => 44,
    }
}

/// How many keys there are.
pub const KEY_COUNT: usize = 45;

/// Whether `s` reads the same as the literal `lit`.
fn same_text(s: &String, lit: &str) -> (r: bool)
    ensures
        r == (s@ == lit@),
{
    let t = lit.to_owned();
    *s == t
}

impl Key {
    /// The browser's code for this key.
    pub fn code(&self) -> (r: &'static str)
        ensures
            r@ == key_code(*self),
    {
        match self {
            Key::A => "KeyA",
            Key::B => "KeyB",
            Key::C => "KeyC",
            Key::D => "KeyD",
            Key::E => "KeyE",
            Key::F => "KeyF",
            Key::G => "KeyG",
            Key::H => "KeyH",
            Key::I => "KeyI",
            Key::J => "KeyJ",
            Key::K => "KeyK",
            Key::L => "KeyL",
            Key::M => "KeyM",
            Key::N => "KeyN",
            Key::O => "KeyO",
            Key::P => "KeyP",
            Key::Q => "KeyQ",
            Key::R => "KeyR",
            Key::S => "KeyS",
            Key::T => "KeyT",
            Key::U => "KeyU",
            Key::V => "KeyV",
            Key::W => "KeyW",
            Key::X => "KeyX",
            Key::Y => "KeyY",
            Key::Z => "KeyZ",
            Key::Zero => "Digit0",
            Key::One => "Digit1",
            Key::Two => "Digit2",
            Key::Three => "Digit3",
            Key::Four => "Digit4",
            Key::Five => "Digit5",
            Key::Six => "Digit6",
            Key::Seven => "Digit7",
            Key::Eight => "Digit8",
            Key::Nine => "Digit9",
            Key::Shift => "ShiftLeft",
            Key::Control => "ControlLeft",
            Key::Space => "Space",
            Key::Escape => "Escape",
            Key::Alt => "AltLeft",
            Key::Right => "ArrowRight",
            Key::Left => "ArrowLeft",
            Key::Up => "ArrowUp",
            Key::Down => "ArrowDown",
        }
    }

    /// The slot of this key in a table of all keys.
    pub fn index(&self) -> (r: usize)
        ensures
            r == key_index(*self),
            r < KEY_COUNT,
    {
        match self {
            Key::A => 0,
            Key::B => 1,
            Key::C => 2,
            Key::D => 3,
            Key::E => 4,
            Key::F => 5,
            Key::G => 6,
            Key::H => 7,
            Key::I => 8,
            Key::J => 9,
            Key::K => 10,
            Key::L => 11,
            Key::M => 12,
            Key::N => 13,
            Key::O => 14,
            Key::P => 15,
            Key::Q => 16,
            Key::R => 17,
            Key::S => 18,
            Key::T => 19,
            Key::U => 20,
            Key::V => 21,
            Key::W => 22,
            Key::X => 23,
            Key::Y => 24,
            Key::Z => 25,
            Key::Zero => 26,
            Key::One => 27,
            Key::Two => 28,
            Key::Three => 29,
            Key::Four => 30,
            Key::Five => 31,
            Key::Six => 32,
            Key::Seven => 33,
            Key::Eight => 34,
            Key::Nine => 35,
            Key::Shift => 36,
            Key::Control => 37,
            Key::Space => 38,
            Key::Escape => 39,
            Key::Alt => 40,
            Key::Right => 41,
            Key::Left => 42,
            Key::Up => 43,
            Key::Down => 44,
        }
    }

    /// The key whose browser code is `s`, or `Err(())` for a code no key has.
    pub fn from_code(s: &str) -> (r: Result<Key, ()>)
        ensures
            match r {
                Ok(k) => key_code(k) == s@,
                Err(()) => forall|k: Key| key_code(k) != s@,
            },
    {
        let t = s.to_owned();
        if same_text(&t, "KeyA") {
            return Ok(Key::A);
        }
        if same_text(&t, "KeyB") {
            return Ok(Key::B);
        }
        if same_text(&t, "KeyC") {
            return Ok(Key::C);
        }
        if same_text(&t, "KeyD") {
            return Ok(Key::D);
        }
        if same_text(&t, "KeyE") {
            return Ok(Key::E);
        }
        if same_text(&t, "KeyF") {
            return Ok(Key::F);
        }
        if same_text(&t, "KeyG") {
            return Ok(Key::G);
        }
        if same_text(&t, "KeyH") {
            return Ok(Key::H);
        }
        if same_text(&t, "KeyI") {
            return Ok(Key::I);
        }
        if same_text(&t, "KeyJ") {
            return Ok(Key::J);
        }
        if same_text(&t, "KeyK") {
            return Ok(Key::K);
        }
        if same_text(&t, "KeyL") {
            return Ok(Key::L);
        }
        if same_text(&t, "KeyM") {
            return Ok(Key::M);
        }
        if same_text(&t, "KeyN") {
            return Ok(Key::N);
        }
        if same_text(&t, "KeyO") {
            return Ok(Key::O);
        }
        if same_text(&t, "KeyP") {
            return Ok(Key::P);
        }
        if same_text(&t, "KeyQ") {
            return Ok(Key::Q);
        }
        if same_text(&t, "KeyR") {
            return Ok(Key::R);
        }
        if same_text(&t, "KeyS") {
            return Ok(Key::S);
        }
        if same_text(&t, "KeyT") {
            return Ok(Key::T);
        }
        if same_text(&t, "KeyU") {
            return Ok(Key::U);
        }
        if same_text(&t, "KeyV") {
            return Ok(Key::V);
        }
        if same_text(&t, "KeyW") {
            return Ok(Key::W);
        }
        if same_text(&t, "KeyX") {
            return Ok(Key::X);
        }
        if same_text(&t, "KeyY") {
            return Ok(Key::Y);
        }
        if same_text(&t, "KeyZ") {
            return Ok(Key::Z);
        }
        if same_text(&t, "Digit0") {
            return Ok(Key::Zero);
        }
        if same_text(&t, "Digit1") {
            return Ok(Key::One);
        }
        if same_text(&t, "Digit2") {
            return Ok(Key::Two);
        }
        if same_text(&t, "Digit3") {
            return Ok(Key::Three);
        }
        if same_text(&t, "Digit4") {
            return Ok(Key::Four);
        }
        if same_text(&t, "Digit5") {
            return Ok(Key::Five);
        }
        if same_text(&t, "Digit6") {
            return Ok(Key::Six);
        }
        if same_text(&t, "Digit7") {
            return Ok(Key::Seven);
        }
        if same_text(&t, "Digit8") {
            return Ok(Key::Eight);
        }
        if same_text(&t, "Digit9") {
            return Ok(Key::Nine);
        }
        if same_text(&t, "ShiftLeft") {
            return Ok(Key::Shift);
        }
        if same_text(&t, "ControlLeft") {
            return Ok(Key::Control);
        }
        if same_text(&t, "Space") {
            return Ok(Key::Space);
        }
        if same_text(&t, "Escape") {
            return Ok(Key::Escape);
        }
        if same_text(&t, "AltLeft") {
            return Ok(Key::Alt);
        }
        if same_text(&t, "ArrowRight") {
            return Ok(Key::Right);
        }
        if same_text(&t, "ArrowLeft") {
            return Ok(Key::Left);
        }
        if same_text(&t, "ArrowUp") {
            return Ok(Key::Up);
        }
        if same_text(&t, "ArrowDown") {
            return Ok(Key::Down);
        }
        Err(())
    }
}

impl core::str::FromStr for Key {
    type Err = ();

    fn from_str(s: &str) -> Result<Key, ()> {
        Key::from_code(s)
    }
}

/// A mouse button, in the browser's numbering order.
#[derive(Clone, Copy, Debug, PartialEq, Eq, Structural)]
pub enum MouseButton {
    Primary,
    Secondary,
    Middle,
    Back,
    Forward,
}

/// Whether the event loop should stop.
#[derive(Clone, Copy, Debug, PartialEq, Eq, Structural)]
pub enum Quit {
    Yes,
    No,
}

/// Which keys are held down.
#[derive(Clone, Debug)]
pub struct KeyState {
    keys: Vec<bool>,
}

impl KeyState {
    pub closed spec fn wf(&self) -> bool {
        self.keys@.len() == KEY_COUNT
    }

    /// Whether `key` is held down.
    pub closed spec fn held(&self, key: Key) -> bool {
        self.keys@[key_index(key)]
    }

    /// No key held down.
    pub fn new() -> (r: KeyState)
        ensures
            r.wf(),
            forall|k: Key| !r.held(k),
    {
        let mut keys: Vec<bool> = Vec::new();
        let mut i: usize = 0;
        while i < KEY_COUNT
            invariant
                i <= KEY_COUNT,
                keys@.len() == i,
                forall|j: int| 0 <= j < i ==> !keys@[j],
            decreases KEY_COUNT - i,
        {
            keys.push(false);
            i = i + 1;
        }
        KeyState { keys }
    }

    /// Records whether `key` is held down.
    pub fn set(&mut self, key: Key, state: bool)
        requires
            old(self).wf(),
        ensures
            final(self).wf(),
            final(self).held(key) == state,
            forall|k: Key| k != key ==> final(self).held(k) == old(self).held(k),
    {
        let i = key.index();
        self.keys.set(i, state);
        assert forall|k: Key| k != key implies self.held(k) == old(self).held(k) by {
            assert(key_index(k) != key_index(key));
        }
    }

    /// Whether `key` is held down.
    pub fn get(&self, key: Key) -> (r: bool)
        requires
            self.wf(),
        ensures
            r == self.held(key),
    {
        self.keys[key.index()]
    }
}

impl Default for KeyState {
    fn default() -> (r: KeyState)
        ensures
            r.wf(),
            forall|k: Key| !r.held(k),
    {
        KeyState::new()
    }
}

} // verus!
