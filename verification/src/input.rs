//! Framework-neutral input state.
//!
//! The application maps this into commands. Keeping it a plain struct with
//! no backend types in it means input can be synthesised in a test without a
//! window, which is the only way the command-mapping logic is testable.
//!
//! Buttons and keys are reported at two granularities. "Down" is the level:
//! true for as long as it is held, which is what camera panning wants.
//! "Pressed" and "released" are the edges of that level, which is what
//! selection and hotkeys want.
use vstd::prelude::*;

verus! {

/// The mouse buttons the game uses.
#[derive(Copy, Clone, PartialEq, Eq, Structural, Debug)]
pub enum MouseButton {
    Left,
    Right,
    Middle,
}

impl MouseButton {
    /// The slot that records this button.
    pub open spec fn slot(self) -> int {
        match self {
            MouseButton::Left => 0,
            MouseButton::Right => 1,
            MouseButton::Middle => 2,
        }
    }

    fn index(self) -> (r: usize)
        ensures
            r == self.slot(),
    {
        match self {
            MouseButton::Left => 0,
            MouseButton::Right => 1,
            MouseButton::Middle => 2,
        }
    }
}

/// The keys the game uses.
///
/// A closed enum rather than a passthrough of the backend's key type: it
/// keeps backends interchangeable, and an unmapped key is a compile error in
/// the application rather than a silently dead binding.
#[derive(Copy, Clone, PartialEq, Eq, Structural, Debug)]
pub enum Key {
    W,
    A,
    S,
    D,
    Q,
    E,
    Tab,
    Escape,
    Space,
    Digit1,
    Digit2,
}

/// Whether `keys` holds `key`.
fn contains_key(keys: &Vec<Key>, key: Key) -> (r: bool)
    ensures
        r == keys@.contains(key),
{
    let mut i: usize = 0;
    while i < keys.len()
        invariant
            i <= keys.len(),
            forall|j: int| 0 <= j < i ==> keys@[j] != key,
        decreases keys.len() - i,
    {
        if keys[i] == key {
            return true;
        }
        i = i + 1;
    }
    false
}

/// A copy of a list of keys.
fn copy_keys(keys: &Vec<Key>) -> (r: Vec<Key>)
    ensures
        r@ == keys@,
{
    let mut r: Vec<Key> = Vec::new();
    let mut i: usize = 0;
    while i < keys.len()
        invariant
            i <= keys.len(),
            r@ == keys@.subrange(0, i as int),
        decreases keys.len() - i,
    {
        r.push(keys[i]);
        i = i + 1;
    }
    assert(keys@.subrange(0, keys@.len() as int) == keys@);
    r
}

/// `flags` with slot `i` set to `value`.
fn with_flag(flags: [bool; 3], i: usize, value: bool) -> (r: [bool; 3])
    requires
        i < 3,
    ensures
        r@ == flags@.update(i as int, value),
{
    let r = if i == 0 {
        [value, flags[1], flags[2]]
    } else if i == 1 {
        [flags[0], value, flags[2]]
    } else {
        [flags[0], flags[1], value]
    };
    assert(r@ =~= flags@.update(i as int, value));
    r
}

/// One frame of button and key state.
#[derive(PartialEq, Debug)]
pub struct InputState {
    mouse_down: [bool; 3],
    mouse_pressed: [bool; 3],
    mouse_released: [bool; 3],
    keys_down: Vec<Key>,
    keys_pressed: Vec<Key>,
}

impl InputState {
    /// Whether `button` is held.
    pub closed spec fn down_spec(&self, button: MouseButton) -> bool {
        self.mouse_down@[button.slot()]
    }

    /// Whether `button` went down this frame.
    pub closed spec fn pressed_spec(&self, button: MouseButton) -> bool {
        self.mouse_pressed@[button.slot()]
    }

    /// Whether `button` came up this frame.
    pub closed spec fn released_spec(&self, button: MouseButton) -> bool {
        self.mouse_released@[button.slot()]
    }

    /// Whether `key` is held.
    pub closed spec fn key_down_spec(&self, key: Key) -> bool {
        self.keys_down@.contains(key)
    }

    /// Whether `key` went down this frame.
    pub closed spec fn key_pressed_spec(&self, key: Key) -> bool {
        self.keys_pressed@.contains(key)
    }

    /// The held buttons, in the order left, right, middle.
    pub open spec fn buttons_down_spec(&self) -> Seq<MouseButton> {
        let s0 = if self.down_spec(MouseButton::Left) {
            seq![MouseButton::Left]
        } else {
            Seq::<MouseButton>::empty()
        };
        let s1 = if self.down_spec(MouseButton::Right) {
            s0.push(MouseButton::Right)
        } else {
            s0
        };
        if self.down_spec(MouseButton::Middle) {
            s1.push(MouseButton::Middle)
        } else {
            s1
        }
    }

    /// The state's invariant: no key is listed twice, and every key pressed
    /// this frame is also held.
    pub closed spec fn wf(&self) -> bool {
        &&& self.keys_down@.no_duplicates()
        &&& self.keys_pressed@.no_duplicates()
        &&& forall|k: Key| self.keys_pressed@.contains(k) ==> self.keys_down@.contains(k)
    }

    /// Whether two states agree on every button.
    pub open spec fn same_buttons(&self, other: &InputState) -> bool {
        forall|b: MouseButton|
            {
                &&& self.down_spec(b) == other.down_spec(b)
                &&& self.pressed_spec(b) == other.pressed_spec(b)
                &&& self.released_spec(b) == other.released_spec(b)
            }
    }

    /// Whether two states agree on every key.
    pub open spec fn same_keys(&self, other: &InputState) -> bool {
        forall|k: Key|
            self.key_down_spec(k) == other.key_down_spec(k) && self.key_pressed_spec(k)
                == other.key_pressed_spec(k)
    }

    pub fn is_down(&self, button: MouseButton) -> (r: bool)
        ensures
            r == self.down_spec(button),
    {
        self.mouse_down[button.index()]
    }

    pub fn is_pressed(&self, button: MouseButton) -> (r: bool)
        ensures
            r == self.pressed_spec(button),
    {
        self.mouse_pressed[button.index()]
    }

    pub fn is_released(&self, button: MouseButton) -> (r: bool)
        ensures
            r == self.released_spec(button),
    {
        self.mouse_released[button.index()]
    }

    pub fn key_down(&self, key: Key) -> (r: bool)
        ensures
            r == self.key_down_spec(key),
    {
        contains_key(&self.keys_down, key)
    }

    pub fn key_pressed(&self, key: Key) -> (r: bool)
        ensures
            r == self.key_pressed_spec(key),
    {
        contains_key(&self.keys_pressed, key)
    }

    /// Records a button going down this frame.
    pub fn press(&mut self, button: MouseButton)
        requires
            old(self).wf(),
        ensures
            final(self).wf(),
            final(self).down_spec(button),
            final(self).pressed_spec(button),
            final(self).released_spec(button) == old(self).released_spec(button),
            forall|b: MouseButton|
                b != button ==> {
                    &&& final(self).down_spec(b) == old(self).down_spec(b)
                    &&& final(self).pressed_spec(b) == old(self).pressed_spec(b)
                    &&& final(self).released_spec(b) == old(self).released_spec(b)
                },
            final(self).same_keys(old(self)),
    {
        let i = button.index();
        self.mouse_down = with_flag(self.mouse_down, i, true);
        self.mouse_pressed = with_flag(self.mouse_pressed, i, true);
        proof {
            assert forall|b: MouseButton| b != button implies b.slot() != button.slot() by {}
        }
    }

    /// Records a button coming up this frame.
    pub fn release(&mut self, button: MouseButton)
        requires
            old(self).wf(),
        ensures
            final(self).wf(),
            !final(self).down_spec(button),
            final(self).released_spec(button),
            final(self).pressed_spec(button) == old(self).pressed_spec(button),
            forall|b: MouseButton|
                b != button ==> {
                    &&& final(self).down_spec(b) == old(self).down_spec(b)
                    &&& final(self).pressed_spec(b) == old(self).pressed_spec(b)
                    &&& final(self).released_spec(b) == old(self).released_spec(b)
                },
            final(self).same_keys(old(self)),
    {
        let i = button.index();
        self.mouse_down = with_flag(self.mouse_down, i, false);
        self.mouse_released = with_flag(self.mouse_released, i, true);
        proof {
            assert forall|b: MouseButton| b != button implies b.slot() != button.slot() by {}
        }
    }

    /// Records a key held from an earlier frame.
    pub fn hold_key(&mut self, key: Key)
        requires
            old(self).wf(),
        ensures
            final(self).wf(),
            final(self).key_down_spec(key),
            forall|k: Key| k != key ==> final(self).key_down_spec(k) == old(self).key_down_spec(k),
            forall|k: Key| final(self).key_pressed_spec(k) == old(self).key_pressed_spec(k),
            final(self).same_buttons(old(self)),
    {
        if !contains_key(&self.keys_down, key) {
            self.keys_down.push(key);
            proof {
                assert forall|i: int, j: int|
                    0 <= i < self.keys_down@.len() && 0 <= j < self.keys_down@.len() && i != j
                    implies self.keys_down@[i] != self.keys_down@[j] by {
                    if i < old(self).keys_down@.len() && j < old(self).keys_down@.len() {
                    } else if i < old(self).keys_down@.len() {
                        assert(old(self).keys_down@.contains(self.keys_down@[i]));
                    } else {
                        assert(old(self).keys_down@.contains(self.keys_down@[j]));
                    }
                }
                assert forall|k: Key| k != key implies self.keys_down@.contains(k)
                    == old(self).keys_down@.contains(k) by {
                    if old(self).keys_down@.contains(k) {
                        let j = choose|j: int| 0 <= j < old(self).keys_down@.len()
                            && old(self).keys_down@[j] == k;
                        assert(self.keys_down@[j] == k);
                    }
                }
                assert(self.keys_down@[self.keys_down@.len() - 1] == key);
                assert forall|k: Key| self.keys_pressed@.contains(k) implies self.keys_down@.contains(k) by {
                    let j = choose|j: int| 0 <= j < old(self).keys_down@.len()
                        && old(self).keys_down@[j] == k;
                    assert(self.keys_down@[j] == k);
                }
            }
        }
    }

    /// Records a key going down this frame: it is pressed and held.
    pub fn press_key(&mut self, key: Key)
        requires
            old(self).wf(),
        ensures
            final(self).wf(),
            final(self).key_down_spec(key),
            final(self).key_pressed_spec(key),
            forall|k: Key|
                k != key ==> final(self).key_down_spec(k) == old(self).key_down_spec(k)
                    && final(self).key_pressed_spec(k) == old(self).key_pressed_spec(k),
            final(self).same_buttons(old(self)),
    {
        self.hold_key(key);
        if !contains_key(&self.keys_pressed, key) {
            let ghost before = self.keys_pressed@;
            self.keys_pressed.push(key);
            proof {
                assert forall|i: int, j: int|
                    0 <= i < self.keys_pressed@.len() && 0 <= j < self.keys_pressed@.len() && i != j
                    implies self.keys_pressed@[i] != self.keys_pressed@[j] by {
                    if i < before.len() && j < before.len() {
                    } else if i < before.len() {
                        assert(before.contains(self.keys_pressed@[i]));
                    } else {
                        assert(before.contains(self.keys_pressed@[j]));
                    }
                }
                assert forall|k: Key| k != key implies self.keys_pressed@.contains(k)
                    == before.contains(k) by {
                    if before.contains(k) {
                        let j = choose|j: int| 0 <= j < before.len() && before[j] == k;
                        assert(self.keys_pressed@[j] == k);
                    }
                }
                assert(self.keys_pressed@[self.keys_pressed@.len() - 1] == key);
                assert forall|k: Key| self.keys_pressed@.contains(k) implies self.keys_down@.contains(k) by {
                    if k != key {
                        assert(before.contains(k));
                    }
                }
            }
        }
    }

    /// Drops the per-frame edges, keeping what is still held.
    ///
    /// A backend polls by reusing one state and calling this first, so that
    /// levels persist across frames while edges do not.
    pub fn begin_frame(&mut self)
        requires
            old(self).wf(),
        ensures
            final(self).wf(),
            forall|b: MouseButton|
                {
                    &&& final(self).down_spec(b) == old(self).down_spec(b)
                    &&& !final(self).pressed_spec(b)
                    &&& !final(self).released_spec(b)
                },
            forall|k: Key|
                final(self).key_down_spec(k) == old(self).key_down_spec(k)
                    && !final(self).key_pressed_spec(k),
    {
        self.mouse_pressed = [false, false, false];
        self.mouse_released = [false, false, false];
        self.keys_pressed.clear();
    }

    /// The mouse buttons currently held, in the order left, right, middle.
    pub fn buttons_down(&self) -> (r: Vec<MouseButton>)
        ensures
            r@ == self.buttons_down_spec(),
            forall|b: MouseButton| r@.contains(b) <==> self.down_spec(b),
            forall|i: int, j: int| 0 <= i < j < r@.len() ==> r@[i].slot() < r@[j].slot(),
    {
        let mut r: Vec<MouseButton> = Vec::new();
        if self.is_down(MouseButton::Left) {
            r.push(MouseButton::Left);
        }
        if self.is_down(MouseButton::Right) {
            r.push(MouseButton::Right);
        }
        if self.is_down(MouseButton::Middle) {
            r.push(MouseButton::Middle);
        }
        proof {
            lemma_buttons_down_lists_held_buttons(*self);
        }
        r
    }
}

impl Clone for InputState {
    /// Copies the state: every button and key reads the same in the copy.
    fn clone(&self) -> (r: InputState)
        ensures
            self.wf() ==> r.wf(),
            r.same_buttons(self),
            r.same_keys(self),
    {
        InputState {
            mouse_down: self.mouse_down,
            mouse_pressed: self.mouse_pressed,
            mouse_released: self.mouse_released,
            keys_down: copy_keys(&self.keys_down),
            keys_pressed: copy_keys(&self.keys_pressed),
        }
    }
}

impl Default for InputState {
    /// Nothing held, pressed or released.
    fn default() -> (r: InputState)
        ensures
            r.wf(),
            forall|b: MouseButton|
                !r.down_spec(b) && !r.pressed_spec(b) && !r.released_spec(b),
            forall|k: Key| !r.key_down_spec(k) && !r.key_pressed_spec(k),
    {
        InputState {
            mouse_down: [false, false, false],
            mouse_pressed: [false, false, false],
            mouse_released: [false, false, false],
            keys_down: Vec::new(),
            keys_pressed: Vec::new(),
        }
    }
}

/// The held-button list names every held button and no other, each once,
/// in the order left, right, middle.
pub proof fn lemma_buttons_down_lists_held_buttons(input: InputState)
    ensures
        forall|b: MouseButton| input.buttons_down_spec().contains(b) <==> input.down_spec(b),
        forall|i: int, j: int|
            0 <= i < j < input.buttons_down_spec().len() ==> input.buttons_down_spec()[i].slot()
                < input.buttons_down_spec()[j].slot(),
{
    let s = input.buttons_down_spec();
    assert forall|b: MouseButton| s.contains(b) <==> input.down_spec(b) by {
        if input.down_spec(b) {
            let l = input.down_spec(MouseButton::Left);
            let r = input.down_spec(MouseButton::Right);
            match b {
                MouseButton::Left => {
                    assert(s[0] == b);
                },
                MouseButton::Right => {
                    assert(s[if l { 1int } else { 0int }] == b);
                },
                MouseButton::Middle => {
                    assert(s[(if l { 1int } else { 0int }) + (if r { 1int } else { 0int })] == b);
                },
            }
        }
    }
}

/// A key pressed this frame is always also held: the edge implies the level.
pub proof fn lemma_key_press_implies_down(input: InputState, key: Key)
    requires
        input.wf(),
    ensures
        input.key_pressed_spec(key) ==> input.key_down_spec(key),
{
}

} // verus!
