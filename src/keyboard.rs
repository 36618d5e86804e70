//! The 16-key input pad.
use vstd::prelude::*;

verus! {

/// The state of the 16 keys 0x0 to 0xF, pressed or not.
#[derive(Debug, Copy, Clone)]
pub struct Keyboard {
    keys: [bool; 16],
}

impl View for Keyboard {
    type V = Seq<bool>;

    /// Whether each key is pressed, by key code.
    closed spec fn view(&self) -> Seq<bool> {
        self.keys@
    }
}

impl Keyboard {
    /// The number of keys.
    pub proof fn lemma_len(&self)
        ensures
            self@.len() == 16,
    {
    }

    /// A key pad with no key pressed.
    pub fn new() -> (r: Keyboard)
        ensures
            r@ == Seq::new(16, |i: int| false),
    {
        let r = Keyboard { keys: [false; 16] };
        assert(r@ =~= Seq::new(16, |i: int| false));
        r
    }

    /// Marks `key` as pressed.
    pub fn down(&mut self, key: u8)
        requires
            key < 16,
        ensures
            final(self)@ == old(self)@.update(key as int, true),
    {
        self.keys[key as usize] = true;
    }

    /// Marks `key` as released.
    pub fn up(&mut self, key: u8)
        requires
            key < 16,
        ensures
            final(self)@ == old(self)@.update(key as int, false),
    {
        self.keys[key as usize] = false;
    }

    /// Whether `key` is pressed.
    pub fn is_pressed(&self, key: u8) -> (r: bool)
        requires
            key < 16,
        ensures
            r == self@[key as int],
    {
        self.keys[key as usize]
    }
}

} // verus!
