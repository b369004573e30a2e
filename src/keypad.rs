//! The 16-key input pad, with the wait state that the key-wait instruction uses.

use vstd::prelude::*;

verus! {

/// Number of keys on the keypad.
pub const KEYPAD_SIZE: usize = 16;

/// What a keypad holds, as mathematical values.
pub struct KeypadView {
    /// Whether each key is held down.
    pub keys: Seq<bool>,
    /// Whether a key-wait instruction is waiting for a release.
    pub wait: bool,
    /// The key released while waiting, not yet taken by the instruction.
    pub released: Option<u8>,
}

impl KeypadView {
    /// Sixteen keys; a released key is recorded only while waiting, and is a key.
    pub open spec fn wf(self) -> bool {
        &&& self.keys.len() == KEYPAD_SIZE
        &&& self.released matches Some(k) ==> self.wait && k < KEYPAD_SIZE
    }
}

/// The keypad after key `key` is pressed.
pub open spec fn press_spec(k: KeypadView, key: u8) -> KeypadView {
    KeypadView { keys: k.keys.update(key as int, true), ..k }
}

/// The keypad after key `key` is released: while waiting, the key is recorded.
pub open spec fn release_spec(k: KeypadView, key: u8) -> KeypadView {
    KeypadView {
        keys: k.keys.update(key as int, false),
        released: if k.wait {
            Some(key)
        } else {
            k.released
        },
        ..k
    }
}

/// The keypad's state: which keys are down, and the wait state.
#[derive(Debug)]
pub struct Keypad {
    keys: Vec<bool>,
    wait: bool,
    key_released: Option<u8>,
}

impl View for Keypad {
    type V = KeypadView;

    closed spec fn view(&self) -> KeypadView {
        KeypadView { keys: self.keys@, wait: self.wait, released: self.key_released }
    }
}

impl Keypad {
    pub open spec fn wf(&self) -> bool {
        self@.wf()
    }

    /// A keypad with no key down and no wait in progress.
    pub fn new() -> (r: Keypad)
        ensures
            r.wf(),
            r@.keys == Seq::new(KEYPAD_SIZE as nat, |i: int| false),
            !r@.wait,
            r@.released is None,
    {
        let mut keys: Vec<bool> = Vec::new();
        let mut k: usize = 0;
        while k < KEYPAD_SIZE
            invariant
                k <= KEYPAD_SIZE,
                keys@ == Seq::new(k as nat, |i: int| false),
            decreases KEYPAD_SIZE - k,
        {
            keys.push(false);
            k = k + 1;
            assert(keys@ =~= Seq::new(k as nat, |i: int| false));
        }
        Keypad { keys, wait: false, key_released: None }
    }

    /// Records that key `key` went down.
    pub fn key_pressed(&mut self, key: u8)
        requires
            old(self).wf(),
            key < KEYPAD_SIZE,
        ensures
            final(self).wf(),
            final(self)@ == press_spec(old(self)@, key),
    {
        self.keys.set(key as usize, true);
    }

    /// Records that key `key` went up; while a key-wait is in progress the key
    /// is kept for the waiting instruction.
    pub fn key_released(&mut self, key: u8)
        requires
            old(self).wf(),
            key < KEYPAD_SIZE,
        ensures
            final(self).wf(),
            final(self)@ == release_spec(old(self)@, key),
    {
        self.keys.set(key as usize, false);
        if self.wait {
            self.key_released = Some(key);
        }
    }

    /// Whether key `key` is down.
    pub fn is_pressed(&self, key: u8) -> (r: bool)
        requires
            self.wf(),
            key < KEYPAD_SIZE,
        ensures
            r == self@.keys[key as int],
    {
        self.keys[key as usize]
    }

    /// Starts waiting for a key release.
    pub(crate) fn start_wait(&mut self)
        requires
            old(self).wf(),
        ensures
            final(self).wf(),
            final(self)@ == (KeypadView { wait: true, ..old(self)@ }),
    {
        self.wait = true;
    }

    /// The key released since the wait started, if any.
    pub(crate) fn released_key(&self) -> (r: Option<u8>)
        ensures
            r == self@.released,
    {
        self.key_released
    }

    /// Whether a key-wait is in progress.
    pub(crate) fn is_waiting(&self) -> (r: bool)
        ensures
            r == self@.wait,
    {
        self.wait
    }

    /// Ends the wait, dropping the released key.
    pub(crate) fn end_wait(&mut self)
        requires
            old(self).wf(),
        ensures
            final(self).wf(),
            final(self)@ == (KeypadView { wait: false, released: None, ..old(self)@ }),
    {
        self.wait = false;
        self.key_released = None;
    }
}

} // verus!
