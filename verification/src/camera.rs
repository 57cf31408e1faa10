//! Keyboard state for the camera controls.
//!
//! The camera itself (projection, view matrices) belongs to the renderer;
//! only the per-key pressed state is tracked here, indexed by key code.

use vstd::prelude::*;

verus! {

/// Number of tracked key codes.
pub const KEY_COUNT: usize = 193;

/// Pressed state of every tracked key.
pub struct Controls {
    letters: Vec<bool>,
}

impl Controls {
    /// The state vector always covers every key code.
    pub closed spec fn wf(self) -> bool {
        self.letters@.len() == KEY_COUNT
    }

    /// Whether the key `k` is currently held.
    pub closed spec fn spec_key(self, k: int) -> bool {
        self.letters@[k]
    }

    /// All keys start released.
    pub fn new() -> (c: Controls)
        ensures
            c.wf(),
            forall|k: int| 0 <= k < KEY_COUNT ==> !c.spec_key(k),
    {
        let mut letters: Vec<bool> = Vec::new();
        let mut i: usize = 0;
        while i < KEY_COUNT
            invariant
                letters@.len() == i,
                i <= KEY_COUNT,
                forall|k: int| 0 <= k < i ==> !letters@[k],
            decreases KEY_COUNT - i,
        {
            letters.push(false);
            i = i + 1;
        }
        Controls { letters }
    }

    /// Records a key transition.
    pub fn update_key(&mut self, key: usize, state: bool)
        requires
            old(self).wf(),
            key < KEY_COUNT,
        ensures
            final(self).wf(),
            final(self).spec_key(key as int) == state,
            forall|k: int|
                0 <= k < KEY_COUNT && k != key ==> final(self).spec_key(k) == old(self).spec_key(
                    k,
                ),
    {
        self.letters.set(key, state);
    }

    /// Whether the key is currently held.
    pub fn get_state(&self, key: usize) -> (r: bool)
        requires
            self.wf(),
            key < KEY_COUNT,
        ensures
            r == self.spec_key(key as int),
    {
        self.letters[key]
    }

    /// Releases every key.
    pub fn reset_state(&mut self)
        ensures
            final(self).wf(),
            forall|k: int| 0 <= k < KEY_COUNT ==> !final(self).spec_key(k),
    {
        let fresh = Controls::new();
        self.letters = fresh.letters;
    }
}

} // verus!
