//! The keypad state: at most one currently held key, already translated to
//! a 4-bit hex code by the input collaborator outside the library. An
//! unmapped key is indistinguishable from no key at all.

use vstd::prelude::*;

verus! {

pub struct KeyInput {
    pub curr_pressed_key: Option<u8>,
}

impl KeyInput {
    /// A held key, if any, is a 4-bit hex code.
    pub open spec fn wf(&self) -> bool {
        match self.curr_pressed_key {
            Some(k) => k < 16,
            None => true,
        }
    }

    pub fn new() -> (k: KeyInput)
        ensures
            k.curr_pressed_key is None,
            k.wf(),
    {
        KeyInput { curr_pressed_key: None }
    }

    /// Record the key currently held (`None` once it is released).
    pub fn update_curr_pressed_key(&mut self, kc: Option<u8>)
        requires
            match kc {
                Some(k) => k < 16,
                None => true,
            },
        ensures
            final(self).curr_pressed_key == kc,
            final(self).wf(),
    {
        self.curr_pressed_key = kc;
    }

    pub fn get_curr_pressed_key(&self) -> (kc: Option<u8>)
        ensures
            kc == self.curr_pressed_key,
    {
        self.curr_pressed_key
    }
}

} // verus!
