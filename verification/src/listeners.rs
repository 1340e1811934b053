//! Key-event listener interface: what the windowing layer calls into when
//! a key changes state.

use vstd::prelude::*;

verus! {

/// One key event, as handed to listeners.
pub struct KeyEvent {}

/// A receiver of key events; the windowing layer drives it.
pub trait KeyListener {
    fn on_key_pressed(&mut self, e: KeyEvent);

    fn on_key_released(&mut self, e: KeyEvent);

    fn on_key_held(&mut self, e: KeyEvent);
}

} // verus!
