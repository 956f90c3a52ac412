//! Toggle decision for the recoil-compensation feature.
//!
//! The hosting program polls the configured hotkey and a debounce clock and
//! hands their readings in as plain values; the decision of whether the
//! feature is active — and whether the stored toggle flips — is made here.

use vstd::prelude::*;

verus! {

/// The stored toggle of the recoil-compensation feature.
pub struct RcsState {
    pub toggled: bool,
}

impl Default for RcsState {
    /// Toggled off.
    fn default() -> (r: RcsState)
        ensures
            !r.toggled,
    {
        RcsState { toggled: false }
    }
}

/// Decides whether recoil compensation is active. In hold mode (`mode == 0`)
/// it follows the hotkey directly and the stored toggle is untouched. In
/// toggle mode a debounced press flips the stored toggle and reports the new
/// value; otherwise the stored value stands. The caller supplies the hotkey
/// reading and whether the debounce interval has elapsed since the last
/// flip, and restarts that clock whenever the toggle flips.
pub fn get_rcs_toggled(
    mode: i32,
    button_pressed: bool,
    debounce_elapsed: bool,
    state: &mut RcsState,
) -> (active: bool)
    ensures
        mode == 0 ==> active == button_pressed && *final(state) == *old(state),
        mode != 0 && button_pressed && debounce_elapsed ==> final(state).toggled == !old(
            state,
        ).toggled && active == !old(state).toggled,
        mode != 0 && !(button_pressed && debounce_elapsed) ==> *final(state) == *old(state)
            && active == old(state).toggled,
{
    if mode == 0 {
        button_pressed
    } else {
        if button_pressed && debounce_elapsed {
            state.toggled = !state.toggled;
            state.toggled
        } else {
            state.toggled
        }
    }
}

} // verus!
