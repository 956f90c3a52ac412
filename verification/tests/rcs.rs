use memscan::rcs::{get_rcs_toggled, RcsState};

#[test]
fn hold_mode_follows_the_button() {
    let mut state = RcsState::default();
    assert!(get_rcs_toggled(0, true, false, &mut state));
    assert!(!get_rcs_toggled(0, false, true, &mut state));
    assert!(!state.toggled);
}

#[test]
fn toggle_mode_flips_on_debounced_press() {
    let mut state = RcsState::default();
    // A debounced press turns the feature on.
    assert!(get_rcs_toggled(1, true, true, &mut state));
    assert!(state.toggled);
    // A press within the debounce interval changes nothing.
    assert!(get_rcs_toggled(1, true, false, &mut state));
    assert!(state.toggled);
    // A release reports the stored value.
    assert!(get_rcs_toggled(1, false, true, &mut state));
    assert!(state.toggled);
    // The next debounced press turns it back off.
    assert!(!get_rcs_toggled(1, true, true, &mut state));
    assert!(!state.toggled);
}
