use ccaps::catalog::LayoutInfo;
use ccaps::config::Config;
use ccaps::hook::{
    process_key_event, HookAction, HookLifecycle, VK_CAPITAL, VK_MENU, WM_KEYDOWN, WM_KEYUP,
    WM_SYSKEYDOWN, WM_SYSKEYUP,
};
use ccaps::indicator::{apply_step, desired_state};

fn layout(hkl: usize) -> LayoutInfo {
    LayoutInfo::new(hkl)
}

#[test]
fn indicator_off_iff_english() {
    // Known English, known non-English, and unknown-id entries alike.
    for hkl in [0x0409usize, 0x0809, 0x0407, 0x0419, 0x3809, 0x1234] {
        let l = layout(hkl);
        assert_eq!(desired_state(&l), !l.is_english);
    }
}

#[test]
fn indicator_apply_twice_changes_led_at_most_once() {
    for led_start in [false, true] {
        for hkl in [0x0409usize, 0x0407] {
            let l = layout(hkl);
            let (led_after, _first_toggled) = apply_step(led_start, &l);
            let (led_final, second_toggled) = apply_step(led_after, &l);
            assert!(!second_toggled);
            assert_eq!(led_final, led_after);
        }
    }
}

#[test]
fn indicator_toggles_only_on_mismatch() {
    let german = layout(0x0407);
    // LED off, non-English layout: must toggle on.
    let (led, toggled) = apply_step(false, &german);
    assert!(led && toggled);
    // LED already on: nothing to do.
    let (led, toggled) = apply_step(true, &german);
    assert!(led && !toggled);
}

#[test]
fn hook_tracks_alt_state() {
    let mut alt = false;
    let (action, suppressed) = process_key_event(&mut alt, 0, VK_MENU, WM_KEYDOWN);
    assert!(alt);
    assert_eq!(action, HookAction::Forward);
    assert!(!suppressed);

    let (action, _) = process_key_event(&mut alt, 0, VK_MENU, WM_KEYUP);
    assert!(!alt);
    assert_eq!(action, HookAction::Forward);

    process_key_event(&mut alt, 0, VK_MENU, WM_SYSKEYDOWN);
    assert!(alt);
    process_key_event(&mut alt, 0, VK_MENU, WM_SYSKEYUP);
    assert!(!alt);
}

#[test]
fn hook_dispatches_caps_lock_on_alt() {
    let mut alt = true;
    let (action, suppressed) = process_key_event(&mut alt, 0, VK_CAPITAL, WM_KEYDOWN);
    assert_eq!(action, HookAction::ToggleCapsLock);
    assert!(suppressed);

    let mut alt = false;
    let (action, suppressed) = process_key_event(&mut alt, 0, VK_CAPITAL, WM_KEYDOWN);
    assert_eq!(action, HookAction::SwitchLayout);
    assert!(suppressed);
}

#[test]
fn hook_forwards_everything_else() {
    let mut alt = false;
    // Caps Lock key-up is not a trigger.
    let (action, suppressed) = process_key_event(&mut alt, 0, VK_CAPITAL, WM_KEYUP);
    assert_eq!(action, HookAction::Forward);
    assert!(!suppressed);
    // An ordinary key.
    let (action, suppressed) = process_key_event(&mut alt, 0, 0x41, WM_KEYDOWN);
    assert_eq!(action, HookAction::Forward);
    assert!(!suppressed);
    // A negative hook code passes through without touching the Alt flag.
    let mut alt = true;
    let (action, suppressed) = process_key_event(&mut alt, -1, VK_MENU, WM_KEYUP);
    assert!(alt);
    assert_eq!(action, HookAction::Forward);
    assert!(!suppressed);
}

#[test]
fn hook_lifecycle_is_idempotent_on_teardown() {
    let mut engine = HookLifecycle::new();
    assert!(!engine.installed);
    engine.on_installed();
    assert!(engine.installed);
    engine.on_uninstalled();
    assert!(!engine.installed);
    // Tearing down again is a no-op, not an error.
    engine.on_uninstalled();
    assert!(!engine.installed);
}

#[test]
fn config_constructors() {
    let c = Config::new();
    assert!(c.country_codes.is_empty());
    assert_eq!(c.version, "0.7.0");

    let c = Config::with_country_codes(vec!["de".to_string(), "fr".to_string()]);
    assert_eq!(c.country_codes, vec!["de".to_string(), "fr".to_string()]);
    assert_eq!(c.version, "0.7.0");
}
