use ccaps::catalog::LayoutInfo;
use ccaps::rotation::{get_switching_status, initialize_rotation, RotationState};

fn layout(hkl: usize) -> LayoutInfo {
    LayoutInfo::new(hkl)
}

#[test]
fn initialize_with_no_codes_selects_whole_catalog() {
    let catalog = vec![layout(0x0409), layout(0x0407), layout(0x0419)];
    let state = initialize_rotation(&catalog, &Vec::new(), Some(0x0419));
    assert_eq!(state.selected.len(), 3);
    assert_eq!(state.current_index, 2);
}

#[test]
fn initialize_falls_back_to_index_zero() {
    let catalog = vec![layout(0x0409), layout(0x0407)];
    // The active layout is not part of the selection.
    let state = initialize_rotation(&catalog, &Vec::new(), Some(0x0419));
    assert_eq!(state.current_index, 0);
    // No active layout reported at all.
    let state = initialize_rotation(&catalog, &Vec::new(), None);
    assert_eq!(state.current_index, 0);
}

#[test]
fn initialize_single_code_prepends_english() {
    // A German and an English layout are installed; only "de" is requested.
    let catalog = vec![layout(0x0407), layout(0x0409)];
    let state = initialize_rotation(&catalog, &vec!["de".to_string()], None);
    assert_eq!(state.selected.len(), 2);
    assert!(state.selected[0].is_english);
    assert_eq!(state.selected[1].short_code, "de");
}

#[test]
fn initialize_does_not_duplicate_english() {
    let catalog = vec![layout(0x0407), layout(0x0409)];
    let state = initialize_rotation(&catalog, &vec!["us".to_string()], None);
    // "us" alone selects the English layout; it is not prepended twice.
    assert_eq!(state.selected.len(), 1);
    assert_eq!(state.selected[0].short_code, "us");
}

#[test]
fn advance_cycles_round_robin() {
    let catalog = vec![layout(0x0409), layout(0x0407), layout(0x0419)];
    let mut state = initialize_rotation(&catalog, &Vec::new(), Some(0x0407));
    assert_eq!(state.current_index, 1);
    // Three advances visit all three layouts exactly once each...
    let a = state.advance().unwrap();
    let b = state.advance().unwrap();
    let c = state.advance().unwrap();
    let mut seen = vec![a.short_code.clone(), b.short_code.clone(), c.short_code.clone()];
    seen.sort();
    assert_eq!(seen, vec!["de".to_string(), "ru".to_string(), "us".to_string()]);
    // ...ending on the starting layout, and the next advance repeats the cycle.
    assert_eq!(c.short_code, "de");
    assert_eq!(state.current_index, 1);
    let d = state.advance().unwrap();
    assert_eq!(d.short_code, a.short_code);
}

#[test]
fn advance_on_single_layout_is_idempotent() {
    let mut state = RotationState { selected: vec![layout(0x0407)], current_index: 0 };
    for _ in 0..5 {
        let l = state.advance().unwrap();
        assert_eq!(l.short_code, "de");
        assert_eq!(state.current_index, 0);
    }
}

#[test]
fn advance_on_empty_rotation_returns_nothing() {
    let mut state = RotationState { selected: Vec::new(), current_index: 0 };
    assert!(state.advance().is_none());
    assert_eq!(state.current_index, 0);
}

#[test]
fn current_reports_active_entry() {
    let state = RotationState {
        selected: vec![layout(0x0409), layout(0x0407)],
        current_index: 1,
    };
    let (index, l) = state.current().unwrap();
    assert_eq!(index, 1);
    assert_eq!(l.short_code, "de");

    let empty = RotationState { selected: Vec::new(), current_index: 0 };
    assert!(empty.current().is_none());
}

#[test]
fn status_lists_name_and_code() {
    let state = RotationState {
        selected: vec![layout(0x0409), layout(0x0407)],
        current_index: 0,
    };
    let (index, labels) = get_switching_status(&state);
    assert_eq!(index, 0);
    assert_eq!(
        labels,
        vec![
            "English (United States) (us)".to_string(),
            "German (de)".to_string(),
        ]
    );
}
