use ccaps::catalog::{
    find_layouts_by_codes, get_english_layout, get_layout_details, sort_layouts,
    validate_country_codes, LayoutInfo,
};

fn layout(hkl: usize) -> LayoutInfo {
    LayoutInfo::new(hkl)
}

#[test]
fn details_of_known_ids() {
    let (name, code, is_english) = get_layout_details(0x0409);
    assert_eq!(name, "English (United States)");
    assert_eq!(code, "us");
    assert!(is_english);

    let (name, code, is_english) = get_layout_details(0x0407);
    assert_eq!(name, "German");
    assert_eq!(code, "de");
    assert!(!is_english);

    let (name, code, is_english) = get_layout_details(0x0419);
    assert_eq!(name, "Russian");
    assert_eq!(code, "ru");
    assert!(!is_english);
}

#[test]
fn details_of_unknown_ids() {
    // 0x3809 is not in the table but its primary language is English.
    let (name, code, is_english) = get_layout_details(0x3809);
    assert_eq!(name, "Unknown Language (0x3809)");
    assert_eq!(code, "09");
    assert!(is_english);

    let (name, code, is_english) = get_layout_details(0x0000);
    assert_eq!(name, "Unknown Language (0x0000)");
    assert_eq!(code, "00");
    assert!(!is_english);

    // Jamaica English: unknown id, English heuristic, lower-case hex code.
    let (name, _code, is_english) = get_layout_details(0x2009);
    assert_eq!(name, "Unknown Language (0x2009)");
    assert!(is_english);

    let (name, code, is_english) = get_layout_details(0xF4AB);
    assert_eq!(name, "Unknown Language (0xF4AB)");
    assert_eq!(code, "ab");
    assert!(!is_english);
}

#[test]
fn layout_info_takes_language_from_low_bits() {
    let l = layout(0xF0010407);
    assert_eq!(l.lang_id, 0x0407);
    assert_eq!(l.name, "German");
    assert_eq!(l.short_code, "de");
    assert!(!l.is_english);
    assert_eq!(l.get_hkl(), 0xF0010407);
}

#[test]
fn sort_puts_english_first_then_alphabetical() {
    let catalog = vec![layout(0x0419), layout(0x0409), layout(0x0407), layout(0x0809)];
    let sorted = sort_layouts(&catalog);
    // English first: United Kingdom before United States alphabetically,
    // then German before Russian.
    assert_eq!(sorted.len(), 4);
    assert_eq!(sorted[0].short_code, "gb");
    assert_eq!(sorted[1].short_code, "us");
    assert_eq!(sorted[2].short_code, "de");
    assert_eq!(sorted[3].short_code, "ru");
}

#[test]
fn sort_orders_english_before_non_english_regardless_of_name() {
    // "Arabic" would sort before "English ..." by name alone.
    let catalog = vec![layout(0x0401), layout(0x0409)];
    let sorted = sort_layouts(&catalog);
    assert!(sorted[0].is_english);
    assert!(!sorted[1].is_english);
}

#[test]
fn find_by_codes_preserves_order_and_repeats() {
    let catalog = vec![layout(0x0409), layout(0x0407), layout(0x0419)];
    let codes = vec![
        "ru".to_string(),
        "zz".to_string(),
        "de".to_string(),
        "ru".to_string(),
    ];
    let found = find_layouts_by_codes(&catalog, &codes);
    // Input order kept, the unmatched code dropped, the repeated code repeated.
    assert_eq!(found.len(), 3);
    assert_eq!(found[0].short_code, "ru");
    assert_eq!(found[1].short_code, "de");
    assert_eq!(found[2].short_code, "ru");
}

#[test]
fn find_by_codes_takes_first_matching_entry() {
    // Two layouts with the same language id share a short code; the first
    // catalog entry wins.
    let mut a = layout(0x10409);
    let b = layout(0x20409);
    a.name = "First".to_string();
    let catalog = vec![a, b];
    let found = find_layouts_by_codes(&catalog, &vec!["us".to_string()]);
    assert_eq!(found.len(), 1);
    assert_eq!(found[0].hkl, 0x10409);
}

#[test]
fn validate_rejects_empty_list() {
    let catalog = vec![layout(0x0409)];
    let err = validate_country_codes(&catalog, &Vec::new()).unwrap_err();
    assert_eq!(err, "No valid country codes provided.");
}

#[test]
fn validate_names_every_unknown_code() {
    let catalog = vec![layout(0x0409), layout(0x0407)];
    let err = validate_country_codes(&catalog, &vec!["xx".to_string()]).unwrap_err();
    assert_eq!(
        err,
        "Unknown country codes: xx. Use 'ccaps -status' to see available codes."
    );

    let err = validate_country_codes(
        &catalog,
        &vec!["de".to_string(), "xx".to_string(), "yy".to_string()],
    )
    .unwrap_err();
    assert_eq!(
        err,
        "Unknown country codes: xx, yy. Use 'ccaps -status' to see available codes."
    );
}

#[test]
fn validate_accepts_known_codes() {
    let catalog = vec![layout(0x0409), layout(0x0407)];
    let ok = validate_country_codes(&catalog, &vec!["de".to_string(), "us".to_string()]).unwrap();
    assert_eq!(ok, vec!["de".to_string(), "us".to_string()]);
}

#[test]
fn english_default_is_first_english_entry() {
    let catalog = vec![layout(0x0419), layout(0x0809), layout(0x0409)];
    let english = get_english_layout(&catalog).unwrap();
    assert_eq!(english.short_code, "gb");

    let none = get_english_layout(&vec![layout(0x0419), layout(0x0407)]);
    assert!(none.is_none());
}
