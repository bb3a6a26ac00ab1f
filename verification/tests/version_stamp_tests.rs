use ccaps::version_stamp::{replace_version_after_prefix, sync_version};

#[test]
fn test_replace_title_version() {
    let input = "# CCaps Layout Switcher v0.8.2\n\nSome text";
    let result = sync_version(input, "0.9.0");
    assert!(result.starts_with("# CCaps Layout Switcher v0.9.0\n"));
}

#[test]
fn test_replace_json_version() {
    let input = "  \"version\": \"0.8.2\"\n";
    let result = sync_version(input, "0.9.0");
    assert_eq!(result, "  \"version\": \"0.9.0\"\n");
}

#[test]
fn test_replace_metadata_version() {
    let input = "- **Version**: 0.8.2\n";
    let result = sync_version(input, "0.9.0");
    assert_eq!(result, "- **Version**: 0.9.0\n");
}

#[test]
fn test_no_change_when_version_matches() {
    let input = "# CCaps Layout Switcher v0.9.0\n";
    let result = sync_version(input, "0.9.0");
    assert_eq!(result, input);
}

#[test]
fn test_changelog_entries_not_touched() {
    let input = "### v0.8.2\n### v0.8.1\n- **Version**: 0.8.2\n";
    let result = sync_version(input, "0.9.0");
    // CHANGELOG history lines start with "### v" -- not matched by any prefix
    assert!(result.contains("### v0.8.2\n"));
    assert!(result.contains("### v0.8.1\n"));
    // Metadata line IS replaced
    assert!(result.contains("- **Version**: 0.9.0\n"));
}

#[test]
fn test_replaces_all_occurrences_of_same_prefix() {
    let input = "- **Version**: 0.1.0\n- **Version**: 0.1.0\n";
    let result = sync_version(input, "1.0.0");
    assert_eq!(result, "- **Version**: 1.0.0\n- **Version**: 1.0.0\n");
}

#[test]
fn test_replace_single_prefix_direct() {
    let result = replace_version_after_prefix("v=1.2.3 end", "v=", "9.9");
    assert_eq!(result, "v=9.9 end");
}

#[test]
fn test_replace_prefix_at_end_of_text() {
    let result = replace_version_after_prefix("title v", "title v", "3.1.4");
    assert_eq!(result, "title v3.1.4");
}

#[test]
fn test_replace_keeps_text_without_prefix() {
    let result = replace_version_after_prefix("no markers here", "v=", "1.0.0");
    assert_eq!(result, "no markers here");
}
