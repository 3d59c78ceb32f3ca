use vellum::markdown::{last_update_paths, substitute_variables, transform_achievement_markers, TimeStrings};
use vellum::include_resolver::process_includes;

fn fixed_time() -> TimeStrings {
    TimeStrings {
        month_year: "January 2024".to_string(),
        iso_date: "2024-01-15".to_string(),
        year: "2024".to_string(),
    }
}

#[test]
fn test_achievement_marker_transformation() {
    let input = "- Task done <! first achievement";
    let output = transform_achievement_markers(input);
    assert!(output.contains("<span class=\"achievement-marker\">first achievement</span>"));
}

#[test]
fn test_achievement_marker_no_space() {
    let input = "- Task done <!first achievement";
    let output = transform_achievement_markers(input);
    assert!(output.contains("<span class=\"achievement-marker\">first achievement</span>"));
}

#[test]
fn test_no_marker() {
    let input = "- Regular task";
    let output = transform_achievement_markers(input);
    assert_eq!(output.trim(), input);
}

#[test]
fn test_empty_marker() {
    let input = "- Task done <!";
    let output = transform_achievement_markers(input);
    assert!(!output.contains("achievement-marker"));
}

#[test]
fn marker_token_is_consumed() {
    let input = "- Task done <! first achievement";
    let output = transform_achievement_markers(input);
    assert!(!output.contains("<!"));
}

#[test]
fn marker_only_first_is_honored() {
    let input = "before <! one <! two";
    let output = transform_achievement_markers(input);
    assert!(output.contains("<span class=\"achievement-marker\">one <! two</span>"));
}

#[test]
fn test_process_includes_no_includes() {
    let input = "# Title\n\nSome content";
    let files: Vec<(String, String)> = Vec::new();
    let output = process_includes(input, ".", &files);
    assert_eq!(output.trim(), input);
}

#[test]
fn test_process_includes_missing_file() {
    let input = "Include: [test](nonexistent_file.md)";
    let files: Vec<(String, String)> = Vec::new();
    let output = process_includes(input, ".", &files);
    assert!(output.contains("Error: Could not include"));
}

#[test]
fn test_process_includes_non_md_file() {
    let input = "Include: [test](file.txt)";
    let files: Vec<(String, String)> = Vec::new();
    let output = process_includes(input, ".", &files);
    assert!(output.contains("Include:"));
}

#[test]
fn includes_renumber_headings_under_parent() {
    let files = vec![(
        "child.md".to_string(),
        "# Included Title\n## Subtitle\nContent".to_string(),
    )];
    let input = "## Parent Section\nInclude: [x](child.md)";
    let output = process_includes(input, "", &files);
    assert!(!output.contains("# Included Title"));
    assert!(output.contains("### Subtitle"));
    assert!(output.contains("Content"));
}

#[test]
fn includes_respect_private_guard() {
    let files = vec![(
        "secret.md".to_string(),
        "PRIVATE_NEVER_AS_IS\nSecret content".to_string(),
    )];
    let input = "Include: [s](secret.md)";
    let output = process_includes(input, "", &files);
    assert!(!output.contains("Secret content"));
    assert!(output.contains("Include:"));
}

#[test]
fn includes_terminate_on_cycles() {
    let files = vec![("a.md".to_string(), "Include: [a](a.md)".to_string())];
    let input = "Include: [a](a.md)";
    let output = process_includes(input, "", &files);
    assert!(output.contains("Include: [a](a.md)"));
}

#[test]
fn includes_resolve_nested_files() {
    let files = vec![
        ("outer.md".to_string(), "outer start\nInclude: [i](inner.md)".to_string()),
        ("inner.md".to_string(), "inner text".to_string()),
    ];
    let input = "Include: [o](outer.md)";
    let output = process_includes(input, "", &files);
    assert!(output.contains("outer start"));
    assert!(output.contains("inner text"));
}

#[test]
fn substitute_replaces_fixed_tokens() {
    let dates: Vec<(String, String)> = Vec::new();
    let output = substitute_variables(
        "Y {{currentYear}} D {{currentDate}} T {{currentDateTime}}",
        &fixed_time(),
        &dates,
    );
    assert_eq!(output, "Y 2024 D 2024-01-15 T January 2024");
}

#[test]
fn substitute_keeps_unknown_tokens() {
    let dates: Vec<(String, String)> = Vec::new();
    let output = substitute_variables("Unknown: {{unknownVar}}", &fixed_time(), &dates);
    assert_eq!(output, "Unknown: {{unknownVar}}");
}

#[test]
fn substitute_uses_file_dates() {
    let dates = vec![("notes.md".to_string(), "2023-01-02".to_string())];
    let output = substitute_variables(
        "A {{lastUpdate:notes.md}} B {{lastUpdate:other.md}}",
        &fixed_time(),
        &dates,
    );
    assert_eq!(output, "A 2023-01-02 B unknown");
}

#[test]
fn last_update_paths_lists_tokens_in_order() {
    let paths = last_update_paths("x {{lastUpdate:a.md}} y {{lastUpdate:b.md}} z");
    assert_eq!(paths, vec!["a.md".to_string(), "b.md".to_string()]);
}
