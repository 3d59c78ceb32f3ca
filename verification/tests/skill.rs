use vellum::skill_matrix::{
    detect_columns, is_skill_matrix_heading, render_skill_matrix_table, style_notes,
    transform_skill_matrices,
};

#[test]
fn test_heading_detection_skill_matrix() {
    assert!(is_skill_matrix_heading("## skill matrix"));
    assert!(is_skill_matrix_heading("### Skill Matrix"));
    assert!(is_skill_matrix_heading("#### SKILL MATRIX"));
}

#[test]
fn test_heading_detection_skill_only() {
    assert!(is_skill_matrix_heading("## Skills"));
    assert!(is_skill_matrix_heading("## My Skills"));
    assert!(is_skill_matrix_heading("### Technical Skills"));
}

#[test]
fn test_heading_detection_matrix_only() {
    assert!(is_skill_matrix_heading("## Matrix"));
    assert!(is_skill_matrix_heading("## Competency Matrix"));
}

#[test]
fn test_heading_detection_competency() {
    assert!(is_skill_matrix_heading("## Competencies"));
    assert!(is_skill_matrix_heading("### Core Competencies"));
}

#[test]
fn test_heading_detection_proficiency() {
    assert!(is_skill_matrix_heading("## Proficiency Levels"));
    assert!(is_skill_matrix_heading("### Language Proficiency"));
}

#[test]
fn test_heading_detection_negative() {
    assert!(!is_skill_matrix_heading("## Overview"));
    assert!(!is_skill_matrix_heading("## Projects"));
    assert!(!is_skill_matrix_heading("Not a heading"));
    assert!(!is_skill_matrix_heading("#NoSpace"));
}

#[test]
fn test_column_detection_standard() {
    let header = "| Skill | Level | Notes |";
    let cols = detect_columns(header).unwrap();
    assert_eq!(cols.skill_idx, 1);
    assert_eq!(cols.value_idx, 2);
    assert_eq!(cols.notes_idx, Some(3));
}

#[test]
fn test_column_detection_alternative_names() {
    let header = "| Technology | Rating | Description |";
    let cols = detect_columns(header).unwrap();
    assert_eq!(cols.skill_header, "Technology");
    assert_eq!(cols.value_header, "Rating");
    assert_eq!(cols.notes_header, Some("Description".to_string()));
}

#[test]
fn test_column_detection_no_notes() {
    let header = "| Name | Score |";
    let cols = detect_columns(header).unwrap();
    assert_eq!(cols.skill_idx, 1);
    assert_eq!(cols.value_idx, 2);
    assert!(cols.notes_idx.is_none());
}

#[test]
fn test_column_detection_missing_value() {
    let header = "| Skill | Notes |";
    assert!(detect_columns(header).is_none());
}

#[test]
fn test_transform_basic() {
    let input = "## Skills\n\n| Skill | Level | Notes |\n|-------|-------|-------|\n| Rust  | 8     | Good  |\n";
    let output = transform_skill_matrices(input);
    assert!(output.contains("skill-matrix"));
    assert!(output.contains("level-8"));
    assert!(output.contains("Rust"));
}

#[test]
fn test_transform_with_categories() {
    let input = "## Skills\n\n| Skill | Level | Notes |\n|-------|-------|-------|\n| **Languages** | | |\n| Rust  | 8     | Good  |\n";
    let output = transform_skill_matrices(input);
    assert!(output.contains("category-row"));
    assert!(output.contains("Languages"));
}

#[test]
fn test_transform_without_notes() {
    let input = "## Proficiency\n\n| Technology | Rating |\n|------------|--------|\n| Docker     | 7      |\n";
    let output = transform_skill_matrices(input);
    assert!(output.contains("skill-matrix"));
    assert!(output.contains("Docker"));
    assert!(output.contains("level-7"));
}

#[test]
fn test_wip_marker() {
    let styled = style_notes("WIP - learning");
    assert!(styled.contains("wip-marker"));
    assert!(styled.contains("learning"));
}

#[test]
fn style_notes_passthrough() {
    assert_eq!(style_notes("All good"), "All good");
}

#[test]
fn transform_keeps_heading_and_replaces_table() {
    let input = "## Skills\n\n| Skill | Level | Notes |\n|-------|-------|-------|\n| **Languages** | | |\n| Rust | 8 | Good |\n";
    let output = transform_skill_matrices(input);
    assert!(output.contains("## Skills"));
    assert!(output.contains("category-row"));
    assert!(output.contains("level-8"));
    assert!(output.contains("Rust"));
    assert!(output.contains("skill-matrix-container"));
    assert!(!output.contains("| Rust | 8 | Good |"));
}

#[test]
fn unrecognized_table_passes_through() {
    let input = "## Skills\n\n| Alpha | Beta |\n|-------|------|\n| x | y |\n";
    let output = transform_skill_matrices(input);
    assert!(output.contains("| Alpha | Beta |"));
    assert!(!output.contains("skill-matrix-container"));
}

#[test]
fn short_table_is_not_recognized() {
    let lines = vec!["| Skill | Level |".to_string(), "|---|---|".to_string()];
    assert!(render_skill_matrix_table(&lines).is_none());
}

#[test]
fn render_table_emits_headers() {
    let lines = vec![
        "| Skill | Level | Notes |".to_string(),
        "|---|---|---|".to_string(),
        "| Rust | 9 | wip - polish |".to_string(),
    ];
    let html = render_skill_matrix_table(&lines).unwrap();
    assert!(html.contains("<th>Skill</th><th>Level</th><th>Notes</th>"));
    assert!(html.contains("level-9"));
    assert!(html.contains("wip-marker"));
    assert!(html.contains("polish"));
}
