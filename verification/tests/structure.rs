use vellum::document::parse_document_structure;
use vellum::slug::{generate_unique_id, slugify};

#[test]
fn test_parse_simple_sections() {
    let markdown = "## Overview\nContent 1\n\n## Projects\nContent 2\n";
    let doc = parse_document_structure(markdown, None);

    assert_eq!(doc.nav_buttons.len(), 2);
    assert_eq!(doc.nav_buttons[0].title, "Overview");
    assert_eq!(doc.nav_buttons[1].title, "Projects");
    assert_eq!(doc.panels.len(), 2);
    assert!(doc.dropdown_title.is_none());
}

#[test]
fn test_parse_with_dropdown() {
    let markdown = "## Overview\nContent 1\n\n## More\n### Projects\nProject content\n\n### Worklog\nWorklog content\n";
    let doc = parse_document_structure(markdown, Some("More"));

    assert_eq!(doc.nav_buttons.len(), 1);
    assert_eq!(doc.nav_buttons[0].title, "Overview");
    assert_eq!(doc.dropdown_title, Some("More".to_string()));
    assert_eq!(doc.dropdown_items.len(), 2);
    assert_eq!(doc.dropdown_items[0].title, "Projects");
    assert_eq!(doc.dropdown_items[1].title, "Worklog");
    assert_eq!(doc.panels.len(), 3);
}

#[test]
fn test_unique_ids() {
    let markdown = "## Test\nContent 1\n\n## Test\nContent 2\n";
    let doc = parse_document_structure(markdown, None);

    assert_eq!(doc.nav_buttons[0].id, "test");
    assert_eq!(doc.nav_buttons[1].id, "test-1");
}

#[test]
fn test_dropdown_panel_content() {
    let markdown = "## More\n### Projects\nLine 1\nLine 2\n";
    let doc = parse_document_structure(markdown, Some("More"));

    assert_eq!(doc.dropdown_items.len(), 1);
    let panel = &doc.panels[0];
    assert!(panel.is_dropdown_item);
    assert!(panel.markdown_content.contains("Line 1"));
    assert!(panel.markdown_content.contains("Line 2"));
}

#[test]
fn dropdown_with_no_other_sections() {
    let markdown = "## More\n### A\nbody a\n### B\nbody b\n";
    let doc = parse_document_structure(markdown, Some("More"));

    assert_eq!(doc.nav_buttons.len(), 0);
    assert_eq!(doc.dropdown_items.len(), 2);
    assert_eq!(doc.panels.len(), 2);
    assert!(doc.panels[0].is_dropdown_item);
    assert!(doc.panels[1].is_dropdown_item);
}

#[test]
fn panel_ids_match_nav_ids() {
    let markdown = "## One\nA\n## Two\nB\n";
    let doc = parse_document_structure(markdown, None);
    assert_eq!(doc.panels.len(), doc.nav_buttons.len());
    for i in 0..doc.panels.len() {
        assert_eq!(doc.panels[i].id, doc.nav_buttons[i].id);
    }
}

#[test]
fn preamble_outside_sections_is_dropped() {
    let markdown = "orphan text\n## Only\nbody\n";
    let doc = parse_document_structure(markdown, None);
    assert_eq!(doc.nav_buttons.len(), 1);
    assert_eq!(doc.panels.len(), 1);
    assert!(!doc.panels[0].markdown_content.contains("orphan"));
}

#[test]
fn slugify_examples() {
    assert_eq!(slugify("Hello World"), "hello-world");
    assert_eq!(slugify("  --Weird -- Title--  "), "weird-title");
    assert_eq!(slugify("!!!"), "");
}

#[test]
fn slugify_is_idempotent_on_sample() {
    let once = slugify("Self-Assessment (EP)");
    let twice = slugify(&once);
    assert_eq!(once, twice);
    assert_eq!(once, "self-assessment-ep");
}

#[test]
fn unique_id_first_occurrence_is_bare() {
    let mut used: Vec<String> = Vec::new();
    let a = generate_unique_id("My Title", &mut used);
    let b = generate_unique_id("My Title", &mut used);
    let c = generate_unique_id("My Title", &mut used);
    assert_eq!(a, "my-title");
    assert_eq!(b, "my-title-1");
    assert_eq!(c, "my-title-2");
    assert_eq!(used, vec!["my-title", "my-title-1", "my-title-2"]);
}

#[test]
fn unique_ids_never_collide() {
    let mut used: Vec<String> = Vec::new();
    let titles = ["A", "a", "A!", "a-1", "A", "b"];
    let mut ids: Vec<String> = Vec::new();
    for t in titles.iter() {
        ids.push(generate_unique_id(t, &mut used));
    }
    for i in 0..ids.len() {
        for j in 0..ids.len() {
            if i != j {
                assert_ne!(ids[i], ids[j]);
            }
        }
    }
}
