use vellum::sections::{extract_sections, Section};
use vellum::slug::slugify;

#[test]
fn test_extract_single_section() {
    let html = "<h1>Title</h1><h2>Overview</h2><p>Content</p>";
    let sections = extract_sections(html);

    assert_eq!(sections.len(), 1);
    assert_eq!(sections[0].title, "Overview");
    assert_eq!(sections[0].id, "overview");
}

#[test]
fn test_extract_multiple_sections() {
    let html = "<h2>First</h2><p>A</p><h2>Second</h2><p>B</p>";
    let sections = extract_sections(html);

    assert_eq!(sections.len(), 2);
    assert_eq!(sections[0].title, "First");
    assert_eq!(sections[1].title, "Second");
}

#[test]
fn test_slugify() {
    assert_eq!(slugify("Hello World"), "hello-world");
    assert_eq!(slugify("Self-Assessment (EP)"), "self-assessment-ep");
}

#[test]
fn test_duplicate_ids() {
    let html = "<h2>Test</h2><h2>Test</h2>";
    let sections = extract_sections(html);

    assert_eq!(sections[0].id, "test");
    assert_eq!(sections[1].id, "test-1");
}

#[test]
fn extracted_spans_cover_the_tail() {
    let html = "<h2>First</h2><p>A</p><h2>Second</h2><p>B</p>";
    let sections = extract_sections(html);
    assert_eq!(sections[0].start, 0);
    assert_eq!(sections[0].end, sections[1].start);
    assert_eq!(sections[1].end, html.len());
}

#[test]
fn sections_can_be_built_directly() {
    let s = Section { id: "x".to_string(), title: "X".to_string(), start: 0, end: 4 };
    assert_eq!(s.id, "x");
    assert_eq!(s.end, 4);
}
