use vellum::embed::Assets;
use vellum::render::{HtmlRenderer, ParsedDocument};
use vellum::sections::Section;

fn test_assets() -> Assets {
    Assets {
        styles: "body { color: black; }".to_string(),
        script: "console.log('test');".to_string(),
        template: "<!DOCTYPE html>\n<html>\n<head><title>{{title}}</title><style>{{styles}}</style></head>\n<body>\n<img src=\"{{logo}}\" />\n<nav>{{nav_buttons}}</nav>\n<main>{{content}}</main>\n<script>{{script}}</script>\n</body>\n</html>".to_string(),
    }
}

#[test]
fn test_nav_button_generation() {
    let renderer = HtmlRenderer::new();
    let sections = vec![
        Section {
            id: "overview".to_string(),
            title: "Overview".to_string(),
            start: 0,
            end: 100,
        },
        Section {
            id: "details".to_string(),
            title: "Details".to_string(),
            start: 100,
            end: 200,
        },
    ];

    let nav = renderer.generate_nav_buttons(&sections);
    assert!(nav.contains("<button>Overview</button>"));
    assert!(nav.contains("<button>Details</button>"));
}

#[test]
fn test_nav_button_empty_sections() {
    let renderer = HtmlRenderer::new();
    let sections: Vec<Section> = vec![];
    let nav = renderer.generate_nav_buttons(&sections);
    assert!(nav.is_empty());
}

#[test]
fn test_wrap_sections_empty() {
    let renderer = HtmlRenderer::new();
    let html = "<p>Some content</p>";
    let sections: Vec<Section> = vec![];
    let result = renderer.wrap_sections(html, &sections);
    assert_eq!(result, html);
}

#[test]
fn test_wrap_sections_single() {
    let renderer = HtmlRenderer::new();
    let html = "<h2>Overview</h2><p>Content here</p>";
    let sections = vec![Section {
        id: "overview".to_string(),
        title: "Overview".to_string(),
        start: 0,
        end: html.len(),
    }];

    let result = renderer.wrap_sections(html, &sections);
    assert!(result.contains("section-overview"));
    assert!(result.contains("section-header"));
    assert!(result.contains("section-content"));
    assert!(result.contains("toggle-icon"));
}

#[test]
fn test_wrap_sections_multiple() {
    let renderer = HtmlRenderer::new();
    let html = "<h2>First</h2><p>A</p><h2>Second</h2><p>B</p>";
    let sections = vec![
        Section {
            id: "first".to_string(),
            title: "First".to_string(),
            start: 0,
            end: 19,
        },
        Section {
            id: "second".to_string(),
            title: "Second".to_string(),
            start: 19,
            end: html.len(),
        },
    ];

    let result = renderer.wrap_sections(html, &sections);
    assert!(result.contains("section-first"));
    assert!(result.contains("section-second"));
}

#[test]
fn test_wrap_sections_with_h1_prefix() {
    let renderer = HtmlRenderer::new();
    let html = "<h1>Title</h1><h2>Overview</h2><p>Content</p>";
    let sections = vec![Section {
        id: "overview".to_string(),
        title: "Overview".to_string(),
        start: 14,
        end: html.len(),
    }];

    let result = renderer.wrap_sections(html, &sections);
    assert!(!result.contains("<h1>Title</h1>"));
    assert!(result.contains("section-overview"));
}

#[test]
fn render_with_options_fills_template() {
    let renderer = HtmlRenderer::new();
    let html = "<h2>Test</h2><p>Content</p>";
    let document = ParsedDocument {
        html_content: html.to_string(),
        sections: vec![Section {
            id: "test".to_string(),
            title: "Test".to_string(),
            start: 0,
            end: html.len(),
        }],
        title: "Test Document".to_string(),
    };
    let assets = test_assets();
    let result = renderer
        .render_with_options(&document, "data:image/png;base64,AAAA", None, &assets)
        .unwrap();
    let page = String::from_utf8(result).unwrap();
    assert!(page.contains("<!DOCTYPE html>"));
    assert!(page.contains("<title>Test Document</title>"));
    assert!(page.contains("data:image/png;base64,AAAA"));
    assert!(page.contains("<button>Test</button>"));
    assert!(page.contains("section-test"));
    assert!(page.contains("const DROPDOWN_SECTION = null;"));
}

#[test]
fn render_with_options_escapes_dropdown_name() {
    let renderer = HtmlRenderer::new();
    let document = ParsedDocument {
        html_content: "<p>x</p>".to_string(),
        sections: vec![],
        title: "T".to_string(),
    };
    let assets = test_assets();
    let result = renderer
        .render_with_options(&document, "logo", Some("My \"Cool\" Things"), &assets)
        .unwrap();
    let page = String::from_utf8(result).unwrap();
    assert!(page.contains("const DROPDOWN_SECTION = \"My \\\"Cool\\\" Things\";"));
}
