use vellum::embed::{data_uri_for, Assets, EmbedError};
use vellum::markdown::{parse_markdown, TimeStrings};
use vellum::{
    generate_html_from_content, validate_inputs, GenerationStats, GeneratorConfig,
    GeneratorError,
};

fn test_assets() -> Assets {
    Assets {
        styles: "body { color: black; }".to_string(),
        script: "console.log('test');".to_string(),
        template: "<!DOCTYPE html>\n<html>\n<head><title>{{title}}</title><style>{{styles}}</style></head>\n<body>\n<img src=\"{{logo}}\" />\n<nav>{{nav_buttons}}</nav>\n<main>{{content}}</main>\n<script>{{script}}</script>\n</body>\n</html>".to_string(),
    }
}

fn fixed_time() -> TimeStrings {
    TimeStrings {
        month_year: "January 2024".to_string(),
        iso_date: "2024-01-15".to_string(),
        year: "2024".to_string(),
    }
}

fn no_files() -> Vec<(String, String)> {
    Vec::new()
}

#[test]
fn test_generate_html_from_content_basic() {
    let markdown = "# Title\n\n## Section One\n\nSome content here.";
    let logo_uri = "data:image/png;base64,AAAA";
    let assets = test_assets();

    let result = generate_html_from_content(markdown, ".", "Test Doc", logo_uri, None, &assets,
        &no_files(), &fixed_time(), &no_files());
    assert!(result.is_ok());

    let (html, stats) = result.unwrap();
    assert!(!html.is_empty());
    assert_eq!(stats.source_lines, 5);
    assert_eq!(stats.section_count, 1);
}

#[test]
fn test_generate_html_from_content_with_markers() {
    let markdown = "## Log\n\n- 2024-01-01: Did something <! milestone";
    let logo_uri = "data:image/png;base64,AAAA";
    let assets = test_assets();

    let (_, stats) = generate_html_from_content(markdown, ".", "Test", logo_uri, None, &assets,
        &no_files(), &fixed_time(), &no_files()).unwrap();
    assert_eq!(stats.achievement_markers, 1);
}

#[test]
fn test_generate_html_from_content_multiple_sections() {
    let markdown = "## One\n\nA\n\n## Two\n\nB\n\n## Three\n\nC";
    let logo_uri = "data:image/png;base64,AAAA";
    let assets = test_assets();

    let (_, stats) = generate_html_from_content(markdown, ".", "Test", logo_uri, None, &assets,
        &no_files(), &fixed_time(), &no_files()).unwrap();
    assert_eq!(stats.section_count, 3);
}

#[test]
fn test_generation_stats_default() {
    let stats = GenerationStats::default();
    assert_eq!(stats.source_lines, 0);
    assert_eq!(stats.expanded_lines, 0);
    assert_eq!(stats.achievement_markers, 0);
}

#[test]
fn lib_test_validate_inputs_missing_markdown() {
    let config = GeneratorConfig {
        markdown_path: "nonexistent.md".to_string(),
        logo_path: "logo.png".to_string(),
        title: "Test".to_string(),
        output_path: "output/test.html".to_string(),
        dropdown_section: None,
    };
    let result = validate_inputs(&config);
    assert!(matches!(result, Err(GeneratorError::InputNotFound(_))));
}

#[test]
fn test_generator_config_default() {
    let config = GeneratorConfig::default();
    assert_eq!(config.markdown_path, "example/index.md");
    assert_eq!(config.logo_path, "example/logo.png");
    assert_eq!(config.title, "My Portfolio");
    assert_eq!(config.output_path, "output/index.html");
    assert_eq!(config.dropdown_section, Some("Projects".to_string()));
}

#[test]
fn test_generate_html_from_content_pure() {
    let markdown = "# Hello World\n\n## Introduction\n\nWelcome to the test.\n\n## Details\n\nSome details here.\n";
    let logo_uri = "data:image/png;base64,iVBORw0KGgoAAAANSUhEUgAAAAEAAAABCAYAAAAfFcSJAAAADUlEQVR42mNk+M9QDwADhgGAWjR9awAAAABJRU5ErkJggg==";
    let assets = test_assets();

    let result = generate_html_from_content(markdown, ".", "Test Title", logo_uri, None,
        &assets, &no_files(), &fixed_time(), &no_files());
    assert!(result.is_ok());

    let (html, stats) = result.unwrap();

    let html_str = String::from_utf8(html).unwrap();
    assert!(html_str.contains("<!DOCTYPE html>"));
    assert!(html_str.contains("<title>Test Title</title>"));
    assert!(html_str.contains("section-introduction"));
    assert!(html_str.contains("section-details"));

    assert_eq!(stats.section_count, 2);
    assert!(stats.source_lines > 0);
}

#[test]
fn test_generate_html_from_content_empty_document() {
    let markdown = "";
    let logo_uri = "data:image/png;base64,AAAA";
    let assets = test_assets();

    let result = generate_html_from_content(markdown, ".", "Empty", logo_uri, None, &assets,
        &no_files(), &fixed_time(), &no_files());
    assert!(result.is_ok());

    let (html, stats) = result.unwrap();
    assert!(!html.is_empty());
    assert_eq!(stats.source_lines, 0);
    assert_eq!(stats.section_count, 0);
}

#[test]
fn pipeline_expands_includes_from_table() {
    let markdown = "## Section\n\nInclude: [inc](inc.md)\n";
    let files = vec![("inc.md".to_string(), "included body text".to_string())];
    let assets = test_assets();
    let (html, stats) = generate_html_from_content(markdown, "", "T", "logo", None, &assets,
        &files, &fixed_time(), &no_files()).unwrap();
    let html_str = String::from_utf8(html).unwrap();
    assert!(html_str.contains("included body text"));
    assert!(stats.expanded_lines > stats.source_lines);
}

#[test]
fn pipeline_with_dropdown_section() {
    let markdown = "## Intro\n\nhello\n\n## More\n\n### Sub One\n\nbody\n";
    let assets = test_assets();
    let (html, stats) = generate_html_from_content(markdown, "", "T", "logo", Some("More"),
        &assets, &no_files(), &fixed_time(), &no_files()).unwrap();
    let html_str = String::from_utf8(html).unwrap();
    assert!(html_str.contains("const DROPDOWN_SECTION = \"More\";"));
    assert!(html_str.contains("section-sub-one"));
    assert_eq!(stats.section_count, 2);
}

#[test]
fn markdown_engine_renders_emphasis() {
    let output = parse_markdown("# Hello\n\nThis is **bold** text.");
    assert!(output.contains("<h1>Hello</h1>"));
    assert!(output.contains("<strong>bold</strong>"));
}

#[test]
fn markdown_engine_renders_tables() {
    let output = parse_markdown("| A | B |\n|---|---|\n| 1 | 2 |");
    assert!(output.contains("<table>"));
    assert!(output.contains("<th>A</th>"));
}

#[test]
fn data_uri_encodes_bytes() {
    let bytes = vec![1u8, 2u8, 3u8];
    let uri = data_uri_for(&bytes, "logo.png").unwrap();
    assert_eq!(uri, "data:image/png;base64,AQID");
}

#[test]
fn data_uri_rejects_unknown_extension() {
    let bytes = vec![1u8];
    let r = data_uri_for(&bytes, "file.txt");
    assert!(matches!(r, Err(EmbedError::UnsupportedFormat(ext)) if ext == "txt"));
}

#[test]
fn data_uri_rejects_missing_extension() {
    let bytes = vec![1u8];
    let r = data_uri_for(&bytes, "file_no_ext");
    assert!(matches!(r, Err(EmbedError::UnsupportedFormat(ext)) if ext == "unknown"));
}

#[test]
fn config_from_parts_maps_empty_dropdown_to_none() {
    let c = GeneratorConfig::from_parts(
        "T".to_string(),
        "".to_string(),
        "m.md".to_string(),
        "l.png".to_string(),
        "out.html".to_string(),
    );
    assert!(c.dropdown_section.is_none());
    let c2 = GeneratorConfig::from_parts(
        "T".to_string(),
        "More".to_string(),
        "m.md".to_string(),
        "l.png".to_string(),
        "out.html".to_string(),
    );
    assert_eq!(c2.dropdown_section, Some("More".to_string()));
}
