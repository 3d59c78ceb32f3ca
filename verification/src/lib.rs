//! Static HTML page generator: transforms an extended-markdown document
//! (file inclusion directives, dynamic tokens, achievement markers,
//! skill-matrix tables) into a single self-contained HTML page.
//!
//! File and network access stay outside this crate: callers hand in the
//! document text, a table of include-file contents, the clock strings and
//! file dates for token substitution, and the page assets.

pub mod document;
pub mod embed;
pub mod include_resolver;
pub mod markdown;
pub mod render;
pub mod sections;
pub mod skill_matrix;
pub mod slug;
pub mod text;

use vstd::prelude::*;
use crate::document::{parse_document_structure, spec_parse_document_structure, DocState};
use crate::embed::Assets;
use crate::include_resolver::{process_includes, spec_process_includes};
use crate::markdown::{
    substitute_variables, spec_substitute_variables, transform_achievement_markers,
    spec_transform_achievement_markers, TimeStrings,
};
use crate::render::{spec_render_from_structure, HtmlRenderer};
use crate::skill_matrix::{spec_transform_skill_matrices, transform_skill_matrices};
use crate::text::{count_matches, spec_count_matches, spec_lines, split_lines};

verus! {

/// Where the generator reads its inputs and writes its output.
#[derive(Debug, Clone)]
pub struct GeneratorConfig {
    pub markdown_path: String,
    pub logo_path: String,
    pub title: String,
    pub output_path: String,
    pub dropdown_section: Option<String>,
}

impl Default for GeneratorConfig {
    /// The example configuration the generator starts from.
    fn default() -> (r: Self)
        ensures
            r.markdown_path@ == "example/index.md"@,
            r.logo_path@ == "example/logo.png"@,
            r.title@ == "My Portfolio"@,
            r.output_path@ == "output/index.html"@,
            r.dropdown_section matches Some(d) && d@ == "Projects"@,
    {
        GeneratorConfig {
            markdown_path: "example/index.md".to_owned(),
            logo_path: "example/logo.png".to_owned(),
            title: "My Portfolio".to_owned(),
            output_path: "output/index.html".to_owned(),
            dropdown_section: Some("Projects".to_owned()),
        }
    }
}

impl GeneratorConfig {
    /// A configuration assembled from its parsed fields; an empty dropdown
    /// title means no dropdown section is configured.
    pub fn from_parts(
        title: String,
        dropdown: String,
        markdown: String,
        logo: String,
        output: String,
    ) -> (r: GeneratorConfig)
        ensures
            r.title@ == title@,
            r.markdown_path@ == markdown@,
            r.logo_path@ == logo@,
            r.output_path@ == output@,
            dropdown@.len() == 0 ==> r.dropdown_section is None,
            dropdown@.len() > 0 ==> (r.dropdown_section matches Some(d) && d@ == dropdown@),
    {
        let dropdown_section = if dropdown.as_str().unicode_len() == 0 {
            None
        } else {
            Some(dropdown)
        };
        GeneratorConfig {
            markdown_path: markdown,
            logo_path: logo,
            title,
            output_path: output,
            dropdown_section,
        }
    }
}

/// Counters reported after one generation run.
#[derive(Debug, Clone)]
pub struct GenerationStats {
    pub source_lines: usize,
    pub expanded_lines: usize,
    pub achievement_markers: usize,
    pub html_content_size: usize,
    pub section_count: usize,
}

impl Default for GenerationStats {
    fn default() -> (r: Self)
        ensures
            r.source_lines == 0,
            r.expanded_lines == 0,
            r.achievement_markers == 0,
            r.html_content_size == 0,
            r.section_count == 0,
    {
        GenerationStats {
            source_lines: 0,
            expanded_lines: 0,
            achievement_markers: 0,
            html_content_size: 0,
            section_count: 0,
        }
    }
}

/// Why generation failed.
#[derive(Debug)]
pub enum GeneratorError {
    MarkdownReadError { path: String, message: String },
    ConfigReadError { path: String, message: String },
    ConfigParseError { path: String, message: String },
    InputNotFound(String),
    AssetError(crate::embed::EmbedError),
    RenderError(crate::render::RenderError),
}

/// Relies on `std::path::Path::exists`: whether the path points at an
/// existing entity on disk at the moment of the call. Nothing is promised of
/// the result: it depends on the filesystem.
#[verifier::external_body]
fn path_exists(p: &str) -> bool {
    std::path::Path::new(p).exists()
}

/// Checks that the configured markdown document and logo image exist; an
/// error always names one of those two paths.
pub fn validate_inputs(config: &GeneratorConfig) -> (r: Result<(), GeneratorError>)
    ensures
        r matches Err(e) ==> e matches GeneratorError::InputNotFound(p) && (p@
            == config.markdown_path@ || p@ == config.logo_path@),
{
    if !path_exists(config.markdown_path.as_str()) {
        return Err(GeneratorError::InputNotFound(config.markdown_path.clone()));
    }
    if !path_exists(config.logo_path.as_str()) {
        return Err(GeneratorError::InputNotFound(config.logo_path.clone()));
    }
    Ok(())
}

/// The document text after the four transformation stages: includes
/// resolved, dynamic tokens substituted, achievement markers styled, and
/// skill matrices rendered.
pub open spec fn spec_pipeline_text(
    s: Seq<char>,
    base: Seq<char>,
    files: Seq<(Seq<char>, Seq<char>)>,
    month_year: Seq<char>,
    iso_date: Seq<char>,
    year: Seq<char>,
    dates: Seq<(Seq<char>, Seq<char>)>,
) -> Seq<char> {
    spec_transform_skill_matrices(
        spec_transform_achievement_markers(
            spec_substitute_variables(
                spec_process_includes(s, base, files),
                month_year,
                iso_date,
                year,
                dates,
            ),
        ),
    )
}

pub open spec fn spec_opt_view(o: Option<&str>) -> Option<Seq<char>> {
    match o {
        Option::Some(s) => Option::Some(s@),
        Option::None => Option::None,
    }
}

/// Runs the whole pipeline on already loaded inputs: include expansion
/// against the file table, token substitution with the given clock strings
/// and file dates, marker and skill-matrix transformation, document
/// structuring, and panel-based rendering into the final page bytes.
pub fn generate_html_from_content(
    markdown: &str,
    base_path: &str,
    title: &str,
    logo_data_uri: &str,
    dropdown_section: Option<&str>,
    assets: &Assets,
    files: &Vec<(String, String)>,
    now: &TimeStrings,
    file_dates: &Vec<(String, String)>,
) -> (r: Result<(Vec<u8>, GenerationStats), GeneratorError>)
    ensures
        r matches Ok(out) && ({
            let text = spec_pipeline_text(
                markdown@,
                base_path@,
                files.deep_view(),
                now.month_year@,
                now.iso_date@,
                now.year@,
                file_dates.deep_view(),
            );
            let st = spec_parse_document_structure(text, spec_opt_view(dropdown_section));
            &&& out.0@ == vstd::utf8::encode_utf8(
                spec_render_from_structure(
                    DocState { used: Seq::<Seq<char>>::empty(), ..st },
                    title@,
                    logo_data_uri@,
                    assets.styles@,
                    assets.script@,
                    assets.template@,
                ),
            )
            &&& out.1.source_lines == spec_lines(markdown@).len()
            &&& out.1.expanded_lines == spec_lines(
                spec_process_includes(markdown@, base_path@, files.deep_view()),
            ).len()
            &&& out.1.achievement_markers == spec_count_matches(
                spec_transform_achievement_markers(
                    spec_substitute_variables(
                        spec_process_includes(markdown@, base_path@, files.deep_view()),
                        now.month_year@,
                        now.iso_date@,
                        now.year@,
                        file_dates.deep_view(),
                    ),
                ),
                "achievement-marker"@,
            )
            &&& out.1.html_content_size == out.0@.len()
            &&& out.1.section_count == st.nav.len() + st.dropdown.len()
        }),
{
    let source_lines = split_lines(markdown).len();
    let with_includes = process_includes(markdown, base_path, files);
    let expanded_lines = split_lines(with_includes.as_str()).len();
    let with_variables = substitute_variables(with_includes.as_str(), now, file_dates);
    let transformed = transform_achievement_markers(with_variables.as_str());
    let achievement_markers = count_matches(transformed.as_str(), "achievement-marker");
    let with_skill_matrices = transform_skill_matrices(transformed.as_str());
    let doc_structure = parse_document_structure(with_skill_matrices.as_str(), dropdown_section);
    proof {
        crate::document::lemma_panels_match_items(
            spec_lines(with_skill_matrices@),
            0,
            spec_opt_view(dropdown_section),
            crate::document::spec_empty_doc_state(),
        );
        assert(doc_structure.nav_buttons.deep_view().len() == doc_structure.nav_buttons@.len());
        assert(doc_structure.dropdown_items.deep_view().len()
            == doc_structure.dropdown_items@.len());
        assert(doc_structure.panels.deep_view().len() == doc_structure.panels@.len());
    }
    let panel_count = doc_structure.panels.len();
    proof {
        assert(panel_count == doc_structure.panels.deep_view().len());
    }
    let section_count = if doc_structure.nav_buttons.len()
        <= usize::MAX - doc_structure.dropdown_items.len() {
        doc_structure.nav_buttons.len() + doc_structure.dropdown_items.len()
    } else {
        usize::MAX
    };
    let renderer = HtmlRenderer::new();
    let output = match renderer.render_from_structure(
        &doc_structure,
        title,
        logo_data_uri,
        assets,
    ) {
        Ok(bytes) => bytes,
        Err(e) => {
            return Err(GeneratorError::RenderError(e));
        },
    };
    let html_content_size = output.len();
    let stats = GenerationStats {
        source_lines,
        expanded_lines,
        achievement_markers,
        html_content_size,
        section_count,
    };
    Ok((output, stats))
}

} // verus!
