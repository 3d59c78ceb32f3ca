//! HTML rendering: wraps sections or panels in collapsible markup, builds
//! the navigation, and substitutes everything into the page template.

use vstd::prelude::*;
use crate::document::{ContentPanelView, DocState, DocumentStructure, NavItemView};
use crate::embed::Assets;
use crate::markdown::{html_of, parse_markdown};
use crate::sections::{Section, SectionView};
use crate::text::{
    contains_sub, find_from, replace_all, spec_contains_sub, spec_find_from, spec_replace_all,
};

verus! {

/// Why rendering failed.
#[derive(Debug)]
pub enum RenderError {
    AssetError(crate::embed::EmbedError),
    StructureError(String),
}

/// A document already converted to HTML, with its extracted sections.
#[derive(Debug)]
pub struct ParsedDocument {
    pub html_content: String,
    pub sections: Vec<Section>,
    pub title: String,
}

/// Every section's span lies inside the rendered text.
pub open spec fn spec_sections_valid(secs: Seq<SectionView>, n: int) -> bool {
    forall|i: int|
        0 <= i < secs.len() ==> 0 <= (#[trigger] secs[i]).start <= secs[i].end <= n
}

/// Renders a parsed document into the final page bytes.
pub trait Renderer {
    fn render(&self, document: &ParsedDocument, logo_data_uri: &str, assets: &Assets) -> Result<
        Vec<u8>,
        RenderError,
    >
        requires
            spec_sections_valid(document.sections.deep_view(), document.html_content@.len() as int),
    ;
}

/// One section's collapsible block: the heading is re-emitted inside a
/// header bar and everything after the `</h2>` tag becomes the body.
pub open spec fn spec_wrap_one(html: Seq<char>, s: SectionView) -> Seq<char> {
    let content = html.subrange(s.start, s.end);
    let cs = match spec_find_from(content, "</h2>"@, 0) {
        Option::Some(p) => if 0 <= p && p + 5 <= content.len() {
            p + 5
        } else {
            0
        },
        Option::None => 0,
    };
    "<div class=\"section\" id=\"section-"@ + s.id
        + "\">\n    <div class=\"section-header\">\n        <span class=\"toggle-icon\">\u{25bc}</span>\n        <h2>"@
        + s.title + "</h2>\n    </div>\n    <div class=\"section-content\">\n        "@
        + content.skip(cs) + "\n    </div>\n</div>\n"@
}

pub open spec fn spec_wrap_fold(html: Seq<char>, secs: Seq<SectionView>, i: int) -> Seq<char>
    decreases secs.len() - i,
{
    if i < 0 || i >= secs.len() {
        Seq::<char>::empty()
    } else {
        spec_wrap_one(html, secs[i]) + spec_wrap_fold(html, secs, i + 1)
    }
}

/// The whole document wrapped: text before the first section is kept only if
/// it holds no top-level title, and each section becomes a collapsible block.
pub open spec fn spec_wrap_sections(html: Seq<char>, secs: Seq<SectionView>) -> Seq<char> {
    if secs.len() == 0 {
        html
    } else {
        let pre = html.take(secs[0].start);
        (if secs[0].start > 0 && !spec_contains_sub(pre, "<h1>"@) {
            pre
        } else {
            Seq::<char>::empty()
        }) + spec_wrap_fold(html, secs, 0)
    }
}

pub open spec fn spec_nav_rest(secs: Seq<SectionView>, i: int) -> Seq<char>
    decreases secs.len() - i,
{
    if i < 0 || i >= secs.len() {
        Seq::<char>::empty()
    } else {
        "\n        <button>"@ + secs[i].title + "</button>"@ + spec_nav_rest(secs, i + 1)
    }
}

/// One `<button>` per section, separated by the template's indentation.
pub open spec fn spec_nav_buttons(secs: Seq<SectionView>) -> Seq<char> {
    if secs.len() == 0 {
        Seq::<char>::empty()
    } else {
        "<button>"@ + secs[0].title + "</button>"@ + spec_nav_rest(secs, 1)
    }
}

/// The interactive script prefixed with the dropdown section constant: the
/// configured title as an escaped string literal, or null.
pub open spec fn spec_script_with_dropdown(dd: Option<Seq<char>>, script: Seq<char>) -> Seq<
    char,
> {
    match dd {
        Option::Some(name) => "const DROPDOWN_SECTION = \""@ + spec_replace_all(
            name,
            "\""@,
            "\\\""@,
        ) + "\";\n"@ + script,
        Option::None => "const DROPDOWN_SECTION = null;\n"@ + script,
    }
}

/// The page template with its six placeholders substituted.
pub open spec fn spec_fill_template(
    template: Seq<char>,
    title: Seq<char>,
    styles: Seq<char>,
    logo: Seq<char>,
    nav: Seq<char>,
    content: Seq<char>,
    script: Seq<char>,
) -> Seq<char> {
    spec_replace_all(
        spec_replace_all(
            spec_replace_all(
                spec_replace_all(
                    spec_replace_all(
                        spec_replace_all(template, "{{title}}"@, title),
                        "{{styles}}"@,
                        styles,
                    ),
                    "{{logo}}"@,
                    logo,
                ),
                "{{nav_buttons}}"@,
                nav,
            ),
            "{{content}}"@,
            content,
        ),
        "{{script}}"@,
        script,
    )
}

/// The legacy whole-document page: wrapped sections and section buttons
/// substituted into the template.
pub open spec fn spec_render_with_options(
    html: Seq<char>,
    secs: Seq<SectionView>,
    title: Seq<char>,
    logo: Seq<char>,
    dd: Option<Seq<char>>,
    styles: Seq<char>,
    script: Seq<char>,
    template: Seq<char>,
) -> Seq<char> {
    spec_fill_template(
        template,
        title,
        styles,
        logo,
        spec_nav_buttons(secs),
        spec_wrap_sections(html, secs),
        spec_script_with_dropdown(dd, script),
    )
}

#[derive(Debug, Default)]
pub struct HtmlRenderer;

impl HtmlRenderer {
    pub fn new() -> (r: HtmlRenderer) {
        HtmlRenderer
    }

    /// Wraps each extracted section of the rendered HTML in collapsible
    /// markup, dropping a pre-section preamble that carries a top-level
    /// title.
    #[verifier::rlimit(60)]
    pub fn wrap_sections(&self, html: &str, sections: &Vec<Section>) -> (r: String)
        requires
            spec_sections_valid(sections.deep_view(), html@.len() as int),
        ensures
            r@ == spec_wrap_sections(html@, sections.deep_view()),
    {
        let ghost sdv = sections.deep_view();
        let n = html.unicode_len();
        if sections.len() == 0 {
            return html.to_owned();
        }
        let mut out = String::new();
        proof {
            assert(sdv[0] == sections@[0].deep_view());
        }
        let first_start = sections[0].start;
        if first_start > 0 {
            let pre = html.substring_char(0, first_start);
            proof {
                assert(pre@ =~= html@.take(sdv[0].start));
            }
            if !contains_sub(pre, "<h1>") {
                out.append(pre);
            }
        }
        let ghost pre_part = out@;
        let mut i: usize = 0;
        proof {
            reveal_strlit("</h2>");
            assert(out@ + spec_wrap_fold(html@, sdv, 0) =~= pre_part + spec_wrap_fold(
                html@,
                sdv,
                0,
            ));
        }
        while i < sections.len()
            invariant
                0 <= i <= sections.len(),
                sdv == sections.deep_view(),
                sdv.len() == sections@.len(),
                n == html@.len(),
                "</h2>"@.len() == 5,
                spec_sections_valid(sdv, n as int),
                out@ + spec_wrap_fold(html@, sdv, i as int) == pre_part + spec_wrap_fold(
                    html@,
                    sdv,
                    0,
                ),
            decreases sections.len() - i,
        {
            let ghost pre = out@;
            proof {
                assert(sdv[i as int] == sections@[i as int].deep_view());
            }
            let sec = &sections[i];
            let content = html.substring_char(sec.start, sec.end);
            proof {
                assert(content@ == html@.subrange(sdv[i as int].start, sdv[i as int].end));
            }
            let cn = content.unicode_len();
            let content_start: usize = match find_from(content, "</h2>", 0) {
                Some(p) => {
                    proof {
                        crate::text::lemma_find_from_some(content@, "</h2>"@, 0, p as int);
                    }
                    p + 5
                },
                None => 0,
            };
            let inner = content.substring_char(content_start, cn);
            out.append("<div class=\"section\" id=\"section-");
            out.append(sec.id.as_str());
            out.append(
                "\">\n    <div class=\"section-header\">\n        <span class=\"toggle-icon\">\u{25bc}</span>\n        <h2>",
            );
            out.append(sec.title.as_str());
            out.append("</h2>\n    </div>\n    <div class=\"section-content\">\n        ");
            out.append(inner);
            out.append("\n    </div>\n</div>\n");
            proof {
                assert(inner@ =~= content@.skip(content_start as int));
                assert(out@ =~= pre + spec_wrap_one(html@, sdv[i as int]));
                assert(pre + spec_wrap_one(html@, sdv[i as int]) + spec_wrap_fold(
                    html@,
                    sdv,
                    i + 1,
                ) =~= pre + (spec_wrap_one(html@, sdv[i as int]) + spec_wrap_fold(
                    html@,
                    sdv,
                    i + 1,
                )));
            }
            i += 1;
        }
        proof {
            assert(spec_wrap_fold(html@, sdv, sdv.len() as int) =~= Seq::<char>::empty());
            assert(out@ + Seq::<char>::empty() =~= out@);
        }
        out
    }

    /// One navigation button per section.
    pub fn generate_nav_buttons(&self, sections: &Vec<Section>) -> (r: String)
        ensures
            r@ == spec_nav_buttons(sections.deep_view()),
    {
        let ghost sdv = sections.deep_view();
        let mut out = String::new();
        if sections.len() == 0 {
            return out;
        }
        proof {
            assert(sdv[0] == sections@[0].deep_view());
        }
        out.append("<button>");
        out.append(sections[0].title.as_str());
        out.append("</button>");
        let ghost head = out@;
        let mut i: usize = 1;
        proof {
            assert(out@ + spec_nav_rest(sdv, 1) =~= head + spec_nav_rest(sdv, 1));
        }
        while i < sections.len()
            invariant
                1 <= i <= sections.len(),
                sdv == sections.deep_view(),
                sdv.len() == sections@.len(),
                out@ + spec_nav_rest(sdv, i as int) == head + spec_nav_rest(sdv, 1),
            decreases sections.len() - i,
        {
            let ghost pre = out@;
            proof {
                assert(sdv[i as int] == sections@[i as int].deep_view());
            }
            out.append("\n        <button>");
            out.append(sections[i].title.as_str());
            out.append("</button>");
            proof {
                assert(out@ =~= pre + ("\n        <button>"@ + sdv[i as int].title
                    + "</button>"@));
                assert(pre + ("\n        <button>"@ + sdv[i as int].title + "</button>"@)
                    + spec_nav_rest(sdv, i + 1) =~= pre + ("\n        <button>"@ + sdv[
                    i as int
                ].title + "</button>"@ + spec_nav_rest(sdv, i + 1)));
            }
            i += 1;
        }
        proof {
            assert(spec_nav_rest(sdv, sdv.len() as int) =~= Seq::<char>::empty());
            assert(out@ + Seq::<char>::empty() =~= out@);
        }
        out
    }

    fn script_with_dropdown(&self, dropdown_section: Option<&str>, script: &str) -> (r: String)
        ensures
            r@ == spec_script_with_dropdown(
                match dropdown_section {
                    Some(s) => Some(s@),
                    None => None,
                },
                script@,
            ),
    {
        let mut out = String::new();
        match dropdown_section {
            Some(name) => {
                let escaped = replace_all(name, "\"", "\\\"");
                out.append("const DROPDOWN_SECTION = \"");
                out.append(escaped.as_str());
                out.append("\";\n");
                out.append(script);
                proof {
                    assert(out@ =~= "const DROPDOWN_SECTION = \""@ + spec_replace_all(
                        name@,
                        "\""@,
                        "\\\""@,
                    ) + "\";\n"@ + script@);
                }
            },
            None => {
                out.append("const DROPDOWN_SECTION = null;\n");
                out.append(script);
                proof {
                    assert(out@ =~= "const DROPDOWN_SECTION = null;\n"@ + script@);
                }
            },
        }
        out
    }

    fn fill_template(
        &self,
        template: &str,
        title: &str,
        styles: &str,
        logo: &str,
        nav: &str,
        content: &str,
        script: &str,
    ) -> (r: String)
        ensures
            r@ == spec_fill_template(
                template@,
                title@,
                styles@,
                logo@,
                nav@,
                content@,
                script@,
            ),
    {
        let s1 = replace_all(template, "{{title}}", title);
        let s2 = replace_all(s1.as_str(), "{{styles}}", styles);
        let s3 = replace_all(s2.as_str(), "{{logo}}", logo);
        let s4 = replace_all(s3.as_str(), "{{nav_buttons}}", nav);
        let s5 = replace_all(s4.as_str(), "{{content}}", content);
        replace_all(s5.as_str(), "{{script}}", script)
    }

    /// The legacy whole-document path: wraps the rendered HTML's sections,
    /// builds their buttons, and fills the page template.
    pub fn render_with_options(
        &self,
        document: &ParsedDocument,
        logo_data_uri: &str,
        dropdown_section: Option<&str>,
        assets: &Assets,
    ) -> (r: Result<Vec<u8>, RenderError>)
        requires
            spec_sections_valid(document.sections.deep_view(), document.html_content@.len() as int),
        ensures
            r matches Ok(b) && b@ == vstd::utf8::encode_utf8(
                spec_render_with_options(
                    document.html_content@,
                    document.sections.deep_view(),
                    document.title@,
                    logo_data_uri@,
                    match dropdown_section {
                        Some(s) => Some(s@),
                        None => None,
                    },
                    assets.styles@,
                    assets.script@,
                    assets.template@,
                ),
            ),
    {
        let wrapped = self.wrap_sections(document.html_content.as_str(), &document.sections);
        let nav = self.generate_nav_buttons(&document.sections);
        let script = self.script_with_dropdown(dropdown_section, assets.script.as_str());
        let html = self.fill_template(
            assets.template.as_str(),
            document.title.as_str(),
            assets.styles.as_str(),
            logo_data_uri,
            nav.as_str(),
            wrapped.as_str(),
            script.as_str(),
        );
        Ok(html.as_str().as_bytes_vec())
    }
}

/// One panel's collapsible block: the panel's markdown rendered by the
/// markdown engine, inside the same markup the legacy path emits.
pub open spec fn spec_panel_block(p: ContentPanelView) -> Seq<char> {
    "<div class=\"section\" id=\"section-"@ + p.id
        + "\">\n    <div class=\"section-header\">\n        <span class=\"toggle-icon\">\u{25bc}</span>\n        <h2>"@
        + p.title + "</h2>\n    </div>\n    <div class=\"section-content\">\n        "@
        + html_of(p.markdown_content) + "\n    </div>\n</div>\n"@
}

pub open spec fn spec_panels_fold(panels: Seq<ContentPanelView>, i: int) -> Seq<char>
    decreases panels.len() - i,
{
    if i < 0 || i >= panels.len() {
        Seq::<char>::empty()
    } else {
        spec_panel_block(panels[i]) + spec_panels_fold(panels, i + 1)
    }
}

pub open spec fn spec_item_buttons_rest(items: Seq<NavItemView>, i: int) -> Seq<char>
    decreases items.len() - i,
{
    if i < 0 || i >= items.len() {
        Seq::<char>::empty()
    } else {
        "\n        <button>"@ + items[i].title + "</button>"@ + spec_item_buttons_rest(
            items,
            i + 1,
        )
    }
}

pub open spec fn spec_item_buttons(items: Seq<NavItemView>) -> Seq<char> {
    if items.len() == 0 {
        Seq::<char>::empty()
    } else {
        "<button>"@ + items[0].title + "</button>"@ + spec_item_buttons_rest(items, 1)
    }
}

pub open spec fn spec_dropdown_buttons(items: Seq<NavItemView>, i: int) -> Seq<char>
    decreases items.len() - i,
{
    if i < 0 || i >= items.len() {
        Seq::<char>::empty()
    } else {
        "<button>"@ + items[i].title + "</button>"@ + spec_dropdown_buttons(items, i + 1)
    }
}

/// The navigation markup for a structured document: one button per
/// top-level section, and, when a dropdown group exists, a dropdown block
/// carrying its title and one button per item.
pub open spec fn spec_structure_nav(st: DocState) -> Seq<char> {
    spec_item_buttons(st.nav) + match st.dropdown_title {
        Option::Some(t) => (if st.nav.len() > 0 {
            "\n        "@
        } else {
            Seq::<char>::empty()
        }) + "<div class=\"dropdown\"><button>"@ + t
            + "</button><div class=\"dropdown-content\">"@ + spec_dropdown_buttons(
            st.dropdown,
            0,
        ) + "</div></div>"@,
        Option::None => Seq::<char>::empty(),
    }
}

/// The page built from a structured document: each panel rendered to HTML
/// and wrapped, the navigation markup, and the dropdown-aware script,
/// substituted into the template.
pub open spec fn spec_render_from_structure(
    st: DocState,
    title: Seq<char>,
    logo: Seq<char>,
    styles: Seq<char>,
    script: Seq<char>,
    template: Seq<char>,
) -> Seq<char> {
    spec_fill_template(
        template,
        title,
        styles,
        logo,
        spec_structure_nav(st),
        spec_panels_fold(st.panels, 0),
        spec_script_with_dropdown(st.dropdown_title, script),
    )
}

impl HtmlRenderer {
    fn structure_nav(&self, document: &DocumentStructure) -> (r: String)
        ensures
            r@ == spec_structure_nav(document@),
    {
        let ghost st = document@;
        let items = &document.nav_buttons;
        let ghost idv = items.deep_view();
        let mut out = String::new();
        if items.len() > 0 {
            proof {
                assert(idv[0] == items@[0].deep_view());
            }
            out.append("<button>");
            out.append(items[0].title.as_str());
            out.append("</button>");
        }
        let ghost head = out@;
        let mut i: usize = 1;
        proof {
            assert(out@ + spec_item_buttons_rest(idv, 1) =~= head + spec_item_buttons_rest(
                idv,
                1,
            ));
        }
        while i < items.len()
            invariant
                1 <= i <= items@.len() || (items@.len() == 0 && i == 1),
                idv == items.deep_view(),
                idv.len() == items@.len(),
                out@ + spec_item_buttons_rest(idv, i as int) == head + spec_item_buttons_rest(
                    idv,
                    1,
                ),
            decreases items@.len() - i,
        {
            let ghost pre = out@;
            proof {
                assert(idv[i as int] == items@[i as int].deep_view());
            }
            out.append("\n        <button>");
            out.append(items[i].title.as_str());
            out.append("</button>");
            proof {
                assert(out@ =~= pre + ("\n        <button>"@ + idv[i as int].title
                    + "</button>"@));
                assert(pre + ("\n        <button>"@ + idv[i as int].title + "</button>"@)
                    + spec_item_buttons_rest(idv, i + 1) =~= pre + ("\n        <button>"@ + idv[
                    i as int
                ].title + "</button>"@ + spec_item_buttons_rest(idv, i + 1)));
            }
            i += 1;
        }
        proof {
            assert(spec_item_buttons_rest(idv, idv.len() as int) =~= Seq::<char>::empty());
            if idv.len() == 0 {
                assert(spec_item_buttons_rest(idv, 1) =~= Seq::<char>::empty());
            }
            assert(out@ =~= spec_item_buttons(idv));
        }
        match document.dropdown_title {
            Some(ref t) => {
                let ghost nav_part = out@;
                if items.len() > 0 {
                    out.append("\n        ");
                }
                out.append("<div class=\"dropdown\"><button>");
                out.append(t.as_str());
                out.append("</button><div class=\"dropdown-content\">");
                let ghost mid = out@;
                let dd = &document.dropdown_items;
                let ghost ddv = dd.deep_view();
                let mut k: usize = 0;
                proof {
                    assert(out@ + spec_dropdown_buttons(ddv, 0) =~= mid
                        + spec_dropdown_buttons(ddv, 0));
                }
                while k < dd.len()
                    invariant
                        0 <= k <= dd@.len(),
                        ddv == dd.deep_view(),
                        ddv.len() == dd@.len(),
                        out@ + spec_dropdown_buttons(ddv, k as int) == mid
                            + spec_dropdown_buttons(ddv, 0),
                    decreases dd@.len() - k,
                {
                    let ghost pre = out@;
                    proof {
                        assert(ddv[k as int] == dd@[k as int].deep_view());
                    }
                    out.append("<button>");
                    out.append(dd[k].title.as_str());
                    out.append("</button>");
                    proof {
                        assert(out@ =~= pre + ("<button>"@ + ddv[k as int].title
                            + "</button>"@));
                        assert(pre + ("<button>"@ + ddv[k as int].title + "</button>"@)
                            + spec_dropdown_buttons(ddv, k + 1) =~= pre + ("<button>"@ + ddv[
                            k as int
                        ].title + "</button>"@ + spec_dropdown_buttons(ddv, k + 1)));
                    }
                    k += 1;
                }
                out.append("</div></div>");
                proof {
                    assert(spec_dropdown_buttons(ddv, ddv.len() as int)
                        =~= Seq::<char>::empty());
                    assert(out@ =~= spec_structure_nav(st));
                }
            },
            None => {
                proof {
                    assert(out@ + Seq::<char>::empty() =~= out@);
                }
            },
        }
        out
    }

    /// The panel path: renders each panel's markdown independently, wraps it
    /// in a collapsible block carrying the panel's id, and assembles the
    /// page with the structure's navigation and dropdown-aware script.
    #[verifier::rlimit(60)]
    pub fn render_from_structure(
        &self,
        document: &DocumentStructure,
        title: &str,
        logo_data_uri: &str,
        assets: &Assets,
    ) -> (r: Result<Vec<u8>, RenderError>)
        ensures
            r matches Ok(b) && b@ == vstd::utf8::encode_utf8(
                spec_render_from_structure(
                    document@,
                    title@,
                    logo_data_uri@,
                    assets.styles@,
                    assets.script@,
                    assets.template@,
                ),
            ),
    {
        let ghost st = document@;
        let panels = &document.panels;
        let ghost pdv = panels.deep_view();
        let mut content = String::new();
        let mut i: usize = 0;
        proof {
            assert(content@ + spec_panels_fold(pdv, 0) =~= spec_panels_fold(pdv, 0));
        }
        while i < panels.len()
            invariant
                0 <= i <= panels@.len(),
                pdv == panels.deep_view(),
                pdv.len() == panels@.len(),
                content@ + spec_panels_fold(pdv, i as int) == spec_panels_fold(pdv, 0),
            decreases panels@.len() - i,
        {
            let ghost pre = content@;
            proof {
                assert(pdv[i as int] == panels@[i as int].deep_view());
            }
            let body = parse_markdown(panels[i].markdown_content.as_str());
            content.append("<div class=\"section\" id=\"section-");
            content.append(panels[i].id.as_str());
            content.append(
                "\">\n    <div class=\"section-header\">\n        <span class=\"toggle-icon\">\u{25bc}</span>\n        <h2>",
            );
            content.append(panels[i].title.as_str());
            content.append(
                "</h2>\n    </div>\n    <div class=\"section-content\">\n        ",
            );
            content.append(body.as_str());
            content.append("\n    </div>\n</div>\n");
            proof {
                assert(content@ =~= pre + spec_panel_block(pdv[i as int]));
                assert(pre + spec_panel_block(pdv[i as int]) + spec_panels_fold(pdv, i + 1)
                    =~= pre + (spec_panel_block(pdv[i as int]) + spec_panels_fold(
                    pdv,
                    i + 1,
                )));
            }
            i += 1;
        }
        proof {
            assert(spec_panels_fold(pdv, pdv.len() as int) =~= Seq::<char>::empty());
            assert(content@ + Seq::<char>::empty() =~= content@);
        }
        let nav = self.structure_nav(document);
        let dropdown_ref: Option<&str> = match document.dropdown_title {
            Some(ref t) => Some(t.as_str()),
            None => None,
        };
        let script = self.script_with_dropdown(dropdown_ref, assets.script.as_str());
        let html = self.fill_template(
            assets.template.as_str(),
            title,
            assets.styles.as_str(),
            logo_data_uri,
            nav.as_str(),
            content.as_str(),
            script.as_str(),
        );
        Ok(html.as_str().as_bytes_vec())
    }
}

impl Renderer for HtmlRenderer {
    /// Renders through the legacy path with the default dropdown title.
    fn render(&self, document: &ParsedDocument, logo_data_uri: &str, assets: &Assets) -> Result<
        Vec<u8>,
        RenderError,
    > {
        self.render_with_options(document, logo_data_uri, Some("Related Documents"), assets)
    }
}

} // verus!
