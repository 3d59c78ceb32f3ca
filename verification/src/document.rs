//! Document structuring: partitions the processed markdown into ordered
//! navigation entries, an optional dropdown group of subsections, and one
//! content panel per entry, all sharing a collision-free identifier space.

use vstd::prelude::*;
use crate::slug::{generate_unique_id, spec_unique_id};
use crate::text::{spec_starts_with, spec_trim, split_lines, starts_with, trim};

verus! {

/// A navigation item: a button or a dropdown option.
#[derive(Debug, Clone)]
pub struct NavItem {
    pub id: String,
    pub title: String,
}

pub struct NavItemView {
    pub id: Seq<char>,
    pub title: Seq<char>,
}

impl View for NavItem {
    type V = NavItemView;

    open spec fn view(&self) -> NavItemView {
        NavItemView { id: self.id@, title: self.title@ }
    }
}

impl DeepView for NavItem {
    type V = NavItemView;

    open spec fn deep_view(&self) -> NavItemView {
        self.view()
    }
}

/// One unit of renderable content: a section or dropdown item with its raw
/// markdown body.
#[derive(Debug, Clone)]
pub struct ContentPanel {
    pub id: String,
    pub title: String,
    pub markdown_content: String,
    pub is_dropdown_item: bool,
}

pub struct ContentPanelView {
    pub id: Seq<char>,
    pub title: Seq<char>,
    pub markdown_content: Seq<char>,
    pub is_dropdown_item: bool,
}

impl View for ContentPanel {
    type V = ContentPanelView;

    open spec fn view(&self) -> ContentPanelView {
        ContentPanelView {
            id: self.id@,
            title: self.title@,
            markdown_content: self.markdown_content@,
            is_dropdown_item: self.is_dropdown_item,
        }
    }
}

impl DeepView for ContentPanel {
    type V = ContentPanelView;

    open spec fn deep_view(&self) -> ContentPanelView {
        self.view()
    }
}

/// The structured document: top-level navigation, the optional dropdown
/// group, and every content panel in document order.
#[derive(Debug)]
pub struct DocumentStructure {
    pub nav_buttons: Vec<NavItem>,
    pub dropdown_title: Option<String>,
    pub dropdown_items: Vec<NavItem>,
    pub panels: Vec<ContentPanel>,
}

pub struct DocState {
    pub nav: Seq<NavItemView>,
    pub dropdown_title: Option<Seq<char>>,
    pub dropdown: Seq<NavItemView>,
    pub panels: Seq<ContentPanelView>,
    pub used: Seq<Seq<char>>,
}

impl View for DocumentStructure {
    type V = DocState;

    open spec fn view(&self) -> DocState {
        DocState {
            nav: self.nav_buttons.deep_view(),
            dropdown_title: match self.dropdown_title {
                Option::Some(ref t) => Option::Some(t@),
                Option::None => Option::None,
            },
            dropdown: self.dropdown_items.deep_view(),
            panels: self.panels.deep_view(),
            used: Seq::<Seq<char>>::empty(),
        }
    }
}

/// A second-level heading line (after trimming).
pub open spec fn spec_h2(t: Seq<char>) -> bool {
    spec_starts_with(t, "## "@)
}

/// A third-level heading line (after trimming).
pub open spec fn spec_h3(t: Seq<char>) -> bool {
    spec_starts_with(t, "### "@)
}

/// The first line at or after `i` that is a second-level heading.
pub open spec fn spec_next_h2(lines: Seq<Seq<char>>, i: int) -> int
    decreases lines.len() - i,
{
    if i < 0 || i >= lines.len() {
        lines.len() as int
    } else if spec_h2(spec_trim(lines[i])) {
        i
    } else {
        spec_next_h2(lines, i + 1)
    }
}

/// The first line at or after `i` that is a second- or third-level heading.
pub open spec fn spec_next_h2_or_h3(lines: Seq<Seq<char>>, i: int) -> int
    decreases lines.len() - i,
{
    if i < 0 || i >= lines.len() {
        lines.len() as int
    } else if spec_h2(spec_trim(lines[i])) || spec_h3(spec_trim(lines[i])) {
        i
    } else {
        spec_next_h2_or_h3(lines, i + 1)
    }
}

pub open spec fn spec_join_rest(lines: Seq<Seq<char>>, k: int, b: int) -> Seq<char>
    decreases b - k,
{
    if k < 0 || k >= b || k >= lines.len() {
        Seq::<char>::empty()
    } else {
        seq!['\n'] + lines[k] + spec_join_rest(lines, k + 1, b)
    }
}

/// The lines of `[a, b)` joined with single newlines, as a panel body.
pub open spec fn spec_join_lines(lines: Seq<Seq<char>>, a: int, b: int) -> Seq<char> {
    if a < 0 || a >= b || a >= lines.len() {
        Seq::<char>::empty()
    } else {
        lines[a] + spec_join_rest(lines, a + 1, b)
    }
}

/// The main scan: each second-level heading opens either the configured
/// dropdown section or an ordinary section whose body runs to the next
/// second-level heading. Lines outside any section are dropped.
pub open spec fn spec_doc_fold(
    lines: Seq<Seq<char>>,
    i: int,
    dd: Option<Seq<char>>,
    st: DocState,
) -> DocState
    decreases lines.len() - i, 0nat,
{
    if i < 0 || i >= lines.len() {
        st
    } else {
        let t = spec_trim(lines[i]);
        if spec_h2(t) {
            let title = spec_trim(t.skip(3));
            let id = spec_unique_id(title, st.used);
            let used2 = st.used.push(id);
            if dd == Some(title) {
                let st2 = DocState {
                    dropdown_title: Some(title),
                    used: used2,
                    ..st
                };
                spec_dropdown_fold(lines, i + 1, dd, st2)
            } else {
                let j0 = spec_next_h2(lines, i + 1);
                let j = if j0 < i + 1 {
                    i + 1
                } else if j0 > lines.len() {
                    lines.len() as int
                } else {
                    j0
                };
                let st2 = DocState {
                    nav: st.nav.push(NavItemView { id: id, title: title }),
                    panels: st.panels.push(
                        ContentPanelView {
                            id: id,
                            title: title,
                            markdown_content: spec_join_lines(lines, i + 1, j),
                            is_dropdown_item: false,
                        },
                    ),
                    used: used2,
                    ..st
                };
                spec_doc_fold(lines, j, dd, st2)
            }
        } else {
            spec_doc_fold(lines, i + 1, dd, st)
        }
    }
}

/// The dropdown scan: each third-level heading becomes a dropdown item whose
/// body runs to the next second- or third-level heading; a second-level
/// heading hands control back to the main scan.
pub open spec fn spec_dropdown_fold(
    lines: Seq<Seq<char>>,
    i: int,
    dd: Option<Seq<char>>,
    st: DocState,
) -> DocState
    decreases lines.len() - i, 1nat,
{
    if i < 0 || i >= lines.len() {
        st
    } else {
        let t = spec_trim(lines[i]);
        if spec_h2(t) {
            spec_doc_fold(lines, i, dd, st)
        } else if spec_h3(t) {
            let title = spec_trim(t.skip(4));
            let id = spec_unique_id(title, st.used);
            let used2 = st.used.push(id);
            let k0 = spec_next_h2_or_h3(lines, i + 1);
            let k = if k0 < i + 1 {
                i + 1
            } else if k0 > lines.len() {
                lines.len() as int
            } else {
                k0
            };
            let st2 = DocState {
                dropdown: st.dropdown.push(NavItemView { id: id, title: title }),
                panels: st.panels.push(
                    ContentPanelView {
                        id: id,
                        title: title,
                        markdown_content: spec_join_lines(lines, i + 1, k),
                        is_dropdown_item: true,
                    },
                ),
                used: used2,
                ..st
            };
            spec_dropdown_fold(lines, k, dd, st2)
        } else {
            spec_dropdown_fold(lines, i + 1, dd, st)
        }
    }
}

pub open spec fn spec_empty_doc_state() -> DocState {
    DocState {
        nav: Seq::<NavItemView>::empty(),
        dropdown_title: None,
        dropdown: Seq::<NavItemView>::empty(),
        panels: Seq::<ContentPanelView>::empty(),
        used: Seq::<Seq<char>>::empty(),
    }
}

/// The structure extracted from a document, starting from nothing.
pub open spec fn spec_parse_document_structure(s: Seq<char>, dd: Option<Seq<char>>) -> DocState {
    spec_doc_fold(crate::text::spec_lines(s), 0, dd, spec_empty_doc_state())
}

fn next_h2(lines: &Vec<String>, i: usize) -> (r: usize)
    requires
        i <= lines@.len(),
        lines.deep_view().len() == lines@.len(),
    ensures
        r == spec_next_h2(lines.deep_view(), i as int),
        i <= r <= lines@.len(),
{
    let ghost ldv = lines.deep_view();
    let mut k: usize = i;
    while k < lines.len()
        invariant
            i <= k <= lines@.len(),
            ldv == lines.deep_view(),
            ldv.len() == lines@.len(),
            spec_next_h2(ldv, i as int) == spec_next_h2(ldv, k as int),
        decreases lines@.len() - k,
    {
        proof {
            assert(lines[k as int]@ == ldv[k as int]);
        }
        if starts_with(trim(lines[k].as_str()), "## ") {
            return k;
        }
        k += 1;
    }
    k
}

fn next_h2_or_h3(lines: &Vec<String>, i: usize) -> (r: usize)
    requires
        i <= lines@.len(),
        lines.deep_view().len() == lines@.len(),
    ensures
        r == spec_next_h2_or_h3(lines.deep_view(), i as int),
        i <= r <= lines@.len(),
{
    let ghost ldv = lines.deep_view();
    let mut k: usize = i;
    while k < lines.len()
        invariant
            i <= k <= lines@.len(),
            ldv == lines.deep_view(),
            ldv.len() == lines@.len(),
            spec_next_h2_or_h3(ldv, i as int) == spec_next_h2_or_h3(ldv, k as int),
        decreases lines@.len() - k,
    {
        proof {
            assert(lines[k as int]@ == ldv[k as int]);
        }
        let t = trim(lines[k].as_str());
        if starts_with(t, "## ") || starts_with(t, "### ") {
            return k;
        }
        k += 1;
    }
    k
}

fn join_lines(lines: &Vec<String>, a: usize, b: usize) -> (r: String)
    requires
        b <= lines@.len(),
        lines.deep_view().len() == lines@.len(),
    ensures
        r@ == spec_join_lines(lines.deep_view(), a as int, b as int),
{
    let ghost ldv = lines.deep_view();
    let mut out = String::new();
    if a >= b {
        return out;
    }
    proof {
        assert(lines[a as int]@ == ldv[a as int]);
    }
    out.append(lines[a].as_str());
    let mut k: usize = a + 1;
    while k < b
        invariant
            a + 1 <= k <= b <= lines@.len(),
            ldv == lines.deep_view(),
            ldv.len() == lines@.len(),
            out@ + spec_join_rest(ldv, k as int, b as int) == spec_join_lines(
                ldv,
                a as int,
                b as int,
            ),
        decreases b - k,
    {
        let ghost pre = out@;
        proof {
            assert(lines[k as int]@ == ldv[k as int]);
        }
        crate::text::push_char(&mut out, '\n');
        out.append(lines[k].as_str());
        proof {
            assert(out@ =~= pre + (seq!['\n'] + ldv[k as int]));
            assert(pre + (seq!['\n'] + ldv[k as int]) + spec_join_rest(ldv, k + 1, b as int)
                =~= pre + (seq!['\n'] + ldv[k as int] + spec_join_rest(ldv, k + 1, b as int)));
        }
        k += 1;
    }
    proof {
        assert(spec_join_rest(ldv, b as int, b as int) =~= Seq::<char>::empty());
        assert(out@ + Seq::<char>::empty() =~= out@);
    }
    out
}

pub open spec fn spec_doc_state(
    nav: Seq<NavItemView>,
    dropdown_title: Option<Seq<char>>,
    dropdown: Seq<NavItemView>,
    panels: Seq<ContentPanelView>,
    used: Seq<Seq<char>>,
) -> DocState {
    DocState { nav, dropdown_title, dropdown, panels, used }
}

pub open spec fn view_of_opt(o: Option<String>) -> Option<Seq<char>> {
    match o {
        Option::Some(t) => Option::Some(t@),
        Option::None => Option::None,
    }
}

fn doc_fold_exec(
    lines: &Vec<String>,
    i: usize,
    dd: Option<&str>,
    nav: &mut Vec<NavItem>,
    dropdown_title: &mut Option<String>,
    dropdown: &mut Vec<NavItem>,
    panels: &mut Vec<ContentPanel>,
    used: &mut Vec<String>,
)
    requires
        i <= lines@.len(),
        lines.deep_view().len() == lines@.len(),
    ensures
        spec_doc_state(
            final(nav).deep_view(),
            view_of_opt(*final(dropdown_title)),
            final(dropdown).deep_view(),
            final(panels).deep_view(),
            final(used).deep_view(),
        ) == spec_doc_fold(
            lines.deep_view(),
            i as int,
            match dd {
                Some(s) => Some(s@),
                None => None,
            },
            spec_doc_state(
                old(nav).deep_view(),
                view_of_opt(*old(dropdown_title)),
                old(dropdown).deep_view(),
                old(panels).deep_view(),
                old(used).deep_view(),
            ),
        ),
    decreases lines@.len() - i, 0nat,
{
    let ghost ldv = lines.deep_view();
    let ghost st0 = spec_doc_state(
        nav.deep_view(),
        view_of_opt(*dropdown_title),
        dropdown.deep_view(),
        panels.deep_view(),
        used.deep_view(),
    );
    if i >= lines.len() {
        return ;
    }
    proof {
        assert(lines[i as int]@ == ldv[i as int]);
    }
    let t = trim(lines[i].as_str());
    if starts_with(t, "## ") {
        proof {
            reveal_strlit("## ");
        }
        let title = trim(t.substring_char(3, t.unicode_len())).to_owned();
        proof {
            assert(t@.subrange(3, t@.len() as int) =~= t@.skip(3));
        }
        let id = generate_unique_id(title.as_str(), used);
        let is_dd = match dd {
            Some(name) => crate::text::str_eq(name, title.as_str()),
            None => false,
        };
        if is_dd {
            *dropdown_title = Some(title);
            proof {
                assert(spec_doc_state(
                    nav.deep_view(),
                    view_of_opt(*dropdown_title),
                    dropdown.deep_view(),
                    panels.deep_view(),
                    used.deep_view(),
                ) == DocState {
                    dropdown_title: Some(spec_trim(spec_trim(ldv[i as int]).skip(3))),
                    used: st0.used.push(
                        spec_unique_id(spec_trim(spec_trim(ldv[i as int]).skip(3)), st0.used),
                    ),
                    ..st0
                });
            }
            dropdown_fold_exec(lines, i + 1, dd, nav, dropdown_title, dropdown, panels, used);
        } else {
            let j = next_h2(lines, i + 1);
            let body = join_lines(lines, i + 1, j);
            nav.push(NavItem { id: id.clone(), title: title.clone() });
            panels.push(
                ContentPanel {
                    id: id,
                    title: title,
                    markdown_content: body,
                    is_dropdown_item: false,
                },
            );
            proof {
                let titlev = spec_trim(spec_trim(ldv[i as int]).skip(3));
                let idv = spec_unique_id(titlev, st0.used);
                assert(nav.deep_view() =~= st0.nav.push(NavItemView { id: idv, title: titlev }));
                assert(panels.deep_view() =~= st0.panels.push(
                    ContentPanelView {
                        id: idv,
                        title: titlev,
                        markdown_content: spec_join_lines(ldv, i + 1, j as int),
                        is_dropdown_item: false,
                    },
                ));
            }
            doc_fold_exec(lines, j, dd, nav, dropdown_title, dropdown, panels, used);
        }
    } else {
        doc_fold_exec(lines, i + 1, dd, nav, dropdown_title, dropdown, panels, used);
    }
}

fn dropdown_fold_exec(
    lines: &Vec<String>,
    i: usize,
    dd: Option<&str>,
    nav: &mut Vec<NavItem>,
    dropdown_title: &mut Option<String>,
    dropdown: &mut Vec<NavItem>,
    panels: &mut Vec<ContentPanel>,
    used: &mut Vec<String>,
)
    requires
        i <= lines@.len(),
        lines.deep_view().len() == lines@.len(),
    ensures
        spec_doc_state(
            final(nav).deep_view(),
            view_of_opt(*final(dropdown_title)),
            final(dropdown).deep_view(),
            final(panels).deep_view(),
            final(used).deep_view(),
        ) == spec_dropdown_fold(
            lines.deep_view(),
            i as int,
            match dd {
                Some(s) => Some(s@),
                None => None,
            },
            spec_doc_state(
                old(nav).deep_view(),
                view_of_opt(*old(dropdown_title)),
                old(dropdown).deep_view(),
                old(panels).deep_view(),
                old(used).deep_view(),
            ),
        ),
    decreases lines@.len() - i, 1nat,
{
    let ghost ldv = lines.deep_view();
    let ghost st0 = spec_doc_state(
        nav.deep_view(),
        view_of_opt(*dropdown_title),
        dropdown.deep_view(),
        panels.deep_view(),
        used.deep_view(),
    );
    if i >= lines.len() {
        return ;
    }
    proof {
        assert(lines[i as int]@ == ldv[i as int]);
    }
    let t = trim(lines[i].as_str());
    if starts_with(t, "## ") {
        doc_fold_exec(lines, i, dd, nav, dropdown_title, dropdown, panels, used);
    } else if starts_with(t, "### ") {
        proof {
            reveal_strlit("### ");
        }
        let title = trim(t.substring_char(4, t.unicode_len())).to_owned();
        proof {
            assert(t@.subrange(4, t@.len() as int) =~= t@.skip(4));
        }
        let id = generate_unique_id(title.as_str(), used);
        let k = next_h2_or_h3(lines, i + 1);
        let body = join_lines(lines, i + 1, k);
        dropdown.push(NavItem { id: id.clone(), title: title.clone() });
        panels.push(
            ContentPanel {
                id: id,
                title: title,
                markdown_content: body,
                is_dropdown_item: true,
            },
        );
        proof {
            let titlev = spec_trim(spec_trim(ldv[i as int]).skip(4));
            let idv = spec_unique_id(titlev, st0.used);
            assert(dropdown.deep_view() =~= st0.dropdown.push(
                NavItemView { id: idv, title: titlev },
            ));
            assert(panels.deep_view() =~= st0.panels.push(
                ContentPanelView {
                    id: idv,
                    title: titlev,
                    markdown_content: spec_join_lines(ldv, i + 1, k as int),
                    is_dropdown_item: true,
                },
            ));
        }
        dropdown_fold_exec(lines, k, dd, nav, dropdown_title, dropdown, panels, used);
    } else {
        dropdown_fold_exec(lines, i + 1, dd, nav, dropdown_title, dropdown, panels, used);
    }
}

/// Walks the processed markdown and builds the document structure: one nav
/// button and panel per second-level heading, and, when a dropdown section
/// title is configured and matched, one dropdown item and panel per
/// third-level heading inside it. Identifiers are assigned against one
/// shared accumulator, so duplicates get numeric suffixes in order of
/// appearance.
pub fn parse_document_structure(markdown: &str, dropdown_section: Option<&str>) -> (r:
    DocumentStructure)
    ensures
        ({
            let st = spec_parse_document_structure(
                markdown@,
                match dropdown_section {
                    Some(s) => Some(s@),
                    None => None,
                },
            );
            r.nav_buttons.deep_view() == st.nav && view_of_opt(r.dropdown_title)
                == st.dropdown_title && r.dropdown_items.deep_view() == st.dropdown
                && r.panels.deep_view() == st.panels
        }),
{
    let lines = split_lines(markdown);
    let mut nav: Vec<NavItem> = Vec::new();
    let mut dropdown_title: Option<String> = None;
    let mut dropdown: Vec<NavItem> = Vec::new();
    let mut panels: Vec<ContentPanel> = Vec::new();
    let mut used: Vec<String> = Vec::new();
    proof {
        assert(nav.deep_view() =~= Seq::<NavItemView>::empty());
        assert(dropdown.deep_view() =~= Seq::<NavItemView>::empty());
        assert(panels.deep_view() =~= Seq::<ContentPanelView>::empty());
        assert(used.deep_view() =~= Seq::<Seq<char>>::empty());
    }
    doc_fold_exec(&lines, 0, dropdown_section, &mut nav, &mut dropdown_title, &mut dropdown,
        &mut panels, &mut used);
    DocumentStructure { nav_buttons: nav, dropdown_title, dropdown_items: dropdown, panels }
}

/// Every panel pairs with exactly one navigation entry: the main scan pushes
/// a panel precisely when it pushes a nav button or dropdown item, so the
/// counts always agree.
pub proof fn lemma_panels_match_items(
    lines: Seq<Seq<char>>,
    i: int,
    dd: Option<Seq<char>>,
    st: DocState,
)
    requires
        st.panels.len() == st.nav.len() + st.dropdown.len(),
    ensures
        spec_doc_fold(lines, i, dd, st).panels.len() == spec_doc_fold(lines, i, dd, st).nav.len()
            + spec_doc_fold(lines, i, dd, st).dropdown.len(),
    decreases lines.len() - i, 0nat,
{
    if 0 <= i < lines.len() {
        let t = spec_trim(lines[i]);
        if spec_h2(t) {
            let title = spec_trim(t.skip(3));
            let id = spec_unique_id(title, st.used);
            let used2 = st.used.push(id);
            if dd == Some(title) {
                let st2 = DocState { dropdown_title: Some(title), used: used2, ..st };
                lemma_panels_match_items_dropdown(lines, i + 1, dd, st2);
            } else {
                let j0 = spec_next_h2(lines, i + 1);
                let j = if j0 < i + 1 {
                    i + 1
                } else if j0 > lines.len() {
                    lines.len() as int
                } else {
                    j0
                };
                let st2 = DocState {
                    nav: st.nav.push(NavItemView { id: id, title: title }),
                    panels: st.panels.push(
                        ContentPanelView {
                            id: id,
                            title: title,
                            markdown_content: spec_join_lines(lines, i + 1, j),
                            is_dropdown_item: false,
                        },
                    ),
                    used: used2,
                    ..st
                };
                lemma_panels_match_items(lines, j, dd, st2);
            }
        } else {
            lemma_panels_match_items(lines, i + 1, dd, st);
        }
    }
}

/// The same pairing, maintained through the dropdown scan.
pub proof fn lemma_panels_match_items_dropdown(
    lines: Seq<Seq<char>>,
    i: int,
    dd: Option<Seq<char>>,
    st: DocState,
)
    requires
        st.panels.len() == st.nav.len() + st.dropdown.len(),
    ensures
        spec_dropdown_fold(lines, i, dd, st).panels.len() == spec_dropdown_fold(
            lines,
            i,
            dd,
            st,
        ).nav.len() + spec_dropdown_fold(lines, i, dd, st).dropdown.len(),
    decreases lines.len() - i, 1nat,
{
    if 0 <= i < lines.len() {
        let t = spec_trim(lines[i]);
        if spec_h2(t) {
            lemma_panels_match_items(lines, i, dd, st);
        } else if spec_h3(t) {
            let title = spec_trim(t.skip(4));
            let id = spec_unique_id(title, st.used);
            let used2 = st.used.push(id);
            let k0 = spec_next_h2_or_h3(lines, i + 1);
            let k = if k0 < i + 1 {
                i + 1
            } else if k0 > lines.len() {
                lines.len() as int
            } else {
                k0
            };
            let st2 = DocState {
                dropdown: st.dropdown.push(NavItemView { id: id, title: title }),
                panels: st.panels.push(
                    ContentPanelView {
                        id: id,
                        title: title,
                        markdown_content: spec_join_lines(lines, i + 1, k),
                        is_dropdown_item: true,
                    },
                ),
                used: used2,
                ..st
            };
            lemma_panels_match_items_dropdown(lines, k, dd, st2);
        } else {
            lemma_panels_match_items_dropdown(lines, i + 1, dd, st);
        }
    }
}

/// Some panel carries this identifier.
pub open spec fn spec_has_panel(panels: Seq<ContentPanelView>, id: Seq<char>) -> bool {
    exists|p: int| 0 <= p < panels.len() && (#[trigger] panels[p]).id == id
}

/// Every navigation entry so far has a panel carrying the same identifier.
pub open spec fn spec_items_have_panels(st: DocState) -> bool {
    &&& forall|j: int|
        0 <= j < st.nav.len() ==> spec_has_panel(st.panels, (#[trigger] st.nav[j]).id)
    &&& forall|j: int|
        0 <= j < st.dropdown.len() ==> spec_has_panel(st.panels, (#[trigger] st.dropdown[j]).id)
}

proof fn lemma_items_have_panels_push(st: DocState, st2: DocState)
    requires
        spec_items_have_panels(st),
        st.panels.len() <= st2.panels.len(),
        forall|p: int| 0 <= p < st.panels.len() ==> st2.panels[p] == (#[trigger] st.panels[p]),
        st2.nav == st.nav || (st2.nav.len() == st.nav.len() + 1 && st2.nav.take(
            st.nav.len() as int,
        ) == st.nav && spec_has_panel(st2.panels, st2.nav[st.nav.len() as int].id)),
        st2.dropdown == st.dropdown || (st2.dropdown.len() == st.dropdown.len() + 1
            && st2.dropdown.take(st.dropdown.len() as int) == st.dropdown && spec_has_panel(
            st2.panels,
            st2.dropdown[st.dropdown.len() as int].id,
        )),
    ensures
        spec_items_have_panels(st2),
{
    assert forall|j: int| 0 <= j < st2.nav.len() implies spec_has_panel(
        st2.panels,
        (#[trigger] st2.nav[j]).id,
    ) by {
        if j < st.nav.len() {
            assert(st2.nav[j] == st.nav[j]) by {
                if st2.nav != st.nav {
                    assert(st2.nav.take(st.nav.len() as int)[j] == st2.nav[j]);
                }
            }
            assert(spec_has_panel(st.panels, st.nav[j].id));
            let p = choose|p: int|
                0 <= p < st.panels.len() && (#[trigger] st.panels[p]).id == st.nav[j].id;
            assert(st2.panels[p].id == st2.nav[j].id);
        }
    }
    assert forall|j: int| 0 <= j < st2.dropdown.len() implies spec_has_panel(
        st2.panels,
        (#[trigger] st2.dropdown[j]).id,
    ) by {
        if j < st.dropdown.len() {
            assert(st2.dropdown[j] == st.dropdown[j]) by {
                if st2.dropdown != st.dropdown {
                    assert(st2.dropdown.take(st.dropdown.len() as int)[j] == st2.dropdown[j]);
                }
            }
            assert(spec_has_panel(st.panels, st.dropdown[j].id));
            let p = choose|p: int|
                0 <= p < st.panels.len() && (#[trigger] st.panels[p]).id == st.dropdown[j].id;
            assert(st2.panels[p].id == st2.dropdown[j].id);
        }
    }
}

/// Every nav button and dropdown item the main scan produces has a content
/// panel with the same identifier.
pub proof fn lemma_items_have_panels(
    lines: Seq<Seq<char>>,
    i: int,
    dd: Option<Seq<char>>,
    st: DocState,
)
    requires
        spec_items_have_panels(st),
    ensures
        spec_items_have_panels(spec_doc_fold(lines, i, dd, st)),
    decreases lines.len() - i, 0nat,
{
    if 0 <= i < lines.len() {
        let t = spec_trim(lines[i]);
        if spec_h2(t) {
            let title = spec_trim(t.skip(3));
            let id = spec_unique_id(title, st.used);
            let used2 = st.used.push(id);
            if dd == Some(title) {
                let st2 = DocState { dropdown_title: Some(title), used: used2, ..st };
                lemma_items_have_panels_push(st, st2);
                lemma_items_have_panels_dropdown(lines, i + 1, dd, st2);
            } else {
                let j0 = spec_next_h2(lines, i + 1);
                let j = if j0 < i + 1 {
                    i + 1
                } else if j0 > lines.len() {
                    lines.len() as int
                } else {
                    j0
                };
                let st2 = DocState {
                    nav: st.nav.push(NavItemView { id: id, title: title }),
                    panels: st.panels.push(
                        ContentPanelView {
                            id: id,
                            title: title,
                            markdown_content: spec_join_lines(lines, i + 1, j),
                            is_dropdown_item: false,
                        },
                    ),
                    used: used2,
                    ..st
                };
                assert(st2.nav.take(st.nav.len() as int) =~= st.nav);
                assert(st2.panels[st.panels.len() as int].id == st2.nav[st.nav.len() as int].id);
                assert(spec_has_panel(st2.panels, st2.nav[st.nav.len() as int].id));
                lemma_items_have_panels_push(st, st2);
                lemma_items_have_panels(lines, j, dd, st2);
            }
        } else {
            lemma_items_have_panels(lines, i + 1, dd, st);
        }
    }
}

/// The same pairing, maintained through the dropdown scan.
pub proof fn lemma_items_have_panels_dropdown(
    lines: Seq<Seq<char>>,
    i: int,
    dd: Option<Seq<char>>,
    st: DocState,
)
    requires
        spec_items_have_panels(st),
    ensures
        spec_items_have_panels(spec_dropdown_fold(lines, i, dd, st)),
    decreases lines.len() - i, 1nat,
{
    if 0 <= i < lines.len() {
        let t = spec_trim(lines[i]);
        if spec_h2(t) {
            lemma_items_have_panels(lines, i, dd, st);
        } else if spec_h3(t) {
            let title = spec_trim(t.skip(4));
            let id = spec_unique_id(title, st.used);
            let used2 = st.used.push(id);
            let k0 = spec_next_h2_or_h3(lines, i + 1);
            let k = if k0 < i + 1 {
                i + 1
            } else if k0 > lines.len() {
                lines.len() as int
            } else {
                k0
            };
            let st2 = DocState {
                dropdown: st.dropdown.push(NavItemView { id: id, title: title }),
                panels: st.panels.push(
                    ContentPanelView {
                        id: id,
                        title: title,
                        markdown_content: spec_join_lines(lines, i + 1, k),
                        is_dropdown_item: true,
                    },
                ),
                used: used2,
                ..st
            };
            assert(st2.dropdown.take(st.dropdown.len() as int) =~= st.dropdown);
            assert(st2.panels[st.panels.len() as int].id == st2.dropdown[
                st.dropdown.len() as int
            ].id);
            assert(spec_has_panel(st2.panels, st2.dropdown[st.dropdown.len() as int].id));
            lemma_items_have_panels_push(st, st2);
            lemma_items_have_panels_dropdown(lines, k, dd, st2);
        } else {
            lemma_items_have_panels_dropdown(lines, i + 1, dd, st);
        }
    }
}

} // verus!
