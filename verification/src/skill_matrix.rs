//! Skill-matrix recognition and rendering: a heading whose text names a
//! skill/competency topic, followed by a pipe-delimited table whose header
//! row names a skill column and a value column, becomes a styled HTML table.

use vstd::prelude::*;
use crate::text::{
    contains_sub, ends_with, heading_shape, lower_str, push_char, spec_contains_sub,
    spec_ends_with, spec_heading_level, spec_is_heading, spec_lower_seq, spec_split_char,
    spec_starts_with, spec_trim, split_char, split_lines, starts_with, trim,
};

verus! {

/// A heading whose own text (case-insensitively) names a skill-matrix topic.
pub open spec fn spec_is_skill_heading(line: Seq<char>) -> bool {
    let t = spec_trim(line);
    let txt = spec_lower_seq(spec_trim(t.skip(spec_heading_level(t) as int)));
    spec_is_heading(t) && (spec_contains_sub(txt, "skill"@) || spec_contains_sub(txt, "matrix"@)
        || spec_contains_sub(txt, "competenc"@) || spec_contains_sub(txt, "proficienc"@))
}

/// Whether the line is a heading announcing a skill matrix.
pub fn is_skill_matrix_heading(line: &str) -> (r: bool)
    ensures
        r == spec_is_skill_heading(line@),
{
    let t = trim(line);
    let (is_head, lvl) = heading_shape(t);
    if !is_head {
        return false;
    }
    proof {
        crate::text::lemma_heading_level_bounds(t@);
    }
    let rest = trim(t.substring_char(lvl, t.unicode_len()));
    let txt = lower_str(rest);
    proof {
        assert(t@.subrange(lvl as int, t@.len() as int) =~= t@.skip(lvl as int));
    }
    contains_sub(txt.as_str(), "skill") || contains_sub(txt.as_str(), "matrix") || contains_sub(
        txt.as_str(),
        "competenc",
    ) || contains_sub(txt.as_str(), "proficienc")
}

/// A (lower-cased) header cell names the column: exact match or prefix match.
pub open spec fn spec_cell_names(lower: Seq<char>, name: Seq<char>) -> bool {
    lower == name || spec_starts_with(lower, name)
}

pub open spec fn spec_is_skill_cell(lower: Seq<char>) -> bool {
    ||| spec_cell_names(lower, "skill"@)
    ||| spec_cell_names(lower, "skills"@)
    ||| spec_cell_names(lower, "name"@)
    ||| spec_cell_names(lower, "competency"@)
    ||| spec_cell_names(lower, "technology"@)
    ||| spec_cell_names(lower, "tool"@)
    ||| spec_cell_names(lower, "area"@)
    ||| spec_cell_names(lower, "topic"@)
    ||| spec_cell_names(lower, "category"@)
    ||| spec_cell_names(lower, "item"@)
}

pub open spec fn spec_is_value_cell(lower: Seq<char>) -> bool {
    ||| spec_cell_names(lower, "level"@)
    ||| spec_cell_names(lower, "rating"@)
    ||| spec_cell_names(lower, "score"@)
    ||| spec_cell_names(lower, "value"@)
    ||| spec_cell_names(lower, "proficiency"@)
    ||| spec_cell_names(lower, "experience"@)
    ||| spec_cell_names(lower, "expertise"@)
    ||| spec_cell_names(lower, "grade"@)
    ||| spec_cell_names(lower, "rank"@)
}

pub open spec fn spec_is_notes_cell(lower: Seq<char>) -> bool {
    ||| spec_cell_names(lower, "note"@)
    ||| spec_cell_names(lower, "notes"@)
    ||| spec_cell_names(lower, "description"@)
    ||| spec_cell_names(lower, "comment"@)
    ||| spec_cell_names(lower, "details"@)
    ||| spec_cell_names(lower, "info"@)
}

fn cell_names(lower: &str, name: &str) -> (r: bool)
    ensures
        r == spec_cell_names(lower@, name@),
{
    crate::text::str_eq(lower, name) || starts_with(lower, name)
}

fn is_skill_cell(lower: &str) -> (r: bool)
    ensures
        r == spec_is_skill_cell(lower@),
{
    cell_names(lower, "skill") || cell_names(lower, "skills") || cell_names(lower, "name")
        || cell_names(lower, "competency") || cell_names(lower, "technology") || cell_names(
        lower,
        "tool",
    ) || cell_names(lower, "area") || cell_names(lower, "topic") || cell_names(lower, "category")
        || cell_names(lower, "item")
}

fn is_value_cell(lower: &str) -> (r: bool)
    ensures
        r == spec_is_value_cell(lower@),
{
    cell_names(lower, "level") || cell_names(lower, "rating") || cell_names(lower, "score")
        || cell_names(lower, "value") || cell_names(lower, "proficiency") || cell_names(
        lower,
        "experience",
    ) || cell_names(lower, "expertise") || cell_names(lower, "grade") || cell_names(lower, "rank")
}

fn is_notes_cell(lower: &str) -> (r: bool)
    ensures
        r == spec_is_notes_cell(lower@),
{
    cell_names(lower, "note") || cell_names(lower, "notes") || cell_names(lower, "description")
        || cell_names(lower, "comment") || cell_names(lower, "details") || cell_names(
        lower,
        "info",
    )
}

/// Detected column indices for a recognized table, with the original header
/// text of each.
pub struct TableColumns {
    pub skill_idx: usize,
    pub value_idx: usize,
    pub notes_idx: Option<usize>,
    pub skill_header: String,
    pub value_header: String,
    pub notes_header: Option<String>,
}

pub struct TableColumnsView {
    pub skill_idx: int,
    pub value_idx: int,
    pub notes_idx: Option<int>,
    pub skill_header: Seq<char>,
    pub value_header: Seq<char>,
    pub notes_header: Option<Seq<char>>,
}

impl View for TableColumns {
    type V = TableColumnsView;

    open spec fn view(&self) -> TableColumnsView {
        TableColumnsView {
            skill_idx: self.skill_idx as int,
            value_idx: self.value_idx as int,
            notes_idx: match self.notes_idx {
                Option::Some(i) => Option::Some(i as int),
                Option::None => Option::None,
            },
            skill_header: self.skill_header@,
            value_header: self.value_header@,
            notes_header: match self.notes_header {
                Option::Some(ref h) => Option::Some(h@),
                Option::None => Option::None,
            },
        }
    }
}

/// The header row's cells: split at '|' and trimmed.
pub open spec fn spec_row_cells(row: Seq<char>) -> Seq<Seq<char>> {
    spec_split_char(row, '|').map_values(|c: Seq<char>| spec_trim(c))
}

/// Column detection state: the first skill-, value- and notes-named cells
/// seen so far, each with its index and original text.
pub open spec fn spec_detect_fold(
    cells: Seq<Seq<char>>,
    i: int,
    sk: Option<(int, Seq<char>)>,
    va: Option<(int, Seq<char>)>,
    no: Option<(int, Seq<char>)>,
) -> (Option<(int, Seq<char>)>, Option<(int, Seq<char>)>, Option<(int, Seq<char>)>)
    decreases cells.len() - i,
{
    if i < 0 || i >= cells.len() {
        (sk, va, no)
    } else {
        let lower = spec_lower_seq(cells[i]);
        if sk is None && spec_is_skill_cell(lower) {
            spec_detect_fold(cells, i + 1, Some((i, cells[i])), va, no)
        } else if va is None && spec_is_value_cell(lower) {
            spec_detect_fold(cells, i + 1, sk, Some((i, cells[i])), no)
        } else if no is None && spec_is_notes_cell(lower) {
            spec_detect_fold(cells, i + 1, sk, va, Some((i, cells[i])))
        } else {
            spec_detect_fold(cells, i + 1, sk, va, no)
        }
    }
}

/// The columns detected from a header row: the first skill-named and first
/// value-named cells are both required, a notes cell is optional.
pub open spec fn spec_detect_columns(header: Seq<char>) -> Option<TableColumnsView> {
    let r = spec_detect_fold(spec_row_cells(header), 0, None, None, None);
    match (r.0, r.1) {
        (Some(sk), Some(va)) => Some(
            TableColumnsView {
                skill_idx: sk.0,
                value_idx: va.0,
                notes_idx: match r.2 {
                    Some(no) => Some(no.0),
                    None => None,
                },
                skill_header: sk.1,
                value_header: va.1,
                notes_header: match r.2 {
                    Some(no) => Some(no.1),
                    None => None,
                },
            },
        ),
        _ => None,
    }
}

/// Splits a header row at '|' and finds the skill, value and optional notes
/// columns; `None` when either required column is missing.
pub fn detect_columns(header_row: &str) -> (r: Option<TableColumns>)
    ensures
        match r {
            Some(c) => spec_detect_columns(header_row@) == Some(c@),
            None => spec_detect_columns(header_row@) is None,
        },
{
    let raw = split_char(header_row, '|');
    let mut cells: Vec<String> = Vec::new();
    let mut k: usize = 0;
    proof {
        assert(cells.deep_view() =~= raw.deep_view().map_values(
            |c: Seq<char>| spec_trim(c),
        ).take(0));
    }
    while k < raw.len()
        invariant
            0 <= k <= raw.len(),
            raw.deep_view().len() == raw@.len(),
            cells.deep_view() == raw.deep_view().map_values(|c: Seq<char>| spec_trim(c)).take(
                k as int,
            ),
        decreases raw.len() - k,
    {
        let ghost pre = cells.deep_view();
        let t = trim(raw[k].as_str()).to_owned();
        proof {
            assert(raw[k as int]@ == raw.deep_view()[k as int]);
            assert(t@ == raw.deep_view().map_values(|c: Seq<char>| spec_trim(c))[k as int]);
        }
        cells.push(t);
        proof {
            let mapped = raw.deep_view().map_values(|c: Seq<char>| spec_trim(c));
            assert(cells.deep_view() =~= pre.push(mapped[k as int]));
            assert(pre.push(mapped[k as int]) =~= mapped.take(k + 1));
        }
        k += 1;
    }
    let ghost cdv = raw.deep_view().map_values(|c: Seq<char>| spec_trim(c));
    proof {
        assert(cells.deep_view() =~= cdv);
        assert(cdv == spec_row_cells(header_row@));
    }
    let mut sk_idx: Option<usize> = None;
    let mut va_idx: Option<usize> = None;
    let mut no_idx: Option<usize> = None;
    let mut sk_hdr = String::new();
    let mut va_hdr = String::new();
    let mut no_hdr = String::new();
    let mut i: usize = 0;
    while i < cells.len()
        invariant
            0 <= i <= cells.len(),
            cdv == cells.deep_view(),
            cdv.len() == cells@.len(),
            spec_detect_fold(cdv, 0, None, None, None) == spec_detect_fold(
                cdv,
                i as int,
                match sk_idx {
                    Some(x) => Some((x as int, sk_hdr@)),
                    None => None,
                },
                match va_idx {
                    Some(x) => Some((x as int, va_hdr@)),
                    None => None,
                },
                match no_idx {
                    Some(x) => Some((x as int, no_hdr@)),
                    None => None,
                },
            ),
        decreases cells.len() - i,
    {
        let lower = lower_str(cells[i].as_str());
        if sk_idx.is_none() && is_skill_cell(lower.as_str()) {
            sk_idx = Some(i);
            sk_hdr = cells[i].clone();
        } else if va_idx.is_none() && is_value_cell(lower.as_str()) {
            va_idx = Some(i);
            va_hdr = cells[i].clone();
        } else if no_idx.is_none() && is_notes_cell(lower.as_str()) {
            no_idx = Some(i);
            no_hdr = cells[i].clone();
        }
        i += 1;
    }
    match (sk_idx, va_idx) {
        (Some(s), Some(v)) => Some(
            TableColumns {
                skill_idx: s,
                value_idx: v,
                notes_idx: no_idx,
                skill_header: sk_hdr,
                value_header: va_hdr,
                notes_header: match no_idx {
                    Some(_) => Some(no_hdr),
                    None => None,
                },
            },
        ),
        _ => None,
    }
}

/// Every leading repetition of `p` removed.
pub open spec fn spec_strip_prefix_all(s: Seq<char>, p: Seq<char>) -> Seq<char>
    decreases s.len(),
{
    if p.len() > 0 && spec_starts_with(s, p) {
        spec_strip_prefix_all(s.skip(p.len() as int), p)
    } else {
        s
    }
}

/// Every trailing repetition of `p` removed.
pub open spec fn spec_strip_suffix_all(s: Seq<char>, p: Seq<char>) -> Seq<char>
    decreases s.len(),
{
    if p.len() > 0 && spec_ends_with(s, p) {
        spec_strip_suffix_all(s.take(s.len() - p.len()), p)
    } else {
        s
    }
}

fn strip_prefix_all(s: &str, p: &str) -> (r: String)
    requires
        p@.len() > 0,
    ensures
        r@ == spec_strip_prefix_all(s@, p@),
    decreases s@.len(),
{
    let n = s.unicode_len();
    let pn = p.unicode_len();
    if starts_with(s, p) {
        strip_prefix_all(s.substring_char(pn, n), p)
    } else {
        s.to_owned()
    }
}

fn strip_suffix_all(s: &str, p: &str) -> (r: String)
    requires
        p@.len() > 0,
    ensures
        r@ == spec_strip_suffix_all(s@, p@),
    decreases s@.len(),
{
    let n = s.unicode_len();
    let pn = p.unicode_len();
    if ends_with(s, p) {
        strip_suffix_all(s.substring_char(0, n - pn), p)
    } else {
        s.to_owned()
    }
}

/// The bold markers around a category cell removed, as repeated `**` markers
/// are stripped from either end.
pub open spec fn spec_strip_bold(s: Seq<char>) -> Seq<char> {
    spec_strip_suffix_all(spec_strip_prefix_all(s, "**"@), "**"@)
}

/// A note beginning with "wip" (any case) rewritten to a styled WIP marker,
/// with a leading " -" separator and whitespace dropped from the remainder.
pub open spec fn spec_style_notes(notes: Seq<char>) -> Seq<char> {
    if spec_starts_with(spec_lower_seq(notes), "wip"@) {
        "<span class=\"wip-marker\">WIP</span>"@ + crate::text::spec_trim_start(
            spec_strip_prefix_all(notes.skip(3), " -"@),
        )
    } else {
        notes
    }
}

/// Styles a table note, marking a work-in-progress entry.
pub fn style_notes(notes: &str) -> (r: String)
    ensures
        r@ == spec_style_notes(notes@),
{
    let n = notes.unicode_len();
    let lower = lower_str(notes);
    if starts_with(lower.as_str(), "wip") {
        proof {
            reveal_strlit("wip");
            reveal_strlit(" -");
        }
        let rest = strip_prefix_all(notes.substring_char(3, n), " -");
        let trimmed = crate::text::trim_start(rest.as_str());
        let mut out = String::new();
        out.append("<span class=\"wip-marker\">WIP</span>");
        out.append(trimmed);
        proof {
            assert(notes@.subrange(3, n as int) =~= notes@.skip(3));
        }
        out
    } else {
        notes.to_owned()
    }
}

/// The cell at a column index; empty when the row is too short.
pub open spec fn spec_cell_at(cells: Seq<Seq<char>>, idx: int) -> Seq<char> {
    if 0 <= idx < cells.len() {
        cells[idx]
    } else {
        Seq::<char>::empty()
    }
}

fn row_cells(row: &str) -> (r: Vec<String>)
    ensures
        r.deep_view() == spec_row_cells(row@),
{
    let raw = split_char(row, '|');
    let mut cells: Vec<String> = Vec::new();
    let mut k: usize = 0;
    proof {
        assert(cells.deep_view() =~= raw.deep_view().map_values(
            |c: Seq<char>| spec_trim(c),
        ).take(0));
    }
    while k < raw.len()
        invariant
            0 <= k <= raw.len(),
            raw.deep_view().len() == raw@.len(),
            cells.deep_view() == raw.deep_view().map_values(|c: Seq<char>| spec_trim(c)).take(
                k as int,
            ),
        decreases raw.len() - k,
    {
        let ghost pre = cells.deep_view();
        let t = trim(raw[k].as_str()).to_owned();
        proof {
            assert(raw[k as int]@ == raw.deep_view()[k as int]);
            assert(t@ == raw.deep_view().map_values(|c: Seq<char>| spec_trim(c))[k as int]);
        }
        cells.push(t);
        proof {
            let mapped = raw.deep_view().map_values(|c: Seq<char>| spec_trim(c));
            assert(cells.deep_view() =~= pre.push(mapped[k as int]));
            assert(pre.push(mapped[k as int]) =~= mapped.take(k + 1));
        }
        k += 1;
    }
    proof {
        assert(cells.deep_view() =~= raw.deep_view().map_values(|c: Seq<char>| spec_trim(c)));
    }
    cells
}

fn cell_at<'a>(cells: &'a Vec<String>, idx: usize) -> (r: &'a str)
    ensures
        r@ == spec_cell_at(cells.deep_view(), idx as int),
{
    if idx < cells.len() {
        proof {
            assert(cells[idx as int]@ == cells.deep_view()[idx as int]);
        }
        cells[idx].as_str()
    } else {
        proof {
            reveal_strlit("");
            assert(""@ =~= Seq::<char>::empty());
        }
        ""
    }
}

/// One data row rendered: a bold skill cell with an empty value becomes a
/// category row spanning the table; a row with an empty skill cell is
/// dropped; anything else becomes a skill/value(/notes) row whose value cell
/// carries a `level-<value>` class.
pub open spec fn spec_render_row(line: Seq<char>, cols: TableColumnsView) -> Seq<char> {
    let cells = spec_row_cells(line);
    let skill = spec_cell_at(cells, cols.skill_idx);
    let value = spec_cell_at(cells, cols.value_idx);
    let notes = match cols.notes_idx {
        Some(x) => spec_cell_at(cells, x),
        None => Seq::<char>::empty(),
    };
    if spec_starts_with(skill, "**"@) && spec_ends_with(skill, "**"@) && value.len() == 0 {
        "<tr class=\"category-row\"><td colspan=\""@ + (if cols.notes_idx is Some {
            "3"@
        } else {
            "2"@
        }) + "\"><strong>"@ + spec_strip_bold(skill) + "</strong></td></tr>\n"@
    } else if skill.len() > 0 {
        "<tr><td>"@ + skill + "</td><td class=\"level-"@ + value + "\">"@ + value + "</td>"@ + (
        if cols.notes_idx is Some {
            "<td>"@ + spec_style_notes(notes) + "</td>"@
        } else {
            Seq::<char>::empty()
        }) + "</tr>\n"@
    } else {
        Seq::<char>::empty()
    }
}

pub open spec fn spec_render_rows(lines: Seq<Seq<char>>, i: int, cols: TableColumnsView) -> Seq<
    char,
>
    decreases lines.len() - i,
{
    if i < 0 || i >= lines.len() {
        Seq::<char>::empty()
    } else {
        spec_render_row(lines[i], cols) + spec_render_rows(lines, i + 1, cols)
    }
}

/// A candidate table rendered as HTML: it needs at least a header, a
/// separator and one data row, and a header naming a skill and a value
/// column; otherwise it is not a skill matrix.
pub open spec fn spec_render_table(lines: Seq<Seq<char>>) -> Option<Seq<char>> {
    if lines.len() < 3 {
        None
    } else {
        match spec_detect_columns(lines[0]) {
            None => None,
            Some(cols) => Some(
                "<table class=\"skill-matrix\">\n<thead><tr>"@ + "<th>"@ + cols.skill_header
                    + "</th>"@ + "<th>"@ + cols.value_header + "</th>"@ + (
                match cols.notes_header {
                    Some(h) => "<th>"@ + h + "</th>"@,
                    None => Seq::<char>::empty(),
                }) + "</tr></thead>\n<tbody>\n"@ + spec_render_rows(lines, 2, cols)
                    + "</tbody>\n</table>"@,
            ),
        }
    }
}

/// Renders a run of pipe-delimited lines as a skill-matrix table, or `None`
/// when the run is not recognized as one.
#[verifier::rlimit(60)]
pub fn render_skill_matrix_table(table_lines: &Vec<String>) -> (r: Option<String>)
    ensures
        match r {
            Some(h) => spec_render_table(table_lines.deep_view()) == Some(h@),
            None => spec_render_table(table_lines.deep_view()) is None,
        },
{
    let ghost ldv = table_lines.deep_view();
    if table_lines.len() < 3 {
        return None;
    }
    proof {
        assert(table_lines[0]@ == ldv[0]);
    }
    let cols = match detect_columns(table_lines[0].as_str()) {
        None => {
            return None;
        },
        Some(c) => c,
    };
    let ghost colsv = cols@;
    let mut out = String::new();
    out.append("<table class=\"skill-matrix\">\n<thead><tr>");
    out.append("<th>");
    out.append(cols.skill_header.as_str());
    out.append("</th>");
    out.append("<th>");
    out.append(cols.value_header.as_str());
    out.append("</th>");
    match cols.notes_header {
        Some(ref h) => {
            out.append("<th>");
            out.append(h.as_str());
            out.append("</th>");
        },
        None => {},
    }
    out.append("</tr></thead>\n<tbody>\n");
    let ghost header_part = out@;
    let mut i: usize = 2;
    while i < table_lines.len()
        invariant
            2 <= i <= table_lines.len(),
            ldv == table_lines.deep_view(),
            ldv.len() == table_lines@.len(),
            colsv == cols@,
            out@ + spec_render_rows(ldv, i as int, colsv) == header_part + spec_render_rows(
                ldv,
                2,
                colsv,
            ),
        decreases table_lines.len() - i,
    {
        let ghost pre = out@;
        proof {
            assert(table_lines[i as int]@ == ldv[i as int]);
        }
        let cells = row_cells(table_lines[i].as_str());
        let skill = cell_at(&cells, cols.skill_idx);
        let value = cell_at(&cells, cols.value_idx);
        if starts_with(skill, "**") && ends_with(skill, "**") && value.unicode_len() == 0 {
            out.append("<tr class=\"category-row\"><td colspan=\"");
            match cols.notes_idx {
                Some(_) => out.append("3"),
                None => out.append("2"),
            }
            out.append("\"><strong>");
            proof {
                reveal_strlit("**");
            }
            let pref = strip_prefix_all(skill, "**");
            let stripped = strip_suffix_all(pref.as_str(), "**");
            out.append(stripped.as_str());
            out.append("</strong></td></tr>\n");
            proof {
                assert(out@ =~= pre + spec_render_row(ldv[i as int], colsv));
            }
        } else if skill.unicode_len() > 0 {
            out.append("<tr><td>");
            out.append(skill);
            out.append("</td><td class=\"level-");
            out.append(value);
            out.append("\">");
            out.append(value);
            out.append("</td>");
            match cols.notes_idx {
                Some(nx) => {
                    let notes = cell_at(&cells, nx);
                    let styled = style_notes(notes);
                    out.append("<td>");
                    out.append(styled.as_str());
                    out.append("</td>");
                },
                None => {},
            }
            out.append("</tr>\n");
            proof {
                assert(out@ =~= pre + spec_render_row(ldv[i as int], colsv));
            }
        } else {
            proof {
                assert(out@ =~= pre + spec_render_row(ldv[i as int], colsv));
            }
        }
        proof {
            assert(pre + spec_render_row(ldv[i as int], colsv) + spec_render_rows(ldv, i + 1,
                colsv) =~= pre + (spec_render_row(ldv[i as int], colsv) + spec_render_rows(ldv,
                i + 1, colsv)));
        }
        i += 1;
    }
    out.append("</tbody>\n</table>");
    proof {
        assert(spec_render_rows(ldv, table_lines@.len() as int, colsv)
            =~= Seq::<char>::empty());
        assert(header_part + spec_render_rows(ldv, 2, colsv) + Seq::<char>::empty()
            =~= header_part + spec_render_rows(ldv, 2, colsv));
        assert(out@ =~= header_part + spec_render_rows(ldv, 2, colsv) + "</tbody>\n</table>"@);
    }
    Some(out)
}

/// A line whose trimmed text starts the pipe-delimited table syntax.
pub open spec fn spec_is_pipe_line(line: Seq<char>) -> bool {
    let t = spec_trim(line);
    t.len() > 0 && t[0] == '|'
}

/// The first pipe line at or after `i`, or the line count when there is none.
pub open spec fn spec_scan_to_pipe(lines: Seq<Seq<char>>, i: int) -> int
    decreases lines.len() - i,
{
    if i < 0 || i >= lines.len() {
        lines.len() as int
    } else if spec_is_pipe_line(lines[i]) {
        i
    } else {
        spec_scan_to_pipe(lines, i + 1)
    }
}

/// The contiguous run of trimmed pipe lines from `i`, blank lines inside it
/// skipped, together with the index of the line that ended the run.
pub open spec fn spec_collect_table(lines: Seq<Seq<char>>, i: int) -> (Seq<Seq<char>>, int)
    decreases lines.len() - i,
{
    if i < 0 || i >= lines.len() {
        (Seq::<Seq<char>>::empty(), i)
    } else {
        let t = spec_trim(lines[i]);
        if t.len() > 0 && t[0] == '|' {
            let r = spec_collect_table(lines, i + 1);
            (seq![t] + r.0, r.1)
        } else if t.len() == 0 {
            spec_collect_table(lines, i + 1)
        } else {
            (Seq::<Seq<char>>::empty(), i)
        }
    }
}

/// The lines of `[a, b)`, each closed with a newline.
pub open spec fn spec_lines_range(lines: Seq<Seq<char>>, a: int, b: int) -> Seq<char>
    decreases b - a,
{
    if a < 0 || a >= b || a >= lines.len() {
        Seq::<char>::empty()
    } else {
        lines[a] + seq!['\n'] + spec_lines_range(lines, a + 1, b)
    }
}

/// The document from line `i` on with every recognized skill-matrix block
/// replaced by its rendered table in a container; an unrecognized candidate
/// block stays as it is.
pub open spec fn spec_skill_fold(lines: Seq<Seq<char>>, i: int) -> Seq<char>
    decreases lines.len() - i,
{
    if i < 0 || i >= lines.len() {
        Seq::<char>::empty()
    } else if spec_is_skill_heading(lines[i]) {
        let ts0 = spec_scan_to_pipe(lines, i + 1);
        let ts = if ts0 < i + 1 {
            i + 1
        } else {
            ts0
        };
        let c = spec_collect_table(lines, ts);
        let j0 = if c.1 < ts {
            ts
        } else {
            c.1
        };
        let j = if j0 > lines.len() {
            lines.len() as int
        } else {
            j0
        };
        match spec_render_table(c.0) {
            Some(html) => lines[i] + seq!['\n'] + spec_lines_range(lines, i + 1, ts)
                + "<div class=\"skill-matrix-container\">\n"@ + html + "\n</div>\n\n"@
                + spec_skill_fold(lines, j),
            None => lines[i] + seq!['\n'] + spec_skill_fold(lines, i + 1),
        }
    } else {
        lines[i] + seq!['\n'] + spec_skill_fold(lines, i + 1)
    }
}

/// The whole document passed through skill-matrix replacement.
pub open spec fn spec_transform_skill_matrices(s: Seq<char>) -> Seq<char> {
    spec_skill_fold(crate::text::spec_lines(s), 0)
}

fn is_pipe_line(line: &str) -> (r: bool)
    ensures
        r == spec_is_pipe_line(line@),
{
    let t = trim(line);
    t.unicode_len() > 0 && t.get_char(0) == '|'
}

fn scan_to_pipe(lines: &Vec<String>, i: usize) -> (r: usize)
    requires
        i <= lines@.len(),
        lines.deep_view().len() == lines@.len(),
    ensures
        r == spec_scan_to_pipe(lines.deep_view(), i as int),
        i <= r <= lines@.len(),
{
    let ghost ldv = lines.deep_view();
    let mut k: usize = i;
    while k < lines.len()
        invariant
            i <= k <= lines@.len(),
            ldv == lines.deep_view(),
            ldv.len() == lines@.len(),
            spec_scan_to_pipe(ldv, i as int) == spec_scan_to_pipe(ldv, k as int),
        decreases lines@.len() - k,
    {
        proof {
            assert(lines[k as int]@ == ldv[k as int]);
        }
        if is_pipe_line(lines[k].as_str()) {
            return k;
        }
        k += 1;
    }
    k
}

fn collect_table(lines: &Vec<String>, i: usize) -> (r: (Vec<String>, usize))
    requires
        i <= lines@.len(),
        lines.deep_view().len() == lines@.len(),
    ensures
        (r.0.deep_view(), r.1 as int) == spec_collect_table(lines.deep_view(), i as int),
        i <= r.1 <= lines@.len(),
{
    let ghost ldv = lines.deep_view();
    let mut tbl: Vec<String> = Vec::new();
    let mut k: usize = i;
    proof {
        assert(tbl.deep_view() =~= Seq::<Seq<char>>::empty());
    }
    while k < lines.len()
        invariant
            i <= k <= lines@.len(),
            ldv == lines.deep_view(),
            ldv.len() == lines@.len(),
            spec_collect_table(ldv, i as int) == (
                tbl.deep_view() + spec_collect_table(ldv, k as int).0,
                spec_collect_table(ldv, k as int).1,
            ),
        decreases lines@.len() - k,
    {
        let ghost pre = tbl.deep_view();
        proof {
            assert(lines[k as int]@ == ldv[k as int]);
        }
        let t = trim(lines[k].as_str());
        if t.unicode_len() > 0 && t.get_char(0) == '|' {
            tbl.push(t.to_owned());
            proof {
                assert(tbl.deep_view() =~= pre.push(spec_trim(ldv[k as int])));
                assert(pre.push(spec_trim(ldv[k as int])) + spec_collect_table(ldv, k + 1).0
                    =~= pre + (seq![spec_trim(ldv[k as int])] + spec_collect_table(
                    ldv,
                    k + 1,
                ).0));
            }
        } else if t.unicode_len() == 0 {
        } else {
            proof {
                assert(pre + Seq::<Seq<char>>::empty() =~= pre);
            }
            return (tbl, k);
        }
        k += 1;
    }
    proof {
        assert(tbl.deep_view() + Seq::<Seq<char>>::empty() =~= tbl.deep_view());
    }
    (tbl, k)
}

/// Scans the document for skill-matrix headings and replaces each recognized
/// heading-plus-table block with the rendered HTML table in a container
/// `<div>`; an unrecognized candidate block passes through unchanged.
pub fn transform_skill_matrices(content: &str) -> (r: String)
    ensures
        r@ == spec_transform_skill_matrices(content@),
{
    let lines = split_lines(content);
    let ghost ldv = lines.deep_view();
    let mut out = String::new();
    let mut i: usize = 0;
    proof {
        assert(out@ + spec_skill_fold(ldv, 0) =~= spec_skill_fold(ldv, 0));
    }
    while i < lines.len()
        invariant
            0 <= i <= lines.len(),
            ldv == lines.deep_view(),
            ldv.len() == lines@.len(),
            out@ + spec_skill_fold(ldv, i as int) == spec_skill_fold(ldv, 0),
        decreases lines.len() - i,
    {
        let ghost pre = out@;
        proof {
            assert(lines[i as int]@ == ldv[i as int]);
        }
        if is_skill_matrix_heading(lines[i].as_str()) {
            let ts = scan_to_pipe(&lines, i + 1);
            let (tbl, j) = collect_table(&lines, ts);
            match render_skill_matrix_table(&tbl) {
                Some(html) => {
                    out.append(lines[i].as_str());
                    crate::text::push_char(&mut out, '\n');
                    let ghost mid0 = out@;
                    let mut k: usize = i + 1;
                    proof {
                        assert(mid0 + spec_lines_range(ldv, (i + 1) as int, ts as int)
                            == mid0 + spec_lines_range(ldv, k as int, ts as int));
                    }
                    while k < ts
                        invariant
                            i + 1 <= k <= ts <= lines@.len(),
                            ldv == lines.deep_view(),
                            ldv.len() == lines@.len(),
                            out@ + spec_lines_range(ldv, k as int, ts as int) == mid0
                                + spec_lines_range(ldv, (i + 1) as int, ts as int),
                        decreases ts - k,
                    {
                        let ghost p2 = out@;
                        proof {
                            assert(lines[k as int]@ == ldv[k as int]);
                        }
                        out.append(lines[k].as_str());
                        crate::text::push_char(&mut out, '\n');
                        proof {
                            assert(p2 + (ldv[k as int] + seq!['\n']) + spec_lines_range(ldv,
                                k + 1, ts as int) =~= p2 + (ldv[k as int] + seq!['\n']
                                + spec_lines_range(ldv, k + 1, ts as int)));
                            assert(out@ =~= p2 + (ldv[k as int] + seq!['\n']));
                        }
                        k += 1;
                    }
                    proof {
                        assert(spec_lines_range(ldv, ts as int, ts as int)
                            =~= Seq::<char>::empty());
                        assert(out@ + Seq::<char>::empty() =~= out@);
                    }
                    out.append("<div class=\"skill-matrix-container\">\n");
                    out.append(html.as_str());
                    out.append("\n</div>\n\n");
                    proof {
                        assert(out@ =~= pre + (ldv[i as int] + seq!['\n'] + spec_lines_range(
                            ldv, (i + 1) as int, ts as int)
                            + "<div class=\"skill-matrix-container\">\n"@ + html@
                            + "\n</div>\n\n"@));
                        assert(pre + (ldv[i as int] + seq!['\n'] + spec_lines_range(ldv, (i
                            + 1) as int, ts as int) + "<div class=\"skill-matrix-container\">\n"@
                            + html@ + "\n</div>\n\n"@) + spec_skill_fold(ldv, j as int) =~= pre
                            + (ldv[i as int] + seq!['\n'] + spec_lines_range(ldv, (i + 1) as int,
                            ts as int) + "<div class=\"skill-matrix-container\">\n"@ + html@
                            + "\n</div>\n\n"@ + spec_skill_fold(ldv, j as int)));
                    }
                    i = j;
                },
                None => {
                    out.append(lines[i].as_str());
                    crate::text::push_char(&mut out, '\n');
                    proof {
                        assert(out@ =~= pre + (ldv[i as int] + seq!['\n']));
                        assert(pre + (ldv[i as int] + seq!['\n']) + spec_skill_fold(ldv, i + 1)
                            =~= pre + (ldv[i as int] + seq!['\n'] + spec_skill_fold(
                            ldv,
                            i + 1,
                        )));
                    }
                    i += 1;
                },
            }
        } else {
            out.append(lines[i].as_str());
            crate::text::push_char(&mut out, '\n');
            proof {
                assert(out@ =~= pre + (ldv[i as int] + seq!['\n']));
                assert(pre + (ldv[i as int] + seq!['\n']) + spec_skill_fold(ldv, i + 1) =~= pre
                    + (ldv[i as int] + seq!['\n'] + spec_skill_fold(ldv, i + 1)));
            }
            i += 1;
        }
    }
    out
}

} // verus!
