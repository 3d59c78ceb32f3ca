//! Line-local markdown transforms: achievement markers, dynamic token
//! substitution, and the call into the markdown-to-HTML engine.

use vstd::prelude::*;
use crate::text::{
    find_from, push_char, spec_find_from, spec_trim_start, split_lines, trim_start,
};

verus! {

/// A single line with its first achievement marker, if any, turned into a
/// styled span: text before the marker kept, the marker text (leading
/// whitespace dropped) wrapped, and the line unchanged when the marker has an
/// empty body or there is no marker.
pub open spec fn spec_marker_line(line: Seq<char>) -> Seq<char> {
    match spec_find_from(line, "<!"@, 0) {
        Option::None => line,
        Option::Some(p) => {
            let body = spec_trim_start(line.skip(p + 2));
            if body.len() == 0 {
                line
            } else {
                line.take(p) + "<span class=\"achievement-marker\">"@ + body + "</span>"@
            }
        },
    }
}

pub open spec fn spec_markers_fold(lines: Seq<Seq<char>>, i: int) -> Seq<char>
    decreases lines.len() - i,
{
    if i < 0 || i >= lines.len() {
        Seq::<char>::empty()
    } else {
        spec_marker_line(lines[i]) + seq!['\n'] + spec_markers_fold(lines, i + 1)
    }
}

/// Every line of the document passed through `spec_marker_line`, each
/// terminated by a newline.
pub open spec fn spec_transform_achievement_markers(s: Seq<char>) -> Seq<char> {
    spec_markers_fold(crate::text::spec_lines(s), 0)
}

/// Rewrites the first `<!` marker of each line into an achievement span.
pub fn transform_achievement_markers(markdown: &str) -> (r: String)
    ensures
        r@ == spec_transform_achievement_markers(markdown@),
{
    let lines = split_lines(markdown);
    let ghost ldv = lines.deep_view();
    let mut out = String::new();
    let mut i: usize = 0;
    proof {
        assert(out@ + spec_markers_fold(ldv, 0) =~= spec_markers_fold(ldv, 0));
    }
    while i < lines.len()
        invariant
            0 <= i <= lines.len(),
            ldv == lines.deep_view(),
            ldv.len() == lines@.len(),
            out@ + spec_markers_fold(ldv, i as int) == spec_markers_fold(ldv, 0),
        decreases lines.len() - i,
    {
        let ghost pre = out@;
        let line = &lines[i];
        proof {
            assert(line@ == ldv[i as int]);
        }
        let n = line.as_str().unicode_len();
        match find_from(line.as_str(), "<!", 0) {
            Some(p) => {
                proof {
                    reveal_strlit("<!");
                    crate::text::lemma_find_from_some(line@, "<!"@, 0, p as int);
                    assert(p + 2 <= n);
                }
                let body = trim_start(line.as_str().substring_char(p + 2, n));
                proof {
                    assert(line@.subrange(p + 2, n as int) =~= line@.skip(p + 2));
                }
                if body.unicode_len() > 0 {
                    let before = line.as_str().substring_char(0, p);
                    out.append(before);
                    out.append("<span class=\"achievement-marker\">");
                    out.append(body);
                    out.append("</span>");
                    proof {
                        assert(line@.subrange(0, p as int) =~= line@.take(p as int));
                        assert(out@ =~= pre + spec_marker_line(line@));
                    }
                } else {
                    out.append(line.as_str());
                    proof {
                        assert(out@ =~= pre + spec_marker_line(line@));
                    }
                }
            },
            None => {
                out.append(line.as_str());
                proof {
                    assert(out@ =~= pre + spec_marker_line(line@));
                }
            },
        }
        push_char(&mut out, '\n');
        proof {
            assert(out@ =~= pre + (spec_marker_line(line@) + seq!['\n']));
            assert(pre + (spec_marker_line(ldv[i as int]) + seq!['\n']) + spec_markers_fold(
                ldv,
                i + 1,
            ) =~= pre + (spec_marker_line(ldv[i as int]) + seq!['\n'] + spec_markers_fold(
                ldv,
                i + 1,
            )));
        }
        i += 1;
    }
    out
}

/// The strings a clock read renders to: month-and-year, ISO date, and year.
/// A caller reads the clock and hands these in, so the substitution itself
/// is a function of plain values.
pub struct TimeStrings {
    pub month_year: String,
    pub iso_date: String,
    pub year: String,
}

/// First-match lookup of `key`, with `missing` when no entry has it.
pub open spec fn spec_lookup(
    entries: Seq<(Seq<char>, Seq<char>)>,
    key: Seq<char>,
    missing: Seq<char>,
) -> Seq<char>
    decreases entries.len(),
{
    if entries.len() == 0 {
        missing
    } else if entries[0].0 == key {
        entries[0].1
    } else {
        spec_lookup(entries.skip(1), key, missing)
    }
}

fn lookup_date<'a>(entries: &'a Vec<(String, String)>, key: &str, missing: &'a str) -> (r:
    &'a str)
    ensures
        r@ == spec_lookup(entries.deep_view(), key@, missing@),
{
    let ghost dv = entries.deep_view();
    let mut i: usize = 0;
    proof {
        assert(dv.skip(0) =~= dv);
    }
    while i < entries.len()
        invariant
            0 <= i <= entries@.len(),
            dv == entries.deep_view(),
            dv.len() == entries@.len(),
            spec_lookup(dv, key@, missing@) == spec_lookup(dv.skip(i as int), key@, missing@),
        decreases entries@.len() - i,
    {
        proof {
            assert(dv.skip(i as int)[0] == dv[i as int]);
            assert(dv.skip(i as int).skip(1) =~= dv.skip(i + 1));
        }
        if crate::text::str_eq(entries[i].0.as_str(), key) {
            return entries[i].1.as_str();
        }
        i += 1;
    }
    proof {
        assert(dv.skip(i as int).len() == 0);
    }
    missing
}

/// The document from `pos` on with every well-formed last-update token
/// replaced through the date table, "unknown" standing in for a path the
/// table does not hold.
pub open spec fn spec_last_updates_from(
    s: Seq<char>,
    dates: Seq<(Seq<char>, Seq<char>)>,
    pos: int,
) -> Seq<char>
    decreases s.len() - pos,
{
    if !(0 <= pos <= s.len()) {
        Seq::<char>::empty()
    } else {
        match spec_find_from(s, "{{lastUpdate:"@, pos) {
            Option::None => s.skip(pos),
            Option::Some(p) => match spec_find_from(s, "}}"@, p + 13) {
                Option::None => s.skip(pos),
                Option::Some(e) => if pos <= p && p + 13 <= e && e + 2 <= s.len() {
                    s.subrange(pos, p) + spec_lookup(dates, s.subrange(p + 13, e), "unknown"@)
                        + spec_last_updates_from(s, dates, e + 2)
                } else {
                    s.skip(pos)
                },
            },
        }
    }
}

/// Every `{{lastUpdate:<path>}}` token replaced by the date recorded for the
/// path, or the literal "unknown".
pub open spec fn spec_substitute_last_updates(
    s: Seq<char>,
    dates: Seq<(Seq<char>, Seq<char>)>,
) -> Seq<char> {
    spec_last_updates_from(s, dates, 0)
}

/// Replaces each `{{lastUpdate:<path>}}` token using the path-to-date table.
pub fn substitute_last_updates(markdown: &str, dates: &Vec<(String, String)>) -> (r: String)
    ensures
        r@ == spec_substitute_last_updates(markdown@, dates.deep_view()),
{
    proof {
        reveal_strlit("{{lastUpdate:");
        reveal_strlit("}}");
    }
    let ghost dv = dates.deep_view();
    let n = markdown.unicode_len();
    let mut out = String::new();
    let mut pos: usize = 0;
    proof {
        assert(out@ + spec_last_updates_from(markdown@, dv, 0) =~= spec_last_updates_from(
            markdown@,
            dv,
            0,
        ));
    }
    loop
        invariant
            0 <= pos <= n == markdown@.len(),
            dv == dates.deep_view(),
            "{{lastUpdate:"@.len() == 13,
            "}}"@.len() == 2,
            out@ + spec_last_updates_from(markdown@, dv, pos as int)
                == spec_last_updates_from(markdown@, dv, 0),
        decreases n - pos,
    {
        let ghost pre = out@;
        match find_from(markdown, "{{lastUpdate:", pos) {
            Some(p) => {
                proof {
                    crate::text::lemma_find_from_some(markdown@, "{{lastUpdate:"@, pos as int,
                        p as int);
                }
                match find_from(markdown, "}}", p + 13) {
                    Some(e) => {
                        proof {
                            crate::text::lemma_find_from_some(markdown@, "}}"@, p + 13,
                                e as int);
                        }
                        let piece = markdown.substring_char(pos, p);
                        out.append(piece);
                        let path = markdown.substring_char(p + 13, e);
                        let date = lookup_date(dates, path, "unknown");
                        out.append(date);
                        proof {
                            assert(out@ =~= pre + (markdown@.subrange(pos as int, p as int)
                                + spec_lookup(dv, markdown@.subrange(p + 13, e as int),
                                "unknown"@)));
                            assert(pre + (markdown@.subrange(pos as int, p as int)
                                + spec_lookup(dv, markdown@.subrange(p + 13, e as int),
                                "unknown"@)) + spec_last_updates_from(markdown@, dv, e + 2)
                                =~= pre + (markdown@.subrange(pos as int, p as int)
                                + spec_lookup(dv, markdown@.subrange(p + 13, e as int),
                                "unknown"@) + spec_last_updates_from(markdown@, dv, e + 2)));
                        }
                        pos = e + 2;
                    },
                    None => {
                        let piece = markdown.substring_char(pos, n);
                        out.append(piece);
                        proof {
                            assert(markdown@.subrange(pos as int, n as int) =~= markdown@.skip(
                                pos as int,
                            ));
                        }
                        return out;
                    },
                }
            },
            None => {
                let piece = markdown.substring_char(pos, n);
                out.append(piece);
                proof {
                    assert(markdown@.subrange(pos as int, n as int) =~= markdown@.skip(
                        pos as int,
                    ));
                }
                return out;
            },
        }
    }
}

/// The paths named by the well-formed last-update tokens from `pos` on, in
/// order of appearance.
pub open spec fn spec_last_update_paths_from(s: Seq<char>, pos: int) -> Seq<Seq<char>>
    decreases s.len() - pos,
{
    if !(0 <= pos <= s.len()) {
        Seq::<Seq<char>>::empty()
    } else {
        match spec_find_from(s, "{{lastUpdate:"@, pos) {
            Option::None => Seq::<Seq<char>>::empty(),
            Option::Some(p) => match spec_find_from(s, "}}"@, p + 13) {
                Option::None => Seq::<Seq<char>>::empty(),
                Option::Some(e) => if pos <= p && p + 13 <= e && e + 2 <= s.len() {
                    seq![s.subrange(p + 13, e)] + spec_last_update_paths_from(s, e + 2)
                } else {
                    Seq::<Seq<char>>::empty()
                },
            },
        }
    }
}

/// The paths that `{{lastUpdate:<path>}}` tokens in the document name, in
/// order of appearance; a caller resolves their dates before substitution.
pub fn last_update_paths(markdown: &str) -> (r: Vec<String>)
    ensures
        r.deep_view() == spec_last_update_paths_from(markdown@, 0),
{
    proof {
        reveal_strlit("{{lastUpdate:");
        reveal_strlit("}}");
    }
    let n = markdown.unicode_len();
    let mut out: Vec<String> = Vec::new();
    let mut pos: usize = 0;
    proof {
        assert(out.deep_view() =~= Seq::<Seq<char>>::empty());
        assert(out.deep_view() + spec_last_update_paths_from(markdown@, 0)
            =~= spec_last_update_paths_from(markdown@, 0));
    }
    loop
        invariant
            0 <= pos <= n == markdown@.len(),
            "{{lastUpdate:"@.len() == 13,
            "}}"@.len() == 2,
            out.deep_view() + spec_last_update_paths_from(markdown@, pos as int)
                == spec_last_update_paths_from(markdown@, 0),
        decreases n - pos,
    {
        let ghost pre = out.deep_view();
        match find_from(markdown, "{{lastUpdate:", pos) {
            Some(p) => {
                proof {
                    crate::text::lemma_find_from_some(markdown@, "{{lastUpdate:"@, pos as int,
                        p as int);
                }
                match find_from(markdown, "}}", p + 13) {
                    Some(e) => {
                        proof {
                            crate::text::lemma_find_from_some(markdown@, "}}"@, p + 13,
                                e as int);
                        }
                        let path = markdown.substring_char(p + 13, e).to_owned();
                        out.push(path);
                        proof {
                            assert(out.deep_view() =~= pre.push(markdown@.subrange(
                                p + 13,
                                e as int,
                            )));
                            assert(pre.push(markdown@.subrange(p + 13, e as int))
                                + spec_last_update_paths_from(markdown@, e + 2) =~= pre + (seq![
                                markdown@.subrange(p + 13, e as int),
                            ] + spec_last_update_paths_from(markdown@, e + 2)));
                        }
                        pos = e + 2;
                    },
                    None => {
                        proof {
                            assert(pre + Seq::<Seq<char>>::empty() =~= pre);
                        }
                        return out;
                    },
                }
            },
            None => {
                proof {
                    assert(pre + Seq::<Seq<char>>::empty() =~= pre);
                }
                return out;
            },
        }
    }
}

/// The three fixed date tokens replaced by the clock strings, then every
/// last-update token replaced through the date table.
pub open spec fn spec_substitute_variables(
    s: Seq<char>,
    month_year: Seq<char>,
    iso_date: Seq<char>,
    year: Seq<char>,
    dates: Seq<(Seq<char>, Seq<char>)>,
) -> Seq<char> {
    spec_substitute_last_updates(
        crate::text::spec_replace_all(
            crate::text::spec_replace_all(
                crate::text::spec_replace_all(s, "{{currentDateTime}}"@, month_year),
                "{{currentDate}}"@,
                iso_date,
            ),
            "{{currentYear}}"@,
            year,
        ),
        dates,
    )
}

/// Replaces the dynamic tokens: `{{currentDateTime}}`, `{{currentDate}}` and
/// `{{currentYear}}` with the given clock strings, and each
/// `{{lastUpdate:<path>}}` with the date recorded for the path. Unrecognized
/// `{{...}}` tokens stay as they are.
pub fn substitute_variables(
    markdown: &str,
    now: &TimeStrings,
    dates: &Vec<(String, String)>,
) -> (r: String)
    ensures
        r@ == spec_substitute_variables(
            markdown@,
            now.month_year@,
            now.iso_date@,
            now.year@,
            dates.deep_view(),
        ),
{
    let step1 = crate::text::replace_all(markdown, "{{currentDateTime}}",
        now.month_year.as_str());
    let step2 = crate::text::replace_all(step1.as_str(), "{{currentDate}}",
        now.iso_date.as_str());
    let step3 = crate::text::replace_all(step2.as_str(), "{{currentYear}}", now.year.as_str());
    substitute_last_updates(step3.as_str(), dates)
}

/// What the markdown engine renders a markdown fragment to.
pub uninterp spec fn html_of(markdown: Seq<char>) -> Seq<char>;

/// Relies on `pulldown_cmark::Parser::new_ext` and
/// `pulldown_cmark::html::push_html`: converts markdown to HTML with tables,
/// footnotes, strikethrough and task lists enabled. The result depends on the
/// input text alone.
#[verifier::external_body]
pub fn parse_markdown(markdown: &str) -> (r: String)
    ensures
        r@ == html_of(markdown@),
{
    let options = pulldown_cmark::Options::ENABLE_TABLES | pulldown_cmark::Options::ENABLE_FOOTNOTES
        | pulldown_cmark::Options::ENABLE_STRIKETHROUGH
        | pulldown_cmark::Options::ENABLE_TASKLISTS;
    let parser = pulldown_cmark::Parser::new_ext(markdown, options);
    let mut html_output = String::new();
    pulldown_cmark::html::push_html(&mut html_output, parser);
    html_output
}

} // verus!
