//! Recursive resolution of `Include:` directives: referenced markdown files
//! are spliced in with their headings renumbered to nest under the inclusion
//! point, private-guarded files are kept as directives, and unresolvable
//! paths degrade to an inline error message.
//!
//! The resolver works against a caller-supplied table of file contents keyed
//! by joined path, so the whole expansion is a function of plain values.

use vstd::prelude::*;
use crate::text::{
    ends_with, find_char, heading_shape, push_char, spec_ends_with, spec_heading_level,
    spec_is_heading, spec_starts_with, spec_trim, split_lines, starts_with, trim, repeat_char,
};

verus! {

/// `rel` resolved against `base`: the path itself under an empty base, else
/// the two joined with '/'.
pub open spec fn spec_join_path(base: Seq<char>, rel: Seq<char>) -> Seq<char> {
    if base.len() == 0 {
        rel
    } else {
        base + seq!['/'] + rel
    }
}

pub fn join_path(base: &str, rel: &str) -> (r: String)
    ensures
        r@ == spec_join_path(base@, rel@),
{
    if base.unicode_len() == 0 {
        rel.to_owned()
    } else {
        let mut s = base.to_owned();
        push_char(&mut s, '/');
        s.append(rel);
        proof {
            assert(s@ =~= base@ + seq!['/'] + rel@);
        }
        s
    }
}

/// Everything before the last '/' of a path; empty when it has none.
pub open spec fn spec_parent_dir(p: Seq<char>) -> Seq<char>
    decreases p.len(),
{
    if p.len() == 0 {
        p
    } else if p[p.len() - 1] == '/' {
        p.take(p.len() - 1)
    } else {
        spec_parent_dir(p.take(p.len() - 1))
    }
}

proof fn lemma_parent_dir_at(p: Seq<char>, i: int)
    requires
        0 <= i <= p.len(),
        forall|j: int| i <= j < p.len() ==> p[j] != '/',
        i > 0 ==> p[i - 1] == '/',
    ensures
        i == 0 ==> spec_parent_dir(p) == Seq::<char>::empty(),
        i > 0 ==> spec_parent_dir(p) == p.take(i - 1),
    decreases p.len(),
{
    if p.len() == 0 {
        assert(p =~= Seq::<char>::empty());
    } else if i == p.len() {
    } else {
        lemma_parent_dir_at(p.take(p.len() - 1), i);
        if i > 0 {
            assert(p.take(p.len() - 1).take(i - 1) =~= p.take(i - 1));
        }
    }
}

pub fn parent_dir(p: &str) -> (r: String)
    ensures
        r@ == spec_parent_dir(p@),
{
    let n = p.unicode_len();
    let mut i: usize = n;
    while i > 0 && p.get_char(i - 1) != '/'
        invariant
            0 <= i <= n == p@.len(),
            forall|j: int| i <= j < n ==> p@[j] != '/',
        decreases i,
    {
        i -= 1;
    }
    proof {
        lemma_parent_dir_at(p@, i as int);
    }
    if i == 0 {
        String::new()
    } else {
        proof {
            assert(p@.subrange(0, i - 1) =~= p@.take(i - 1));
        }
        p.substring_char(0, i - 1).to_owned()
    }
}

/// The content recorded for a path, if any.
pub open spec fn spec_lookup_file(
    files: Seq<(Seq<char>, Seq<char>)>,
    path: Seq<char>,
) -> Option<Seq<char>>
    decreases files.len(),
{
    if files.len() == 0 {
        Option::None
    } else if files[0].0 == path {
        Option::Some(files[0].1)
    } else {
        spec_lookup_file(files.skip(1), path)
    }
}

fn lookup_file(files: &Vec<(String, String)>, path: &str) -> (r: Option<String>)
    ensures
        match r {
            Some(c) => spec_lookup_file(files.deep_view(), path@) == Some(c@),
            None => spec_lookup_file(files.deep_view(), path@) is None,
        },
{
    let ghost dv = files.deep_view();
    let mut i: usize = 0;
    proof {
        assert(dv.skip(0) =~= dv);
    }
    while i < files.len()
        invariant
            0 <= i <= files@.len(),
            dv == files.deep_view(),
            dv.len() == files@.len(),
            spec_lookup_file(dv, path@) == spec_lookup_file(dv.skip(i as int), path@),
        decreases files@.len() - i,
    {
        proof {
            assert(dv.skip(i as int)[0] == dv[i as int]);
            assert(dv.skip(i as int).skip(1) =~= dv.skip(i + 1));
        }
        if crate::text::str_eq(files[i].0.as_str(), path) {
            return Some(files[i].1.clone());
        }
        i += 1;
    }
    proof {
        assert(dv.skip(i as int).len() == 0);
    }
    None
}

/// The heading level an included heading is rewritten to: its own level
/// shifted to nest under the level active at the inclusion point. The sum is
/// clamped at the machine's integer bound.
pub open spec fn spec_effective_level(lvl: nat, parent_level: nat, is_included: bool) -> nat {
    if !is_included {
        lvl
    } else {
        let m: nat = if parent_level > 1 {
            parent_level
        } else {
            1
        };
        if lvl + m - 1 > usize::MAX {
            usize::MAX as nat
        } else {
            (lvl + m - 1) as nat
        }
    }
}

fn effective_level(lvl: usize, parent_level: usize, is_included: bool) -> (r: usize)
    requires
        lvl >= 1,
    ensures
        r as nat == spec_effective_level(lvl as nat, parent_level as nat, is_included),
{
    if !is_included {
        lvl
    } else {
        let m: usize = if parent_level > 1 {
            parent_level
        } else {
            1
        };
        if lvl - 1 <= usize::MAX - m {
            lvl - 1 + m
        } else {
            usize::MAX
        }
    }
}

/// What one line contributes to the resolved document, with the heading level
/// and first-title state it leaves behind. An `Include:` directive naming a
/// readable, unguarded `.md` file contributes that file's own resolution.
pub open spec fn spec_resolve_step(
    line: Seq<char>,
    files: Seq<(Seq<char>, Seq<char>)>,
    base: Seq<char>,
    parent_level: nat,
    is_included: bool,
    cur_level: nat,
    h1_done: bool,
    fuel: nat,
) -> (Seq<char>, nat, bool)
    decreases fuel, 0nat, 0nat,
{
    let t = spec_trim(line);
    let plain = (line + seq!['\n'], cur_level, h1_done);
    if spec_is_heading(t) {
        let lvl = spec_heading_level(t);
        if is_included && lvl == 1 && !h1_done {
            (Seq::<char>::empty(), cur_level, true)
        } else {
            let eff = spec_effective_level(lvl, parent_level, is_included);
            (
                Seq::new(eff, |j: int| '#') + t.skip(lvl as int) + seq!['\n'],
                eff,
                h1_done,
            )
        }
    } else if spec_starts_with(t, "Include:"@) {
        match spec_find_from(line, seq!['('], 0) {
            Option::None => plain,
            Option::Some(op) => match spec_find_from(line, seq![')'], op) {
                Option::None => plain,
                Option::Some(cp) => if 0 <= op && op < cp && cp <= line.len() {
                    let path = line.subrange(op + 1, cp);
                    if spec_ends_with(path, ".md"@) {
                        let full = spec_join_path(base, path);
                        match spec_lookup_file(files, full) {
                            Option::None => (
                                "**Error: Could not include '"@ + path + "': not found**\n"@,
                                cur_level,
                                h1_done,
                            ),
                            Option::Some(content) => if spec_starts_with(
                                content,
                                "PRIVATE_NEVER_AS_IS"@,
                            ) || fuel == 0 {
                                plain
                            } else {
                                (
                                    spec_resolve(
                                        content,
                                        files,
                                        spec_parent_dir(full),
                                        cur_level,
                                        true,
                                        (fuel - 1) as nat,
                                    ) + seq!['\n'],
                                    cur_level,
                                    h1_done,
                                )
                            },
                        }
                    } else {
                        plain
                    }
                } else {
                    plain
                },
            },
        }
    } else {
        plain
    }
}

pub open spec fn spec_resolve_lines(
    lines: Seq<Seq<char>>,
    i: int,
    files: Seq<(Seq<char>, Seq<char>)>,
    base: Seq<char>,
    parent_level: nat,
    is_included: bool,
    cur_level: nat,
    h1_done: bool,
    fuel: nat,
) -> Seq<char>
    decreases fuel, lines.len() - i, 1nat,
{
    if i < 0 || i >= lines.len() {
        Seq::<char>::empty()
    } else {
        let step = spec_resolve_step(
            lines[i],
            files,
            base,
            parent_level,
            is_included,
            cur_level,
            h1_done,
            fuel,
        );
        step.0 + spec_resolve_lines(
            lines,
            i + 1,
            files,
            base,
            parent_level,
            is_included,
            step.1,
            step.2,
            fuel,
        )
    }
}

/// The document with every include directive expanded, carrying the heading
/// level of the inclusion point and whether the included file's own first
/// top-level title has been dropped.
pub open spec fn spec_resolve(
    s: Seq<char>,
    files: Seq<(Seq<char>, Seq<char>)>,
    base: Seq<char>,
    parent_level: nat,
    is_included: bool,
    fuel: nat,
) -> Seq<char>
    decreases fuel, crate::text::spec_lines(s).len() + 1, 0nat,
{
    spec_resolve_lines(
        crate::text::spec_lines(s),
        0,
        files,
        base,
        parent_level,
        is_included,
        parent_level,
        false,
        fuel,
    )
}

/// The whole expansion as `process_includes` performs it, with enough fuel
/// that only an include cycle is ever cut off.
pub open spec fn spec_process_includes(
    s: Seq<char>,
    base: Seq<char>,
    files: Seq<(Seq<char>, Seq<char>)>,
) -> Seq<char> {
    spec_resolve(s, files, base, 0, false, files.len())
}

use crate::text::spec_find_from;

fn resolve_step(
    line: &str,
    files: &Vec<(String, String)>,
    base: &str,
    parent_level: usize,
    is_included: bool,
    cur_level: usize,
    h1_done: bool,
    fuel: usize,
) -> (r: (String, usize, bool))
    ensures
        (r.0@, r.1 as nat, r.2) == spec_resolve_step(
            line@,
            files.deep_view(),
            base@,
            parent_level as nat,
            is_included,
            cur_level as nat,
            h1_done,
            fuel as nat,
        ),
    decreases fuel, 0nat,
{
    let t = trim(line);
    let (is_head, lvl) = heading_shape(t);
    if is_head {
        if is_included && lvl == 1 && !h1_done {
            (String::new(), cur_level, true)
        } else {
            let eff = effective_level(lvl, parent_level, is_included);
            let mut out = repeat_char('#', eff);
            proof {
                crate::text::lemma_heading_level_bounds(t@);
            }
            let rest = t.substring_char(lvl, t.unicode_len());
            out.append(rest);
            push_char(&mut out, '\n');
            proof {
                assert(rest@ =~= t@.skip(lvl as int));
                assert(out@ =~= Seq::new(eff as nat, |j: int| '#') + t@.skip(lvl as int)
                    + seq!['\n']);
            }
            (out, eff, h1_done)
        }
    } else if starts_with(t, "Include:") {
        let mut handled: Option<(String, usize, bool)> = None;
        match find_char(line, '(', 0) {
            None => {
                proof {
                    lemma_find_char_none(line@, '(', 0);
                }
            },
            Some(op) => {
                proof {
                    lemma_find_char_eq(line@, '(', 0, op as int);
                }
                match find_char(line, ')', op) {
                    None => {
                        proof {
                            lemma_find_char_none(line@, ')', op as int);
                        }
                    },
                    Some(cp) => {
                        proof {
                            lemma_find_char_eq(line@, ')', op as int, cp as int);
                            assert(op < cp) by {
                                assert(line@[op as int] == '(');
                            }
                        }
                        let path = line.substring_char(op + 1, cp);
                        if ends_with(path, ".md") {
                            let full = join_path(base, path);
                            match lookup_file(files, full.as_str()) {
                                None => {
                                    let mut out = String::new();
                                    out.append("**Error: Could not include '");
                                    out.append(path);
                                    out.append("': not found**\n");
                                    proof {
                                        assert(out@ =~= "**Error: Could not include '"@
                                            + path@ + "': not found**\n"@);
                                    }
                                    handled = Some((out, cur_level, h1_done));
                                },
                                Some(content) => {
                                    if starts_with(content.as_str(), "PRIVATE_NEVER_AS_IS")
                                        || fuel == 0 {
                                        let mut out = line.to_owned();
                                        push_char(&mut out, '\n');
                                        handled = Some((out, cur_level, h1_done));
                                    } else {
                                        let parent = parent_dir(full.as_str());
                                        let mut out = resolve_rec(
                                            content.as_str(),
                                            files,
                                            parent.as_str(),
                                            cur_level,
                                            true,
                                            fuel - 1,
                                        );
                                        push_char(&mut out, '\n');
                                        handled = Some((out, cur_level, h1_done));
                                    }
                                },
                            }
                        }
                    },
                }
            },
        }
        match handled {
            Some(r) => r,
            None => {
                let mut out = line.to_owned();
                push_char(&mut out, '\n');
                (out, cur_level, h1_done)
            },
        }
    } else {
        let mut out = line.to_owned();
        push_char(&mut out, '\n');
        (out, cur_level, h1_done)
    }
}

/// `find_char`'s outcome, restated as `spec_find_from` with a one-character
/// pattern.
proof fn lemma_find_char_eq(s: Seq<char>, c: char, from: int, i: int)
    requires
        0 <= from <= s.len(),
        from <= i < s.len(),
        s[i] == c,
        forall|j: int| from <= j < i ==> s[j] != c,
    ensures
        spec_find_from(s, seq![c], from) == Some(i),
    decreases i - from,
{
    assert(s.subrange(i, i + 1) =~= seq![c]);
    if from < i {
        assert(s.subrange(from, from + 1)[0] == s[from]);
        lemma_find_char_eq(s, c, from + 1, i);
    }
}

proof fn lemma_find_char_none(s: Seq<char>, c: char, from: int)
    requires
        0 <= from <= s.len(),
        forall|j: int| from <= j < s.len() ==> s[j] != c,
    ensures
        spec_find_from(s, seq![c], from) is None,
    decreases s.len() - from,
{
    if from < s.len() {
        assert(s.subrange(from, from + 1)[0] == s[from]);
        lemma_find_char_none(s, c, from + 1);
    }
}

fn resolve_rec(
    markdown: &str,
    files: &Vec<(String, String)>,
    base: &str,
    parent_level: usize,
    is_included: bool,
    fuel: usize,
) -> (r: String)
    ensures
        r@ == spec_resolve(
            markdown@,
            files.deep_view(),
            base@,
            parent_level as nat,
            is_included,
            fuel as nat,
        ),
    decreases fuel, 1nat,
{
    let ghost fdv = files.deep_view();
    let lines = split_lines(markdown);
    let ghost ldv = lines.deep_view();
    let mut out = String::new();
    let mut cur_level = parent_level;
    let mut h1_done = false;
    let mut i: usize = 0;
    proof {
        assert(out@ + spec_resolve_lines(ldv, 0, fdv, base@, parent_level as nat, is_included,
            parent_level as nat, false, fuel as nat) =~= spec_resolve_lines(ldv, 0, fdv, base@,
            parent_level as nat, is_included, parent_level as nat, false, fuel as nat));
    }
    while i < lines.len()
        invariant
            0 <= i <= lines.len(),
            ldv == lines.deep_view(),
            ldv.len() == lines@.len(),
            fdv == files.deep_view(),
            out@ + spec_resolve_lines(ldv, i as int, fdv, base@, parent_level as nat,
                is_included, cur_level as nat, h1_done, fuel as nat) == spec_resolve_lines(ldv,
                0, fdv, base@, parent_level as nat, is_included, parent_level as nat, false,
                fuel as nat),
        decreases lines.len() - i,
    {
        let ghost pre = out@;
        proof {
            assert(lines[i as int]@ == ldv[i as int]);
        }
        let step = resolve_step(lines[i].as_str(), files, base, parent_level, is_included,
            cur_level, h1_done, fuel);
        let (emitted, new_level, new_h1) = step;
        out.append(emitted.as_str());
        cur_level = new_level;
        h1_done = new_h1;
        proof {
            assert(pre + emitted@ + spec_resolve_lines(ldv, i + 1, fdv, base@,
                parent_level as nat, is_included, new_level as nat, new_h1, fuel as nat) =~= pre
                + (emitted@ + spec_resolve_lines(ldv, i + 1, fdv, base@, parent_level as nat,
                is_included, new_level as nat, new_h1, fuel as nat)));
        }
        i += 1;
    }
    out
}

/// The `.md` path named by one line, when it is a well-formed directive.
pub open spec fn spec_request_of(line: Seq<char>) -> Option<Seq<char>> {
    if spec_starts_with(spec_trim(line), "Include:"@) {
        match spec_find_from(line, seq!['('], 0) {
            Option::None => Option::None,
            Option::Some(op) => match spec_find_from(line, seq![')'], op) {
                Option::None => Option::None,
                Option::Some(cp) => if 0 <= op && op < cp && cp <= line.len() {
                    let path = line.subrange(op + 1, cp);
                    if spec_ends_with(path, ".md"@) {
                        Option::Some(path)
                    } else {
                        Option::None
                    }
                } else {
                    Option::None
                },
            },
        }
    } else {
        Option::None
    }
}

pub open spec fn spec_requests_fold(lines: Seq<Seq<char>>, i: int) -> Seq<Seq<char>>
    decreases lines.len() - i,
{
    if i < 0 || i >= lines.len() {
        Seq::<Seq<char>>::empty()
    } else {
        (match spec_request_of(lines[i]) {
            Option::Some(p) => seq![p],
            Option::None => Seq::<Seq<char>>::empty(),
        }) + spec_requests_fold(lines, i + 1)
    }
}

/// The `.md` paths that the document's own directive lines name, relative to
/// its base, in order; a caller reads them (and, recursively, theirs) to
/// build the file table the resolver works against.
pub fn include_requests(markdown: &str) -> (r: Vec<String>)
    ensures
        r.deep_view() == spec_requests_fold(crate::text::spec_lines(markdown@), 0),
{
    let lines = split_lines(markdown);
    let ghost ldv = lines.deep_view();
    let mut out: Vec<String> = Vec::new();
    let mut i: usize = 0;
    proof {
        assert(out.deep_view() =~= Seq::<Seq<char>>::empty());
        assert(out.deep_view() + spec_requests_fold(ldv, 0) =~= spec_requests_fold(ldv, 0));
    }
    while i < lines.len()
        invariant
            0 <= i <= lines.len(),
            ldv == lines.deep_view(),
            ldv.len() == lines@.len(),
            out.deep_view() + spec_requests_fold(ldv, i as int) == spec_requests_fold(ldv, 0),
        decreases lines.len() - i,
    {
        let ghost pre = out.deep_view();
        proof {
            assert(lines[i as int]@ == ldv[i as int]);
        }
        let line = lines[i].as_str();
        let n = line.unicode_len();
        let t = trim(line);
        let mut req: Option<String> = None;
        if starts_with(t, "Include:") {
            match find_char(line, '(', 0) {
                None => {
                    proof {
                        lemma_find_char_none(line@, '(', 0);
                    }
                },
                Some(op) => {
                    proof {
                        lemma_find_char_eq(line@, '(', 0, op as int);
                    }
                    match find_char(line, ')', op) {
                        None => {
                            proof {
                                lemma_find_char_none(line@, ')', op as int);
                            }
                        },
                        Some(cp) => {
                            proof {
                                lemma_find_char_eq(line@, ')', op as int, cp as int);
                                assert(op < cp) by {
                                    assert(line@[op as int] == '(');
                                }
                            }
                            let path = line.substring_char(op + 1, cp);
                            if ends_with(path, ".md") {
                                req = Some(path.to_owned());
                            }
                        },
                    }
                },
            }
        }
        match req {
            Some(p) => {
                out.push(p);
                proof {
                    assert(out.deep_view() =~= pre.push(
                        spec_request_of(ldv[i as int]).unwrap(),
                    ));
                    assert(pre.push(spec_request_of(ldv[i as int]).unwrap())
                        + spec_requests_fold(ldv, i + 1) =~= pre + (seq![
                        spec_request_of(ldv[i as int]).unwrap(),
                    ] + spec_requests_fold(ldv, i + 1)));
                }
            },
            None => {
                proof {
                    assert(pre + (Seq::<Seq<char>>::empty() + spec_requests_fold(ldv, i + 1))
                        =~= pre + spec_requests_fold(ldv, i + 1));
                }
            },
        }
        i += 1;
    }
    out
}

proof fn lemma_resolve_lines_plain(
    lines: Seq<Seq<char>>,
    i: int,
    files: Seq<(Seq<char>, Seq<char>)>,
    base: Seq<char>,
    cur_level: nat,
    h1_done: bool,
    fuel: nat,
)
    requires
        forall|j: int|
            0 <= j < lines.len() ==> !spec_starts_with(
                spec_trim(#[trigger] lines[j]),
                "Include:"@,
            ),
        forall|j: int|
            0 <= j < lines.len() ==> (spec_is_heading(spec_trim(#[trigger] lines[j]))
                ==> lines[j] == spec_trim(lines[j])),
    ensures
        spec_resolve_lines(lines, i, files, base, 0, false, cur_level, h1_done, fuel)
            == crate::text::spec_unlines(lines, i),
    decreases lines.len() - i,
{
    if 0 <= i < lines.len() {
        let line = lines[i];
        let t = spec_trim(line);
        let step = spec_resolve_step(line, files, base, 0, false, cur_level, h1_done, fuel);
        if spec_is_heading(t) {
            let lvl = spec_heading_level(t);
            crate::text::lemma_heading_level_bounds(t);
            assert(Seq::new(lvl, |j: int| '#') =~= t.take(lvl as int));
            assert(t.take(lvl as int) + t.skip(lvl as int) =~= t);
            assert(step.0 =~= line + seq!['\n']);
            lemma_resolve_lines_plain(lines, i + 1, files, base, step.1, step.2, fuel);
        } else {
            lemma_resolve_lines_plain(lines, i + 1, files, base, step.1, step.2, fuel);
        }
    }
}

/// Include resolution is content-preserving: a document in line-normal form
/// (newline-terminated, no carriage returns, headings flush with the line)
/// that holds no `Include:` directives resolves to itself, whatever the file
/// table and base path.
pub proof fn lemma_process_includes_preserves(
    s: Seq<char>,
    base: Seq<char>,
    files: Seq<(Seq<char>, Seq<char>)>,
)
    requires
        forall|j: int| 0 <= j < s.len() ==> s[j] != '\r',
        s.len() > 0 ==> s[s.len() - 1] == '\n',
        forall|j: int|
            0 <= j < crate::text::spec_lines(s).len() ==> !spec_starts_with(
                spec_trim(#[trigger] crate::text::spec_lines(s)[j]),
                "Include:"@,
            ),
        forall|j: int|
            0 <= j < crate::text::spec_lines(s).len() ==> (spec_is_heading(
                spec_trim(#[trigger] crate::text::spec_lines(s)[j]),
            ) ==> crate::text::spec_lines(s)[j] == spec_trim(crate::text::spec_lines(s)[j])),
    ensures
        spec_process_includes(s, base, files) == s,
{
    lemma_resolve_lines_plain(crate::text::spec_lines(s), 0, files, base, 0, false, files.len());
    crate::text::lemma_unlines_of_lines(s);
}

/// Expands every `Include: [label](<path>.md)` directive against the supplied
/// file table, recursively and with headings renumbered; files whose content
/// starts with the private guard, and directives past an include cycle's fuel
/// bound, stay as directive lines; a path missing from the table becomes an
/// inline bold error message.
pub fn process_includes(markdown: &str, base_path: &str, files: &Vec<(String, String)>) -> (r:
    String)
    ensures
        r@ == spec_process_includes(markdown@, base_path@, files.deep_view()),
{
    let fuel = files.len();
    proof {
        assert(files.deep_view().len() == files@.len());
    }
    resolve_rec(markdown, files, base_path, 0, false, fuel)
}

} // verus!
