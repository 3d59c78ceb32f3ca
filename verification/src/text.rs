//! Low-level text utilities shared by the document pipeline: ASCII character
//! classification, trimming, substring search, line splitting and decimal
//! rendering, each with an exact functional specification over `Seq<char>`.

use vstd::prelude::*;

verus! {

/// ASCII whitespace, the set recognized by the pipeline's trimming.
pub open spec fn spec_is_space(c: char) -> bool {
    c == ' ' || c == '\t' || c == '\r' || c == '\n'
}

pub open spec fn spec_is_upper(c: char) -> bool {
    'A' <= c && c <= 'Z'
}

pub open spec fn spec_is_alnum(c: char) -> bool {
    ('a' <= c && c <= 'z') || ('A' <= c && c <= 'Z') || ('0' <= c && c <= '9')
}

/// ASCII lowercasing; characters outside 'A'..='Z' are unchanged.
pub open spec fn spec_lower(c: char) -> char {
    if spec_is_upper(c) {
        ((c as u8) + 32) as char
    } else {
        c
    }
}

pub fn is_space(c: char) -> (r: bool)
    ensures
        r == spec_is_space(c),
{
    c == ' ' || c == '\t' || c == '\r' || c == '\n'
}

pub fn is_alnum(c: char) -> (r: bool)
    ensures
        r == spec_is_alnum(c),
{
    ('a' <= c && c <= 'z') || ('A' <= c && c <= 'Z') || ('0' <= c && c <= '9')
}

pub fn lower(c: char) -> (r: char)
    ensures
        r == spec_lower(c),
{
    if 'A' <= c && c <= 'Z' {
        let b = c as u8;
        (b + 32) as char
    } else {
        c
    }
}

pub open spec fn spec_trim_start(s: Seq<char>) -> Seq<char>
    decreases s.len(),
{
    if s.len() == 0 {
        s
    } else if spec_is_space(s[0]) {
        spec_trim_start(s.skip(1))
    } else {
        s
    }
}

pub open spec fn spec_trim_end(s: Seq<char>) -> Seq<char>
    decreases s.len(),
{
    if s.len() == 0 {
        s
    } else if spec_is_space(s[s.len() - 1]) {
        spec_trim_end(s.take(s.len() - 1))
    } else {
        s
    }
}

/// The view of `str::trim` restricted to ASCII whitespace.
pub open spec fn spec_trim(s: Seq<char>) -> Seq<char> {
    spec_trim_end(spec_trim_start(s))
}

proof fn lemma_trim_start_skip(s: Seq<char>, i: int)
    requires
        0 <= i <= s.len(),
        forall|j: int| 0 <= j < i ==> spec_is_space(s[j]),
        i < s.len() ==> !spec_is_space(s[i]),
    ensures
        spec_trim_start(s) == s.skip(i),
    decreases i,
{
    if i == 0 {
        assert(s.skip(0) == s);
    } else {
        assert(spec_is_space(s[0]));
        lemma_trim_start_skip(s.skip(1), i - 1);
        assert(s.skip(1).skip(i - 1) == s.skip(i));
    }
}

proof fn lemma_trim_end_take(s: Seq<char>, i: int)
    requires
        0 <= i <= s.len(),
        forall|j: int| i <= j < s.len() ==> spec_is_space(s[j]),
        i > 0 ==> !spec_is_space(s[i - 1]),
    ensures
        spec_trim_end(s) == s.take(i),
    decreases s.len() - i,
{
    if i == s.len() {
        assert(s.take(i) == s);
    } else {
        assert(spec_is_space(s[s.len() - 1]));
        lemma_trim_end_take(s.take(s.len() - 1), i);
        assert(s.take(s.len() - 1).take(i) == s.take(i));
    }
}

/// The start trimmed of ASCII whitespace.
pub fn trim_start<'a>(s: &'a str) -> (r: &'a str)
    ensures
        r@ == spec_trim_start(s@),
{
    let n = s.unicode_len();
    let mut start: usize = 0;
    while start < n && is_space(s.get_char(start))
        invariant
            0 <= start <= n == s@.len(),
            forall|j: int| 0 <= j < start ==> spec_is_space(s@[j]),
        decreases n - start,
    {
        start += 1;
    }
    proof {
        lemma_trim_start_skip(s@, start as int);
        assert(s@.skip(start as int) =~= s@.subrange(start as int, n as int));
    }
    s.substring_char(start, n)
}

/// Both ends trimmed of ASCII whitespace.
pub fn trim<'a>(s: &'a str) -> (r: &'a str)
    ensures
        r@ == spec_trim(s@),
{
    let n = s.unicode_len();
    let mut start: usize = 0;
    while start < n && is_space(s.get_char(start))
        invariant
            0 <= start <= n == s@.len(),
            forall|j: int| 0 <= j < start ==> spec_is_space(s@[j]),
        decreases n - start,
    {
        start += 1;
    }
    let mut end: usize = n;
    while end > start && is_space(s.get_char(end - 1))
        invariant
            start <= end <= n == s@.len(),
            forall|j: int| end <= j < n ==> spec_is_space(s@[j]),
            forall|j: int| 0 <= j < start ==> spec_is_space(s@[j]),
            start < n ==> !spec_is_space(s@[start as int]),
        decreases end,
    {
        end -= 1;
    }
    proof {
        lemma_trim_start_skip(s@, start as int);
        if end == start {
            lemma_trim_end_take(s@.skip(start as int), 0);
        } else {
            lemma_trim_end_take(s@.skip(start as int), end - start);
        }
        assert(s@.skip(start as int).take(end - start) == s@.subrange(
            start as int,
            end as int,
        ));
    }
    s.substring_char(start, end)
}

/// `pat` occurs in `s` starting at position `i`.
pub open spec fn spec_match_at(s: Seq<char>, pat: Seq<char>, i: int) -> bool {
    0 <= i && i + pat.len() <= s.len() && s.subrange(i, i + pat.len()) == pat
}

/// Position of the first occurrence of `pat` at or after `from`, if any.
pub open spec fn spec_find_from(s: Seq<char>, pat: Seq<char>, from: int) -> Option<int>
    decreases s.len() - from,
{
    if from < 0 || from + pat.len() > s.len() {
        None
    } else if pat.len() == 0 {
        Some(from)
    } else if spec_match_at(s, pat, from) {
        Some(from)
    } else {
        spec_find_from(s, pat, from + 1)
    }
}

pub open spec fn spec_starts_with(s: Seq<char>, pat: Seq<char>) -> bool {
    spec_match_at(s, pat, 0)
}

pub open spec fn spec_ends_with(s: Seq<char>, pat: Seq<char>) -> bool {
    spec_match_at(s, pat, s.len() - pat.len())
}

pub open spec fn spec_contains_sub(s: Seq<char>, pat: Seq<char>) -> bool {
    spec_find_from(s, pat, 0) is Some
}

pub fn match_at(s: &str, pat: &str, i: usize) -> (r: bool)
    requires
        i <= s@.len(),
    ensures
        r == spec_match_at(s@, pat@, i as int),
{
    let sn = s.unicode_len();
    let pn = pat.unicode_len();
    if pn > sn - i {
        return false;
    }
    let mut k: usize = 0;
    while k < pn
        invariant
            0 <= k <= pn == pat@.len(),
            i + pn <= sn == s@.len(),
            forall|j: int| 0 <= j < k ==> s@[i + j] == pat@[j],
        decreases pn - k,
    {
        if s.get_char(i + k) != pat.get_char(k) {
            assert(s@.subrange(i as int, i + pn) != pat@) by {
                assert(s@.subrange(i as int, i + pn)[k as int] != pat@[k as int]);
            }
            return false;
        }
        k += 1;
    }
    assert(s@.subrange(i as int, i + pn) =~= pat@);
    true
}

pub fn find_from(s: &str, pat: &str, from: usize) -> (r: Option<usize>)
    requires
        from <= s@.len(),
    ensures
        match r {
            Some(i) => from <= i && spec_find_from(s@, pat@, from as int) == Some(i as int),
            None => spec_find_from(s@, pat@, from as int) is None,
        },
{
    let sn = s.unicode_len();
    let pn = pat.unicode_len();
    if pn == 0 {
        return Some(from);
    }
    let mut i: usize = from;
    loop
        invariant
            from <= i <= sn,
            sn == s@.len(),
            1 <= pn == pat@.len(),
            spec_find_from(s@, pat@, from as int) == spec_find_from(s@, pat@, i as int),
        decreases sn + 1 - i,
    {
        if pn > sn || i > sn - pn {
            return None;
        }
        if match_at(s, pat, i) {
            return Some(i);
        }
        i += 1;
    }
}

pub fn starts_with(s: &str, pat: &str) -> (r: bool)
    ensures
        r == spec_starts_with(s@, pat@),
{
    match_at(s, pat, 0)
}

pub fn ends_with(s: &str, pat: &str) -> (r: bool)
    ensures
        r == spec_ends_with(s@, pat@),
{
    let sn = s.unicode_len();
    let pn = pat.unicode_len();
    if pn > sn {
        return false;
    }
    match_at(s, pat, sn - pn)
}

pub fn contains_sub(s: &str, pat: &str) -> (r: bool)
    ensures
        r == spec_contains_sub(s@, pat@),
{
    match find_from(s, pat, 0) {
        Some(_) => true,
        None => false,
    }
}

pub proof fn lemma_find_from_some(s: Seq<char>, pat: Seq<char>, from: int, i: int)
    requires
        pat.len() > 0,
        spec_find_from(s, pat, from) == Some(i),
    ensures
        from <= i,
        spec_match_at(s, pat, i),
        forall|j: int| from <= j < i ==> !spec_match_at(s, pat, j),
    decreases s.len() - from,
{
    if !(from < 0 || from + pat.len() > s.len()) && !spec_match_at(s, pat, from) {
        lemma_find_from_some(s, pat, from + 1, i);
    }
}

pub proof fn lemma_find_from_none(s: Seq<char>, pat: Seq<char>, from: int)
    requires
        pat.len() > 0,
        0 <= from,
        spec_find_from(s, pat, from) is None,
    ensures
        forall|j: int| from <= j ==> !spec_match_at(s, pat, j),
    decreases s.len() - from,
{
    if !(from < 0 || from + pat.len() > s.len()) && !spec_match_at(s, pat, from) {
        lemma_find_from_none(s, pat, from + 1);
    }
}

/// One trailing carriage return removed, as `str::lines` does per line.
pub open spec fn spec_strip_cr(l: Seq<char>) -> Seq<char> {
    if l.len() > 0 && l[l.len() - 1] == '\r' {
        l.take(l.len() - 1)
    } else {
        l
    }
}

/// The view of `str::lines`: split at '\n', one trailing '\r' removed per
/// line, and no final empty line when the input ends in a newline.
pub open spec fn spec_lines(s: Seq<char>) -> Seq<Seq<char>>
    decreases s.len(),
{
    if s.len() == 0 {
        Seq::empty()
    } else if s[0] == '\n' {
        seq![Seq::<char>::empty()] + spec_lines(s.skip(1))
    } else if s[0] == '\r' && s.len() >= 2 && s[1] == '\n' {
        seq![Seq::<char>::empty()] + spec_lines(s.skip(2))
    } else {
        let rest = spec_lines(s.skip(1));
        if rest.len() == 0 {
            seq![seq![s[0]]]
        } else {
            seq![seq![s[0]] + rest[0]] + rest.skip(1)
        }
    }
}

/// Peels the first line off `spec_lines`: `k` is the position of the first
/// newline (or the length when there is none).
pub proof fn lemma_lines_head(s: Seq<char>, k: int)
    requires
        0 <= k <= s.len(),
        forall|j: int| 0 <= j < k ==> s[j] != '\n',
        k < s.len() ==> s[k] == '\n',
    ensures
        k == s.len() && s.len() == 0 ==> spec_lines(s) == Seq::<Seq<char>>::empty(),
        k == s.len() && s.len() > 0 ==> spec_lines(s) == seq![s],
        k < s.len() ==> spec_lines(s) == seq![spec_strip_cr(s.take(k))] + spec_lines(
            s.skip(k + 1),
        ),
    decreases k,
{
    if k == 0 {
        if s.len() > 0 {
            assert(s[0] == '\n');
            assert(spec_strip_cr(s.take(0)) =~= Seq::<char>::empty());
            assert(spec_lines(s) =~= seq![spec_strip_cr(s.take(0))] + spec_lines(s.skip(1)));
        }
    } else {
        assert(s[0] != '\n');
        if s[0] == '\r' && s.len() >= 2 && s[1] == '\n' {
            assert(k == 1);
            assert(spec_strip_cr(s.take(1)) =~= Seq::<char>::empty());
            assert(spec_lines(s) =~= seq![spec_strip_cr(s.take(1))] + spec_lines(s.skip(2)));
        } else {
            let tail = s.skip(1);
            lemma_lines_head(tail, k - 1);
            let rest = spec_lines(tail);
            if k == s.len() {
                if s.len() == 1 {
                    assert(seq![s[0]] =~= s);
                    assert(spec_lines(s) =~~= seq![s]);
                } else {
                    assert(rest == seq![tail]);
                    assert(seq![s[0]] + tail =~= s);
                    assert(spec_lines(s) =~~= seq![s]);
                }
            } else {
                assert(rest == seq![spec_strip_cr(tail.take(k - 1))] + spec_lines(
                    tail.skip(k),
                ));
                assert(rest.len() > 0);
                assert(tail.skip(k) =~= s.skip(k + 1));
                assert(tail.take(k - 1) =~= s.take(k).skip(1));
                let t = tail.take(k - 1);
                if k == 1 {
                    // the "\r\n" shape was handled above, so here s[0] != '\r'
                    // whenever the first line is exactly one character long
                    assert(seq![s[0]] + spec_strip_cr(t) =~= spec_strip_cr(s.take(k)));
                } else {
                    assert(t.len() > 0);
                    assert(s.take(k).len() > 0);
                    assert(s.take(k)[k - 1] == t[k - 2]);
                    if t[t.len() - 1] == '\r' {
                        assert(seq![s[0]] + t.take(t.len() - 1) =~= s.take(k).take(k - 1));
                        assert(seq![s[0]] + spec_strip_cr(t) =~= spec_strip_cr(s.take(k)));
                    } else {
                        assert(seq![s[0]] + t =~= s.take(k));
                        assert(seq![s[0]] + spec_strip_cr(t) =~= spec_strip_cr(s.take(k)));
                    }
                }
                assert(spec_lines(s) =~= seq![spec_strip_cr(s.take(k))] + spec_lines(
                    s.skip(k + 1),
                ));
            }
        }
    }
}

/// The lines of `s`, as `str::lines` yields them.
pub fn split_lines(s: &str) -> (r: Vec<String>)
    ensures
        r.deep_view() == spec_lines(s@),
{
    proof {
        reveal_strlit("\n");
        assert("\n"@ =~= seq!['\n']);
    }
    let n = s.unicode_len();
    let mut out: Vec<String> = Vec::new();
    let mut pos: usize = 0;
    proof {
        assert(out.deep_view() =~= Seq::<Seq<char>>::empty());
        assert(s@.skip(0) =~= s@);
        assert(out.deep_view() + spec_lines(s@) =~= spec_lines(s@));
    }
    while pos < n
        invariant
            0 <= pos <= n == s@.len(),
            "\n"@ == seq!['\n'],
            out.deep_view() + spec_lines(s@.skip(pos as int)) == spec_lines(s@),
        decreases n - pos,
    {
        let ghost pre = out.deep_view();
        let ghost suffix = s@.skip(pos as int);
        match find_from(s, "\n", pos) {
            Some(k) => {
                proof {
                    lemma_find_from_some(s@, "\n"@, pos as int, k as int);
                    assert(s@[k as int] == '\n') by {
                        assert(s@.subrange(k as int, k + 1)[0] == s@[k as int]);
                    }
                    assert forall|j: int| pos <= j < k implies s@[j] != '\n' by {
                        if s@[j] == '\n' {
                            assert(s@.subrange(j, j + 1) =~= "\n"@);
                            assert(spec_match_at(s@, "\n"@, j));
                        }
                    }
                    lemma_lines_head(suffix, k - pos);
                    assert(forall|j: int| 0 <= j < k - pos ==> suffix[j] != '\n');
                    assert(suffix.skip(k - pos + 1) =~= s@.skip(k + 1));
                }
                let line_end: usize = if k > pos && s.get_char(k - 1) == '\r' {
                    k - 1
                } else {
                    k
                };
                let line = s.substring_char(pos, line_end).to_owned();
                proof {
                    assert(line@ =~= spec_strip_cr(suffix.take(k - pos))) by {
                        assert(suffix.take(k - pos) =~= s@.subrange(pos as int, k as int));
                        if k > pos && s@[k - 1] == '\r' {
                            assert(suffix.take(k - pos).take(k - pos - 1) =~= s@.subrange(
                                pos as int,
                                k - 1,
                            ));
                        }
                    }
                }
                out.push(line);
                proof {
                    assert(out.deep_view() =~= pre.push(line@));
                    assert(pre.push(line@) + spec_lines(s@.skip(k + 1)) =~= pre + (seq![line@]
                        + spec_lines(s@.skip(k + 1))));
                }
                pos = k + 1;
            },
            None => {
                proof {
                    lemma_find_from_none(s@, "\n"@, pos as int);
                    assert forall|j: int| 0 <= j < suffix.len() implies suffix[j] != '\n' by {
                        if suffix[j] == '\n' {
                            assert(s@.subrange(pos + j, pos + j + 1) =~= "\n"@);
                            assert(spec_match_at(s@, "\n"@, pos + j));
                        }
                    }
                    lemma_lines_head(suffix, suffix.len() as int);
                }
                let line = s.substring_char(pos, n).to_owned();
                proof {
                    assert(line@ =~= suffix);
                }
                out.push(line);
                proof {
                    assert(out.deep_view() =~= pre.push(line@));
                    assert(pre.push(line@) + spec_lines(s@.skip(n as int)) =~= pre + seq![
                        line@,
                    ]);
                    assert(s@.skip(n as int).len() == 0);
                }
                pos = n;
            },
        }
    }
    proof {
        assert(s@.skip(n as int).len() == 0);
        assert(out.deep_view() + spec_lines(s@.skip(n as int)) =~= out.deep_view());
    }
    out
}

pub fn find_char(s: &str, c: char, from: usize) -> (r: Option<usize>)
    requires
        from <= s@.len(),
    ensures
        match r {
            Some(i) => from <= i < s@.len() && s@[i as int] == c && forall|j: int|
                from <= j < i ==> s@[j] != c,
            None => forall|j: int| from <= j < s@.len() ==> s@[j] != c,
        },
{
    let n = s.unicode_len();
    let mut i: usize = from;
    while i < n
        invariant
            from <= i <= n == s@.len(),
            forall|j: int| from <= j < i ==> s@[j] != c,
        decreases n - i,
    {
        if s.get_char(i) == c {
            return Some(i);
        }
        i += 1;
    }
    None
}

pub fn str_eq(a: &str, b: &str) -> (r: bool)
    ensures
        r == (a@ == b@),
{
    let an = a.unicode_len();
    let bn = b.unicode_len();
    if an != bn {
        return false;
    }
    let r = match_at(a, b, 0);
    proof {
        if r {
            assert(a@.subrange(0, b@.len() as int) =~= a@);
        } else {
            if a@ == b@ {
                assert(a@.subrange(0, b@.len() as int) =~= b@);
            }
        }
    }
    r
}

/// Splitting at every occurrence of `sep`, as `str::split` yields it:
/// empty segments are kept, and the result is never empty.
pub open spec fn spec_split_char(s: Seq<char>, sep: char) -> Seq<Seq<char>>
    decreases s.len(),
{
    if s.len() == 0 {
        seq![Seq::<char>::empty()]
    } else if s[0] == sep {
        seq![Seq::<char>::empty()] + spec_split_char(s.skip(1), sep)
    } else {
        let rest = spec_split_char(s.skip(1), sep);
        seq![seq![s[0]] + rest[0]] + rest.skip(1)
    }
}

pub proof fn lemma_split_char_nonempty(s: Seq<char>, sep: char)
    ensures
        spec_split_char(s, sep).len() >= 1,
    decreases s.len(),
{
    if s.len() > 0 {
        lemma_split_char_nonempty(s.skip(1), sep);
    }
}

/// Peels the first segment off `spec_split_char`: `k` is the position of the
/// first separator (or the length when there is none).
pub proof fn lemma_split_char_head(s: Seq<char>, sep: char, k: int)
    requires
        0 <= k <= s.len(),
        forall|j: int| 0 <= j < k ==> s[j] != sep,
        k < s.len() ==> s[k] == sep,
    ensures
        k == s.len() ==> spec_split_char(s, sep) == seq![s],
        k < s.len() ==> spec_split_char(s, sep) == seq![s.take(k)] + spec_split_char(
            s.skip(k + 1),
            sep,
        ),
    decreases k,
{
    lemma_split_char_nonempty(s, sep);
    if k == 0 {
        if k == s.len() {
            assert(spec_split_char(s, sep) =~~= seq![s]);
        } else {
            assert(s.take(0) =~= Seq::<char>::empty());
            assert(spec_split_char(s, sep) =~~= seq![s.take(0)] + spec_split_char(
                s.skip(1),
                sep,
            ));
        }
    } else {
        let tail = s.skip(1);
        lemma_split_char_head(tail, sep, k - 1);
        lemma_split_char_nonempty(tail, sep);
        let rest = spec_split_char(tail, sep);
        if k == s.len() {
            assert(rest == seq![tail]);
            assert(seq![s[0]] + tail =~= s);
            assert(spec_split_char(s, sep) =~~= seq![s]);
        } else {
            assert(rest == seq![tail.take(k - 1)] + spec_split_char(tail.skip(k), sep));
            assert(seq![s[0]] + tail.take(k - 1) =~= s.take(k));
            assert(tail.skip(k) =~= s.skip(k + 1));
            assert(spec_split_char(s, sep) =~~= seq![s.take(k)] + spec_split_char(
                s.skip(k + 1),
                sep,
            ));
        }
    }
}

/// The segments of `s` between occurrences of `sep`.
pub fn split_char(s: &str, sep: char) -> (r: Vec<String>)
    ensures
        r.deep_view() == spec_split_char(s@, sep),
{
    let n = s.unicode_len();
    let mut out: Vec<String> = Vec::new();
    let mut pos: usize = 0;
    proof {
        assert(out.deep_view() =~= Seq::<Seq<char>>::empty());
        assert(s@.skip(0) =~= s@);
        assert(out.deep_view() + spec_split_char(s@, sep) =~= spec_split_char(s@, sep));
    }
    loop
        invariant
            0 <= pos <= n == s@.len(),
            out.deep_view() + spec_split_char(s@.skip(pos as int), sep) == spec_split_char(
                s@,
                sep,
            ),
        decreases n + 1 - pos,
    {
        let ghost pre = out.deep_view();
        let ghost suffix = s@.skip(pos as int);
        match find_char(s, sep, pos) {
            Some(k) => {
                proof {
                    lemma_split_char_head(suffix, sep, k - pos);
                    assert(suffix.take(k - pos) =~= s@.subrange(pos as int, k as int));
                    assert(suffix.skip(k - pos + 1) =~= s@.skip(k + 1));
                }
                let seg = s.substring_char(pos, k).to_owned();
                out.push(seg);
                proof {
                    assert(out.deep_view() =~= pre.push(seg@));
                    assert(pre.push(seg@) + spec_split_char(s@.skip(k + 1), sep) =~= pre + (
                    seq![seg@] + spec_split_char(s@.skip(k + 1), sep)));
                }
                pos = k + 1;
            },
            None => {
                proof {
                    lemma_split_char_head(suffix, sep, suffix.len() as int);
                }
                let seg = s.substring_char(pos, n).to_owned();
                proof {
                    assert(seg@ =~= suffix);
                }
                out.push(seg);
                proof {
                    assert(out.deep_view() =~= pre.push(seg@));
                    assert(pre.push(seg@) =~= pre + seq![seg@]);
                }
                return out;
            },
        }
    }
}

/// ASCII lowercasing of a whole string.
pub open spec fn spec_lower_seq(s: Seq<char>) -> Seq<char> {
    s.map_values(|c: char| spec_lower(c))
}

pub fn lower_str(s: &str) -> (r: String)
    ensures
        r@ == spec_lower_seq(s@),
{
    let n = s.unicode_len();
    let mut out = String::new();
    let mut i: usize = 0;
    while i < n
        invariant
            0 <= i <= n == s@.len(),
            out@ == s@.take(i as int).map_values(|c: char| spec_lower(c)),
        decreases n - i,
    {
        push_char(&mut out, lower(s.get_char(i)));
        proof {
            assert(s@.take(i + 1).map_values(|c: char| spec_lower(c)) =~= s@.take(
                i as int,
            ).map_values(|c: char| spec_lower(c)).push(spec_lower(s@[i as int])));
        }
        i += 1;
    }
    proof {
        assert(s@.take(n as int) =~= s@);
    }
    out
}

pub fn repeat_char(c: char, n: usize) -> (r: String)
    ensures
        r@ == Seq::new(n as nat, |i: int| c),
{
    let mut out = String::new();
    let mut i: usize = 0;
    while i < n
        invariant
            0 <= i <= n,
            out@ == Seq::new(i as nat, |j: int| c),
        decreases n - i,
    {
        push_char(&mut out, c);
        proof {
            assert(Seq::new((i + 1) as nat, |j: int| c) =~= Seq::new(i as nat, |j: int| c).push(
                c,
            ));
        }
        i += 1;
    }
    out
}

pub open spec fn spec_digit_char(d: int) -> char {
    if d == 0 {
        '0'
    } else if d == 1 {
        '1'
    } else if d == 2 {
        '2'
    } else if d == 3 {
        '3'
    } else if d == 4 {
        '4'
    } else if d == 5 {
        '5'
    } else if d == 6 {
        '6'
    } else if d == 7 {
        '7'
    } else if d == 8 {
        '8'
    } else {
        '9'
    }
}

/// Decimal rendering of a natural number, most significant digit first.
pub open spec fn spec_digits(n: nat) -> Seq<char>
    decreases n,
{
    if n < 10 {
        seq![spec_digit_char(n as int)]
    } else {
        spec_digits(n / 10) + seq![spec_digit_char((n % 10) as int)]
    }
}

fn digit_char(d: usize) -> (r: char)
    requires
        d < 10,
    ensures
        r == spec_digit_char(d as int),
{
    if d == 0 {
        '0'
    } else if d == 1 {
        '1'
    } else if d == 2 {
        '2'
    } else if d == 3 {
        '3'
    } else if d == 4 {
        '4'
    } else if d == 5 {
        '5'
    } else if d == 6 {
        '6'
    } else if d == 7 {
        '7'
    } else if d == 8 {
        '8'
    } else {
        '9'
    }
}

pub fn usize_to_string(n: usize) -> (r: String)
    ensures
        r@ == spec_digits(n as nat),
    decreases n,
{
    if n < 10 {
        let mut out = String::new();
        push_char(&mut out, digit_char(n));
        proof {
            assert(out@ =~= seq![spec_digit_char(n as int)]);
        }
        out
    } else {
        let mut out = usize_to_string(n / 10);
        push_char(&mut out, digit_char(n % 10));
        proof {
            assert(out@ =~= spec_digits((n / 10) as nat) + seq![
                spec_digit_char((n % 10) as int),
            ]);
        }
        out
    }
}

proof fn lemma_digits_len(n: nat)
    ensures
        spec_digits(n).len() >= 1,
        n >= 10 ==> spec_digits(n).len() >= 2,
    decreases n,
{
    if n >= 10 {
        lemma_digits_len(n / 10);
    }
}

proof fn lemma_digit_char_inj(x: int, y: int)
    requires
        0 <= x < 10,
        0 <= y < 10,
        spec_digit_char(x) == spec_digit_char(y),
    ensures
        x == y,
{
    assert('0' != '1' && '0' != '2' && '0' != '3' && '0' != '4' && '0' != '5' && '0' != '6'
        && '0' != '7' && '0' != '8' && '0' != '9' && '1' != '2' && '1' != '3' && '1' != '4'
        && '1' != '5' && '1' != '6' && '1' != '7' && '1' != '8' && '1' != '9' && '2' != '3'
        && '2' != '4' && '2' != '5' && '2' != '6' && '2' != '7' && '2' != '8' && '2' != '9'
        && '3' != '4' && '3' != '5' && '3' != '6' && '3' != '7' && '3' != '8' && '3' != '9'
        && '4' != '5' && '4' != '6' && '4' != '7' && '4' != '8' && '4' != '9' && '5' != '6'
        && '5' != '7' && '5' != '8' && '5' != '9' && '6' != '7' && '6' != '8' && '6' != '9'
        && '7' != '8' && '7' != '9' && '8' != '9');
}

/// Distinct numbers render as distinct digit strings.
pub proof fn lemma_digits_injective(a: nat, b: nat)
    requires
        spec_digits(a) == spec_digits(b),
    ensures
        a == b,
    decreases a,
{
    lemma_digits_len(a);
    lemma_digits_len(b);
    if a < 10 && b < 10 {
        assert(spec_digits(a)[0] == spec_digit_char(a as int));
        assert(spec_digits(b)[0] == spec_digit_char(b as int));
        lemma_digit_char_inj(a as int, b as int);
    } else if a >= 10 && b >= 10 {
        let da = spec_digits(a);
        let la = spec_digits(a / 10);
        let lb = spec_digits(b / 10);
        lemma_digits_len(a / 10);
        lemma_digits_len(b / 10);
        assert(da.last() == spec_digit_char((a % 10) as int));
        assert(da.last() == spec_digit_char((b % 10) as int));
        lemma_digit_char_inj((a % 10) as int, (b % 10) as int);
        assert(la.len() + 1 == da.len() && lb.len() + 1 == da.len());
        assert(la =~= da.take(da.len() - 1));
        assert(lb =~= da.take(da.len() - 1));
        lemma_digits_injective(a / 10, b / 10);
    } else if a < 10 {
        assert(spec_digits(b).len() >= 2);
    } else {
        assert(spec_digits(a).len() >= 2);
    }
}

/// Every occurrence of `pat` replaced by `rep`, leftmost first and without
/// overlap, as `str::replace` does.
pub open spec fn spec_replace_all(s: Seq<char>, pat: Seq<char>, rep: Seq<char>) -> Seq<char>
    decreases s.len(),
{
    if pat.len() == 0 || s.len() < pat.len() {
        s
    } else if spec_starts_with(s, pat) {
        rep + spec_replace_all(s.skip(pat.len() as int), pat, rep)
    } else {
        seq![s[0]] + spec_replace_all(s.skip(1), pat, rep)
    }
}

/// How many non-overlapping occurrences of `pat` the text holds.
pub open spec fn spec_count_matches(s: Seq<char>, pat: Seq<char>) -> nat
    decreases s.len(),
{
    if pat.len() == 0 || s.len() < pat.len() {
        0
    } else if spec_starts_with(s, pat) {
        1 + spec_count_matches(s.skip(pat.len() as int), pat)
    } else {
        spec_count_matches(s.skip(1), pat)
    }
}

proof fn lemma_count_le_len(s: Seq<char>, pat: Seq<char>)
    ensures
        spec_count_matches(s, pat) <= s.len(),
    decreases s.len(),
{
    if !(pat.len() == 0 || s.len() < pat.len()) {
        if spec_starts_with(s, pat) {
            lemma_count_le_len(s.skip(pat.len() as int), pat);
        } else {
            lemma_count_le_len(s.skip(1), pat);
        }
    }
}

proof fn lemma_match_at_shift(t: Seq<char>, pat: Seq<char>, d: int)
    requires
        0 <= d <= t.len(),
    ensures
        forall|j: int| 0 <= j ==> (spec_match_at(t.skip(d), pat, j) <==> spec_match_at(
            t,
            pat,
            j + d,
        )),
{
    assert forall|j: int| 0 <= j implies (spec_match_at(t.skip(d), pat, j) <==> spec_match_at(
        t,
        pat,
        j + d,
    )) by {
        if j + pat.len() <= t.skip(d).len() {
            assert(t.skip(d).subrange(j, j + pat.len()) =~= t.subrange(
                j + d,
                j + d + pat.len(),
            ));
        }
    }
}

proof fn lemma_replace_head(t: Seq<char>, pat: Seq<char>, rep: Seq<char>, k: int)
    requires
        pat.len() > 0,
        spec_match_at(t, pat, k),
        forall|j: int| 0 <= j < k ==> !spec_match_at(t, pat, j),
    ensures
        spec_replace_all(t, pat, rep) == t.take(k) + rep + spec_replace_all(
            t.skip(k + pat.len()),
            pat,
            rep,
        ),
        spec_count_matches(t, pat) == 1 + spec_count_matches(t.skip(k + pat.len()), pat),
    decreases k,
{
    if k == 0 {
        assert(t.take(0) =~= Seq::<char>::empty());
        assert(t.take(0) + rep + spec_replace_all(t.skip(pat.len() as int), pat, rep) =~= rep
            + spec_replace_all(t.skip(pat.len() as int), pat, rep));
    } else {
        assert(!spec_match_at(t, pat, 0));
        lemma_match_at_shift(t, pat, 1);
        lemma_replace_head(t.skip(1), pat, rep, k - 1);
        assert(t.skip(1).skip(k - 1 + pat.len()) =~= t.skip(k + pat.len()));
        assert(seq![t[0]] + (t.skip(1).take(k - 1) + rep + spec_replace_all(
            t.skip(k + pat.len()),
            pat,
            rep,
        )) =~= t.take(k) + rep + spec_replace_all(t.skip(k + pat.len()), pat, rep));
    }
}

proof fn lemma_replace_none(t: Seq<char>, pat: Seq<char>, rep: Seq<char>)
    requires
        pat.len() > 0,
        forall|j: int| 0 <= j ==> !spec_match_at(t, pat, j),
    ensures
        spec_replace_all(t, pat, rep) == t,
        spec_count_matches(t, pat) == 0,
    decreases t.len(),
{
    if t.len() >= pat.len() {
        assert(!spec_match_at(t, pat, 0));
        lemma_match_at_shift(t, pat, 1);
        lemma_replace_none(t.skip(1), pat, rep);
        assert(seq![t[0]] + t.skip(1) =~= t);
    }
}

/// Every occurrence of `pat` in `s` replaced by `rep`.
pub fn replace_all(s: &str, pat: &str, rep: &str) -> (r: String)
    ensures
        r@ == spec_replace_all(s@, pat@, rep@),
{
    let n = s.unicode_len();
    let pn = pat.unicode_len();
    let mut out = String::new();
    if pn == 0 {
        out.append(s);
        return out;
    }
    let mut pos: usize = 0;
    proof {
        assert(s@.skip(0) =~= s@);
        assert(out@ + spec_replace_all(s@, pat@, rep@) =~= spec_replace_all(s@, pat@, rep@));
    }
    loop
        invariant
            0 <= pos <= n == s@.len(),
            1 <= pn == pat@.len(),
            out@ + spec_replace_all(s@.skip(pos as int), pat@, rep@) == spec_replace_all(
                s@,
                pat@,
                rep@,
            ),
        decreases n - pos,
    {
        let ghost pre = out@;
        let ghost suffix = s@.skip(pos as int);
        match find_from(s, pat, pos) {
            Some(k) => {
                proof {
                    lemma_find_from_some(s@, pat@, pos as int, k as int);
                    lemma_match_at_shift(s@, pat@, pos as int);
                    lemma_replace_head(suffix, pat@, rep@, k - pos);
                    assert(suffix.take(k - pos) =~= s@.subrange(pos as int, k as int));
                    assert(suffix.skip(k - pos + pat@.len()) =~= s@.skip(k + pat@.len()));
                }
                let piece = s.substring_char(pos, k);
                out.append(piece);
                out.append(rep);
                proof {
                    assert(out@ =~= pre + (suffix.take(k - pos) + rep@));
                    assert(pre + (suffix.take(k - pos) + rep@) + spec_replace_all(
                        s@.skip(k + pat@.len()),
                        pat@,
                        rep@,
                    ) =~= pre + (suffix.take(k - pos) + rep@ + spec_replace_all(
                        s@.skip(k + pat@.len()),
                        pat@,
                        rep@,
                    )));
                }
                pos = k + pn;
            },
            None => {
                proof {
                    lemma_find_from_none(s@, pat@, pos as int);
                    lemma_match_at_shift(s@, pat@, pos as int);
                    lemma_replace_none(suffix, pat@, rep@);
                }
                let piece = s.substring_char(pos, n);
                out.append(piece);
                proof {
                    assert(piece@ =~= suffix);
                }
                return out;
            },
        }
    }
}

/// How many non-overlapping occurrences of `pat` the text holds.
pub fn count_matches(s: &str, pat: &str) -> (r: usize)
    ensures
        r == spec_count_matches(s@, pat@),
{
    let n = s.unicode_len();
    let pn = pat.unicode_len();
    if pn == 0 {
        return 0;
    }
    let mut count: usize = 0;
    let mut pos: usize = 0;
    proof {
        assert(s@.skip(0) =~= s@);
        lemma_count_le_len(s@, pat@);
    }
    loop
        invariant
            0 <= pos <= n == s@.len(),
            1 <= pn == pat@.len(),
            count + spec_count_matches(s@.skip(pos as int), pat@) == spec_count_matches(
                s@,
                pat@,
            ),
            spec_count_matches(s@, pat@) <= n,
        decreases n - pos,
    {
        let ghost suffix = s@.skip(pos as int);
        match find_from(s, pat, pos) {
            Some(k) => {
                proof {
                    lemma_find_from_some(s@, pat@, pos as int, k as int);
                    lemma_match_at_shift(s@, pat@, pos as int);
                    lemma_replace_head(suffix, pat@, Seq::<char>::empty(), k - pos);
                    assert(suffix.skip(k - pos + pat@.len()) =~= s@.skip(k + pat@.len()));
                }
                count += 1;
                pos = k + pn;
            },
            None => {
                proof {
                    lemma_find_from_none(s@, pat@, pos as int);
                    lemma_match_at_shift(s@, pat@, pos as int);
                    lemma_replace_none(suffix, pat@, Seq::<char>::empty());
                }
                return count;
            },
        }
    }
}

/// The number of leading '#' characters.
pub open spec fn spec_heading_level(t: Seq<char>) -> nat
    decreases t.len(),
{
    if t.len() == 0 || t[0] != '#' {
        0
    } else {
        1 + spec_heading_level(t.skip(1))
    }
}

/// A markdown heading shape: a leading '#' run followed by whitespace or the
/// end of the line.
pub open spec fn spec_is_heading(t: Seq<char>) -> bool {
    let l = spec_heading_level(t);
    t.len() > 0 && t[0] == '#' && (l >= t.len() || spec_is_space(t[l as int]))
}

pub proof fn lemma_heading_level_bounds(t: Seq<char>)
    ensures
        spec_heading_level(t) <= t.len(),
        forall|j: int| 0 <= j < spec_heading_level(t) ==> t[j] == '#',
        spec_heading_level(t) < t.len() ==> t[spec_heading_level(t) as int] != '#',
    decreases t.len(),
{
    if t.len() > 0 && t[0] == '#' {
        lemma_heading_level_bounds(t.skip(1));
        assert forall|j: int| 0 <= j < spec_heading_level(t) implies t[j] == '#' by {
            if j > 0 {
                assert(t.skip(1)[j - 1] == t[j]);
            }
        }
    }
}

proof fn lemma_heading_level_from(t: Seq<char>, i: int)
    requires
        0 <= i <= t.len(),
        forall|j: int| 0 <= j < i ==> t[j] == '#',
        i < t.len() ==> t[i] != '#',
    ensures
        spec_heading_level(t) == i,
    decreases i,
{
    if i == 0 {
    } else {
        lemma_heading_level_from(t.skip(1), i - 1);
    }
}

/// The number of leading '#' characters of `t`.
pub fn heading_level(t: &str) -> (r: usize)
    ensures
        r == spec_heading_level(t@),
{
    let n = t.unicode_len();
    let mut i: usize = 0;
    while i < n && t.get_char(i) == '#'
        invariant
            0 <= i <= n == t@.len(),
            forall|j: int| 0 <= j < i ==> t@[j] == '#',
        decreases n - i,
    {
        i += 1;
    }
    proof {
        lemma_heading_level_from(t@, i as int);
    }
    i
}

/// Whether `t` (already trimmed) is a heading line, and its level.
pub fn heading_shape(t: &str) -> (r: (bool, usize))
    ensures
        r.0 == spec_is_heading(t@),
        r.1 == spec_heading_level(t@),
{
    let n = t.unicode_len();
    let l = heading_level(t);
    if n == 0 || t.get_char(0) != '#' {
        (false, l)
    } else if l >= n {
        (true, l)
    } else {
        proof {
            lemma_heading_level_bounds(t@);
        }
        (is_space(t.get_char(l)), l)
    }
}

/// The lines from `i` on, each closed with a newline.
pub open spec fn spec_unlines(lines: Seq<Seq<char>>, i: int) -> Seq<char>
    decreases lines.len() - i,
{
    if i < 0 || i >= lines.len() {
        Seq::<char>::empty()
    } else {
        lines[i] + seq!['\n'] + spec_unlines(lines, i + 1)
    }
}

proof fn lemma_unlines_cons(x: Seq<char>, rest: Seq<Seq<char>>, i: int)
    requires
        0 <= i,
    ensures
        spec_unlines(seq![x] + rest, i + 1) == spec_unlines(rest, i),
    decreases rest.len() - i,
{
    let all = seq![x] + rest;
    if i < rest.len() {
        assert(all[i + 1] == rest[i]);
        lemma_unlines_cons(x, rest, i + 1);
    }
}

proof fn lemma_lines_empty_iff(s: Seq<char>)
    ensures
        spec_lines(s).len() == 0 <==> s.len() == 0,
{
}

/// Splitting into lines and rejoining each with a newline gives the text
/// back, provided it ends in a newline and holds no carriage returns.
pub proof fn lemma_unlines_of_lines(s: Seq<char>)
    requires
        forall|j: int| 0 <= j < s.len() ==> s[j] != '\r',
        s.len() > 0 ==> s[s.len() - 1] == '\n',
    ensures
        spec_unlines(spec_lines(s), 0) == s,
    decreases s.len(),
{
    if s.len() == 0 {
    } else if s[0] == '\n' {
        let tail = s.skip(1);
        lemma_unlines_of_lines(tail);
        lemma_unlines_cons(Seq::<char>::empty(), spec_lines(tail), 0);
        assert(spec_unlines(spec_lines(s), 0) =~= Seq::<char>::empty() + seq!['\n']
            + spec_unlines(spec_lines(tail), 0));
        assert(Seq::<char>::empty() + seq!['\n'] + tail =~= s);
    } else {
        let tail = s.skip(1);
        lemma_unlines_of_lines(tail);
        let rest = spec_lines(tail);
        lemma_lines_empty_iff(tail);
        if rest.len() == 0 {
            assert(s.len() == 1);
            assert(s[0] == '\n');
        } else {
            let y = seq![s[0]] + rest[0];
            assert(spec_lines(s) == seq![y] + rest.skip(1));
            lemma_unlines_cons(y, rest.skip(1), 0);
            assert(rest =~= seq![rest[0]] + rest.skip(1));
            lemma_unlines_cons(rest[0], rest.skip(1), 0);
            assert(spec_unlines(rest, 0) == rest[0] + seq!['\n'] + spec_unlines(
                rest.skip(1),
                0,
            ));
            assert(spec_unlines(spec_lines(s), 0) == y + seq!['\n'] + spec_unlines(
                rest.skip(1),
                0,
            ));
            assert(y + seq!['\n'] + spec_unlines(rest.skip(1), 0) =~= seq![s[0]] + (rest[0]
                + seq!['\n'] + spec_unlines(rest.skip(1), 0)));
            assert(seq![s[0]] + tail =~= s);
        }
    }
}

/// Relies on `alloc::string::String::push`: appends one character at the end.
#[verifier::external_body]
pub fn push_char(s: &mut String, c: char)
    ensures
        final(s)@ == old(s)@.push(c),
{
    s.push(c);
}

} // verus!
