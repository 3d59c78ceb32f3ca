//! Section extraction over rendered HTML: locates `<h2>...</h2>` pairs,
//! assigns counted identifiers, and records each section's character span.

use vstd::prelude::*;
use crate::slug::{slugify, spec_slugify};
use crate::text::{
    find_from, lemma_find_from_some, push_char, spec_digits, spec_find_from, usize_to_string,
};

verus! {

/// One second-level heading's span in a flat HTML string: `start` is the
/// character offset of its `<h2>` tag, `end` the start of the next section
/// (or the text's length for the last one).
#[derive(Debug, Clone)]
pub struct Section {
    pub id: String,
    pub title: String,
    pub start: usize,
    pub end: usize,
}

pub struct SectionView {
    pub id: Seq<char>,
    pub title: Seq<char>,
    pub start: int,
    pub end: int,
}

impl View for Section {
    type V = SectionView;

    open spec fn view(&self) -> SectionView {
        SectionView {
            id: self.id@,
            title: self.title@,
            start: self.start as int,
            end: self.end as int,
        }
    }
}

impl DeepView for Section {
    type V = SectionView;

    open spec fn deep_view(&self) -> SectionView {
        self.view()
    }
}

pub open spec fn spec_counts_of(counts: Seq<(Seq<char>, usize)>) -> Seq<(Seq<char>, int)> {
    counts.map_values(|e: (Seq<char>, usize)| (e.0, e.1 as int))
}

/// How many sections have already used this base slug.
pub open spec fn spec_count_of(counts: Seq<(Seq<char>, int)>, key: Seq<char>) -> int
    decreases counts.len(),
{
    if counts.len() == 0 {
        0
    } else if counts[0].0 == key {
        counts[0].1
    } else {
        spec_count_of(counts.skip(1), key)
    }
}

/// The count table with `key`'s entry raised by one (inserted at one when
/// new).
pub open spec fn spec_bump(counts: Seq<(Seq<char>, int)>, key: Seq<char>) -> Seq<
    (Seq<char>, int),
>
    decreases counts.len(),
{
    if counts.len() == 0 {
        seq![(key, 1int)]
    } else if counts[0].0 == key {
        seq![(counts[0].0, counts[0].1 + 1)] + counts.skip(1)
    } else {
        seq![counts[0]] + spec_bump(counts.skip(1), key)
    }
}

proof fn lemma_bump_shape(counts: Seq<(Seq<char>, int)>, key: Seq<char>)
    ensures
        counts.len() <= spec_bump(counts, key).len() <= counts.len() + 1,
        forall|j: int|
            0 <= j < counts.len() ==> ((#[trigger] spec_bump(counts, key)[j]) == counts[j] || (
            spec_bump(counts, key)[j].0 == counts[j].0 && spec_bump(counts, key)[j].1
                == counts[j].1 + 1)),
        spec_bump(counts, key).len() == counts.len() + 1 ==> spec_bump(counts, key)[
            counts.len() as int
        ] == (key, 1int),
    decreases counts.len(),
{
    if counts.len() > 0 && counts[0].0 != key {
        lemma_bump_shape(counts.skip(1), key);
        assert forall|j: int| 0 <= j < counts.len() implies ((#[trigger] spec_bump(
            counts,
            key,
        )[j]) == counts[j] || (spec_bump(counts, key)[j].0 == counts[j].0 && spec_bump(
            counts,
            key,
        )[j].1 == counts[j].1 + 1)) by {
            if j > 0 {
                assert(spec_bump(counts, key)[j] == spec_bump(counts.skip(1), key)[j - 1]);
                assert(counts.skip(1)[j - 1] == counts[j]);
            }
        }
    }
}

/// The identifier a section gets: the bare slug for the first use of a base,
/// then slug-1, slug-2, ... for later uses.
pub open spec fn spec_counted_id(base: Seq<char>, count: int) -> Seq<char> {
    if count == 0 {
        base
    } else {
        base + seq!['-'] + spec_digits(count as nat)
    }
}

/// The `(id, title, start)` triples of every `<h2>...</h2>` pair from `pos`
/// on, scanning left to right.
pub open spec fn spec_section_triples(
    html: Seq<char>,
    pos: int,
    counts: Seq<(Seq<char>, int)>,
) -> Seq<(Seq<char>, Seq<char>, int)>
    decreases html.len() - pos,
{
    if !(0 <= pos <= html.len()) {
        Seq::<(Seq<char>, Seq<char>, int)>::empty()
    } else {
        match spec_find_from(html, "<h2>"@, pos) {
            Option::None => Seq::<(Seq<char>, Seq<char>, int)>::empty(),
            Option::Some(h) => match spec_find_from(html, "</h2>"@, h) {
                Option::None => Seq::<(Seq<char>, Seq<char>, int)>::empty(),
                Option::Some(e) => if pos <= h && h + 4 <= e && e + 5 <= html.len() {
                    let title = html.subrange(h + 4, e);
                    let base = spec_slugify(title);
                    let c = spec_count_of(counts, base);
                    seq![(spec_counted_id(base, c), title, h)] + spec_section_triples(
                        html,
                        e + 5,
                        spec_bump(counts, base),
                    )
                } else {
                    Seq::<(Seq<char>, Seq<char>, int)>::empty()
                },
            },
        }
    }
}

/// The extracted sections: the triples with each `end` set to the next
/// section's start, the last running to the text's end.
pub open spec fn spec_extract_sections(html: Seq<char>) -> Seq<SectionView> {
    let triples = spec_section_triples(html, 0, Seq::<(Seq<char>, int)>::empty());
    Seq::new(
        triples.len(),
        |i: int|
            SectionView {
                id: triples[i].0,
                title: triples[i].1,
                start: triples[i].2,
                end: if i + 1 < triples.len() {
                    triples[i + 1].2
                } else {
                    html.len() as int
                },
            },
    )
}

fn count_and_bump(counts: &mut Vec<(String, usize)>, key: &String) -> (r: usize)
    requires
        forall|j: int|
            0 <= j < old(counts)@.len() ==> (#[trigger] old(counts)@[j]).1 < usize::MAX,
    ensures
        r as int == spec_count_of(spec_counts_of(old(counts).deep_view()), key@),
        spec_counts_of(final(counts).deep_view()) == spec_bump(
            spec_counts_of(old(counts).deep_view()),
            key@,
        ),
{
    let ghost cdv = spec_counts_of(counts.deep_view());
    let ghost bumped = spec_bump(cdv, key@);
    let mut out: Vec<(String, usize)> = Vec::new();
    let mut found: Option<usize> = None;
    let mut i: usize = 0;
    proof {
        assert(counts.deep_view().len() == counts@.len());
        assert(cdv.skip(0) =~= cdv);
        assert(bumped.skip(0) =~= bumped);
        assert(spec_counts_of(out.deep_view()) =~= bumped.take(0));
        lemma_bump_shape(cdv, key@);
    }
    while i < counts.len()
        invariant
            0 <= i <= counts@.len(),
            cdv == spec_counts_of(counts.deep_view()),
            cdv.len() == counts@.len(),
            bumped == spec_bump(cdv, key@),
            cdv.len() <= bumped.len() <= cdv.len() + 1,
            forall|j: int| 0 <= j < counts@.len() ==> (#[trigger] counts@[j]).1 < usize::MAX,
            forall|j: int| 0 <= j < counts@.len() ==> cdv[j].1 == counts@[j].1,
            spec_counts_of(out.deep_view()) == bumped.take(i as int),
            match found {
                Some(c) => {
                    &&& c as int == spec_count_of(cdv, key@)
                    &&& bumped.skip(i as int) =~= cdv.skip(i as int)
                },
                None => {
                    &&& spec_count_of(cdv.skip(i as int), key@) == spec_count_of(cdv, key@)
                    &&& bumped.skip(i as int) =~= spec_bump(cdv.skip(i as int), key@)
                },
            },
        decreases counts@.len() - i,
    {
        let ghost pre = spec_counts_of(out.deep_view());
        proof {
            assert(counts[i as int]@.0 == counts.deep_view()[i as int].0);
            assert(cdv.skip(i as int)[0] == cdv[i as int]);
            assert(cdv.skip(i as int).skip(1) =~= cdv.skip(i + 1));
        }
        let is_match = match found {
            None => crate::text::str_eq(counts[i].0.as_str(), key.as_str()),
            Some(_) => false,
        };
        if is_match {
            let c = counts[i].1;
            out.push((counts[i].0.clone(), c + 1));
            found = Some(c);
            proof {
                assert(spec_counts_of(out.deep_view()) =~= pre.push(
                    (cdv[i as int].0, cdv[i as int].1 + 1),
                ));
                assert(spec_bump(cdv.skip(i as int), key@) == seq![
                    (cdv[i as int].0, cdv[i as int].1 + 1),
                ] + cdv.skip(i + 1));
                assert(bumped.skip(i as int)[0] == bumped[i as int]);
                assert(bumped[i as int] == (cdv[i as int].0, cdv[i as int].1 + 1));
                assert(bumped.take(i + 1) =~= bumped.take(i as int).push(bumped[i as int]));
                assert(spec_counts_of(out.deep_view()) =~= bumped.take(i + 1));
                assert(bumped.skip(i as int).skip(1) =~= bumped.skip(i + 1));
                assert(bumped.skip(i + 1) =~= cdv.skip(i + 1));
            }
        } else {
            out.push((counts[i].0.clone(), counts[i].1));
            proof {
                assert(spec_counts_of(out.deep_view()) =~= pre.push(cdv[i as int]));
                match found {
                    Some(_) => {
                        assert(bumped.skip(i as int)[0] == bumped[i as int]);
                        assert(bumped[i as int] == cdv[i as int]);
                        assert(bumped.take(i + 1) =~= bumped.take(i as int).push(
                            bumped[i as int],
                        ));
                        assert(bumped.skip(i as int).skip(1) =~= bumped.skip(i + 1));
                        assert(bumped.skip(i + 1) =~= cdv.skip(i + 1));
                    },
                    None => {
                        assert(spec_bump(cdv.skip(i as int), key@) == seq![cdv[i as int]]
                            + spec_bump(cdv.skip(i + 1), key@));
                        assert(bumped.skip(i as int)[0] == bumped[i as int]);
                        assert(bumped[i as int] == cdv[i as int]);
                        assert(bumped.take(i + 1) =~= bumped.take(i as int).push(
                            bumped[i as int],
                        ));
                        assert(bumped.skip(i as int).skip(1) =~= bumped.skip(i + 1));
                        assert(bumped.skip(i + 1) =~= spec_bump(cdv.skip(i + 1), key@));
                    },
                }
            }
        }
        i += 1;
    }
    let n = counts.len();
    match found {
        Some(c) => {
            proof {
                assert(bumped.skip(n as int) =~= cdv.skip(n as int));
                assert(cdv.skip(n as int).len() == 0);
                assert(spec_counts_of(out.deep_view()) =~= bumped);
            }
            *counts = out;
            c
        },
        None => {
            proof {
                assert(cdv.skip(n as int).len() == 0);
                assert(spec_count_of(cdv, key@) == 0);
                assert(bumped.skip(n as int) =~= spec_bump(cdv.skip(n as int), key@));
                assert(spec_bump(cdv.skip(n as int), key@) =~= seq![(key@, 1int)]);
            }
            out.push((key.clone(), 1));
            proof {
                assert(spec_counts_of(out.deep_view()) =~= bumped.take(n as int).push(
                    (key@, 1int),
                ));
                assert(bumped =~= bumped.take(n as int) + bumped.skip(n as int));
                assert(spec_counts_of(out.deep_view()) =~= bumped);
            }
            *counts = out;
            0
        },
    }
}

proof fn lemma_count_of_bounded(counts: Seq<(Seq<char>, int)>, key: Seq<char>, b: int)
    requires
        forall|j: int| 0 <= j < counts.len() ==> (#[trigger] counts[j]).1 <= b,
        0 <= b,
    ensures
        spec_count_of(counts, key) <= b,
    decreases counts.len(),
{
    if counts.len() > 0 && counts[0].0 != key {
        lemma_count_of_bounded(counts.skip(1), key, b);
    }
}

/// Finds every `<h2>...</h2>` pair in the HTML, assigns each a slug-based
/// identifier (bare for the first use of a slug, then with `-1`, `-2`, ...),
/// and records the character span of each section, the last running to the
/// end of the text.
#[verifier::rlimit(80)]
pub fn extract_sections(html: &str) -> (r: Vec<Section>)
    ensures
        r.deep_view() == spec_extract_sections(html@),
{
    proof {
        reveal_strlit("<h2>");
        reveal_strlit("</h2>");
    }
    let n = html.unicode_len();
    let mut triples: Vec<(String, String, usize)> = Vec::new();
    let mut counts: Vec<(String, usize)> = Vec::new();
    let mut pos: usize = 0;
    let ghost full = spec_section_triples(html@, 0, Seq::<(Seq<char>, int)>::empty());
    let ghost mut acc = Seq::<(Seq<char>, Seq<char>, int)>::empty();
    proof {
        assert(spec_counts_of(counts.deep_view()) =~= Seq::<(Seq<char>, int)>::empty());
        assert(acc + full =~= full);
    }
    loop
        invariant
            0 <= pos <= n == html@.len(),
            "<h2>"@.len() == 4,
            "</h2>"@.len() == 5,
            "<h2>"@[0] == '<' && "<h2>"@[1] == 'h' && "<h2>"@[2] == '2' && "<h2>"@[3] == '>',
            "</h2>"@[0] == '<' && "</h2>"@[1] == '/',
            full == acc + spec_section_triples(
                html@,
                pos as int,
                spec_counts_of(counts.deep_view()),
            ),
            forall|j: int|
                0 <= j < spec_counts_of(counts.deep_view()).len() ==> (
                #[trigger] spec_counts_of(counts.deep_view())[j]).1 <= triples@.len(),
            spec_counts_of(counts.deep_view()).len() == counts@.len(),
            9 * triples@.len() <= pos,
            acc.len() == triples@.len(),
            forall|k: int|
                0 <= k < acc.len() ==> (#[trigger] acc[k]) == (
                    triples@[k].0@,
                    triples@[k].1@,
                    triples@[k].2 as int,
                ),
        ensures
            full == acc,
            acc.len() == triples@.len(),
            forall|k: int|
                0 <= k < acc.len() ==> (#[trigger] acc[k]) == (
                    triples@[k].0@,
                    triples@[k].1@,
                    triples@[k].2 as int,
                ),
            n == html@.len(),
        decreases n - pos,
    {
        let ghost cdvc = spec_counts_of(counts.deep_view());
        match find_from(html, "<h2>", pos) {
            None => {
                proof {
                    assert(spec_section_triples(html@, pos as int, cdvc) =~= Seq::<
                        (Seq<char>, Seq<char>, int),
                    >::empty());
                    assert(acc + Seq::<(Seq<char>, Seq<char>, int)>::empty() =~= acc);
                }
                break ;
            },
            Some(h) => {
                proof {
                    lemma_find_from_some(html@, "<h2>"@, pos as int, h as int);
                }
                match find_from(html, "</h2>", h) {
                    None => {
                        proof {
                            assert(spec_section_triples(html@, pos as int, cdvc) =~= Seq::<
                                (Seq<char>, Seq<char>, int),
                            >::empty());
                            assert(acc + Seq::<(Seq<char>, Seq<char>, int)>::empty() =~= acc);
                        }
                        break ;
                    },
                    Some(e) => {
                        proof {
                            lemma_find_from_some(html@, "</h2>"@, h as int, e as int);
                            assert(h + 4 <= e) by {
                                let s = html@;
                                assert(s.subrange(h as int, h + 4)[0] == s[h as int]);
                                assert(s.subrange(h as int, h + 4)[1] == s[h + 1]);
                                assert(s.subrange(h as int, h + 4)[2] == s[h + 2]);
                                assert(s.subrange(h as int, h + 4)[3] == s[h + 3]);
                                assert(s.subrange(e as int, e + 5)[0] == s[e as int]);
                                assert(s.subrange(e as int, e + 5)[1] == s[e + 1]);
                            }
                        }
                        let title = html.substring_char(h + 4, e);
                        let base = slugify(title);
                        proof {
                            assert forall|j: int| 0 <= j < counts@.len() implies (
                            #[trigger] counts@[j]).1 < usize::MAX by {
                                assert(counts.deep_view()[j] == counts@[j].deep_view());
                                assert(spec_counts_of(counts.deep_view())[j].1
                                    == counts.deep_view()[j].1 as int);
                                assert(9 * triples@.len() <= n);
                            }
                        }
                        let c = count_and_bump(&mut counts, &base);
                        proof {
                            lemma_count_of_bounded(cdvc, base@, triples@.len() as int);
                        }
                        let id = if c == 0 {
                            base
                        } else {
                            let mut s = base;
                            push_char(&mut s, '-');
                            let ds = usize_to_string(c);
                            s.append(ds.as_str());
                            proof {
                                assert(s@ =~= spec_slugify(title@) + seq!['-'] + spec_digits(
                                    c as nat,
                                ));
                            }
                            s
                        };
                        let owned_title = title.to_owned();
                        let ghost idv = id@;
                        triples.push((id, owned_title, h));
                        proof {
                            let trip = (
                                spec_counted_id(
                                    spec_slugify(html@.subrange(h + 4, e as int)),
                                    c as int,
                                ),
                                html@.subrange(h + 4, e as int),
                                h as int,
                            );
                            assert(idv == trip.0);
                            let oldacc = acc;
                            acc = acc.push(trip);
                            assert(oldacc.push(trip) + spec_section_triples(
                                html@,
                                e + 5,
                                spec_bump(cdvc, spec_slugify(html@.subrange(h + 4, e as int))),
                            ) =~= oldacc + (seq![trip] + spec_section_triples(
                                html@,
                                e + 5,
                                spec_bump(cdvc, spec_slugify(html@.subrange(h + 4, e as int))),
                            )));
                            lemma_bump_shape(cdvc, spec_slugify(html@.subrange(h + 4, e as int)));
                            assert forall|j: int|
                                0 <= j < spec_counts_of(counts.deep_view()).len() implies (
                            #[trigger] spec_counts_of(counts.deep_view())[j]).1
                                <= triples@.len() by {
                                let nb = spec_bump(
                                    cdvc,
                                    spec_slugify(html@.subrange(h + 4, e as int)),
                                );
                                assert(spec_counts_of(counts.deep_view()) == nb);
                                if j < cdvc.len() {
                                    assert(nb[j] == cdvc[j] || (nb[j].0 == cdvc[j].0 && nb[j].1
                                        == cdvc[j].1 + 1));
                                }
                            }
                        }
                        pos = e + 5;
                    },
                }
            },
        }
    }
    let m = triples.len();
    let mut out: Vec<Section> = Vec::new();
    let mut i: usize = 0;
    proof {
        assert(out.deep_view() =~= spec_extract_sections(html@).take(0));
    }
    while i < m
        invariant
            0 <= i <= m == triples@.len(),
            n == html@.len(),
            full == acc,
            acc.len() == triples@.len(),
            forall|k: int|
                0 <= k < acc.len() ==> (#[trigger] acc[k]) == (
                    triples@[k].0@,
                    triples@[k].1@,
                    triples@[k].2 as int,
                ),
            full == spec_section_triples(html@, 0, Seq::<(Seq<char>, int)>::empty()),
            out.deep_view() == spec_extract_sections(html@).take(i as int),
        decreases m - i,
    {
        let ghost pre = out.deep_view();
        let end: usize = if i + 1 < m {
            triples[i + 1].2
        } else {
            n
        };
        let sec = Section {
            id: triples[i].0.clone(),
            title: triples[i].1.clone(),
            start: triples[i].2,
            end,
        };
        proof {
            assert(acc[i as int] == (triples@[i as int].0@, triples@[i as int].1@, triples@[
                i as int
            ].2 as int));
            assert(sec@.id == full[i as int].0);
            assert(sec@.title == full[i as int].1);
            assert(sec@.start == full[i as int].2);
            if i + 1 < m {
                assert(acc[i + 1] == (triples@[i + 1].0@, triples@[i + 1].1@, triples@[
                    i + 1
                ].2 as int));
                assert(sec@.end == full[i + 1].2);
            } else {
                assert(sec@.end == html@.len() as int);
            }
            assert(sec@ == spec_extract_sections(html@)[i as int]);
        }
        out.push(sec);
        proof {
            assert(out.deep_view() =~= pre.push(spec_extract_sections(html@)[i as int]));
            assert(out.deep_view() =~= spec_extract_sections(html@).take(i + 1));
        }
        i += 1;
    }
    proof {
        assert(out.deep_view() =~= spec_extract_sections(html@));
    }
    out
}

} // verus!
