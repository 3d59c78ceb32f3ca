//! Slug assignment: turning free section titles into URL-safe identifiers and
//! keeping them collision-free across one structuring pass.

use vstd::prelude::*;
use crate::text::{
    is_alnum, lemma_digits_injective, lower, push_char, spec_digits, spec_is_alnum, spec_lower,
    usize_to_string,
};

verus! {

/// One step of the slug scan: `st` is the output so far plus whether a
/// separator is owed before the next kept character.
pub open spec fn spec_slug_step(st: (Seq<char>, bool), c: char) -> (Seq<char>, bool) {
    let l = spec_lower(c);
    if spec_is_alnum(l) {
        if st.1 {
            (st.0 + seq!['-', l], false)
        } else {
            (st.0.push(l), false)
        }
    } else {
        (st.0, st.0.len() > 0)
    }
}

pub open spec fn spec_slug_fold(t: Seq<char>, i: int, st: (Seq<char>, bool)) -> Seq<char>
    decreases t.len() - i,
{
    if i < 0 || i >= t.len() {
        st.0
    } else {
        spec_slug_fold(t, i + 1, spec_slug_step(st, t[i]))
    }
}

/// Lower-cased title with every run of non-alphanumeric characters collapsed
/// into a single '-', none leading or trailing.
pub open spec fn spec_slugify(t: Seq<char>) -> Seq<char> {
    spec_slug_fold(t, 0, (Seq::<char>::empty(), false))
}

/// URL-safe identifier derived from a title.
pub fn slugify(title: &str) -> (r: String)
    ensures
        r@ == spec_slugify(title@),
{
    let n = title.unicode_len();
    let mut out = String::new();
    let mut pending = false;
    let mut i: usize = 0;
    while i < n
        invariant
            0 <= i <= n == title@.len(),
            spec_slug_fold(title@, i as int, (out@, pending)) == spec_slugify(title@),
        decreases n - i,
    {
        let ghost st = (out@, pending);
        let c = lower(title.get_char(i));
        if is_alnum(c) {
            if pending {
                push_char(&mut out, '-');
            }
            push_char(&mut out, c);
            pending = false;
            proof {
                if st.1 {
                    assert(out@ =~= st.0 + seq!['-', spec_lower(title@[i as int])]);
                }
            }
        } else {
            pending = out.unicode_len() > 0;
        }
        proof {
            assert((out@, pending) == spec_slug_step(st, title@[i as int]));
        }
        i += 1;
    }
    out
}

/// A string already in slug normal form: only lower-case alphanumerics and
/// single interior '-' separators.
pub open spec fn spec_is_slug(s: Seq<char>) -> bool {
    &&& forall|j: int|
        0 <= j < s.len() ==> (s[j] == '-' || (spec_is_alnum(#[trigger] s[j]) && spec_lower(s[j])
            == s[j]))
    &&& s.len() > 0 ==> s[0] != '-' && s[s.len() - 1] != '-'
    &&& forall|j: int| 0 < j < s.len() ==> !(s[j - 1] == '-' && #[trigger] s[j] == '-')
}

proof fn lemma_slug_fold_good(t: Seq<char>, i: int, st: (Seq<char>, bool))
    requires
        spec_is_slug(st.0) || st.0.len() == 0,
        forall|j: int|
            0 <= j < st.0.len() ==> (st.0[j] == '-' || (spec_is_alnum(#[trigger] st.0[j])
                && spec_lower(st.0[j]) == st.0[j])),
        st.0.len() > 0 ==> st.0[0] != '-' && st.0[st.0.len() - 1] != '-',
        forall|j: int| 0 < j < st.0.len() ==> !(st.0[j - 1] == '-' && #[trigger] st.0[j] == '-'),
        st.1 ==> st.0.len() > 0,
    ensures
        spec_is_slug(spec_slug_fold(t, i, st)),
    decreases t.len() - i,
{
    if !(i < 0 || i >= t.len()) {
        let st2 = spec_slug_step(st, t[i]);
        let l = spec_lower(t[i]);
        if spec_is_alnum(l) {
            assert(spec_lower(l) == l);
            if st.1 {
                let o = st.0 + seq!['-', l];
                assert(forall|j: int| 0 <= j < st.0.len() ==> o[j] == st.0[j]);
                assert(o[o.len() - 2] == '-' && o[o.len() - 1] == l);
                lemma_slug_fold_good(t, i + 1, st2);
            } else {
                lemma_slug_fold_good(t, i + 1, st2);
            }
        } else {
            lemma_slug_fold_good(t, i + 1, st2);
        }
    }
}

/// Slugify always yields a string in slug normal form.
pub proof fn lemma_slugify_is_slug(t: Seq<char>)
    ensures
        spec_is_slug(spec_slugify(t)),
{
    lemma_slug_fold_good(t, 0, (Seq::<char>::empty(), false));
}

proof fn lemma_slug_fold_fixed(s: Seq<char>, i: int)
    requires
        spec_is_slug(s),
        0 <= i <= s.len(),
    ensures
        i == 0 || s[i - 1] != '-' ==> spec_slug_fold(s, i, (s.take(i), false)) == s,
        i > 0 && s[i - 1] == '-' ==> spec_slug_fold(s, i, (s.take(i - 1), true)) == s,
    decreases s.len() - i,
{
    if i == s.len() {
        assert(s.take(i) =~= s);
        // a slug never ends in '-', so the pending case is vacuous here
    } else {
        lemma_slug_fold_fixed(s, i + 1);
        let c = s[i];
        if c == '-' {
            // an interior separator: the previous character is not '-',
            // and '-' is not alphanumeric
            assert(!spec_is_alnum(spec_lower('-')));
            if i == 0 || s[i - 1] != '-' {
                let st = (s.take(i), false);
                let st2 = spec_slug_step(st, c);
                assert(i > 0) by {
                    if i == 0 {
                        assert(s[0] == '-');
                    }
                }
                assert(st2 == (s.take(i), true));
                assert(s.take(i).len() > 0);
                assert(spec_slug_fold(s, i + 1, (s.take(i), true)) == s);
            }
        } else {
            assert(spec_is_alnum(c) && spec_lower(c) == c);
            if i == 0 || s[i - 1] != '-' {
                let st = (s.take(i), false);
                let st2 = spec_slug_step(st, c);
                assert(st2.0 =~= s.take(i + 1));
                assert(st2 == (s.take(i + 1), false));
            } else {
                let st = (s.take(i - 1), true);
                let st2 = spec_slug_step(st, c);
                assert(st2.0 =~= s.take(i - 1) + seq!['-', c]);
                assert(s.take(i - 1) + seq!['-', c] =~= s.take(i + 1));
                assert(st2 == (s.take(i + 1), false));
            }
        }
    }
}

/// Slugify is idempotent: a slug passed through `slugify` is unchanged.
pub proof fn lemma_slugify_idempotent(t: Seq<char>)
    ensures
        spec_slugify(spec_slugify(t)) == spec_slugify(t),
{
    let s = spec_slugify(t);
    lemma_slugify_is_slug(t);
    lemma_slug_fold_fixed(s, 0);
    assert(s.take(0) =~= Seq::<char>::empty());
}

/// The `k`-th identifier tried for a base slug: the slug itself, then the
/// slug with `-1`, `-2`, ... appended.
pub open spec fn spec_id_choice(base: Seq<char>, k: nat) -> Seq<char> {
    if k == 0 {
        base
    } else {
        base + seq!['-'] + spec_digits(k)
    }
}

pub open spec fn spec_unique_from(
    base: Seq<char>,
    used: Seq<Seq<char>>,
    k: nat,
    fuel: nat,
) -> Seq<char>
    decreases fuel,
{
    if fuel == 0 || !used.contains(spec_id_choice(base, k)) {
        spec_id_choice(base, k)
    } else {
        spec_unique_from(base, used, k + 1, (fuel - 1) as nat)
    }
}

/// The identifier assigned to a title against a set of already used ids: the
/// first of slug, slug-1, slug-2, ... that is not yet used.
pub open spec fn spec_unique_id(title: Seq<char>, used: Seq<Seq<char>>) -> Seq<char> {
    spec_unique_from(spec_slugify(title), used, 0, used.len() + 1)
}

proof fn lemma_id_choice_injective(base: Seq<char>, i: nat, j: nat)
    requires
        spec_id_choice(base, i) == spec_id_choice(base, j),
    ensures
        i == j,
{
    if i == 0 && j != 0 {
        assert(spec_id_choice(base, j).len() > base.len());
    } else if i != 0 && j == 0 {
        assert(spec_id_choice(base, i).len() > base.len());
    } else if i != 0 && j != 0 {
        let di = spec_digits(i);
        let dj = spec_digits(j);
        assert(di =~= spec_id_choice(base, i).skip(base.len() as int + 1));
        assert(dj =~= spec_id_choice(base, j).skip(base.len() as int + 1));
        lemma_digits_injective(i, j);
    }
}

/// Of more distinct identifier choices than `used` has entries, at least one
/// is not in `used`.
proof fn lemma_id_choice_pigeonhole(base: Seq<char>, used: Seq<Seq<char>>, m: nat)
    requires
        m > used.len(),
    ensures
        exists|j: nat| j < m && !used.contains(#[trigger] spec_id_choice(base, j)),
{
    if forall|j: nat| j < m ==> used.contains(#[trigger] spec_id_choice(base, j)) {
        let tried = Seq::<Seq<char>>::new(m, |j: int| spec_id_choice(base, j as nat));
        assert(tried.no_duplicates()) by {
            assert forall|x: int, y: int|
                0 <= x < tried.len() && 0 <= y < tried.len() && x != y implies tried[x]
                != tried[y] by {
                if tried[x] == tried[y] {
                    lemma_id_choice_injective(base, x as nat, y as nat);
                }
            }
        }
        tried.unique_seq_to_set();
        assert(tried.to_set().subset_of(used.to_set())) by {
            assert forall|x: Seq<char>| tried.to_set().contains(x) implies used.to_set(
            ).contains(x) by {
                let j = choose|j: int| 0 <= j < tried.len() && tried[j] == x;
                assert(used.contains(spec_id_choice(base, j as nat)));
            }
        }
        used.lemma_cardinality_of_set();
        vstd::set_lib::lemma_len_subset(tried.to_set(), used.to_set());
    }
}

proof fn lemma_unique_from_fresh(base: Seq<char>, used: Seq<Seq<char>>, k: nat, fuel: nat)
    requires
        k + fuel == used.len() + 1,
        forall|j: nat| j < k ==> used.contains(#[trigger] spec_id_choice(base, j)),
    ensures
        !used.contains(spec_unique_from(base, used, k, fuel)),
    decreases fuel,
{
    if used.contains(spec_id_choice(base, k)) {
        if fuel == 0 {
            lemma_id_choice_pigeonhole(base, used, k);
        } else {
            lemma_unique_from_fresh(base, used, k + 1, (fuel - 1) as nat);
        }
    }
}

/// A freshly assigned identifier never collides with one already used.
pub proof fn lemma_unique_id_fresh(title: Seq<char>, used: Seq<Seq<char>>)
    ensures
        !used.contains(spec_unique_id(title, used)),
{
    lemma_unique_from_fresh(spec_slugify(title), used, 0, used.len() + 1);
}

/// The first occurrence of a title always receives the bare slug.
pub proof fn lemma_unique_id_bare(title: Seq<char>, used: Seq<Seq<char>>)
    requires
        !used.contains(spec_slugify(title)),
    ensures
        spec_unique_id(title, used) == spec_slugify(title),
{
}

fn vec_contains_string(v: &Vec<String>, x: &String) -> (r: bool)
    ensures
        r == v.deep_view().contains(x@),
{
    let mut i: usize = 0;
    while i < v.len()
        invariant
            0 <= i <= v@.len(),
            v.deep_view().len() == v@.len(),
            forall|j: int| 0 <= j < i ==> v.deep_view()[j] != x@,
        decreases v@.len() - i,
    {
        if crate::text::str_eq(v[i].as_str(), x.as_str()) {
            assert(v.deep_view()[i as int] == x@);
            return true;
        }
        i += 1;
    }
    false
}

fn make_id_choice(base: &String, k: usize) -> (r: String)
    ensures
        r@ == spec_id_choice(base@, k as nat),
{
    if k == 0 {
        base.clone()
    } else {
        let mut s = base.clone();
        push_char(&mut s, '-');
        let digits = usize_to_string(k);
        s.append(digits.as_str());
        proof {
            assert(s@ =~= base@ + seq!['-'] + spec_digits(k as nat));
        }
        s
    }
}

/// Assigns a collision-free identifier for `title` and records it in
/// `used_ids`: the bare slug when it is new, else the slug with the lowest
/// unused numeric suffix.
pub fn generate_unique_id(title: &str, used_ids: &mut Vec<String>) -> (r: String)
    ensures
        r@ == spec_unique_id(title@, old(used_ids).deep_view()),
        !old(used_ids).deep_view().contains(r@),
        final(used_ids).deep_view() == old(used_ids).deep_view().push(r@),
{
    let base = slugify(title);
    let n_used = used_ids.len();
    let ghost used = used_ids.deep_view();
    let ghost limit = used.len() + 1;
    proof {
        assert(used.len() == used_ids@.len());
    }
    let mut k: usize = 0;
    loop
        invariant
            used == used_ids.deep_view(),
            used == old(used_ids).deep_view(),
            used.len() == n_used,
            k <= n_used,
            base@ == spec_slugify(title@),
            spec_unique_id(title@, used) == spec_unique_from(
                base@,
                used,
                k as nat,
                (limit - k) as nat,
            ),
            limit == used.len() + 1,
            forall|j: nat| j < k ==> used.contains(#[trigger] spec_id_choice(base@, j)),
        decreases used.len() - k,
    {
        let id = make_id_choice(&base, k);
        if !vec_contains_string(used_ids, &id) {
            proof {
                lemma_unique_from_fresh(base@, used, k as nat, (limit - k) as nat);
            }
            used_ids.push(id.clone());
            proof {
                assert(used_ids.deep_view() =~= used.push(id@));
            }
            return id;
        }
        proof {
            if k == used.len() {
                assert(used.contains(id@));
                assert(id@ == spec_id_choice(base@, k as nat));
                lemma_id_choice_pigeonhole(base@, used, (k + 1) as nat);
                let j = choose|j: nat|
                    j < (k + 1) as nat && !used.contains(#[trigger] spec_id_choice(base@, j));
                assert(!used.contains(spec_id_choice(base@, j)));
                if j < k {
                    assert(used.contains(spec_id_choice(base@, j)));
                } else {
                    assert(j == k as nat);
                    assert(spec_id_choice(base@, j) == id@);
                }
            }
        }
        k += 1;
    }
}

/// The identifiers assigned to a whole sequence of titles, each recorded
/// before the next is drawn.
pub open spec fn spec_assign_ids(titles: Seq<Seq<char>>, used: Seq<Seq<char>>) -> Seq<Seq<char>>
    decreases titles.len(),
{
    if titles.len() == 0 {
        Seq::<Seq<char>>::empty()
    } else {
        let id = spec_unique_id(titles[0], used);
        seq![id] + spec_assign_ids(titles.skip(1), used.push(id))
    }
}

/// Feeding any sequence of titles through one shared accumulator yields
/// pairwise distinct identifiers, none colliding with one already recorded.
pub proof fn lemma_assign_ids_distinct(titles: Seq<Seq<char>>, used: Seq<Seq<char>>)
    ensures
        spec_assign_ids(titles, used).no_duplicates(),
        forall|j: int|
            0 <= j < spec_assign_ids(titles, used).len() ==> !used.contains(
                #[trigger] spec_assign_ids(titles, used)[j],
            ),
    decreases titles.len(),
{
    if titles.len() > 0 {
        let id = spec_unique_id(titles[0], used);
        let rest = spec_assign_ids(titles.skip(1), used.push(id));
        lemma_unique_id_fresh(titles[0], used);
        lemma_assign_ids_distinct(titles.skip(1), used.push(id));
        let all = spec_assign_ids(titles, used);
        assert forall|j: int| 0 <= j < all.len() implies !used.contains(all[j]) by {
            if j > 0 {
                assert(all[j] == rest[j - 1]);
                assert(!used.push(id).contains(rest[j - 1]));
                if used.contains(rest[j - 1]) {
                    let w = choose|w: int| 0 <= w < used.len() && used[w] == rest[j - 1];
                    assert(used.push(id)[w] == rest[j - 1]);
                }
            }
        }
        assert(all.no_duplicates()) by {
            assert forall|x: int, y: int|
                0 <= x < all.len() && 0 <= y < all.len() && x != y implies all[x] != all[y] by {
                if x > 0 && y > 0 {
                    assert(all[x] == rest[x - 1] && all[y] == rest[y - 1]);
                } else {
                    let j = if x == 0 {
                        y
                    } else {
                        x
                    };
                    assert(all[j] == rest[j - 1]);
                    assert(!used.push(id).contains(rest[j - 1]));
                    assert(used.push(id)[used.len() as int] == id);
                }
            }
        }
    }
}

} // verus!
