//! Filtering records by state and source, and ordering the survivors.
use vstd::prelude::*;
use vstd::seq_lib::{to_multiset_build, to_multiset_insert};
use crate::model::{StartupEntry, StartupSource};

verus! {

/// Which records a list shows.
#[derive(Clone, Copy, Debug, PartialEq, Eq, Structural)]
pub struct FilterState {
    pub show_enabled: bool,
    pub show_disabled: bool,
    pub show_user: bool,
    pub show_system: bool,
}

impl Default for FilterState {
    fn default() -> (r: Self)
        ensures
            r.show_enabled && r.show_disabled && r.show_user && r.show_system,
    {
        FilterState { show_enabled: true, show_disabled: true, show_user: true, show_system: true }
    }
}

/// The order of a list.
#[derive(Clone, Copy, Debug, PartialEq, Eq, Structural)]
pub enum SortKey {
    NameAsc,
    NameDesc,
    StatusEnabledFirst,
    SourceUserFirst,
    SourceSystemFirst,
}

/// A record passes when its state and its source both match; with both
/// toggles of a pair off, that pair lets everything through.
pub open spec fn passes(e: StartupEntry, f: FilterState) -> bool {
    let state_ok = (f.show_enabled && e.enabled) || (f.show_disabled && !e.enabled) || (
    !f.show_enabled && !f.show_disabled);
    let source_ok = (f.show_user && e.source == StartupSource::UserAutostart) || (f.show_system
        && e.source == StartupSource::SystemAutostart) || (!f.show_user && !f.show_system);
    state_ok && source_ok
}

fn passes_exec(e: &StartupEntry, f: &FilterState) -> (r: bool)
    ensures
        r == passes(*e, *f),
{
    let state_ok = (f.show_enabled && e.enabled) || (f.show_disabled && !e.enabled) || (
    !f.show_enabled && !f.show_disabled);
    let source_ok = (f.show_user && e.source == StartupSource::UserAutostart) || (f.show_system
        && e.source == StartupSource::SystemAutostart) || (!f.show_user && !f.show_system);
    state_ok && source_ok
}

/// The indices of the records that pass the filter, in increasing order.
pub fn apply_filter(entries: &[StartupEntry], filter: &FilterState) -> (r: Vec<usize>)
    ensures
        forall|i: int, j: int| 0 <= i < j < r.len() ==> r[i] < r[j],
        forall|i: int| 0 <= i < r.len() ==> r[i] < entries.len() && passes(entries@[r[i] as int], *filter),
        forall|k: int|
            0 <= k < entries.len() && passes(entries@[k], *filter) ==> r@.contains(k as usize),
{
    let mut r: Vec<usize> = Vec::new();
    let mut k: usize = 0;
    while k < entries.len()
        invariant
            k <= entries.len(),
            forall|i: int, j: int| 0 <= i < j < r.len() ==> r[i] < r[j],
            forall|i: int| 0 <= i < r.len() ==> r[i] < k && passes(entries@[r[i] as int], *filter),
            forall|q: int| 0 <= q < k && passes(entries@[q], *filter) ==> r@.contains(q as usize),
        decreases entries.len() - k,
    {
        if passes_exec(&entries[k], filter) {
            let ghost old_r = r@;
            r.push(k);
            proof {
                assert(r@ == old_r.push(k));
                assert forall|q: int| 0 <= q < k + 1 && passes(entries@[q], *filter) implies r@.contains(
                    q as usize,
                ) by {
                    if q == k {
                        assert(r@[old_r.len() as int] == q as usize);
                    } else {
                        assert(old_r.contains(q as usize));
                        let w = choose|w: int| 0 <= w < old_r.len() && old_r[w] == q as usize;
                        assert(r@[w] == q as usize);
                    }
                }
            }
        }
        k = k + 1;
    }
    r
}

/// Ordinal comparison of `a[i..]` and `b[i..]`: -1, 0 or 1.
pub open spec fn cmp_from(a: Seq<char>, b: Seq<char>, i: int) -> int
    decreases a.len() - i,
{
    if i < 0 || i >= a.len() {
        if i >= b.len() {
            0
        } else {
            -1
        }
    } else if i >= b.len() {
        1
    } else if a[i] < b[i] {
        -1
    } else if a[i] > b[i] {
        1
    } else {
        cmp_from(a, b, i + 1)
    }
}

/// Lexicographic comparison by code point.
pub open spec fn text_cmp(a: Seq<char>, b: Seq<char>) -> int {
    cmp_from(a, b, 0)
}

proof fn lemma_cmp_from_antisym(a: Seq<char>, b: Seq<char>, i: int)
    requires
        0 <= i,
    ensures
        cmp_from(a, b, i) == -cmp_from(b, a, i),
    decreases a.len() - i,
{
    if i < a.len() && i < b.len() && a[i] == b[i] {
        lemma_cmp_from_antisym(a, b, i + 1);
    }
}

/// `true` sorts before `false`.
pub open spec fn flag_first(a: bool, b: bool) -> int {
    if a == b {
        0
    } else if a {
        -1
    } else {
        1
    }
}

pub open spec fn then_cmp(c: int, d: int) -> int {
    if c != 0 {
        c
    } else {
        d
    }
}

/// How record `x` compares with record `y` under `sort`, given their names
/// folded to lower case.
pub open spec fn key_cmp(
    folded: Seq<Seq<char>>,
    e: Seq<StartupEntry>,
    sort: SortKey,
    x: int,
    y: int,
) -> int {
    match sort {
        SortKey::NameAsc => text_cmp(folded[x], folded[y]),
        SortKey::NameDesc => text_cmp(folded[y], folded[x]),
        SortKey::StatusEnabledFirst => then_cmp(
            flag_first(e[x].enabled, e[y].enabled),
            text_cmp(folded[x], folded[y]),
        ),
        SortKey::SourceUserFirst => then_cmp(
            flag_first(
                e[x].source == StartupSource::UserAutostart,
                e[y].source == StartupSource::UserAutostart,
            ),
            text_cmp(folded[x], folded[y]),
        ),
        SortKey::SourceSystemFirst => then_cmp(
            flag_first(
                e[x].source == StartupSource::SystemAutostart,
                e[y].source == StartupSource::SystemAutostart,
            ),
            text_cmp(folded[x], folded[y]),
        ),
    }
}

proof fn lemma_key_cmp_antisym(
    folded: Seq<Seq<char>>,
    e: Seq<StartupEntry>,
    sort: SortKey,
    x: int,
    y: int,
)
    ensures
        key_cmp(folded, e, sort, x, y) == -key_cmp(folded, e, sort, y, x),
{
    lemma_cmp_from_antisym(folded[x], folded[y], 0);
}

/// `r` is in order: no record compares above the next one.
pub open spec fn is_sorted_by(
    folded: Seq<Seq<char>>,
    e: Seq<StartupEntry>,
    sort: SortKey,
    r: Seq<usize>,
) -> bool {
    forall|i: int|
        0 <= i < r.len() - 1 ==> #[trigger] key_cmp(folded, e, sort, r[i] as int, r[i + 1] as int)
            <= 0
}

/// `r` with `x` placed right after the last record that `x` does not
/// compare below: records that tie with `x` stay before it.
pub open spec fn insert_stable(
    folded: Seq<Seq<char>>,
    e: Seq<StartupEntry>,
    sort: SortKey,
    r: Seq<usize>,
    x: usize,
) -> Seq<usize>
    decreases r.len(),
{
    if r.len() == 0 || key_cmp(folded, e, sort, x as int, r.last() as int) >= 0 {
        r.push(x)
    } else {
        insert_stable(folded, e, sort, r.drop_last(), x).push(r.last())
    }
}

/// The stable order of `s` under `sort`: records that tie keep their order
/// in `s`.
pub open spec fn stable_sorted(
    folded: Seq<Seq<char>>,
    e: Seq<StartupEntry>,
    sort: SortKey,
    s: Seq<usize>,
) -> Seq<usize>
    decreases s.len(),
{
    if s.len() == 0 {
        seq![]
    } else {
        insert_stable(folded, e, sort, stable_sorted(folded, e, sort, s.drop_last()), s.last())
    }
}

fn text_cmp_exec(a: &Vec<char>, b: &Vec<char>) -> (r: i8)
    ensures
        r as int == text_cmp(a@, b@),
{
    let mut i: usize = 0;
    while i < a.len() && i < b.len() && a[i] == b[i]
        invariant
            i <= a.len(),
            i <= b.len(),
            cmp_from(a@, b@, 0) == cmp_from(a@, b@, i as int),
        decreases a.len() - i,
    {
        i = i + 1;
    }
    if i >= a.len() {
        if i >= b.len() {
            0
        } else {
            -1
        }
    } else if i >= b.len() {
        1
    } else if a[i] < b[i] {
        -1
    } else {
        1
    }
}

fn flag_first_exec(a: bool, b: bool) -> (r: i8)
    ensures
        r as int == flag_first(a, b),
{
    if a == b {
        0
    } else if a {
        -1
    } else {
        1
    }
}

fn key_cmp_exec(
    folded: &Vec<Vec<char>>,
    e: &[StartupEntry],
    sort: SortKey,
    x: usize,
    y: usize,
) -> (r: i8)
    requires
        x < folded.len() == e.len(),
        y < folded.len(),
    ensures
        r as int == key_cmp(folded.deep_view(), e@, sort, x as int, y as int),
{
    proof {
        assert(folded.deep_view()[x as int] =~= folded[x as int]@);
        assert(folded.deep_view()[y as int] =~= folded[y as int]@);
    }
    let first = match sort {
        SortKey::NameAsc => return text_cmp_exec(&folded[x], &folded[y]),
        SortKey::NameDesc => return text_cmp_exec(&folded[y], &folded[x]),
        SortKey::StatusEnabledFirst => flag_first_exec(e[x].enabled, e[y].enabled),
        SortKey::SourceUserFirst => flag_first_exec(
            e[x].source == StartupSource::UserAutostart,
            e[y].source == StartupSource::UserAutostart,
        ),
        SortKey::SourceSystemFirst => flag_first_exec(
            e[x].source == StartupSource::SystemAutostart,
            e[y].source == StartupSource::SystemAutostart,
        ),
    };
    if first != 0 {
        first
    } else {
        text_cmp_exec(&folded[x], &folded[y])
    }
}

/// Orders `indices` by `sort`, given each record's name folded to lower case.
pub fn sort_indices_folded(
    entries: &[StartupEntry],
    folded: &Vec<Vec<char>>,
    indices: Vec<usize>,
    sort: SortKey,
) -> (r: Vec<usize>)
    requires
        folded.len() == entries.len(),
        forall|i: int| 0 <= i < indices.len() ==> indices[i] < entries.len(),
    ensures
        r@.to_multiset() == indices@.to_multiset(),
        forall|i: int| 0 <= i < r.len() ==> r[i] < entries.len(),
        is_sorted_by(folded.deep_view(), entries@, sort, r@),
        r@ == stable_sorted(folded.deep_view(), entries@, sort, indices@),
{
    let ghost f = folded.deep_view();
    let mut r: Vec<usize> = Vec::new();
    let mut k: usize = 0;
    proof {
        assert(indices@.subrange(0, 0) =~= Seq::<usize>::empty());
    }
    while k < indices.len()
        invariant
            k <= indices.len(),
            f == folded.deep_view(),
            folded.len() == entries.len(),
            forall|i: int| 0 <= i < indices.len() ==> indices[i] < entries.len(),
            forall|i: int| 0 <= i < r.len() ==> r[i] < entries.len(),
            r@.to_multiset() == indices@.subrange(0, k as int).to_multiset(),
            is_sorted_by(f, entries@, sort, r@),
            r@ == stable_sorted(f, entries@, sort, indices@.subrange(0, k as int)),
        decreases indices.len() - k,
    {
        let x = indices[k];
        let mut p: usize = r.len();
        let mut placed = false;
        proof {
            assert(r@.subrange(0, r.len() as int) =~= r@);
            assert(r@ + r@.subrange(r.len() as int, r.len() as int) =~= r@);
        }
        while !placed
            invariant
                p <= r.len(),
                placed ==> (p == 0 || key_cmp(f, entries@, sort, x as int, r[p - 1] as int) >= 0),
                x < entries.len(),
                f == folded.deep_view(),
                folded.len() == entries.len(),
                forall|i: int| 0 <= i < r.len() ==> r[i] < entries.len(),
                p < r.len() ==> key_cmp(f, entries@, sort, x as int, r[p as int] as int) < 0,
                insert_stable(f, entries@, sort, r@, x) == insert_stable(
                    f,
                    entries@,
                    sort,
                    r@.subrange(0, p as int),
                    x,
                ) + r@.subrange(p as int, r.len() as int),
                placed ==> insert_stable(f, entries@, sort, r@.subrange(0, p as int), x) == r@.subrange(
                    0,
                    p as int,
                ).push(x),
            decreases p + if placed {
                0int
            } else {
                1int
            },
        {
            if p == 0 {
                placed = true;
                proof {
                    assert(r@.subrange(0, 0).push(x) == insert_stable(
                        f,
                        entries@,
                        sort,
                        r@.subrange(0, 0),
                        x,
                    ));
                }
            } else if key_cmp_exec(folded, entries, sort, x, r[p - 1]) < 0 {
                proof {
                    let a = r@.subrange(0, p as int);
                    assert(a.drop_last() =~= r@.subrange(0, p - 1));
                    assert(a.last() == r@[p - 1]);
                    assert(insert_stable(f, entries@, sort, r@.subrange(0, p - 1), x).push(r@[p - 1])
                        + r@.subrange(p as int, r.len() as int) =~= insert_stable(
                        f,
                        entries@,
                        sort,
                        r@.subrange(0, p - 1),
                        x,
                    ) + r@.subrange(p - 1, r.len() as int));
                }
                p = p - 1;
            } else {
                placed = true;
                proof {
                    let a = r@.subrange(0, p as int);
                    assert(a.last() == r@[p - 1]);
                }
            }
        }
        proof {
            if p > 0 {
                lemma_key_cmp_antisym(f, entries@, sort, x as int, r[p - 1] as int);
            }
            to_multiset_insert(r@, p as int, x);
            to_multiset_build(indices@.subrange(0, k as int), x);
            assert(indices@.subrange(0, k + 1) =~= indices@.subrange(0, k as int).push(x));
        }
        let ghost old_r = r@;
        proof {
            assert(is_sorted_by(f, entries@, sort, old_r));
        }
        r.insert(p, x);
        proof {
            assert(r@ == old_r.insert(p as int, x));
            assert(r@ =~= old_r.subrange(0, p as int).push(x) + old_r.subrange(
                p as int,
                old_r.len() as int,
            ));
            assert(indices@.subrange(0, k + 1).drop_last() =~= indices@.subrange(0, k as int));
            assert forall|i: int| 0 <= i < r.len() - 1 implies #[trigger] key_cmp(
                f,
                entries@,
                sort,
                r[i] as int,
                r[i + 1] as int,
            ) <= 0 by {
                if i + 1 < p {
                    assert(r[i] == old_r[i] && r[i + 1] == old_r[i + 1]);
                    assert(key_cmp(f, entries@, sort, old_r[i] as int, old_r[i + 1] as int) <= 0);
                } else if i + 1 == p {
                    assert(r[i] == old_r[i] && r[i + 1] == x);
                } else if i == p {
                    assert(r[i] == x && r[i + 1] == old_r[i]);
                } else {
                    assert(r[i] == old_r[i - 1] && r[i + 1] == old_r[i]);
                    let j = i - 1;
                    assert(key_cmp(f, entries@, sort, old_r[j] as int, old_r[j + 1] as int) <= 0);
                }
            }
        }
        k = k + 1;
    }
    proof {
        assert(indices@.subrange(0, indices.len() as int) =~= indices@);
    }
    r
}

/// A name folded to lower case, as `str::to_lowercase` gives it.
pub uninterp spec fn lower_of(s: Seq<char>) -> Seq<char>;

/// Relies on `str::to_lowercase`: Unicode lower case, which depends on the
/// characters alone.
#[verifier::external_body]
fn lowercase_chars(s: &str) -> (r: Vec<char>)
    ensures
        r@ == lower_of(s@),
{
    s.to_lowercase().chars().collect()
}

/// Each record's name folded to lower case.
pub open spec fn folded_names(e: Seq<StartupEntry>) -> Seq<Seq<char>> {
    Seq::new(e.len(), |i: int| lower_of(e[i].name@))
}

/// Orders `indices` by `sort`, comparing names case-insensitively by code
/// point; ties on the chosen key fall back to the name, ascending, and
/// records that still tie keep their order in `indices`.
pub fn sort_indices(entries: &[StartupEntry], indices: Vec<usize>, sort: SortKey) -> (r: Vec<
    usize,
>)
    requires
        forall|i: int| 0 <= i < indices.len() ==> indices[i] < entries.len(),
    ensures
        r@.to_multiset() == indices@.to_multiset(),
        forall|i: int| 0 <= i < r.len() ==> r[i] < entries.len(),
        is_sorted_by(folded_names(entries@), entries@, sort, r@),
        r@ == stable_sorted(folded_names(entries@), entries@, sort, indices@),
{
    let mut folded: Vec<Vec<char>> = Vec::new();
    let mut i: usize = 0;
    while i < entries.len()
        invariant
            i <= entries.len(),
            folded.deep_view() == folded_names(entries@).subrange(0, i as int),
        decreases entries.len() - i,
    {
        let l = lowercase_chars(entries[i].name.as_str());
        let ghost before = folded.deep_view();
        proof {
            assert(l.deep_view() =~= l@);
        }
        folded.push(l);
        proof {
            assert(folded.deep_view() =~= before.push(l@));
            assert(l@ == lower_of(entries@[i as int].name@));
            assert(folded.deep_view() =~= folded_names(entries@).subrange(0, i + 1));
        }
        i = i + 1;
    }
    proof {
        assert(folded_names(entries@).subrange(0, entries.len() as int) =~= folded_names(
            entries@,
        ));
    }
    sort_indices_folded(entries, &folded, indices, sort)
}

} // verus!
