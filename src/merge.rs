//! Combining ranked result pages: a stable k-way merge keyed on the rank of
//! each entry within its page, then removal of repeated catalogue identifiers.
use vstd::prelude::*;

use itertools::Itertools;

use crate::omdb::SearchResult;

verus! {

/// The order of (rank, page) slots: by rank, then by page.
pub open spec fn key_lt(a: (usize, usize), b: (usize, usize)) -> bool {
    a.0 < b.0 || (a.0 == b.0 && a.1 < b.1)
}

pub open spec fn strictly_ascending(s: Seq<(usize, usize)>) -> bool {
    forall|i: int, j: int| 0 <= i < j < s.len() ==> key_lt(#[trigger] s[i], #[trigger] s[j])
}

/// The contents of each page.
pub open spec fn page_views(pages: Seq<Vec<SearchResult>>) -> Seq<Seq<SearchResult>> {
    pages.map_values(|v: Vec<SearchResult>| v@)
}

/// Whether page `k.1` has an entry of rank `k.0`.
pub open spec fn is_slot(pages: Seq<Seq<SearchResult>>, k: (usize, usize)) -> bool {
    (k.1 as int) < pages.len() && (k.0 as int) < pages[k.1 as int].len()
}

/// `keys` lists every slot of the pages once, all rank-0 slots first (in page
/// order), then all rank-1 slots, and so on.
pub open spec fn is_merge_order(pages: Seq<Seq<SearchResult>>, keys: Seq<(usize, usize)>) -> bool {
    &&& strictly_ascending(keys)
    &&& forall|k: (usize, usize)| #[trigger] keys.contains(k) <==> is_slot(pages, k)
}

/// `m` holds the entries of the slots `keys`, in that order.
pub open spec fn follows_order(
    pages: Seq<Seq<SearchResult>>,
    keys: Seq<(usize, usize)>,
    m: Seq<SearchResult>,
) -> bool {
    &&& m.len() == keys.len()
    &&& forall|i: int|
        0 <= i < m.len() ==> #[trigger] m[i] == pages[keys[i].1 as int][keys[i].0 as int]
}

/// `m` is the rank merge of the pages.
pub open spec fn is_rank_merge(pages: Seq<Seq<SearchResult>>, m: Seq<SearchResult>) -> bool {
    exists|keys: Seq<(usize, usize)>| #[trigger] is_merge_order(pages, keys) && follows_order(pages, keys, m)
}

/// Every item of `r` is in one of the runs, and every item of each run is in
/// `r`.
pub open spec fn holds_items_of(r: Seq<(usize, usize)>, runs: Seq<Vec<(usize, usize)>>) -> bool {
    forall|k: (usize, usize)|
        #[trigger] r.contains(k) <==> exists|p: int| 0 <= p < runs.len() && #[trigger] runs[p]@.contains(k)
}

/// Relies on itertools::kmerge: when every base sequence is sorted ascending,
/// the merge yields each of their items once, sorted ascending; pairs compare
/// by their first component, then their second.
#[verifier::external_body]
fn kmerge_keys(runs: Vec<Vec<(usize, usize)>>) -> (r: Vec<(usize, usize)>)
    requires
        forall|p: int| 0 <= p < runs.len() ==> strictly_ascending(#[trigger] runs[p]@),
        forall|p: int, q: int, i: int, j: int|
            0 <= p < q < runs.len() && 0 <= i < runs[p].len() && 0 <= j < runs[q].len() ==> #[trigger] runs[p]@[i]
                != #[trigger] runs[q]@[j],
    ensures
        strictly_ascending(r@),
        holds_items_of(r@, runs@),
{
    runs.into_iter().kmerge().collect()
}

/// Merges ranked pages so that every page's rank-0 entry comes before any
/// rank-1 entry, and so on; within one rank, earlier pages come first.
pub fn rank_merge(pages: &Vec<Vec<SearchResult>>) -> (r: Vec<SearchResult>)
    ensures
        is_rank_merge(page_views(pages@), r@),
{
    let ghost pv = page_views(pages@);
    let mut runs: Vec<Vec<(usize, usize)>> = Vec::new();
    let mut p: usize = 0;
    while p < pages.len()
        invariant
            p <= pages.len(),
            runs.len() == p,
            forall|q: int|
                0 <= q < p ==> #[trigger] runs[q]@ == Seq::new(
                    pages[q].len() as nat,
                    |x: int| (x as usize, q as usize),
                ),
        decreases pages.len() - p,
    {
        let mut run: Vec<(usize, usize)> = Vec::new();
        let mut x: usize = 0;
        while x < pages[p].len()
            invariant
                p < pages.len(),
                x <= pages[p as int].len(),
                run@ == Seq::new(x as nat, |y: int| (y as usize, p)),
            decreases pages[p as int].len() - x,
        {
            run.push((x, p));
            assert(run@ =~= Seq::new((x + 1) as nat, |y: int| (y as usize, p)));
            x = x + 1;
        }
        runs.push(run);
        p = p + 1;
    }
    proof {
        assert forall|q: int| 0 <= q < runs.len() implies strictly_ascending(#[trigger] runs[q]@) by {
            assert(runs[q]@ == Seq::new(pages[q].len() as nat, |x: int| (x as usize, q as usize)));
        }
        assert forall|q1: int, q2: int, i: int, j: int|
            0 <= q1 < q2 < runs.len() && 0 <= i < runs[q1].len() && 0 <= j < runs[q2].len() implies #[trigger] runs[q1]@[i]
                != #[trigger] runs[q2]@[j] by {
            assert(runs[q1]@ == Seq::new(pages[q1].len() as nat, |x: int| (x as usize, q1 as usize)));
            assert(runs[q2]@ == Seq::new(pages[q2].len() as nat, |x: int| (x as usize, q2 as usize)));
        }
    }
    let ghost runs_v = runs@;
    let keys = kmerge_keys(runs);
    proof {
        assert forall|k: (usize, usize)| #[trigger] keys@.contains(k) <==> is_slot(pv, k) by {
            if keys@.contains(k) {
                let q = choose|q: int| 0 <= q < runs_v.len() && #[trigger] runs_v[q]@.contains(k);
                assert(runs_v[q]@ == Seq::new(pages[q].len() as nat, |x: int| (x as usize, q as usize)));
                let i = choose|i: int| 0 <= i < runs_v[q]@.len() && runs_v[q]@[i] == k;
                assert(pv[q] == pages[q]@);
            }
            if is_slot(pv, k) {
                let q = k.1 as int;
                assert(pv[q] == pages[q]@);
                assert(runs_v[q]@ == Seq::new(pages[q].len() as nat, |x: int| (x as usize, q as usize)));
                assert(runs_v[q]@[k.0 as int] == k);
                assert(runs_v[q]@.contains(k));
            }
        }
    }
    let mut m: Vec<SearchResult> = Vec::new();
    let mut i: usize = 0;
    while i < keys.len()
        invariant
            pv == page_views(pages@),
            pv.len() == pages.len(),
            forall|k: (usize, usize)| #[trigger] keys@.contains(k) <==> is_slot(pv, k),
            i <= keys.len(),
            m@.len() == i,
            forall|j: int| 0 <= j < i ==> #[trigger] m@[j] == pv[keys@[j].1 as int][keys@[j].0 as int],
        decreases keys.len() - i,
    {
        let k = keys[i];
        assert(keys@.contains(k));
        assert(pv[k.1 as int] == pages[k.1 as int]@);
        let e = pages[k.1][k.0].duplicate();
        m.push(e);
        i = i + 1;
    }
    assert(is_merge_order(pv, keys@) && follows_order(pv, keys@, m@));
    m
}

/// In a rank merge every entry of every page appears once; an entry of lower
/// rank comes before every entry of higher rank, and of two entries of equal
/// rank the one from the earlier page comes first. So each page keeps its own
/// order.
pub proof fn lemma_rank_merge_order(
    pages: Seq<Seq<SearchResult>>,
    keys: Seq<(usize, usize)>,
    m: Seq<SearchResult>,
)
    requires
        is_merge_order(pages, keys),
        follows_order(pages, keys, m),
    ensures
        forall|i: int, j: int|
            0 <= i < m.len() && 0 <= j < m.len() && key_lt(#[trigger] keys[i], #[trigger] keys[j]) ==> i < j,
        forall|i: int, j: int| 0 <= i < j < keys.len() ==> #[trigger] keys[i] != #[trigger] keys[j],
        forall|k: (usize, usize)|
            is_slot(pages, k) ==> exists|i: int|
                0 <= i < m.len() && #[trigger] keys[i] == k && m[i] == pages[k.1 as int][k.0 as int],
{
    assert forall|i: int, j: int|
        0 <= i < m.len() && 0 <= j < m.len() && key_lt(#[trigger] keys[i], #[trigger] keys[j]) implies i < j by {
        if j < i {
            assert(key_lt(keys[j], keys[i]));
        } else if i == j {
            assert(!key_lt(keys[i], keys[i]));
        }
    }
    assert forall|i: int, j: int| 0 <= i < j < keys.len() implies #[trigger] keys[i] != #[trigger] keys[j] by {
        assert(key_lt(keys[i], keys[j]));
    }
    assert forall|k: (usize, usize)| is_slot(pages, k) implies exists|i: int|
        0 <= i < m.len() && #[trigger] keys[i] == k && m[i] == pages[k.1 as int][k.0 as int] by {
        assert(keys.contains(k));
        let i = choose|i: int| 0 <= i < keys.len() && keys[i] == k;
        assert(m[i] == pages[keys[i].1 as int][keys[i].0 as int]);
    }
}

/// Whether `m[i]` is the first entry of `m` with its catalogue identifier.
pub open spec fn is_first_id(m: Seq<SearchResult>, i: int) -> bool {
    0 <= i < m.len() && forall|j: int| 0 <= j < i ==> (#[trigger] m[j]).imdb_id@ != m[i].imdb_id@
}

/// `r` holds the entries of `m` at the ascending positions `idx`, which are
/// exactly the first occurrences of each identifier.
pub open spec fn keeps_first(m: Seq<SearchResult>, idx: Seq<usize>, r: Seq<SearchResult>) -> bool {
    &&& forall|a: int, b: int| 0 <= a < b < idx.len() ==> #[trigger] idx[a] < #[trigger] idx[b]
    &&& forall|i: usize| #[trigger] idx.contains(i) <==> is_first_id(m, i as int)
    &&& r.len() == idx.len()
    &&& forall|k: int| 0 <= k < r.len() ==> #[trigger] r[k] == m[idx[k] as int]
}

/// `r` is `m` without repeated identifiers, the first occurrence of each kept
/// and the order otherwise unchanged.
pub open spec fn is_dedup_by_id(m: Seq<SearchResult>, r: Seq<SearchResult>) -> bool {
    exists|idx: Seq<usize>| #[trigger] keeps_first(m, idx, r)
}

/// Some entry of `r` has the identifier of `m[i]`.
pub open spec fn id_kept(m: Seq<SearchResult>, r: Seq<SearchResult>, i: int) -> bool {
    exists|k: int| 0 <= k < r.len() && (#[trigger] r[k]).imdb_id@ == m[i].imdb_id@
}

/// `r[k]` is the first entry of `m` with its identifier.
pub open spec fn kept_is_first(m: Seq<SearchResult>, r: Seq<SearchResult>, k: int) -> bool {
    exists|i: int| is_first_id(m, i) && r[k] == #[trigger] m[i]
}

proof fn lemma_first_occurrence(m: Seq<SearchResult>, i: int)
    requires
        0 <= i < m.len(),
    ensures
        exists|j: int| 0 <= j <= i && is_first_id(m, j) && (#[trigger] m[j]).imdb_id@ == m[i].imdb_id@,
    decreases i,
{
    if !is_first_id(m, i) {
        let j = choose|j: int| 0 <= j < i && (#[trigger] m[j]).imdb_id@ == m[i].imdb_id@;
        lemma_first_occurrence(m, j);
        let k = choose|k: int| 0 <= k <= j && is_first_id(m, k) && (#[trigger] m[k]).imdb_id@ == m[j].imdb_id@;
        assert(m[k].imdb_id@ == m[i].imdb_id@);
    } else {
        assert(m[i].imdb_id@ == m[i].imdb_id@);
    }
}

/// After removing repeated identifiers, each identifier of the input appears
/// exactly once, and the entry that stays for it is its first occurrence (the
/// one merged earliest).
pub proof fn lemma_dedup_keeps_first(m: Seq<SearchResult>, r: Seq<SearchResult>)
    requires
        is_dedup_by_id(m, r),
        m.len() <= usize::MAX,
    ensures
        forall|a: int, b: int| 0 <= a < b < r.len() ==> (#[trigger] r[a]).imdb_id@ != (#[trigger] r[b]).imdb_id@,
        forall|i: int| 0 <= i < m.len() ==> id_kept(m, r, i),
        forall|k: int| 0 <= k < r.len() ==> kept_is_first(m, r, k),
{
    let idx = choose|idx: Seq<usize>| #[trigger] keeps_first(m, idx, r);
    assert forall|a: int, b: int| 0 <= a < b < r.len() implies (#[trigger] r[a]).imdb_id@ != (#[trigger] r[b]).imdb_id@ by {
        assert(idx[a] < idx[b]);
        assert(idx.contains(idx[b]));
        assert(is_first_id(m, idx[b] as int));
        assert(m[idx[a] as int] == r[a]);
    }
    assert forall|i: int| 0 <= i < m.len() implies id_kept(m, r, i) by {
        lemma_first_occurrence(m, i);
        let j = choose|j: int| 0 <= j <= i && is_first_id(m, j) && (#[trigger] m[j]).imdb_id@ == m[i].imdb_id@;
        assert((j as usize) as int == j);
        assert(idx.contains(j as usize));
        let k = choose|k: int| 0 <= k < idx.len() && idx[k] == j as usize;
        assert(r[k] == m[j]);
    }
    assert forall|k: int| 0 <= k < r.len() implies kept_is_first(m, r, k) by {
        assert(idx.contains(idx[k]));
        assert(is_first_id(m, idx[k] as int));
        assert(r[k] == m[idx[k] as int]);
    }
}

/// Relies on itertools::Itertools::unique_by: in order, the items whose key
/// was not produced before; keys are compared by equality. Here the items are
/// positions and the key of a position is the string there.
#[verifier::external_body]
fn first_occurrences(ids: &Vec<String>) -> (r: Vec<usize>)
    ensures
        forall|a: int, b: int| 0 <= a < b < r.len() ==> #[trigger] r[a] < #[trigger] r[b],
        forall|i: usize|
            #[trigger] r@.contains(i) <==> (i < ids.len() && forall|j: int|
                0 <= j < i ==> (#[trigger] ids[j])@ != ids[i as int]@),
{
    ids.iter().enumerate().unique_by(|(_, id)| *id).map(|(i, _)| i).collect()
}

/// Drops every entry whose catalogue identifier appeared earlier.
pub fn dedup_by_id(m: &Vec<SearchResult>) -> (r: Vec<SearchResult>)
    ensures
        is_dedup_by_id(m@, r@),
{
    let mut ids: Vec<String> = Vec::new();
    let mut i: usize = 0;
    while i < m.len()
        invariant
            i <= m.len(),
            ids.len() == i,
            forall|j: int| 0 <= j < i ==> #[trigger] ids[j]@ == m[j].imdb_id@,
        decreases m.len() - i,
    {
        ids.push(m[i].imdb_id.clone());
        i = i + 1;
    }
    let idx = first_occurrences(&ids);
    proof {
        assert forall|x: usize| #[trigger] idx@.contains(x) <==> is_first_id(m@, x as int) by {
            if idx@.contains(x) {
                assert forall|j: int| 0 <= j < x implies (#[trigger] m@[j]).imdb_id@ != m@[x as int].imdb_id@ by {
                    assert(ids[j]@ != ids[x as int]@);
                }
            }
            if is_first_id(m@, x as int) {
                assert forall|j: int| 0 <= j < x implies (#[trigger] ids[j])@ != ids[x as int]@ by {
                    assert(m@[j].imdb_id@ != m@[x as int].imdb_id@);
                }
            }
        }
    }
    let mut r: Vec<SearchResult> = Vec::new();
    let mut k: usize = 0;
    while k < idx.len()
        invariant
            forall|x: usize| #[trigger] idx@.contains(x) <==> is_first_id(m@, x as int),
            k <= idx.len(),
            r@.len() == k,
            forall|a: int| 0 <= a < k ==> #[trigger] r@[a] == m@[idx@[a] as int],
        decreases idx.len() - k,
    {
        let x = idx[k];
        assert(idx@.contains(x));
        r.push(m[x].duplicate());
        k = k + 1;
    }
    assert(keeps_first(m@, idx@, r@));
    r
}

} // verus!
