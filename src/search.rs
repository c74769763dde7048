//! The request fan-out engine: classifies the outcome of each request, stops
//! at the first fatal failure, and merges the pages that came back.
use vstd::prelude::*;

use crate::errors::{MaybeFatal, RequestError};
use crate::merge::{
    dedup_by_id, follows_order, id_kept, is_dedup_by_id, is_first_id, is_merge_order,
    is_rank_merge, is_slot, keeps_first, kept_is_first, key_lt, lemma_dedup_keeps_first,
    lemma_rank_merge_order, page_views, rank_merge,
};
use crate::omdb::SearchResult;
use crate::text::ends_with;

verus! {

/// Reading time granted per recorded warning, in milliseconds.
pub const READING_TIME_PER_WARNING_MS: u64 = 200;

/// What one request of the fan-out came back with.
#[derive(Debug)]
pub enum RequestOutcome {
    /// A page of results, in the database's ranking for that query.
    Results(Vec<SearchResult>),
    /// The database knows no match for this combination: not an error.
    EmptyNotFound,
    /// The request failed; the error says whether that is fatal.
    Failure(RequestError),
}

/// Why a search produced no list.
#[derive(Debug)]
pub enum SearchError {
    /// A request failed fatally; the search was abandoned.
    Fatal(RequestError),
    /// No request found anything, and at least one reported that nothing
    /// matches.
    NoMatches,
    /// Every request failed recoverably; this is the last such failure.
    AllFailed(RequestError),
}

/// Whether a database error message says that the title was not found.
pub open spec fn reports_not_found(msg: Seq<char>) -> bool {
    let suffix = "not found!"@;
    suffix.len() <= msg.len() && msg.subrange(msg.len() - suffix.len(), msg.len() as int) == suffix
}

/// The outcome that a request's response stands for.
pub open spec fn spec_classify(response: Result<Vec<SearchResult>, RequestError>) -> RequestOutcome {
    match response {
        Ok(page) => RequestOutcome::Results(page),
        Err(e) => if e matches RequestError::Omdb(msg) && reports_not_found(msg@) {
            RequestOutcome::EmptyNotFound
        } else {
            RequestOutcome::Failure(e)
        },
    }
}

/// Turns a request's response into an outcome: a "not found" message from the
/// database is no failure but an empty outcome.
pub fn classify(response: Result<Vec<SearchResult>, RequestError>) -> (r: RequestOutcome)
    ensures
        r == spec_classify(response),
{
    match response {
        Ok(page) => RequestOutcome::Results(page),
        Err(e) => {
            let not_found = match &e {
                RequestError::Omdb(msg) => ends_with(msg.as_str(), "not found!"),
                _ => false,
            };
            if not_found {
                RequestOutcome::EmptyNotFound
            } else {
                RequestOutcome::Failure(e)
            }
        },
    }
}

pub open spec fn is_fatal_failure(o: RequestOutcome) -> bool {
    o matches RequestOutcome::Failure(e) && e.fatal()
}

pub open spec fn is_recoverable_failure(o: RequestOutcome) -> bool {
    o matches RequestOutcome::Failure(e) && !e.fatal()
}

/// The pages of results among the outcomes, in order.
pub open spec fn pages_of(outs: Seq<RequestOutcome>) -> Seq<Seq<SearchResult>>
    decreases outs.len(),
{
    if outs.len() == 0 {
        Seq::empty()
    } else {
        let earlier = pages_of(outs.drop_last());
        match outs.last() {
            RequestOutcome::Results(page) => earlier.push(page@),
            _ => earlier,
        }
    }
}

pub open spec fn any_not_found(outs: Seq<RequestOutcome>) -> bool {
    exists|i: int| 0 <= i < outs.len() && #[trigger] outs[i] is EmptyNotFound
}

/// The error of the last recoverable failure among the outcomes.
pub open spec fn last_recoverable(outs: Seq<RequestOutcome>) -> Option<RequestError>
    decreases outs.len(),
{
    if outs.len() == 0 {
        None
    } else if is_recoverable_failure(outs.last()) {
        Some(outs.last()->Failure_0)
    } else {
        last_recoverable(outs.drop_last())
    }
}

/// Number of recoverable failures among the outcomes.
pub open spec fn recoverable_count(outs: Seq<RequestOutcome>) -> nat
    decreases outs.len(),
{
    if outs.len() == 0 {
        0
    } else {
        recoverable_count(outs.drop_last()) + if is_recoverable_failure(outs.last()) {
            1nat
        } else {
            0nat
        }
    }
}

/// Whether `i` is the position of the first fatal failure.
pub open spec fn is_first_fatal(outs: Seq<RequestOutcome>, i: int) -> bool {
    0 <= i < outs.len() && is_fatal_failure(outs[i]) && forall|j: int|
        0 <= j < i ==> !is_fatal_failure(#[trigger] outs[j])
}

pub open spec fn has_fatal(outs: Seq<RequestOutcome>) -> bool {
    exists|i: int| 0 <= i < outs.len() && is_fatal_failure(#[trigger] outs[i])
}

/// The error of the first fatal failure, if any.
pub open spec fn first_fatal(outs: Seq<RequestOutcome>) -> Option<RequestError> {
    if has_fatal(outs) {
        Some(outs[choose|i: int| is_first_fatal(outs, i)]->Failure_0)
    } else {
        None
    }
}

/// The error reported when no page came back.
pub open spec fn no_results_error(saw_not_found: bool, last_failure: Option<RequestError>) -> SearchError {
    if saw_not_found {
        SearchError::NoMatches
    } else {
        match last_failure {
            Some(e) => SearchError::AllFailed(e),
            None => SearchError::NoMatches,
        }
    }
}

/// How the search ends for these outcomes, when it ends in an error.
pub open spec fn search_error(outs: Seq<RequestOutcome>) -> Option<SearchError> {
    match first_fatal(outs) {
        Some(e) => Some(SearchError::Fatal(e)),
        None => if pages_of(outs).len() == 0 {
            Some(no_results_error(any_not_found(outs), last_recoverable(outs)))
        } else {
            None
        },
    }
}

/// `out` is the rank merge of the pages with repeated identifiers removed.
pub open spec fn is_merged_result(pages: Seq<Seq<SearchResult>>, out: Seq<SearchResult>) -> bool {
    exists|m: Seq<SearchResult>|
        #[trigger] is_rank_merge(pages, m) && is_dedup_by_id(m, out) && m.len() <= usize::MAX
}

/// The state carried across the requests of one search.
#[derive(Debug)]
pub struct FanOut {
    /// The pages received so far, in request order.
    pub pages: Vec<Vec<SearchResult>>,
    /// Whether some request reported that nothing matches.
    pub saw_not_found: bool,
    /// The last recoverable failure.
    pub last_failure: Option<RequestError>,
    /// Number of recoverable failures, which earn the reader time.
    pub warnings: usize,
}

impl FanOut {
    pub fn new() -> (r: FanOut)
        ensures
            r.pages@.len() == 0,
            !r.saw_not_found,
            r.last_failure is None,
            r.warnings == 0,
    {
        FanOut { pages: Vec::new(), saw_not_found: false, last_failure: None, warnings: 0 }
    }

    /// Takes in the outcome of the next request. A fatal failure is handed
    /// back as an error, leaving the state as it was: the search must stop.
    pub fn record(&mut self, outcome: RequestOutcome) -> (r: Result<(), RequestError>)
        ensures
            outcome matches RequestOutcome::Results(page) ==> {
                &&& r is Ok
                &&& final(self).pages@ == old(self).pages@.push(page)
                &&& final(self).saw_not_found == old(self).saw_not_found
                &&& final(self).last_failure == old(self).last_failure
                &&& final(self).warnings == old(self).warnings
            },
            outcome is EmptyNotFound ==> {
                &&& r is Ok
                &&& final(self).pages@ == old(self).pages@
                &&& final(self).saw_not_found
                &&& final(self).last_failure == old(self).last_failure
                &&& final(self).warnings == old(self).warnings
            },
            is_fatal_failure(outcome) ==> r == Err::<(), RequestError>(outcome->Failure_0) && *final(self) == *old(self),
            is_recoverable_failure(outcome) ==> {
                &&& r is Ok
                &&& final(self).pages@ == old(self).pages@
                &&& final(self).saw_not_found == old(self).saw_not_found
                &&& final(self).last_failure == Some(outcome->Failure_0)
                &&& final(self).warnings == if old(self).warnings < usize::MAX {
                    old(self).warnings + 1
                } else {
                    old(self).warnings as int
                }
            },
    {
        match outcome {
            RequestOutcome::Results(page) => {
                self.pages.push(page);
                Ok(())
            },
            RequestOutcome::EmptyNotFound => {
                self.saw_not_found = true;
                Ok(())
            },
            RequestOutcome::Failure(e) => {
                if e.is_fatal() {
                    Err(e)
                } else {
                    self.last_failure = Some(e);
                    if self.warnings < usize::MAX {
                        self.warnings = self.warnings + 1;
                    }
                    Ok(())
                }
            },
        }
    }

    /// Milliseconds of reading time earned by the warnings so far.
    pub fn reading_time_ms(&self) -> (r: u64)
        ensures
            r == if self.warnings * READING_TIME_PER_WARNING_MS <= u64::MAX {
                self.warnings * READING_TIME_PER_WARNING_MS
            } else {
                u64::MAX as int
            },
    {
        let w = self.warnings as u64;
        if w <= u64::MAX / READING_TIME_PER_WARNING_MS {
            w * READING_TIME_PER_WARNING_MS
        } else {
            u64::MAX
        }
    }

    /// Ends the search: merges the pages by rank and drops repeated
    /// identifiers, or, when no page came back, says why.
    pub fn finish(self) -> (r: Result<Vec<SearchResult>, SearchError>)
        ensures
            self.pages@.len() == 0 ==> r == Err::<Vec<SearchResult>, SearchError>(
                no_results_error(self.saw_not_found, self.last_failure),
            ),
            self.pages@.len() > 0 ==> r is Ok && is_merged_result(page_views(self.pages@), r->Ok_0@),
    {
        if self.pages.len() == 0 {
            if self.saw_not_found {
                Err(SearchError::NoMatches)
            } else {
                match self.last_failure {
                    Some(e) => Err(SearchError::AllFailed(e)),
                    None => Err(SearchError::NoMatches),
                }
            }
        } else {
            let merged = rank_merge(&self.pages);
            let merged_len = merged.len();
            let out = dedup_by_id(&merged);
            assert(is_rank_merge(page_views(self.pages@), merged@) && is_dedup_by_id(merged@, out@)
                && merged@.len() <= usize::MAX);
            Ok(out)
        }
    }
}

proof fn lemma_first_fatal_at(outs: Seq<RequestOutcome>, i: int)
    requires
        is_first_fatal(outs, i),
    ensures
        first_fatal(outs) == Some(outs[i]->Failure_0),
{
    assert(has_fatal(outs));
    let c = choose|k: int| is_first_fatal(outs, k);
    assert(is_first_fatal(outs, c));
    if c < i {
        assert(!is_fatal_failure(outs[c]));
    } else if c > i {
        assert(!is_fatal_failure(outs[i]));
    }
}

/// Runs the fan-out over the outcomes of the requests, in request order: the
/// first fatal failure ends the search with that error, whatever the other
/// outcomes hold; otherwise the pages are merged by rank and repeated
/// identifiers dropped; when no page came back, a "no matches" error if some
/// request reported one, else the last recoverable failure.
pub fn get_results(outcomes: Vec<RequestOutcome>) -> (r: Result<Vec<SearchResult>, SearchError>)
    ensures
        search_error(outcomes@) matches Some(e) ==> r == Err::<Vec<SearchResult>, SearchError>(e),
        search_error(outcomes@) is None ==> r is Ok && is_merged_result(pages_of(outcomes@), r->Ok_0@),
{
    let ghost outs = outcomes@;
    let mut rest = outcomes;
    let mut fan = FanOut::new();
    let n = rest.len();
    let mut i: usize = 0;
    while i < n
        invariant
            outs == outcomes@,
            n == outs.len(),
            i <= n,
            rest@ == outs.skip(i as int),
            page_views(fan.pages@) == pages_of(outs.take(i as int)),
            fan.saw_not_found == any_not_found(outs.take(i as int)),
            fan.last_failure == last_recoverable(outs.take(i as int)),
            forall|j: int| 0 <= j < i ==> !is_fatal_failure(#[trigger] outs[j]),
        decreases n - i,
    {
        let ghost pre = outs.take(i as int);
        let ghost next = outs.take(i + 1);
        assert(rest@[0] == outs[i as int]);
        assert(next.drop_last() =~= pre);
        assert(next.last() == outs[i as int]);
        let ghost old_pages = fan.pages@;
        let o = rest.remove(0);
        assert(rest@ =~= outs.skip(i + 1));
        let step = fan.record(o);
        match step {
            Err(e) => {
                proof {
                    assert(o == outs[i as int]);
                    if !is_fatal_failure(o) {
                        assert(o is Results || o is EmptyNotFound || is_recoverable_failure(o));
                    }
                    assert(is_first_fatal(outs, i as int));
                    lemma_first_fatal_at(outs, i as int);
                    assert(e == o->Failure_0);
                    assert(search_error(outs) == Some(SearchError::Fatal(e)));
                }
                return Err(SearchError::Fatal(e));
            },
            Ok(()) => {},
        }
        proof {
            assert(page_views(fan.pages@) =~= pages_of(next));
            if o is EmptyNotFound {
                assert(next[i as int] is EmptyNotFound);
            } else {
                assert forall|k: int| 0 <= k < next.len() && #[trigger] next[k] is EmptyNotFound implies pre[k] is EmptyNotFound by {
                    assert(k < i);
                }
                assert(any_not_found(pre) ==> any_not_found(next)) by {
                    if any_not_found(pre) {
                        let k = choose|k: int| 0 <= k < pre.len() && #[trigger] pre[k] is EmptyNotFound;
                        assert(next[k] is EmptyNotFound);
                    }
                }
            }
        }
        i = i + 1;
    }
    assert(outs.take(n as int) =~= outs);
    assert(!has_fatal(outs));
    fan.finish()
}

/// If every request reports that nothing matches, the search ends in the
/// aggregate "no matches" error, not in a failure.
pub proof fn lemma_all_not_found(outs: Seq<RequestOutcome>)
    requires
        outs.len() > 0,
        forall|i: int| 0 <= i < outs.len() ==> #[trigger] outs[i] is EmptyNotFound,
    ensures
        search_error(outs) == Some(SearchError::NoMatches),
{
    lemma_no_pages(outs);
    assert(outs[0] is EmptyNotFound);
    assert(!has_fatal(outs)) by {
        assert forall|i: int| 0 <= i < outs.len() implies !is_fatal_failure(#[trigger] outs[i]) by {
            assert(outs[i] is EmptyNotFound);
        }
    }
}

proof fn lemma_no_pages(outs: Seq<RequestOutcome>)
    requires
        forall|i: int| 0 <= i < outs.len() ==> #[trigger] outs[i] is EmptyNotFound,
    ensures
        pages_of(outs).len() == 0,
    decreases outs.len(),
{
    if outs.len() > 0 {
        let front = outs.drop_last();
        assert forall|i: int| 0 <= i < front.len() implies #[trigger] front[i] is EmptyNotFound by {
            assert(front[i] == outs[i]);
        }
        lemma_no_pages(front);
        assert(outs[outs.len() - 1] is EmptyNotFound);
    }
}

/// A fatal failure at position `i`, with no fatal failure before it, ends the
/// search with exactly that error: no page from before or after it reaches the
/// caller, whatever those requests returned.
pub proof fn lemma_fatal_short_circuit(outs: Seq<RequestOutcome>, i: int)
    requires
        0 <= i < outs.len(),
        is_fatal_failure(outs[i]),
        forall|j: int| 0 <= j < i ==> !is_fatal_failure(#[trigger] outs[j]),
    ensures
        search_error(outs) == Some(SearchError::Fatal(outs[i]->Failure_0)),
{
    lemma_first_fatal_at(outs, i);
}

/// The entry in slot `k`: page `k.1`, rank `k.0`.
pub open spec fn entry_at(pages: Seq<Seq<SearchResult>>, k: (usize, usize)) -> SearchResult {
    pages[k.1 as int][k.0 as int]
}

/// No two slots of the pages hold the same catalogue identifier.
pub open spec fn distinct_ids(pages: Seq<Seq<SearchResult>>) -> bool {
    forall|a: (usize, usize), b: (usize, usize)|
        is_slot(pages, a) && is_slot(pages, b) && a != b ==> (#[trigger] entry_at(pages, a)).imdb_id@
            != (#[trigger] entry_at(pages, b)).imdb_id@
}

/// A strictly ascending sequence that holds exactly the numbers below `n` is
/// `0, 1, ..., k` up to `k`.
proof fn lemma_ascending_identity(idx: Seq<usize>, n: nat, k: int)
    requires
        forall|a: int, b: int| 0 <= a < b < idx.len() ==> #[trigger] idx[a] < #[trigger] idx[b],
        forall|i: usize| #[trigger] idx.contains(i) <==> (i as nat) < n,
        0 <= k < idx.len(),
    ensures
        forall|q: int| 0 <= q <= k ==> #[trigger] idx[q] == q,
    decreases k,
{
    if k > 0 {
        lemma_ascending_identity(idx, n, k - 1);
        assert(idx[k - 1] < idx[k]);
    }
    if idx[k] as int > k {
        assert(idx.contains(idx[k]));
        assert((k as usize) < idx[k]);
        assert(idx.contains(k as usize));
        let q = choose|q: int| 0 <= q < idx.len() && idx[q] == k as usize;
        if q < k {
            assert(idx[q] == q);
        } else if q > k {
            assert(idx[k] < idx[q]);
        }
    }
}

/// When every position of `m` is a first occurrence, removing repeats keeps
/// `m` whole.
proof fn lemma_dedup_of_distinct(m: Seq<SearchResult>, out: Seq<SearchResult>)
    requires
        is_dedup_by_id(m, out),
        m.len() <= usize::MAX,
        forall|i: int| 0 <= i < m.len() ==> is_first_id(m, i),
    ensures
        out == m,
{
    let idx = choose|idx: Seq<usize>| #[trigger] keeps_first(m, idx, out);
    assert forall|i: usize| #[trigger] idx.contains(i) <==> (i as nat) < m.len() by {
        if (i as nat) < m.len() {
            assert(is_first_id(m, i as int));
        }
    }
    if idx.len() > 0 {
        lemma_ascending_identity(idx, m.len(), idx.len() - 1);
        assert(idx.contains(idx[idx.len() - 1]));
    }
    if m.len() > 0 {
        assert(idx.contains((m.len() - 1) as usize));
        let q = choose|q: int| 0 <= q < idx.len() && idx[q] == (m.len() - 1) as usize;
        lemma_ascending_identity(idx, m.len(), q);
    }
    assert(idx.len() == m.len());
    assert forall|k: int| 0 <= k < out.len() implies out[k] == m[k] by {
        lemma_ascending_identity(idx, m.len(), k);
    }
    assert(out =~= m);
}

/// With distinct identifiers, the search result is the rank merge itself:
/// every entry of every page, in (rank, page) order.
proof fn lemma_distinct_result_is_merge(pages: Seq<Seq<SearchResult>>, out: Seq<SearchResult>) -> (keys: Seq<(usize, usize)>)
    requires
        is_merged_result(pages, out),
        distinct_ids(pages),
    ensures
        is_merge_order(pages, keys),
        follows_order(pages, keys, out),
{
    let m = choose|m: Seq<SearchResult>|
        #[trigger] is_rank_merge(pages, m) && is_dedup_by_id(m, out) && m.len() <= usize::MAX;
    let keys = choose|keys: Seq<(usize, usize)>| #[trigger] is_merge_order(pages, keys) && follows_order(pages, keys, m);
    lemma_rank_merge_order(pages, keys, m);
    assert forall|i: int| 0 <= i < m.len() implies is_first_id(m, i) by {
        assert forall|j: int| 0 <= j < i implies (#[trigger] m[j]).imdb_id@ != m[i].imdb_id@ by {
            assert(keys.contains(keys[i]) && keys.contains(keys[j]));
            assert(keys[j] != keys[i]);
            assert(m[j] == entry_at(pages, keys[j]));
            assert(m[i] == entry_at(pages, keys[i]));
        }
    }
    lemma_dedup_of_distinct(m, out);
    keys
}

/// Rank order of the search result, when no identifier repeats: every entry
/// of every page is in the result, and an entry of lower rank comes before
/// every entry of higher rank, and of two entries of equal rank the one from
/// the earlier page comes first.
pub proof fn lemma_result_rank_order(
    pages: Seq<Seq<SearchResult>>,
    out: Seq<SearchResult>,
    a: (usize, usize),
    b: (usize, usize),
)
    requires
        is_merged_result(pages, out),
        distinct_ids(pages),
        is_slot(pages, a),
        is_slot(pages, b),
    ensures
        exists|i: int| 0 <= i < out.len() && out[i] == #[trigger] entry_at(pages, a),
        forall|i: int, j: int|
            0 <= i < out.len() && 0 <= j < out.len() && out[i] == entry_at(pages, a) && out[j]
                == entry_at(pages, b) && key_lt(a, b) ==> i < j,
{
    let keys = lemma_distinct_result_is_merge(pages, out);
    lemma_rank_merge_order(pages, keys, out);
    assert(keys.contains(a));
    let ia = choose|i: int| 0 <= i < keys.len() && keys[i] == a;
    assert(out[ia] == entry_at(pages, a));
    assert forall|i: int, j: int|
        0 <= i < out.len() && 0 <= j < out.len() && out[i] == entry_at(pages, a) && out[j]
            == entry_at(pages, b) && key_lt(a, b) implies i < j by {
        assert(keys.contains(keys[i]) && keys.contains(keys[j]));
        assert(out[i] == entry_at(pages, keys[i]));
        assert(out[j] == entry_at(pages, keys[j]));
        assert(keys[i] == a);
        assert(keys[j] == b);
    }
}

/// When every request returned a page of one entry and no identifier
/// repeats, the search result is those entries in request order.
pub proof fn lemma_single_entry_pages(pages: Seq<Seq<SearchResult>>, out: Seq<SearchResult>)
    requires
        is_merged_result(pages, out),
        distinct_ids(pages),
        pages.len() <= usize::MAX,
        forall|p: int| 0 <= p < pages.len() ==> (#[trigger] pages[p]).len() == 1,
    ensures
        out == Seq::new(pages.len(), |p: int| pages[p][0]),
{
    let keys = lemma_distinct_result_is_merge(pages, out);
    let ps = keys.map_values(|k: (usize, usize)| k.1);
    assert forall|q: int| 0 <= q < keys.len() implies (#[trigger] keys[q]).0 == 0 by {
        assert(keys.contains(keys[q]));
    }
    assert forall|a: int, b: int| 0 <= a < b < ps.len() implies #[trigger] ps[a] < #[trigger] ps[b] by {
        assert(key_lt(keys[a], keys[b]));
        assert(keys[a].0 == 0 && keys[b].0 == 0);
    }
    assert forall|i: usize| #[trigger] ps.contains(i) <==> (i as nat) < pages.len() by {
        if ps.contains(i) {
            let q = choose|q: int| 0 <= q < ps.len() && ps[q] == i;
            assert(keys.contains(keys[q]));
        }
        if (i as nat) < pages.len() {
            assert(pages[i as int].len() == 1);
            assert(is_slot(pages, (0usize, i)));
            assert(keys.contains((0usize, i)));
            let q = choose|q: int| 0 <= q < keys.len() && keys[q] == (0usize, i);
            assert(ps[q] == i);
        }
    }
    if ps.len() > 0 {
        lemma_ascending_identity(ps, pages.len() as nat, ps.len() - 1);
        assert(ps.contains(ps[ps.len() - 1]));
    }
    if pages.len() > 0 {
        assert(ps.contains((pages.len() - 1) as usize));
        let q = choose|q: int| 0 <= q < ps.len() && ps[q] == (pages.len() - 1) as usize;
        lemma_ascending_identity(ps, pages.len() as nat, q);
    }
    assert(out.len() == pages.len());
    assert forall|i: int| 0 <= i < out.len() implies out[i] == pages[i][0] by {
        lemma_ascending_identity(ps, pages.len() as nat, i);
        assert(ps[i] == i);
        assert(ps[i] == keys[i].1);
        assert(keys[i].0 == 0);
        assert(keys[i] == (0usize, i as usize));
    }
    assert(out =~= Seq::new(pages.len(), |p: int| pages[p][0]));
}

/// Some entry of `out` has the identifier of slot `a`.
pub open spec fn id_in_result(pages: Seq<Seq<SearchResult>>, out: Seq<SearchResult>, a: (usize, usize)) -> bool {
    exists|k: int| 0 <= k < out.len() && (#[trigger] out[k]).imdb_id@ == entry_at(pages, a).imdb_id@
}

/// `out[k]` is the entry of a slot that no other slot with its identifier
/// precedes in (rank, page) order.
pub open spec fn kept_earliest(pages: Seq<Seq<SearchResult>>, out: Seq<SearchResult>, k: int) -> bool {
    exists|a: (usize, usize)|
        is_slot(pages, a) && out[k] == #[trigger] entry_at(pages, a) && is_earliest_with_id(pages, a)
}

/// No slot with the identifier of slot `a` precedes `a` in (rank, page) order.
pub open spec fn is_earliest_with_id(pages: Seq<Seq<SearchResult>>, a: (usize, usize)) -> bool {
    forall|b: (usize, usize)|
        is_slot(pages, b) && (#[trigger] entry_at(pages, b)).imdb_id@ == entry_at(pages, a).imdb_id@
            ==> !key_lt(b, a)
}

/// Duplicates in the search result: every identifier of every page appears
/// in the result exactly once, and the entry that stays for it is the one
/// merged earliest, from the lowest rank and, at equal rank, the earliest page.
pub proof fn lemma_result_keeps_earliest(pages: Seq<Seq<SearchResult>>, out: Seq<SearchResult>)
    requires
        is_merged_result(pages, out),
    ensures
        forall|p: int, q: int| 0 <= p < q < out.len() ==> (#[trigger] out[p]).imdb_id@ != (#[trigger] out[q]).imdb_id@,
        forall|a: (usize, usize)| is_slot(pages, a) ==> #[trigger] id_in_result(pages, out, a),
        forall|k: int| 0 <= k < out.len() ==> #[trigger] kept_earliest(pages, out, k),
{
    let m = choose|m: Seq<SearchResult>|
        #[trigger] is_rank_merge(pages, m) && is_dedup_by_id(m, out) && m.len() <= usize::MAX;
    let keys = choose|keys: Seq<(usize, usize)>| #[trigger] is_merge_order(pages, keys) && follows_order(pages, keys, m);
    lemma_rank_merge_order(pages, keys, m);
    lemma_dedup_keeps_first(m, out);
    assert forall|a: (usize, usize)| is_slot(pages, a) implies #[trigger] id_in_result(pages, out, a) by {
        assert(keys.contains(a));
        let i = choose|i: int| 0 <= i < keys.len() && keys[i] == a;
        assert(m[i] == entry_at(pages, a));
        assert(id_kept(m, out, i));
        let k = choose|k: int| 0 <= k < out.len() && (#[trigger] out[k]).imdb_id@ == m[i].imdb_id@;
        assert(out[k].imdb_id@ == entry_at(pages, a).imdb_id@);
    }
    assert forall|k: int| 0 <= k < out.len() implies #[trigger] kept_earliest(pages, out, k) by {
        assert(kept_is_first(m, out, k));
        let i = choose|i: int| is_first_id(m, i) && out[k] == #[trigger] m[i];
        let a = keys[i];
        assert(keys.contains(a));
        assert(m[i] == entry_at(pages, a));
        assert forall|b: (usize, usize)|
            is_slot(pages, b) && (#[trigger] entry_at(pages, b)).imdb_id@ == entry_at(pages, a).imdb_id@ implies !key_lt(b, a) by {
            assert(keys.contains(b));
            let j = choose|j: int| 0 <= j < keys.len() && keys[j] == b;
            assert(m[j] == entry_at(pages, b));
            if key_lt(b, a) {
                assert(j < i);
                assert(m[j].imdb_id@ != m[i].imdb_id@);
            }
        }
        assert(is_earliest_with_id(pages, a));
    }
}

/// How long to pause before handing the results over, so that a reader can see
/// the warnings: only when pauses are allowed and the list is not empty.
pub fn reading_pause(allow_reading_time: bool, result_count: usize, reading_time_ms: u64) -> (r: u64)
    ensures
        r == if allow_reading_time && result_count > 0 {
            reading_time_ms
        } else {
            0
        },
{
    if allow_reading_time && result_count > 0 {
        reading_time_ms
    } else {
        0
    }
}

} // verus!
