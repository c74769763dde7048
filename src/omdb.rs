//! The records that a title search returns.
use vstd::prelude::*;

use crate::errors::ApiKeyError;
use crate::filters::{year_text, Filters, Year};
use crate::media::media_text;
use crate::user_input::texts;
use crate::text::{decimal_text, digit_char, parse_decimal, spec_parse_decimal, u16_text};
use crate::media::MediaType;

verus! {

/// One candidate of a title search. Two results are the same title when their
/// catalogue identifiers are equal.
#[derive(Debug, Clone)]
pub struct SearchResult {
    pub title: String,
    pub year: Year,
    pub imdb_id: String,
    pub media_type: MediaType,
}

/// A page of search results as the database returns it.
#[derive(Debug, Clone)]
pub struct SearchResults {
    pub entries: Vec<SearchResult>,
    /// The database's count of all matches, beyond this page.
    pub total_results: u32,
}

impl SearchResult {
    /// The result as it is written for a reader: "title (kind, years)".
    pub fn to_text(&self, current_year: u16) -> (r: String)
        ensures
            r@ == self.title@ + " ("@ + media_text(self.media_type) + ", "@ + year_text(
                self.year,
                current_year,
            ) + ")"@,
    {
        let mut r = self.title.clone();
        r.append(" (");
        let t = self.media_type.to_text();
        r.append(t.as_str());
        r.append(", ");
        let y = self.year.to_text(current_year);
        r.append(y.as_str());
        r.append(")");
        r
    }

    /// A field-by-field copy.
    pub fn duplicate(&self) -> (r: SearchResult)
        ensures
            r == *self,
    {
        SearchResult {
            title: self.title.clone(),
            year: self.year,
            imdb_id: self.imdb_id.clone(),
            media_type: self.media_type,
        }
    }
}

/// One single-valued combination of filter values, attached to one request:
/// at most one media kind and at most one year.
#[derive(Debug, Clone, Copy, PartialEq, Eq, Structural)]
pub struct FilterParameters {
    pub media_type: Option<MediaType>,
    pub year: Option<u16>,
}

/// How a parameter set is written in a warning.
pub open spec fn parameters_text(p: FilterParameters) -> Seq<char> {
    match (p.media_type, p.year) {
        (Some(t), None) => media_text(t),
        (None, Some(y)) => "year "@ + decimal_text(y as nat),
        (Some(t), Some(y)) => media_text(t) + ", year "@ + decimal_text(y as nat),
        (None, None) => "no filters"@,
    }
}

impl FilterParameters {
    /// The parameter set as it is written in a warning.
    pub fn to_text(&self) -> (r: String)
        ensures
            r@ == parameters_text(*self),
    {
        match (self.media_type, self.year) {
            (Some(t), None) => t.to_text(),
            (None, Some(y)) => {
                let mut r = String::from_str("year ");
                let n = u16_text(y);
                r.append(n.as_str());
                r
            },
            (Some(t), Some(y)) => {
                let mut r = t.to_text();
                r.append(", year ");
                let n = u16_text(y);
                r.append(n.as_str());
                r
            },
            (None, None) => String::from_str("no filters"),
        }
    }
}

/// Every parameter set that the filters call for, in request order: one plain
/// request without constraints; one per year, ascending; one per kind, in
/// canonical order; or, with both constrained, years as the outer loop and
/// kinds as the inner one.
pub open spec fn planned(f: Filters) -> Seq<FilterParameters> {
    let kinds = f.types.spec_members();
    match f.years {
        None => if f.types.spec_is_all() {
            seq![FilterParameters { media_type: None, year: None }]
        } else {
            Seq::new(kinds.len(), |i: int| FilterParameters { media_type: Some(kinds[i]), year: None })
        },
        Some(y) => if f.types.spec_is_all() {
            Seq::new(
                y.spec_len(),
                |i: int| FilterParameters { media_type: None, year: Some((y.start + i) as u16) },
            )
        } else {
            Seq::new(
                y.spec_len() * kinds.len(),
                |i: int|
                    FilterParameters {
                        media_type: Some(kinds[i % (kinds.len() as int)]),
                        year: Some((y.start + i / (kinds.len() as int)) as u16),
                    },
            )
        },
    }
}

/// The parameter sets that a budget of `budget` requests allows: the first
/// `min(combinations, budget)` of the plan.
pub open spec fn planned_within(f: Filters, budget: nat) -> Seq<FilterParameters> {
    let n = planned(f).len();
    planned(f).take(if n < budget { n as int } else { budget as int })
}

/// Whether `r` is what the generator returns for these filters and budget.
pub open spec fn is_generated(f: Filters, budget: nat, r: Seq<FilterParameters>) -> bool {
    r == planned_within(f, budget)
}

/// The plan has exactly as many entries as the filters have combinations.
pub proof fn lemma_planned_len(f: Filters)
    ensures
        planned(f).len() == f.spec_combinations(),
{
    let k = f.types.spec_members().len();
    assert(k == f.types.spec_count());
    match f.years {
        None => {
            assert(f.year_factor() == 1);
            assert(f.type_factor() * 1 == f.type_factor());
        },
        Some(y) => {
            if f.types.spec_is_all() {
                assert(1 * y.spec_len() == y.spec_len());
            } else {
                assert(y.spec_len() * k == f.types.spec_count() * y.spec_len()) by (nonlinear_arith)
                    requires
                        k == f.types.spec_count(),
                ;
            }
        },
    }
}

/// With neither kinds nor years constrained there is one combination, and the
/// generator plans one request without parameters.
pub proof fn lemma_unconstrained_plan(f: Filters, budget: nat)
    requires
        f.types.spec_is_all(),
        f.years is None,
        budget >= 1,
    ensures
        f.spec_combinations() == 1,
        planned_within(f, budget) == seq![FilterParameters { media_type: None, year: None }],
{
    lemma_planned_len(f);
    assert(planned_within(f, budget) =~= seq![FilterParameters { media_type: None, year: None }]);
}

/// With kinds unconstrained, a range of `n` years (both ends counted) gives
/// `n` combinations.
pub proof fn lemma_year_only_combinations(f: Filters, y: Year)
    requires
        f.types.spec_is_all(),
        f.years == Some(y),
        y.start <= y.end,
    ensures
        f.spec_combinations() == y.end - y.start + 1,
{
    assert(1 * y.spec_len() == y.spec_len());
}

/// With `k` selected kinds (not all of them: all kinds is no constraint) and a
/// range of `n` years, there are `k * n` combinations, and the generator plans
/// `min(k * n, budget)` requests.
pub proof fn lemma_typed_year_combinations(f: Filters, y: Year, budget: nat)
    requires
        !f.types.spec_is_all(),
        f.years == Some(y),
        y.start <= y.end,
    ensures
        f.spec_combinations() == f.types.spec_count() * (y.end - y.start + 1),
        planned_within(f, budget).len() == if f.spec_combinations() < budget {
            f.spec_combinations()
        } else {
            budget
        },
{
    lemma_planned_len(f);
}

/// The generator's result is fixed by its inputs: two runs on equal filters
/// and budget give equal sequences, in the same order.
pub proof fn lemma_generation_deterministic(
    f: Filters,
    budget: nat,
    first: Seq<FilterParameters>,
    second: Seq<FilterParameters>,
)
    requires
        is_generated(f, budget, first),
        is_generated(f, budget, second),
    ensures
        first == second,
{
}

/// Builds the parameter sets for the filters, at most `budget` of them, in the
/// order of `planned`.
pub fn generate_parameters(filters: &Filters, budget: usize) -> (r: Vec<FilterParameters>)
    ensures
        is_generated(*filters, budget as nat, r@),
        r@.len() == if filters.spec_combinations() < budget {
            filters.spec_combinations()
        } else {
            budget as nat
        },
{
    proof {
        lemma_planned_len(*filters);
    }
    let ghost plan = planned(*filters);
    let ghost total = plan.len();
    let ghost want = if total < budget { total as int } else { budget as int };
    let mut r: Vec<FilterParameters> = Vec::new();
    let kinds = filters.types.members();
    let all = filters.types.is_all();
    match filters.years {
        None => {
            if all {
                if budget > 0 {
                    r.push(FilterParameters { media_type: None, year: None });
                }
                assert(r@ =~= planned_within(*filters, budget as nat));
            } else {
                let mut i: usize = 0;
                while i < kinds.len() && i < budget
                    invariant
                        plan == planned(*filters),
                        kinds@ == filters.types.spec_members(),
                        !all,
                        filters.years is None,
                        i <= kinds.len(),
                        i <= budget,
                        plan.len() == kinds.len(),
                        r@ == plan.take(i as int),
                    decreases kinds.len() - i,
                {
                    assert(plan[i as int] == FilterParameters { media_type: Some(kinds[i as int]), year: None });
                    r.push(FilterParameters { media_type: Some(kinds[i]), year: None });
                    assert(r@ =~= plan.take(i + 1));
                    i = i + 1;
                }
                assert(r@ =~= planned_within(*filters, budget as nat));
            }
        },
        Some(y) => {
            let k = if all { 1 } else { kinds.len() };
            let n = y.len();
            assert(n * k <= 3 * 65536) by (nonlinear_arith)
                requires
                    k <= 3,
                    n <= 65536,
            ;
            let total = n * k;
            let mut i: usize = 0;
            while i < total && i < budget
                invariant
                    total == n * k,
                    plan == planned(*filters),
                    kinds@ == filters.types.spec_members(),
                    all == filters.types.spec_is_all(),
                    filters.years == Some(y),
                    n == y.spec_len(),
                    k == if all { 1 } else { kinds.len() },
                    n * k == plan.len(),
                    k <= 3,
                    n <= 65536,
                    i <= total,
                    i <= budget,
                    r@ == plan.take(i as int),
                decreases total - i,
            {
                assert(k > 0) by (nonlinear_arith)
                    requires
                        i < n * k,
                ;
                let year_offset = i / k;
                assert(year_offset < n) by (nonlinear_arith)
                    requires
                        i < n * k,
                        year_offset == i / k,
                        k > 0,
                ;
                assert(y.start + year_offset <= y.end);
                let year = (y.start as usize + year_offset) as u16;
                proof {
                    if all {
                        assert(i / 1 == i);
                        assert(plan[i as int] == FilterParameters { media_type: None, year: Some(year) });
                    } else {
                        assert(plan[i as int] == FilterParameters {
                            media_type: Some(kinds@[(i % k) as int]),
                            year: Some(year),
                        });
                    }
                }
                let p = if all {
                    FilterParameters { media_type: None, year: Some(year) }
                } else {
                    FilterParameters { media_type: Some(kinds[i % k]), year: Some(year) }
                };
                r.push(p);
                assert(r@ =~= plan.take(i + 1));
                i = i + 1;
            }
            assert(r@ =~= planned_within(*filters, budget as nat));
        },
    }
    r
}

/// Whether `sep` occurs in `s` at position `i`.
pub open spec fn occurs_at(s: Seq<char>, sep: Seq<char>, i: int) -> bool {
    0 <= i && i + sep.len() <= s.len() && s.subrange(i, i + sep.len()) == sep
}

/// Whether `i` is the first position at which `sep` occurs in `s`.
pub open spec fn is_first_occurrence(s: Seq<char>, sep: Seq<char>, i: int) -> bool {
    occurs_at(s, sep, i) && forall|j: int| 0 <= j < i ==> !#[trigger] occurs_at(s, sep, j)
}

/// The pieces of `s` between occurrences of the (non-empty) `sep`.
pub open spec fn split_on(s: Seq<char>, sep: Seq<char>) -> Seq<Seq<char>>
    recommends
        sep.len() > 0,
    decreases s.len(),
{
    if sep.len() > 0 && exists|i: int| is_first_occurrence(s, sep, i) {
        let i = choose|i: int| is_first_occurrence(s, sep, i);
        seq![s.take(i)] + split_on(s.skip(i + sep.len()), sep)
    } else {
        seq![s]
    }
}

/// `items` without repeats, the first occurrence of each kept.
pub open spec fn without_repeats(items: Seq<Seq<char>>) -> Seq<Seq<char>>
    decreases items.len(),
{
    if items.len() == 0 {
        Seq::empty()
    } else {
        let kept = without_repeats(items.drop_last());
        if items.drop_last().contains(items.last()) {
            kept
        } else {
            kept.push(items.last())
        }
    }
}

/// What the database writes for a list: `None` for "N/A", else the names
/// separated by ", ", each kept once.
pub open spec fn spec_comma_list(s: Seq<char>) -> Option<Seq<Seq<char>>> {
    if s == "N/A"@ {
        None
    } else {
        Some(without_repeats(split_on(s, ", "@)))
    }
}

proof fn lemma_first_occurrence_unique(s: Seq<char>, sep: Seq<char>, i: int)
    requires
        is_first_occurrence(s, sep, i),
    ensures
        (choose|k: int| is_first_occurrence(s, sep, k)) == i,
{
    let c = choose|k: int| is_first_occurrence(s, sep, k);
    assert(is_first_occurrence(s, sep, c));
    if c < i {
        assert(!occurs_at(s, sep, c));
    } else if c > i {
        assert(!occurs_at(s, sep, i));
    }
}

/// Finds the first occurrence of `sep` in `s` from position `from` on.
fn find_from(s: &str, sep: &str, from: usize) -> (r: Option<usize>)
    requires
        from <= s@.len(),
        sep@.len() > 0,
        forall|j: int| 0 <= j < from ==> !#[trigger] occurs_at(s@, sep@, j),
    ensures
        r matches Some(i) ==> is_first_occurrence(s@, sep@, i as int),
        r is None ==> forall|j: int| !#[trigger] occurs_at(s@, sep@, j),
{
    let n = s.unicode_len();
    let m = sep.unicode_len();
    if m > n {
        return None;
    }
    let mut i: usize = from;
    while i <= n - m
        invariant
            n == s@.len(),
            m == sep@.len(),
            m > 0,
            m <= n,
            i <= n,
            forall|j: int| 0 <= j < i ==> !#[trigger] occurs_at(s@, sep@, j),
        decreases n - i,
    {
        let mut k: usize = 0;
        let mut same = true;
        while k < m
            invariant
                n == s@.len(),
                m == sep@.len(),
                i + m <= n,
                k <= m,
                same == forall|x: int| 0 <= x < k ==> s@[i + x] == #[trigger] sep@[x],
            decreases m - k,
        {
            if s.get_char(i + k) != sep.get_char(k) {
                same = false;
            }
            k = k + 1;
        }
        if same {
            assert(s@.subrange(i as int, i + m) =~= sep@);
            return Some(i);
        }
        assert(!occurs_at(s@, sep@, i as int)) by {
            let x = choose|x: int| 0 <= x < m && s@[i + x] != #[trigger] sep@[x];
            assert(s@.subrange(i as int, i + m)[x] != sep@[x]);
        }
        i = i + 1;
    }
    None
}

/// Reads a list as the database writes it: "N/A" for none, else names
/// separated by ", ", of which repeats are dropped.
pub fn parse_comma_list(s: &str) -> (r: Option<Vec<String>>)
    ensures
        r is None <==> spec_comma_list(s@) is None,
        r matches Some(v) ==> spec_comma_list(s@) == Some(texts(v@)),
{
    proof {
        reveal_strlit("N/A");
        reveal_strlit(", ");
    }
    if s.unicode_len() == 3 && s.get_char(0) == 'N' && s.get_char(1) == '/' && s.get_char(2)
        == 'A' {
        assert(s@ =~= "N/A"@);
        return None;
    }
    assert(s@ != "N/A"@) by {
        if s@ == "N/A"@ {
            assert(s@.len() == 3);
            assert(s@[0] == 'N' && s@[1] == '/' && s@[2] == 'A');
        }
    }
    let sep = ", ";
    let n = s.unicode_len();
    let mut out: Vec<String> = Vec::new();
    let mut start: usize = 0;
    let ghost mut done: Seq<Seq<char>> = Seq::empty();
    assert(sep@.len() == 2);
    assert(s@.skip(0) =~= s@);
    assert(done + split_on(s@.skip(0), sep@) =~= split_on(s@, sep@));
    loop
        invariant
            n == s@.len(),
            start <= n,
            sep@ == ", "@,
            sep@.len() == 2,
            s@ != "N/A"@,
            split_on(s@, sep@) == done + split_on(s@.skip(start as int), sep@),
            texts(out@) == without_repeats(done),
        decreases n - start,
    {
        let rest = s.substring_char(start, n);
        let found = find_from(rest, sep, 0);
        let piece_end = match found {
            Some(i) => start + i,
            None => n,
        };
        let piece = s.substring_char(start, piece_end);
        let ghost tail = s@.skip(start as int);
        assert(rest@ == tail);
        proof {
            match found {
                Some(i) => {
                    lemma_first_occurrence_unique(tail, sep@, i as int);
                    assert(piece@ =~= tail.take(i as int));
                    assert(tail.skip(i + 2) =~= s@.skip(start + i + 2));
                },
                None => {
                    assert(!exists|k: int| is_first_occurrence(tail, sep@, k));
                    assert(piece@ =~= tail);
                },
            }
        }
        let piece_owned = String::from_str(piece);
        let mut seen = false;
        let mut k: usize = 0;
        while k < out.len()
            invariant
                k <= out.len(),
                seen == exists|x: int| 0 <= x < k && #[trigger] out@[x]@ == piece_owned@,
            decreases out.len() - k,
        {
            if out[k] == piece_owned {
                seen = true;
            }
            k = k + 1;
        }
        let ghost new_done = done.push(piece@);
        proof {
            assert(new_done.drop_last() == done);
            assert(done.contains(piece@) == seen) by {
                lemma_without_repeats_members(done);
                let tv = texts(out@);
                assert(tv.len() == out@.len());
                if seen {
                    let x = choose|x: int| 0 <= x < out.len() && #[trigger] out@[x]@ == piece_owned@;
                    assert(tv[x] == out@[x]@);
                    assert(tv.contains(piece@));
                    assert(without_repeats(done).contains(piece@));
                }
                if done.contains(piece@) {
                    assert(without_repeats(done).contains(piece@));
                    assert(tv.contains(piece@));
                    let x = choose|x: int| 0 <= x < tv.len() && tv[x] == piece@;
                    assert(out@[x]@ == tv[x]);
                    assert(out@[x]@ == piece_owned@);
                }
            }
        }
        if !seen {
            out.push(piece_owned);
            assert(texts(out@) =~= without_repeats(new_done));
        }
        proof {
            done = new_done;
        }
        match found {
            Some(i) => {
                start = start + i + 2;
            },
            None => {
                assert(split_on(s@, sep@) == done);
                return Some(out);
            },
        }
    }
}

proof fn lemma_without_repeats_members(items: Seq<Seq<char>>)
    ensures
        forall|x: Seq<char>| items.contains(x) <==> #[trigger] without_repeats(items).contains(x),
    decreases items.len(),
{
    if items.len() > 0 {
        let front = items.drop_last();
        lemma_without_repeats_members(front);
        let kept = without_repeats(front);
        let last = items.last();
        assert(items =~= front.push(last));
        assert forall|x: Seq<char>| items.contains(x) <==> #[trigger] without_repeats(items).contains(x) by {
            if front.contains(last) {
                assert(without_repeats(items) == kept);
            } else {
                assert(without_repeats(items) == kept.push(last));
                if kept.push(last).contains(x) && x != last {
                    let i = choose|i: int| 0 <= i < kept.push(last).len() && kept.push(last)[i] == x;
                    assert(kept[i] == x);
                }
                if x == last {
                    assert(kept.push(last)[kept.len() as int] == x);
                }
                if kept.contains(x) {
                    let i = choose|i: int| 0 <= i < kept.len() && kept[i] == x;
                    assert(kept.push(last)[i] == x);
                }
            }
            if items.contains(x) && x != last {
                let i = choose|i: int| 0 <= i < items.len() && items[i] == x;
                assert(front[i] == x);
            }
            if front.contains(x) {
                let i = choose|i: int| 0 <= i < front.len() && front[i] == x;
                assert(items[i] == x);
            }
            if x == last {
                assert(items[items.len() - 1] == x);
            }
        }
    }
}

/// Number of requests a search may make when nothing else is configured.
pub const DEFAULT_MAX_REQUESTS_PER_SEARCH: usize = 10;

/// The request budget that a configuration value sets: a positive integer is
/// taken as it is; a missing, zero or unreadable value gives the default.
pub open spec fn spec_max_requests(setting: Option<Seq<char>>) -> usize {
    match setting {
        Some(s) => match spec_parse_decimal(s, u64::MAX) {
            Ok(v) => if 0 < v <= usize::MAX {
                v as usize
            } else {
                DEFAULT_MAX_REQUESTS_PER_SEARCH
            },
            Err(_) => DEFAULT_MAX_REQUESTS_PER_SEARCH,
        },
        None => DEFAULT_MAX_REQUESTS_PER_SEARCH,
    }
}

/// Reads the request budget from its configuration value, if one is set.
pub fn max_requests_per_search(setting: Option<&str>) -> (r: usize)
    ensures
        r == spec_max_requests(
            match setting {
                Some(s) => Some(s@),
                None => None,
            },
        ),
        r > 0,
{
    match setting {
        Some(s) => match parse_decimal(s, u64::MAX) {
            Ok(v) => if v > 0 && (v as u128) <= (usize::MAX as u128) {
                v as usize
            } else {
                DEFAULT_MAX_REQUESTS_PER_SEARCH
            },
            Err(_) => DEFAULT_MAX_REQUESTS_PER_SEARCH,
        },
        None => DEFAULT_MAX_REQUESTS_PER_SEARCH,
    }
}

/// A title in the form it takes in a query string.
pub uninterp spec fn url_encoded(s: Seq<char>) -> Seq<char>;

/// Characters that percent-encoding leaves as they are.
pub open spec fn is_unreserved(c: char) -> bool {
    ('0' <= c && c <= '9') || ('A' <= c && c <= 'Z') || ('a' <= c && c <= 'z') || c == '-' || c
        == '.' || c == '_' || c == '~'
}

/// The upper-case hexadecimal digit for `d` below 16.
pub open spec fn hex_upper(d: nat) -> char {
    if d < 10 {
        digit_char(d)
    } else if d == 10 { 'A' }
    else if d == 11 { 'B' }
    else if d == 12 { 'C' }
    else if d == 13 { 'D' }
    else if d == 14 { 'E' }
    else { 'F' }
}

/// The encoding of one ASCII character: itself if unreserved, else '%' and
/// its code in two upper-case hexadecimal digits.
pub open spec fn encode_ascii_char(c: char) -> Seq<char> {
    if is_unreserved(c) {
        seq![c]
    } else {
        seq!['%', hex_upper(((c as u32) / 16) as nat), hex_upper(((c as u32) % 16) as nat)]
    }
}

/// The percent-encoding of a title made of ASCII characters only.
pub open spec fn ascii_url_encoded(s: Seq<char>) -> Seq<char>
    decreases s.len(),
{
    if s.len() == 0 {
        Seq::empty()
    } else {
        ascii_url_encoded(s.drop_last()) + encode_ascii_char(s.last())
    }
}

/// Relies on urlencoding::encode: the percent-encoding of the title's UTF-8
/// bytes, which depends on the title alone. Alphanumeric ASCII and "-._~" are
/// kept, every other byte becomes '%' and two upper-case hexadecimal digits;
/// an ASCII character is one byte, its code.
#[verifier::external_body]
fn encode_title(title: &str) -> (r: String)
    ensures
        r@ == url_encoded(title@),
        (forall|i: int| 0 <= i < title@.len() ==> (#[trigger] title@[i] as u32) < 128) ==> r@
            == ascii_url_encoded(title@),
{
    urlencoding::encode(title).into_owned()
}

/// The parameter sets of a bundle, held in smallvec's vector with inline
/// room for the default budget. Verus cannot declare `SmallVec` itself (its
/// parameter is bound by smallvec's `Array` trait), so the vector sits in a
/// private field behind the wrappers below.
#[verifier::external_body]
#[derive(Debug)]
pub struct ParamList {
    inner: smallvec::SmallVec<[FilterParameters; 10]>,
}

/// The parameter sets that a list holds, in order.
pub uninterp spec fn param_items(v: ParamList) -> Seq<FilterParameters>;

impl ParamList {
    /// Relies on smallvec::SmallVec::new: an empty vector.
    #[verifier::external_body]
    fn new() -> (r: ParamList)
        ensures
            param_items(r).len() == 0,
    {
        ParamList { inner: smallvec::SmallVec::new() }
    }

    /// Relies on smallvec::SmallVec::push: appends one item at the end; it
    /// panics only when the length would pass `usize::MAX`.
    #[verifier::external_body]
    fn push(&mut self, p: FilterParameters)
        requires
            param_items(*old(self)).len() < usize::MAX,
        ensures
            param_items(*final(self)) == param_items(*old(self)).push(p),
    {
        self.inner.push(p)
    }

    /// Relies on smallvec::SmallVec::as_slice: the items, in order.
    #[verifier::external_body]
    fn as_slice(&self) -> (r: &[FilterParameters])
        ensures
            r@ == param_items(*self),
    {
        self.inner.as_slice()
    }
}

/// Everything needed to run one search: the key, the encoded title and the
/// parameter sets to request, within the budget.
#[derive(Debug)]
pub struct RequestBundle {
    pub api_key: String,
    pub title: String,
    pub params: ParamList,
    /// Number of combinations that the filters span.
    pub combinations: usize,
    /// The request budget.
    pub max_requests: usize,
}

impl RequestBundle {
    /// Plans the requests of a search for `title` under `filters`, at most
    /// `max_requests` of them.
    pub fn new(api_key: &str, title: &str, filters: &Filters, max_requests: usize) -> (r: RequestBundle)
        ensures
            r.api_key@ == api_key@,
            r.title@ == url_encoded(title@),
            (forall|i: int| 0 <= i < title@.len() ==> (#[trigger] title@[i] as u32) < 128) ==> r.title@
                == ascii_url_encoded(title@),
            is_generated(*filters, max_requests as nat, param_items(r.params)),
            r.combinations == filters.spec_combinations(),
            r.max_requests == max_requests,
    {
        let planned = generate_parameters(filters, max_requests);
        let mut params = ParamList::new();
        let mut i: usize = 0;
        while i < planned.len()
            invariant
                i <= planned.len(),
                param_items(params) == planned@.take(i as int),
            decreases planned.len() - i,
        {
            params.push(planned[i]);
            assert(planned@.take(i + 1) =~= planned@.take(i as int).push(planned@[i as int]));
            i = i + 1;
        }
        assert(planned@.take(planned.len() as int) =~= planned@);
        RequestBundle {
            api_key: String::from_str(api_key),
            title: encode_title(title),
            params,
            combinations: filters.combinations(),
            max_requests,
        }
    }

    /// The parameter sets to request, in order.
    pub fn parameters(&self) -> (r: Vec<FilterParameters>)
        ensures
            r@ == param_items(self.params),
    {
        let items = self.params.as_slice();
        let mut r: Vec<FilterParameters> = Vec::new();
        let mut i: usize = 0;
        while i < items.len()
            invariant
                i <= items@.len(),
                r@ == items@.take(i as int),
            decreases items@.len() - i,
        {
            r.push(items[i]);
            assert(r@ =~= items@.take(i + 1));
            i = i + 1;
        }
        assert(items@.take(items@.len() as int) =~= items@);
        r
    }

    /// Whether the budget is too small to cover every combination, so that
    /// some results will be missed and the operator should be told.
    pub fn exceeds_budget(&self) -> (r: bool)
        ensures
            r == (self.combinations > self.max_requests),
    {
        self.combinations > self.max_requests
    }
}

pub open spec fn is_hex_digit(c: char) -> bool {
    ('0' <= c && c <= '9') || ('a' <= c && c <= 'f') || ('A' <= c && c <= 'F')
}

/// Whether a key has the form of an API key: eight hexadecimal digits.
pub open spec fn spec_api_key_format(key: Seq<char>) -> bool {
    key.len() == 8 && forall|i: int| 0 <= i < key.len() ==> is_hex_digit(#[trigger] key[i])
}

/// Whether a key has the form of an API key: eight hexadecimal digits.
pub fn api_key_format_acceptable(api_key: &str) -> (r: bool)
    ensures
        r == spec_api_key_format(api_key@),
{
    let n = api_key.unicode_len();
    if n != 8 {
        return false;
    }
    let mut i: usize = 0;
    while i < n
        invariant
            n == api_key@.len(),
            i <= n,
            forall|k: int| 0 <= k < i ==> is_hex_digit(#[trigger] api_key@[k]),
        decreases n - i,
    {
        let c = api_key.get_char(i);
        if !(('0' <= c && c <= '9') || ('a' <= c && c <= 'f') || ('A' <= c && c <= 'F')) {
            return false;
        }
        i = i + 1;
    }
    true
}

/// What the status of the database's answer to a key check means.
pub fn api_key_status(status: i32) -> (r: Result<(), ApiKeyError>)
    ensures
        status == 200 ==> r is Ok,
        status == 401 ==> r matches Err(ApiKeyError::Unauthorised),
        status != 200 && status != 401 ==> (r matches Err(ApiKeyError::UnexpectedStatus(s)) && s == status),
{
    if status == 200 {
        Ok(())
    } else if status == 401 {
        Err(ApiKeyError::Unauthorised)
    } else {
        Err(ApiKeyError::UnexpectedStatus(status))
    }
}

} // verus!
