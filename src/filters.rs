//! The filter model: which media kinds and which years a search accepts.
use vstd::prelude::*;

use crate::errors::YearParseError;
use crate::media::MediaType;
use crate::omdb::SearchResult;
use crate::text::{
    decimal_text, find_first_of, first_of, parse_u16, push_char, spec_parse_u16, u16_text,
};

verus! {

/// The en dash, accepted beside '-' between the two ends of a range.
pub const EN_DASH: char = '\u{2013}';

/// An inclusive range of years. A single year is a range whose two ends are
/// equal; a range whose start lies after its end holds no year.
#[derive(Debug, Clone, Copy, PartialEq, Eq, Structural)]
pub struct Year {
    pub start: u16,
    pub end: u16,
}

/// The range with the two ends in ascending order.
pub open spec fn ordered(a: u16, b: u16) -> Year {
    if b < a {
        Year { start: b, end: a }
    } else {
        Year { start: a, end: b }
    }
}

/// The start of a range written before the separator as `a`.
pub open spec fn range_start(a: Seq<char>, now: u16) -> Result<u16, YearParseError> {
    if a.len() == 0 {
        Ok(0)
    } else {
        match spec_parse_u16(a) {
            Err(e) => Err(YearParseError::InvalidInt(e)),
            Ok(v) => if v > now {
                Err(YearParseError::StartInFuture)
            } else {
                Ok(v)
            },
        }
    }
}

/// The end of a range written after the separator as `b`; an end in the
/// future is brought back to `now`, an open end is `now`.
pub open spec fn range_end(a: Seq<char>, b: Seq<char>, now: u16) -> Result<u16, YearParseError> {
    if b.len() > 0 {
        match spec_parse_u16(b) {
            Err(e) => Err(YearParseError::InvalidInt(e)),
            Ok(v) => Ok(if v > now { now } else { v }),
        }
    } else if a.len() == 0 {
        Err(YearParseError::NoYearsSpecified)
    } else {
        Ok(now)
    }
}

/// What `Year::from_str` makes of `s` when the current year is `now`.
pub open spec fn spec_parse_year(s: Seq<char>, now: u16) -> Result<Year, YearParseError> {
    match first_of(s, '-', EN_DASH) {
        Some(i) => {
            let a = s.take(i);
            let b = s.skip(i + 1);
            match range_start(a, now) {
                Err(e) => Err(e),
                Ok(st) => match range_end(a, b, now) {
                    Err(e) => Err(e),
                    Ok(en) => Ok(ordered(st, en)),
                },
            }
        },
        None => match spec_parse_u16(s) {
            Err(e) => Err(YearParseError::InvalidInt(e)),
            Ok(v) => {
                let y = if v > now { now } else { v };
                Ok(Year { start: y, end: y })
            },
        },
    }
}

/// How a range is written when the current year is `now`: a single year as
/// its number; otherwise the start (left out when 0), '-', and the end (left
/// out when it is `now`).
pub open spec fn year_text(y: Year, now: u16) -> Seq<char> {
    if y.start == y.end {
        decimal_text(y.start as nat)
    } else {
        (if y.start != 0 { decimal_text(y.start as nat) } else { Seq::empty() }) + seq!['-'] + (if y.end
            != now {
            decimal_text(y.end as nat)
        } else {
            Seq::empty()
        })
    }
}

impl Year {
    /// Number of years in the range.
    pub open spec fn spec_len(self) -> nat {
        if self.start <= self.end {
            (self.end - self.start + 1) as nat
        } else {
            0
        }
    }

    /// Whether the two ranges share a year, by comparing their ends.
    pub open spec fn spec_contains(self, other: Year) -> bool {
        self.start <= other.end && other.start <= self.end
    }

    /// The range of one year.
    pub fn single(year: u16) -> (r: Year)
        ensures
            r == (Year { start: year, end: year }),
    {
        Year { start: year, end: year }
    }

    /// The range between `a` and `b`, whichever is given first.
    pub fn new(a: u16, b: u16) -> (r: Year)
        ensures
            r == ordered(a, b),
    {
        if b < a {
            Year { start: b, end: a }
        } else {
            Year { start: a, end: b }
        }
    }

    /// Whether the two ranges overlap: open ends were resolved when the
    /// ranges were made, so this is "any overlap", not containment.
    pub fn contains(&self, other: &Year) -> (r: bool)
        ensures
            r == self.spec_contains(*other),
    {
        self.start <= other.end && other.start <= self.end
    }

    pub fn is_single(&self) -> (r: bool)
        ensures
            r == (self.start == self.end),
    {
        self.start == self.end
    }

    /// Number of years in the range.
    pub fn len(&self) -> (r: usize)
        ensures
            r == self.spec_len(),
    {
        if self.start <= self.end {
            (self.end - self.start) as usize + 1
        } else {
            0
        }
    }

    /// Reads `YYYY`, `YYYY-`, `-YYYY` or `YYYY-YYYY` ('-' or an en dash
    /// between the ends), with `current_year` as the evaluation clock. An open
    /// start is year 0 and an open end is `current_year`; an end or a single
    /// year after `current_year` is brought back to it, while a start after it
    /// is refused. Ends given in descending order are swapped.
    pub fn from_str(s: &str, current_year: u16) -> (r: Result<Year, YearParseError>)
        ensures
            r == spec_parse_year(s@, current_year),
    {
        match find_first_of(s, '-', EN_DASH) {
            Some(i) => {
                let n = s.unicode_len();
                let a = s.substring_char(0, i);
                let b = s.substring_char(i + 1, n);
                assert(a@ == s@.take(i as int));
                assert(b@ == s@.skip(i + 1));
                let a_len = a.unicode_len();
                let b_len = b.unicode_len();
                let start = if a_len > 0 {
                    match parse_u16(a) {
                        Err(e) => {
                            return Err(YearParseError::InvalidInt(e));
                        },
                        Ok(v) => {
                            if v > current_year {
                                return Err(YearParseError::StartInFuture);
                            }
                            v
                        },
                    }
                } else {
                    0
                };
                let end = if b_len > 0 {
                    match parse_u16(b) {
                        Err(e) => {
                            return Err(YearParseError::InvalidInt(e));
                        },
                        Ok(v) => if v > current_year {
                            current_year
                        } else {
                            v
                        },
                    }
                } else if a_len == 0 {
                    return Err(YearParseError::NoYearsSpecified);
                } else {
                    current_year
                };
                Ok(Year::new(start, end))
            },
            None => match parse_u16(s) {
                Err(e) => Err(YearParseError::InvalidInt(e)),
                Ok(v) => {
                    let y = if v > current_year {
                        current_year
                    } else {
                        v
                    };
                    Ok(Year::single(y))
                },
            },
        }
    }

    /// The range as it is written for a reader, when the current year is
    /// `current_year`.
    pub fn to_text(&self, current_year: u16) -> (r: String)
        ensures
            r@ == year_text(*self, current_year),
    {
        if self.start == self.end {
            u16_text(self.start)
        } else {
            let mut r = if self.start != 0 {
                u16_text(self.start)
            } else {
                String::new()
            };
            push_char(&mut r, '-');
            if self.end != current_year {
                let e = u16_text(self.end);
                r.append(e.as_str());
            }
            assert(r@ =~= year_text(*self, current_year));
            r
        }
    }
}

/// The year that an RFC 3339 timestamp starts with: the number before its
/// first '-'. Callers read the clock and hand its timestamp here, so that the
/// current year is an explicit evaluation clock.
pub open spec fn timestamp_year(ts: Seq<char>) -> Option<u16> {
    match first_of(ts, '-', '-') {
        Some(i) => match spec_parse_u16(ts.take(i)) {
            Ok(y) => Some(y),
            Err(_) => None,
        },
        None => None,
    }
}

/// Reads the year that an RFC 3339 timestamp starts with.
pub fn year_from_timestamp(ts: &str) -> (r: Option<u16>)
    ensures
        r == timestamp_year(ts@),
{
    match find_first_of(ts, '-', '-') {
        Some(i) => {
            let head = ts.substring_char(0, i);
            assert(head@ == ts@.take(i as int));
            match parse_u16(head) {
                Ok(y) => Some(y),
                Err(_) => None,
            }
        },
        None => None,
    }
}

/// What a search accepts: a set of media kinds (all kinds means no
/// constraint) and, optionally, a range of years.
#[derive(Debug, Clone, Copy, PartialEq, Eq, Structural)]
pub struct Filters {
    pub types: MediaType,
    pub years: Option<Year>,
}

impl Filters {
    /// Number of kinds that the requests must cover one by one: one when the
    /// kinds are unconstrained.
    pub open spec fn type_factor(self) -> nat {
        if self.types.spec_is_all() {
            1
        } else {
            self.types.spec_count()
        }
    }

    /// Number of years that the requests must cover one by one: one when the
    /// years are unconstrained.
    pub open spec fn year_factor(self) -> nat {
        match self.years {
            Some(y) => y.spec_len(),
            None => 1,
        }
    }

    pub open spec fn spec_combinations(self) -> nat {
        self.type_factor() * self.year_factor()
    }

    pub open spec fn spec_allows(self, sr: SearchResult) -> bool {
        (match self.years {
            Some(y) => y.spec_contains(sr.year),
            None => true,
        }) && self.types.spec_intersects(sr.media_type)
    }

    /// No constraint on either kind or year.
    pub fn default() -> (r: Filters)
        ensures
            r.types == MediaType::spec_all(),
            r.years is None,
    {
        Filters { types: MediaType::all(), years: None }
    }

    /// Whether a result passes the filters: its kind is among the allowed
    /// ones and its years overlap the allowed range.
    pub fn allows(&self, search_result: &SearchResult) -> (r: bool)
        ensures
            r == self.spec_allows(*search_result),
    {
        let year_matches = match &self.years {
            Some(y) => y.contains(&search_result.year),
            None => true,
        };
        let media_type_matches = self.types.intersects(search_result.media_type);
        year_matches && media_type_matches
    }

    /// Number of single-valued parameter combinations (kind times year) that
    /// the filters span, computed without listing them.
    pub fn combinations(&self) -> (r: usize)
        ensures
            r == self.spec_combinations(),
    {
        let types: usize = if self.types.is_all() {
            1
        } else {
            self.types.count()
        };
        let years: usize = match &self.years {
            Some(y) => y.len(),
            None => 1,
        };
        assert(types <= 3 && years <= 65536);
        assert(types * years <= 3 * 65536) by (nonlinear_arith)
            requires
                types <= 3,
                years <= 65536,
        ;
        types * years
    }
}

} // verus!
