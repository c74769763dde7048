//! Release years with open ends, and the kinds of title that the database
//! searches by, as plain names.
use vstd::prelude::*;

use crate::filters::EN_DASH;
use crate::text::{
    eq_ignore_ascii_case, eq_ignore_case, find_first_of, first_of, parse_u16, spec_parse_u16,
    IntParseError,
};

verus! {

/// A release year: one year, or a range either of whose ends may be open.
#[derive(Debug, Clone, Copy, PartialEq, Eq, Structural)]
pub enum Year {
    Single(u16),
    Range { start: Option<u16>, end: Option<u16> },
}

pub open spec fn is_separator(c: char) -> bool {
    c == '-' || c == EN_DASH
}

/// What `Year::from_str` makes of `s`.
pub open spec fn spec_parse_release(s: Seq<char>) -> Result<Year, IntParseError> {
    if s.len() > 0 && is_separator(s[0]) {
        match spec_parse_u16(s.skip(1)) {
            Ok(e) => Ok(Year::Range { start: None, end: Some(e) }),
            Err(err) => Err(err),
        }
    } else if s.len() > 0 && is_separator(s.last()) {
        match spec_parse_u16(s.drop_last()) {
            Ok(b) => Ok(Year::Range { start: Some(b), end: None }),
            Err(err) => Err(err),
        }
    } else {
        match first_of(s, '-', EN_DASH) {
            Some(i) => match spec_parse_u16(s.take(i)) {
                Err(err) => Err(err),
                Ok(b) => match spec_parse_u16(s.skip(i + 1)) {
                    Err(err) => Err(err),
                    Ok(e) => if b > e {
                        Ok(Year::Range { start: Some(e), end: Some(b) })
                    } else {
                        Ok(Year::Range { start: Some(b), end: Some(e) })
                    },
                },
            },
            None => match spec_parse_u16(s) {
                Ok(y) => Ok(Year::Single(y)),
                Err(err) => Err(err),
            },
        }
    }
}

impl Year {
    pub open spec fn spec_contains(self, year: u16) -> bool {
        match self {
            Year::Single(n) => n == year,
            Year::Range { start, end } => (match start {
                Some(n) => year >= n,
                None => true,
            }) && (match end {
                Some(n) => year <= n,
                None => true,
            }),
        }
    }

    /// Whether `year` falls in this release year or range; an open end
    /// bounds nothing.
    pub fn contains(&self, year: u16) -> (r: bool)
        ensures
            r == self.spec_contains(year),
    {
        match *self {
            Year::Single(n) => n == year,
            Year::Range { start, end } => {
                let after_start = match start {
                    Some(n) => year >= n,
                    None => true,
                };
                let before_end = match end {
                    Some(n) => year <= n,
                    None => true,
                };
                after_start && before_end
            },
        }
    }

    /// Reads `YYYY`, `-YYYY`, `YYYY-` or `YYYY-YYYY` ('-' or an en dash as
    /// separator); ends given in descending order are swapped.
    pub fn from_str(s: &str) -> (r: Result<Year, IntParseError>)
        ensures
            r == spec_parse_release(s@),
    {
        let n = s.unicode_len();
        if n > 0 && (s.get_char(0) == '-' || s.get_char(0) == EN_DASH) {
            let rest = s.substring_char(1, n);
            assert(rest@ == s@.skip(1));
            match parse_u16(rest) {
                Ok(e) => Ok(Year::Range { start: None, end: Some(e) }),
                Err(err) => Err(err),
            }
        } else if n > 0 && (s.get_char(n - 1) == '-' || s.get_char(n - 1) == EN_DASH) {
            let front = s.substring_char(0, n - 1);
            assert(front@ == s@.drop_last());
            match parse_u16(front) {
                Ok(b) => Ok(Year::Range { start: Some(b), end: None }),
                Err(err) => Err(err),
            }
        } else {
            match find_first_of(s, '-', EN_DASH) {
                Some(i) => {
                    let a = s.substring_char(0, i);
                    let b = s.substring_char(i + 1, n);
                    assert(a@ == s@.take(i as int));
                    assert(b@ == s@.skip(i + 1));
                    match parse_u16(a) {
                        Err(err) => Err(err),
                        Ok(x) => match parse_u16(b) {
                            Err(err) => Err(err),
                            Ok(y) => if x > y {
                                Ok(Year::Range { start: Some(y), end: Some(x) })
                            } else {
                                Ok(Year::Range { start: Some(x), end: Some(y) })
                            },
                        },
                    }
                },
                None => match parse_u16(s) {
                    Ok(y) => Ok(Year::Single(y)),
                    Err(err) => Err(err),
                },
            }
        }
    }
}

/// A kind that the database can be searched by.
#[derive(Debug, Clone)]
pub enum Genre {
    Movie,
    Series,
    Episode,
    /// A kind this library does not know, by its name.
    Other(String),
}

/// A genre name that is not one of the known kinds.
#[derive(Debug, Clone)]
pub struct GenreParseError(pub String);

impl Genre {
    pub open spec fn name(&self) -> Seq<char> {
        match self {
            Genre::Movie => "movie"@,
            Genre::Series => "series"@,
            Genre::Episode => "episode"@,
            Genre::Other(s) => s@,
        }
    }

    /// The name that the database uses for this kind.
    pub fn as_str(&self) -> (r: &str)
        ensures
            r@ == self.name(),
    {
        match self {
            Genre::Movie => "movie",
            Genre::Series => "series",
            Genre::Episode => "episode",
            Genre::Other(s) => s.as_str(),
        }
    }

    /// Reads a known kind's name, ignoring ASCII case.
    pub fn from_str(s: &str) -> (r: Result<Genre, GenreParseError>)
        ensures
            eq_ignore_case(s@, "movie"@) ==> r matches Ok(Genre::Movie),
            !eq_ignore_case(s@, "movie"@) && eq_ignore_case(s@, "series"@) ==> r matches Ok(
                Genre::Series,
            ),
            !eq_ignore_case(s@, "movie"@) && !eq_ignore_case(s@, "series"@) && eq_ignore_case(
                s@,
                "episode"@,
            ) ==> r matches Ok(Genre::Episode),
            !eq_ignore_case(s@, "movie"@) && !eq_ignore_case(s@, "series"@) && !eq_ignore_case(
                s@,
                "episode"@,
            ) ==> (r matches Err(e) && e.0@ == s@),
    {
        if eq_ignore_ascii_case(s, "movie") {
            Ok(Genre::Movie)
        } else if eq_ignore_ascii_case(s, "series") {
            Ok(Genre::Series)
        } else if eq_ignore_ascii_case(s, "episode") {
            Ok(Genre::Episode)
        } else {
            Err(GenreParseError(String::from_str(s)))
        }
    }

    /// A known kind by its name, or else `Other` holding the name.
    pub fn from_name(s: &str) -> (r: Genre)
        ensures
            !eq_ignore_case(s@, "movie"@) && !eq_ignore_case(s@, "series"@) && !eq_ignore_case(
                s@,
                "episode"@,
            ) ==> (r matches Genre::Other(n) && n@ == s@),
            eq_ignore_case(r.name(), s@),
    {
        match Genre::from_str(s) {
            Ok(g) => {
                proof {
                    reveal_strlit("movie");
                    reveal_strlit("series");
                    reveal_strlit("episode");
                }
                g
            },
            Err(_) => Genre::Other(String::from_str(s)),
        }
    }

    /// Whether `other` is this kind's name, ignoring ASCII case.
    pub fn eq_str(&self, other: &str) -> (r: bool)
        ensures
            r == eq_ignore_case(other@, self.name()),
    {
        eq_ignore_ascii_case(other, self.as_str())
    }
}

} // verus!
