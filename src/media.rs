use vstd::prelude::*;

use crate::errors::MediaTypeParseError;
use crate::text::{eq_ignore_ascii_case, eq_ignore_case, push_char};

verus! {

/// A set of the catalogue's media kinds. Members are listed in the fixed
/// canonical order movie, series, game.
#[derive(Debug, Clone, Copy, PartialEq, Eq, Structural)]
pub struct MediaType {
    pub movie: bool,
    pub series: bool,
    pub game: bool,
}

impl MediaType {
    pub open spec fn spec_count(self) -> nat {
        (if self.movie { 1nat } else { 0nat }) + (if self.series { 1nat } else { 0nat }) + (if self.game {
            1nat
        } else {
            0nat
        })
    }

    pub open spec fn spec_is_all(self) -> bool {
        self.movie && self.series && self.game
    }

    pub open spec fn spec_is_empty(self) -> bool {
        !self.movie && !self.series && !self.game
    }

    /// Whether every member of `other` is a member of `self`.
    pub open spec fn spec_contains(self, other: MediaType) -> bool {
        (other.movie ==> self.movie) && (other.series ==> self.series) && (other.game ==> self.game)
    }

    pub open spec fn spec_intersects(self, other: MediaType) -> bool {
        (self.movie && other.movie) || (self.series && other.series) || (self.game && other.game)
    }

    pub open spec fn spec_union(self, other: MediaType) -> MediaType {
        MediaType {
            movie: self.movie || other.movie,
            series: self.series || other.series,
            game: self.game || other.game,
        }
    }

    /// The members as one-kind sets, in canonical order.
    pub open spec fn spec_members(self) -> Seq<MediaType> {
        let m = if self.movie { seq![MediaType::spec_movie()] } else { Seq::empty() };
        let s = if self.series { seq![MediaType::spec_series()] } else { Seq::empty() };
        let g = if self.game { seq![MediaType::spec_game()] } else { Seq::empty() };
        m + s + g
    }

    pub open spec fn spec_movie() -> MediaType {
        MediaType { movie: true, series: false, game: false }
    }

    pub open spec fn spec_series() -> MediaType {
        MediaType { movie: false, series: true, game: false }
    }

    pub open spec fn spec_game() -> MediaType {
        MediaType { movie: false, series: false, game: true }
    }

    pub open spec fn spec_all() -> MediaType {
        MediaType { movie: true, series: true, game: true }
    }

    pub fn movie() -> (r: MediaType)
        ensures
            r == MediaType::spec_movie(),
    {
        MediaType { movie: true, series: false, game: false }
    }

    pub fn series() -> (r: MediaType)
        ensures
            r == MediaType::spec_series(),
    {
        MediaType { movie: false, series: true, game: false }
    }

    pub fn game() -> (r: MediaType)
        ensures
            r == MediaType::spec_game(),
    {
        MediaType { movie: false, series: false, game: true }
    }

    pub fn all() -> (r: MediaType)
        ensures
            r == MediaType::spec_all(),
    {
        MediaType { movie: true, series: true, game: true }
    }

    pub fn empty() -> (r: MediaType)
        ensures
            r.spec_is_empty(),
    {
        MediaType { movie: false, series: false, game: false }
    }

    /// Number of kinds in the set.
    pub fn count(&self) -> (r: usize)
        ensures
            r == self.spec_count(),
    {
        let movie: usize = if self.movie { 1 } else { 0 };
        let series: usize = if self.series { 1 } else { 0 };
        let game: usize = if self.game { 1 } else { 0 };
        movie + series + game
    }

    pub fn is_all(&self) -> (r: bool)
        ensures
            r == self.spec_is_all(),
    {
        self.movie && self.series && self.game
    }

    pub fn is_empty(&self) -> (r: bool)
        ensures
            r == self.spec_is_empty(),
    {
        !self.movie && !self.series && !self.game
    }

    pub fn contains(&self, other: MediaType) -> (r: bool)
        ensures
            r == self.spec_contains(other),
    {
        (!other.movie || self.movie) && (!other.series || self.series) && (!other.game
            || self.game)
    }

    pub fn intersects(&self, other: MediaType) -> (r: bool)
        ensures
            r == self.spec_intersects(other),
    {
        (self.movie && other.movie) || (self.series && other.series) || (self.game && other.game)
    }

    pub fn union(&self, other: MediaType) -> (r: MediaType)
        ensures
            r == self.spec_union(other),
    {
        MediaType {
            movie: self.movie || other.movie,
            series: self.series || other.series,
            game: self.game || other.game,
        }
    }

    /// The members as one-kind sets, in canonical order.
    pub fn members(&self) -> (r: Vec<MediaType>)
        ensures
            r@ == self.spec_members(),
            r@.len() == self.spec_count(),
    {
        let mut r: Vec<MediaType> = Vec::new();
        if self.movie {
            r.push(MediaType::movie());
        }
        if self.series {
            r.push(MediaType::series());
        }
        if self.game {
            r.push(MediaType::game());
        }
        assert(r@ =~= self.spec_members());
        r
    }

    /// Reads the name of one kind, ignoring ASCII case: "movie" (or
    /// "movies"), "series" or "game". Several kinds at once are not read.
    pub fn from_str(s: &str) -> (r: Result<MediaType, MediaTypeParseError>)
        ensures
            is_movie_name(s@) ==> r == Ok::<MediaType, MediaTypeParseError>(MediaType::spec_movie()),
            !is_movie_name(s@) && eq_ignore_case(s@, "series"@) ==> r == Ok::<
                MediaType,
                MediaTypeParseError,
            >(MediaType::spec_series()),
            !is_movie_name(s@) && !eq_ignore_case(s@, "series"@) && eq_ignore_case(s@, "game"@) ==> r
                == Ok::<MediaType, MediaTypeParseError>(MediaType::spec_game()),
            !is_movie_name(s@) && !eq_ignore_case(s@, "series"@) && !eq_ignore_case(s@, "game"@) ==> (r matches Err(e) && e.0@ == s@),
    {
        if eq_ignore_ascii_case(s, "movie") || eq_ignore_ascii_case(s, "movies") {
            Ok(MediaType::movie())
        } else if eq_ignore_ascii_case(s, "series") {
            Ok(MediaType::series())
        } else if eq_ignore_ascii_case(s, "game") {
            Ok(MediaType::game())
        } else {
            Err(MediaTypeParseError(String::from_str(s)))
        }
    }

    /// The set as it is written for a reader: the names of its kinds in
    /// canonical order, separated by '/'.
    pub fn to_text(&self) -> (r: String)
        ensures
            r@ == media_text(*self),
    {
        let mut r = String::new();
        if self.movie {
            r.append("movie");
        }
        if self.series {
            if self.movie {
                push_char(&mut r, '/');
            }
            r.append("series");
        }
        if self.game {
            if self.movie || self.series {
                push_char(&mut r, '/');
            }
            r.append("game");
        }
        assert(r@ =~= media_text(*self));
        r
    }
}

/// Whether `s` names the movie kind, ignoring ASCII case.
pub open spec fn is_movie_name(s: Seq<char>) -> bool {
    eq_ignore_case(s, "movie"@) || eq_ignore_case(s, "movies"@)
}

/// The names of the kinds of `t`, in canonical order, separated by '/'.
pub open spec fn media_text(t: MediaType) -> Seq<char> {
    let m = if t.movie { "movie"@ } else { Seq::empty() };
    let s = if t.series {
        (if t.movie { seq!['/'] } else { Seq::empty() }) + "series"@
    } else {
        Seq::empty()
    };
    let g = if t.game {
        (if t.movie || t.series { seq!['/'] } else { Seq::empty() }) + "game"@
    } else {
        Seq::empty()
    };
    m + s + g
}

} // verus!
