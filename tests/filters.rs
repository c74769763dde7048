use imdb_id::filters::year_from_timestamp;
use imdb_id::text::IntParseError;
use imdb_id::{Filters, MediaType, SearchResult, Year, YearParseError};

fn now() -> u16 {
    let stamp = humantime::format_rfc3339(std::time::SystemTime::now()).to_string();
    year_from_timestamp(&stamp).expect("the clock should give a year")
}

fn search_results() -> Vec<SearchResult> {
    let make = |title: &str, imdb_id: &str, media_type: MediaType, year: Year| SearchResult {
        title: title.to_string(),
        imdb_id: imdb_id.to_string(),
        media_type,
        year,
    };
    vec![
        make("Kingsman: The Golden Circle", "tt4649466", MediaType::movie(), Year::new(2017, 2017)),
        make("King's Man", "tt1582211", MediaType::movie(), Year::new(2010, 2010)),
        make("All the King's Men", "tt0405676", MediaType::movie(), Year::new(2006, 2006)),
        make("All the King's Men", "tt0041113", MediaType::movie(), Year::new(1949, 1949)),
        make("Black Mirror", "tt2085059", MediaType::series(), Year::new(2016, 2021)),
        make("Seinfeld", "tt0098904", MediaType::series(), Year::new(1989, 1998)),
    ]
}

fn get_outcomes(filters: &Filters) -> Vec<bool> {
    search_results().iter().map(|sr| filters.allows(sr)).collect()
}

#[test]
fn combinations() {
    let filters = vec![
        Filters::default(),
        Filters { years: Some(Year::new(1960, 1970)), ..Filters::default() },
        Filters { types: MediaType::series(), years: Some(Year::new(1985, 2000)) },
        Filters { types: MediaType::movie(), years: Some(Year::new(1980, 2000)) },
    ];
    let expected: Vec<usize> = vec![1, 11, 16, 21];
    for (filters, expected) in filters.iter().zip(expected) {
        assert_eq!(filters.combinations(), expected, "Expected {expected} combination(s) from {:#?}", filters);
    }
}

#[test]
fn combinations_of_two_kinds_over_years() {
    let filters = Filters {
        types: MediaType::movie().union(MediaType::series()),
        years: Some(Year::new(1990, 1991)),
    };
    assert_eq!(filters.combinations(), 4);
    let empty = Filters { types: MediaType::empty(), years: None };
    assert_eq!(empty.combinations(), 0);
    let all_years = Filters { types: MediaType::all(), years: Some(Year::new(0, 65535)) };
    assert_eq!(all_years.combinations(), 65536);
}

#[test]
fn unfiltered() {
    let default = Filters::default();
    assert_eq!(&get_outcomes(&default), &[true; 6]);
}

#[test]
fn media_type_single() {
    let test = Filters { types: MediaType::movie(), years: None };
    let results = [true, true, true, true, false, false];
    assert_eq!(&get_outcomes(&test), &results);

    let test = Filters { types: MediaType::series(), years: None };
    let results = [false, false, false, false, true, true];
    assert_eq!(&get_outcomes(&test), &results);
}

#[test]
fn years() {
    let test = Filters { years: Some(Year::new(2020, 2021)), ..Filters::default() };
    let results = [false, false, false, false, true, false];
    assert_eq!(&get_outcomes(&test), &results);

    let test = Filters { years: Some(Year::new(1950, 2010)), ..Filters::default() };
    let results = [false, true, true, false, false, true];
    assert_eq!(&get_outcomes(&test), &results);
}

#[test]
fn filters_mixed() {
    let test = Filters { types: MediaType::movie(), years: Some(Year::new(1950, 2010)) };
    let results = [false, true, true, false, false, false];
    assert_eq!(&get_outcomes(&test), &results);

    let test = Filters { types: MediaType::series(), years: Some(Year::new(2010, 2021)) };
    let results = [false, false, false, false, true, false];
    assert_eq!(&get_outcomes(&test), &results);
}

#[test]
fn filters_from_str() {
    let inputs = ["1999", "-1999", "1999\u{2013}", "1920-1925", "1000-800", "2020\u{2013}2021"];
    let expected = [(1999, 1999), (0, 1999), (1999, now()), (1920, 1925), (800, 1000), (2020, 2021)];
    for (s, (start, end)) in inputs.iter().zip(expected) {
        let year = Year::from_str(s, now()).expect("Year should have parsed");
        assert_eq!(year, Year { start, end });
    }
}

#[test]
fn filters_from_str_invalid() {
    Year::from_str("-", now()).unwrap_err();
}

#[test]
fn year_parse_errors_and_clock() {
    assert_eq!(Year::from_str("-", 2024), Err(YearParseError::NoYearsSpecified));
    assert_eq!(Year::from_str("2030-", 2024), Err(YearParseError::StartInFuture));
    assert_eq!(Year::from_str("abc", 2024), Err(YearParseError::InvalidInt(IntParseError::InvalidDigit)));
    assert_eq!(Year::from_str("", 2024), Err(YearParseError::InvalidInt(IntParseError::Empty)));
    assert_eq!(Year::from_str("70000", 2024), Err(YearParseError::InvalidInt(IntParseError::Overflow)));
    // an end or a single year after the clock is brought back to it
    assert_eq!(Year::from_str("2000-2030", 2024), Ok(Year { start: 2000, end: 2024 }));
    assert_eq!(Year::from_str("2030", 2024), Ok(Year { start: 2024, end: 2024 }));
    assert_eq!(Year::from_str("2010-1980", 2024), Ok(Year { start: 1980, end: 2010 }));
    assert_eq!(Year::from_str("1980-", 2024), Ok(Year { start: 1980, end: 2024 }));
    assert_eq!(Year::from_str("+1999", 2024), Ok(Year { start: 1999, end: 1999 }));
    assert_eq!(Year::from_str("+", 2024), Err(YearParseError::InvalidInt(IntParseError::InvalidDigit)));
}

#[test]
fn year_text_and_overlap() {
    assert_eq!(Year::new(1999, 1999).to_text(2024), "1999");
    assert_eq!(Year::new(0, 1999).to_text(2024), "-1999");
    assert_eq!(Year::new(1999, 2024).to_text(2024), "1999-");
    assert_eq!(Year::new(1920, 1925).to_text(2024), "1920-1925");
    let a = Year::new(1990, 2000);
    assert!(a.contains(&Year::new(2000, 2010)));
    assert!(!a.contains(&Year::new(2001, 2010)));
    assert_eq!(a.len(), 11);
    assert!(Year::single(5).is_single());
}

#[test]
fn timestamp_year() {
    assert_eq!(year_from_timestamp("2018-02-14T00:28:07Z"), Some(2018));
    assert_eq!(year_from_timestamp("no year"), None);
    assert!(now() >= 2024);
}

#[test]
fn media_type_set() {
    let both = MediaType::movie().union(MediaType::game());
    assert_eq!(both.count(), 2);
    assert!(both.contains(MediaType::game()));
    assert!(!both.contains(MediaType::series()));
    assert!(both.intersects(MediaType::all()));
    assert_eq!(both.members(), vec![MediaType::movie(), MediaType::game()]);
    assert_eq!(both.to_text(), "movie/game");
    assert_eq!(MediaType::all().to_text(), "movie/series/game");
    assert!(MediaType::all().is_all());
    assert_eq!(MediaType::from_str("Movies").unwrap(), MediaType::movie());
    assert_eq!(MediaType::from_str("SERIES").unwrap(), MediaType::series());
    assert_eq!(MediaType::from_str("game").unwrap(), MediaType::game());
    assert_eq!(MediaType::from_str("episode").unwrap_err().0, "episode");
}
