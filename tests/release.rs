use imdb_id::release::Year::{self, Range, Single};
use imdb_id::text::IntParseError;
use imdb_id::Genre;

const STR_INPUTS: [&str; 6] = ["1999", "-1999", "1999\u{2013}", "1920-1925", "1000-800", "2020\u{2013}2021"];

const YEARS: [Year; 6] = [
    Single(1999),
    Range { start: None, end: Some(1999) },
    Range { start: Some(1999), end: None },
    Range { start: Some(1920), end: Some(1925) },
    Range { start: Some(800), end: Some(1000) },
    Range { start: Some(2020), end: Some(2021) },
];

#[test]
fn lib_from_str() {
    STR_INPUTS
        .iter()
        .map(|s| Year::from_str(s).expect("Year should have parsed"))
        .zip(YEARS.iter())
        .for_each(|(a, b)| assert_eq!(a, *b));
}

#[test]
fn lib_from_str_invalid() {
    Year::from_str("-").unwrap_err();
}

#[test]
fn release_parse_errors() {
    assert_eq!(Year::from_str("-"), Err(IntParseError::Empty));
    assert_eq!(Year::from_str("19x9"), Err(IntParseError::InvalidDigit));
}

#[test]
fn contain() {
    YEARS.iter().for_each(|year| match *year {
        Single(y) => {
            assert!(year.contains(y));
            assert!(!year.contains(y + 1));
            assert!(!year.contains(y - 1));
        },
        Range { start: Some(s), end: Some(e) } => {
            (s..e).for_each(|n| assert!(year.contains(n)));
            assert!(!year.contains(s - 1));
            assert!(!year.contains(e + 1));
        },
        Range { start: None, end: Some(e) } => {
            (0..e).for_each(|n| assert!(year.contains(n)));
            assert!(!year.contains(e + 1));
        },
        Range { start: Some(s), end: None } => {
            (s..u16::MAX).for_each(|n| assert!(year.contains(n)));
            assert!(!year.contains(s - 1));
        },
        _ => unreachable!("Invalid test - range with start and end as None"),
    })
}

#[test]
fn genre_names() {
    assert_eq!(Genre::Movie.as_str(), "movie");
    assert_eq!(Genre::Other("short".to_string()).as_str(), "short");
    assert!(matches!(Genre::from_str("SERIES"), Ok(Genre::Series)));
    assert_eq!(Genre::from_str("short").unwrap_err().0, "short");
    assert!(matches!(Genre::from_name("Episode"), Genre::Episode));
    assert!(matches!(Genre::from_name("short"), Genre::Other(s) if s == "short"));
    assert!(Genre::Movie.eq_str("MOVIE"));
    assert!(!Genre::Movie.eq_str("movies"));
}
