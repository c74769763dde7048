use imdb_id::config::{combine_types, join_search_term};
use imdb_id::text::{parse_decimal, IntParseError};
use imdb_id::{
    ArgsError, FinalError, InteractivityError, MaybeFatal, MediaType, OutputFormat,
    OutputFormatParseError, RuntimeConfig, Year,
};

#[test]
fn results_invalid() {
    assert_eq!(parse_decimal("bar", usize::MAX as u64), Err(IntParseError::InvalidDigit));
    assert_eq!(parse_decimal("3", usize::MAX as u64), Ok(3));
}

#[test]
fn not_installed_format() {
    assert!(matches!(OutputFormat::from_str("yaml"), Err(OutputFormatParseError::NotInstalled(name)) if name == "yaml"));
}

#[test]
fn unrecognised_format() {
    assert!(matches!(OutputFormat::from_str("foo"), Err(OutputFormatParseError::Unrecognised(name)) if name == "foo"));
    assert!(matches!(OutputFormat::from_str("FOO"), Err(OutputFormatParseError::Unrecognised(name)) if name == "foo"));
}

#[test]
fn format_names() {
    assert_eq!(OutputFormat::from_str("json").unwrap(), OutputFormat::Json);
    assert_eq!(OutputFormat::from_str("Plain").unwrap(), OutputFormat::Human);
    assert_eq!(OutputFormat::from_str("HUMAN").unwrap(), OutputFormat::Human);
    assert_eq!(OutputFormat::default(), OutputFormat::Human);
}

#[test]
fn multiple_word_search_term() {
    assert_eq!(join_search_term(vec!["foo".to_string(), "bar".to_string()]), "foo bar");
    assert_eq!(join_search_term(vec![" foo ".to_string(), "\tbar".to_string(), "baz ".to_string()]), "foo bar baz");
    assert_eq!(join_search_term(vec![]), "");
}

#[test]
fn media_type_arguments() {
    assert_eq!(combine_types(&vec![]), MediaType::all());
    assert_eq!(combine_types(&vec![MediaType::series()]), MediaType::series());
    assert_eq!(
        combine_types(&vec![MediaType::movie(), MediaType::game()]),
        MediaType::movie().union(MediaType::game())
    );
}

#[test]
fn non_interactive_shows_one_result() {
    let config = RuntimeConfig::new(vec!["foo".to_string()], true, true, None, vec![], None, OutputFormat::Human, None);
    assert!(!config.interactive);
    assert_eq!(config.number_of_results, 1);
    let config = RuntimeConfig::new(vec!["foo".to_string()], false, true, Some(3), vec![MediaType::movie()], Some(Year::new(1980, 2010)), OutputFormat::Human, None);
    assert!(config.interactive);
    assert_eq!(config.number_of_results, 3);
    assert_eq!(config.filters.types, MediaType::movie());
    assert_eq!(config.filters.years, Some(Year::new(1980, 2010)));
    let config = RuntimeConfig::new(vec!["foo".to_string()], true, true, None, vec![], None, OutputFormat::Json, Some("k".to_string()));
    assert_eq!(config.number_of_results, 10);
    assert_eq!(config.api_key.as_deref(), Some("k"));
    let default = RuntimeConfig::default();
    assert!(default.interactive);
    assert_eq!(default.number_of_results, 10);
}

#[test]
fn error_codes() {
    assert_eq!(FinalError::Args(ArgsError::NumberOfResults(IntParseError::Empty)).error_code(), 1);
    assert_eq!(FinalError::NoSearchResults.error_code(), 0);
    assert_eq!(FinalError::Interaction(InteractivityError::Cancel).error_code(), 0);
    let io = std::io::Error::new(std::io::ErrorKind::Other, "boom");
    let dialoguer = InteractivityError::from_cli(io);
    assert!(dialoguer.is_fatal());
    assert_eq!(FinalError::Interaction(dialoguer).error_code(), 2);
    let cancel = InteractivityError::from_cli(std::io::Error::new(std::io::ErrorKind::NotConnected, "bye"));
    assert!(matches!(cancel, InteractivityError::Cancel));
    assert!(!FinalError::Interaction(InteractivityError::Cancel).is_fatal());
    assert_eq!(FinalError::FormatOutput("x".to_string()).error_code(), 2);
}
