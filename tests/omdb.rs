use imdb_id::omdb::{
    api_key_status, max_requests_per_search, parse_comma_list, DEFAULT_MAX_REQUESTS_PER_SEARCH,
};
use imdb_id::ApiKeyError;
use imdb_id::{
    api_key_format_acceptable, generate_parameters, FilterParameters, Filters, MediaType,
    RequestBundle, Year,
};

fn params(media_type: Option<MediaType>, year: Option<u16>) -> FilterParameters {
    FilterParameters { media_type, year }
}

#[test]
fn api_key_format() {
    assert!(!api_key_format_acceptable("fizzbuzz"));
    assert!(!api_key_format_acceptable("3q;mgh3w"));
    assert!(!api_key_format_acceptable("foo"));
    assert!(!api_key_format_acceptable("foobarbaz"));

    assert!(!api_key_format_acceptable("123f3"));
    assert!(!api_key_format_acceptable("435adf312b"));

    assert!(api_key_format_acceptable("13495632"));
    assert!(api_key_format_acceptable("3a3d4e1f"));
}

#[test]
fn api_key_status_codes() {
    assert!(api_key_status(200).is_ok());
    assert!(matches!(api_key_status(401), Err(ApiKeyError::Unauthorised)));
    assert!(matches!(api_key_status(500), Err(ApiKeyError::UnexpectedStatus(500))));
}

#[test]
fn optional_comma_list() {
    let inputs = vec!["N/A", "foo, bar, baz", "foo", "foo, N/A"];
    let outputs = vec![
        None,
        Some(vec![String::from("foo"), String::from("bar"), String::from("baz")]),
        Some(vec![String::from("foo")]),
        Some(vec![String::from("foo"), String::from("N/A")]),
    ];
    for (input, expected) in inputs.into_iter().zip(outputs) {
        assert_eq!(parse_comma_list(input), expected);
    }
}

#[test]
fn not_so_optional_comma_list() {
    assert!(parse_comma_list("N/A").is_none());
}

#[test]
fn comma_list_drops_repeats() {
    assert_eq!(
        parse_comma_list("Drama, Comedy, Drama"),
        Some(vec![String::from("Drama"), String::from("Comedy")])
    );
    assert_eq!(parse_comma_list(""), Some(vec![String::new()]));
}

const INPUTS: [&str; 4] = [
    // Up
    r#"{"Title":"Up","Year":"2009","Rated":"PG","Released":"29 May 2009","Runtime":"96 min","Genre":"Animation, Adventure, Comedy","Director":"Pete Docter, Bob Peterson","Writer":"Pete Docter, Bob Peterson, Tom McCarthy","Actors":"Edward Asner, Jordan Nagai, John Ratzenberger","Plot":"78-year-old Carl Fredricksen travels to Paradise Falls in his house equipped with balloons, inadvertently taking a young stowaway.","Language":"English","Country":"United States","Awards":"Won 2 Oscars. 79 wins & 87 nominations total","Poster":"https://m.media-amazon.com/images/M/MV5BMTk3NDE2NzI4NF5BMl5BanBnXkFtZTgwNzE1MzEyMTE@._V1_SX300.jpg","Ratings":[{"Source":"Internet Movie Database","Value":"8.2/10"},{"Source":"Rotten Tomatoes","Value":"98%"},{"Source":"Metacritic","Value":"88/100"}],"Metascore":"88","imdbRating":"8.2","imdbVotes":"966,025","imdbID":"tt1049413","Type":"movie","DVD":"21 Nov 2015","BoxOffice":"$293,004,164","Production":"Pixar Animation Studios","Website":"N/A","Response":"True"}"#,
    // 1917
    r#"{"Title":"1917","Year":"2019","Rated":"R","Released":"10 Jan 2020","Runtime":"119 min","Genre":"Drama, Thriller, War","Director":"Sam Mendes","Writer":"Sam Mendes, Krysty Wilson-Cairns","Actors":"Dean-Charles Chapman, George MacKay, Daniel Mays","Plot":"April 6th, 1917. As a regiment assembles to wage war deep in enemy territory, two soldiers are assigned to race against time and deliver a message that will stop 1,600 men from walking straight into a deadly trap.","Language":"English, French, German","Country":"United States, United Kingdom, India, Spain, Canada, China","Awards":"Won 3 Oscars. 134 wins & 199 nominations total","Poster":"https://m.media-amazon.com/images/M/MV5BOTdmNTFjNDEtNzg0My00ZjkxLTg1ZDAtZTdkMDc2ZmFiNWQ1XkEyXkFqcGdeQXVyNTAzNzgwNTg@._V1_SX300.jpg","Ratings":[{"Source":"Internet Movie Database","Value":"8.3/10"},{"Source":"Rotten Tomatoes","Value":"89%"},{"Source":"Metacritic","Value":"78/100"}],"Metascore":"78","imdbRating":"8.3","imdbVotes":"483,190","imdbID":"tt8579674","Type":"movie","DVD":"25 Dec 2019","BoxOffice":"$159,227,644","Production":"Neal Street Productions, Amblin Entertainment","Website":"N/A","Response":"True"}"#,
    // Kingsman: The Secret Service
    r#"{"Title":"Kingsman: The Secret Service","Year":"2014","Rated":"R","Released":"13 Feb 2015","Runtime":"129 min","Genre":"Action, Adventure, Comedy","Director":"Matthew Vaughn","Writer":"Jane Goldman, Matthew Vaughn, Mark Millar","Actors":"Colin Firth, Taron Egerton, Samuel L. Jackson","Plot":"A spy organisation recruits a promising street kid into the agency's training program, while a global threat emerges from a twisted tech genius.","Language":"English, Arabic, Swedish","Country":"United Kingdom, United States","Awards":"10 wins & 32 nominations","Poster":"https://m.media-amazon.com/images/M/MV5BYTM3ZTllNzItNTNmOS00NzJiLTg1MWMtMjMxNDc0NmJhODU5XkEyXkFqcGdeQXVyODE5NzE3OTE@._V1_SX300.jpg","Ratings":[{"Source":"Internet Movie Database","Value":"7.7/10"},{"Source":"Metacritic","Value":"60/100"}],"Metascore":"60","imdbRating":"7.7","imdbVotes":"612,737","imdbID":"tt2802144","Type":"movie","DVD":"09 Jun 2015","BoxOffice":"$128,261,724","Production":"Marv Films, Cloudy","Website":"N/A","Response":"True"}"#,
    // Breakout Kings
    r#"{"Title":"Breakout Kings","Year":"2011–2012","Rated":"TV-14","Released":"06 Mar 2011","Runtime":"43 min","Genre":"Crime, Drama, Thriller","Director":"N/A","Writer":"Matt Olmstead, Nick Santora","Actors":"Domenick Lombardozzi, Brooke Nevin, Malcolm Goodwin","Plot":"A squad of U.S. marshals team up with cons (former fugitives) to work together on tracking down prison escapees in exchange for getting time off their sentences.","Language":"English","Country":"United States","Awards":"N/A","Poster":"https://m.media-amazon.com/images/M/MV5BMTcyNzUwNjMwM15BMl5BanBnXkFtZTcwOTgxNjk0Nw@@._V1_SX300.jpg","Ratings":[{"Source":"Internet Movie Database","Value":"7.3/10"}],"Metascore":"N/A","imdbRating":"7.3","imdbVotes":"15,196","imdbID":"tt1590961","Type":"series","totalSeasons":"2","Response":"True"}"#,
];

fn field_lists(field: &str) -> Vec<Option<Vec<String>>> {
    INPUTS
        .iter()
        .map(|json| {
            let value: serde_json::Value = serde_json::from_str(json).expect("Failed to deserialise");
            parse_comma_list(value[field].as_str().expect("field should be a string"))
        })
        .collect()
}

#[test]
fn converts_comma_lists() {
    let genres = [
        vec!["Animation", "Adventure", "Comedy"],
        vec!["Drama", "Thriller", "War"],
        vec!["Action", "Adventure", "Comedy"],
        vec!["Crime", "Drama", "Thriller"],
    ];
    for (actual, expected) in field_lists("Genre").iter().zip(genres.iter()) {
        assert_eq!(actual.as_ref().unwrap().as_slice(), expected.as_slice());
    }

    let directors = [vec!["Pete Docter", "Bob Peterson"], vec!["Sam Mendes"], vec!["Matthew Vaughn"]];
    for (actual, expected) in field_lists("Director").iter().zip(directors.iter()) {
        assert_eq!(actual.as_ref().unwrap().as_slice(), expected.as_slice());
    }
    assert_eq!(field_lists("Director")[3], None);

    let writers = [
        vec!["Pete Docter", "Bob Peterson", "Tom McCarthy"],
        vec!["Sam Mendes", "Krysty Wilson-Cairns"],
        vec!["Jane Goldman", "Matthew Vaughn", "Mark Millar"],
        vec!["Matt Olmstead", "Nick Santora"],
    ];
    for (actual, expected) in field_lists("Writer").iter().zip(writers.iter()) {
        assert_eq!(actual.as_ref().unwrap().as_slice(), expected.as_slice());
    }

    let actors = [
        vec!["Edward Asner", "Jordan Nagai", "John Ratzenberger"],
        vec!["Dean-Charles Chapman", "George MacKay", "Daniel Mays"],
        vec!["Colin Firth", "Taron Egerton", "Samuel L. Jackson"],
        vec!["Domenick Lombardozzi", "Brooke Nevin", "Malcolm Goodwin"],
    ];
    for (actual, expected) in field_lists("Actors").iter().zip(actors.iter()) {
        assert_eq!(actual.clone().unwrap().as_slice(), expected.as_slice());
    }
}

#[test]
fn unconstrained_filters_give_one_plain_request() {
    let out = generate_parameters(&Filters::default(), 10);
    assert_eq!(out, vec![params(None, None)]);
    assert_eq!(generate_parameters(&Filters::default(), 1).len(), 1);
}

#[test]
fn year_range_gives_one_request_per_year() {
    let filters = Filters { types: MediaType::all(), years: Some(Year::new(2000, 2004)) };
    assert_eq!(filters.combinations(), 5);
    let out = generate_parameters(&filters, 10);
    let years: Vec<Option<u16>> = out.iter().map(|p| p.year).collect();
    assert_eq!(years, vec![Some(2000), Some(2001), Some(2002), Some(2003), Some(2004)]);
    assert!(out.iter().all(|p| p.media_type.is_none()));
    // truncated to the budget, keeping the earliest years
    assert_eq!(generate_parameters(&filters, 2), vec![params(None, Some(2000)), params(None, Some(2001))]);
}

#[test]
fn kinds_only_give_one_request_per_kind() {
    let filters = Filters { types: MediaType::game().union(MediaType::movie()), years: None };
    assert_eq!(
        generate_parameters(&filters, 10),
        vec![params(Some(MediaType::movie()), None), params(Some(MediaType::game()), None)]
    );
    assert_eq!(generate_parameters(&filters, 1), vec![params(Some(MediaType::movie()), None)]);
}

#[test]
fn two_kinds_two_years_example() {
    let filters = Filters {
        types: MediaType::movie().union(MediaType::series()),
        years: Some(Year::new(1990, 1991)),
    };
    let out = generate_parameters(&filters, 10);
    assert_eq!(
        out,
        vec![
            params(Some(MediaType::movie()), Some(1990)),
            params(Some(MediaType::series()), Some(1990)),
            params(Some(MediaType::movie()), Some(1991)),
            params(Some(MediaType::series()), Some(1991)),
        ]
    );
}

#[test]
fn kinds_times_years_within_budget() {
    let filters = Filters { types: MediaType::series().union(MediaType::game()), years: Some(Year::new(1980, 1999)) };
    assert_eq!(filters.combinations(), 40);
    assert_eq!(generate_parameters(&filters, 10).len(), 10);
    assert_eq!(generate_parameters(&filters, 100).len(), 40);
}

#[test]
fn generation_is_repeatable() {
    let filters = Filters { types: MediaType::movie().union(MediaType::game()), years: Some(Year::new(1990, 1995)) };
    assert_eq!(generate_parameters(&filters, 7), generate_parameters(&filters, 7));
}

#[test]
fn request_budget_setting() {
    assert_eq!(max_requests_per_search(None), DEFAULT_MAX_REQUESTS_PER_SEARCH);
    assert_eq!(max_requests_per_search(Some("25")), 25);
    assert_eq!(max_requests_per_search(Some("0")), 10);
    assert_eq!(max_requests_per_search(Some("lots")), 10);
    assert_eq!(max_requests_per_search(Some("-3")), 10);
    assert_eq!(max_requests_per_search(Some("+5")), 5);
}

#[test]
fn bundle_encodes_title_and_plans() {
    let filters = Filters { types: MediaType::all(), years: Some(Year::new(1990, 2010)) };
    let bundle = RequestBundle::new("3a3d4e1f", "the king's man", &filters, 10);
    assert_eq!(bundle.title, "the%20king%27s%20man");
    assert_eq!(bundle.api_key, "3a3d4e1f");
    assert_eq!(bundle.parameters().len(), 10);
    assert_eq!(bundle.parameters(), generate_parameters(&filters, 10));
    assert_eq!(bundle.parameters()[0], params(None, Some(1990)));
    assert!(bundle.exceeds_budget());
    assert_eq!(RequestBundle::new("k", "Up-1_a.b~", &filters, 10).title, "Up-1_a.b~");
    assert_eq!(RequestBundle::new("k", "a&b/c", &filters, 10).title, "a%26b%2Fc");
    let small = RequestBundle::new("3a3d4e1f", "up", &Filters::default(), 10);
    assert!(!small.exceeds_budget());
}

#[test]
fn parameter_text() {
    assert_eq!(params(None, None).to_text(), "no filters");
    assert_eq!(params(Some(MediaType::movie()), None).to_text(), "movie");
    assert_eq!(params(None, Some(1999)).to_text(), "year 1999");
    assert_eq!(params(Some(MediaType::series()), Some(2001)).to_text(), "series, year 2001");
}
