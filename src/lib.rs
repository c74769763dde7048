//! Resolving a free-text title into catalogue identifiers: the filter model,
//! the planner that turns filters into per-request parameters, and the engine
//! that classifies request outcomes and merges result pages by rank.
use vstd::prelude::*;

pub mod config;
pub mod errors;
pub mod filters;
pub mod media;
pub mod merge;
pub mod omdb;
pub mod release;
pub mod search;
pub mod text;
pub mod user_input;

pub use config::{OnDiskConfig, OutputFormat, RuntimeConfig};
pub use errors::{
    ApiKeyError, ArgsError, DiskError, FinalError, InteractivityError, MaybeFatal,
    MediaTypeParseError, OutputFormatParseError, RequestError, RunError, SignUpError,
    YearParseError,
};
pub use filters::{year_from_timestamp, Filters, Year};
pub use media::MediaType;
pub use omdb::{
    api_key_format_acceptable, generate_parameters, FilterParameters, RequestBundle, SearchResult,
    SearchResults,
};
pub use release::Genre;
pub use search::{get_results, FanOut, RequestOutcome, SearchError};
pub use user_input::format_list;

verus! {

} // verus!
