//! What one run of the program was asked to do, and what it keeps on disk.
use vstd::prelude::*;

use trim_in_place::TrimInPlace;

use crate::errors::OutputFormatParseError;
use crate::filters::{Filters, Year};
use crate::media::MediaType;
use crate::text::{ascii_lowercase, eq_ignore_ascii_case, eq_ignore_case, is_ascii_lower_of, push_char};

verus! {

/// How the results are written.
#[derive(Debug, Clone, Copy, PartialEq, Eq, Structural)]
pub enum OutputFormat {
    /// For a person: one identifier, or an interactive picker.
    Human,
    Json,
}

/// Whether `s` names the format for a person, ignoring ASCII case.
pub open spec fn is_human_name(s: Seq<char>) -> bool {
    eq_ignore_case(s, "human"@) || eq_ignore_case(s, "plain"@)
}

impl OutputFormat {
    pub fn default() -> (r: OutputFormat)
        ensures
            r == OutputFormat::Human,
    {
        OutputFormat::Human
    }

    /// Reads a format name, ignoring ASCII case: "human" or "plain", "json".
    /// "yaml" names a format that this build does not include; any other name
    /// is refused, lowered.
    pub fn from_str(s: &str) -> (r: Result<OutputFormat, OutputFormatParseError>)
        ensures
            is_human_name(s@) ==> r == Ok::<OutputFormat, OutputFormatParseError>(OutputFormat::Human),
            !is_human_name(s@) && eq_ignore_case(s@, "json"@) ==> r == Ok::<
                OutputFormat,
                OutputFormatParseError,
            >(OutputFormat::Json),
            !is_human_name(s@) && !eq_ignore_case(s@, "json"@) && eq_ignore_case(s@, "yaml"@) ==> (r matches Err(
                OutputFormatParseError::NotInstalled(name),
            ) && is_ascii_lower_of(name@, s@)),
            !is_human_name(s@) && !eq_ignore_case(s@, "json"@) && !eq_ignore_case(s@, "yaml"@) ==> (r matches Err(
                OutputFormatParseError::Unrecognised(name),
            ) && is_ascii_lower_of(name@, s@)),
    {
        if eq_ignore_ascii_case(s, "human") || eq_ignore_ascii_case(s, "plain") {
            Ok(OutputFormat::Human)
        } else if eq_ignore_ascii_case(s, "json") {
            Ok(OutputFormat::Json)
        } else if eq_ignore_ascii_case(s, "yaml") {
            Err(OutputFormatParseError::NotInstalled(ascii_lowercase(s)))
        } else {
            Err(OutputFormatParseError::Unrecognised(ascii_lowercase(s)))
        }
    }
}

/// The characters that `char::is_whitespace` accepts: those with the Unicode
/// White_Space property.
pub open spec fn is_white_space(c: char) -> bool {
    let u = c as u32;
    (0x9 <= u && u <= 0xd) || u == 0x20 || u == 0x85 || u == 0xa0 || u == 0x1680 || (0x2000 <= u
        && u <= 0x200a) || u == 0x2028 || u == 0x2029 || u == 0x202f || u == 0x205f || u == 0x3000
}

pub open spec fn trim_start(s: Seq<char>) -> Seq<char>
    decreases s.len(),
{
    if s.len() > 0 && is_white_space(s[0]) {
        trim_start(s.drop_first())
    } else {
        s
    }
}

pub open spec fn trim_end(s: Seq<char>) -> Seq<char>
    decreases s.len(),
{
    if s.len() > 0 && is_white_space(s.last()) {
        trim_end(s.drop_last())
    } else {
        s
    }
}

/// `s` without leading and trailing white space.
pub open spec fn trimmed(s: Seq<char>) -> Seq<char> {
    trim_end(trim_start(s))
}

/// Relies on trim_in_place::TrimInPlace::trim_in_place, which keeps what
/// `str::trim` returns: the string without leading and trailing white space.
#[verifier::external_body]
fn trim_word(word: &mut String)
    ensures
        final(word)@ == trimmed(old(word)@),
{
    word.trim_in_place();
}

/// The search term written as words: each word trimmed, one space between
/// two words.
pub open spec fn joined_words(words: Seq<String>) -> Seq<char>
    decreases words.len(),
{
    if words.len() == 0 {
        Seq::empty()
    } else if words.len() == 1 {
        trimmed(words[0]@)
    } else {
        joined_words(words.drop_last()) + seq![' '] + trimmed(words.last()@)
    }
}

/// Joins the words of a search term given as several arguments.
pub fn join_search_term(words: Vec<String>) -> (r: String)
    ensures
        r@ == joined_words(words@),
{
    let ghost ws = words@;
    let mut rest = words;
    let mut r = String::new();
    let n = rest.len();
    let mut i: usize = 0;
    while i < n
        invariant
            n == ws.len(),
            i <= n,
            rest@ == ws.skip(i as int),
            r@ == joined_words(ws.take(i as int)),
        decreases n - i,
    {
        assert(rest@[0] == ws[i as int]);
        let mut w = rest.remove(0);
        assert(rest@ =~= ws.skip(i + 1));
        trim_word(&mut w);
        let ghost before = r@;
        if i > 0 {
            push_char(&mut r, ' ');
        }
        r.append(w.as_str());
        proof {
            let next = ws.take(i + 1);
            assert(next.drop_last() =~= ws.take(i as int));
            assert(next.last() == ws[i as int]);
            if i == 0 {
                assert(before =~= Seq::<char>::empty());
                assert(r@ =~= trimmed(ws[0]@));
            } else {
                assert(r@ =~= joined_words(next));
            }
        }
        i = i + 1;
    }
    assert(ws.take(n as int) =~= ws);
    r
}

/// The union of the kinds given; all kinds when none was given.
pub open spec fn union_of(types: Seq<MediaType>) -> MediaType
    decreases types.len(),
{
    if types.len() == 0 {
        MediaType::spec_all()
    } else if types.len() == 1 {
        types[0]
    } else {
        union_of(types.drop_last()).spec_union(types.last())
    }
}

/// Combines the media kinds given one by one on the command line.
pub fn combine_types(types: &Vec<MediaType>) -> (r: MediaType)
    ensures
        r == union_of(types@),
{
    if types.len() == 0 {
        return MediaType::all();
    }
    let mut acc = types[0];
    let mut i: usize = 1;
    while i < types.len()
        invariant
            1 <= i <= types.len(),
            acc == union_of(types@.take(i as int)),
        decreases types.len() - i,
    {
        assert(types@.take(i + 1).drop_last() =~= types@.take(i as int));
        acc = acc.union(types[i]);
        i = i + 1;
    }
    assert(types@.take(types.len() as int) =~= types@);
    acc
}

/// Number of results shown when nothing else is asked for.
pub const DEFAULT_NUMBER_OF_RESULTS: usize = 10;

/// What one run of the program was asked to do.
#[derive(Debug)]
pub struct RuntimeConfig {
    pub search_term: String,
    pub interactive: bool,
    pub number_of_results: usize,
    pub filters: Filters,
    pub format: OutputFormat,
    pub api_key: Option<String>,
}

impl RuntimeConfig {
    pub fn default() -> (r: RuntimeConfig)
        ensures
            r.search_term@.len() == 0,
            r.interactive,
            r.number_of_results == DEFAULT_NUMBER_OF_RESULTS,
            r.filters.types == MediaType::spec_all(),
            r.filters.years is None,
            r.format == OutputFormat::Human,
            r.api_key is None,
    {
        RuntimeConfig {
            search_term: String::new(),
            interactive: true,
            number_of_results: DEFAULT_NUMBER_OF_RESULTS,
            filters: Filters::default(),
            format: OutputFormat::Human,
            api_key: None,
        }
    }

    /// Settles the configuration from the arguments as read: the run is
    /// interactive unless asked not to be or not attached to a terminal; a
    /// non-interactive run for a person shows one result; the kinds given are
    /// combined.
    pub fn new(
        search_words: Vec<String>,
        non_interactive: bool,
        on_terminal: bool,
        requested_results: Option<usize>,
        types: Vec<MediaType>,
        years: Option<Year>,
        format: OutputFormat,
        api_key: Option<String>,
    ) -> (r: RuntimeConfig)
        ensures
            r.search_term@ == joined_words(search_words@),
            r.interactive == (!non_interactive && on_terminal),
            r.number_of_results == if r.interactive || format != OutputFormat::Human {
                match requested_results {
                    Some(n) => n,
                    None => DEFAULT_NUMBER_OF_RESULTS,
                }
            } else {
                1
            },
            r.filters == (Filters { types: union_of(types@), years }),
            r.format == format,
            r.api_key == api_key,
    {
        let interactive = !non_interactive && on_terminal;
        let human = match format {
            OutputFormat::Human => true,
            _ => false,
        };
        let number_of_results = if interactive || !human {
            match requested_results {
                Some(n) => n,
                None => DEFAULT_NUMBER_OF_RESULTS,
            }
        } else {
            1
        };
        let types = combine_types(&types);
        RuntimeConfig {
            search_term: join_search_term(search_words),
            interactive,
            number_of_results,
            filters: Filters { types, years },
            format,
            api_key,
        }
    }
}

/// What is kept on disk between runs.
#[derive(Debug, Clone)]
pub struct OnDiskConfig {
    pub api_key: String,
}

} // verus!
