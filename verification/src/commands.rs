//! The commands that a caller can give, and what the library answers to
//! each. Reading the arguments and printing the answer are left to the
//! caller.

use vstd::prelude::*;
use crate::models::{text_of, Song};
use crate::ranking::{detailed_statistics, is_top_ranking, DetailedStatistics, DEFAULT_TOP};
use crate::search::{
    filter_result, filter_songs, find_by_title, lookup_result, search_result, search_songs,
    slice_text, songs_of, Criteria,
};
use crate::stats::{
    distinct_values, field_named, lists_values_of, summary_statistics, texts, Field,
    SummaryStatistics,
};

verus! {

/// A command with its arguments.
#[derive(Debug, Clone)]
pub enum Commands {
    /// Search songs by title or composer.
    Search { term: String, detailed: bool },
    /// Filter songs by musical criteria.
    Filter {
        key: Option<String>,
        rhythm: Option<String>,
        time: Option<String>,
        composer: Option<String>,
        detailed: bool,
    },
    /// Show statistics of the collection.
    Stats { detailed: bool },
    /// List the distinct values of a field.
    List { field: String },
    /// Show one song in detail.
    Show { title: String },
}

/// The command line as a whole.
#[derive(Debug, Clone)]
pub struct Cli {
    pub command: Commands,
}

/// What the library answers to a command.
#[derive(Debug)]
pub enum Response<'a> {
    /// The songs that a search or a filter selected, which may be none, and
    /// whether they are to be shown in detail.
    Matches { songs: Vec<&'a Song>, detailed: bool },
    /// The counts of the collection and, where they were asked for, the
    /// rankings.
    Statistics { summary: SummaryStatistics, detailed: Option<DetailedStatistics> },
    /// The distinct values of a field.
    Values { field: Field, values: Vec<String> },
    /// The field name was not recognised.
    UnknownField,
    /// The song with the title that was asked for.
    Shown { song: &'a Song },
    /// No song has the title that was asked for.
    NotFound,
}

/// The criteria that the arguments of a filter command stand for.
pub open spec fn criteria_from(
    key: Option<String>,
    rhythm: Option<String>,
    time: Option<String>,
    composer: Option<String>,
) -> Criteria {
    Criteria {
        key: text_of(key),
        rhythm: text_of(rhythm),
        time: text_of(time),
        composer: text_of(composer),
    }
}

/// The rankings are those of the keys, the rhythms and the composers of the
/// collection.
pub open spec fn ranks_collection(detailed: DetailedStatistics, songs: Seq<Song>) -> bool {
    &&& is_top_ranking(detailed.keys@, songs, Field::Key, DEFAULT_TOP as nat)
    &&& is_top_ranking(detailed.rhythms@, songs, Field::Rhythm, DEFAULT_TOP as nat)
    &&& is_top_ranking(detailed.composers@, songs, Field::Composer, DEFAULT_TOP as nat)
}

/// The response is the answer to the command over the collection.
pub open spec fn answers(response: Response, songs: Seq<Song>, command: Commands) -> bool {
    match command {
        Commands::Search { term, detailed } => match response {
            Response::Matches { songs: found, detailed: shown } => songs_of(found@)
                == search_result(songs, term@) && shown == detailed,
            _ => false,
        },
        Commands::Filter { key, rhythm, time, composer, detailed } => match response {
            Response::Matches { songs: found, detailed: shown } => songs_of(found@)
                == filter_result(songs, criteria_from(key, rhythm, time, composer)) && shown
                == detailed,
            _ => false,
        },
        Commands::Stats { detailed } => match response {
            Response::Statistics { summary, detailed: rankings } => summary.describes(songs)
                && summary.well_formed() && match rankings {
                Some(r) => detailed && ranks_collection(r, songs),
                None => !detailed,
            },
            _ => false,
        },
        Commands::List { field } => match field_named(field@) {
            Some(known) => match response {
                Response::Values { field: listed, values } => listed == known && lists_values_of(
                    texts(values@),
                    songs,
                    known,
                ),
                _ => false,
            },
            None => response is UnknownField,
        },
        Commands::Show { title } => match lookup_result(songs, title@) {
            Some(wanted) => match response {
                Response::Shown { song } => *song == wanted,
                _ => false,
            },
            None => response is NotFound,
        },
    }
}

/// An optional text as an optional string slice.
fn as_slice(value: &Option<String>) -> (r: Option<&str>)
    ensures
        slice_text(r) == text_of(*value),
{
    match value {
        Some(text) => Some(text.as_str()),
        None => None,
    }
}

/// Answers a command over the collection: runs the query that the command
/// names with the command's arguments. A search or a filter that selects
/// nothing, a title that no song has and a field name that is not recognised
/// are answers like any other.
pub fn execute<'a>(songs: &'a [Song], command: &Commands) -> (response: Response<'a>)
    ensures
        answers(response, songs@, *command),
{
    match command {
        Commands::Search { term, detailed } => Response::Matches {
            songs: search_songs(songs, term.as_str()),
            detailed: *detailed,
        },
        Commands::Filter { key, rhythm, time, composer, detailed } => {
            let found = filter_songs(
                songs,
                as_slice(key),
                as_slice(rhythm),
                as_slice(time),
                as_slice(composer),
            );
            Response::Matches { songs: found, detailed: *detailed }
        },
        Commands::Stats { detailed } => {
            let summary = summary_statistics(songs);
            let rankings = if *detailed {
                Some(detailed_statistics(songs))
            } else {
                None
            };
            Response::Statistics { summary, detailed: rankings }
        },
        Commands::List { field } => match Field::from_name(field.as_str()) {
            Ok(known) => Response::Values { field: known, values: distinct_values(songs, known) },
            Err(_) => Response::UnknownField,
        },
        Commands::Show { title } => match find_by_title(songs, title.as_str()) {
            Some(song) => Response::Shown { song },
            None => Response::NotFound,
        },
    }
}

} // verus!
