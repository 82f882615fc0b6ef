//! The records that the queries run over.

use vstd::prelude::*;

verus! {

/// A chord progression, kept as the text it was stored in. The queries never
/// look inside it.
#[derive(Debug, Clone)]
pub struct Segment {
    pub chords: Option<String>,
}

/// A labelled part of a song: one main progression and, in performance
/// order, its alternate endings.
#[derive(Debug, Clone)]
pub struct Section {
    pub label: Option<String>,
    pub repeats: Option<u32>,
    pub main_segment: Option<Segment>,
    pub endings: Option<Vec<Segment>>,
}

/// One composition. Only the title is always there; an absent field is
/// different from an empty one.
#[derive(Debug, Clone)]
pub struct Song {
    pub title: String,
    pub composer: Option<String>,
    pub year: Option<u32>,
    pub key: Option<String>,
    pub rhythm: Option<String>,
    pub time_signature: Option<String>,
    pub sections: Option<Vec<Section>>,
}

/// The characters of an optional text, where it is present.
pub open spec fn text_of(value: Option<String>) -> Option<Seq<char>> {
    match value {
        Some(s) => Some(s@),
        None => None,
    }
}

} // verus!
