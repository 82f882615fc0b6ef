//! Search by term, filtering by criteria and lookup by title. Each query
//! scans the collection once and keeps its order.

use vstd::prelude::*;
use crate::filtering::{
    lemma_filter_all, lemma_filter_first, lemma_filter_none, lemma_filter_refines,
    lemma_filter_step,
};
use crate::models::{text_of, Song};
use crate::text::{
    case_folded, contains, contains_folded, fold_case, is_substring, lemma_substring_transitive,
};

verus! {

/// The songs that a list of references points at.
pub open spec fn songs_of(refs: Seq<&Song>) -> Seq<Song> {
    refs.map_values(|s: &Song| *s)
}

/// The optional text holds `needle` once both are case-folded. An absent
/// text holds nothing.
pub open spec fn field_contains(field: Option<Seq<char>>, needle: Seq<char>) -> bool {
    match field {
        Some(text) => contains_folded(text, needle),
        None => false,
    }
}

/// The song's title or its composer holds the term, case-folded.
pub open spec fn matches_term(song: Song, term: Seq<char>) -> bool {
    contains_folded(song.title@, term) || field_contains(text_of(song.composer), term)
}

/// The songs of the collection that match the term, in the collection's
/// order.
pub open spec fn search_result(songs: Seq<Song>, term: Seq<char>) -> Seq<Song> {
    songs.filter(|s: Song| matches_term(s, term))
}

/// What a filter asks of a song. A criterion that is `None` asks nothing.
pub struct Criteria {
    pub key: Option<Seq<char>>,
    pub rhythm: Option<Seq<char>>,
    pub time: Option<Seq<char>>,
    pub composer: Option<Seq<char>>,
}

/// The characters of an optional string slice, where it is present.
pub open spec fn slice_text(value: Option<&str>) -> Option<Seq<char>> {
    match value {
        Some(s) => Some(s@),
        None => None,
    }
}

/// The criteria that four optional texts stand for.
pub open spec fn criteria_of(
    key: Option<&str>,
    rhythm: Option<&str>,
    time: Option<&str>,
    composer: Option<&str>,
) -> Criteria {
    Criteria {
        key: slice_text(key),
        rhythm: slice_text(rhythm),
        time: slice_text(time),
        composer: slice_text(composer),
    }
}

/// An optional text that is folded already contains the folded needle. An
/// absent text contains nothing.
pub open spec fn folded_contains(folded_field: Option<Seq<char>>, folded_needle: Seq<char>) -> bool {
    match folded_field {
        Some(text) => is_substring(folded_needle, text),
        None => false,
    }
}

/// A criterion of containment over texts that are folded already: it is not
/// supplied, or the field contains it.
pub open spec fn folded_criterion_holds(
    folded_field: Option<Seq<char>>,
    folded_wanted: Option<Seq<char>>,
) -> bool {
    match folded_wanted {
        Some(wanted) => folded_contains(folded_field, wanted),
        None => true,
    }
}

/// A criterion of equality over texts that are made comparable already: it
/// is not supplied, or the field is there and equals it.
pub open spec fn equality_criterion_holds(
    field: Option<Seq<char>>,
    wanted: Option<Seq<char>>,
) -> bool {
    match wanted {
        Some(w) => field == Some(w),
        None => true,
    }
}

/// An optional text, case-folded where it is present.
pub open spec fn folded_text(value: Option<Seq<char>>) -> Option<Seq<char>> {
    match value {
        Some(text) => Some(case_folded(text)),
        None => None,
    }
}

/// The song's key is there and equals the wanted one once both are
/// case-folded.
pub open spec fn key_holds(song: Song, wanted: Option<Seq<char>>) -> bool {
    match wanted {
        None => true,
        Some(k) => match song.key {
            Some(sk) => case_folded(sk@) == case_folded(k),
            None => false,
        },
    }
}

/// The song's rhythm is there and holds the wanted text, case-folded.
pub open spec fn rhythm_holds(song: Song, wanted: Option<Seq<char>>) -> bool {
    match wanted {
        None => true,
        Some(r) => field_contains(text_of(song.rhythm), r),
    }
}

/// The song's time signature is there and is exactly the wanted one.
pub open spec fn time_holds(song: Song, wanted: Option<Seq<char>>) -> bool {
    match wanted {
        None => true,
        Some(t) => text_of(song.time_signature) == Some(t),
    }
}

/// The song's composer is there and holds the wanted text, case-folded.
pub open spec fn composer_holds(song: Song, wanted: Option<Seq<char>>) -> bool {
    match wanted {
        None => true,
        Some(c) => field_contains(text_of(song.composer), c),
    }
}

/// The song meets every criterion that is supplied.
pub open spec fn satisfies(song: Song, criteria: Criteria) -> bool {
    &&& key_holds(song, criteria.key)
    &&& rhythm_holds(song, criteria.rhythm)
    &&& time_holds(song, criteria.time)
    &&& composer_holds(song, criteria.composer)
}

/// The songs of the collection that meet the criteria, in the collection's
/// order.
pub open spec fn filter_result(songs: Seq<Song>, criteria: Criteria) -> Seq<Song> {
    songs.filter(|s: Song| satisfies(s, criteria))
}

/// The song's title equals the given one once both are case-folded.
pub open spec fn has_title(song: Song, title: Seq<char>) -> bool {
    case_folded(song.title@) == case_folded(title)
}

/// The first song of the collection with the given title, if there is one.
pub open spec fn lookup_result(songs: Seq<Song>, title: Seq<char>) -> Option<Song> {
    let titled = songs.filter(|s: Song| has_title(s, title));
    if titled.len() == 0 {
        None
    } else {
        Some(titled[0])
    }
}

/// Folds an optional text.
fn fold_optional(field: &Option<String>) -> (folded: Option<String>)
    ensures
        text_of(folded) == folded_text(text_of(*field)),
{
    match field {
        Some(text) => Some(fold_case(text.as_str())),
        None => None,
    }
}

/// Whether an optional text that is folded already contains the folded
/// needle.
fn optional_contains(folded_field: &Option<String>, folded_needle: &str) -> (r: bool)
    ensures
        r == folded_contains(text_of(*folded_field), folded_needle@),
{
    match folded_field {
        Some(text) => contains(text.as_str(), folded_needle),
        None => false,
    }
}

/// Decides a search on texts that are folded already: the title or, where
/// there is one, the composer contains the term.
pub fn matches_folded_term(
    folded_title: &str,
    folded_composer: &Option<String>,
    folded_term: &str,
) -> (r: bool)
    ensures
        r == (is_substring(folded_term@, folded_title@) || folded_contains(
            text_of(*folded_composer),
            folded_term@,
        )),
{
    contains(folded_title, folded_term) || optional_contains(folded_composer, folded_term)
}

/// Returns, in the collection's order, the songs whose title or composer
/// contains `term`, compared case-folded. The empty term selects every song.
pub fn search_songs<'a>(songs: &'a [Song], term: &str) -> (found: Vec<&'a Song>)
    ensures
        songs_of(found@) == search_result(songs@, term@),
{
    let lowered = fold_case(term);
    let ghost pred = |s: Song| matches_term(s, term@);
    let mut found: Vec<&'a Song> = Vec::new();
    let mut i: usize = 0;
    proof {
        reveal(Seq::filter);
        assert(songs@.take(0).filter(pred) =~= songs_of(found@));
    }
    while i < songs.len()
        invariant
            i <= songs.len(),
            lowered@ == case_folded(term@),
            pred == |s: Song| matches_term(s, term@),
            songs_of(found@) == songs@.take(i as int).filter(pred),
        decreases songs.len() - i,
    {
        let song = &songs[i];
        proof {
            lemma_filter_step(songs@, i as int, pred);
        }
        let ghost before = found@;
        let title = fold_case(song.title.as_str());
        let composer = fold_optional(&song.composer);
        if matches_folded_term(title.as_str(), &composer, lowered.as_str()) {
            found.push(song);
            proof {
                assert(songs_of(found@) =~= songs_of(before).push(*song));
            }
        }
        i += 1;
    }
    proof {
        assert(songs@.take(songs@.len() as int) =~= songs@);
    }
    found
}

/// A search keeps exactly the matching songs: every song it returns matches
/// the term, and every song of the collection that it does not return fails
/// to match in both the title and the composer.
pub proof fn search_keeps_exactly_the_matches(songs: Seq<Song>, term: Seq<char>)
    ensures
        forall|i: int|
            0 <= i < search_result(songs, term).len() ==> matches_term(
                #[trigger] search_result(songs, term)[i],
                term,
            ),
        forall|j: int|
            0 <= j < songs.len() && !search_result(songs, term).contains(#[trigger] songs[j])
                ==> !contains_folded(songs[j].title@, term) && !field_contains(
                text_of(songs[j].composer),
                term,
            ),
{
    let pred = |s: Song| matches_term(s, term);
    assert forall|i: int| 0 <= i < songs.filter(pred).len() implies matches_term(
        #[trigger] songs.filter(pred)[i],
        term,
    ) by {
        songs.lemma_filter_pred(pred, i);
    }
    assert forall|j: int| 0 <= j < songs.len() && !songs.filter(pred).contains(
        #[trigger] songs[j],
    ) implies !matches_term(songs[j], term) by {
        if pred(songs[j]) {
            songs.lemma_filter_contains(pred, j);
        }
    }
}

/// Searching for the empty term returns the whole collection in its order.
pub proof fn search_for_nothing_selects_all(songs: Seq<Song>)
    ensures
        search_result(songs, Seq::<char>::empty()) == songs,
{
    let term = Seq::<char>::empty();
    let pred = |s: Song| matches_term(s, term);
    assert forall|i: int| 0 <= i < songs.len() implies pred(#[trigger] songs[i]) by {
        let hay = case_folded(songs[i].title@);
        let needle = case_folded(term);
        assert(hay.subrange(0int, 0int + needle.len()) =~= needle);
    }
    lemma_filter_all(songs, pred);
}

/// A term that holds another finds no song that the other does not find:
/// where the folded form of `short` occurs in the folded form of `long`,
/// what `long` selects is what it selects among the songs that `short`
/// selects.
pub proof fn search_for_longer_term_finds_no_more(
    songs: Seq<Song>,
    short: Seq<char>,
    long: Seq<char>,
)
    requires
        is_substring(case_folded(short), case_folded(long)),
    ensures
        search_result(songs, long) == search_result(search_result(songs, short), long),
        search_result(songs, long).len() <= search_result(songs, short).len(),
        forall|s: Song|
            search_result(songs, long).contains(s) ==> #[trigger] search_result(
                songs,
                short,
            ).contains(s),
{
    let by_long = |s: Song| matches_term(s, long);
    let by_short = |s: Song| matches_term(s, short);
    assert forall|s: Song| #[trigger] by_long(s) implies by_short(s) by {
        if contains_folded(s.title@, long) {
            lemma_substring_transitive(
                case_folded(short),
                case_folded(long),
                case_folded(s.title@),
            );
        } else {
            let composer = s.composer.unwrap();
            lemma_substring_transitive(
                case_folded(short),
                case_folded(long),
                case_folded(composer@),
            );
        }
    }
    lemma_filter_refines(songs, by_long, by_short);
    let wide = songs.filter(by_short);
    wide.lemma_filter_len(by_long);
    assert forall|s: Song| wide.filter(by_long).contains(s) implies wide.contains(s) by {
        wide.lemma_filter_contains_rev(by_long, s);
    }
}

/// The four texts that a filter compares, of a song or of the criteria: the
/// key, the rhythm and the composer case-folded, the time signature as it
/// is stored.
#[derive(Debug, Clone)]
pub struct FilterTexts {
    pub key: Option<String>,
    pub rhythm: Option<String>,
    pub time: Option<String>,
    pub composer: Option<String>,
}

/// The texts hold the criteria in the form in which they are compared.
pub open spec fn holds_criteria(wanted: FilterTexts, criteria: Criteria) -> bool {
    &&& text_of(wanted.key) == folded_text(criteria.key)
    &&& text_of(wanted.rhythm) == folded_text(criteria.rhythm)
    &&& text_of(wanted.time) == criteria.time
    &&& text_of(wanted.composer) == folded_text(criteria.composer)
}

/// The texts hold of the song what the criteria ask for, in the form in
/// which it is compared.
pub open spec fn holds_fields(fields: FilterTexts, song: Song, criteria: Criteria) -> bool {
    &&& criteria.key.is_some() ==> text_of(fields.key) == folded_text(text_of(song.key))
    &&& criteria.rhythm.is_some() ==> text_of(fields.rhythm) == folded_text(text_of(song.rhythm))
    &&& criteria.time.is_some() ==> text_of(fields.time) == text_of(song.time_signature)
    &&& criteria.composer.is_some() ==> text_of(fields.composer) == folded_text(
        text_of(song.composer),
    )
}

/// Folds a criterion that is compared case-folded.
fn fold_criterion(wanted: Option<&str>) -> (folded: Option<String>)
    ensures
        text_of(folded) == folded_text(slice_text(wanted)),
{
    match wanted {
        Some(w) => Some(fold_case(w)),
        None => None,
    }
}

/// Keeps a criterion that is compared as it is.
fn own_criterion(wanted: Option<&str>) -> (owned: Option<String>)
    ensures
        text_of(owned) == slice_text(wanted),
{
    match wanted {
        Some(w) => Some(w.to_owned()),
        None => None,
    }
}

/// Folds a field of a song where a criterion asks for it.
fn fold_where_wanted(field: &Option<String>, wanted: &Option<String>) -> (folded: Option<String>)
    ensures
        wanted.is_some() ==> text_of(folded) == folded_text(text_of(*field)),
{
    if wanted.is_some() {
        fold_optional(field)
    } else {
        None
    }
}

/// Copies a field of a song where a criterion asks for it.
fn copy_where_wanted(field: &Option<String>, wanted: &Option<String>) -> (copied: Option<String>)
    ensures
        wanted.is_some() ==> text_of(copied) == text_of(*field),
{
    if wanted.is_some() {
        match field {
            Some(text) => Some(text.clone()),
            None => None,
        }
    } else {
        None
    }
}

/// Whether a field that is folded already meets a criterion of containment
/// that is folded already.
fn folded_criterion_met(folded_field: &Option<String>, folded_wanted: &Option<String>) -> (r: bool)
    ensures
        r == folded_criterion_holds(text_of(*folded_field), text_of(*folded_wanted)),
{
    match folded_wanted {
        Some(wanted) => optional_contains(folded_field, wanted.as_str()),
        None => true,
    }
}

/// Whether a field meets a criterion of equality.
fn equality_criterion_met(field: &Option<String>, wanted: &Option<String>) -> (r: bool)
    ensures
        r == equality_criterion_holds(text_of(*field), text_of(*wanted)),
{
    match wanted {
        Some(w) => match field {
            Some(text) => *text == *w,
            None => false,
        },
        None => true,
    }
}

/// Decides a filter on texts that are made comparable already: the key and
/// the time signature equal the wanted ones, the rhythm and the composer
/// contain them. Every criterion that is supplied must hold, and a field
/// that is absent meets none.
pub fn satisfies_folded(fields: &FilterTexts, wanted: &FilterTexts) -> (r: bool)
    ensures
        r == (equality_criterion_holds(text_of(fields.key), text_of(wanted.key))
            && folded_criterion_holds(text_of(fields.rhythm), text_of(wanted.rhythm))
            && equality_criterion_holds(text_of(fields.time), text_of(wanted.time))
            && folded_criterion_holds(text_of(fields.composer), text_of(wanted.composer))),
{
    equality_criterion_met(&fields.key, &wanted.key) && folded_criterion_met(
        &fields.rhythm,
        &wanted.rhythm,
    ) && equality_criterion_met(&fields.time, &wanted.time) && folded_criterion_met(
        &fields.composer,
        &wanted.composer,
    )
}

/// Returns, in the collection's order, the songs that meet every supplied
/// criterion: `key` equal case-folded, `rhythm` and `composer` contained
/// case-folded, `time` exactly equal. A song that lacks a field never meets
/// a criterion on it. With no criterion every song is returned.
pub fn filter_songs<'a>(
    songs: &'a [Song],
    key: Option<&str>,
    rhythm: Option<&str>,
    time: Option<&str>,
    composer: Option<&str>,
) -> (found: Vec<&'a Song>)
    ensures
        songs_of(found@) == filter_result(songs@, criteria_of(key, rhythm, time, composer)),
{
    let wanted = FilterTexts {
        key: fold_criterion(key),
        rhythm: fold_criterion(rhythm),
        time: own_criterion(time),
        composer: fold_criterion(composer),
    };
    let ghost criteria = criteria_of(key, rhythm, time, composer);
    let ghost pred = |s: Song| satisfies(s, criteria);
    let mut found: Vec<&'a Song> = Vec::new();
    let mut i: usize = 0;
    proof {
        reveal(Seq::filter);
        assert(songs@.take(0).filter(pred) =~= songs_of(found@));
    }
    while i < songs.len()
        invariant
            i <= songs.len(),
            criteria == criteria_of(key, rhythm, time, composer),
            holds_criteria(wanted, criteria),
            pred == |s: Song| satisfies(s, criteria),
            songs_of(found@) == songs@.take(i as int).filter(pred),
        decreases songs.len() - i,
    {
        let song = &songs[i];
        proof {
            lemma_filter_step(songs@, i as int, pred);
        }
        let ghost before = found@;
        let fields = FilterTexts {
            key: fold_where_wanted(&song.key, &wanted.key),
            rhythm: fold_where_wanted(&song.rhythm, &wanted.rhythm),
            time: copy_where_wanted(&song.time_signature, &wanted.time),
            composer: fold_where_wanted(&song.composer, &wanted.composer),
        };
        proof {
            assert(holds_fields(fields, *song, criteria));
        }
        if satisfies_folded(&fields, &wanted) {
            found.push(song);
            proof {
                assert(songs_of(found@) =~= songs_of(before).push(*song));
            }
        }
        i += 1;
    }
    proof {
        assert(songs@.take(songs@.len() as int) =~= songs@);
    }
    found
}

/// The criteria that ask nothing.
pub open spec fn no_criteria() -> Criteria {
    Criteria { key: None, rhythm: None, time: None, composer: None }
}

/// `loose` asks no more than `strict`: each of its criteria is either not
/// supplied or the same as in `strict`.
pub open spec fn relaxes(loose: Criteria, strict: Criteria) -> bool {
    &&& loose.key.is_none() || loose.key == strict.key
    &&& loose.rhythm.is_none() || loose.rhythm == strict.rhythm
    &&& loose.time.is_none() || loose.time == strict.time
    &&& loose.composer.is_none() || loose.composer == strict.composer
}

/// Filtering with no criterion returns the whole collection in its order.
pub proof fn filter_without_criteria_selects_all(songs: Seq<Song>)
    ensures
        filter_result(songs, no_criteria()) == songs,
{
    lemma_filter_all(songs, |s: Song| satisfies(s, no_criteria()));
}

/// Dropping criteria never loses a song: what the stricter criteria select
/// is what they select among the songs that the looser criteria select, so
/// every song of the stricter result is in the looser one.
pub proof fn filter_relaxation_is_monotonic(songs: Seq<Song>, strict: Criteria, loose: Criteria)
    requires
        relaxes(loose, strict),
    ensures
        filter_result(songs, strict) == filter_result(filter_result(songs, loose), strict),
        filter_result(songs, strict).len() <= filter_result(songs, loose).len(),
        forall|s: Song|
            filter_result(songs, strict).contains(s) ==> #[trigger] filter_result(
                songs,
                loose,
            ).contains(s),
{
    let p_strict = |s: Song| satisfies(s, strict);
    let p_loose = |s: Song| satisfies(s, loose);
    lemma_filter_refines(songs, p_strict, p_loose);
    let wide = songs.filter(p_loose);
    wide.lemma_filter_len(p_strict);
    assert forall|s: Song| wide.filter(p_strict).contains(s) implies wide.contains(s) by {
        wide.lemma_filter_contains_rev(p_strict, s);
    }
}

/// Finds the first text of the list that equals the wanted one.
pub fn position_of_text(list: &[String], wanted: &str) -> (found: Option<usize>)
    ensures
        match found {
            Some(i) => i < list@.len() && list@[i as int]@ == wanted@ && forall|j: int|
                0 <= j < i ==> (#[trigger] list@[j])@ != wanted@,
            None => forall|j: int| 0 <= j < list@.len() ==> (#[trigger] list@[j])@ != wanted@,
        },
{
    let owned = wanted.to_owned();
    let mut i: usize = 0;
    while i < list.len()
        invariant
            i <= list.len(),
            owned@ == wanted@,
            forall|j: int| 0 <= j < i ==> (#[trigger] list@[j])@ != wanted@,
        decreases list.len() - i,
    {
        if list[i] == owned {
            return Some(i);
        }
        i += 1;
    }
    None
}

/// The titles of the songs, case-folded, in the collection's order.
fn folded_titles(songs: &[Song]) -> (titles: Vec<String>)
    ensures
        titles@.len() == songs@.len(),
        forall|i: int|
            0 <= i < songs@.len() ==> (#[trigger] titles@[i])@ == case_folded(songs@[i].title@),
{
    let mut titles: Vec<String> = Vec::new();
    let mut i: usize = 0;
    while i < songs.len()
        invariant
            i <= songs.len(),
            titles@.len() == i,
            forall|j: int| 0 <= j < i ==> (#[trigger] titles@[j])@ == case_folded(songs@[j].title@),
        decreases songs.len() - i,
    {
        titles.push(fold_case(songs[i].title.as_str()));
        i += 1;
    }
    titles
}

/// Returns the first song of the collection whose title equals `title` once
/// both are case-folded, or `None` where no song has that title.
pub fn find_by_title<'a>(songs: &'a [Song], title: &str) -> (found: Option<&'a Song>)
    ensures
        match found {
            Some(song) => lookup_result(songs@, title@) == Some(*song),
            None => lookup_result(songs@, title@).is_none(),
        },
        found.is_some() <==> exists|i: int| 0 <= i < songs@.len() && has_title(songs@[i], title@),
        found.is_some() ==> exists|i: int|
            0 <= i < songs@.len() && songs@[i] == *found.unwrap() && has_title(songs@[i], title@)
                && forall|j: int| 0 <= j < i ==> !has_title(#[trigger] songs@[j], title@),
{
    let ghost pred = |s: Song| has_title(s, title@);
    let wanted = fold_case(title);
    let titles = folded_titles(songs);
    match position_of_text(titles.as_slice(), wanted.as_str()) {
        Some(i) => {
            proof {
                assert(titles@[i as int]@ == wanted@);
                assert(has_title(songs@[i as int], title@));
                assert forall|j: int| 0 <= j < i implies !has_title(#[trigger] songs@[j], title@) by {
                    assert(titles@[j]@ != wanted@);
                }
                lemma_filter_first(songs@, i as int, pred);
            }
            Some(&songs[i])
        },
        None => {
            proof {
                assert forall|j: int| 0 <= j < songs@.len() implies !pred(#[trigger] songs@[j]) by {
                    assert(titles@[j]@ != wanted@);
                }
                lemma_filter_none(songs@, pred);
            }
            None
        },
    }
}

/// Lookup does not tell apart two titles that fold alike: both find the same
/// song, or neither finds any.
pub proof fn lookup_ignores_letter_case(songs: Seq<Song>, title: Seq<char>, other: Seq<char>)
    requires
        case_folded(title) == case_folded(other),
    ensures
        lookup_result(songs, title) == lookup_result(songs, other),
{
    let p = |s: Song| has_title(s, title);
    let q = |s: Song| has_title(s, other);
    assert(p =~= q);
}

} // verus!
