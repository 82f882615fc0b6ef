//! Aggregates over the collection: how many songs carry each field, and the
//! distinct values of a field in dictionary order.

use vstd::prelude::*;
use crate::models::{text_of, Song};
use crate::filtering::lemma_filter_step;
use crate::text::{
    case_folded, comes_before, fold_case, lemma_lex_irreflexive, lemma_lex_total,
    lemma_lex_transitive, lex_less, same_text,
};

verus! {

/// A text field of a song that values can be listed and counted for.
#[derive(Debug, Clone, Copy, PartialEq, Eq, Structural)]
pub enum Field {
    Key,
    Rhythm,
    Composer,
    TimeSignature,
}

/// A field name that is none of the recognised ones.
#[derive(Debug, Clone, Copy, PartialEq, Eq, Structural)]
pub struct UnknownField {}

/// The field that a folded name stands for. Each field has a plural and a
/// singular name; the time signature is `time-signatures`, `time-signature`
/// or `time`.
pub open spec fn field_of_folded(folded: Seq<char>) -> Option<Field> {
    if folded == "keys"@ || folded == "key"@ {
        Some(Field::Key)
    } else if folded == "rhythms"@ || folded == "rhythm"@ {
        Some(Field::Rhythm)
    } else if folded == "composers"@ || folded == "composer"@ {
        Some(Field::Composer)
    } else if folded == "time-signatures"@ || folded == "time-signature"@ || folded == "time"@ {
        Some(Field::TimeSignature)
    } else {
        None
    }
}

/// The field that a name stands for, compared case-folded.
pub open spec fn field_named(name: Seq<char>) -> Option<Field> {
    field_of_folded(case_folded(name))
}

/// The song's value for the field, where it has one.
pub open spec fn field_value(song: Song, field: Field) -> Option<Seq<char>> {
    match field {
        Field::Key => text_of(song.key),
        Field::Rhythm => text_of(song.rhythm),
        Field::Composer => text_of(song.composer),
        Field::TimeSignature => text_of(song.time_signature),
    }
}

/// How many songs of the collection have the field.
pub open spec fn present_count(songs: Seq<Song>, field: Field) -> nat {
    songs.filter(|s: Song| field_value(s, field).is_some()).len()
}

/// How many songs of the collection have sections.
pub open spec fn sectioned_count(songs: Seq<Song>) -> nat {
    songs.filter(|s: Song| s.sections.is_some()).len()
}

/// How many songs of the collection have exactly this value for the field.
pub open spec fn occurrences(songs: Seq<Song>, field: Field, value: Seq<char>) -> nat {
    songs.filter(|s: Song| field_value(s, field) == Some(value)).len()
}

/// Some song among the first `n` of the collection has this value for the
/// field.
pub open spec fn occurs_within(songs: Seq<Song>, field: Field, value: Seq<char>, n: int) -> bool {
    exists|k: int| 0 <= k < n && k < songs.len() && field_value(#[trigger] songs[k], field) == Some(value)
}

/// Some song of the collection has this value for the field.
pub open spec fn occurs(songs: Seq<Song>, field: Field, value: Seq<char>) -> bool {
    occurs_within(songs, field, value, songs.len() as int)
}

/// The values that the songs of the collection have for the field.
pub open spec fn value_set(songs: Seq<Song>, field: Field) -> Set<Seq<char>> {
    Set::new(|v: Seq<char>| occurs(songs, field, v))
}

/// The characters of each text of a list.
pub open spec fn texts(values: Seq<String>) -> Seq<Seq<char>> {
    values.map_values(|s: String| s@)
}

/// Each text comes strictly before every later one in dictionary order.
pub open spec fn strictly_ascending(values: Seq<Seq<char>>) -> bool {
    forall|i: int, j: int| 0 <= i < j < values.len() ==> lex_less(#[trigger] values[i], #[trigger] values[j])
}

/// The list holds the values that the songs have for the field, and no
/// others, in ascending order.
pub open spec fn lists_values_of(listing: Seq<Seq<char>>, songs: Seq<Song>, field: Field) -> bool {
    &&& strictly_ascending(listing)
    &&& forall|v: Seq<char>| listing.contains(v) <==> occurs(songs, field, v)
}

/// A part of a whole in tenths of a percent, rounded to the nearest tenth,
/// a half upwards. There is no percentage of an empty whole, nor of a count
/// that exceeds the whole.
pub open spec fn percent_tenths_of(count: nat, total: nat) -> Option<nat> {
    if total == 0 || count > total {
        None
    } else {
        Some(((2000 * count + total) / (2 * total)) as nat)
    }
}

/// The name that a field is listed under.
pub open spec fn field_name(field: Field) -> Seq<char> {
    match field {
        Field::Key => "keys"@,
        Field::Rhythm => "rhythms"@,
        Field::Composer => "composers"@,
        Field::TimeSignature => "time-signatures"@,
    }
}

/// The name that a field is listed under is read as that field.
pub proof fn listed_names_are_recognised(field: Field)
    ensures
        field_of_folded(field_name(field)) == Some(field),
{
    reveal_strlit("keys");
    reveal_strlit("key");
    reveal_strlit("rhythms");
    reveal_strlit("rhythm");
    reveal_strlit("composers");
    reveal_strlit("composer");
    reveal_strlit("time-signatures");
    reveal_strlit("time-signature");
    assert("keys"@.len() == 4 && "key"@.len() == 3);
    assert("rhythms"@.len() == 7 && "rhythm"@.len() == 6);
    assert("composers"@.len() == 9 && "composer"@.len() == 8);
    assert("time-signatures"@.len() == 15);
}

impl Field {
    /// The fields in the order in which they are listed to a caller whose
    /// field name was rejected.
    pub fn all() -> (fields: Vec<Field>)
        ensures
            fields@ == seq![Field::Key, Field::Rhythm, Field::Composer, Field::TimeSignature],
    {
        let mut fields: Vec<Field> = Vec::new();
        fields.push(Field::Key);
        fields.push(Field::Rhythm);
        fields.push(Field::Composer);
        fields.push(Field::TimeSignature);
        proof {
            assert(fields@ =~= seq![
                Field::Key,
                Field::Rhythm,
                Field::Composer,
                Field::TimeSignature,
            ]);
        }
        fields
    }

    /// The name that this field is listed under.
    pub fn name(self) -> (name: &'static str)
        ensures
            name@ == field_name(self),
    {
        match self {
            Field::Key => "keys",
            Field::Rhythm => "rhythms",
            Field::Composer => "composers",
            Field::TimeSignature => "time-signatures",
        }
    }

    /// Reads a field name that is folded already. A name that is not
    /// recognised is rejected.
    pub fn from_folded_name(folded: &str) -> (r: Result<Field, UnknownField>)
        ensures
            match field_of_folded(folded@) {
                Some(field) => r == Ok::<Field, UnknownField>(field),
                None => r.is_err(),
            },
    {
        if same_text(folded, "keys") || same_text(folded, "key") {
            Ok(Field::Key)
        } else if same_text(folded, "rhythms") || same_text(folded, "rhythm") {
            Ok(Field::Rhythm)
        } else if same_text(folded, "composers") || same_text(folded, "composer") {
            Ok(Field::Composer)
        } else if same_text(folded, "time-signatures") || same_text(folded, "time-signature")
            || same_text(folded, "time") {
            Ok(Field::TimeSignature)
        } else {
            Err(UnknownField {})
        }
    }

    /// Reads a field name, ignoring case. A name that is not recognised is
    /// rejected.
    pub fn from_name(name: &str) -> (r: Result<Field, UnknownField>)
        ensures
            match field_named(name@) {
                Some(field) => r == Ok::<Field, UnknownField>(field),
                None => r.is_err(),
            },
    {
        let folded = fold_case(name);
        Field::from_folded_name(folded.as_str())
    }

    /// The song's value for this field.
    pub fn value_in<'a>(self, song: &'a Song) -> (r: &'a Option<String>)
        ensures
            text_of(*r) == field_value(*song, self),
    {
        match self {
            Field::Key => &song.key,
            Field::Rhythm => &song.rhythm,
            Field::Composer => &song.composer,
            Field::TimeSignature => &song.time_signature,
        }
    }
}

/// How many songs carry each optional field.
#[derive(Debug, Clone, Copy, PartialEq, Eq, Structural)]
pub struct SummaryStatistics {
    pub total: usize,
    pub with_composer: usize,
    pub with_key: usize,
    pub with_rhythm: usize,
    pub with_time_signature: usize,
    pub with_sections: usize,
}

impl SummaryStatistics {
    /// The counts are those of the collection.
    pub open spec fn describes(&self, songs: Seq<Song>) -> bool {
        &&& self.total == songs.len()
        &&& self.with_composer == present_count(songs, Field::Composer)
        &&& self.with_key == present_count(songs, Field::Key)
        &&& self.with_rhythm == present_count(songs, Field::Rhythm)
        &&& self.with_time_signature == present_count(songs, Field::TimeSignature)
        &&& self.with_sections == sectioned_count(songs)
    }

    /// No count exceeds the total.
    pub open spec fn well_formed(&self) -> bool {
        &&& self.with_composer <= self.total
        &&& self.with_key <= self.total
        &&& self.with_rhythm <= self.total
        &&& self.with_time_signature <= self.total
        &&& self.with_sections <= self.total
    }
}

/// Counts the songs that have the field.
fn count_with_field(songs: &[Song], field: Field) -> (count: usize)
    ensures
        count == present_count(songs@, field),
        count <= songs@.len(),
{
    let ghost pred = |s: Song| field_value(s, field).is_some();
    let mut count: usize = 0;
    let mut i: usize = 0;
    proof {
        reveal(Seq::filter);
        assert(songs@.take(0).filter(pred).len() == 0);
    }
    while i < songs.len()
        invariant
            i <= songs.len(),
            pred == |s: Song| field_value(s, field).is_some(),
            count == songs@.take(i as int).filter(pred).len(),
            count <= i,
        decreases songs.len() - i,
    {
        proof {
            lemma_filter_step(songs@, i as int, pred);
        }
        if field.value_in(&songs[i]).is_some() {
            count += 1;
        }
        i += 1;
    }
    proof {
        assert(songs@.take(songs@.len() as int) =~= songs@);
    }
    count
}

/// Counts the songs that have sections.
fn count_with_sections(songs: &[Song]) -> (count: usize)
    ensures
        count == sectioned_count(songs@),
        count <= songs@.len(),
{
    let ghost pred = |s: Song| s.sections.is_some();
    let mut count: usize = 0;
    let mut i: usize = 0;
    proof {
        reveal(Seq::filter);
        assert(songs@.take(0).filter(pred).len() == 0);
    }
    while i < songs.len()
        invariant
            i <= songs.len(),
            pred == |s: Song| s.sections.is_some(),
            count == songs@.take(i as int).filter(pred).len(),
            count <= i,
        decreases songs.len() - i,
    {
        proof {
            lemma_filter_step(songs@, i as int, pred);
        }
        if songs[i].sections.is_some() {
            count += 1;
        }
        i += 1;
    }
    proof {
        assert(songs@.take(songs@.len() as int) =~= songs@);
    }
    count
}

/// Counts the songs whose value for the field is exactly `value`.
pub(crate) fn count_occurrences(songs: &[Song], field: Field, value: &String) -> (count: usize)
    ensures
        count == occurrences(songs@, field, value@),
        count <= songs@.len(),
{
    let ghost pred = |s: Song| field_value(s, field) == Some(value@);
    let mut count: usize = 0;
    let mut i: usize = 0;
    proof {
        reveal(Seq::filter);
        assert(songs@.take(0).filter(pred).len() == 0);
    }
    while i < songs.len()
        invariant
            i <= songs.len(),
            pred == |s: Song| field_value(s, field) == Some(value@),
            count == songs@.take(i as int).filter(pred).len(),
            count <= i,
        decreases songs.len() - i,
    {
        proof {
            lemma_filter_step(songs@, i as int, pred);
        }
        let matched = match field.value_in(&songs[i]) {
            Some(text) => *text == *value,
            None => false,
        };
        if matched {
            count += 1;
        }
        i += 1;
    }
    proof {
        assert(songs@.take(songs@.len() as int) =~= songs@);
    }
    count
}

/// Counts the songs of the collection and, for the composer, the key, the
/// rhythm, the time signature and the sections, the songs that have it.
pub fn summary_statistics(songs: &[Song]) -> (stats: SummaryStatistics)
    ensures
        stats.describes(songs@),
        stats.well_formed(),
{
    SummaryStatistics {
        total: songs.len(),
        with_composer: count_with_field(songs, Field::Composer),
        with_key: count_with_field(songs, Field::Key),
        with_rhythm: count_with_field(songs, Field::Rhythm),
        with_time_signature: count_with_field(songs, Field::TimeSignature),
        with_sections: count_with_sections(songs),
    }
}

/// The share of `count` in `total` in tenths of a percent, rounded to the
/// nearest tenth, a half upwards. An empty total has no percentages, and a
/// count above the total is no share of it: both give `None`.
pub fn percent_tenths(count: usize, total: usize) -> (r: Option<u16>)
    ensures
        match percent_tenths_of(count as nat, total as nat) {
            Some(p) => r == Some(p as u16) && p <= 1000,
            None => r.is_none(),
        },
        r.is_none() <==> total == 0 || count > total,
        match r {
            Some(p) => 2 * total * p <= 2000 * count + total < 2 * total * (p + 1),
            None => true,
        },
{
    if total == 0 || count > total {
        return None;
    }
    let part: u128 = count as u128;
    let whole: u128 = total as u128;
    assert((2000 * part + whole) / (2 * whole) <= 1000) by (nonlinear_arith)
        requires
            part <= whole,
            whole > 0,
    ;
    let tenths: u128 = (2000 * part + whole) / (2 * whole);
    assert(2 * whole * tenths <= 2000 * part + whole < 2 * whole * (tenths + 1)) by (nonlinear_arith)
        requires
            whole > 0,
            tenths == (2000 * part + whole) / (2 * whole),
    ;
    Some(tenths as u16)
}

/// Every count of a summary has a percentage between 0 and 100 where the
/// collection is not empty, and none where it is.
pub proof fn summary_percentages_are_in_range(stats: SummaryStatistics, count: usize)
    requires
        stats.well_formed(),
        count == stats.with_composer || count == stats.with_key || count == stats.with_rhythm
            || count == stats.with_time_signature || count == stats.with_sections,
    ensures
        stats.total == 0 ==> percent_tenths_of(count as nat, stats.total as nat).is_none(),
        stats.total > 0 ==> percent_tenths_of(count as nat, stats.total as nat).is_some()
            && percent_tenths_of(count as nat, stats.total as nat).unwrap() <= 1000,
{
    let part = count as nat;
    let whole = stats.total as nat;
    if whole > 0 {
        assert((2000 * part + whole) / (2 * whole) <= 1000) by (nonlinear_arith)
            requires
                part <= whole,
                whole > 0,
        ;
    }
}

/// A value that some song has is counted at least once.
pub proof fn lemma_occurring_value_is_counted(songs: Seq<Song>, field: Field, value: Seq<char>)
    requires
        occurs(songs, field, value),
    ensures
        occurrences(songs, field, value) >= 1,
{
    let pred = |s: Song| field_value(s, field) == Some(value);
    let k = choose|k: int|
        0 <= k < songs.len() && k < songs.len() && field_value(#[trigger] songs[k], field) == Some(
            value,
        );
    songs.lemma_filter_contains(pred, k);
}

/// In an ascending list no text occurs twice.
pub proof fn lemma_ascending_has_no_duplicates(values: Seq<Seq<char>>)
    requires
        strictly_ascending(values),
    ensures
        values.no_duplicates(),
{
    assert forall|i: int, j: int| 0 <= i < values.len() && 0 <= j < values.len() && i != j implies values[i]
        != values[j] by {
        lemma_lex_irreflexive(values[i]);
        if i < j {
            assert(lex_less(values[i], values[j]));
        } else {
            assert(lex_less(values[j], values[i]));
        }
    }
}

/// Two ascending lists that hold the same texts are the same list.
pub proof fn lemma_ascending_listing_is_unique(a: Seq<Seq<char>>, b: Seq<Seq<char>>)
    requires
        strictly_ascending(a),
        strictly_ascending(b),
        forall|v: Seq<char>| a.contains(v) <==> b.contains(v),
    ensures
        a == b,
    decreases a.len(),
{
    if a.len() == 0 {
        if b.len() > 0 {
            assert(b.contains(b[0]));
        }
        assert(a =~= b);
    } else {
        let x = a.last();
        assert(a.contains(x));
        let k = choose|k: int| 0 <= k < b.len() && b[k] == x;
        let y = b.last();
        assert(b.contains(y));
        let m = choose|m: int| 0 <= m < a.len() && a[m] == y;
        if k < b.len() - 1 && m < a.len() - 1 {
            assert(lex_less(b[k], b[b.len() - 1]));
            assert(lex_less(a[m], a[a.len() - 1]));
            lemma_lex_transitive(x, y, x);
            lemma_lex_irreflexive(x);
        }
        assert(x == y);
        let a_rest = a.drop_last();
        let b_rest = b.drop_last();
        assert forall|v: Seq<char>| a_rest.contains(v) <==> b_rest.contains(v) by {
            lemma_lex_irreflexive(x);
            if a_rest.contains(v) {
                let i = choose|i: int| 0 <= i < a_rest.len() && a_rest[i] == v;
                assert(lex_less(a[i], a[a.len() - 1]));
                assert(a.contains(v));
                let j = choose|j: int| 0 <= j < b.len() && b[j] == v;
                assert(b_rest[j] == v);
            }
            if b_rest.contains(v) {
                let i = choose|i: int| 0 <= i < b_rest.len() && b_rest[i] == v;
                assert(lex_less(b[i], b[b.len() - 1]));
                assert(b.contains(v));
                let j = choose|j: int| 0 <= j < a.len() && a[j] == v;
                assert(a_rest[j] == v);
            }
        }
        assert forall|i: int, j: int| 0 <= i < j < a_rest.len() implies lex_less(
            #[trigger] a_rest[i],
            #[trigger] a_rest[j],
        ) by {
            assert(lex_less(a[i], a[j]));
        }
        assert forall|i: int, j: int| 0 <= i < j < b_rest.len() implies lex_less(
            #[trigger] b_rest[i],
            #[trigger] b_rest[j],
        ) by {
            assert(lex_less(b[i], b[j]));
        }
        lemma_ascending_listing_is_unique(a_rest, b_rest);
        assert(a =~= a_rest.push(x));
        assert(b =~= b_rest.push(y));
    }
}

/// The songs and the field determine the listing of the distinct values:
/// two lists that both hold the values of the field in ascending order are
/// equal.
pub proof fn distinct_listing_is_determined(
    a: Seq<Seq<char>>,
    b: Seq<Seq<char>>,
    songs: Seq<Song>,
    field: Field,
)
    requires
        lists_values_of(a, songs, field),
        lists_values_of(b, songs, field),
    ensures
        a == b,
{
    lemma_ascending_listing_is_unique(a, b);
}

/// Puts `value` at its place in an ascending list, unless it is there
/// already.
fn insert_sorted(values: &mut Vec<String>, value: &String)
    requires
        strictly_ascending(texts(old(values)@)),
    ensures
        strictly_ascending(texts(final(values)@)),
        forall|v: Seq<char>|
            texts(final(values)@).contains(v) <==> (texts(old(values)@).contains(v) || v == value@),
        final(values)@.len() <= old(values)@.len() + 1,
{
    let ghost before = texts(values@);
    let n: usize = values.len();
    let mut j: usize = 0;
    let mut searching = true;
    while searching && j < n
        invariant
            j <= n,
            n == values@.len(),
            before == texts(values@),
            forall|k: int| 0 <= k < j ==> lex_less(#[trigger] before[k], value@),
            !searching ==> j < n && !lex_less(before[j as int], value@),
        decreases (n - j) + (if searching { 1int } else { 0int }),
    {
        if comes_before(values[j].as_str(), value.as_str()) {
            j += 1;
        } else {
            searching = false;
        }
    }
    if j < n && values[j] == *value {
        proof {
            assert forall|v: Seq<char>| before.contains(v) || v == value@ implies before.contains(v) by {
                if v == value@ {
                    assert(before[j as int] == v);
                }
            }
        }
        return;
    }
    values.insert(j, value.clone());
    proof {
        let after = texts(values@);
        assert(after =~= before.insert(j as int, value@));
        assert forall|k: int| j <= k < before.len() implies lex_less(value@, #[trigger] before[k]) by {
            lemma_lex_total(value@, before[j as int]);
            if k > j {
                assert(lex_less(before[j as int], before[k]));
                lemma_lex_transitive(value@, before[j as int], before[k]);
            }
        }
        assert forall|a: int, b: int| 0 <= a < b < after.len() implies lex_less(
            #[trigger] after[a],
            #[trigger] after[b],
        ) by {
            if b < j {
                assert(lex_less(before[a], before[b]));
            } else if b == j {
                assert(lex_less(before[a], value@));
            } else if a < j {
                assert(lex_less(before[a], before[b - 1]));
            } else if a == j {
                assert(lex_less(value@, before[b - 1]));
            } else {
                assert(lex_less(before[a - 1], before[b - 1]));
            }
        }
        assert forall|v: Seq<char>| after.contains(v) <==> (before.contains(v) || v == value@) by {
            if after.contains(v) {
                let k = choose|k: int| 0 <= k < after.len() && after[k] == v;
                if k < j {
                    assert(before[k] == v);
                } else if k > j {
                    assert(before[k - 1] == v);
                }
            }
            if before.contains(v) {
                let k = choose|k: int| 0 <= k < before.len() && before[k] == v;
                if k < j {
                    assert(after[k] == v);
                } else {
                    assert(after[k + 1] == v);
                }
            }
            if v == value@ {
                assert(after[j as int] == v);
            }
        }
    }
}

/// Lists the distinct values that the songs have for the field, each once,
/// in ascending dictionary order by code point, the case of letters
/// counting. The length of the list is the number of distinct values.
pub fn distinct_values(songs: &[Song], field: Field) -> (values: Vec<String>)
    ensures
        lists_values_of(texts(values@), songs@, field),
        texts(values@).no_duplicates(),
        values@.len() == value_set(songs@, field).len(),
        values@.len() <= present_count(songs@, field) <= songs@.len(),
{
    let ghost pred = |s: Song| field_value(s, field).is_some();
    let mut values: Vec<String> = Vec::new();
    let mut i: usize = 0;
    proof {
        reveal(Seq::filter);
        assert(songs@.take(0).filter(pred).len() == 0);
    }
    while i < songs.len()
        invariant
            i <= songs.len(),
            pred == |s: Song| field_value(s, field).is_some(),
            strictly_ascending(texts(values@)),
            forall|v: Seq<char>| texts(values@).contains(v) <==> occurs_within(songs@, field, v, i as int),
            values@.len() <= songs@.take(i as int).filter(pred).len() <= i,
        decreases songs.len() - i,
    {
        let ghost before = texts(values@);
        proof {
            lemma_filter_step(songs@, i as int, pred);
        }
        match field.value_in(&songs[i]) {
            Some(text) => {
                insert_sorted(&mut values, text);
                proof {
                    assert forall|v: Seq<char>| texts(values@).contains(v) <==> occurs_within(
                        songs@,
                        field,
                        v,
                        i + 1,
                    ) by {
                        if occurs_within(songs@, field, v, i + 1) {
                            let k = choose|k: int|
                                0 <= k < i + 1 && k < songs@.len() && field_value(
                                    #[trigger] songs@[k],
                                    field,
                                ) == Some(v);
                            if k < i {
                                assert(occurs_within(songs@, field, v, i as int));
                            }
                        }
                        if before.contains(v) {
                            assert(occurs_within(songs@, field, v, i as int));
                        }
                        if v == text@ {
                            assert(field_value(songs@[i as int], field) == Some(v));
                        }
                    }
                }
            },
            None => {
                proof {
                    assert forall|v: Seq<char>| occurs_within(songs@, field, v, i + 1) implies occurs_within(
                        songs@,
                        field,
                        v,
                        i as int,
                    ) by {
                        let k = choose|k: int|
                            0 <= k < i + 1 && k < songs@.len() && field_value(
                                #[trigger] songs@[k],
                                field,
                            ) == Some(v);
                        assert(k < i);
                    }
                    assert forall|v: Seq<char>| occurs_within(songs@, field, v, i as int) implies occurs_within(
                        songs@,
                        field,
                        v,
                        i + 1,
                    ) by {
                        let k = choose|k: int|
                            0 <= k < i && k < songs@.len() && field_value(
                                #[trigger] songs@[k],
                                field,
                            ) == Some(v);
                        assert(0 <= k < i + 1);
                    }
                }
            },
        }
        i += 1;
    }
    proof {
        assert(songs@.take(songs@.len() as int) =~= songs@);
        lemma_ascending_has_no_duplicates(texts(values@));
        texts(values@).unique_seq_to_set();
        assert(texts(values@).to_set() =~= value_set(songs@, field));
    }
    values
}

} // verus!
