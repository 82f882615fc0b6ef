//! The most frequent values of a field: a frequency table ranked by count,
//! the larger first, and among equal counts by value in dictionary order.

use vstd::prelude::*;
use crate::models::Song;
use crate::filtering::{lemma_filter_disjoint_union, lemma_filter_refines};
use crate::stats::{
    count_occurrences, distinct_values, field_value, lemma_occurring_value_is_counted,
    occurrences, occurs, present_count, texts, value_set, Field,
};
use crate::text::{
    comes_before, lemma_lex_irreflexive, lemma_lex_total, lemma_lex_transitive, lex_less,
};

verus! {

/// A value of a field and the number of songs that have it.
#[derive(Debug, Clone)]
pub struct CategoryCount {
    pub value: String,
    pub count: usize,
}

/// How many entries a ranking shows where the caller asks for no other
/// number.
pub const DEFAULT_TOP: usize = 10;

/// A value with its count ranks before another: its count is larger, or the
/// counts are equal and it comes first in dictionary order.
pub open spec fn ranks_before(
    value: Seq<char>,
    count: nat,
    other_value: Seq<char>,
    other_count: nat,
) -> bool {
    count > other_count || (count == other_count && lex_less(value, other_value))
}

/// The first entry ranks before the second.
pub open spec fn entry_ranks_before(a: CategoryCount, b: CategoryCount) -> bool {
    ranks_before(a.value@, a.count as nat, b.value@, b.count as nat)
}

/// Each entry ranks before every later one.
pub open spec fn ranked(entries: Seq<CategoryCount>) -> bool {
    forall|i: int, j: int|
        0 <= i < j < entries.len() ==> entry_ranks_before(#[trigger] entries[i], #[trigger] entries[j])
}

/// The value has an entry in the list.
pub open spec fn lists(entries: Seq<CategoryCount>, value: Seq<char>) -> bool {
    exists|i: int| 0 <= i < entries.len() && (#[trigger] entries[i]).value@ == value
}

/// Each entry's value occurs in the collection, and its count is the number
/// of songs that have the value.
pub open spec fn counted_from(entries: Seq<CategoryCount>, songs: Seq<Song>, field: Field) -> bool {
    forall|i: int|
        0 <= i < entries.len() ==> occurs(songs, field, (#[trigger] entries[i]).value@)
            && entries[i].count == occurrences(songs, field, entries[i].value@)
}

/// The list is the head of the ranking of the field's values: at most `n`
/// entries with their true counts, each ranking before the next, and every
/// value that is left out ranking after all of them in a list that is full.
pub open spec fn is_top_ranking(
    top: Seq<CategoryCount>,
    songs: Seq<Song>,
    field: Field,
    n: nat,
) -> bool {
    &&& top.len() <= n
    &&& ranked(top)
    &&& counted_from(top, songs, field)
    &&& forall|v: Seq<char>|
        occurs(songs, field, v) && !lists(top, v) ==> top.len() == n && forall|i: int|
            0 <= i < top.len() ==> ranks_before(
                (#[trigger] top[i]).value@,
                top[i].count as nat,
                v,
                occurrences(songs, field, v),
            )
}

/// The sum of the entries' counts.
pub open spec fn total_count(entries: Seq<CategoryCount>) -> nat
    decreases entries.len(),
{
    if entries.len() == 0 {
        0
    } else {
        total_count(entries.drop_last()) + entries.last().count as nat
    }
}

/// Of two entries with different values, one ranks before the other.
pub proof fn lemma_rank_total(a: CategoryCount, b: CategoryCount)
    requires
        a.value@ != b.value@,
    ensures
        entry_ranks_before(a, b) || entry_ranks_before(b, a),
{
    lemma_lex_total(a.value@, b.value@);
}

/// Ranking is transitive.
pub proof fn lemma_rank_transitive(a: CategoryCount, b: CategoryCount, c: CategoryCount)
    requires
        entry_ranks_before(a, b),
        entry_ranks_before(b, c),
    ensures
        entry_ranks_before(a, c),
{
    if a.count == b.count && b.count == c.count {
        lemma_lex_transitive(a.value@, b.value@, c.value@);
    }
}

/// The counts of entries with different values add up to no more than the
/// number of songs that have the field.
pub proof fn lemma_total_count_bounded(entries: Seq<CategoryCount>, songs: Seq<Song>, field: Field)
    requires
        forall|i: int|
            0 <= i < entries.len() ==> (#[trigger] entries[i]).count == occurrences(
                songs,
                field,
                entries[i].value@,
            ),
        forall|i: int, j: int|
            0 <= i < j < entries.len() ==> (#[trigger] entries[i]).value@ != (
            #[trigger] entries[j]).value@,
    ensures
        total_count(entries) <= present_count(songs, field),
{
    let listed = |s: Song|
        match field_value(s, field) {
            Some(v) => lists(entries, v),
            None => false,
        };
    let present = |s: Song| field_value(s, field).is_some();
    lemma_total_count_is_listed(entries, songs, field);
    lemma_filter_refines(songs, listed, present);
    songs.filter(present).lemma_filter_len(listed);
}

/// The counts of entries with different values add up to the number of
/// songs whose value has an entry.
proof fn lemma_total_count_is_listed(entries: Seq<CategoryCount>, songs: Seq<Song>, field: Field)
    requires
        forall|i: int|
            0 <= i < entries.len() ==> (#[trigger] entries[i]).count == occurrences(
                songs,
                field,
                entries[i].value@,
            ),
        forall|i: int, j: int|
            0 <= i < j < entries.len() ==> (#[trigger] entries[i]).value@ != (
            #[trigger] entries[j]).value@,
    ensures
        total_count(entries) == songs.filter(
            |s: Song|
                match field_value(s, field) {
                    Some(v) => lists(entries, v),
                    None => false,
                },
        ).len(),
    decreases entries.len(),
{
    let listed = |s: Song|
        match field_value(s, field) {
            Some(v) => lists(entries, v),
            None => false,
        };
    if entries.len() == 0 {
        if songs.filter(listed).len() > 0 {
            songs.lemma_filter_pred(listed, 0);
            assert(listed(songs.filter(listed)[0]));
        }
    } else {
        let rest = entries.drop_last();
        let last = entries.last();
        let listed_rest = |s: Song|
            match field_value(s, field) {
                Some(v) => lists(rest, v),
                None => false,
            };
        let is_last = |s: Song| field_value(s, field) == Some(last.value@);
        assert forall|i: int| 0 <= i < rest.len() implies (#[trigger] rest[i]).count == occurrences(
            songs,
            field,
            rest[i].value@,
        ) by {
            assert(rest[i] == entries[i]);
        }
        assert forall|i: int, j: int| 0 <= i < j < rest.len() implies (#[trigger] rest[i]).value@ != (
        #[trigger] rest[j]).value@ by {
            assert(rest[i] == entries[i] && rest[j] == entries[j]);
        }
        lemma_total_count_is_listed(rest, songs, field);
        assert forall|v: Seq<char>| lists(entries, v) <==> (lists(rest, v) || v == last.value@) by {
            if lists(entries, v) {
                let i = choose|i: int| 0 <= i < entries.len() && (#[trigger] entries[i]).value@ == v;
                if i < rest.len() {
                    assert(rest[i].value@ == v);
                }
            }
            if lists(rest, v) {
                let i = choose|i: int| 0 <= i < rest.len() && (#[trigger] rest[i]).value@ == v;
                assert(entries[i].value@ == v);
            }
            if v == last.value@ {
                assert(entries[entries.len() - 1].value@ == v);
            }
        }
        assert(!lists(rest, last.value@)) by {
            if lists(rest, last.value@) {
                let i = choose|i: int| 0 <= i < rest.len() && (#[trigger] rest[i]).value@ == last.value@;
                assert(entries[i].value@ != entries[entries.len() - 1].value@);
            }
        }
        assert forall|s: Song| #[trigger] listed(s) <==> listed_rest(s) || is_last(s) by {}
        assert forall|s: Song| !(#[trigger] listed_rest(s) && is_last(s)) by {}
        lemma_filter_disjoint_union(songs, listed_rest, is_last, listed);
    }
}

/// No two entries of a ranked list have the same value and count.
proof fn lemma_ranked_entries_differ(entries: Seq<CategoryCount>, i: int, j: int)
    requires
        ranked(entries),
        0 <= i < j < entries.len(),
    ensures
        !(entries[i].value@ == entries[j].value@ && entries[i].count == entries[j].count),
{
    assert(entry_ranks_before(entries[i], entries[j]));
    lemma_lex_irreflexive(entries[i].value@);
}

/// Two heads of the ranking agree on their first `k` entries.
proof fn lemma_top_rankings_agree(
    a: Seq<CategoryCount>,
    b: Seq<CategoryCount>,
    songs: Seq<Song>,
    field: Field,
    n: nat,
    k: int,
)
    requires
        is_top_ranking(a, songs, field, n),
        is_top_ranking(b, songs, field, n),
        0 <= k <= a.len(),
        k <= b.len(),
    ensures
        forall|i: int|
            0 <= i < k ==> (#[trigger] a[i]).value@ == b[i].value@ && a[i].count == b[i].count,
    decreases k,
{
    if k > 0 {
        lemma_top_rankings_agree(a, b, songs, field, n, k - 1);
        let x = a[k - 1];
        let y = b[k - 1];
        if x.value@ != y.value@ {
            lemma_rank_total(x, y);
            if entry_ranks_before(x, y) {
                lemma_left_out_ranks_last(b, a, songs, field, n, k);
            } else {
                lemma_left_out_ranks_last(a, b, songs, field, n, k);
            }
        }
        assert(x.count == occurrences(songs, field, x.value@));
        assert(y.count == occurrences(songs, field, y.value@));
    }
}

/// Where two heads of the ranking agree before place `k`, the entry of the
/// second at that place does not rank before the entry of the first.
proof fn lemma_left_out_ranks_last(
    a: Seq<CategoryCount>,
    b: Seq<CategoryCount>,
    songs: Seq<Song>,
    field: Field,
    n: nat,
    k: int,
)
    requires
        is_top_ranking(a, songs, field, n),
        is_top_ranking(b, songs, field, n),
        0 < k <= a.len(),
        k <= b.len(),
        forall|i: int|
            0 <= i < k - 1 ==> (#[trigger] a[i]).value@ == b[i].value@ && a[i].count == b[i].count,
        a[k - 1].value@ != b[k - 1].value@,
    ensures
        !entry_ranks_before(b[k - 1], a[k - 1]),
{
    let x = a[k - 1];
    let y = b[k - 1];
    if entry_ranks_before(y, x) {
        lemma_lex_irreflexive(y.value@);
        assert(occurs(songs, field, y.value@) && y.count == occurrences(songs, field, y.value@));
        if lists(a, y.value@) {
            let j = choose|j: int| 0 <= j < a.len() && (#[trigger] a[j]).value@ == y.value@;
            assert(a[j].count == occurrences(songs, field, a[j].value@));
            if j < k - 1 {
                assert(a[j].value@ == b[j].value@);
                lemma_ranked_entries_differ(b, j, k - 1);
            } else {
                assert(j > k - 1);
                assert(entry_ranks_before(a[k - 1], a[j]));
                lemma_rank_transitive(y, x, a[j]);
            }
        } else {
            assert(ranks_before(
                a[k - 1].value@,
                a[k - 1].count as nat,
                y.value@,
                occurrences(songs, field, y.value@),
            ));
            assert(entry_ranks_before(x, y));
            lemma_rank_transitive(y, x, y);
        }
    }
}

/// The songs, the field and `n` determine the head of the ranking: two lists
/// that are both such a head have the same values with the same counts in
/// the same order.
pub proof fn top_ranking_is_determined(
    a: Seq<CategoryCount>,
    b: Seq<CategoryCount>,
    songs: Seq<Song>,
    field: Field,
    n: nat,
)
    requires
        is_top_ranking(a, songs, field, n),
        is_top_ranking(b, songs, field, n),
    ensures
        a.len() == b.len(),
        forall|i: int|
            0 <= i < a.len() ==> (#[trigger] a[i]).value@ == b[i].value@ && a[i].count == b[i].count,
{
    let k = if a.len() <= b.len() {
        a.len() as int
    } else {
        b.len() as int
    };
    lemma_top_rankings_agree(a, b, songs, field, n, k);
    if a.len() <= b.len() {
        lemma_heads_are_as_long(a, b, songs, field, n);
    } else {
        assert forall|i: int| 0 <= i < b.len() implies (#[trigger] b[i]).value@ == a[i].value@
            && b[i].count == a[i].count by {
            assert(a[i].value@ == b[i].value@);
        }
        lemma_heads_are_as_long(b, a, songs, field, n);
    }
}

/// A head of the ranking that another head starts with is as long as that
/// other.
proof fn lemma_heads_are_as_long(
    a: Seq<CategoryCount>,
    b: Seq<CategoryCount>,
    songs: Seq<Song>,
    field: Field,
    n: nat,
)
    requires
        is_top_ranking(a, songs, field, n),
        is_top_ranking(b, songs, field, n),
        a.len() <= b.len(),
        forall|i: int|
            0 <= i < a.len() ==> (#[trigger] a[i]).value@ == b[i].value@ && a[i].count == b[i].count,
    ensures
        a.len() == b.len(),
{
    if a.len() < b.len() {
        let extra = b[a.len() as int];
        assert(occurs(songs, field, extra.value@));
        if lists(a, extra.value@) {
            let j = choose|j: int| 0 <= j < a.len() && (#[trigger] a[j]).value@ == extra.value@;
            assert(a[j].value@ == b[j].value@);
            assert(b[j].count == occurrences(songs, field, b[j].value@));
            assert(extra.count == occurrences(songs, field, extra.value@));
            lemma_ranked_entries_differ(b, j, a.len() as int);
        }
    }
}

/// Whether the first entry ranks before the second.
fn ranks_first(a: &CategoryCount, b: &CategoryCount) -> (r: bool)
    ensures
        r == entry_ranks_before(*a, *b),
{
    a.count > b.count || (a.count == b.count && comes_before(a.value.as_str(), b.value.as_str()))
}

/// Puts an entry at its place in a ranked list that does not list its value
/// yet.
fn insert_ranked(entries: &mut Vec<CategoryCount>, entry: CategoryCount)
    requires
        ranked(old(entries)@),
        !lists(old(entries)@, entry.value@),
    ensures
        ranked(final(entries)@),
        exists|j: int|
            0 <= j <= old(entries)@.len() && final(entries)@ == old(entries)@.insert(j, entry),
{
    let ghost before = entries@;
    let n: usize = entries.len();
    let mut j: usize = 0;
    let mut searching = true;
    while searching && j < n
        invariant
            j <= n,
            n == entries@.len(),
            before == entries@,
            forall|k: int| 0 <= k < j ==> entry_ranks_before(#[trigger] before[k], entry),
            !searching ==> j < n && !entry_ranks_before(before[j as int], entry),
        decreases (n - j) + (if searching { 1int } else { 0int }),
    {
        if ranks_first(&entries[j], &entry) {
            j += 1;
        } else {
            searching = false;
        }
    }
    entries.insert(j, entry);
    proof {
        let after = entries@;
        assert forall|k: int| j <= k < before.len() implies entry_ranks_before(
            entry,
            #[trigger] before[k],
        ) by {
            assert(before[j as int].value@ != entry.value@);
            lemma_rank_total(entry, before[j as int]);
            if k > j {
                assert(entry_ranks_before(before[j as int], before[k]));
                lemma_rank_transitive(entry, before[j as int], before[k]);
            }
        }
        assert forall|a: int, b: int| 0 <= a < b < after.len() implies entry_ranks_before(
            #[trigger] after[a],
            #[trigger] after[b],
        ) by {
            if b < j {
                assert(entry_ranks_before(before[a], before[b]));
            } else if b == j {
                assert(entry_ranks_before(before[a], entry));
            } else if a < j {
                assert(entry_ranks_before(before[a], before[b - 1]));
            } else if a == j {
                assert(entry_ranks_before(entry, before[b - 1]));
            } else {
                assert(entry_ranks_before(before[a - 1], before[b - 1]));
            }
        }
        assert(after == before.insert(j as int, entry));
    }
}

/// Ranks the values that the songs have for the field by the number of songs
/// that have them, the most frequent first, and among values with the same
/// count the one that comes first in dictionary order. Returns the first `n`
/// entries of that ranking, or all of them where there are fewer. Songs
/// without the field are not counted.
pub fn top_categories(songs: &[Song], field: Field, n: usize) -> (top: Vec<CategoryCount>)
    ensures
        is_top_ranking(top@, songs@, field, n as nat),
        top@.len() == if n <= value_set(songs@, field).len() {
            n as nat
        } else {
            value_set(songs@, field).len()
        },
        forall|i: int, j: int|
            0 <= i < j < top@.len() ==> (#[trigger] top@[i]).count >= (#[trigger] top@[j]).count,
        forall|i: int, j: int|
            0 <= i < j < top@.len() ==> (#[trigger] top@[i]).value@ != (#[trigger] top@[j]).value@,
        forall|i: int| 0 <= i < top@.len() ==> (#[trigger] top@[i]).count >= 1,
        total_count(top@) <= present_count(songs@, field),
{
    let values = distinct_values(songs, field);
    let mut entries: Vec<CategoryCount> = Vec::new();
    let mut i: usize = 0;
    while i < values.len()
        invariant
            i <= values.len(),
            entries@.len() == i,
            values@.len() == value_set(songs@, field).len(),
            texts(values@).no_duplicates(),
            forall|v: Seq<char>| texts(values@).contains(v) <==> occurs(songs@, field, v),
            ranked(entries@),
            counted_from(entries@, songs@, field),
            forall|v: Seq<char>|
                lists(entries@, v) <==> exists|k: int| 0 <= k < i && #[trigger] texts(values@)[k] == v,
        decreases values.len() - i,
    {
        let value = &values[i];
        let count: usize = count_occurrences(songs, field, value);
        let entry = CategoryCount { value: value.clone(), count };
        let ghost before = entries@;
        proof {
            assert(texts(values@)[i as int] == value@);
            if lists(before, value@) {
                let k = choose|k: int| 0 <= k < i && #[trigger] texts(values@)[k] == value@;
                assert(texts(values@)[k] == texts(values@)[i as int]);
            }
            assert(texts(values@).contains(value@));
        }
        insert_ranked(&mut entries, entry);
        proof {
            let j = choose|j: int| 0 <= j <= before.len() && entries@ == before.insert(j, entry);
            assert forall|a: int| 0 <= a < entries@.len() implies occurs(
                songs@,
                field,
                (#[trigger] entries@[a]).value@,
            ) && entries@[a].count == occurrences(songs@, field, entries@[a].value@) by {
                if a < j {
                    assert(entries@[a] == before[a]);
                } else if a > j {
                    assert(entries@[a] == before[a - 1]);
                }
            }
            assert forall|v: Seq<char>|
                lists(entries@, v) <==> exists|k: int|
                    0 <= k < i + 1 && #[trigger] texts(values@)[k] == v by {
                if lists(entries@, v) {
                    let a = choose|a: int| 0 <= a < entries@.len() && (#[trigger] entries@[a]).value@ == v;
                    if a < j {
                        assert(before[a].value@ == v);
                        assert(lists(before, v));
                    } else if a > j {
                        assert(before[a - 1].value@ == v);
                        assert(lists(before, v));
                    }
                    if lists(before, v) {
                        let k = choose|k: int| 0 <= k < i && #[trigger] texts(values@)[k] == v;
                        assert(0 <= k < i + 1);
                    } else {
                        assert(texts(values@)[i as int] == v);
                    }
                }
                if exists|k: int| 0 <= k < i + 1 && #[trigger] texts(values@)[k] == v {
                    let k = choose|k: int| 0 <= k < i + 1 && #[trigger] texts(values@)[k] == v;
                    if k < i {
                        assert(lists(before, v));
                        let a = choose|a: int| 0 <= a < before.len() && (#[trigger] before[a]).value@ == v;
                        if a < j {
                            assert(entries@[a].value@ == v);
                        } else {
                            assert(entries@[a + 1].value@ == v);
                        }
                    } else {
                        assert(entries@[j].value@ == v);
                    }
                }
            }
        }
        i += 1;
    }
    let ghost full = entries@;
    entries.truncate(n);
    proof {
        let top = entries@;
        assert forall|a: int| 0 <= a < top.len() implies top[a] == full[a] by {}
        assert forall|a: int, b: int| 0 <= a < b < top.len() implies entry_ranks_before(
            #[trigger] top[a],
            #[trigger] top[b],
        ) by {
            assert(entry_ranks_before(full[a], full[b]));
        }
        assert forall|a: int, b: int| 0 <= a < b < top.len() implies (#[trigger] top[a]).count >= (
        #[trigger] top[b]).count by {
            assert(entry_ranks_before(top[a], top[b]));
        }
        assert forall|a: int| 0 <= a < top.len() implies occurs(songs@, field, (#[trigger] top[a]).value@)
            && top[a].count == occurrences(songs@, field, top[a].value@) by {
            assert(top[a] == full[a]);
        }
        assert forall|v: Seq<char>| occurs(songs@, field, v) && !lists(top, v) implies top.len() == n
            && forall|a: int|
            0 <= a < top.len() ==> ranks_before(
                (#[trigger] top[a]).value@,
                top[a].count as nat,
                v,
                occurrences(songs@, field, v),
            ) by {
            assert(texts(values@).contains(v));
            let k = choose|k: int| 0 <= k < texts(values@).len() && texts(values@)[k] == v;
            assert(lists(full, v));
            let b = choose|b: int| 0 <= b < full.len() && (#[trigger] full[b]).value@ == v;
            if b < top.len() {
                assert(top[b].value@ == v);
            }
            assert forall|a: int| 0 <= a < top.len() implies ranks_before(
                (#[trigger] top[a]).value@,
                top[a].count as nat,
                v,
                occurrences(songs@, field, v),
            ) by {
                assert(entry_ranks_before(full[a], full[b]));
            }
        }
        assert forall|a: int, b: int| 0 <= a < b < top.len() implies (#[trigger] top[a]).value@ != (
        #[trigger] top[b]).value@ by {
            assert(entry_ranks_before(top[a], top[b]));
            lemma_lex_irreflexive(top[a].value@);
        }
        assert forall|a: int| 0 <= a < top.len() implies (#[trigger] top[a]).count >= 1 by {
            lemma_occurring_value_is_counted(songs@, field, top[a].value@);
        }
        lemma_total_count_bounded(top, songs@, field);
    }
    entries
}

/// The most frequent keys, rhythms and composers of a collection.
#[derive(Debug, Clone)]
pub struct DetailedStatistics {
    pub keys: Vec<CategoryCount>,
    pub rhythms: Vec<CategoryCount>,
    pub composers: Vec<CategoryCount>,
}

/// Ranks the keys, the rhythms and the composers of the collection and
/// returns the first `DEFAULT_TOP` entries of each ranking.
pub fn detailed_statistics(songs: &[Song]) -> (stats: DetailedStatistics)
    ensures
        is_top_ranking(stats.keys@, songs@, Field::Key, DEFAULT_TOP as nat),
        is_top_ranking(stats.rhythms@, songs@, Field::Rhythm, DEFAULT_TOP as nat),
        is_top_ranking(stats.composers@, songs@, Field::Composer, DEFAULT_TOP as nat),
{
    DetailedStatistics {
        keys: top_categories(songs, Field::Key, DEFAULT_TOP),
        rhythms: top_categories(songs, Field::Rhythm, DEFAULT_TOP),
        composers: top_categories(songs, Field::Composer, DEFAULT_TOP),
    }
}

} // verus!
