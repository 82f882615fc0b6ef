use jazz_standards_database::models::{Section, Segment, Song};
use jazz_standards_database::search::{
    filter_songs, find_by_title, matches_folded_term, position_of_text, satisfies_folded,
    search_songs, FilterTexts,
};
use jazz_standards_database::stats::{distinct_values, Field};
use jazz_standards_database::text::fold_case;

fn song(title: &str, composer: Option<&str>, key: Option<&str>, rhythm: Option<&str>, time: Option<&str>) -> Song {
    Song {
        title: title.to_string(),
        composer: composer.map(|c| c.to_string()),
        year: None,
        key: key.map(|k| k.to_string()),
        rhythm: rhythm.map(|r| r.to_string()),
        time_signature: time.map(|t| t.to_string()),
        sections: None,
    }
}

fn two_blues() -> Vec<Song> {
    vec![
        song("All Blues", Some("Miles Davis"), Some("G"), Some("Swing"), Some("4/4")),
        song("Blue Monk", Some("Thelonious Monk"), Some("F"), Some("Swing"), Some("4/4")),
    ]
}

fn library() -> Vec<Song> {
    vec![
        song("All Blues", Some("Miles Davis"), Some("G"), Some("Waltz"), Some("6/8")),
        song("Blue Monk", Some("Thelonious Monk"), Some("Bb"), Some("Medium Swing"), Some("4/4")),
        song("So What", Some("Miles Davis"), Some("Dm"), Some("Medium Up Swing"), Some("4/4")),
        song("Untitled", None, None, None, None),
        song("All Blues", Some("Somebody Else"), Some("g"), Some("Bossa Nova"), Some("4/4")),
        song("ÉTUDE", Some("Ångström"), Some("C"), Some(""), Some("3/4")),
    ]
}

fn titles(found: &[&Song]) -> Vec<String> {
    found.iter().map(|s| s.title.clone()).collect()
}

#[test]
fn search_matches_title_substring_in_any_case() {
    let songs = two_blues();
    let found = search_songs(&songs, "blue");
    assert_eq!(titles(&found), vec!["All Blues", "Blue Monk"]);
}

#[test]
fn search_folds_an_uppercase_term() {
    let songs = library();
    let found = search_songs(&songs, "MONK");
    assert_eq!(titles(&found), vec!["Blue Monk"]);
}

#[test]
fn search_matches_the_composer() {
    let songs = library();
    let found = search_songs(&songs, "miles");
    assert_eq!(titles(&found), vec!["All Blues", "So What"]);
}

#[test]
fn search_folds_letters_outside_ascii() {
    let songs = library();
    assert_eq!(titles(&search_songs(&songs, "étude")), vec!["ÉTUDE"]);
    assert_eq!(titles(&search_songs(&songs, "ÅNG")), vec!["ÉTUDE"]);
}

#[test]
fn search_does_not_normalise_whitespace() {
    let songs = library();
    assert!(search_songs(&songs, "so  what").is_empty());
    assert!(search_songs(&songs, "sowhat").is_empty());
}

#[test]
fn search_for_the_empty_term_returns_everything_in_order() {
    let songs = library();
    let found = search_songs(&songs, "");
    assert_eq!(found.len(), songs.len());
    for (got, want) in found.iter().zip(songs.iter()) {
        assert!(std::ptr::eq(*got, want));
    }
}

#[test]
fn search_without_a_match_is_empty() {
    let songs = library();
    assert!(search_songs(&songs, "zzz").is_empty());
    let none: Vec<Song> = Vec::new();
    assert!(search_songs(&none, "").is_empty());
    assert!(search_songs(&none, "a").is_empty());
}

#[test]
fn search_returns_exactly_the_matching_songs() {
    let songs = library();
    let term = "al";
    let found = search_songs(&songs, term);
    for s in &songs {
        let matches = s.title.to_lowercase().contains(term)
            || s.composer.as_ref().map_or(false, |c| c.to_lowercase().contains(term));
        let returned = found.iter().any(|f| std::ptr::eq(*f, s));
        assert_eq!(matches, returned);
    }
}

#[test]
fn search_surfaces_duplicate_titles_independently() {
    let songs = library();
    let found = search_songs(&songs, "all blues");
    assert_eq!(found.len(), 2);
    assert_eq!(found[0].composer.as_deref(), Some("Miles Davis"));
    assert_eq!(found[1].composer.as_deref(), Some("Somebody Else"));
}

#[test]
fn filter_by_rhythm_is_a_folded_substring() {
    let songs = two_blues();
    let found = filter_songs(&songs, None, Some("swing"), None, None);
    assert_eq!(titles(&found), vec!["All Blues", "Blue Monk"]);
    let songs = library();
    let found = filter_songs(&songs, None, Some("SWING"), None, None);
    assert_eq!(titles(&found), vec!["Blue Monk", "So What"]);
}

#[test]
fn filter_by_key_is_exact_but_for_case() {
    let songs = two_blues();
    let found = filter_songs(&songs, Some("G"), None, None, None);
    assert_eq!(titles(&found), vec!["All Blues"]);
    let songs = library();
    let found = filter_songs(&songs, Some("g"), None, None, None);
    assert_eq!(found.len(), 2);
    assert!(filter_songs(&songs, Some("D"), None, None, None).is_empty());
    assert_eq!(titles(&filter_songs(&songs, Some("dM"), None, None, None)), vec!["So What"]);
}

#[test]
fn filter_by_time_is_exact() {
    let songs = library();
    let found = filter_songs(&songs, None, None, Some("4/4"), None);
    assert_eq!(titles(&found), vec!["Blue Monk", "So What", "All Blues"]);
    assert!(filter_songs(&songs, None, None, Some("4"), None).is_empty());
    assert!(filter_songs(&songs, None, None, Some("4/4 "), None).is_empty());
}

#[test]
fn filter_by_composer_is_a_folded_substring() {
    let songs = library();
    let found = filter_songs(&songs, None, None, None, Some("DAVIS"));
    assert_eq!(titles(&found), vec!["All Blues", "So What"]);
}

#[test]
fn filter_requires_every_criterion() {
    let songs = library();
    let found = filter_songs(&songs, Some("G"), Some("waltz"), Some("6/8"), Some("miles"));
    assert_eq!(found.len(), 1);
    assert_eq!(found[0].composer.as_deref(), Some("Miles Davis"));
    assert!(filter_songs(&songs, Some("G"), Some("waltz"), Some("4/4"), Some("miles")).is_empty());
}

#[test]
fn filter_never_matches_an_absent_field() {
    let songs = library();
    for found in [
        filter_songs(&songs, None, Some(""), None, None),
        filter_songs(&songs, None, None, None, Some("")),
    ] {
        assert_eq!(found.len(), 5);
        assert!(found.iter().all(|s| s.title != "Untitled"));
    }
    assert!(filter_songs(&songs, Some(""), None, None, None).is_empty());
    assert!(filter_songs(&songs, None, None, Some(""), None).is_empty());
}

#[test]
fn filter_without_criteria_returns_everything_in_order() {
    let songs = library();
    let found = filter_songs(&songs, None, None, None, None);
    assert_eq!(found.len(), songs.len());
    for (got, want) in found.iter().zip(songs.iter()) {
        assert!(std::ptr::eq(*got, want));
    }
}

#[test]
fn filter_with_fewer_criteria_keeps_every_song() {
    let songs = library();
    let strict = filter_songs(&songs, Some("g"), Some("a"), Some("4/4"), Some("e"));
    let looser = [
        filter_songs(&songs, None, Some("a"), Some("4/4"), Some("e")),
        filter_songs(&songs, Some("g"), None, Some("4/4"), Some("e")),
        filter_songs(&songs, Some("g"), Some("a"), None, Some("e")),
        filter_songs(&songs, Some("g"), Some("a"), Some("4/4"), None),
        filter_songs(&songs, None, None, None, None),
    ];
    assert_eq!(strict.len(), 1);
    for loose in &looser {
        for s in &strict {
            assert!(loose.iter().any(|l| std::ptr::eq(*l, *s)));
        }
    }
}

#[test]
fn lookup_finds_a_title_in_any_case() {
    let songs = two_blues();
    let found = find_by_title(&songs, "blue monk").unwrap();
    assert_eq!(found.composer.as_deref(), Some("Thelonious Monk"));
    let lower = find_by_title(&songs, "all blues").unwrap();
    let exact = find_by_title(&songs, "All Blues").unwrap();
    assert!(std::ptr::eq(lower, exact));
    assert!(std::ptr::eq(lower, &songs[0]));
}

#[test]
fn lookup_returns_the_first_of_equal_titles() {
    let songs = library();
    let found = find_by_title(&songs, "ALL BLUES").unwrap();
    assert!(std::ptr::eq(found, &songs[0]));
}

#[test]
fn lookup_wants_the_whole_title() {
    let songs = library();
    assert!(find_by_title(&songs, "all").is_none());
    assert!(find_by_title(&songs, "All Blues ").is_none());
    assert!(find_by_title(&songs, "").is_none());
    let none: Vec<Song> = Vec::new();
    assert!(find_by_title(&none, "All Blues").is_none());
}

#[test]
fn lookup_folds_letters_outside_ascii() {
    let songs = library();
    let lower = find_by_title(&songs, "étude").unwrap();
    let mixed = find_by_title(&songs, "Étude").unwrap();
    let exact = find_by_title(&songs, "ÉTUDE").unwrap();
    assert!(std::ptr::eq(lower, &songs[5]));
    assert!(std::ptr::eq(mixed, lower));
    assert!(std::ptr::eq(exact, lower));
    assert!(find_by_title(&songs, "etude").is_none());
    let one = vec![song("É", None, None, None, None)];
    assert!(std::ptr::eq(find_by_title(&one, "É").unwrap(), &one[0]));
    assert!(std::ptr::eq(find_by_title(&one, "é").unwrap(), &one[0]));
    assert!(find_by_title(&one, "e").is_none());
}

#[test]
fn filter_by_key_folds_letters_outside_ascii() {
    let songs = vec![
        song("a", None, Some("É"), None, None),
        song("b", None, Some("é"), None, None),
        song("c", None, Some("E"), None, None),
        song("d", None, None, None, None),
    ];
    assert_eq!(titles(&filter_songs(&songs, Some("é"), None, None, None)), vec!["a", "b"]);
    assert_eq!(titles(&filter_songs(&songs, Some("É"), None, None, None)), vec!["a", "b"]);
    assert_eq!(titles(&filter_songs(&songs, Some("e"), None, None, None)), vec!["c"]);
}

#[test]
fn position_of_text_is_the_first_equal_one() {
    let list: Vec<String> = ["all blues", "blue monk", "all blues", ""].iter().map(|t| t.to_string()).collect();
    assert_eq!(position_of_text(&list, "all blues"), Some(0));
    assert_eq!(position_of_text(&list, "blue monk"), Some(1));
    assert_eq!(position_of_text(&list, ""), Some(3));
    assert_eq!(position_of_text(&list, "All Blues"), None);
    assert_eq!(position_of_text(&list, "blue"), None);
    assert_eq!(position_of_text(&[], "blue"), None);
}

#[test]
fn sections_keep_their_order() {
    let ending = |c: &str| Segment { chords: Some(c.to_string()) };
    let section = Section {
        label: Some("A".to_string()),
        repeats: Some(2),
        main_segment: Some(ending("G7|G7|G7|G7")),
        endings: Some(vec![ending("C7|C7"), ending("G7|G7")]),
    };
    let mut s = song("All Blues", None, None, None, None);
    s.sections = Some(vec![section.clone(), Section { label: Some("B".to_string()), ..section }]);
    let songs = vec![s];
    let found = find_by_title(&songs, "all blues").unwrap();
    let sections = found.sections.as_ref().unwrap();
    assert_eq!(sections[0].label.as_deref(), Some("A"));
    assert_eq!(sections[1].label.as_deref(), Some("B"));
    let endings = sections[0].endings.as_ref().unwrap();
    assert_eq!(endings[0].chords.as_deref(), Some("C7|C7"));
    assert_eq!(endings[1].chords.as_deref(), Some("G7|G7"));
    assert_eq!(sections[0].repeats, Some(2));
}

#[test]
fn folding_makes_letters_small() {
    assert_eq!(fold_case("All Blues"), "all blues");
    assert_eq!(fold_case("ÉTUDE No. 1"), "étude no. 1");
    assert_eq!(fold_case(""), "");
    assert_eq!(fold_case("4/4"), "4/4");
}

#[test]
fn folded_term_is_looked_for_in_title_and_composer() {
    let composer = Some("miles davis".to_string());
    assert!(matches_folded_term("all blues", &None, "blue"));
    assert!(matches_folded_term("all blues", &composer, "davis"));
    assert!(matches_folded_term("all blues", &composer, ""));
    assert!(matches_folded_term("", &None, ""));
    assert!(!matches_folded_term("all blues", &composer, "monk"));
    assert!(!matches_folded_term("all blues", &None, "davis"));
    assert!(!matches_folded_term("all blues", &composer, "Blue"));
    assert!(!matches_folded_term("all blues", &composer, "all blues miles"));
}

fn filter_texts(key: Option<&str>, rhythm: Option<&str>, time: Option<&str>, composer: Option<&str>) -> FilterTexts {
    FilterTexts {
        key: key.map(|t| t.to_string()),
        rhythm: rhythm.map(|t| t.to_string()),
        time: time.map(|t| t.to_string()),
        composer: composer.map(|t| t.to_string()),
    }
}

#[test]
fn folded_criteria_must_all_hold() {
    let fields = filter_texts(Some("g"), Some("waltz"), Some("6/8"), Some("miles davis"));
    let nothing = filter_texts(None, None, None, None);
    assert!(satisfies_folded(&fields, &nothing));
    assert!(satisfies_folded(&nothing, &nothing));
    assert!(satisfies_folded(&fields, &filter_texts(Some("g"), Some("altz"), Some("6/8"), Some("davis"))));
    assert!(!satisfies_folded(&fields, &filter_texts(Some("G"), Some("altz"), Some("6/8"), Some("davis"))));
    assert!(!satisfies_folded(&fields, &filter_texts(Some(""), Some("altz"), Some("6/8"), Some("davis"))));
    assert!(!satisfies_folded(&fields, &filter_texts(Some("g"), Some("swing"), Some("6/8"), Some("davis"))));
    assert!(!satisfies_folded(&fields, &filter_texts(Some("g"), Some("altz"), Some("6/"), Some("davis"))));
    assert!(!satisfies_folded(&fields, &filter_texts(Some("g"), Some("altz"), Some("6/8"), Some("monk"))));
    assert!(!satisfies_folded(&nothing, &filter_texts(Some("g"), None, None, None)));
    assert!(!satisfies_folded(&nothing, &filter_texts(None, Some(""), None, None)));
    assert!(!satisfies_folded(&nothing, &filter_texts(None, None, Some("6/8"), None)));
    assert!(!satisfies_folded(&nothing, &filter_texts(None, None, None, Some(""))));
}

#[test]
fn two_blues_end_to_end() {
    let songs = two_blues();
    assert_eq!(titles(&search_songs(&songs, "blue")), vec!["All Blues", "Blue Monk"]);
    assert_eq!(
        titles(&filter_songs(&songs, None, Some("swing"), None, None)),
        vec!["All Blues", "Blue Monk"]
    );
    assert_eq!(titles(&filter_songs(&songs, Some("G"), None, None, None)), vec!["All Blues"]);
    let monk = find_by_title(&songs, "blue monk").unwrap();
    assert!(std::ptr::eq(monk, &songs[1]));
    assert_eq!(distinct_values(&songs, Field::Key), vec!["F", "G"]);
}

#[test]
fn a_longer_term_finds_no_more_songs() {
    let songs = library();
    for (short, long) in [("blue", "Blues"), ("M", "monk"), ("", "so what"), ("davis", "Miles Davis")] {
        let wide = search_songs(&songs, short);
        let narrow = search_songs(&songs, long);
        assert!(narrow.len() <= wide.len());
        for s in &narrow {
            assert!(wide.iter().any(|w| std::ptr::eq(*w, *s)));
        }
    }
    assert_eq!(titles(&search_songs(&songs, "blue")), vec!["All Blues", "Blue Monk", "All Blues"]);
    assert_eq!(titles(&search_songs(&songs, "blues")), vec!["All Blues", "All Blues"]);
}
