//! Titles, and the filter by artist and title.

use discogs_xml_converter::filter::normalize_artist;
use discogs_xml_converter::library_pairs::{normalize_title, LibraryPairs};

fn pairs_from(rows: &[(&str, &str)]) -> LibraryPairs {
    let rows: Vec<(String, String)> =
        rows.iter().map(|(a, t)| (a.to_string(), t.to_string())).collect();
    LibraryPairs::from_db(&rows)
}

/// Checks that a title has exactly the given artists.
fn check_artists(pairs: &LibraryPairs, title: &str, artists: &[&str]) {
    let set = pairs.artists_for_title(title).unwrap();
    assert_eq!(set.len(), artists.len());
    for artist in artists {
        assert!(set.contains(artist), "{artist} should be there for {title}");
    }
}

#[test]
fn normalize_title_lowercase() {
    assert_eq!(normalize_title("Confield"), "confield");
}

#[test]
fn normalize_title_trims_spaces() {
    assert_eq!(normalize_title("  Confield  "), "confield");
}

#[test]
fn normalize_title_all_caps() {
    assert_eq!(normalize_title("CONFIELD"), "confield");
}

#[test]
fn normalize_title_empty() {
    assert_eq!(normalize_title(""), "");
}

#[test]
fn normalize_title_diacritics() {
    assert_eq!(
        normalize_title("Pequeña Vertigem de Amor"),
        "pequena vertigem de amor"
    );
    assert_eq!(
        normalize_title("Père Ubu's Métal Box"),
        "pere ubu's metal box"
    );
}

#[test]
fn normalize_title_parity_with_artist() {
    let cases = [
        "PAINLESS",
        "Métal Box",
        "  On Your Own Love Again  ",
        "Pequeña Vertigem de Amor",
    ];
    for s in cases {
        assert_eq!(normalize_title(s), normalize_artist(s), "mismatch for {s}");
    }
}

#[test]
fn ascii_texts_have_one_form_as_title_and_as_artist() {
    for (s, form) in [
        ("  A Tribe Called Quest ", "a tribe called quest"),
        ("99.9F~ [Live]", "99.9f~ [live]"),
        ("tab\there", "tab\there"),
        ("   ", ""),
    ] {
        assert_eq!(normalize_title(s), form);
        assert_eq!(normalize_artist(s), form);
    }
    // Spaces side by side are one in a title only.
    assert_eq!(normalize_title("Molchat  Doma"), "molchat doma");
    assert_eq!(normalize_artist("Molchat  Doma"), "molchat  doma");
}

#[test]
fn from_db_returns_inverted_index_keyed_by_title() {
    let pairs = pairs_from(&[
        ("Autechre", "Confield"),
        ("Autechre", "Amber"),
        ("Stereolab", "Aluminum Tunes"),
    ]);
    assert_eq!(pairs.len(), 3);
    check_artists(&pairs, "confield", &["autechre"]);
    check_artists(&pairs, "aluminum tunes", &["stereolab"]);
}

#[test]
fn from_db_collapses_duplicate_rows() {
    let pairs = pairs_from(&[
        ("Stereolab", "Aluminum Tunes"),
        ("Stereolab", "Aluminum Tunes"),
        ("Stereolab", "Aluminum Tunes"),
    ]);
    assert_eq!(pairs.len(), 1);
    assert_eq!(pairs.pair_count(), 1);
}

#[test]
fn from_db_groups_multiple_artists_under_same_title() {
    let pairs = pairs_from(&[
        ("Various Artists", "Compilation"),
        ("Stereolab", "Compilation"),
    ]);
    check_artists(&pairs, "compilation", &["various artists", "stereolab"]);
}

#[test]
fn from_db_normalizes_diacritics_on_load() {
    let pairs = pairs_from(&[("Nilüfer Yanya", "PAINLESS")]);
    check_artists(&pairs, "painless", &["nilufer yanya"]);
}

#[test]
fn from_db_skips_empty_artist_or_title_rows() {
    let pairs = pairs_from(&[
        ("", "Confield"),      // empty artist
        ("Autechre", ""),      // empty title
        ("   ", "  "),         // whitespace-only normalize to empty
        ("Autechre", "Amber"), // valid
    ]);
    assert_eq!(pairs.len(), 1);
    check_artists(&pairs, "amber", &["autechre"]);
}

#[test]
fn matches_exact_pair() {
    let pairs = pairs_from(&[("Autechre", "Confield")]);
    assert!(pairs.matches("Confield", &vec!["Autechre"]));
}

#[test]
fn matches_normalizes_diacritics_on_release_side() {
    // Library has the diacritic-stripped form; the Discogs release
    // arrives with diacritics. Both sides must match.
    let pairs = pairs_from(&[("Nilufer Yanya", "PAINLESS")]);
    assert!(pairs.matches("PAINLESS", &vec!["Nilüfer Yanya"]));
}

#[test]
fn matches_normalizes_diacritics_on_library_side() {
    // Library entry has diacritics, Discogs side doesn't.
    let pairs = pairs_from(&[("Nilüfer Yanya", "PAINLESS")]);
    assert!(pairs.matches("PAINLESS", &vec!["Nilufer Yanya"]));
}

#[test]
fn matches_rejects_when_title_not_in_library() {
    let pairs = pairs_from(&[("Autechre", "Confield")]);
    assert!(!pairs.matches("Some Other Album", &vec!["Autechre"]));
}

#[test]
fn matches_rejects_when_title_matches_but_artist_doesnt() {
    let pairs = pairs_from(&[("Autechre", "Confield")]);
    assert!(!pairs.matches("Confield", &vec!["Some Other Band"]));
}

#[test]
fn matches_kept_when_any_credited_artist_matches() {
    let pairs = pairs_from(&[("Field, The", "From Here We Go Sublime")]);
    assert!(pairs.matches("From Here We Go Sublime", &vec!["Some Producer", "Field, The"]));
}

#[test]
fn matches_empty_title_excluded() {
    let pairs = pairs_from(&[("Autechre", "Confield")]);
    assert!(!pairs.matches("", &vec!["Autechre"]));
}

#[test]
fn the_order_of_rows_and_repeated_rows_do_not_matter() {
    let a = pairs_from(&[("Autechre", "Confield"), ("Stereolab", "Compilation"), ("autechre", "CONFIELD")]);
    let b = pairs_from(&[("Stereolab", "Compilation"), ("Autechre", "Confield")]);
    assert_eq!(a.len(), 2);
    assert_eq!(a.pair_count(), 2);
    assert_eq!(b.pair_count(), 2);
    for pairs in [&a, &b] {
        assert!(pairs.matches("Confield", &vec!["Autechre"]));
        assert!(pairs.matches("compilation", &vec!["Stereolab"]));
        assert!(!pairs.matches("compilation", &vec!["Autechre"]));
    }
}

#[test]
fn pairs_are_counted_apart_from_titles() {
    let pairs = pairs_from(&[("A", "Same"), ("B", "Same"), ("A", "Other")]);
    assert_eq!(pairs.len(), 2);
    assert_eq!(pairs.pair_count(), 3);
    assert!(!pairs.is_empty());
    assert!(pairs.artists_for_title("absent").is_none());
    assert!(pairs_from(&[("", "")]).is_empty());
}

#[test]
fn an_empty_artist_never_matches() {
    let pairs = pairs_from(&[("Autechre", "Confield")]);
    assert!(!pairs.matches("Confield", &vec!["", "  "]));
    assert!(!pairs.matches("Confield", &vec![]));
}
