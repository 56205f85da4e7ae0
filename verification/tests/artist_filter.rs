//! Names of artists, and the filter by artist.

#![allow(deprecated)]

use discogs_xml_converter::filter::{normalize_artist, ArtistFilter, FilterError};
use wxyc_etl::text::normalize_artist_name;

#[test]
fn test_normalize_lowercase() {
    assert_eq!(normalize_artist("Autechre"), "autechre");
}

#[test]
fn test_normalize_strip_spaces() {
    assert_eq!(normalize_artist("  Autechre  "), "autechre");
}

#[test]
fn test_normalize_all_caps() {
    assert_eq!(normalize_artist("AUTECHRE"), "autechre");
}

#[test]
fn test_normalize_mixed_case_strip() {
    assert_eq!(normalize_artist("  Mixed Case  "), "mixed case");
}

#[test]
fn test_normalize_empty() {
    assert_eq!(normalize_artist(""), "");
}

#[test]
fn test_normalize_yanya() {
    assert_eq!(normalize_artist("Nilüfer Yanya"), "nilufer yanya");
}

#[test]
fn test_normalize_sigur_ros() {
    assert_eq!(normalize_artist("Sigur Rós"), "sigur ros");
}

#[test]
fn test_normalize_motorhead() {
    assert_eq!(normalize_artist("Motörhead"), "motorhead");
}

#[test]
fn test_normalize_husker_du() {
    assert_eq!(normalize_artist("Hüsker Dü"), "husker du");
}

#[test]
fn test_normalize_cafe_tacvba() {
    assert_eq!(normalize_artist("Café Tacvba"), "cafe tacvba");
}

#[test]
fn test_normalize_zoe() {
    assert_eq!(normalize_artist("Zoé"), "zoe");
}

#[test]
fn test_filter_from_file() {
    let list = "Autechre\nNilüfer Yanya\n  Father John Misty  \n\n";

    let filter = ArtistFilter::from_file(list);
    assert_eq!(filter.len(), 3);
    assert!(filter.matches_any(&vec!["Autechre"]));
    assert!(filter.matches_any(&vec!["Nilüfer Yanya"]));
    assert!(filter.matches_any(&vec!["father john misty"]));
    assert!(!filter.matches_any(&vec!["Unknown Artist"]));
}

#[test]
fn test_filter_matches_any() {
    let list = "Autechre\nNilüfer Yanya\n";

    let filter = ArtistFilter::from_file(list);

    // Match on any one of multiple names
    assert!(filter.matches_any(&vec!["Unknown", "Autechre"]));
    // No match
    assert!(!filter.matches_any(&vec!["Unknown", "Other"]));
}

#[test]
fn test_load_aliases_and_match() {
    // Library has "Sun Ra Arkestra" (an alias of canonical "Sun Ra")
    let list = "Sun Ra Arkestra\n";

    // artist_alias.csv: artist 123 has alias "Sun Ra Arkestra"
    let aliases =
        "artist_id,artist_name,alias_name\n\
         123,Sun Ra,Le Sony'r Ra\n\
         123,Sun Ra,Sonny Ra\n\
         123,Sun Ra,Sun Ra Arkestra\n\
         123,Sun Ra,Sun Ra And His Arkestra\n";

    let mut filter = ArtistFilter::from_file(list);
    let count = filter.load_aliases(aliases.as_bytes()).unwrap();
    assert_eq!(count, 4);
    assert!(filter.has_aliases());

    // "Sun Ra" doesn't match directly, but alias lookup finds "Sun Ra Arkestra"
    assert!(!filter.matches_any(&vec!["Sun Ra"]));
    assert!(filter.matches_any_with_ids(&[(123, "Sun Ra")]));

    // Unknown artist doesn't match
    assert!(!filter.matches_any_with_ids(&[(999, "Unknown")]));
}

/// Spaces around a name are left out.
#[test]
fn test_normalize_trim_optimization_paths() {
    assert_eq!(normalize_artist("Autechre"), "autechre");
    assert_eq!(normalize_artist("  Autechre  "), "autechre");
    assert_eq!(normalize_artist("  Björk"), "bjork");
    assert_eq!(normalize_artist("Zoé  "), "zoe");
}

#[test]
fn test_matches_any_with_ids_canonical_name_still_works() {
    let list = "Autechre\n";

    let filter = ArtistFilter::from_file(list);

    // Even without aliases, canonical name matching works
    assert!(filter.matches_any_with_ids(&[(300, "Autechre")]));
    assert!(!filter.matches_any_with_ids(&[(300, "Unknown")]));
}

#[test]
fn parity_diacritics() {
    let cases = [
        "Nilüfer Yanya",
        "Hermanos Gutiérrez",
        "Csillagrablók",
        "Motörhead",
        "Hüsker Dü",
        "Zoé",
    ];
    for name in cases {
        assert_eq!(
            normalize_artist(name),
            normalize_artist_name(name),
            "Mismatch for: {name}"
        );
    }
}

#[test]
fn parity_combining_characters() {
    let cases = ["Caf\u{0301}", "nu\u{0303}ez", "Bjo\u{0308}rk"];
    for name in cases {
        assert_eq!(
            normalize_artist(name),
            normalize_artist_name(name),
            "Mismatch for: {name}"
        );
    }
}

#[test]
fn parity_whitespace() {
    let cases = ["  Autechre  ", "  Nilüfer Yanya", "Zoé  ", "  Mixed Case  "];
    for name in cases {
        assert_eq!(
            normalize_artist(name),
            normalize_artist_name(name),
            "Mismatch for: {name}"
        );
    }
}

#[test]
fn parity_case() {
    let cases = ["AUTECHRE", "autechre", "Autechre", "aUtEcHrE"];
    for name in cases {
        assert_eq!(
            normalize_artist(name),
            normalize_artist_name(name),
            "Mismatch for: {name}"
        );
    }
}

#[test]
fn parity_empty() {
    assert_eq!(normalize_artist(""), normalize_artist_name(""));
}

#[test]
fn parity_wxyc_artists() {
    let cases = [
        "Autechre",
        "Prince Jammy",
        "Juana Molina",
        "Stereolab",
        "Cat Power",
        "Jessica Pratt",
        "Chuquimamani-Condori",
        "Duke Ellington & John Coltrane",
        "Sessa",
        "Anne Gillis",
    ];
    for name in cases {
        assert_eq!(
            normalize_artist(name),
            normalize_artist_name(name),
            "Mismatch for: {name}"
        );
    }
}

#[test]
fn name_variations_match_through_the_id() {
    let mut filter = ArtistFilter::from_file("The Field\n");
    assert!(!filter.has_aliases());
    assert_eq!(filter.load_name_variations(b"artist_id,name\n8,The Field\n8,  \n").unwrap(), 1);
    assert!(filter.has_aliases());
    assert!(filter.matches_any_with_ids(&[(8, "Field, The")]));
    assert!(!filter.matches_any_with_ids(&[(9, "Field, The")]));
}

#[test]
fn more_aliases_keep_the_matches() {
    let mut filter = ArtistFilter::from_file("Gescom\n");
    filter.load_aliases(b"artist_id,artist_name,alias_name\n1,Autechre,Gescom\n").unwrap();
    assert!(filter.matches_any_with_ids(&[(1, "Autechre")]));
    filter.load_aliases(b"artist_id,artist_name,alias_name\n1,Autechre,Other\n2,Bola,Jello\n").unwrap();
    assert!(filter.matches_any_with_ids(&[(1, "Autechre")]));
    assert!(!filter.matches_any_with_ids(&[(2, "Bola")]));
}

#[test]
fn an_id_that_is_no_number_is_zero() {
    let mut filter = ArtistFilter::from_file("Gescom\n");
    assert_eq!(filter.load_aliases(b"artist_id,artist_name,alias_name\nx,Autechre,Gescom\n").unwrap(), 1);
    assert!(filter.matches_any_with_ids(&[(0, "Autechre")]));
}

#[test]
fn quoted_aliases_are_read() {
    let mut filter = ArtistFilter::from_file("Field, The\n");
    filter.load_aliases(b"artist_id,artist_name,alias_name\n8,The Field,\"Field, The\"\n").unwrap();
    assert!(filter.matches_any_with_ids(&[(8, "The Field")]));
}

#[test]
fn a_record_of_another_length_is_an_error() {
    let mut filter = ArtistFilter::from_file("Gescom\n");
    let error = filter.load_aliases(b"artist_id,artist_name,alias_name\n1,Autechre\n").unwrap_err();
    assert!(matches!(error, FilterError::Csv(_)));
}

#[test]
fn a_file_without_the_column_is_an_error() {
    let mut filter = ArtistFilter::from_file("Gescom\n");
    let error = filter.load_aliases(b"artist_id,artist_name\n1,Autechre\n").unwrap_err();
    assert!(matches!(error, FilterError::MissingColumn));
    let error = filter.load_name_variations(b"artist_id\n1\n").unwrap_err();
    assert!(matches!(error, FilterError::MissingColumn));
}

#[test]
fn an_empty_list_has_no_artists() {
    let filter = ArtistFilter::from_file("\n  \n\r\n");
    assert!(filter.is_empty());
    assert_eq!(filter.len(), 0);
    assert!(!filter.matches_any(&vec![]));
    assert!(!filter.matches_any(&vec!["Autechre"]));
}
