//! Lists of release ids to keep.

use std::collections::HashSet;

use discogs_xml_converter::keep_release_ids::{load_keep_ids, parse_keep_release_ids};

#[test]
fn missing_file_returns_empty_set_no_error() {
    let ids = parse_keep_release_ids(None).unwrap();

    assert!(ids.is_empty());
}

#[test]
fn parses_one_id_per_line() {
    let list = "123\n456\n789\n";

    let ids = parse_keep_release_ids(Some(list)).unwrap();

    assert_eq!(ids, HashSet::from([123, 456, 789]));
}

#[test]
fn ignores_blank_lines() {
    let list = "123\n\n\n456\n";

    let ids = parse_keep_release_ids(Some(list)).unwrap();

    assert_eq!(ids, HashSet::from([123, 456]));
}

#[test]
fn ignores_comment_lines() {
    let list = "# WXYC library-pinned overrides\n123\n# another comment\n456\n";

    let ids = parse_keep_release_ids(Some(list)).unwrap();

    assert_eq!(ids, HashSet::from([123, 456]));
}

#[test]
fn trims_surrounding_whitespace() {
    let list = "  123  \n\t456\t\n";

    let ids = parse_keep_release_ids(Some(list)).unwrap();

    assert_eq!(ids, HashSet::from([123, 456]));
}

#[test]
fn empty_file_returns_empty_set() {
    let list = "";

    let ids = parse_keep_release_ids(Some(list)).unwrap();

    assert!(ids.is_empty());
}

#[test]
fn malformed_line_is_a_hard_error() {
    let list = "123\nnot-a-number\n456\n";

    let err = parse_keep_release_ids(Some(list)).unwrap_err();

    assert!(
        err.line.contains("not-a-number"),
        "error should surface the offending line, got: {}",
        err.line
    );
    assert_eq!(err.line_no, 2);
}

#[test]
fn negative_number_is_a_hard_error() {
    // release_id is unsigned; a negative value is a data-contract
    // violation, not a valid id to silently coerce or drop.
    let list = "-1\n";

    assert!(parse_keep_release_ids(Some(list)).is_err());
}

#[test]
fn the_first_malformed_line_is_reported() {
    let err = parse_keep_release_ids(Some("1\n# two\n\n  x y \nz\n")).unwrap_err();
    assert_eq!(err.line_no, 4);
    assert_eq!(err.line, "  x y ");
}

#[test]
fn the_largest_id_and_one_more() {
    let ids = parse_keep_release_ids(Some("18446744073709551615\n+7\r\n7")).unwrap();
    assert_eq!(ids, HashSet::from([u64::MAX, 7]));
    assert!(parse_keep_release_ids(Some("18446744073709551616\n")).is_err());
}

#[test]
fn no_list_keeps_nothing() {
    assert!(load_keep_ids(None).unwrap().is_empty());
    assert!(load_keep_ids(Some(None)).unwrap().is_empty());
    assert_eq!(load_keep_ids(Some(Some("5\n"))).unwrap(), HashSet::from([5]));
    assert!(load_keep_ids(Some(Some("five\n"))).is_err());
}
