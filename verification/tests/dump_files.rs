//! Kinds of dumps, texts and the events of a document.

use discogs_xml_converter::dump::{
    find_root_element, is_dump_file, is_gzip_file, root_of_event, scan_directory, DumpKind,
};
use discogs_xml_converter::element::Element;
use discogs_xml_converter::error::ParseError;
use discogs_xml_converter::label_parser::LabelParser;
use discogs_xml_converter::record::{Progress, RecordReader};
use discogs_xml_converter::text;
use discogs_xml_converter::xml::{
    resolve_general_ref, tag_element_of, unescape_attr, unescape_text, EventKind, XmlEvent,
};

#[test]
fn roots_tell_the_kind_of_a_dump() {
    assert_eq!(find_root_element(b"<?xml version=\"1.0\"?>\n<!-- c -->\n<artists><artist/>").unwrap(), "artists");
    assert_eq!(find_root_element(b"<labels x=\"1\">").unwrap(), "labels");
    assert_eq!(find_root_element(b"").unwrap(), "unknown");
    assert_eq!(find_root_element(b"<a\xff>").unwrap(), "a\u{fffd}");
    assert!(matches!(find_root_element(b"</a>"), Err(ParseError::Malformed(_))));
    assert_eq!(DumpKind::from_root("artists"), DumpKind::Artists);
    assert_eq!(DumpKind::from_root("labels"), DumpKind::Labels);
    assert_eq!(DumpKind::from_root("masters"), DumpKind::Masters);
    assert_eq!(DumpKind::from_root("releases"), DumpKind::Releases);
    assert_eq!(DumpKind::from_root("Releases"), DumpKind::Unknown);
    assert_eq!(DumpKind::for_single_file("unknown"), DumpKind::Releases);
    assert_eq!(DumpKind::for_single_file("masters"), DumpKind::Masters);
}

#[test]
fn a_root_comes_with_its_opening_tag() {
    let event = |kind, content: &[u8]| Ok(XmlEvent { kind, content: content.to_vec() });
    assert!(root_of_event(event(EventKind::Other, b"")).is_none());
    assert!(root_of_event(event(EventKind::EmptyTag(vec![]), b"labels")).is_none());
    assert_eq!(root_of_event(event(EventKind::OpenTag(vec![]), b"labels a=\"1\"")).unwrap().unwrap(), "labels");
    assert_eq!(root_of_event(event(EventKind::EndOfInput, b"")).unwrap().unwrap(), "unknown");
    assert!(root_of_event(Err(("m".to_string(), 3))).unwrap().is_err());
}

#[test]
fn file_names_tell_how_a_dump_is_stored() {
    assert!(is_dump_file("discogs_20240101_releases.xml.gz"));
    assert!(is_dump_file("labels.xml"));
    assert!(!is_dump_file("labels.XML"));
    assert!(!is_dump_file("labels.gz"));
    assert!(!is_dump_file("xml"));
    assert!(is_gzip_file("a.xml.gz"));
    assert!(is_gzip_file("a.GZ"));
    assert!(!is_gzip_file(".gz"));
    assert!(!is_gzip_file("a.gzip"));
    assert!(!is_gzip_file("gz"));
}

#[test]
fn the_last_file_of_a_kind_counts() {
    let roots: Vec<String> = ["releases", "artists", "other", "releases"].iter().map(|s| s.to_string()).collect();
    let files = scan_directory(&roots);
    assert_eq!(files.releases, Some(3));
    assert_eq!(files.artists, Some(1));
    assert_eq!(files.labels, None);
    assert_eq!(files.masters, None);
}

#[test]
fn elements_are_known_by_name() {
    assert_eq!(Element::from_name(b"extraartists"), Element::ExtraArtists);
    assert_eq!(Element::from_name(b"title"), Element::Title);
    assert_eq!(Element::from_name(b"Title"), Element::Unknown);
    assert_eq!(Element::from_name(b""), Element::Unknown);
    assert_eq!(tag_element_of(b"label id=\"3\""), Element::Label);
}

#[test]
fn texts_are_unescaped() {
    assert_eq!(unescape_text(b"a &amp; b").unwrap(), "a & b");
    assert_eq!(unescape_text("Zo\u{e9}".as_bytes()).unwrap(), "Zo\u{e9}");
    assert!(matches!(unescape_text(b"\xc3"), Err(ParseError::InvalidUtf8(_))));
    assert!(matches!(unescape_text(b"&x;"), Err(ParseError::Escape(_))));
    assert_eq!(resolve_general_ref(b"amp").unwrap(), "&");
    assert_eq!(resolve_general_ref(b"#x41").unwrap(), "A");
    assert!(resolve_general_ref(b"nbsp").is_err());
    assert_eq!(unescape_attr(b"7&quot;\n").unwrap(), "7\"\n");
}

#[test]
fn a_record_is_there_when_its_tag_closes() {
    let event = |kind, content: &[u8]| Ok(XmlEvent { kind, content: content.to_vec() });
    let mut reader: RecordReader<LabelParser> = RecordReader::new();
    assert!(matches!(reader.feed(event(EventKind::OpenTag(vec![]), b"labels")).unwrap(), Progress::Reading));
    assert!(matches!(reader.feed(event(EventKind::OpenTag(vec![]), b"label")).unwrap(), Progress::Reading));
    assert!(matches!(reader.feed(event(EventKind::OpenTag(vec![]), b"id")).unwrap(), Progress::Reading));
    assert!(matches!(reader.feed(event(EventKind::Characters, b"12")).unwrap(), Progress::Reading));
    assert!(matches!(reader.feed(event(EventKind::CloseTag, b"id")).unwrap(), Progress::Reading));
    match reader.feed(event(EventKind::CloseTag, b"label")).unwrap() {
        Progress::Complete(label) => assert_eq!(label.id, 12),
        _ => panic!("a label is complete"),
    }
    assert!(matches!(reader.feed(event(EventKind::EndOfInput, b"")).unwrap(), Progress::End));
    let error = reader.feed(Err(("m".to_string(), 9)));
    assert!(matches!(error, Err(ParseError::MalformedAt(_, 9))));
}

#[test]
fn white_space_is_trimmed() {
    assert_eq!(text::trim(" \t\u{a0}\u{3000}a b\u{2028}\n"), "a b");
    assert_eq!(text::trim("   "), "");
    assert_eq!(text::trim("\u{200b}a"), "\u{200b}a");
}

#[test]
fn numbers_are_read_within_their_range() {
    assert_eq!(text::parse_unsigned("00042", 42), Some(42));
    assert_eq!(text::parse_unsigned("+42", 41), None);
    assert_eq!(text::parse_unsigned("+", 42), None);
    assert_eq!(text::parse_unsigned("", 42), None);
    assert_eq!(text::parse_unsigned(" 1", 42), None);
    assert_eq!(text::parse_unsigned("1_0", 42), None);
    for s in ["0", "7", "18446744073709551615", "+18446744073709551615", "18446744073709551616", "-0", "++1", "１"] {
        assert_eq!(text::parse_unsigned(s, u64::MAX), s.parse::<u64>().ok(), "{s}");
    }
}

#[test]
fn lines_end_at_line_feeds() {
    assert_eq!(text::lines("a\r\nb\n\nc"), vec!["a", "b", "", "c"]);
    assert_eq!(text::lines("a\n"), vec!["a"]);
    assert!(text::lines("").is_empty());
    for s in ["\n", "\r\n", "a\rb\n", "a\r", "\n\n", "a\r\r\n"] {
        let expected: Vec<&str> = s.lines().collect();
        assert_eq!(text::lines(s), expected);
    }
}
