//! Parsing of artist, label and master dumps.

use discogs_xml_converter::artist_model::Artist;
use discogs_xml_converter::artist_parser::parse_artists;
use discogs_xml_converter::error::{ParseError, Record};
use discogs_xml_converter::label_model::Label;
use discogs_xml_converter::label_parser::parse_labels;
use discogs_xml_converter::master_model::Master;
use discogs_xml_converter::master_parser::parse_masters;

const ARTISTS: &str = r#"<?xml version="1.0" encoding="UTF-8"?>
<artists>
  <artist>
    <id>123</id>
    <name>P. Diddy</name>
    <realname>Sean John Combs</realname>
    <profile>American rapper &amp; producer.</profile>
    <urls>
      <url>https://en.wikipedia.org/wiki/Sean_Combs</url>
      <url>https://www.diddy.com/</url>
    </urls>
    <namevariations>
      <name>P Diddy</name>
      <name>Puff Daddy</name>
    </namevariations>
    <aliases>
      <name id="124">Sean Combs</name>
      <name id="125">Diddy</name>
    </aliases>
    <members>
      <id>1001</id>
      <name id="1001">Member One</name>
    </members>
  </artist>
  <artist>
    <id>200</id>
    <name>Björk</name>
    <namevariations>
      <name>Bjork</name>
      <name>Björk Guðmundsdóttir</name>
    </namevariations>
  </artist>
  <artist>
    <id>300</id>
    <name>Radiohead</name>
    <members>
      <name id="301">Thom Yorke</name>
      <name id="302">Jonny Greenwood</name>
      <name id="303">Ed O'Brien</name>
      <name id="304">Colin Greenwood</name>
      <name id="305">Philip Selway</name>
    </members>
  </artist>
  <artist>
    <id>400</id>
    <name>Autechre</name>
    <aliases>
      <name id="401">Gescom</name>
    </aliases>
  </artist>
  <artist>
    <id>500</id>
    <name>Artist Without Extras</name>
  </artist>
</artists>
"#;

const LABELS: &str = r#"<?xml version="1.0" encoding="UTF-8"?>
<labels>
  <label>
    <id>1</id>
    <name>EMI</name>
    <sublabels>
      <label id="2">Parlophone</label>
      <label id="3">Capitol Records</label>
    </sublabels>
  </label>
  <label>
    <id>2</id>
    <name>Parlophone</name>
    <parentLabel id="1">EMI</parentLabel>
  </label>
  <label>
    <id>3</id>
    <name>Capitol Records</name>
    <parentLabel id="1">EMI</parentLabel>
  </label>
  <label>
    <id>4</id>
    <name>Sub Pop</name>
  </label>
  <label>
    <id>5</id>
    <name>Drag City</name>
  </label>
  <label>
    <id>6</id>
    <name>Matador Records</name>
    <parentLabel id="7">Beggars Group</parentLabel>
  </label>
  <label>
    <id>7</id>
    <name>Beggars Group</name>
  </label>
  <label>
    <id>8</id>
    <name>4AD</name>
    <parentLabel id="7">Beggars Group</parentLabel>
  </label>
</labels>
"#;

const MASTERS: &str = r#"<?xml version="1.0" encoding="UTF-8"?>
<masters>
  <master id="100">
    <main_release>1001</main_release>
    <artists>
      <artist><id>3000</id><name>Stereolab</name><anv></anv><join></join></artist>
    </artists>
    <genres><genre>Electronic</genre></genres>
    <styles><style>Post Rock</style></styles>
    <year>1998</year>
    <title>Aluminum Tunes</title>
    <videos>
      <video src="https://www.youtube.com/watch?v=1"><title>Pop Quiz</title></video>
    </videos>
  </master>
  <master id="200">
    <main_release>2001</main_release>
    <artists>
      <artist><id>4000</id><name>Cat Power</name></artist>
    </artists>
    <year>1998</year>
    <title>Moon Pix</title>
  </master>
  <master id="300">
    <main_release>3001</main_release>
    <artists>
      <artist><id>5000</id><name>Duke Ellington</name><join>&amp;</join></artist>
      <artist><id>5001</id><name>John Coltrane</name></artist>
    </artists>
    <year>1963</year>
    <title>Duke Ellington &amp; John Coltrane</title>
  </master>
  <master id="400">
    <main_release>4001</main_release>
    <artists>
      <artist><id>6000</id><name>Jessica Pratt</name></artist>
    </artists>
    <year>2015</year>
    <title>On Your Own Love Again</title>
  </master>
  <master id="500">
    <artists>
      <artist><id>7000</id><name>Sessa</name></artist>
    </artists>
    <title>Pequena Vertigem de Amor</title>
  </master>
</masters>
"#;

fn artists_of(document: &str) -> Vec<Artist> {
    let mut artists = Vec::new();
    parse_artists(document.as_bytes(), &mut artists).unwrap();
    artists
}

fn labels_of(document: &str) -> Vec<Label> {
    let mut labels = Vec::new();
    parse_labels(document.as_bytes(), &mut labels).unwrap();
    labels
}

fn masters_of(document: &str) -> Vec<Master> {
    let mut masters = Vec::new();
    parse_masters(document.as_bytes(), &mut masters).unwrap();
    masters
}

#[test]
fn test_parse_artists() {
    let mut artists = Vec::new();
    let count = parse_artists(ARTISTS.as_bytes(), &mut artists).unwrap();

    assert_eq!(count, 5);
    assert_eq!(artists.len(), 5);
}

#[test]
fn test_artist_with_aliases_and_namevariations() {
    let artists = artists_of(ARTISTS);

    let pdiddy = &artists[0];
    assert_eq!(pdiddy.id, 123);
    assert_eq!(pdiddy.name, "P. Diddy");
    assert_eq!(pdiddy.name_variations, vec!["P Diddy", "Puff Daddy"]);
    assert_eq!(pdiddy.aliases, vec!["Sean Combs", "Diddy"]);
    assert_eq!(pdiddy.members.len(), 1);
    assert_eq!(pdiddy.members[0].id, 1001);
    assert_eq!(pdiddy.members[0].name, "Member One");
}

#[test]
fn test_artist_with_unicode() {
    let artists = artists_of(ARTISTS);

    let bjork = &artists[1];
    assert_eq!(bjork.id, 200);
    assert_eq!(bjork.name, "Björk");
    assert_eq!(bjork.name_variations, vec!["Bjork", "Björk Guðmundsdóttir"]);
    assert!(bjork.aliases.is_empty());
}

#[test]
fn test_artist_with_members() {
    let artists = artists_of(ARTISTS);

    let radiohead = &artists[2];
    assert_eq!(radiohead.id, 300);
    assert_eq!(radiohead.name, "Radiohead");
    assert_eq!(radiohead.members.len(), 5);
    assert_eq!(radiohead.members[0].id, 301);
    assert_eq!(radiohead.members[0].name, "Thom Yorke");
}

#[test]
fn test_artist_without_extras() {
    let artists = artists_of(ARTISTS);

    let minimal = &artists[4];
    assert_eq!(minimal.id, 500);
    assert_eq!(minimal.name, "Artist Without Extras");
    assert!(minimal.aliases.is_empty());
    assert!(minimal.name_variations.is_empty());
    assert!(minimal.members.is_empty());
}

#[test]
fn artist_profile_and_urls() {
    let artists = artists_of(ARTISTS);
    assert_eq!(artists[0].profile, "American rapper & producer.");
    assert_eq!(
        artists[0].urls,
        vec!["https://en.wikipedia.org/wiki/Sean_Combs", "https://www.diddy.com/"]
    );
    assert_eq!(artists[4].profile, "");
    assert!(artists[4].urls.is_empty());
}

#[test]
fn test_parse_labels() {
    let mut labels = Vec::new();
    let count = parse_labels(LABELS.as_bytes(), &mut labels).unwrap();

    assert_eq!(count, 8);
    assert_eq!(labels.len(), 8);
}

#[test]
fn test_label_without_parent() {
    let labels = labels_of(LABELS);

    let emi = &labels[0];
    assert_eq!(emi.id, 1);
    assert_eq!(emi.name, "EMI");
    assert_eq!(emi.parent_id, None);
    assert_eq!(emi.parent_name, "");
}

#[test]
fn test_label_with_parent() {
    let labels = labels_of(LABELS);

    let parlophone = &labels[1];
    assert_eq!(parlophone.id, 2);
    assert_eq!(parlophone.name, "Parlophone");
    assert_eq!(parlophone.parent_id, Some(1));
    assert_eq!(parlophone.parent_name, "EMI");

    let capitol = &labels[2];
    assert_eq!(capitol.id, 3);
    assert_eq!(capitol.name, "Capitol Records");
    assert_eq!(capitol.parent_id, Some(1));
    assert_eq!(capitol.parent_name, "EMI");
}

#[test]
fn test_label_standalone() {
    let labels = labels_of(LABELS);

    let sub_pop = &labels[3];
    assert_eq!(sub_pop.id, 4);
    assert_eq!(sub_pop.name, "Sub Pop");
    assert_eq!(sub_pop.parent_id, None);

    let drag_city = &labels[4];
    assert_eq!(drag_city.id, 5);
    assert_eq!(drag_city.name, "Drag City");
    assert_eq!(drag_city.parent_id, None);
}

#[test]
fn test_labels_with_parent_chain() {
    let labels = labels_of(LABELS);

    // Matador Records -> Beggars Group
    let matador = &labels[5];
    assert_eq!(matador.id, 6);
    assert_eq!(matador.name, "Matador Records");
    assert_eq!(matador.parent_id, Some(7));
    assert_eq!(matador.parent_name, "Beggars Group");

    // 4AD -> Beggars Group
    let four_ad = &labels[7];
    assert_eq!(four_ad.id, 8);
    assert_eq!(four_ad.name, "4AD");
    assert_eq!(four_ad.parent_id, Some(7));
    assert_eq!(four_ad.parent_name, "Beggars Group");
}

#[test]
fn test_parse_masters() {
    let mut masters = Vec::new();
    let count = parse_masters(MASTERS.as_bytes(), &mut masters).unwrap();

    assert_eq!(count, 5);
    assert_eq!(masters.len(), 5);
}

#[test]
fn test_master_single_artist() {
    let masters = masters_of(MASTERS);

    let stereolab = &masters[0];
    assert_eq!(stereolab.id, 100);
    assert_eq!(stereolab.title, "Aluminum Tunes");
    assert_eq!(stereolab.year, Some(1998));
    assert_eq!(stereolab.main_release_id, Some(1001));
    assert_eq!(stereolab.artists.len(), 1);
    assert_eq!(stereolab.artists[0].id, 3000);
    assert_eq!(stereolab.artists[0].name, "Stereolab");
}

#[test]
fn test_master_multiple_artists() {
    let masters = masters_of(MASTERS);

    let duke = &masters[2];
    assert_eq!(duke.id, 300);
    assert_eq!(duke.artists.len(), 2);
    assert_eq!(duke.artists[0].name, "Duke Ellington");
    assert_eq!(duke.artists[1].name, "John Coltrane");
    assert_eq!(duke.title, "Duke Ellington & John Coltrane");
}

#[test]
fn test_master_without_year() {
    let masters = masters_of(MASTERS);

    let sessa = &masters[4];
    assert_eq!(sessa.id, 500);
    assert_eq!(sessa.year, None);
    assert_eq!(sessa.title, "Pequena Vertigem de Amor");
}

#[test]
fn test_master_without_main_release() {
    let masters = masters_of(MASTERS);

    let sessa = &masters[4];
    assert_eq!(sessa.main_release_id, None);
}

#[test]
fn test_master_without_genres_styles() {
    let masters = masters_of(MASTERS);

    // Master 400 has no genres and no styles.
    let jessica = &masters[3];
    assert_eq!(jessica.id, 400);
    assert_eq!(jessica.title, "On Your Own Love Again");
    assert_eq!(jessica.artists[0].name, "Jessica Pratt");
}

#[test]
fn records_are_put_behind_those_that_are_there() {
    let mut labels = labels_of(LABELS);
    let count = parse_labels(b"<labels><label><id>9</id><name>Warp</name></label></labels>", &mut labels).unwrap();
    assert_eq!(count, 1);
    assert_eq!(labels.len(), 9);
    assert_eq!(labels[8].name, "Warp");
}

#[test]
fn a_malformed_dump_gives_the_position_and_keeps_the_records_before() {
    let document = b"<labels><label><id>9</id><name>Warp</name></label></labelled>";
    let mut labels = Vec::new();
    let error = parse_labels(document, &mut labels).unwrap_err();
    assert!(matches!(error, ParseError::MalformedAt(_, _)));
    assert!(error.message().starts_with("XML parse error at position "));
    assert_eq!(labels.len(), 1);
    assert_eq!(labels[0].id, 9);
}

#[test]
fn a_malformed_record_gives_no_position() {
    let mut labels = Vec::new();
    let error = parse_labels(b"<labels><label><id>9</name></label></labels>", &mut labels).unwrap_err();
    assert!(matches!(error, ParseError::Malformed(_)));
    assert!(labels.is_empty());
}

#[test]
fn a_record_that_stays_open_is_an_error() {
    let error = parse_artists(b"<artists><artist><id>9</id>", &mut Vec::new()).unwrap_err();
    assert!(matches!(error, ParseError::UnexpectedEnd(Record::Artist)));
    let error = parse_labels(b"<labels><label><id>9</id>", &mut Vec::new()).unwrap_err();
    assert!(matches!(error, ParseError::UnexpectedEnd(Record::Label)));
    let error = parse_masters(b"<masters><master id=\"9\">", &mut Vec::new()).unwrap_err();
    assert!(matches!(error, ParseError::UnexpectedEnd(Record::Master)));
}

#[test]
fn names_of_records() {
    assert_eq!(ParseError::UnexpectedEnd(Record::Artist).message(), "Unexpected EOF inside <artist>");
    assert_eq!(ParseError::UnexpectedEnd(Record::Label).message(), "Unexpected EOF inside <label>");
    assert_eq!(ParseError::UnexpectedEnd(Record::Master).message(), "Unexpected EOF inside <master>");
    assert_eq!(ParseError::MalformedAt("m".to_string(), 40).message(), "XML parse error at position 40: m");
    assert_eq!(ParseError::Escape("e".to_string()).message(), "e");
    assert_eq!(ParseError::Attribute("a".to_string()).message(), "a");
}
