//! Parsing of single releases.

use discogs_xml_converter::error::{ParseError, Record};
use discogs_xml_converter::parser::parse_release_from_bytes;
use discogs_xml_converter::xml::resolve_general_ref;

#[test]
fn test_parse_release_from_bytes() {
    let xml = br#"<release id="1001" status="Accepted">
    <title>Confield</title>
    <country>UK</country>
    <released>2001-04-09</released>
    <notes></notes>
    <data_quality>Correct</data_quality>
    <master_id>500</master_id>
    <artists>
      <artist>
        <id>1</id>
        <name>Autechre</name>
        <anv></anv>
        <join></join>
      </artist>
    </artists>
    <labels>
      <label name="Warp Records" catno="WARPCD128" />
    </labels>
    <formats>
      <format name="CD" qty="1" text="" />
    </formats>
    <genres>
      <genre>Electronic</genre>
      <genre>Rock</genre>
    </genres>
    <styles>
      <style>Alternative Rock</style>
    </styles>
    <companies>
      <company>
        <id>271046</id>
        <name>The Globe Studios</name>
        <entity_type>23</entity_type>
        <entity_type_name>Recorded At</entity_type_name>
      </company>
    </companies>
    <tracklist>
      <track>
        <position>1</position>
        <title>VI Scose Poise</title>
        <duration>7:11</duration>
      </track>
    </tracklist>
  </release>"#;

    let release = parse_release_from_bytes(xml).unwrap();
    assert_eq!(release.id, 1001);
    assert_eq!(release.status, "Accepted");
    assert_eq!(release.title, "Confield");
    assert_eq!(release.country, "UK");
    assert_eq!(release.released, "2001-04-09");
    assert_eq!(release.master_id, Some(500));
    assert_eq!(release.artists.len(), 1);
    assert_eq!(release.artists[0].name, "Autechre");
    assert_eq!(release.artists[0].artist_id, 1);
    assert_eq!(release.labels.len(), 1);
    assert_eq!(release.labels[0].name, "Warp Records");
    assert_eq!(release.tracks.len(), 1);
    assert_eq!(release.tracks[0].title, "VI Scose Poise");
    assert_eq!(release.genres, vec!["Electronic", "Rock"]);
    assert_eq!(release.styles, vec!["Alternative Rock"]);
    assert_eq!(release.companies.len(), 1);
    assert_eq!(release.companies[0].company_id, 271046);
    assert_eq!(release.companies[0].name, "The Globe Studios");
    assert_eq!(release.companies[0].entity_type, 23);
    assert_eq!(release.companies[0].entity_type_name, "Recorded At");
}

#[test]
fn test_parse_release_from_bytes_no_release_tag() {
    let xml = b"<notrelease></notrelease>";
    let result = parse_release_from_bytes(xml);
    assert!(result.is_err());
}

/// Titles of tracks and words in the notes stay out of the title of the release.
#[test]
fn test_nested_title_does_not_clobber_release_title() {
    let xml = br#"<release id="42" status="Accepted">
    <title>Real Release Title</title>
    <artists>
      <artist><id>1</id><name>Test</name><anv></anv><join></join></artist>
    </artists>
    <labels />
    <formats>
      <format name="CD" qty="1" text="">
        <descriptions><description>Album</description></descriptions>
      </format>
    </formats>
    <tracklist>
      <track>
        <position>A1</position>
        <title>Track One</title>
        <duration>3:00</duration>
      </track>
      <track>
        <position>A2</position>
        <title>Track Two</title>
        <duration>4:00</duration>
      </track>
    </tracklist>
    <notes>Some notes with title-like content</notes>
  </release>"#;

    let release = parse_release_from_bytes(xml).unwrap();
    assert_eq!(release.id, 42);
    assert_eq!(release.title, "Real Release Title");
    assert_eq!(release.tracks.len(), 2);
    assert_eq!(release.tracks[0].title, "Track One");
    assert_eq!(release.tracks[1].title, "Track Two");
}

/// A title inside the notes is not the title of the release.
#[test]
fn test_title_inside_notes_does_not_clobber_release_title() {
    let xml = br#"<release id="39218" status="Accepted">
    <title>Disco Not Disco 2</title>
    <artists>
      <artist><id>194</id><name>Various</name><anv></anv><join></join></artist>
    </artists>
    <notes>Originally released as <title>This Is Radio Clash</title> on a 12" in 1981.</notes>
    <tracklist>
      <track>
        <position>A1</position>
        <title>White Horse</title>
        <duration>5:30</duration>
      </track>
    </tracklist>
  </release>"#;

    let release = parse_release_from_bytes(xml).unwrap();
    assert_eq!(release.id, 39218);
    assert_eq!(
        release.title, "Disco Not Disco 2",
        "release.title must be the depth-0 <title>, not the one nested in <notes>"
    );
    assert_eq!(release.tracks.len(), 1);
    assert_eq!(release.tracks[0].title, "White Horse");
}

/// A title inside a format is not the title of the release.
#[test]
fn test_title_inside_format_descriptions_does_not_clobber_release_title() {
    let xml = br#"<release id="100" status="Accepted">
    <title>Real Album Title</title>
    <artists>
      <artist><id>1</id><name>Some Artist</name><anv></anv><join></join></artist>
    </artists>
    <formats>
      <format name="CD" qty="1" text="">
        <descriptions>
          <description>Album</description>
          <title>Bogus Format Title</title>
        </descriptions>
      </format>
    </formats>
    <tracklist>
      <track>
        <position>1</position>
        <title>Track One</title>
        <duration>3:00</duration>
      </track>
    </tracklist>
  </release>"#;

    let release = parse_release_from_bytes(xml).unwrap();
    assert_eq!(release.title, "Real Album Title");
    assert_eq!(release.tracks.len(), 1);
    assert_eq!(release.tracks[0].title, "Track One");
}

#[test]
fn test_video_title_does_not_clobber_release_title() {
    let xml = br#"<release id="55" status="Accepted">
    <title>The Real Title</title>
    <artists>
      <artist><id>1</id><name>Test Artist</name><anv></anv><join></join></artist>
    </artists>
    <videos>
      <video src="https://www.youtube.com/watch?v=abc" duration="100" embed="true">
        <title>Video Title Should Not Clobber</title>
        <description></description>
      </video>
    </videos>
  </release>"#;

    let release = parse_release_from_bytes(xml).unwrap();
    assert_eq!(release.title, "The Real Title");
    assert_eq!(release.videos.len(), 1);
    assert_eq!(release.videos[0].title, "Video Title Should Not Clobber");
}

#[test]
fn test_parse_video_from_bytes() {
    let xml = br#"<release id="77" status="Accepted">
    <title>Some Album</title>
    <artists>
      <artist><id>3</id><name>Some Artist</name><anv></anv><join></join></artist>
    </artists>
    <videos>
      <video src="https://www.youtube.com/watch?v=zzz" duration="200" embed="true">
        <title>Some Video</title>
        <description>desc</description>
      </video>
      <video src="https://www.youtube.com/watch?v=yyy" embed="false" />
    </videos>
  </release>"#;

    let release = parse_release_from_bytes(xml).unwrap();
    assert_eq!(release.videos.len(), 2);
    assert_eq!(release.videos[0].src, "https://www.youtube.com/watch?v=zzz");
    assert_eq!(release.videos[0].duration, Some(200));
    assert_eq!(release.videos[0].embed, true);
    assert_eq!(release.videos[0].title, "Some Video");
    // Second video has no duration attribute
    assert_eq!(release.videos[1].src, "https://www.youtube.com/watch?v=yyy");
    assert_eq!(release.videos[1].duration, None);
    assert_eq!(release.videos[1].embed, false);
}

/// Extra artists of a track stand apart from its artists and carry their role.
#[test]
fn test_parse_track_extra_artists_with_role() {
    let xml = br#"<release id="674529" status="Accepted">
    <title>Live 93</title>
    <artists>
      <artist><id>1</id><name>The Orb</name><anv></anv><join></join></artist>
    </artists>
    <tracklist>
      <track>
        <position>5</position>
        <title>Towers Of Dub</title>
        <duration>10:00</duration>
        <artists>
          <artist><id>1</id><name>The Orb</name><anv></anv><join></join></artist>
        </artists>
        <extraartists>
          <artist>
            <id>10</id>
            <name>Alex Paterson</name>
            <anv></anv>
            <join></join>
            <role>Producer</role>
          </artist>
          <artist>
            <id>11</id>
            <name>Kris Weston</name>
            <anv></anv>
            <join></join>
            <role>Co-Producer</role>
          </artist>
          <artist>
            <id>12</id>
            <name>Thomas Fehlmann</name>
            <anv></anv>
            <join></join>
            <role>Mixed By</role>
          </artist>
        </extraartists>
      </track>
    </tracklist>
  </release>"#;

    let release = parse_release_from_bytes(xml).unwrap();
    assert_eq!(release.tracks.len(), 1);
    let track = &release.tracks[0];

    // Main credit: The Orb, no role.
    assert_eq!(track.artists.len(), 1);
    assert_eq!(track.artists[0].name, "The Orb");
    assert_eq!(track.artists[0].role, "");

    // Extra credits: Paterson/Weston/Fehlmann with role strings.
    assert_eq!(track.extra_artists.len(), 3);
    assert_eq!(track.extra_artists[0].name, "Alex Paterson");
    assert_eq!(track.extra_artists[0].role, "Producer");
    assert_eq!(track.extra_artists[1].name, "Kris Weston");
    assert_eq!(track.extra_artists[1].role, "Co-Producer");
    assert_eq!(track.extra_artists[2].name, "Thomas Fehlmann");
    assert_eq!(track.extra_artists[2].role, "Mixed By");
}

/// An empty role is an empty string.
#[test]
fn test_parse_track_extra_artist_empty_role_element() {
    let xml = br#"<release id="1001" status="Accepted">
    <title>Test</title>
    <artists>
      <artist><id>1</id><name>Main Artist</name><anv></anv><join></join></artist>
    </artists>
    <tracklist>
      <track>
        <position>1</position>
        <title>Solo Track</title>
        <duration>3:00</duration>
        <extraartists>
          <artist>
            <id>2</id>
            <name>Some Producer</name>
            <anv></anv>
            <join></join>
            <role></role>
          </artist>
        </extraartists>
      </track>
    </tracklist>
  </release>"#;

    let release = parse_release_from_bytes(xml).unwrap();
    assert_eq!(release.tracks.len(), 1);
    let track = &release.tracks[0];
    assert_eq!(track.extra_artists.len(), 1);
    assert_eq!(track.extra_artists[0].name, "Some Producer");
    assert_eq!(track.extra_artists[0].role, "");
}

/// The role of an extra artist of the release stays out of the tracks.
#[test]
fn test_release_extra_artist_role_does_not_pollute_track_state() {
    let xml = br#"<release id="1001" status="Accepted">
    <title>Test</title>
    <artists>
      <artist><id>1</id><name>Main Artist</name><anv></anv><join></join></artist>
    </artists>
    <extraartists>
      <artist>
        <id>2</id>
        <name>Some Producer</name>
        <anv></anv>
        <join></join>
        <role>Producer</role>
      </artist>
    </extraartists>
    <tracklist>
      <track>
        <position>1</position>
        <title>Solo Track</title>
        <duration>3:00</duration>
      </track>
    </tracklist>
  </release>"#;

    let release = parse_release_from_bytes(xml).unwrap();
    assert_eq!(release.extra_artists.len(), 1);
    assert_eq!(release.extra_artists[0].name, "Some Producer");

    assert_eq!(release.tracks.len(), 1);
    assert_eq!(release.tracks[0].artists.len(), 0);
    assert_eq!(release.tracks[0].extra_artists.len(), 0);
}

/// A track with sub-tracks keeps its own fields, and the sub-tracks get rows too.
#[test]
fn test_sub_tracks_do_not_corrupt_parent_track() {
    let xml = br#"<release id="1" status="Accepted">
    <title>Some Album</title>
    <artists>
      <artist><id>1</id><name>Some Artist</name><anv></anv><join></join></artist>
    </artists>
    <tracklist>
      <track>
        <position>A</position>
        <title>Side A</title>
        <duration></duration>
        <sub_tracks>
          <track>
            <position>A1</position>
            <title>First Movement</title>
            <duration>5:00</duration>
          </track>
          <track>
            <position>A2</position>
            <title>Second Movement</title>
            <duration>6:00</duration>
          </track>
        </sub_tracks>
      </track>
    </tracklist>
  </release>"#;

    let release = parse_release_from_bytes(xml).unwrap();

    // The parent track is preserved with its own position and title.
    let parent = release
        .tracks
        .iter()
        .find(|t| t.position == "A")
        .expect("parent track present");
    assert_eq!(parent.title, "Side A");

    // The sub-tracks are also preserved (with their own positions/titles).
    assert!(
        release
            .tracks
            .iter()
            .any(|t| t.position == "A1" && t.title == "First Movement"),
        "first sub-track A1 present"
    );
    assert!(
        release
            .tracks
            .iter()
            .any(|t| t.position == "A2" && t.title == "Second Movement"),
        "second sub-track A2 present"
    );

    // One row for the parent and one for each sub-track.
    assert_eq!(release.tracks.len(), 3);
}

/// What follows the sub-tracks of a track belongs to that track.
#[test]
fn test_parent_track_data_after_sub_tracks_routes_to_parent() {
    let xml = br#"<release id="2" status="Accepted">
    <title>Compilation</title>
    <artists>
      <artist><id>1</id><name>Various</name><anv></anv><join></join></artist>
    </artists>
    <tracklist>
      <track>
        <position>B</position>
        <title>Side B Suite</title>
        <sub_tracks>
          <track>
            <position>B1</position>
            <title>Part One</title>
            <duration>2:30</duration>
          </track>
        </sub_tracks>
        <duration>10:45</duration>
        <artists>
          <artist><id>42</id><name>Side Composer</name><anv></anv><join></join></artist>
        </artists>
      </track>
    </tracklist>
  </release>"#;

    let release = parse_release_from_bytes(xml).unwrap();

    let parent = release
        .tracks
        .iter()
        .find(|t| t.position == "B")
        .expect("parent track present");
    assert_eq!(parent.title, "Side B Suite");
    // The duration after the sub-tracks is that of the parent.
    assert_eq!(parent.duration, "10:45");
    // So are the artists.
    assert_eq!(parent.artists.len(), 1);
    assert_eq!(parent.artists[0].name, "Side Composer");

    let child = release
        .tracks
        .iter()
        .find(|t| t.position == "B1")
        .expect("sub-track B1 present");
    assert_eq!(child.title, "Part One");
    assert_eq!(child.duration, "2:30");

    assert_eq!(release.tracks.len(), 2);
}

fn release_with(body: &str) -> String {
    format!("<release id=\"9\" status=\"Draft\">{}</release>", body)
}

#[test]
fn numbers_in_attributes_have_defaults() {
    let release = parse_release_from_bytes(
        b"<release id=\"x\"><labels><label/></labels>\
          <formats><format name=\"LP\" qty=\"two\"/><format name=\"CD\"/><format name=\"EP\" qty=\"+3\"/></formats>\
          <images><image type=\"primary\" width=\"-1\" height=\"12\" uri=\"u\"/></images></release>",
    )
    .unwrap();
    assert_eq!(release.id, 0);
    assert_eq!(release.status, "");
    assert_eq!(release.labels.len(), 1);
    assert_eq!(release.labels[0].name, "");
    assert_eq!(release.formats[0].qty, 1);
    assert_eq!(release.formats[1].qty, 0);
    assert_eq!(release.formats[2].qty, 3);
    assert_eq!(release.format_string(), "LP, CD, 3xEP");
    assert_eq!(release.images[0].width, 0);
    assert_eq!(release.images[0].height, 12);
}

#[test]
fn largest_and_too_large_ids() {
    let release = parse_release_from_bytes(b"<release id=\"18446744073709551615\"></release>").unwrap();
    assert_eq!(release.id, 18446744073709551615);
    let release = parse_release_from_bytes(b"<release id=\"18446744073709551616\"></release>").unwrap();
    assert_eq!(release.id, 0);
}

#[test]
fn the_last_of_two_equal_fields_counts() {
    let xml = release_with("<country>UK</country><country>US</country>");
    assert_eq!(parse_release_from_bytes(xml.as_bytes()).unwrap().country, "US");
}

#[test]
fn text_is_joined_around_references_and_comments() {
    let xml = release_with("<notes>a &lt;<!-- b -->c&#x20;d</notes>");
    assert_eq!(parse_release_from_bytes(xml.as_bytes()).unwrap().notes, "a <c d");
}

#[test]
fn master_id_is_trimmed_and_may_be_missing() {
    let xml = release_with("<master_id> 77\n</master_id>");
    assert_eq!(parse_release_from_bytes(xml.as_bytes()).unwrap().master_id, Some(77));
    let xml = release_with("<master_id>none</master_id>");
    assert_eq!(parse_release_from_bytes(xml.as_bytes()).unwrap().master_id, None);
}

#[test]
fn credits_are_numbered_on_through_the_extra_artists() {
    let xml = release_with(
        "<artists><artist><id>1</id><name>A</name><anv>a</anv><join>&amp;</join></artist>\
         <artist><id>2</id><name>B</name></artist></artists>\
         <extraartists><artist><id>3</id><name>C</name></artist></extraartists>",
    );
    let release = parse_release_from_bytes(xml.as_bytes()).unwrap();
    assert_eq!(release.artists.len(), 2);
    assert_eq!(release.artists[0].anv, "a");
    assert_eq!(release.artists[0].join_field, "&");
    assert_eq!(release.artists[0].position, 1);
    assert_eq!(release.artists[1].position, 2);
    assert_eq!(release.extra_artists[0].position, 3);
}

#[test]
fn no_release_is_an_error() {
    let error = parse_release_from_bytes(b"<artists></artists>").unwrap_err();
    assert!(matches!(error, ParseError::NotFound(Record::Release)));
    assert_eq!(error.message(), "No <release> found in bytes");
}

#[test]
fn a_release_that_stays_open_is_an_error() {
    let error = parse_release_from_bytes(b"<release id=\"1\"><title>T</title>").unwrap_err();
    assert!(matches!(error, ParseError::UnexpectedEnd(Record::Release)));
    assert_eq!(error.message(), "Unexpected EOF inside <release>");
}

#[test]
fn crossed_tags_are_malformed() {
    let error = parse_release_from_bytes(b"<release id=\"1\"><title>T</country></release>").unwrap_err();
    assert!(matches!(error, ParseError::Malformed(_)));
    assert!(error.message().starts_with("XML parse error: "));
}

#[test]
fn a_repeated_attribute_is_an_error() {
    let error = parse_release_from_bytes(b"<release id=\"1\" id=\"2\"></release>").unwrap_err();
    assert!(matches!(error, ParseError::Attribute(_)));
    assert!(!error.message().is_empty());
}

#[test]
fn invalid_utf8_in_a_text_is_an_error() {
    let error = parse_release_from_bytes(b"<release id=\"1\"><title>\xff</title></release>").unwrap_err();
    assert!(matches!(error, ParseError::InvalidUtf8(_)));
    assert_eq!(
        error.message(),
        "cannot decode input using UTF-8: invalid utf-8 sequence of 1 bytes from index 0"
    );
}

#[test]
fn invalid_utf8_in_an_attribute_is_an_error() {
    let error = parse_release_from_bytes(b"<release id=\"1\" status=\"ab\xff\"></release>").unwrap_err();
    assert!(matches!(error, ParseError::InvalidUtf8(_)));
    assert_eq!(error.message(), "invalid utf-8 sequence of 1 bytes from index 2");
}

#[test]
fn invalid_utf8_in_a_reference_is_an_error() {
    let error = resolve_general_ref(b"a\xc3").unwrap_err();
    assert_eq!(
        error.message(),
        "cannot decode input using UTF-8: incomplete utf-8 byte sequence from index 1"
    );
}

#[test]
fn an_unknown_reference_is_an_error() {
    let error = parse_release_from_bytes(b"<release id=\"1\"><title>&bogus;</title></release>").unwrap_err();
    assert!(matches!(error, ParseError::Escape(_)));
    let error = parse_release_from_bytes(b"<release id=\"1\" status=\"&bogus;\"></release>").unwrap_err();
    assert!(matches!(error, ParseError::Escape(_)));
}

#[test]
fn two_levels_of_sub_tracks_come_back_in_closing_order() {
    let xml = release_with(
        "<tracklist><track><title>a</title><sub_tracks><track><title>b</title><sub_tracks>\
         <track><title>c</title></track></sub_tracks></track></sub_tracks></track>\
         <track><title>d</title></track></tracklist>",
    );
    let release = parse_release_from_bytes(xml.as_bytes()).unwrap();
    let titles: Vec<&str> = release.tracks.iter().map(|t| t.title.as_str()).collect();
    assert_eq!(titles, vec!["c", "b", "a", "d"]);
    assert_eq!(release.title, "");
}

#[test]
fn artists_of_a_track_stay_out_of_the_release() {
    let xml = release_with(
        "<tracklist><track><artists><artist><name>T</name></artist></artists>\
         <extraartists><artist><name>X</name><role>Mix</role></artist></extraartists></track></tracklist>",
    );
    let release = parse_release_from_bytes(xml.as_bytes()).unwrap();
    assert!(release.artists.is_empty());
    assert!(release.extra_artists.is_empty());
    assert_eq!(release.tracks[0].artists[0].name, "T");
    assert_eq!(release.tracks[0].extra_artists[0].role, "Mix");
}

#[test]
fn ids_and_status_words_inside_leave_the_release() {
    let xml = release_with("<id>77</id><status>Other</status><companies><company><id>5</id></company></companies>");
    let release = parse_release_from_bytes(xml.as_bytes()).unwrap();
    assert_eq!(release.id, 9);
    assert_eq!(release.status, "Draft");
    assert_eq!(release.companies[0].company_id, 5);
}

#[test]
fn a_title_after_closed_elements_is_that_of_the_release() {
    let xml = release_with(
        "<notes><b><title>no</title></b></notes><tracklist><track><title>t</title></track></tracklist><title>yes</title>",
    );
    let release = parse_release_from_bytes(xml.as_bytes()).unwrap();
    assert_eq!(release.title, "yes");
    assert_eq!(release.tracks[0].title, "t");
}

#[test]
fn lists_keep_what_they_hold() {
    let xml = release_with("<genres><genre>A</genre></genres><genres><genre>B</genre></genres><genre>C</genre>");
    assert_eq!(parse_release_from_bytes(xml.as_bytes()).unwrap().genres, vec!["A", "B"]);
}

#[test]
fn the_title_is_that_of_the_last_own_child() {
    let xml = b"<release id=\"1\"><title>First</title><notes><title>N</title></notes>\
        <tracklist><track><title>T</title></track></tracklist>\
        <videos><video src=\"v\"><title>V</title></video></videos>\
        <title>a <b>bold</b>Last &amp; own</title><x><y><title>deep</title></y></x></release>";
    let release = parse_release_from_bytes(xml).unwrap();
    assert_eq!(release.title, "Last & own");
    assert_eq!(release.tracks[0].title, "T");
    assert_eq!(release.videos[0].title, "V");
}

#[test]
fn a_title_right_below_is_read_after_videos_without_a_list() {
    let xml = b"<release id=\"1\"><video><videos></videos></video><title>T</title></release>";
    assert_eq!(parse_release_from_bytes(xml).unwrap().title, "T");
}

#[test]
fn tracks_come_in_the_order_of_their_closing_tags() {
    let xml = b"<release id=\"1\"><tracklist>\
        <track><title>A</title><sub_tracks>\
        <track><title>A1</title></track>\
        <track><title>A2</title><sub_tracks><track><title>A2a</title></track></sub_tracks></track>\
        </sub_tracks><duration>9:00</duration></track>\
        <track/><track><title>B</title></track></tracklist></release>";
    let release = parse_release_from_bytes(xml).unwrap();
    let titles: Vec<&str> = release.tracks.iter().map(|t| t.title.as_str()).collect();
    assert_eq!(titles, vec!["A1", "A2a", "A2", "A", "B"]);
    assert_eq!(release.tracks[3].duration, "9:00");
    assert_eq!(release.tracks[2].duration, "");
}

#[test]
fn credits_are_numbered_one_after_another() {
    let credit = |name: &str| format!("<artist><id>1</id><name>{}</name></artist>", name);
    let xml = format!(
        "<release id=\"1\"><artists>{} {}</artists><extraartists>{}{}</extraartists></release>",
        credit("a"),
        credit("b"),
        credit("c"),
        credit("d")
    );
    let release = parse_release_from_bytes(xml.as_bytes()).unwrap();
    let numbers: Vec<u32> = release.artists.iter().map(|a| a.position).collect();
    assert_eq!(numbers, vec![1, 2]);
    let numbers: Vec<u32> = release.extra_artists.iter().map(|a| a.position).collect();
    assert_eq!(numbers, vec![3, 4]);
}
