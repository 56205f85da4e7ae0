//! Parsing of small dumps of releases.

use discogs_xml_converter::model::Release;
use discogs_xml_converter::parser::parse_releases;

const SINGLE: &str = r#"<?xml version="1.0" encoding="UTF-8"?>
<releases>
  <release id="1001" status="Accepted">
    <images>
      <image height="600" type="primary" uri="https://img.discogs.com/abc123/release-1001.jpg" uri150="" width="600"/>
      <image height="300" type="secondary" uri="https://img.discogs.com/abc123/release-1001-back.jpg" uri150="" width="300"/>
    </images>
    <artists>
      <artist><id>1</id><name>Autechre</name><anv></anv><join></join></artist>
    </artists>
    <title>Confield</title>
    <labels>
      <label catno="WARPCD128" name="Warp Records"/>
      <label catno="WARP CD 128" name="Warp Records"/>
    </labels>
    <extraartists>
      <artist><id>12</id><name>Some Producer</name><anv></anv><join></join><role>Producer</role></artist>
    </extraartists>
    <formats>
      <format name="CD" qty="1" text=""><descriptions><description>Album</description></descriptions></format>
    </formats>
    <genres><genre>Electronic</genre><genre>Rock</genre></genres>
    <styles><style>Alternative Rock</style><style>Art Rock</style><style>Experimental</style></styles>
    <country>UK</country>
    <released>2001-04-09</released>
    <notes></notes>
    <data_quality>Correct</data_quality>
    <master_id is_main_release="true">500</master_id>
    <tracklist>
      <track><position>1</position><title>VI Scose Poise</title><duration>7:11</duration></track>
      <track><position>2</position><title>Cfern</title><duration>6:41</duration></track>
      <track><position>3</position><title>Pen Expers</title><duration>7:08</duration></track>
    </tracklist>
    <videos>
      <video duration="325" embed="true" src="https://www.youtube.com/watch?v=afMHNll9EVM">
        <title>Autechre - Cfern</title>
        <description>Autechre - Cfern</description>
      </video>
      <video duration="175" embed="true" src="https://www.youtube.com/watch?v=XExCZfMCXdo">
        <title>Autechre - VI Scose Poise</title>
        <description></description>
      </video>
    </videos>
    <companies>
      <company>
        <id>271046</id>
        <name>The Globe Studios</name>
        <catno></catno>
        <entity_type>23</entity_type>
        <entity_type_name>Recorded At</entity_type_name>
        <resource_url>https://api.discogs.com/labels/271046</resource_url>
      </company>
      <company>
        <id>56025</id>
        <name>Abbey Road Studios</name>
        <catno></catno>
        <entity_type>27</entity_type>
        <entity_type_name>Mixed At</entity_type_name>
      </company>
    </companies>
  </release>
</releases>
"#;

const MULTI: &str = r#"<?xml version="1.0" encoding="UTF-8"?>
<releases>
  <release id="1002" status="Accepted">
    <artists><artist><id>1</id><name>Autechre</name><anv></anv><join></join></artist></artists>
    <title>Confield</title>
    <released>2001</released>
    <master_id>500</master_id>
  </release>
  <release id="2001" status="Accepted">
    <artists><artist><id>2</id><name>Father John Misty</name><anv></anv><join></join></artist></artists>
    <title>I Love You, Honeybear</title>
    <videos>
      <video duration="209" embed="false" src="https://www.youtube.com/watch?v=selfclose1"/>
    </videos>
  </release>
  <release id="4001" status="Accepted">
    <artists><artist><id>1</id><name>Autechre</name><anv></anv><join></join></artist></artists>
    <title>Tri Repetae</title>
    <released>1995-11-13</released>
  </release>
  <release id="5002" status="Accepted">
    <artists><artist><id>6</id><name>Mystery Band</name><anv></anv><join></join></artist></artists>
    <title>No Date</title>
  </release>
  <release id="6001" status="Accepted">
    <artists><artist><id>3</id><name>Nilüfer Yanya</name><anv></anv><join></join></artist></artists>
    <title>PAINLESS</title>
  </release>
  <release id="9002" status="Accepted">
    <artists><artist><id>9</id><name>Duke Ellington &amp; John Coltrane</name><anv></anv><join></join></artist></artists>
    <title>Duke Ellington &amp; John Coltrane</title>
  </release>
  <release id="9999" status="Accepted">
    <title>No Artists</title>
  </release>
</releases>
"#;

fn releases_of(document: &str) -> Vec<Release> {
    let mut releases = Vec::new();
    parse_releases(document.as_bytes(), None, &mut releases).unwrap();
    releases
}

#[test]
fn test_parse_single_release() {
    let mut releases = Vec::new();
    let count = parse_releases(SINGLE.as_bytes(), None, &mut releases).unwrap();

    assert_eq!(count, 1);
    assert_eq!(releases.len(), 1);

    let r = &releases[0];
    assert_eq!(r.id, 1001);
    assert_eq!(r.status, "Accepted");
    assert_eq!(r.title, "Confield");
    assert_eq!(r.country, "UK");
    assert_eq!(r.released, "2001-04-09");
    assert_eq!(r.data_quality, "Correct");
    assert_eq!(r.master_id, Some(500));
    assert_eq!(r.format_string(), "CD");

    // Artists
    assert_eq!(r.artists.len(), 1);
    assert_eq!(r.artists[0].name, "Autechre");
    assert_eq!(r.artists[0].artist_id, 1);

    // Extra artists
    assert_eq!(r.extra_artists.len(), 1);
    assert_eq!(r.extra_artists[0].name, "Some Producer");

    // Labels
    assert_eq!(r.labels.len(), 2);
    assert_eq!(r.labels[0].name, "Warp Records");
    assert_eq!(r.labels[0].catno, "WARPCD128");
    assert_eq!(r.labels[1].name, "Warp Records");

    // Tracks
    assert_eq!(r.tracks.len(), 3);
    assert_eq!(r.tracks[0].title, "VI Scose Poise");
    assert_eq!(r.tracks[0].position, "1");
    assert_eq!(r.tracks[0].duration, "7:11");
    assert_eq!(r.tracks[1].title, "Cfern");
    assert_eq!(r.tracks[2].title, "Pen Expers");

    // Images
    assert_eq!(r.images.len(), 2);
    assert_eq!(r.images[0].image_type, "primary");
    assert_eq!(
        r.images[0].uri,
        "https://img.discogs.com/abc123/release-1001.jpg"
    );

    // Genres
    assert_eq!(r.genres, vec!["Electronic", "Rock"]);

    // Styles
    assert_eq!(
        r.styles,
        vec!["Alternative Rock", "Art Rock", "Experimental"]
    );

    // Companies
    assert_eq!(r.companies.len(), 2);
    assert_eq!(r.companies[0].company_id, 271046);
    assert_eq!(r.companies[0].name, "The Globe Studios");
    assert_eq!(r.companies[0].entity_type, 23);
    assert_eq!(r.companies[0].entity_type_name, "Recorded At");
    assert_eq!(r.companies[1].company_id, 56025);
    assert_eq!(r.companies[1].name, "Abbey Road Studios");
    assert_eq!(r.companies[1].entity_type_name, "Mixed At");
}

#[test]
fn test_parse_multi_release() {
    let releases = releases_of(MULTI);

    // Should have multiple releases
    assert!(
        releases.len() >= 3,
        "Expected at least 3 releases, got {}",
        releases.len()
    );

    // Spot-check some fields
    let ids: Vec<u64> = releases.iter().map(|r| r.id).collect();
    assert!(ids.contains(&1002));
    assert!(ids.contains(&2001));
}

#[test]
fn test_skip_release_without_artists() {
    let releases = releases_of(MULTI);

    // Release 9999 has no artists and should be skipped
    let ids: Vec<u64> = releases.iter().map(|r| r.id).collect();
    assert!(
        !ids.contains(&9999),
        "Release 9999 (no artists) should be skipped"
    );
}

#[test]
fn test_optional_fields() {
    let releases = releases_of(MULTI);

    // Release 4001 has no master_id
    let r4001 = releases.iter().find(|r| r.id == 4001).unwrap();
    assert_eq!(r4001.master_id, None);
    assert_eq!(r4001.released, "1995-11-13");

    // Release 5002 has no released date
    let r5002 = releases.iter().find(|r| r.id == 5002);
    if let Some(r) = r5002 {
        assert_eq!(r.released, "");
    }
}

#[test]
fn test_unicode_and_entities() {
    let releases = releases_of(MULTI);

    // Release 6001 has Nilüfer Yanya (unicode)
    let r6001 = releases.iter().find(|r| r.id == 6001).unwrap();
    assert_eq!(r6001.artists[0].name, "Nilüfer Yanya");

    // Release 9002 has Duke Ellington & John Coltrane (entity)
    let r9002 = releases.iter().find(|r| r.id == 9002).unwrap();
    assert_eq!(r9002.artists[0].name, "Duke Ellington & John Coltrane");
}

#[test]
fn test_parse_videos_from_single_release() {
    let releases = releases_of(SINGLE);

    let r = &releases[0];
    assert_eq!(r.videos.len(), 2);

    assert_eq!(
        r.videos[0].src,
        "https://www.youtube.com/watch?v=afMHNll9EVM"
    );
    assert_eq!(r.videos[0].title, "Autechre - Cfern");
    assert_eq!(r.videos[0].duration, Some(325));
    assert_eq!(r.videos[0].embed, true);

    assert_eq!(
        r.videos[1].src,
        "https://www.youtube.com/watch?v=XExCZfMCXdo"
    );
    assert_eq!(r.videos[1].title, "Autechre - VI Scose Poise");
    assert_eq!(r.videos[1].duration, Some(175));
    assert_eq!(r.videos[1].embed, true);
}

#[test]
fn test_parse_video_self_closing() {
    let releases = releases_of(MULTI);

    // Release 2001 has a self-closing <video> element with embed="false"
    let r2001 = releases.iter().find(|r| r.id == 2001).unwrap();
    assert_eq!(r2001.videos.len(), 1);
    assert_eq!(
        r2001.videos[0].src,
        "https://www.youtube.com/watch?v=selfclose1"
    );
    assert_eq!(r2001.videos[0].duration, Some(209));
    assert_eq!(r2001.videos[0].embed, false);
    assert_eq!(r2001.videos[0].title, "");
}

#[test]
fn test_releases_without_videos_have_empty_vec() {
    let releases = releases_of(MULTI);

    // Release 1002 has no <videos> section
    let r1002 = releases.iter().find(|r| r.id == 1002).unwrap();
    assert_eq!(r1002.videos.len(), 0);
}
