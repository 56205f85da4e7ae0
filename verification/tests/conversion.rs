//! Conversion of whole dumps: scanning, filtering and writing.

use std::collections::HashSet;
use std::io::Read;
use std::io::Write;

use discogs_xml_converter::artist_parser::parse_artists;
use discogs_xml_converter::artist_writer::ArtistCsvOutput;
use discogs_xml_converter::csv_file::Chunk;
use discogs_xml_converter::dump::{scan_directory, DumpKind};
use discogs_xml_converter::filter::ArtistFilter;
use discogs_xml_converter::keep_release_ids::parse_keep_release_ids;
use discogs_xml_converter::label_parser::parse_labels;
use discogs_xml_converter::label_writer::LabelCsvOutput;
use discogs_xml_converter::library_pairs::LibraryPairs;
use discogs_xml_converter::model::{Release, ReleaseArtist};
use discogs_xml_converter::output::ReleaseOutput;
use discogs_xml_converter::parser::{parse_release_from_bytes, parse_releases};
use discogs_xml_converter::pg_output::PgOutput;
use discogs_xml_converter::pipeline::{
    build_filter, decide_keep, filter_release, matches_filter, process_release, FilterResult,
    KeepDecision, ReleaseFilter, ReleaseTally,
};
use discogs_xml_converter::scanner::{ReleaseBatch, ReleaseScanner};
use discogs_xml_converter::writer::CsvOutput;

const RELEASES: &str = r##"<?xml version="1.0" encoding="UTF-8"?>
<releases>
  <release id="1001" status="Accepted">
    <images>
      <image height="600" type="primary" uri="https://img.discogs.com/abc123/release-1001.jpg" uri150="" width="600"/>
      <image height="300" type="secondary" uri="https://img.discogs.com/abc123/release-1001-back.jpg" uri150="" width="300"/>
    </images>
    <artists>
      <artist><id>1</id><name>Autechre</name><anv></anv><join></join></artist>
    </artists>
    <title>Confield</title>
    <labels><label catno="WARPCD128" name="Warp Records"/><label catno="WARP CD 128" name="Warp Records"/></labels>
    <extraartists>
      <artist><id>12</id><name>Some Producer</name><anv></anv><join></join><role>Producer</role></artist>
    </extraartists>
    <formats><format name="CD" qty="1" text=""></format></formats>
    <genres><genre>Electronic</genre><genre>Rock</genre></genres>
    <styles><style>Alternative Rock</style><style>Art Rock</style></styles>
    <country>UK</country>
    <released>2001-04-09</released>
    <data_quality>Correct</data_quality>
    <master_id is_main_release="true">500</master_id>
    <tracklist>
      <track><position>1</position><title>VI Scose Poise</title><duration>7:11</duration>
      </track>
      <track><position>2</position><title>Cfern</title><duration>6:41</duration>
      </track>
      <track><position>3</position><title>Pen Expers</title><duration>7:08</duration>
      </track>
    </tracklist>
    <companies>
      <company><id>271046</id><name>The Globe Studios</name><entity_type>23</entity_type><entity_type_name>Recorded At</entity_type_name></company>
    </companies>
  </release>
  <release id="1002" status="Accepted">
    <artists>
      <artist><id>1</id><name>Autechre</name><anv></anv><join></join></artist>
    </artists>
    <title>Confield</title>
    <labels><label catno="WARPLP128" name="Warp Records"/></labels>
    <formats><format name="LP" qty="2" text=""></format></formats>
    <country>US</country>
    <released>2001</released>
    <data_quality>Correct</data_quality>
    <master_id is_main_release="true">500</master_id>
    <tracklist>
      <track><position>A1</position><title>VI Scose Poise</title><duration>7:11</duration>
      </track>
      <track><position>A2</position><title>Cfern</title><duration>6:41</duration>
      </track>
      <track><position>B1</position><title>Pen Expers</title><duration>7:08</duration>
      </track>
      <track><position>B2</position><title>Sim Gishel</title><duration>7:14</duration>
      </track>
      <track><position>C1</position><title>Parhelic Triangle</title><duration>6:03</duration>
      </track>
    </tracklist>
  </release>
  <release id="1003" status="Accepted">
    <artists>
      <artist><id>1</id><name>Autechre</name><anv></anv><join></join></artist>
    </artists>
    <title>Confield</title>
    <labels><label catno="BRC-30" name="Beat Records"/></labels>
    <formats><format name="CD" qty="1" text=""></format><format name="CDr" qty="3" text=""></format></formats>
    <country>Japan</country>
    <released>2001-04-21</released>
    <notes>Comes with an obi, &quot;as usual&quot;.
Second line.</notes>
    <data_quality>Correct</data_quality>
    <master_id is_main_release="true">500</master_id>
    <tracklist>
      <track><position>1</position><title>VI Scose Poise</title><duration>7:11</duration>
      </track>
      <track><position>2</position><title>Cfern</title><duration>6:41</duration>
      </track>
      <track><position>3</position><title>Pen Expers</title><duration>7:08</duration>
      </track>
    </tracklist>
  </release>
  <release id="2001" status="Accepted">
    <images>
      <image height="298" type="secondary" uri="https://img.discogs.com/abc123/release-2001.jpg" uri150="" width="300"/>
    </images>
    <artists>
      <artist><id>2</id><name>Father John Misty</name><anv></anv><join></join></artist>
    </artists>
    <title>I Love You, Honeybear</title>
    <labels><label catno="SP 1115" name="Sub Pop"/></labels>
    <formats><format name="LP" qty="1" text=""></format></formats>
    <country>US</country>
    <released>2015-02-10</released>
    <data_quality>Correct</data_quality>
    <master_id is_main_release="true">600</master_id>
    <tracklist>
      <track><position>A1</position><title>I Love You, Honeybear</title><duration>4:38</duration>
      </track>
      <track><position>A2</position><title>Chateau Lobby #4</title><duration>2:51</duration>
      </track>
    </tracklist>
  </release>
  <release id="2002" status="Accepted">
    <artists>
      <artist><id>2</id><name>Father John Misty</name><anv></anv><join></join></artist>
    </artists>
    <title>Pure Comedy</title>
    <labels><label catno="SP 1200" name="Sub Pop"/></labels>
    <formats><format name="CD" qty="1" text=""></format></formats>
    <country>US</country>
    <released>2017-04-07</released>
    <data_quality>Correct</data_quality>
    <master_id is_main_release="true">601</master_id>
    <tracklist>
      <track><position>1</position><title>Pure Comedy</title><duration>6:23</duration>
      </track>
      <track><position>2</position><title>Total Entertainment Forever</title><duration>2:52</duration>
      </track>
    </tracklist>
  </release>
  <release id="3001" status="Accepted">
    <images>
      <image height="500" type="primary" uri="https://img.discogs.com/abc123/release-3001.jpg" uri150="" width="500"/>
    </images>
    <artists>
      <artist><id>1</id><name>Autechre</name><anv></anv><join></join></artist>
    </artists>
    <title>Amber</title>
    <labels><label catno="WARP CD 25" name="Warp Records"/></labels>
    <formats><format name="CD" qty="1" text=""></format></formats>
    <country>UK</country>
    <released>1994-11-07</released>
    <data_quality>Correct</data_quality>
    <master_id is_main_release="true">700</master_id>
    <tracklist>
      <track><position>1</position><title>Foil</title><duration>6:05</duration>
      </track>
      <track><position>2</position><title>Montreal</title><duration>7:15</duration>
      </track>
    </tracklist>
  </release>
  <release id="4001" status="Accepted">
    <artists>
      <artist><id>1</id><name>Autechre</name><anv></anv><join></join></artist>
    </artists>
    <title>Tri Repetae</title>
    <labels><label catno="WARP CD 38" name="Warp Records"/></labels>
    <formats><format name="CD" qty="1" text=""></format></formats>
    <country>UK</country>
    <released>1995-11-13</released>
    <data_quality>Correct</data_quality>
    <tracklist>
      <track><position>1</position><title>Dael</title><duration>6:38</duration>
      </track>
      <track><position>2</position><title>Clipper</title><duration>8:33</duration>
      </track>
    </tracklist>
  </release>
  <release id="5001" status="Accepted">
    <artists>
      <artist><id>5</id><name>DJ Unknown</name><anv></anv><join></join></artist>
    </artists>
    <title>Unlisted</title>
    <formats><format name="12&quot;" qty="1" text=""></format></formats>
    <country>Germany</country>
    <released>1999</released>
    <data_quality>Correct</data_quality>
    <tracklist>
      <track><position>A</position><title>Unlisted</title><duration></duration>
      </track>
    </tracklist>
  </release>
  <release id="5002" status="Accepted">
    <artists>
      <artist><id>6</id><name>Mystery Band</name><anv></anv><join></join></artist>
    </artists>
    <title>No Date</title>
    <data_quality>Correct</data_quality>
    <tracklist>
      <track><position>1</position><title>No Date</title><duration>1:00</duration>
      </track>
    </tracklist>
  </release>
  <release id="6001" status="Accepted">
    <artists>
      <artist><id>3</id><name>Nilüfer Yanya</name><anv></anv><join></join></artist>
    </artists>
    <title>PAINLESS</title>
    <labels><label catno="ATO0592" name="ATO Records"/></labels>
    <formats><format name="CD" qty="1" text=""></format></formats>
    <country>UK</country>
    <released>Unknown</released>
    <data_quality>Correct</data_quality>
    <master_id is_main_release="true">800</master_id>
    <tracklist>
      <track><position>1</position><title>the dealer</title><duration>3:49</duration>
      </track>
      <track><position>2</position><title>L/R</title><duration>3:17</duration>
      </track>
    </tracklist>
  </release>
  <release id="7001" status="Accepted">
    <artists>
      <artist><id>7</id><name>Empty Title Artist</name><anv></anv><join></join></artist>
    </artists>
    <title></title>
    <formats><format name="CD" qty="1" text=""></format></formats>
    <country>US</country>
    <released>2000</released>
    <data_quality>Correct</data_quality>
  </release>
  <release id="8001" status="Accepted">
    <artists>
      <artist><id>194</id><name>Various</name><anv></anv><join></join></artist>
    </artists>
    <title>Old School Rap</title>
    <labels><label catno="R2 71000" name="Rhino"/></labels>
    <formats><format name="CD" qty="1" text=""></format></formats>
    <country>US</country>
    <released>1994</released>
    <data_quality>Correct</data_quality>
    <tracklist>
      <track><position>1</position><title>Rapper's Delight</title><duration>14:35</duration>
        <artists>
          <artist><id>1</id><name>Sugarhill Gang</name><anv></anv><join></join></artist>
        </artists>
        <extraartists>
          <artist><id>2</id><name>Sylvia Robinson</name><anv></anv><join></join><role>Producer</role></artist>
        </extraartists>
      </track>
      <track><position>2</position><title>Apache</title><duration>5:35</duration>
        <artists>
          <artist><id>1</id><name>Incredible Bongo Band</name><anv></anv><join></join></artist>
        </artists>
      </track>
    </tracklist>
  </release>
  <release id="9001" status="Accepted">
    <artists>
      <artist><id>8</id><name>Field, The</name><anv>The Field</anv><join></join></artist>
    </artists>
    <title>From Here We Go Sublime</title>
    <labels><label catno="KOMPAKT CD 57" name="Kompakt"/></labels>
    <formats><format name="LP" qty="2" text=""></format></formats>
    <country>Germany</country>
    <released>2007-03-26</released>
    <data_quality>Correct</data_quality>
    <master_id is_main_release="true">900</master_id>
    <tracklist>
      <track><position>A1</position><title>Over the Ice</title><duration>6:56</duration>
      </track>
    </tracklist>
  </release>
  <release id="9002" status="Accepted">
    <artists>
      <artist><id>9</id><name>Duke Ellington &amp; John Coltrane</name><anv></anv><join></join></artist>
    </artists>
    <title>Duke Ellington &amp; John Coltrane</title>
    <labels><label catno="A-30" name="Impulse!"/></labels>
    <formats><format name="LP" qty="1" text=""></format></formats>
    <country>US</country>
    <released>1963</released>
    <data_quality>Correct</data_quality>
    <master_id is_main_release="true">901</master_id>
    <tracklist>
      <track><position>A1</position><title>In a Sentimental Mood</title><duration>4:14</duration>
      </track>
      <track><position>A2</position><title>Take the Coltrane</title><duration>4:42</duration>
      </track>
    </tracklist>
  </release>
  <release id="10001" status="Accepted">
    <artists>
      <artist><id>10</id><name>Random Artist X</name><anv></anv><join></join></artist>
    </artists>
    <title>Noise</title>
    <formats><format name="Cassette" qty="1" text=""></format></formats>
    <country>US</country>
    <released>2010</released>
    <data_quality>Correct</data_quality>
    <tracklist>
      <track><position>A</position><title>Noise</title><duration>30:00</duration>
      </track>
    </tracklist>
  </release>
  <release id="10002" status="Accepted">
    <artists>
      <artist><id>11</id><name>Obscure Band Y</name><anv></anv><join></join></artist>
    </artists>
    <title>Hiss</title>
    <formats><format name="Cassette" qty="1" text=""></format></formats>
    <country>US</country>
    <released>2011</released>
    <data_quality>Correct</data_quality>
    <tracklist>
      <track><position>A</position><title>Hiss</title><duration>30:00</duration>
      </track>
    </tracklist>
  </release>
</releases>
"##;

const EXPECTED_RELEASE: &str = r##"id,status,title,country,released,notes,data_quality,master_id,format
1001,Accepted,Confield,UK,2001-04-09,,Correct,500,CD
1002,Accepted,Confield,US,2001,,Correct,500,2xLP
1003,Accepted,Confield,Japan,2001-04-21,"Comes with an obi, ""as usual"".
Second line.",Correct,500,"CD, 3xCDr"
2001,Accepted,"I Love You, Honeybear",US,2015-02-10,,Correct,600,LP
2002,Accepted,Pure Comedy,US,2017-04-07,,Correct,601,CD
3001,Accepted,Amber,UK,1994-11-07,,Correct,700,CD
4001,Accepted,Tri Repetae,UK,1995-11-13,,Correct,,CD
5001,Accepted,Unlisted,Germany,1999,,Correct,,"12"""
5002,Accepted,No Date,,,,Correct,,
6001,Accepted,PAINLESS,UK,Unknown,,Correct,800,CD
7001,Accepted,,US,2000,,Correct,,CD
8001,Accepted,Old School Rap,US,1994,,Correct,,CD
9001,Accepted,From Here We Go Sublime,Germany,2007-03-26,,Correct,900,2xLP
9002,Accepted,Duke Ellington & John Coltrane,US,1963,,Correct,901,LP
10001,Accepted,Noise,US,2010,,Correct,,Cassette
10002,Accepted,Hiss,US,2011,,Correct,,Cassette
"##;

const EXPECTED_RELEASE_ARTIST: &str = r##"release_id,artist_id,artist_name,extra,anv,position,join_field
1001,1,Autechre,0,,1,
1001,12,Some Producer,1,,2,
1002,1,Autechre,0,,1,
1003,1,Autechre,0,,1,
2001,2,Father John Misty,0,,1,
2002,2,Father John Misty,0,,1,
3001,1,Autechre,0,,1,
4001,1,Autechre,0,,1,
5001,5,DJ Unknown,0,,1,
5002,6,Mystery Band,0,,1,
6001,3,Nilüfer Yanya,0,,1,
7001,7,Empty Title Artist,0,,1,
8001,194,Various,0,,1,
9001,8,"Field, The",0,The Field,1,
9002,9,Duke Ellington & John Coltrane,0,,1,
10001,10,Random Artist X,0,,1,
10002,11,Obscure Band Y,0,,1,
"##;

const EXPECTED_RELEASE_LABEL: &str = r##"release_id,label,catno
1001,Warp Records,WARPCD128
1001,Warp Records,WARP CD 128
1002,Warp Records,WARPLP128
1003,Beat Records,BRC-30
2001,Sub Pop,SP 1115
2002,Sub Pop,SP 1200
3001,Warp Records,WARP CD 25
4001,Warp Records,WARP CD 38
6001,ATO Records,ATO0592
8001,Rhino,R2 71000
9001,Kompakt,KOMPAKT CD 57
9002,Impulse!,A-30
"##;

const EXPECTED_RELEASE_TRACK: &str = r##"release_id,sequence,position,title,duration
1001,1,1,VI Scose Poise,7:11
1001,2,2,Cfern,6:41
1001,3,3,Pen Expers,7:08
1002,1,A1,VI Scose Poise,7:11
1002,2,A2,Cfern,6:41
1002,3,B1,Pen Expers,7:08
1002,4,B2,Sim Gishel,7:14
1002,5,C1,Parhelic Triangle,6:03
1003,1,1,VI Scose Poise,7:11
1003,2,2,Cfern,6:41
1003,3,3,Pen Expers,7:08
2001,1,A1,"I Love You, Honeybear",4:38
2001,2,A2,Chateau Lobby #4,2:51
2002,1,1,Pure Comedy,6:23
2002,2,2,Total Entertainment Forever,2:52
3001,1,1,Foil,6:05
3001,2,2,Montreal,7:15
4001,1,1,Dael,6:38
4001,2,2,Clipper,8:33
5001,1,A,Unlisted,
5002,1,1,No Date,1:00
6001,1,1,the dealer,3:49
6001,2,2,L/R,3:17
8001,1,1,Rapper's Delight,14:35
8001,2,2,Apache,5:35
9001,1,A1,Over the Ice,6:56
9002,1,A1,In a Sentimental Mood,4:14
9002,2,A2,Take the Coltrane,4:42
10001,1,A,Noise,30:00
10002,1,A,Hiss,30:00
"##;

const EXPECTED_RELEASE_TRACK_ARTIST: &str = r##"release_id,track_sequence,artist_name
8001,1,Sugarhill Gang
8001,1,Sylvia Robinson
8001,2,Incredible Bongo Band
"##;

const EXPECTED_RELEASE_IMAGE: &str = r##"release_id,type,width,height,uri
1001,primary,600,600,https://img.discogs.com/abc123/release-1001.jpg
1001,secondary,300,300,https://img.discogs.com/abc123/release-1001-back.jpg
2001,secondary,300,298,https://img.discogs.com/abc123/release-2001.jpg
3001,primary,500,500,https://img.discogs.com/abc123/release-3001.jpg
"##;

const LIBRARY_ARTISTS: &str = "Autechre\nFather John Misty\nNilüfer Yanya\nThe Field\nVarious Artists\nDuke Ellington & John Coltrane\n";

const ARTISTS: &str = r#"<artists>
  <artist>
    <id>123</id>
    <name>P. Diddy</name>
    <namevariations><name>P Diddy</name></namevariations>
    <aliases><name id="124">Sean Combs</name></aliases>
  </artist>
  <artist>
    <id>300</id>
    <name>Radiohead</name>
    <members><name id="301">Thom Yorke</name></members>
  </artist>
</artists>
"#;

const LABELS: &str = r#"<labels>
  <label><id>1</id><name>EMI</name></label>
  <label><id>2</id><name>Parlophone</name><parentLabel id="1">EMI</parentLabel></label>
  <label><id>3</id><name>Capitol Records</name><parentLabel id="1">EMI</parentLabel></label>
  <label><id>6</id><name>Matador Records</name><parentLabel id="7">Beggars Group</parentLabel></label>
  <label><id>8</id><name>4AD</name><parentLabel id="7">Beggars Group</parentLabel></label>
</labels>
"#;

fn make_release(artists: Vec<(u64, &str)>, extra_artists: Vec<(u64, &str)>) -> Release {
    Release {
        id: 1,
        artists: artists
            .into_iter()
            .enumerate()
            .map(|(i, (id, name))| ReleaseArtist {
                artist_id: id,
                name: name.to_string(),
                position: (i + 1) as u32,
                ..Default::default()
            })
            .collect(),
        extra_artists: extra_artists
            .into_iter()
            .enumerate()
            .map(|(i, (id, name))| ReleaseArtist {
                artist_id: id,
                name: name.to_string(),
                position: (i + 1) as u32,
                ..Default::default()
            })
            .collect(),
        ..Default::default()
    }
}

fn rows(pairs: &[(&str, &str)]) -> Vec<(String, String)> {
    pairs.iter().map(|(a, t)| (a.to_string(), t.to_string())).collect()
}

/// Scans a document that arrives in pieces.
fn scan(document: &[u8], limit: Option<usize>, batch_size: usize, piece: usize) -> (usize, Vec<ReleaseBatch>) {
    let mut scanner = ReleaseScanner::new(limit, batch_size);
    let mut batches = Vec::new();
    for chunk in document.chunks(piece) {
        if !scanner.done {
            batches.extend(scanner.feed(chunk));
        }
    }
    batches.extend(scanner.finish());
    (scanner.count, batches)
}

/// Converts a dump of releases to CSV files.
fn convert(
    document: &str,
    filter: &Option<ReleaseFilter>,
    keep_ids: &HashSet<u64>,
    limit: Option<usize>,
) -> (ReleaseTally, Vec<Chunk>) {
    let (_, batches) = scan(document.as_bytes(), limit, 256, 1000);
    let mut tally = ReleaseTally::new();
    let mut output = CsvOutput::new("out");
    for batch in &batches {
        let results: Vec<FilterResult> = (0..batch.len())
            .map(|i| process_release(batch.release(i), filter, keep_ids))
            .collect();
        tally.write_results(&results, &mut output).unwrap();
    }
    (tally, CsvOutput::flush(&mut output))
}

fn file(chunks: &[Chunk], name: &str) -> String {
    let chunk = chunks.iter().find(|c| c.name == name).unwrap();
    String::from_utf8(chunk.bytes.clone()).unwrap()
}

fn records(content: &str) -> Vec<Vec<String>> {
    let mut reader = csv::Reader::from_reader(content.as_bytes());
    reader
        .records()
        .map(|r| r.unwrap().iter().map(|f| f.to_string()).collect())
        .collect()
}

fn count(chunks: &[Chunk], name: &str) -> usize {
    records(&file(chunks, name)).len()
}

fn release_ids(chunks: &[Chunk]) -> Vec<u64> {
    let mut ids: Vec<u64> = records(&file(chunks, "release.csv"))
        .iter()
        .map(|r| r[0].parse().unwrap())
        .collect();
    ids.sort();
    ids
}

fn gzipped(document: &str) -> Vec<u8> {
    let mut encoder = flate2::write::GzEncoder::new(Vec::new(), flate2::Compression::default());
    encoder.write_all(document.as_bytes()).unwrap();
    encoder.finish().unwrap()
}

fn gunzipped(bytes: &[u8]) -> String {
    let mut document = String::new();
    flate2::read::GzDecoder::new(bytes).read_to_string(&mut document).unwrap();
    document
}

fn artist_files(document: &str) -> Vec<Chunk> {
    let mut artists = Vec::new();
    parse_artists(document.as_bytes(), &mut artists).unwrap();
    let mut output = ArtistCsvOutput::new();
    for artist in &artists {
        output.write_artist(artist);
    }
    output.flush()
}

fn label_files(document: &str) -> Vec<Chunk> {
    let mut labels = Vec::new();
    parse_labels(document.as_bytes(), &mut labels).unwrap();
    let mut output = LabelCsvOutput::new();
    for label in &labels {
        output.write_label(label);
    }
    output.flush()
}

// Matching releases against a filter.

#[test]
fn test_matches_filter_without_aliases() {
    let filter = ReleaseFilter::Artists(ArtistFilter::from_file("Autechre\nNilüfer Yanya\n"));

    // Main artist matches
    let release = make_release(vec![(1, "Autechre")], vec![]);
    assert!(matches_filter(&filter, &release));

    // Extra artist matches
    let release = make_release(vec![(99, "Unknown")], vec![(5, "Nilüfer Yanya")]);
    assert!(matches_filter(&filter, &release));

    // No match
    let release = make_release(vec![(99, "Unknown")], vec![]);
    assert!(!matches_filter(&filter, &release));
}

#[test]
fn test_matches_filter_with_aliases() {
    let mut artist_filter = ArtistFilter::from_file("Sun Ra Arkestra\n");
    artist_filter
        .load_aliases(b"artist_id,artist_name,alias_name\n123,Sun Ra,Sun Ra Arkestra\n")
        .unwrap();
    let filter = ReleaseFilter::Artists(artist_filter);

    // Canonical name doesn't match, but alias does via artist_id
    let release = make_release(vec![(123, "Sun Ra")], vec![]);
    assert!(matches_filter(&filter, &release));

    // Unknown artist doesn't match
    let release = make_release(vec![(999, "Unknown")], vec![]);
    assert!(!matches_filter(&filter, &release));
}

#[test]
fn test_matches_filter_with_pairs() {
    let pairs = LibraryPairs::from_db(&rows(&[
        ("Autechre", "Confield"),
        ("Stereolab", "Aluminum Tunes"),
    ]));
    let filter = ReleaseFilter::Pairs(pairs);

    // Title in library, artist in library's set for that title
    let mut release = make_release(vec![(1, "Autechre")], vec![]);
    release.title = "Confield".to_string();
    assert!(matches_filter(&filter, &release));

    // Title in library but artist isn't credited on this release
    let mut release = make_release(vec![(99, "Unknown")], vec![]);
    release.title = "Confield".to_string();
    assert!(!matches_filter(&filter, &release));

    // Title not in library
    let mut release = make_release(vec![(1, "Autechre")], vec![]);
    release.title = "Some Other Album".to_string();
    assert!(!matches_filter(&filter, &release));

    // Case does not count
    let mut release = make_release(vec![(2, "Stereolab")], vec![]);
    release.title = "ALUMINUM TUNES".to_string();
    assert!(matches_filter(&filter, &release));
}

#[test]
fn test_decide_keep_via_allowlist_rescues_non_matching_release() {
    let filter = Some(ReleaseFilter::Artists(ArtistFilter::from_file("Autechre\n")));

    let mut keep_ids = std::collections::HashSet::new();
    keep_ids.insert(42u64);

    // Fails the artist filter, but its id is allowlisted.
    let mut release = make_release(vec![(99, "Unknown Artist")], vec![]);
    release.id = 42;
    assert!(matches!(
        decide_keep(&filter, &keep_ids, &release),
        KeepDecision::KeepViaAllowlist
    ));

    // Fails the artist filter and isn't allowlisted.
    let mut release = make_release(vec![(99, "Unknown Artist")], vec![]);
    release.id = 7;
    assert!(matches!(
        decide_keep(&filter, &keep_ids, &release),
        KeepDecision::Drop
    ));

    // Matches the artist filter outright; allowlist membership is moot.
    let mut release = make_release(vec![(1, "Autechre")], vec![]);
    release.id = 999;
    assert!(matches!(
        decide_keep(&filter, &keep_ids, &release),
        KeepDecision::Keep
    ));
}

#[test]
fn test_decide_keep_no_filter_configured_always_keeps() {
    let keep_ids = std::collections::HashSet::new();
    let release = make_release(vec![(1, "Anyone")], vec![]);
    assert!(matches!(
        decide_keep(&None, &keep_ids, &release),
        KeepDecision::Keep
    ));
}

#[test]
fn the_library_pairs_come_before_the_library_artists() {
    let pairs = rows(&[("Autechre", "Confield")]);
    let filter = build_filter(Some(&pairs), Some("Stereolab\n"), None, None).unwrap().unwrap();
    assert!(matches!(filter, ReleaseFilter::Pairs(_)));
    let filter = build_filter(None, Some("Stereolab\n"), None, None).unwrap().unwrap();
    assert!(matches!(filter, ReleaseFilter::Artists(_)));
    assert!(build_filter(None, None, Some(b""), Some(b"")).unwrap().is_none());
}

#[test]
fn a_filter_takes_aliases_and_name_variations() {
    let filter = build_filter(
        None,
        Some("Gescom\nThe Field\n"),
        Some(b"artist_id,artist_name,alias_name\n1,Autechre,Gescom\n"),
        Some(b"artist_id,name\n8,The Field\n"),
    )
    .unwrap()
    .unwrap();
    assert!(matches_filter(&filter, &make_release(vec![(1, "Autechre")], vec![])));
    assert!(matches_filter(&filter, &make_release(vec![(8, "Field, The")], vec![])));
    assert!(!matches_filter(&filter, &make_release(vec![(9, "Field, The")], vec![])));
}

// Scanning for releases.

#[test]
fn test_scan_finds_release_boundaries() {
    let xml = br#"<?xml version="1.0" encoding="UTF-8"?>
<releases>
  <release id="1" status="Accepted">
    <title>First</title>
    <artists><artist><id>1</id><name>A</name><anv></anv><join></join></artist></artists>
    <tracklist />
  </release>
  <release id="2" status="Accepted">
    <title>Second</title>
    <artists><artist><id>2</id><name>B</name><anv></anv><join></join></artist></artists>
    <tracklist />
  </release>
</releases>"#;

    let (count, batches) = scan(xml, None, 256, xml.len());

    assert_eq!(count, 2);

    assert_eq!(batches.len(), 1); // both releases in one batch (< 256)
    assert_eq!(batches[0].offsets.len(), 2);

    // Parse each release from the batch bytes
    for (i, &(start, end)) in batches[0].offsets.iter().enumerate() {
        let release = parse_release_from_bytes(&batches[0].data[start..end]).unwrap();
        assert_eq!(release.id, (i + 1) as u64);
    }
}

#[test]
fn test_scan_handles_cross_buffer_boundary() {
    let xml = br#"<?xml version="1.0" encoding="UTF-8"?>
<releases>
  <release id="100" status="Accepted">
    <title>Cross Boundary Test</title>
    <artists><artist><id>10</id><name>Test Artist</name><anv></anv><join></join></artist></artists>
    <tracklist><track><position>1</position><title>Track</title><duration>3:00</duration></track></tracklist>
  </release>
  <release id="200" status="Accepted">
    <title>Second Release</title>
    <artists><artist><id>20</id><name>Other Artist</name><anv></anv><join></join></artist></artists>
    <tracklist><track><position>1</position><title>Track 2</title><duration>4:00</duration></track></tracklist>
  </release>
</releases>"#;

    // Each release gets a batch of its own; the pieces cut through the tags.
    for piece in [1, 7, 64, xml.len()] {
        let (count, batches) = scan(xml, None, 1, piece);

        assert_eq!(count, 2);
        assert_eq!(batches.len(), 2);

        let r1 = parse_release_from_bytes(
            &batches[0].data[batches[0].offsets[0].0..batches[0].offsets[0].1],
        )
        .unwrap();
        assert_eq!(r1.id, 100);
        assert_eq!(r1.title, "Cross Boundary Test");
        assert_eq!(r1.tracks.len(), 1);

        let r2 = parse_release_from_bytes(
            &batches[1].data[batches[1].offsets[0].0..batches[1].offsets[0].1],
        )
        .unwrap();
        assert_eq!(r2.id, 200);
        assert_eq!(r2.title, "Second Release");
    }
}

#[test]
fn test_scan_with_limit() {
    let (count, batches) = scan(RELEASES.as_bytes(), Some(3), 256, 500);

    assert_eq!(count, 3);

    let total_offsets: usize = batches.iter().map(|b| b.offsets.len()).sum();
    assert_eq!(total_offsets, 3);
}

#[test]
fn test_scan_fixture_all_releases() {
    let (count, batches) = scan(RELEASES.as_bytes(), None, 256, 500);

    assert_eq!(count, 16);

    // Verify each one parses successfully
    let mut parsed_ids = Vec::new();
    for batch in &batches {
        for &(start, end) in &batch.offsets {
            let release = parse_release_from_bytes(&batch.data[start..end]).unwrap();
            parsed_ids.push(release.id);
        }
    }
    assert_eq!(parsed_ids.len(), 16);
}

#[test]
fn the_pieces_of_a_document_do_not_matter() {
    let whole: Vec<Vec<u8>> = {
        let (_, batches) = scan(RELEASES.as_bytes(), None, 1, RELEASES.len());
        batches.iter().map(|b| b.release(0).to_vec()).collect()
    };
    for piece in [1, 3, 10, 4096] {
        let (_, batches) = scan(RELEASES.as_bytes(), None, 5, piece);
        let found: Vec<Vec<u8>> = batches
            .iter()
            .flat_map(|b| (0..b.len()).map(|i| b.release(i).to_vec()).collect::<Vec<Vec<u8>>>())
            .collect();
        assert_eq!(found, whole);
    }
    for release in &whole {
        assert!(release.starts_with(b"<release "));
        assert!(release.ends_with(b"</release>"));
    }
}

#[test]
fn batches_have_the_size_that_was_asked_for() {
    let (count, batches) = scan(RELEASES.as_bytes(), None, 5, 700);
    assert_eq!(count, 16);
    let sizes: Vec<usize> = batches.iter().map(|b| b.len()).collect();
    assert_eq!(sizes, vec![5, 5, 5, 1]);
}

#[test]
fn a_release_that_is_cut_off_is_not_found() {
    let (count, batches) = scan(b"<releases><release id=\"1\"></release><release id=\"2\">", None, 256, 9);
    assert_eq!(count, 1);
    assert_eq!(batches.len(), 1);
    assert_eq!(batches[0].release(0), b"<release id=\"1\"></release>");
    let (count, batches) = scan(b"<releases></releases>", None, 256, 9);
    assert_eq!(count, 0);
    assert!(batches.is_empty());
}

// Parsing whole dumps.

#[test]
fn test_parse_gzipped() {
    let mut releases_gz = Vec::new();
    let document = gunzipped(&gzipped(RELEASES));
    parse_releases(document.as_bytes(), None, &mut releases_gz).unwrap();

    let mut releases_plain = Vec::new();
    parse_releases(RELEASES.as_bytes(), None, &mut releases_plain).unwrap();

    assert_eq!(releases_gz.len(), releases_plain.len());
    for (gz, plain) in releases_gz.iter().zip(releases_plain.iter()) {
        assert_eq!(gz.id, plain.id);
        assert_eq!(gz.title, plain.title);
    }
}

#[test]
fn parser_test_limit() {
    let mut releases = Vec::new();
    let count = parse_releases(RELEASES.as_bytes(), Some(3), &mut releases).unwrap();

    assert_eq!(count, 3);
    assert_eq!(releases.len(), 3);
}

#[test]
fn a_limit_takes_the_first_releases() {
    let mut all = Vec::new();
    assert_eq!(parse_releases(RELEASES.as_bytes(), None, &mut all).unwrap(), 16);
    let mut first = Vec::new();
    assert_eq!(parse_releases(RELEASES.as_bytes(), Some(5), &mut first).unwrap(), 5);
    for (a, b) in first.iter().zip(all.iter()) {
        assert_eq!(a.id, b.id);
    }
}

#[test]
fn a_limit_of_zero_takes_no_release() {
    let mut releases = Vec::new();
    assert_eq!(parse_releases(RELEASES.as_bytes(), Some(0), &mut releases).unwrap(), 0);
    assert!(releases.is_empty());
    let (count, slices) = scan(RELEASES.as_bytes(), Some(0), 256, 100);
    assert_eq!(count, 0);
    assert!(slices.is_empty());
    assert!(ReleaseScanner::new(Some(0), 256).done);
    assert!(!ReleaseScanner::new(Some(1), 256).done);
}

#[test]
fn a_single_release_is_the_first_of_the_document() {
    let release = parse_release_from_bytes(RELEASES.as_bytes()).unwrap();
    assert_eq!(release.id, 1001);
}

// Filtering and writing.

#[test]
fn releases_are_written_in_the_order_of_the_dump() {
    let filter = Some(ReleaseFilter::Artists(ArtistFilter::from_file("autechre\nFATHER JOHN MISTY\n")));
    let (_, chunks) = convert(RELEASES, &filter, &HashSet::new(), None);
    let ids: Vec<String> = records(&file(&chunks, "release.csv")).iter().map(|r| r[0].clone()).collect();
    assert_eq!(ids, vec!["1001", "1002", "1003", "2001", "2002", "3001", "4001"]);
}

#[test]
fn test_keep_release_ids_allowlist_emits_release_that_fails_filter() {
    let xml = r#"<?xml version="1.0" encoding="UTF-8"?>
<releases>
  <release id="1" status="Accepted">
    <title>DOGA</title>
    <artists><artist><id>101</id><name>Juana Molina</name><anv></anv><join></join></artist></artists>
    <tracklist><track><position>A1</position><title>la paradoja</title><duration>4:12</duration></track></tracklist>
  </release>
  <release id="2" status="Accepted">
    <title>Pinned Override Edition</title>
    <artists><artist><id>202</id><name>Not In Library</name><anv></anv><join></join></artist></artists>
    <tracklist><track><position>A1</position><title>Some Track</title><duration>3:00</duration></track></tracklist>
  </release>
  <release id="3" status="Accepted">
    <title>Unrelated Release</title>
    <artists><artist><id>303</id><name>Also Not In Library</name><anv></anv><join></join></artist></artists>
    <tracklist><track><position>1</position><title>Filler</title><duration>2:00</duration></track></tracklist>
  </release>
</releases>"#;

    let filter = Some(ReleaseFilter::Artists(ArtistFilter::from_file("Juana Molina\n")));
    let keep_ids = parse_keep_release_ids(Some("2\n")).unwrap();

    let (tally, chunks) = convert(xml, &filter, &keep_ids, None);

    let release_csv = file(&chunks, "release.csv");
    assert!(
        release_csv.contains("DOGA"),
        "release matching the artist filter should still be kept: {release_csv}"
    );
    assert!(
        release_csv.contains("Pinned Override Edition"),
        "allowlisted release failing the filter should be emitted: {release_csv}"
    );
    assert!(
        !release_csv.contains("Unrelated Release"),
        "release matching neither the filter nor the allowlist should stay filtered: {release_csv}"
    );

    // The allowlisted release's child rows (tracklist) travel with it.
    let track_csv = file(&chunks, "release_track.csv");
    assert!(
        track_csv.contains("Some Track"),
        "allowlisted release's tracklist should be emitted: {track_csv}"
    );

    assert_eq!(
        tally.summary(3),
        "Complete: 3 scanned, 2 written, 1 filtered, 0 skipped (no artists), \
         1 kept via --keep-release-ids allowlist"
    );
}

#[test]
fn test_keep_release_ids_absent_flag_is_byte_identical_to_status_quo() {
    let empty_keep_ids = std::collections::HashSet::new();
    let (_, chunks_a) = convert(RELEASES, &None, &empty_keep_ids, None);
    let (_, chunks_b) = convert(RELEASES, &None, &empty_keep_ids, None);

    for filename in &["release.csv", "release_artist.csv", "release_track.csv"] {
        let a = file(&chunks_a, filename);
        let b = file(&chunks_b, filename);
        assert_eq!(a, b, "mismatch in {filename}");
    }
}

#[test]
fn test_duplicate_release_ids_are_skipped() {
    // XML with two releases sharing the same id=1
    let xml = r#"<?xml version="1.0" encoding="UTF-8"?>
<releases>
  <release id="1" status="Accepted">
    <title>DOGA</title>
    <artists><artist><id>101</id><name>Juana Molina</name><anv></anv><join></join></artist></artists>
    <tracklist><track><position>A1</position><title>Cosoco</title><duration>4:12</duration></track></tracklist>
  </release>
  <release id="1" status="Accepted">
    <title>Different Title</title>
    <artists><artist><id>101</id><name>Juana Molina</name><anv></anv><join></join></artist></artists>
    <tracklist><track><position>A1</position><title>Other Track</title><duration>3:00</duration></track></tracklist>
  </release>
  <release id="2" status="Accepted">
    <title>Aluminum Tunes</title>
    <artists><artist><id>102</id><name>Stereolab</name><anv></anv><join></join></artist></artists>
    <tracklist><track><position>1</position><title>Fuses</title><duration>7:29</duration></track></tracklist>
  </release>
</releases>"#;

    let keep_ids = std::collections::HashSet::new();
    let (tally, chunks) = convert(xml, &None, &keep_ids, None);

    let release_csv = file(&chunks, "release.csv");
    let lines: Vec<&str> = release_csv.lines().collect();
    // Header + 2 data rows (not 3)
    assert_eq!(
        lines.len(),
        3,
        "Expected header + 2 releases, got: {release_csv}"
    );
    // First occurrence wins: "DOGA" not "Different Title"
    assert!(lines[1].contains("DOGA"), "First occurrence should be kept");
    assert!(
        !release_csv.contains("Different Title"),
        "Duplicate should be skipped"
    );
    assert_eq!(
        tally.summary(3),
        "Complete: 3 scanned, 2 written, 0 filtered, 0 skipped (no artists), 1 duplicate ids skipped"
    );
}

#[test]
fn releases_without_artists_are_skipped_even_on_the_allowlist() {
    let mut keep_ids = HashSet::new();
    keep_ids.insert(5u64);
    let result = process_release(b"<release id=\"5\"><title>T</title></release>", &None, &keep_ids);
    assert!(matches!(result, FilterResult::NoArtists));
    let mut tally = ReleaseTally::new();
    assert!(!tally.record(&result));
    assert_eq!(tally.skipped_no_artists, 1);
    assert_eq!(tally.written, 0);
}

#[test]
fn a_broken_release_counts_as_one_without_artists() {
    let broken = b"<release id=\"5\"><artists><artist><name>A</name></artist></artists>";
    assert!(matches!(process_release(broken, &None, &HashSet::new()), FilterResult::NoArtists));
    let parsed = parse_release_from_bytes(broken);
    assert!(parsed.is_err());
    assert!(matches!(filter_release(parsed, &None, &HashSet::new()), FilterResult::NoArtists));
}

#[test]
fn every_result_is_counted_once() {
    let filter = Some(ReleaseFilter::Artists(ArtistFilter::from_file(LIBRARY_ARTISTS)));
    let keep_ids = parse_keep_release_ids(Some("5001\n10002\n")).unwrap();
    let (tally, chunks) = convert(RELEASES, &filter, &keep_ids, None);
    assert_eq!(tally.written, 11);
    assert_eq!(tally.filtered, 5);
    assert_eq!(tally.skipped_no_artists, 0);
    assert_eq!(tally.duplicate_ids, 0);
    assert_eq!(tally.kept_via_allowlist, 2);
    assert_eq!(release_ids(&chunks).len(), 11);
}

#[test]
fn test_parallel_artist_label_produces_same_output() {
    // First artists, then labels
    let mut first = artist_files(ARTISTS);
    first.extend(label_files(LABELS));

    // First labels, then artists
    let mut second = label_files(LABELS);
    second.extend(artist_files(ARTISTS));

    for filename in &[
        "artist_alias.csv",
        "artist_name_variation.csv",
        "artist_member.csv",
        "label_hierarchy.csv",
    ] {
        assert_eq!(file(&first, filename), file(&second, filename), "Mismatch in {}", filename);
    }
}

// The files of the whole dump.

/// The content with its records in order.
fn normalize_csv(content: &str) -> String {
    let mut rdr = csv::ReaderBuilder::new()
        .has_headers(true)
        .from_reader(content.as_bytes());

    let headers = rdr.headers().unwrap().clone();
    let mut rows: Vec<Vec<String>> = rdr
        .records()
        .map(|r| {
            let record = r.unwrap();
            record.iter().map(|f| f.to_string()).collect()
        })
        .collect();
    rows.sort();

    let mut wtr = csv::Writer::from_writer(Vec::new());
    wtr.write_record(&headers).unwrap();
    for row in &rows {
        wtr.write_record(row).unwrap();
    }
    wtr.flush().unwrap();
    String::from_utf8(wtr.into_inner().unwrap()).unwrap()
}

fn generate_output() -> Vec<Chunk> {
    let mut releases = Vec::new();
    parse_releases(RELEASES.as_bytes(), None, &mut releases).unwrap();
    let mut csv_output = CsvOutput::new("out");
    for release in &releases {
        CsvOutput::write_release(&mut csv_output, release);
    }
    CsvOutput::flush(&mut csv_output)
}

#[test]
fn test_oracle_release_csv() {
    let actual = file(&generate_output(), "release.csv");
    assert_eq!(normalize_csv(&actual), normalize_csv(EXPECTED_RELEASE));
    assert_eq!(actual, EXPECTED_RELEASE);
}

#[test]
fn test_oracle_release_artist_csv() {
    let actual = file(&generate_output(), "release_artist.csv");
    assert_eq!(normalize_csv(&actual), normalize_csv(EXPECTED_RELEASE_ARTIST));
    assert_eq!(actual, EXPECTED_RELEASE_ARTIST);
}

#[test]
fn test_oracle_release_track_csv() {
    let actual = file(&generate_output(), "release_track.csv");
    assert_eq!(normalize_csv(&actual), normalize_csv(EXPECTED_RELEASE_TRACK));
    assert_eq!(actual, EXPECTED_RELEASE_TRACK);
}

#[test]
fn test_oracle_release_track_artist_csv() {
    let actual = file(&generate_output(), "release_track_artist.csv");
    assert_eq!(normalize_csv(&actual), normalize_csv(EXPECTED_RELEASE_TRACK_ARTIST));
    assert_eq!(actual, EXPECTED_RELEASE_TRACK_ARTIST);
}

#[test]
fn test_oracle_release_label_csv() {
    let actual = file(&generate_output(), "release_label.csv");
    assert_eq!(normalize_csv(&actual), normalize_csv(EXPECTED_RELEASE_LABEL));
    assert_eq!(actual, EXPECTED_RELEASE_LABEL);
}

#[test]
fn test_oracle_release_image_csv() {
    let actual = file(&generate_output(), "release_image.csv");
    assert_eq!(normalize_csv(&actual), normalize_csv(EXPECTED_RELEASE_IMAGE));
    assert_eq!(actual, EXPECTED_RELEASE_IMAGE);
}

#[test]
fn test_referential_integrity() {
    let chunks = generate_output();

    // Load release IDs from release.csv
    let release_ids: HashSet<String> = records(&file(&chunks, "release.csv"))
        .iter()
        .map(|r| r[0].clone())
        .collect();

    // Check all child CSVs
    for (filename, id_col) in &[
        ("release_artist.csv", 0),
        ("release_label.csv", 0),
        ("release_track.csv", 0),
        ("release_track_artist.csv", 0),
        ("release_image.csv", 0),
    ] {
        for record in records(&file(&chunks, filename)) {
            let id = &record[*id_col];
            assert!(
                release_ids.contains(id),
                "Orphan release_id {} in {} not found in release.csv",
                id,
                filename
            );
        }
    }
}

// Conversion from end to end.

#[test]
fn test_missing_artists_xml_in_directory_mode() {
    let roots = vec!["releases".to_string()];
    let files = scan_directory(&roots);
    assert_eq!(files.releases, Some(0));
    assert_eq!(files.artists, None);

    let (_, chunks) = convert(RELEASES, &None, &HashSet::new(), None);
    assert_eq!(count(&chunks, "release.csv"), 16, "All releases should be processed");
    assert!(chunks.iter().all(|c| c.name != "artist_alias.csv"));
}

#[test]
fn test_release_with_many_artists_no_oom() {
    let mut xml = String::from(
        r#"<?xml version="1.0" encoding="UTF-8"?>
<releases>
  <release id="99999" status="Accepted">
    <title>WXYC Compilation Vol. 1</title>
    <artists>
"#,
    );

    for i in 1..=1200 {
        xml.push_str(&format!(
            "      <artist><id>{}</id><name>Artist {}</name><anv></anv><join>,</join></artist>\n",
            i, i
        ));
    }

    xml.push_str(
        r#"    </artists>
    <labels><label catno="WXYC-001" name="WXYC Records" /></labels>
    <formats><format name="CD" qty="1" /></formats>
    <tracklist>
      <track><position>1</position><title>Track 1</title><duration>3:00</duration></track>
    </tracklist>
  </release>
</releases>"#,
    );

    let (_, chunks) = convert(&xml, &None, &HashSet::new(), None);
    assert_eq!(count(&chunks, "release.csv"), 1, "The many-artists release should be written");
    assert_eq!(
        count(&chunks, "release_artist.csv"),
        1200,
        "All 1200 artists should be in release_artist.csv"
    );
}

#[test]
fn test_end_to_end() {
    let (_, chunks) = convert(RELEASES, &None, &HashSet::new(), None);

    for filename in &[
        "release.csv",
        "release_artist.csv",
        "release_label.csv",
        "release_track.csv",
        "release_track_artist.csv",
        "release_image.csv",
    ] {
        assert!(chunks.iter().any(|c| c.name == *filename), "{} should exist", filename);
    }
    assert_eq!(count(&chunks, "release.csv"), 16);
}

#[test]
fn test_with_library_artists_filter() {
    let filter = build_filter(None, Some(LIBRARY_ARTISTS), None, None).unwrap();
    let (_, chunks) = convert(RELEASES, &filter, &HashSet::new(), None);

    // Matching releases: 1001-1003, 3001, 4001 (Autechre=5),
    //   2001, 2002 (Father John Misty=2), 6001 (Nilüfer Yanya=1),
    //   9002 (Duke Ellington & John Coltrane=1)
    // Non-matching: "The Field" != "Field, The" (different normalized forms),
    //   "Various Artists" != "Various", 5001, 5002, 7001, 10001, 10002
    assert_eq!(count(&chunks, "release.csv"), 9, "Expected 9 filtered releases");
}

#[test]
fn cli_tests_test_limit() {
    let (_, chunks) = convert(RELEASES, &None, &HashSet::new(), Some(5));
    assert_eq!(count(&chunks, "release.csv"), 5, "Expected 5 releases with --limit 5");
}

#[test]
fn test_with_library_db_pair_filter() {
    let library = rows(&[
        ("Autechre", "Confield"),
        ("Nilüfer Yanya", "PAINLESS"),
        ("Wrong Artist", "Amber"),
    ]);
    let filter = build_filter(Some(&library), None, None, None).unwrap();
    let (_, chunks) = convert(RELEASES, &filter, &HashSet::new(), None);

    assert_eq!(
        release_ids(&chunks),
        vec![1001, 1002, 1003, 6001],
        "pair-filter should keep exactly the 4 releases whose (artist, title) appears in library.db"
    );
}

#[test]
fn pairs_match_across_diacritics_and_not_by_title_alone() {
    let library = rows(&[
        ("Autechre", "Confield"),
        ("Autechre", "Tri Repetae"),
        ("Nilufer Yanya", "PAINLESS"),
        ("Wrong Artist", "Amber"),
        ("Field, The", "From Here We Go Sublime"),
    ]);
    let filter = build_filter(Some(&library), None, None, None).unwrap();
    let (_, chunks) = convert(RELEASES, &filter, &HashSet::new(), None);
    assert_eq!(release_ids(&chunks), vec![1001, 1002, 1003, 4001, 6001, 9001]);
}

#[test]
fn test_xml_type_flag_processes_as_releases() {
    assert_eq!(DumpKind::for_single_file("releases"), DumpKind::Releases);
    let (_, chunks) = convert(RELEASES, &None, &HashSet::new(), None);
    assert_eq!(
        count(&chunks, "release.csv"),
        16,
        "release.csv should have all 16 fixture releases"
    );
}

#[test]
fn test_gzipped_input() {
    let document = gunzipped(&gzipped(RELEASES));
    let (_, chunks) = convert(&document, &None, &HashSet::new(), None);
    assert_eq!(count(&chunks, "release.csv"), 16);
}

#[test]
fn test_directory_input() {
    let roots = vec!["artists".to_string(), "labels".to_string(), "releases".to_string()];
    let files = scan_directory(&roots);
    assert_eq!(files.artists, Some(0));
    assert_eq!(files.labels, Some(1));
    assert_eq!(files.releases, Some(2));

    let chunks = artist_files(ARTISTS);
    assert!(chunks.iter().any(|c| c.name == "artist_alias.csv"));
    assert!(chunks.iter().any(|c| c.name == "artist_member.csv"));

    let chunks = label_files(LABELS);
    assert_eq!(count(&chunks, "label_hierarchy.csv"), 4, "Expected 4 label hierarchy entries");

    let (_, chunks) = convert(RELEASES, &None, &HashSet::new(), None);
    assert_eq!(count(&chunks, "release.csv"), 16, "Expected 16 releases (no filter)");
}

#[test]
fn test_directory_input_with_alias_filtering() {
    let artists_xml = r#"<?xml version="1.0" encoding="UTF-8"?>
<artists>
  <artist>
    <id>8</id>
    <name>Field, The</name>
    <namevariations>
      <name>The Field</name>
    </namevariations>
  </artist>
</artists>
"#;
    let artists = artist_files(artists_xml);
    let aliases = file(&artists, "artist_alias.csv");
    let variations = file(&artists, "artist_name_variation.csv");
    let filter = build_filter(
        None,
        Some(LIBRARY_ARTISTS),
        Some(aliases.as_bytes()),
        Some(variations.as_bytes()),
    )
    .unwrap();

    let (_, chunks) = convert(RELEASES, &filter, &HashSet::new(), None);
    assert_eq!(
        count(&chunks, "release.csv"),
        10,
        "Expected 10 filtered releases (9 canonical + 1 via alias)"
    );
}

#[test]
fn test_single_file_build_mode() {
    let filter = build_filter(None, Some(LIBRARY_ARTISTS), None, None).unwrap();
    let (_, chunks) = convert(RELEASES, &filter, &HashSet::new(), None);
    assert_eq!(count(&chunks, "release.csv"), 9);
    assert!(chunks.iter().all(|c| c.name != "artist_alias.csv"));
}

// The rows of the database.

fn import_fixture_releases() -> PgOutput {
    let mut releases = Vec::new();
    parse_releases(RELEASES.as_bytes(), None, &mut releases).unwrap();
    let mut output = PgOutput::new(100_000);
    for release in &releases {
        output.write_release(release);
    }
    output
}

fn table(output: &mut PgOutput, name: &str) -> Vec<Vec<String>> {
    let text = String::from_utf8(output.copier.buffer(name).clone()).unwrap();
    text.lines()
        .map(|line| line.split('\t').map(|f| f.to_string()).collect())
        .collect()
}

// release.csv has 16 data rows, but one (id=7001) has empty title and is skipped by PgOutput.
// That leaves 15 releases.
const EXPECTED_RELEASE_COUNT: usize = 15;
const EXPECTED_TRACK_COUNT: usize = 30;

#[test]
fn test_pg_output_full_pipeline() {
    let mut output = import_fixture_releases();
    assert_eq!(table(&mut output, "release").len(), EXPECTED_RELEASE_COUNT);
    assert_eq!(table(&mut output, "release_track").len(), EXPECTED_TRACK_COUNT);
    assert!(table(&mut output, "release_artist").len() >= EXPECTED_RELEASE_COUNT);
    assert!(!table(&mut output, "release_label").is_empty());
    assert!(!table(&mut output, "release_genre").is_empty());
    assert!(!table(&mut output, "release_style").is_empty());
    assert!(!table(&mut output, "release_company").is_empty());
    assert!(table(&mut output, "release_track_artist").len() >= 2);
}

#[test]
fn test_pg_output_artwork_urls() {
    let output = import_fixture_releases();
    assert!(output.artwork[&1001].contains("release-1001"));
    assert!(output.artwork.contains_key(&3001));
    // Release 2001 has only a secondary image
    assert!(output.artwork.contains_key(&2001));
    // Release 1002 has no images
    assert!(!output.artwork.contains_key(&1002));
}

#[test]
fn test_pg_output_release_track_count() {
    let output = import_fixture_releases();
    assert_eq!(output.track_counts[&1001], 3, "Release 1001 should have 3 tracks");
    assert_eq!(output.track_counts[&1002], 5, "Release 1002 should have 5 tracks");
}

#[test]
fn test_pg_output_specific_release_data() {
    let mut output = import_fixture_releases();
    let releases = table(&mut output, "release");
    let release = |id: &str| releases.iter().find(|r| r[0] == id).unwrap().clone();

    assert_eq!(release("1001"), vec!["1001", "Confield", "2001", "UK", "500"]);
    // The date "Unknown" has no year.
    assert_eq!(release("6001")[2], "\\N");
    // No master
    assert_eq!(release("4001")[4], "\\N");
    // An empty date has no year.
    assert_eq!(release("5002")[2], "\\N");

    let credits = table(&mut output, "release_artist");
    let names: Vec<&str> = credits.iter().filter(|r| r[0] == "9002").map(|r| r[2].as_str()).collect();
    assert_eq!(names, vec!["Duke Ellington & John Coltrane"]);
}

#[test]
fn test_pg_output_empty_title_skipped() {
    let mut output = import_fixture_releases();
    assert!(table(&mut output, "release").iter().all(|r| r[0] != "7001"));
}

#[test]
fn test_pg_output_referential_integrity() {
    let mut output = import_fixture_releases();
    let ids: HashSet<String> = table(&mut output, "release").iter().map(|r| r[0].clone()).collect();
    for name in [
        "release_artist",
        "release_label",
        "release_track",
        "release_track_artist",
        "release_genre",
        "release_style",
        "release_company",
    ] {
        for row in table(&mut output, name) {
            assert!(ids.contains(&row[0]), "Table {} should have no orphan release_id references", name);
        }
    }
}

#[test]
fn test_pg_output_with_library_filter() {
    let filter = ArtistFilter::from_file(LIBRARY_ARTISTS);
    let mut releases = Vec::new();
    parse_releases(RELEASES.as_bytes(), None, &mut releases).unwrap();
    let mut output = PgOutput::new(100_000);
    for release in &releases {
        let names: Vec<&str> = release.artists.iter().map(|a| a.name.as_str()).collect();
        if filter.matches_any(&names) {
            output.write_release(release);
        }
    }

    let count = table(&mut output, "release").len();
    assert!(count > 0 && count < EXPECTED_RELEASE_COUNT);
    let credits = table(&mut output, "release_artist");
    assert!(credits.iter().all(|r| r[2] != "DJ Unknown"));
    assert!(credits.iter().any(|r| r[2] == "Autechre"));
}

/// A target that fails on one release, and notes what it is given.
struct Failing {
    on: u64,
    given: Vec<u64>,
    finished: bool,
}

impl ReleaseOutput for Failing {
    type Error = String;

    fn write_release(&mut self, release: &Release) -> Result<(), String> {
        self.given.push(release.id);
        if release.id == self.on {
            Err(format!("no room for {}", release.id))
        } else {
            Ok(())
        }
    }

    fn flush(&mut self) -> Result<(), String> {
        self.finished = true;
        Ok(())
    }

    fn finish(&mut self) -> Result<(), String> {
        self.finished = true;
        Ok(())
    }
}

#[test]
fn a_target_that_failed_is_given_nothing_more() {
    let result = |id: u64| FilterResult::Matched(Box::new(Release { id, ..Default::default() }));
    let results = vec![result(1), FilterResult::Filtered, result(2), result(3), result(4)];
    let mut target = Failing { on: 2, given: Vec::new(), finished: false };
    let mut tally = ReleaseTally::new();
    assert_eq!(tally.write_results(&results, &mut target), Err("no room for 2".to_string()));
    assert_eq!(target.given, vec![1, 2]);
    assert!(!target.finished);
    assert_eq!(tally.written, 2);
    assert_eq!(tally.filtered, 1);
}

#[test]
fn releases_wait_in_the_files_until_they_are_passed_on() {
    let results = vec![
        FilterResult::Matched(Box::new(Release { id: 1, ..Default::default() })),
        FilterResult::Matched(Box::new(Release { id: 2, ..Default::default() })),
    ];
    let mut output = CsvOutput::new("out");
    let mut tally = ReleaseTally::new();
    tally.write_results(&results, &mut output).unwrap();
    assert!(output.outbox.is_empty());
    let waiting = output.csv.files[0].pending.clone();
    let chunks = CsvOutput::flush(&mut output);
    assert_eq!(chunks[0].bytes, waiting);
    assert!(String::from_utf8(waiting).unwrap().ends_with("\n1,,,,,,,,\n2,,,,,,,,\n"));
}

#[test]
fn no_more_releases_than_the_limit_and_the_first_ones() {
    for n in 0..20 {
        let mut all = Vec::new();
        parse_releases(RELEASES.as_bytes(), None, &mut all).unwrap();
        let mut first = Vec::new();
        let count = parse_releases(RELEASES.as_bytes(), Some(n), &mut first).unwrap();
        assert_eq!(count, n.min(all.len()));
        let ids = |releases: &[Release]| releases.iter().map(|r| r.id).collect::<Vec<_>>();
        assert_eq!(ids(&first), ids(&all[..count]));

        let (total, _) = scan(RELEASES.as_bytes(), None, 4, 50);
        let (scanned, batches) = scan(RELEASES.as_bytes(), Some(n), 4, 50);
        assert_eq!(scanned, n.min(total));
        assert_eq!(batches.iter().map(|b| b.len()).sum::<usize>(), scanned);
    }
}

#[test]
fn a_limit_of_zero_does_not_look_at_the_document() {
    let mut releases = Vec::new();
    assert_eq!(parse_releases(b"<releases><release></x>", Some(0), &mut releases).unwrap(), 0);
    assert!(parse_releases(b"<releases><release></x>", Some(1), &mut releases).is_err());
}
