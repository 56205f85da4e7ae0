//! The CSV files of releases, artists, labels and masters.

use discogs_xml_converter::artist_model::{Artist, Member};
use discogs_xml_converter::artist_writer::ArtistCsvOutput;
use discogs_xml_converter::csv_file::Chunk;
use discogs_xml_converter::label_model::Label;
use discogs_xml_converter::label_writer::LabelCsvOutput;
use discogs_xml_converter::master_model::{Master, MasterArtist};
use discogs_xml_converter::master_writer::MasterCsvOutput;
use discogs_xml_converter::model::{
    Format, Release, ReleaseArtist, ReleaseCompany, ReleaseImage, ReleaseLabel, ReleaseTrack,
    TrackArtist,
};
use discogs_xml_converter::output::ReleaseOutput;
use discogs_xml_converter::writer::CsvOutput;

fn bytes<'a>(chunks: &'a [Chunk], name: &str) -> &'a [u8] {
    &chunks.iter().find(|c| c.name == name).unwrap().bytes
}

fn text(chunks: &[Chunk], name: &str) -> String {
    String::from_utf8(bytes(chunks, name).to_vec()).unwrap()
}

fn headers(chunks: &[Chunk], name: &str) -> Vec<String> {
    let mut rdr = csv::Reader::from_reader(bytes(chunks, name));
    rdr.headers().unwrap().iter().map(|s| s.to_string()).collect()
}

fn records(chunks: &[Chunk], name: &str) -> Vec<csv::StringRecord> {
    let mut rdr = csv::Reader::from_reader(bytes(chunks, name));
    rdr.records().map(|r| r.unwrap()).collect()
}

fn sample_release() -> Release {
    Release {
        id: 1001,
        status: "Accepted".to_string(),
        title: "OK Computer".to_string(),
        country: "UK".to_string(),
        released: "1997-06-16".to_string(),
        notes: "".to_string(),
        data_quality: "Correct".to_string(),
        master_id: Some(500),
        formats: vec![Format {
            name: "CD".to_string(),
            qty: 1,
        }],
        artists: vec![ReleaseArtist {
            artist_id: 1,
            name: "Radiohead".to_string(),
            anv: "".to_string(),
            join_field: "".to_string(),
            position: 1,
        }],
        extra_artists: vec![ReleaseArtist {
            artist_id: 12,
            name: "Some Producer".to_string(),
            anv: "".to_string(),
            join_field: "".to_string(),
            position: 2,
        }],
        labels: vec![
            ReleaseLabel {
                name: "Parlophone".to_string(),
                catno: "7243 8 55229 2 8".to_string(),
            },
            ReleaseLabel {
                name: "Capitol Records".to_string(),
                catno: "CDP 7243 8 55229 2 8".to_string(),
            },
        ],
        tracks: vec![
            ReleaseTrack {
                position: "1".to_string(),
                title: "Airbag".to_string(),
                duration: "4:44".to_string(),
                artists: vec![],
                extra_artists: vec![],
            },
            ReleaseTrack {
                position: "2".to_string(),
                title: "Paranoid Android".to_string(),
                duration: "6:23".to_string(),
                artists: vec![],
                extra_artists: vec![],
            },
            ReleaseTrack {
                position: "3".to_string(),
                title: "Subterranean Homesick Alien".to_string(),
                duration: "4:27".to_string(),
                artists: vec![],
                extra_artists: vec![],
            },
        ],
        images: vec![
            ReleaseImage {
                image_type: "primary".to_string(),
                width: 600,
                height: 600,
                uri: "https://img.discogs.com/abc123/release-1001.jpg".to_string(),
            },
            ReleaseImage {
                image_type: "secondary".to_string(),
                width: 300,
                height: 300,
                uri: "https://img.discogs.com/abc123/release-1001-back.jpg".to_string(),
            },
        ],
        genres: vec!["Electronic".to_string(), "Rock".to_string()],
        styles: vec!["Alternative Rock".to_string(), "Art Rock".to_string()],
        companies: vec![ReleaseCompany {
            company_id: 271046,
            name: "The Globe Studios".to_string(),
            entity_type: 23,
            entity_type_name: "Recorded At".to_string(),
        }],
        ..Default::default()
    }
}

fn sample_artist() -> Artist {
    Artist {
        id: 123,
        name: "P. Diddy".to_string(),
        profile: "American rapper, singer, record producer, and entrepreneur.".to_string(),
        name_variations: vec!["P Diddy".to_string(), "Puff Daddy".to_string()],
        aliases: vec!["Sean Combs".to_string(), "Diddy".to_string()],
        members: vec![Member {
            id: 1001,
            name: "Member One".to_string(),
        }],
        urls: vec![
            "https://en.wikipedia.org/wiki/Sean_Combs".to_string(),
            "https://www.diddy.com/".to_string(),
        ],
    }
}

#[test]
fn writer_test_csv_headers() {
    let mut output = CsvOutput::new("out");
    let chunks = CsvOutput::flush(&mut output);

    // Read back headers from each file
    let check_header = |filename: &str, expected: &[&str]| {
        let found = headers(&chunks, filename);
        let expected: Vec<String> = expected.iter().map(|s| s.to_string()).collect();
        assert_eq!(found, expected, "Headers mismatch for {}", filename);
    };

    check_header(
        "release.csv",
        &[
            "id",
            "status",
            "title",
            "country",
            "released",
            "notes",
            "data_quality",
            "master_id",
            "format",
        ],
    );
    check_header(
        "release_artist.csv",
        &[
            "release_id",
            "artist_id",
            "artist_name",
            "extra",
            "anv",
            "position",
            "join_field",
        ],
    );
    check_header("release_label.csv", &["release_id", "label", "catno"]);
    check_header(
        "release_track.csv",
        &["release_id", "sequence", "position", "title", "duration"],
    );
    check_header(
        "release_track_artist.csv",
        &["release_id", "track_sequence", "artist_name"],
    );
    check_header(
        "release_image.csv",
        &["release_id", "type", "width", "height", "uri"],
    );
    check_header("release_genre.csv", &["release_id", "genre"]);
    check_header("release_style.csv", &["release_id", "style"]);
    check_header(
        "release_company.csv",
        &[
            "release_id",
            "company_id",
            "company_name",
            "entity_type",
            "entity_type_name",
        ],
    );
}

#[test]
fn test_write_release_basic() {
    let mut output = CsvOutput::new("out");
    CsvOutput::write_release(&mut output, &sample_release());
    let chunks = CsvOutput::flush(&mut output);

    // Check release.csv
    let rows = records(&chunks, "release.csv");
    assert_eq!(rows.len(), 1);
    assert_eq!(&rows[0][0], "1001");
    assert_eq!(&rows[0][2], "OK Computer");
    assert_eq!(&rows[0][7], "500");
    assert_eq!(&rows[0][8], "CD");

    // Check release_artist.csv (1 main + 1 extra = 2)
    let rows = records(&chunks, "release_artist.csv");
    assert_eq!(rows.len(), 2);
    assert_eq!(&rows[0][2], "Radiohead");
    assert_eq!(&rows[0][3], "0"); // extra=0
    assert_eq!(&rows[1][2], "Some Producer");
    assert_eq!(&rows[1][3], "1"); // extra=1

    // Check tracks
    let rows = records(&chunks, "release_track.csv");
    assert_eq!(rows.len(), 3);
    assert_eq!(&rows[0][1], "1"); // sequence
    assert_eq!(&rows[0][3], "Airbag");

    // Check genres
    let rows = records(&chunks, "release_genre.csv");
    assert_eq!(rows.len(), 2);
    assert_eq!(&rows[0][0], "1001");
    assert_eq!(&rows[0][1], "Electronic");
    assert_eq!(&rows[1][1], "Rock");

    // Check styles
    let rows = records(&chunks, "release_style.csv");
    assert_eq!(rows.len(), 2);
    assert_eq!(&rows[0][0], "1001");
    assert_eq!(&rows[0][1], "Alternative Rock");
    assert_eq!(&rows[1][1], "Art Rock");

    // Check companies
    let rows = records(&chunks, "release_company.csv");
    assert_eq!(rows.len(), 1);
    assert_eq!(&rows[0][0], "1001");
    assert_eq!(&rows[0][1], "271046");
    assert_eq!(&rows[0][2], "The Globe Studios");
    assert_eq!(&rows[0][3], "23");
    assert_eq!(&rows[0][4], "Recorded At");
}

#[test]
fn test_rfc4180_quoting() {
    let mut output = CsvOutput::new("out");

    let release = Release {
        id: 9999,
        status: "Accepted".to_string(),
        title: "Title with \"quotes\"".to_string(),
        notes: "Line 1\nLine 2".to_string(),
        artists: vec![ReleaseArtist {
            artist_id: 1,
            name: "Beatles, The".to_string(),
            position: 1,
            ..Default::default()
        }],
        ..Default::default()
    };

    CsvOutput::write_release(&mut output, &release);
    let chunks = CsvOutput::flush(&mut output);

    // Read back and verify the values survived round-trip
    let record = &records(&chunks, "release.csv")[0];
    assert_eq!(&record[2], "Title with \"quotes\"");
    assert_eq!(&record[5], "Line 1\nLine 2");

    let record = &records(&chunks, "release_artist.csv")[0];
    assert_eq!(&record[2], "Beatles, The");
}

#[test]
fn test_track_artists_written() {
    let mut output = CsvOutput::new("out");

    let release = Release {
        id: 8001,
        artists: vec![ReleaseArtist {
            artist_id: 7,
            name: "Various".to_string(),
            position: 1,
            ..Default::default()
        }],
        tracks: vec![
            ReleaseTrack {
                position: "A1".to_string(),
                title: "Rapper's Delight".to_string(),
                duration: "14:35".to_string(),
                artists: vec![TrackArtist {
                    name: "Sugarhill Gang".to_string(),
                    ..Default::default()
                }],
                extra_artists: vec![],
            },
            ReleaseTrack {
                position: "A2".to_string(),
                title: "Apache".to_string(),
                duration: "5:35".to_string(),
                artists: vec![TrackArtist {
                    name: "Incredible Bongo Band".to_string(),
                    ..Default::default()
                }],
                extra_artists: vec![],
            },
        ],
        ..Default::default()
    };

    CsvOutput::write_release(&mut output, &release);
    let chunks = CsvOutput::flush(&mut output);

    let rows = records(&chunks, "release_track_artist.csv");
    assert_eq!(rows.len(), 2);
    assert_eq!(&rows[0][0], "8001"); // release_id
    assert_eq!(&rows[0][1], "1"); // track_sequence
    assert_eq!(&rows[0][2], "Sugarhill Gang");
    assert_eq!(&rows[1][1], "2");
    assert_eq!(&rows[1][2], "Incredible Bongo Band");
}

#[test]
fn test_determinism() {
    let release = sample_release();

    let mut out1 = CsvOutput::new("one");
    CsvOutput::write_release(&mut out1, &release);
    let chunks1 = CsvOutput::flush(&mut out1);

    let mut out2 = CsvOutput::new("two");
    CsvOutput::write_release(&mut out2, &release);
    let chunks2 = CsvOutput::flush(&mut out2);

    for filename in &[
        "release.csv",
        "release_artist.csv",
        "release_label.csv",
        "release_track.csv",
        "release_track_artist.csv",
        "release_image.csv",
        "release_genre.csv",
        "release_style.csv",
        "release_company.csv",
    ] {
        let content1 = text(&chunks1, filename);
        let content2 = text(&chunks2, filename);
        assert_eq!(
            content1, content2,
            "Non-deterministic output for {}",
            filename
        );
    }
}

#[test]
fn test_write_artist_profile() {
    let mut output = ArtistCsvOutput::new();
    output.write_artist(&sample_artist());
    let chunks = output.flush();

    let rows = records(&chunks, "artist.csv");
    assert_eq!(rows.len(), 1);
    assert_eq!(&rows[0][0], "123");
    assert_eq!(&rows[0][1], "P. Diddy");
    assert_eq!(
        &rows[0][2],
        "American rapper, singer, record producer, and entrepreneur."
    );
}

#[test]
fn test_skip_empty_profile() {
    let mut output = ArtistCsvOutput::new();
    let artist = Artist {
        id: 999,
        name: "No Profile".to_string(),
        profile: String::new(),
        ..Default::default()
    };
    output.write_artist(&artist);
    let chunks = output.flush();

    let rows = records(&chunks, "artist.csv");
    assert_eq!(rows.len(), 0);
}

#[test]
fn artist_writer_test_csv_headers() {
    let mut output = ArtistCsvOutput::new();
    let chunks = output.flush();

    let found = headers(&chunks, "artist_alias.csv");
    assert_eq!(found, vec!["artist_id", "artist_name", "alias_name"]);

    let found = headers(&chunks, "artist_member.csv");
    assert_eq!(
        found,
        vec![
            "group_artist_id",
            "group_name",
            "member_artist_id",
            "member_name"
        ]
    );
}

#[test]
fn test_write_artist_aliases() {
    let mut output = ArtistCsvOutput::new();
    output.write_artist(&sample_artist());
    let chunks = output.flush();

    let rows = records(&chunks, "artist_alias.csv");
    // 2 aliases ONLY; name variations now land in artist_name_variation.csv.
    assert_eq!(rows.len(), 2);
    assert_eq!(&rows[0][0], "123");
    assert_eq!(&rows[0][1], "P. Diddy");
    assert_eq!(&rows[0][2], "Sean Combs");
    assert_eq!(&rows[1][2], "Diddy");
}

#[test]
fn test_write_artist_name_variations() {
    let mut output = ArtistCsvOutput::new();
    output.write_artist(&sample_artist());
    let chunks = output.flush();

    let found = headers(&chunks, "artist_name_variation.csv");
    assert_eq!(found, vec!["artist_id", "name"]);

    let rows = records(&chunks, "artist_name_variation.csv");
    assert_eq!(rows.len(), 2);
    assert_eq!(&rows[0][0], "123");
    assert_eq!(&rows[0][1], "P Diddy");
    assert_eq!(&rows[1][0], "123");
    assert_eq!(&rows[1][1], "Puff Daddy");
}

#[test]
fn test_name_variations_isolated_from_aliases() {
    let mut output = ArtistCsvOutput::new();
    let artist = Artist {
        id: 7,
        name: "Solo".to_string(),
        profile: String::new(),
        name_variations: vec!["Solo (var)".to_string()],
        aliases: vec![],
        members: vec![],
        urls: vec![],
    };
    output.write_artist(&artist);
    let chunks = output.flush();

    let aliases = records(&chunks, "artist_alias.csv");
    assert!(
        aliases.is_empty(),
        "name_variation must not leak into artist_alias"
    );

    let nvs = records(&chunks, "artist_name_variation.csv");
    assert_eq!(nvs.len(), 1);
    assert_eq!(&nvs[0][1], "Solo (var)");
}

#[test]
fn test_write_artist_urls() {
    let mut output = ArtistCsvOutput::new();
    output.write_artist(&sample_artist());
    let chunks = output.flush();

    let found = headers(&chunks, "artist_url.csv");
    assert_eq!(found, vec!["artist_id", "url"]);

    let rows = records(&chunks, "artist_url.csv");
    assert_eq!(rows.len(), 2);
    assert_eq!(&rows[0][0], "123");
    assert_eq!(&rows[0][1], "https://en.wikipedia.org/wiki/Sean_Combs");
    assert_eq!(&rows[1][0], "123");
    assert_eq!(&rows[1][1], "https://www.diddy.com/");
}

#[test]
fn test_skip_empty_urls() {
    let mut output = ArtistCsvOutput::new();
    let artist = Artist {
        id: 42,
        name: "No URLs".to_string(),
        urls: vec![],
        ..Default::default()
    };
    output.write_artist(&artist);
    let chunks = output.flush();

    let rows = records(&chunks, "artist_url.csv");
    assert!(rows.is_empty());
}

#[test]
fn test_write_artist_members() {
    let mut output = ArtistCsvOutput::new();
    output.write_artist(&sample_artist());
    let chunks = output.flush();

    let rows = records(&chunks, "artist_member.csv");
    assert_eq!(rows.len(), 1);
    assert_eq!(&rows[0][0], "123");
    assert_eq!(&rows[0][1], "P. Diddy");
    assert_eq!(&rows[0][2], "1001");
    assert_eq!(&rows[0][3], "Member One");
}

#[test]
fn label_writer_test_csv_headers() {
    let mut output = LabelCsvOutput::new();
    let chunks = output.flush();

    let found = headers(&chunks, "label_hierarchy.csv");
    assert_eq!(
        found,
        vec![
            "label_id",
            "label_name",
            "parent_label_id",
            "parent_label_name"
        ]
    );
}

#[test]
fn test_write_label_with_parent() {
    let mut output = LabelCsvOutput::new();

    let label = Label {
        id: 2,
        name: "Parlophone".to_string(),
        parent_id: Some(1),
        parent_name: "EMI".to_string(),
    };
    output.write_label(&label);
    let chunks = output.flush();

    let rows = records(&chunks, "label_hierarchy.csv");
    assert_eq!(rows.len(), 1);
    assert_eq!(&rows[0][0], "2");
    assert_eq!(&rows[0][1], "Parlophone");
    assert_eq!(&rows[0][2], "1");
    assert_eq!(&rows[0][3], "EMI");
}

#[test]
fn test_write_label_without_parent() {
    let mut output = LabelCsvOutput::new();

    let label = Label {
        id: 4,
        name: "Sub Pop".to_string(),
        parent_id: None,
        parent_name: "".to_string(),
    };
    output.write_label(&label);
    let chunks = output.flush();

    let rows = records(&chunks, "label_hierarchy.csv");
    assert_eq!(
        rows.len(),
        0,
        "Labels without parents should not be written"
    );
}

#[test]
fn master_writer_test_csv_headers() {
    let mut output = MasterCsvOutput::new();
    let chunks = output.flush();

    let found = headers(&chunks, "master.csv");
    assert_eq!(found, vec!["id", "title", "main_release_id", "year"]);

    let found = headers(&chunks, "master_artist.csv");
    assert_eq!(found, vec!["master_id", "artist_id", "artist_name"]);
}

#[test]
fn test_write_master() {
    let mut output = MasterCsvOutput::new();

    let master = Master {
        id: 100,
        title: "Aluminum Tunes".to_string(),
        main_release_id: Some(1001),
        year: Some(1998),
        artists: vec![MasterArtist {
            id: 3000,
            name: "Stereolab".to_string(),
        }],
    };
    output.write_master(&master);
    let chunks = output.flush();

    let rows = records(&chunks, "master.csv");
    assert_eq!(rows.len(), 1);
    assert_eq!(&rows[0][0], "100");
    assert_eq!(&rows[0][1], "Aluminum Tunes");
    assert_eq!(&rows[0][2], "1001");
    assert_eq!(&rows[0][3], "1998");
}

#[test]
fn test_write_master_artists() {
    let mut output = MasterCsvOutput::new();

    let master = Master {
        id: 300,
        title: "Duke Ellington & John Coltrane".to_string(),
        main_release_id: Some(3001),
        year: Some(1963),
        artists: vec![
            MasterArtist { id: 5000, name: "Duke Ellington".to_string() },
            MasterArtist { id: 5001, name: "John Coltrane".to_string() },
        ],
    };
    output.write_master(&master);
    let chunks = output.flush();

    let rows = records(&chunks, "master_artist.csv");
    assert_eq!(rows.len(), 2);
    assert_eq!(&rows[0][0], "300");
    assert_eq!(&rows[0][2], "Duke Ellington");
    assert_eq!(&rows[1][2], "John Coltrane");
}

#[test]
fn test_write_master_without_optionals() {
    let mut output = MasterCsvOutput::new();

    let master = Master {
        id: 500,
        title: "Pequena Vertigem de Amor".to_string(),
        main_release_id: None,
        year: None,
        artists: vec![MasterArtist { id: 7000, name: "Sessa".to_string() }],
    };
    output.write_master(&master);
    let chunks = output.flush();

    let rows = records(&chunks, "master.csv");
    assert_eq!(&rows[0][2], ""); // main_release_id empty
    assert_eq!(&rows[0][3], ""); // year empty
}

#[test]
fn a_file_is_its_header_and_its_records() {
    let mut output = LabelCsvOutput::new();
    output.write_label(&Label {
        id: 2,
        name: "Parlophone, \"Ltd\"".to_string(),
        parent_id: Some(18446744073709551615),
        parent_name: "E\nM\rI".to_string(),
    });
    output.write_label(&Label { id: 3, name: "Capitol".to_string(), parent_id: Some(1), parent_name: String::new() });
    let chunks = output.flush();
    assert_eq!(
        text(&chunks, "label_hierarchy.csv"),
        "label_id,label_name,parent_label_id,parent_label_name\n\
         2,\"Parlophone, \"\"Ltd\"\"\",18446744073709551615,\"E\nM\rI\"\n\
         3,Capitol,1,\n"
    );
}

#[test]
fn what_was_handed_over_is_not_handed_over_again() {
    let mut output = CsvOutput::new("out");
    let first = CsvOutput::flush(&mut output);
    assert_eq!(first.len(), 9);
    assert_eq!(text(&first, "release_genre.csv"), "release_id,genre\n");
    CsvOutput::write_release(&mut output, &sample_release());
    let second = CsvOutput::flush(&mut output);
    assert_eq!(text(&second, "release_genre.csv"), "1001,Electronic\n1001,Rock\n");
    let third = CsvOutput::flush(&mut output);
    assert!(third.iter().all(|c| c.bytes.is_empty()));
    assert_eq!(output.output_dir(), "out");
}

#[test]
fn a_csv_target_passes_on_what_waits() {
    let mut output = CsvOutput::new("out");
    assert!(output.outbox.is_empty());
    assert_eq!(ReleaseOutput::write_release(&mut output, &sample_release()), Ok(()));
    assert!(output.outbox.is_empty());
    assert_eq!(ReleaseOutput::flush(&mut output), Ok(()));
    assert_eq!(output.outbox.len(), 9);
    assert_eq!(
        text(&output.outbox, "release_genre.csv"),
        "release_id,genre\n1001,Electronic\n1001,Rock\n"
    );
    assert!(output.csv.files.iter().all(|file| file.pending.is_empty()));

    assert_eq!(ReleaseOutput::write_release(&mut output, &sample_release()), Ok(()));
    assert_eq!(ReleaseOutput::finish(&mut output), Ok(()));
    assert_eq!(output.outbox.len(), 18);
    assert_eq!(text(&output.outbox[9..], "release_genre.csv"), "1001,Electronic\n1001,Rock\n");
    assert!(output.csv.files.iter().all(|file| file.pending.is_empty()));
}

#[test]
fn what_was_passed_on_is_handed_over_first() {
    let mut output = CsvOutput::new("out");
    assert_eq!(ReleaseOutput::flush(&mut output), Ok(()));
    CsvOutput::write_release(&mut output, &sample_release());
    let chunks = CsvOutput::flush(&mut output);
    assert_eq!(chunks.len(), 18);
    assert_eq!(text(&chunks[..9], "release_genre.csv"), "release_id,genre\n");
    assert_eq!(text(&chunks[9..], "release_genre.csv"), "1001,Electronic\n1001,Rock\n");
    assert!(output.outbox.is_empty());
}

#[test]
fn a_release_has_one_record_and_empty_fields_stay_empty() {
    let mut output = CsvOutput::new("out");
    CsvOutput::write_release(&mut output, &Release { id: 3, ..Default::default() });
    let chunks = CsvOutput::flush(&mut output);
    assert_eq!(
        text(&chunks, "release.csv"),
        "id,status,title,country,released,notes,data_quality,master_id,format\n3,,,,,,,,\n"
    );
    assert_eq!(records(&chunks, "release_artist.csv").len(), 0);
}

#[test]
fn formats_are_joined() {
    let release = Release {
        formats: vec![
            Format { name: "CD".to_string(), qty: 1 },
            Format { name: "LP".to_string(), qty: 2 },
            Format { name: "File".to_string(), qty: 0 },
        ],
        ..Default::default()
    };
    assert_eq!(release.format_string(), "CD, 2xLP, File");
    assert_eq!(Release::default().format_string(), "");
}

#[test]
fn main_credits_of_a_track_come_before_extra_ones() {
    let mut output = CsvOutput::new("out");
    let credit = |name: &str| TrackArtist { name: name.to_string(), ..Default::default() };
    let release = Release {
        id: 4,
        tracks: vec![
            ReleaseTrack {
                artists: vec![credit("A"), credit("B")],
                extra_artists: vec![credit("C")],
                ..Default::default()
            },
            ReleaseTrack { artists: vec![credit("D")], ..Default::default() },
        ],
        ..Default::default()
    };
    CsvOutput::write_release(&mut output, &release);
    let chunks = CsvOutput::flush(&mut output);
    assert_eq!(
        text(&chunks, "release_track_artist.csv"),
        "release_id,track_sequence,artist_name\n4,1,A\n4,1,B\n4,1,C\n4,2,D\n"
    );
}

#[test]
fn every_byte_written_is_handed_over_once() {
    let mut output = ArtistCsvOutput::new();
    assert!(output.csv.files.iter().all(|file| !file.pending.is_empty()));
    let first = output.flush();
    output.write_artist(&sample_artist());
    let waiting: Vec<Vec<u8>> = output.csv.files.iter().map(|file| file.pending.clone()).collect();
    let second = output.flush();
    assert!(second.iter().zip(&waiting).all(|(chunk, bytes)| &chunk.bytes == bytes));

    let mut whole = ArtistCsvOutput::new();
    whole.write_artist(&sample_artist());
    for (i, chunk) in whole.flush().iter().enumerate() {
        assert_eq!(chunk.bytes, [first[i].bytes.clone(), second[i].bytes.clone()].concat());
    }
}

#[test]
fn labels_and_masters_are_handed_over_with_their_headers() {
    let mut labels = LabelCsvOutput::new();
    labels.write_label(&Label {
        id: 2,
        name: "Parlophone".to_string(),
        parent_id: Some(1),
        parent_name: "EMI".to_string(),
    });
    assert_eq!(
        text(&labels.flush(), "label_hierarchy.csv"),
        "label_id,label_name,parent_label_id,parent_label_name\n2,Parlophone,1,EMI\n"
    );
    assert!(labels.flush()[0].bytes.is_empty());

    let mut masters = MasterCsvOutput::new();
    masters.write_master(&Master {
        id: 7,
        title: "T".to_string(),
        artists: vec![MasterArtist { id: 3, name: "A".to_string(), ..Default::default() }],
        ..Default::default()
    });
    let chunks = masters.flush();
    assert_eq!(text(&chunks, "master_artist.csv"), "master_id,artist_id,artist_name\n7,3,A\n");
    assert!(text(&chunks, "master.csv").starts_with("id,title,main_release_id,year\n7,T,"));
    assert!(masters.flush().iter().all(|chunk| chunk.bytes.is_empty()));
}
