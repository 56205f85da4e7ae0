//! Rows of PostgreSQL tables.

use anyhow::Result;
use discogs_xml_converter::model::{
    Release, ReleaseArtist, ReleaseCompany, ReleaseImage, ReleaseLabel, ReleaseTrack, TrackArtist,
};
use discogs_xml_converter::pg_finish::PgAction;
use discogs_xml_converter::pg_output::{artwork_row, pick_artwork_url, track_count_row, PgOutput};
use wxyc_etl::pg::{
    copy_line, empty_to_none, escape_copy_text, extract_year, write_copy_row, ArtistDedup,
    CopyTarget, LabelDedup, TrackArtistDedup,
};

#[test]
fn test_extract_year_full_date() {
    assert_eq!(extract_year("1997-06-16"), Some(1997));
}

#[test]
fn test_extract_year_year_only() {
    assert_eq!(extract_year("1997"), Some(1997));
}

#[test]
fn test_extract_year_malformed() {
    assert_eq!(extract_year("Unknown"), None);
}

#[test]
fn test_extract_year_empty() {
    assert_eq!(extract_year(""), None);
}

#[test]
fn test_extract_year_partial_digits() {
    assert_eq!(extract_year("199"), None);
}

#[test]
fn test_extract_year_leading_zeros() {
    assert_eq!(extract_year("0001-01-01"), Some(1));
}

#[test]
fn test_empty_to_none_empty() {
    assert_eq!(empty_to_none(""), None);
}

#[test]
fn test_empty_to_none_non_empty() {
    assert_eq!(empty_to_none("hello"), Some("hello"));
}

#[test]
fn test_escape_copy_text_plain() {
    assert_eq!(escape_copy_text("hello world"), "hello world");
}

#[test]
fn test_escape_copy_text_tab() {
    assert_eq!(escape_copy_text("a\tb"), "a\\tb");
}

#[test]
fn test_escape_copy_text_newline() {
    assert_eq!(escape_copy_text("line1\nline2"), "line1\\nline2");
}

#[test]
fn test_escape_copy_text_carriage_return() {
    assert_eq!(escape_copy_text("a\rb"), "a\\rb");
}

#[test]
fn test_escape_copy_text_backslash() {
    assert_eq!(escape_copy_text("path\\to\\file"), "path\\\\to\\\\file");
}

#[test]
fn test_escape_copy_text_mixed() {
    assert_eq!(
        escape_copy_text("line1\nline2\ttab\\slash"),
        "line1\\nline2\\ttab\\\\slash"
    );
}

#[test]
fn test_copy_line_all_values() {
    let line = copy_line(&[Some("1001"), Some("Test Title"), Some("US")]);
    assert_eq!(line, "1001\tTest Title\tUS\n");
}

#[test]
fn test_copy_line_with_nulls() {
    let line = copy_line(&[Some("1001"), None, Some("US")]);
    assert_eq!(line, "1001\t\\N\tUS\n");
}

#[test]
fn test_copy_line_empty_string_becomes_null() {
    let line = copy_line(&[Some("1001"), Some(""), Some("US")]);
    assert_eq!(line, "1001\t\\N\tUS\n");
}

#[test]
fn test_copy_line_with_special_chars() {
    let line = copy_line(&[Some("1"), Some("Title with\ttab"), Some("Note\nline2")]);
    assert_eq!(line, "1\tTitle with\\ttab\tNote\\nline2\n");
}

#[test]
fn test_escape_copy_text_into_plain() {
    let mut buf = Vec::new();
    wxyc_etl::pg::escape_copy_text_into(&mut buf, "hello world");
    assert_eq!(buf, b"hello world");
}

#[test]
fn test_escape_copy_text_into_special_chars() {
    let mut buf = Vec::new();
    wxyc_etl::pg::escape_copy_text_into(&mut buf, "line1\nline2\ttab\\slash\rret");
    assert_eq!(buf, b"line1\\nline2\\ttab\\\\slash\\rret");
}

#[test]
fn test_escape_copy_text_into_matches_escape_copy_text() {
    let cases = ["hello", "a\tb", "a\nb", "a\\b", "a\rb", "mix\t\n\\end"];
    for s in &cases {
        let mut buf = Vec::new();
        wxyc_etl::pg::escape_copy_text_into(&mut buf, s);
        assert_eq!(
            String::from_utf8(buf).unwrap(),
            escape_copy_text(s),
            "Mismatch for input: {:?}",
            s,
        );
    }
}

#[test]
fn test_write_copy_row_all_values() {
    let mut buf = Vec::new();
    write_copy_row(&mut buf, &[Some("1001"), Some("Test Title"), Some("US")]);
    assert_eq!(buf, b"1001\tTest Title\tUS\n");
}

#[test]
fn test_write_copy_row_with_nulls() {
    let mut buf = Vec::new();
    write_copy_row(&mut buf, &[Some("1001"), None, Some("US")]);
    assert_eq!(buf, b"1001\t\\N\tUS\n");
}

#[test]
fn test_write_copy_row_empty_string_becomes_null() {
    let mut buf = Vec::new();
    write_copy_row(&mut buf, &[Some("1001"), Some(""), Some("US")]);
    assert_eq!(buf, b"1001\t\\N\tUS\n");
}

#[test]
fn test_write_copy_row_with_special_chars() {
    let mut buf = Vec::new();
    write_copy_row(
        &mut buf,
        &[Some("1"), Some("Title with\ttab"), Some("Note\nline2")],
    );
    assert_eq!(buf, b"1\tTitle with\\ttab\tNote\\nline2\n");
}

#[test]
fn test_write_copy_row_matches_copy_line() {
    let test_cases: Vec<Vec<Option<&str>>> = vec![
        vec![Some("1001"), Some("Test"), Some("US")],
        vec![Some("1"), None, Some("value")],
        vec![Some("42"), Some(""), Some("end")],
        vec![Some("1"), Some("tab\there"), Some("nl\nhere")],
    ];
    for values in &test_cases {
        let mut buf = Vec::new();
        write_copy_row(&mut buf, values);
        let expected = copy_line(values);
        assert_eq!(
            String::from_utf8(buf).unwrap(),
            expected,
            "Mismatch for values: {:?}",
            values,
        );
    }
}

#[test]
fn test_write_copy_int_u64() {
    let mut buf = Vec::new();
    wxyc_etl::pg::write_copy_int(&mut buf, 12345u64);
    assert_eq!(buf, b"12345");
}

#[test]
fn test_write_copy_int_i16() {
    let mut buf = Vec::new();
    wxyc_etl::pg::write_copy_int(&mut buf, 2001i16);
    assert_eq!(buf, b"2001");
}

#[test]
fn test_write_copy_int_u32() {
    let mut buf = Vec::new();
    wxyc_etl::pg::write_copy_int(&mut buf, 0u32);
    assert_eq!(buf, b"0");
}

#[test]
fn test_artwork_primary_preferred() {
    let images = vec![
        ReleaseImage {
            image_type: "secondary".to_string(),
            width: 300,
            height: 300,
            uri: "https://img.discogs.com/secondary.jpg".to_string(),
        },
        ReleaseImage {
            image_type: "primary".to_string(),
            width: 600,
            height: 600,
            uri: "https://img.discogs.com/primary.jpg".to_string(),
        },
    ];
    assert_eq!(
        pick_artwork_url(&images),
        Some("https://img.discogs.com/primary.jpg")
    );
}

#[test]
fn test_artwork_fallback_to_first() {
    let images = vec![
        ReleaseImage {
            image_type: "secondary".to_string(),
            width: 300,
            height: 300,
            uri: "https://img.discogs.com/secondary.jpg".to_string(),
        },
        ReleaseImage {
            image_type: "secondary".to_string(),
            width: 600,
            height: 600,
            uri: "https://img.discogs.com/another.jpg".to_string(),
        },
    ];
    assert_eq!(
        pick_artwork_url(&images),
        Some("https://img.discogs.com/secondary.jpg")
    );
}

#[test]
fn test_artwork_no_images() {
    let images: Vec<ReleaseImage> = vec![];
    assert_eq!(pick_artwork_url(&images), None);
}

#[test]
fn test_dedup_release_artist() {
    let mut dedup = ArtistDedup::new();
    assert!(dedup.insert((1001, "Autechre".to_string())));
    assert!(dedup.insert((1001, "Boards of Canada".to_string())));
    // Duplicate
    assert!(!dedup.insert((1001, "Autechre".to_string())));
    // Same artist, different release
    assert!(dedup.insert((1002, "Autechre".to_string())));
}

#[test]
fn test_dedup_track_artist() {
    let mut dedup = TrackArtistDedup::new();
    assert!(dedup.insert((1001, 1, "Autechre".to_string())));
    assert!(dedup.insert((1001, 2, "Autechre".to_string())));
    // Duplicate
    assert!(!dedup.insert((1001, 1, "Autechre".to_string())));
    // Same release+track, different artist
    assert!(dedup.insert((1001, 1, "Boards of Canada".to_string())));
}

#[test]
fn test_dedup_label() {
    let mut dedup = LabelDedup::new();
    assert!(dedup.insert((1001, "Warp".to_string())));
    assert!(dedup.insert((1001, "4AD".to_string())));
    // Duplicate
    assert!(!dedup.insert((1001, "Warp".to_string())));
    // Same label, different release
    assert!(dedup.insert((1002, "Warp".to_string())));
}

/// A database that keeps what it is sent.
#[derive(Default)]
struct Sent {
    copies: Vec<(String, String)>,
}

impl CopyTarget for Sent {
    fn copy_in(&mut self, stmt: &str, data: &[u8]) -> Result<()> {
        self.copies.push((stmt.to_string(), String::from_utf8(data.to_vec()).unwrap()));
        Ok(())
    }
}

impl Sent {
    /// The rows of a table in all that was sent.
    fn rows(&self, table: &str) -> Vec<Vec<String>> {
        let head = format!("COPY {} (", table);
        self.copies
            .iter()
            .filter(|(stmt, _)| stmt.starts_with(&head))
            .flat_map(|(_, data)| data.lines())
            .map(|line| line.split('\t').map(|f| f.to_string()).collect())
            .collect()
    }
}

fn write(output: &mut PgOutput, sent: &mut Sent, release: &Release) {
    if output.write_release(release) {
        output.copier.count_and_maybe_flush(sent).unwrap();
    }
}

fn sample_release() -> Release {
    Release {
        id: 1001,
        status: "Accepted".to_string(),
        title: "Confield".to_string(),
        country: "UK".to_string(),
        released: "2001-04-30".to_string(),
        data_quality: "Correct".to_string(),
        master_id: Some(500),
        artists: vec![ReleaseArtist {
            artist_id: 1,
            name: "Autechre".to_string(),
            position: 1,
            ..Default::default()
        }],
        labels: vec![ReleaseLabel {
            name: "Warp".to_string(),
            catno: "WARPCD77".to_string(),
        }],
        tracks: vec![
            ReleaseTrack {
                position: "1".to_string(),
                title: "VI Scose Poise".to_string(),
                duration: "7:36".to_string(),
                ..Default::default()
            },
            ReleaseTrack {
                position: "2".to_string(),
                title: "Cfern".to_string(),
                duration: "5:16".to_string(),
                ..Default::default()
            },
        ],
        images: vec![ReleaseImage {
            image_type: "primary".to_string(),
            width: 600,
            height: 600,
            uri: "https://img.discogs.com/confield.jpg".to_string(),
        }],
        genres: vec!["Electronic".to_string()],
        styles: vec!["IDM".to_string(), "Abstract".to_string()],
        companies: vec![ReleaseCompany {
            company_id: 271046,
            name: "The Globe Studios".to_string(),
            entity_type: 23,
            entity_type_name: "Recorded At".to_string(),
        }],
        ..Default::default()
    }
}

#[test]
fn test_pg_output_single_release() {
    let mut output = PgOutput::new(10000);
    let mut sent = Sent::default();
    write(&mut output, &mut sent, &sample_release());
    assert!(sent.copies.is_empty());
    output.copier.flush(&mut sent).unwrap();

    assert_eq!(sent.rows("release"), vec![vec!["1001", "Confield", "2001", "UK", "500"]]);
    assert_eq!(sent.rows("release_artist"), vec![vec!["1001", "1", "Autechre", "0"]]);
    assert_eq!(sent.rows("release_label"), vec![vec!["1001", "Warp"]]);
    assert_eq!(
        sent.rows("release_track"),
        vec![
            vec!["1001", "1", "1", "VI Scose Poise", "7:36"],
            vec!["1001", "2", "2", "Cfern", "5:16"]
        ]
    );
    assert_eq!(output.artwork[&1001], "https://img.discogs.com/confield.jpg");
    assert_eq!(output.track_counts[&1001], 2);
    assert_eq!(sent.rows("release_genre"), vec![vec!["1001", "Electronic"]]);
    assert_eq!(sent.rows("release_style"), vec![vec!["1001", "IDM"], vec!["1001", "Abstract"]]);
    assert_eq!(
        sent.rows("release_company"),
        vec![vec!["1001", "271046", "The Globe Studios", "23", "Recorded At"]]
    );
}

#[test]
fn test_pg_output_batch_boundary() {
    // Use batch_size=2 to trigger a flush mid-import
    let mut output = PgOutput::new(2);
    let mut sent = Sent::default();

    for i in 1..=5 {
        let release = Release {
            id: i,
            title: format!("Release {}", i),
            artists: vec![ReleaseArtist {
                artist_id: 1,
                name: "Artist".to_string(),
                position: 1,
                ..Default::default()
            }],
            ..Default::default()
        };
        write(&mut output, &mut sent, &release);
    }
    // batch_size=2: flushes at 2, 4; the last flush sends the remaining 1
    assert_eq!(output.total_written(), 4);
    output.copier.flush(&mut sent).unwrap();
    assert_eq!(output.total_written(), 5);

    assert_eq!(sent.rows("release").len(), 5);
}

#[test]
fn test_pg_output_dedup() {
    let mut output = PgOutput::new(10000);
    let mut sent = Sent::default();

    // Release with duplicate artist and duplicate label
    let release = Release {
        id: 1,
        title: "Test".to_string(),
        artists: vec![
            ReleaseArtist {
                artist_id: 1,
                name: "Autechre".to_string(),
                position: 1,
                ..Default::default()
            },
            ReleaseArtist {
                artist_id: 1,
                name: "Autechre".to_string(),
                position: 2,
                ..Default::default()
            },
        ],
        labels: vec![
            ReleaseLabel {
                name: "Warp".to_string(),
                catno: "A".to_string(),
            },
            ReleaseLabel {
                name: "Warp".to_string(),
                catno: "B".to_string(),
            },
        ],
        ..Default::default()
    };
    write(&mut output, &mut sent, &release);
    output.copier.flush(&mut sent).unwrap();

    // Only 1 artist row despite 2 in input (dedup by release_id + artist_name)
    assert_eq!(sent.rows("release_artist").len(), 1);

    // Only 1 label row despite 2 in input (dedup by release_id + label_name)
    assert_eq!(sent.rows("release_label").len(), 1);
}

#[test]
fn test_pg_output_required_skipped() {
    let mut output = PgOutput::new(10000);
    let mut sent = Sent::default();

    // Release with empty title should be skipped
    let release = Release {
        id: 1,
        title: "".to_string(),
        artists: vec![ReleaseArtist {
            artist_id: 1,
            name: "Artist".to_string(),
            position: 1,
            ..Default::default()
        }],
        ..Default::default()
    };
    write(&mut output, &mut sent, &release);
    output.copier.flush(&mut sent).unwrap();

    assert_eq!(sent.rows("release").len(), 0);
    assert!(output.track_counts.is_empty());
}

#[test]
fn a_release_is_sent_before_what_belongs_to_it() {
    let mut output = PgOutput::new(1);
    let mut sent = Sent::default();
    let mut release = sample_release();
    release.tracks[0].artists.push(TrackArtist { name: "Guest".to_string(), ..Default::default() });
    write(&mut output, &mut sent, &release);
    let statements: Vec<&str> = sent.copies.iter().map(|(stmt, _)| stmt.as_str()).collect();
    assert_eq!(
        statements,
        vec![
            "COPY release (id, title, release_year, country, master_id) FROM STDIN",
            "COPY release_artist (release_id, artist_id, artist_name, extra) FROM STDIN",
            "COPY release_label (release_id, label_name) FROM STDIN",
            "COPY release_track (release_id, sequence, position, title, duration) FROM STDIN",
            "COPY release_track_artist (release_id, track_sequence, artist_name) FROM STDIN",
            "COPY release_genre (release_id, genre) FROM STDIN",
            "COPY release_style (release_id, style) FROM STDIN",
            "COPY release_company (release_id, company_id, company_name, entity_type, entity_type_name) FROM STDIN",
        ]
    );
    assert_eq!(sent.rows("release_track_artist"), vec![vec!["1001", "1", "Guest"]]);
}

#[test]
fn values_are_escaped_and_missing_ones_are_null() {
    let mut output = PgOutput::new(10);
    output.write_release(&Release {
        id: 18446744073709551615,
        title: "a\tb\\c\r\nd".to_string(),
        ..Default::default()
    });
    assert_eq!(
        output.copier.buffer("release").as_slice(),
        b"18446744073709551615\ta\\tb\\\\c\\r\\nd\t\\N\t\\N\t\\N\n"
    );
}

#[test]
fn credits_of_one_name_have_one_row_among_main_and_extra_ones() {
    let credit = |id: u64, name: &str| ReleaseArtist {
        artist_id: id,
        name: name.to_string(),
        ..Default::default()
    };
    let mut output = PgOutput::new(10);
    output.write_release(&Release {
        id: 1,
        title: "T".to_string(),
        artists: vec![credit(1, "A"), credit(2, "B")],
        extra_artists: vec![credit(3, "A"), credit(4, "C")],
        ..Default::default()
    });
    assert_eq!(
        output.copier.buffer("release_artist").as_slice(),
        b"1\t1\tA\t0\n1\t2\tB\t0\n1\t4\tC\t1\n"
    );
}

#[test]
fn rows_for_the_end_of_the_import() {
    assert_eq!(artwork_row(7, "https://x/\ty"), b"7\thttps://x/\\ty\n");
    assert_eq!(track_count_row(7, 4294967295), b"7\t4294967295\n");
}

#[test]
fn the_first_of_two_primary_images_is_the_artwork() {
    let image = |kind: &str, uri: &str| ReleaseImage {
        image_type: kind.to_string(),
        uri: uri.to_string(),
        ..Default::default()
    };
    let images = vec![image("secondary", "a"), image("primary", "b"), image("primary", "c")];
    assert_eq!(pick_artwork_url(&images), Some("b"));
    assert_eq!(pick_artwork_url(&vec![image("Primary", "")]), Some(""));
}

#[test]
fn a_year_needs_four_digits_and_may_be_zero() {
    let mut output = PgOutput::new(10);
    for (id, released) in [(1, "0000-00-00"), (2, "12345"), (3, "19x7"), (4, "199"), (5, "٢٠٠١")] {
        output.write_release(&Release {
            id,
            title: "T".to_string(),
            released: released.to_string(),
            ..Default::default()
        });
    }
    assert_eq!(
        output.copier.buffer("release").as_slice(),
        b"1\tT\t0\t\\N\t\\N\n2\tT\t1234\t\\N\t\\N\n3\tT\t\\N\t\\N\t\\N\n\
          4\tT\t\\N\t\\N\t\\N\n5\tT\t\\N\t\\N\t\\N\n"
    );
}

#[test]
fn a_tab_and_a_backslash_with_a_letter_stay_apart() {
    assert_ne!(artwork_row(1, "a\tb"), artwork_row(1, "a\\tb"));
    assert_eq!(artwork_row(1, "a\\tb"), b"1\ta\\\\tb\n");
}

#[test]
fn credits_of_a_track_have_one_row_each_and_tracks_without_a_title_none() {
    let credit = |name: &str| TrackArtist { name: name.to_string(), ..Default::default() };
    let track = |title: &str| ReleaseTrack {
        title: title.to_string(),
        artists: vec![credit("A"), credit("A")],
        extra_artists: vec![credit("A"), credit("B")],
        ..Default::default()
    };
    let mut output = PgOutput::new(10);
    output.write_release(&Release {
        id: 1,
        title: "T".to_string(),
        tracks: vec![track("x"), track(""), track("y")],
        ..Default::default()
    });
    assert_eq!(
        output.copier.buffer("release_track_artist").as_slice(),
        b"1\t1\tA\n1\t1\tB\n1\t3\tA\n1\t3\tB\n"
    );
    assert_eq!(
        output.copier.buffer("release_track").as_slice(),
        b"1\t1\t\\N\tx\t\\N\n1\t3\t\\N\ty\t\\N\n"
    );
    assert_eq!(output.track_counts[&1], 3);
}

/// The statements of actions, with a mark and the rows where rows are sent.
fn written(actions: &[PgAction]) -> Vec<String> {
    actions
        .iter()
        .map(|action| match action {
            PgAction::Execute(statement) => statement.clone(),
            PgAction::Copy(statement, rows) => {
                format!("{} < {}", statement, String::from_utf8(rows.clone()).unwrap())
            }
        })
        .collect()
}

#[test]
fn test_pg_output_cache_metadata() {
    let mut output = PgOutput::new(10);
    output.write_release(&sample_release());
    assert_eq!(
        written(&output.finish()),
        vec![
            "CREATE TEMP TABLE _artwork (release_id integer PRIMARY KEY, artwork_url text NOT NULL)",
            "COPY _artwork (release_id, artwork_url) FROM STDIN < 1001\thttps://img.discogs.com/confield.jpg\n",
            "UPDATE release r SET artwork_url = a.artwork_url FROM _artwork a WHERE r.id = a.release_id",
            "DROP TABLE _artwork",
            "DROP TABLE IF EXISTS release_track_count",
            "CREATE UNLOGGED TABLE release_track_count (release_id integer PRIMARY KEY, track_count integer NOT NULL)",
            "COPY release_track_count (release_id, track_count) FROM STDIN < 1001\t2\n",
            "INSERT INTO cache_metadata (release_id, source) SELECT id, 'bulk_import' FROM release ON CONFLICT (release_id) DO NOTHING",
        ]
    );
}

#[test]
fn without_releases_only_the_tables_are_completed() {
    assert_eq!(
        written(&PgOutput::new(10).finish()),
        vec![
            "DROP TABLE IF EXISTS release_track_count",
            "CREATE UNLOGGED TABLE release_track_count (release_id integer PRIMARY KEY, track_count integer NOT NULL)",
            "INSERT INTO cache_metadata (release_id, source) SELECT id, 'bulk_import' FROM release ON CONFLICT (release_id) DO NOTHING",
        ]
    );
}

#[test]
fn every_track_count_has_one_row() {
    let mut output = PgOutput::new(10);
    for id in 1..=20 {
        let mut release = sample_release();
        release.id = id;
        output.write_release(&release);
    }
    let actions = output.finish();
    let PgAction::Copy(_, rows) = &actions[actions.len() - 2] else {
        panic!("the track counts are sent");
    };
    let text = String::from_utf8(rows.clone()).unwrap();
    let mut lines: Vec<String> = text.lines().map(|l| l.to_string()).collect();
    lines.sort();
    let mut expected: Vec<String> = (1..=20).map(|id| format!("{}\t2", id)).collect();
    expected.sort();
    assert_eq!(lines, expected);
}

#[test]
fn a_run_leaves_the_counts_and_the_artwork_of_its_releases() {
    let image = |image_type: &str, uri: &str| ReleaseImage {
        image_type: image_type.to_string(),
        uri: uri.to_string(),
        ..Default::default()
    };
    let mut bare = sample_release();
    bare.id = 2;
    bare.tracks.clear();
    bare.images.clear();
    let mut pictured = sample_release();
    pictured.id = 3;
    pictured.tracks.truncate(1);
    pictured.images = vec![image("secondary", "back"), image("primary", "front")];
    let mut plain = sample_release();
    plain.id = 4;
    plain.tracks.clear();
    plain.images = vec![image("secondary", "only")];

    // The rows are sent after every second release.
    let mut output = PgOutput::new(2);
    let mut sent = Sent::default();
    for release in [&sample_release(), &bare, &pictured, &plain] {
        write(&mut output, &mut sent, release);
    }
    let ids: Vec<String> = sent.rows("release").iter().map(|r| r[0].clone()).collect();
    assert_eq!(ids, vec!["1001", "2", "3", "4"]);
    assert!(sent.rows("release_artist").iter().all(|r| ids.contains(&r[0])));

    let mut counts: Vec<(u64, u32)> = output.track_counts.iter().map(|(k, v)| (*k, *v)).collect();
    counts.sort();
    assert_eq!(counts, vec![(3, 1), (1001, 2)]);
    let mut artwork: Vec<(u64, &str)> =
        output.artwork.iter().map(|(k, v)| (*k, v.as_str())).collect();
    artwork.sort();
    assert_eq!(
        artwork,
        vec![(3, "front"), (4, "only"), (1001, "https://img.discogs.com/confield.jpg")]
    );

    let actions = output.finish();
    let rows_of = |action: &PgAction| match action {
        PgAction::Copy(_, rows) => {
            let mut lines: Vec<String> =
                String::from_utf8(rows.clone()).unwrap().lines().map(|l| l.to_string()).collect();
            lines.sort();
            lines
        }
        PgAction::Execute(_) => panic!("rows are sent"),
    };
    assert_eq!(rows_of(&actions[actions.len() - 2]), vec!["1001\t2", "3\t1"]);
    assert_eq!(
        rows_of(&actions[1]),
        vec!["1001\thttps://img.discogs.com/confield.jpg", "3\tfront", "4\tonly"]
    );
}
