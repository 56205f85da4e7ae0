//! Releases as CSV files.
//!
//! Nine files: release.csv, release_artist.csv, release_label.csv, release_track.csv,
//! release_track_artist.csv, release_image.csv, release_genre.csv, release_style.csv
//! and release_company.csv.

use crate::csv_file;
use crate::csv_file::{Chunk, CsvFiles};
use crate::csv_laws;
use crate::model;
use crate::model::{
    Release, ReleaseArtist, ReleaseCompany, ReleaseImage, ReleaseLabel, ReleaseTrack, TrackArtist,
};
use crate::output::{OutgoingView, ReleaseOutput};
use crate::text;
use vstd::prelude::*;

verus! {

/// The number of files.
pub const FILES: usize = 9;

/// A record of a CSV file.
pub type Row = Seq<Seq<char>>;

/// The names of the files.
pub open spec fn release_file_names() -> Seq<Seq<char>> {
    seq![
        "release.csv"@,
        "release_artist.csv"@,
        "release_label.csv"@,
        "release_track.csv"@,
        "release_track_artist.csv"@,
        "release_image.csv"@,
        "release_genre.csv"@,
        "release_style.csv"@,
        "release_company.csv"@,
    ]
}

/// The headers of the files.
pub open spec fn release_headers() -> Seq<Row> {
    seq![
        seq![
            "id"@,
            "status"@,
            "title"@,
            "country"@,
            "released"@,
            "notes"@,
            "data_quality"@,
            "master_id"@,
            "format"@,
        ],
        seq![
            "release_id"@,
            "artist_id"@,
            "artist_name"@,
            "extra"@,
            "anv"@,
            "position"@,
            "join_field"@,
        ],
        seq!["release_id"@, "label"@, "catno"@],
        seq!["release_id"@, "sequence"@, "position"@, "title"@, "duration"@],
        seq!["release_id"@, "track_sequence"@, "artist_name"@],
        seq!["release_id"@, "type"@, "width"@, "height"@, "uri"@],
        seq!["release_id"@, "genre"@],
        seq!["release_id"@, "style"@],
        seq!["release_id"@, "company_id"@, "company_name"@, "entity_type"@, "entity_type_name"@],
    ]
}

/// A number in decimal, or nothing.
pub open spec fn optional_decimal(n: Option<u64>) -> Seq<char> {
    match n {
        Some(n) => text::decimal(n as nat),
        None => Seq::empty(),
    }
}

/// The record of a release in release.csv.
pub open spec fn release_row(release: model::ReleaseView) -> Row {
    seq![
        text::decimal(release.id as nat),
        release.status,
        release.title,
        release.country,
        release.released,
        release.notes,
        release.data_quality,
        optional_decimal(release.master_id),
        model::formats_text(release.formats),
    ]
}

/// The record of an artist credit in release_artist.csv.
pub open spec fn artist_row(id: u64, artist: model::ReleaseArtistView, extra: Seq<char>) -> Row {
    seq![
        text::decimal(id as nat),
        text::decimal(artist.artist_id as nat),
        artist.name,
        extra,
        artist.anv,
        text::decimal(artist.position as nat),
        artist.join_field,
    ]
}

/// The records of a list of artist credits.
pub open spec fn artist_rows(
    id: u64,
    artists: Seq<model::ReleaseArtistView>,
    extra: Seq<char>,
) -> Seq<Row> {
    artists.map_values(|artist: model::ReleaseArtistView| artist_row(id, artist, extra))
}

/// The records of a list of labels.
pub open spec fn label_rows(id: u64, labels: Seq<model::ReleaseLabelView>) -> Seq<Row> {
    labels.map_values(
        |label: model::ReleaseLabelView| seq![text::decimal(id as nat), label.name, label.catno],
    )
}

/// The records of a list of tracks. The first has the sequence number one.
pub open spec fn track_rows(id: u64, tracks: Seq<model::ReleaseTrackView>) -> Seq<Row> {
    Seq::new(
        tracks.len(),
        |i: int|
            seq![
                text::decimal(id as nat),
                text::decimal((i + 1) as nat),
                tracks[i].position,
                tracks[i].title,
                tracks[i].duration,
            ],
    )
}

/// The records of the artist credits of one track.
pub open spec fn track_credit_rows(
    id: u64,
    sequence: nat,
    artists: Seq<model::TrackArtistView>,
) -> Seq<Row> {
    artists.map_values(
        |artist: model::TrackArtistView|
            seq![text::decimal(id as nat), text::decimal(sequence), artist.name],
    )
}

/// The records of the artist credits of a list of tracks: of each track first its main
/// and then its extra credits.
pub open spec fn track_artist_rows(id: u64, tracks: Seq<model::ReleaseTrackView>) -> Seq<Row>
    decreases tracks.len(),
{
    if tracks.len() == 0 {
        Seq::empty()
    } else {
        track_artist_rows(id, tracks.drop_last()) + track_credit_rows(
            id,
            tracks.len(),
            tracks.last().artists,
        ) + track_credit_rows(id, tracks.len(), tracks.last().extra_artists)
    }
}

/// The records of a list of images.
pub open spec fn image_rows(id: u64, images: Seq<model::ReleaseImageView>) -> Seq<Row> {
    images.map_values(
        |image: model::ReleaseImageView|
            seq![
                text::decimal(id as nat),
                image.image_type,
                text::decimal(image.width as nat),
                text::decimal(image.height as nat),
                image.uri,
            ],
    )
}

/// The records of a list of genres or of styles.
pub open spec fn tag_rows(id: u64, tags: Seq<Seq<char>>) -> Seq<Row> {
    tags.map_values(|tag: Seq<char>| seq![text::decimal(id as nat), tag])
}

/// The records of a list of companies.
pub open spec fn company_rows(id: u64, companies: Seq<model::ReleaseCompanyView>) -> Seq<Row> {
    companies.map_values(
        |company: model::ReleaseCompanyView|
            seq![
                text::decimal(id as nat),
                text::decimal(company.company_id as nat),
                company.name,
                text::decimal(company.entity_type as nat),
                company.entity_type_name,
            ],
    )
}

/// The records of a release in each of the files.
pub open spec fn release_rows(release: model::ReleaseView) -> Seq<Seq<Row>> {
    seq![
        seq![release_row(release)],
        artist_rows(release.id, release.artists, "0"@) + artist_rows(
            release.id,
            release.extra_artists,
            "1"@,
        ),
        label_rows(release.id, release.labels),
        track_rows(release.id, release.tracks),
        track_artist_rows(release.id, release.tracks),
        image_rows(release.id, release.images),
        tag_rows(release.id, release.genres),
        tag_rows(release.id, release.styles),
        company_rows(release.id, release.companies),
    ]
}

/// The records of a sequence of releases in one of the files.
pub open spec fn all_rows(releases: Seq<model::ReleaseView>, file: int) -> Seq<Row>
    decreases releases.len(),
{
    if releases.len() == 0 {
        Seq::empty()
    } else {
        all_rows(releases.drop_last(), file) + release_rows(releases.last())[file]
    }
}

/// One of the files after a sequence of releases: the header, and the records of the
/// releases in order.
pub open spec fn release_file(releases: Seq<model::ReleaseView>, file: int) -> Seq<u8> {
    csv_file::csv_lines(seq![release_headers()[file]] + all_rows(releases, file))
}

/// The decimal form of a number, or nothing.
pub fn optional_decimal_string(n: Option<u64>) -> (r: String)
    ensures
        r@ == optional_decimal(n),
{
    match n {
        Some(n) => text::decimal_string(n),
        None => String::new(),
    }
}

fn write_release_row(release: &Release) -> (rows: Vec<Vec<String>>)
    ensures
        rows.deep_view() == seq![release_row(release.deep_view())],
{
    let row = vec![
        text::decimal_string(release.id),
        release.status.clone(),
        release.title.clone(),
        release.country.clone(),
        release.released.clone(),
        release.notes.clone(),
        release.data_quality.clone(),
        optional_decimal_string(release.master_id),
        release.format_string(),
    ];
    assert(row.deep_view() == release_row(release.deep_view()));
    let mut rows: Vec<Vec<String>> = Vec::new();
    text::push_item(&mut rows, row);
    assert(rows.deep_view() == seq![release_row(release.deep_view())]);
    rows
}

fn push_artist_rows(id: u64, artists: &Vec<ReleaseArtist>, extra: &str, rows: &mut Vec<Vec<String>>)
    ensures
        final(rows).deep_view() == old(rows).deep_view() + artist_rows(
            id,
            artists.deep_view(),
            extra@,
        ),
{
    let ghost before = rows.deep_view();
    let ghost all = artist_rows(id, artists.deep_view(), extra@);
    let mut i: usize = 0;
    assert(before + all.take(0) == before);
    while i < artists.len()
        invariant
            i <= artists.len(),
            all == artist_rows(id, artists.deep_view(), extra@),
            rows.deep_view() == before + all.take(i as int),
        decreases artists.len() - i,
    {
        let artist = &artists[i];
        let row = vec![
            text::decimal_string(id),
            text::decimal_string(artist.artist_id),
            artist.name.clone(),
            extra.to_owned(),
            artist.anv.clone(),
            text::decimal_string(artist.position as u64),
            artist.join_field.clone(),
        ];
        assert(row.deep_view() == artist_row(id, artist.deep_view(), extra@));
        assert(all[i as int] == row.deep_view());
        text::push_item(rows, row);
        assert(all.take(i + 1) == all.take(i as int).push(all[i as int]));
        assert(before + all.take(i + 1) == (before + all.take(i as int)).push(all[i as int]));
        i += 1;
    }
    assert(all.take(all.len() as int) == all);
}

fn write_label_rows(id: u64, labels: &Vec<ReleaseLabel>) -> (rows: Vec<Vec<String>>)
    ensures
        rows.deep_view() == label_rows(id, labels.deep_view()),
{
    let ghost all = label_rows(id, labels.deep_view());
    let mut rows: Vec<Vec<String>> = Vec::new();
    let mut i: usize = 0;
    while i < labels.len()
        invariant
            i <= labels.len(),
            all == label_rows(id, labels.deep_view()),
            rows.deep_view() == all.take(i as int),
        decreases labels.len() - i,
    {
        let label = &labels[i];
        let row = vec![text::decimal_string(id), label.name.clone(), label.catno.clone()];
        assert(row.deep_view() == all[i as int]);
        text::push_item(&mut rows, row);
        assert(all.take(i + 1) == all.take(i as int).push(all[i as int]));
        i += 1;
    }
    assert(all.take(all.len() as int) == all);
    rows
}

fn write_track_rows(id: u64, tracks: &Vec<ReleaseTrack>) -> (rows: Vec<Vec<String>>)
    ensures
        rows.deep_view() == track_rows(id, tracks.deep_view()),
{
    let ghost all = track_rows(id, tracks.deep_view());
    let mut rows: Vec<Vec<String>> = Vec::new();
    let mut i: usize = 0;
    while i < tracks.len()
        invariant
            i <= tracks.len(),
            all == track_rows(id, tracks.deep_view()),
            rows.deep_view() == all.take(i as int),
        decreases tracks.len() - i,
    {
        let track = &tracks[i];
        assert(track.deep_view() == tracks.deep_view()[i as int]);
        let row = vec![
            text::decimal_string(id),
            text::decimal_string(i as u64 + 1),
            track.position.clone(),
            track.title.clone(),
            track.duration.clone(),
        ];
        assert(row.deep_view() == all[i as int]);
        text::push_item(&mut rows, row);
        assert(all.take(i + 1) == all.take(i as int).push(all[i as int]));
        i += 1;
    }
    assert(all.take(all.len() as int) == all);
    rows
}

fn push_track_credit_rows(
    id: u64,
    sequence: u64,
    artists: &Vec<TrackArtist>,
    rows: &mut Vec<Vec<String>>,
)
    ensures
        final(rows).deep_view() == old(rows).deep_view() + track_credit_rows(
            id,
            sequence as nat,
            artists.deep_view(),
        ),
{
    let ghost before = rows.deep_view();
    let ghost all = track_credit_rows(id, sequence as nat, artists.deep_view());
    let mut i: usize = 0;
    assert(before + all.take(0) == before);
    while i < artists.len()
        invariant
            i <= artists.len(),
            all == track_credit_rows(id, sequence as nat, artists.deep_view()),
            rows.deep_view() == before + all.take(i as int),
        decreases artists.len() - i,
    {
        let row = vec![
            text::decimal_string(id),
            text::decimal_string(sequence),
            artists[i].name.clone(),
        ];
        assert(artists.deep_view()[i as int] == artists[i as int].deep_view());
        assert(row.deep_view() == all[i as int]);
        text::push_item(rows, row);
        assert(all.take(i + 1) == all.take(i as int).push(all[i as int]));
        assert(before + all.take(i + 1) == (before + all.take(i as int)).push(all[i as int]));
        i += 1;
    }
    assert(all.take(all.len() as int) == all);
}

fn write_track_artist_rows(id: u64, tracks: &Vec<ReleaseTrack>) -> (rows: Vec<Vec<String>>)
    ensures
        rows.deep_view() == track_artist_rows(id, tracks.deep_view()),
{
    let ghost all = tracks.deep_view();
    let mut rows: Vec<Vec<String>> = Vec::new();
    let mut i: usize = 0;
    assert(rows.deep_view() == track_artist_rows(id, all.take(0)));
    while i < tracks.len()
        invariant
            i <= tracks.len(),
            all == tracks.deep_view(),
            rows.deep_view() == track_artist_rows(id, all.take(i as int)),
        decreases tracks.len() - i,
    {
        let track = &tracks[i];
        assert(track.deep_view() == all[i as int]);
        let ghost longer = all.take(i + 1);
        assert(longer.drop_last() == all.take(i as int));
        push_track_credit_rows(id, i as u64 + 1, &track.artists, &mut rows);
        push_track_credit_rows(id, i as u64 + 1, &track.extra_artists, &mut rows);
        i += 1;
    }
    assert(all.take(all.len() as int) == all);
    rows
}

fn write_image_rows(id: u64, images: &Vec<ReleaseImage>) -> (rows: Vec<Vec<String>>)
    ensures
        rows.deep_view() == image_rows(id, images.deep_view()),
{
    let ghost all = image_rows(id, images.deep_view());
    let mut rows: Vec<Vec<String>> = Vec::new();
    let mut i: usize = 0;
    while i < images.len()
        invariant
            i <= images.len(),
            all == image_rows(id, images.deep_view()),
            rows.deep_view() == all.take(i as int),
        decreases images.len() - i,
    {
        let image = &images[i];
        let row = vec![
            text::decimal_string(id),
            image.image_type.clone(),
            text::decimal_string(image.width as u64),
            text::decimal_string(image.height as u64),
            image.uri.clone(),
        ];
        assert(image.deep_view() == images.deep_view()[i as int]);
        assert(row.deep_view() == all[i as int]);
        text::push_item(&mut rows, row);
        assert(all.take(i + 1) == all.take(i as int).push(all[i as int]));
        i += 1;
    }
    assert(all.take(all.len() as int) == all);
    rows
}

pub(crate) fn write_tag_rows(id: u64, tags: &Vec<String>) -> (rows: Vec<Vec<String>>)
    ensures
        rows.deep_view() == tag_rows(id, tags.deep_view()),
{
    let ghost all = tag_rows(id, tags.deep_view());
    let mut rows: Vec<Vec<String>> = Vec::new();
    let mut i: usize = 0;
    while i < tags.len()
        invariant
            i <= tags.len(),
            all == tag_rows(id, tags.deep_view()),
            rows.deep_view() == all.take(i as int),
        decreases tags.len() - i,
    {
        let row = vec![text::decimal_string(id), tags[i].clone()];
        assert(row.deep_view() == all[i as int]);
        text::push_item(&mut rows, row);
        assert(all.take(i + 1) == all.take(i as int).push(all[i as int]));
        i += 1;
    }
    assert(all.take(all.len() as int) == all);
    rows
}

fn write_company_rows(id: u64, companies: &Vec<ReleaseCompany>) -> (rows: Vec<Vec<String>>)
    ensures
        rows.deep_view() == company_rows(id, companies.deep_view()),
{
    let ghost all = company_rows(id, companies.deep_view());
    let mut rows: Vec<Vec<String>> = Vec::new();
    let mut i: usize = 0;
    while i < companies.len()
        invariant
            i <= companies.len(),
            all == company_rows(id, companies.deep_view()),
            rows.deep_view() == all.take(i as int),
        decreases companies.len() - i,
    {
        let company = &companies[i];
        let row = vec![
            text::decimal_string(id),
            text::decimal_string(company.company_id),
            company.name.clone(),
            text::decimal_string(company.entity_type as u64),
            company.entity_type_name.clone(),
        ];
        assert(company.deep_view() == companies.deep_view()[i as int]);
        assert(row.deep_view() == all[i as int]);
        text::push_item(&mut rows, row);
        assert(all.take(i + 1) == all.take(i as int).push(all[i as int]));
        i += 1;
    }
    assert(all.take(all.len() as int) == all);
    rows
}

/// Releases as CSV files in a directory.
///
/// The files are written in memory. As a [`ReleaseOutput`] it passes what is to be stored
/// on to `outbox`; [`CsvOutput::flush`] hands over all that is there and all that waits.
pub struct CsvOutput {
    pub csv: CsvFiles,
    pub output_dir: String,
    pub outbox: Vec<Chunk>,
    pub releases: Ghost<Seq<model::ReleaseView>>,
}

impl CsvOutput {
    /// Each file holds its header and the records of the releases that were written,
    /// in order.
    pub open spec fn wf(self) -> bool {
        &&& self.csv.names() == release_file_names()
        &&& self.csv.contents().len() == FILES
        &&& forall|i: int|
            0 <= i < FILES ==> #[trigger] self.csv.contents()[i] == release_file(
                self.releases@,
                i,
            )
    }

    /// New files with their headers.
    pub fn new(output_dir: &str) -> (r: CsvOutput)
        ensures
            r.wf(),
            r.releases@ == Seq::<model::ReleaseView>::empty(),
            r.output_dir@ == output_dir@,
            r.outbox.deep_view() == Seq::<csv_file::ChunkView>::empty(),
            r.csv.stored() == Seq::new(FILES as nat, |i: int| Seq::<u8>::empty()),
    {
        let mut csv = CsvFiles::new();
        let header = vec![
            "id",
            "status",
            "title",
            "country",
            "released",
            "notes",
            "data_quality",
            "master_id",
            "format",
        ];
        assert(header.deep_view() == release_headers()[0]);
        csv.add_file("release.csv", header);
        let header = vec![
            "release_id",
            "artist_id",
            "artist_name",
            "extra",
            "anv",
            "position",
            "join_field",
        ];
        assert(header.deep_view() == release_headers()[1]);
        csv.add_file("release_artist.csv", header);
        let header = vec!["release_id", "label", "catno"];
        assert(header.deep_view() == release_headers()[2]);
        csv.add_file("release_label.csv", header);
        let header = vec!["release_id", "sequence", "position", "title", "duration"];
        assert(header.deep_view() == release_headers()[3]);
        csv.add_file("release_track.csv", header);
        let header = vec!["release_id", "track_sequence", "artist_name"];
        assert(header.deep_view() == release_headers()[4]);
        csv.add_file("release_track_artist.csv", header);
        let header = vec!["release_id", "type", "width", "height", "uri"];
        assert(header.deep_view() == release_headers()[5]);
        csv.add_file("release_image.csv", header);
        let header = vec!["release_id", "genre"];
        assert(header.deep_view() == release_headers()[6]);
        csv.add_file("release_genre.csv", header);
        let header = vec!["release_id", "style"];
        assert(header.deep_view() == release_headers()[7]);
        csv.add_file("release_style.csv", header);
        let header = vec![
            "release_id",
            "company_id",
            "company_name",
            "entity_type",
            "entity_type_name",
        ];
        assert(header.deep_view() == release_headers()[8]);
        csv.add_file("release_company.csv", header);
        proof {
            assert(csv.names() == release_file_names());
            let none = Seq::<model::ReleaseView>::empty();
            assert forall|i: int| 0 <= i < FILES implies #[trigger] csv.contents()[i]
                == release_file(none, i) by {
                let header = release_headers()[i];
                csv_file::lemma_header_line(header);
                assert(seq![header] + all_rows(none, i) == seq![header]);
                assert(csv.contents()[i] == csv_file::csv_line(header));
            }
        }
        let outbox: Vec<Chunk> = Vec::new();
        assert(outbox.deep_view() == Seq::<csv_file::ChunkView>::empty());
        assert(csv.stored() == Seq::new(FILES as nat, |i: int| Seq::<u8>::empty()));
        CsvOutput {
            csv,
            output_dir: output_dir.to_owned(),
            outbox,
            releases: Ghost(Seq::empty()),
        }
    }

    /// Writes a release with all that belongs to it.
    pub fn write_release(&mut self, release: &Release)
        requires
            old(self).wf(),
        ensures
            final(self).wf(),
            final(self).releases@ == old(self).releases@.push(release.deep_view()),
            final(self).output_dir@ == old(self).output_dir@,
            final(self).outbox == old(self).outbox,
            final(self).csv.stored() == old(self).csv.stored(),
    {
        let ghost before = self.csv.contents();
        let id: u64 = release.id;
        let mut credits: Vec<Vec<String>> = Vec::new();
        push_artist_rows(id, &release.artists, "0", &mut credits);
        push_artist_rows(id, &release.extra_artists, "1", &mut credits);
        let tables = vec![
            write_release_row(release),
            credits,
            write_label_rows(id, &release.labels),
            write_track_rows(id, &release.tracks),
            write_track_artist_rows(id, &release.tracks),
            write_image_rows(id, &release.images),
            write_tag_rows(id, &release.genres),
            write_tag_rows(id, &release.styles),
            write_company_rows(id, &release.companies),
        ];
        proof {
            let artists = artist_rows(id, release.artists.deep_view(), "0"@);
            let extra = artist_rows(id, release.extra_artists.deep_view(), "1"@);
            assert(Seq::<Row>::empty() + artists + extra == artists + extra);
            assert(tables.deep_view() == release_rows(release.deep_view()));
        }
        self.csv.write_tables(&tables);
        let ghost earlier = self.releases@;
        self.releases = Ghost(self.releases@.push(release.deep_view()));
        proof {
            let rows = release_rows(release.deep_view());
            assert(self.releases@.drop_last() == earlier);
            assert forall|i: int| 0 <= i < FILES implies #[trigger] self.csv.contents()[i]
                == release_file(self.releases@, i) by {
                let shorter = seq![release_headers()[i]] + all_rows(earlier, i);
                csv_file::lemma_csv_lines_concat(shorter, rows[i]);
                assert(shorter + rows[i] == seq![release_headers()[i]] + all_rows(
                    self.releases@,
                    i,
                ));
                assert(before[i] == release_file(earlier, i));
                assert(self.csv.contents()[i] == before[i] + csv_file::csv_lines(rows[i]));
            }
        }
    }

    /// Passes on to `outbox` what waits to be stored at the end of each file.
    fn fill_outbox(&mut self)
        requires
            old(self).wf(),
        ensures
            final(self).wf(),
            outbox_filled(*old(self), *final(self)),
    {
        let ghost before = *self;
        let mut chunks = self.csv.take_pending();
        let ghost taken = chunks.deep_view();
        proof {
            assert(before.csv.names().len() == FILES);
            assert forall|i: int| 0 <= i < FILES implies (#[trigger] self.csv.files[i]).pending@
                == Seq::<u8>::empty() by {
                let chunk = chunks[i];
            }
        }
        self.outbox.append(&mut chunks);
        assert(self.outbox.deep_view() == before.outbox.deep_view() + taken);
    }

    /// Hands over what is to be stored at the end of each file, in order: what was passed
    /// on before, and what waits.
    pub fn flush(&mut self) -> (chunks: Vec<Chunk>)
        requires
            old(self).wf(),
        ensures
            final(self).wf(),
            final(self).releases@ == old(self).releases@,
            final(self).output_dir@ == old(self).output_dir@,
            chunks.deep_view() == old(self).outbox.deep_view() + old(self).csv.waiting(),
            final(self).outbox.deep_view() == Seq::<csv_file::ChunkView>::empty(),
            forall|i: int|
                #![trigger final(self).csv.files[i]]
                0 <= i < FILES ==> {
                    &&& final(self).csv.files[i].stored@ == release_file(old(self).releases@, i)
                    &&& final(self).csv.files[i].pending@ == Seq::<u8>::empty()
                },
    {
        self.fill_outbox();
        let mut chunks: Vec<Chunk> = Vec::new();
        std::mem::swap(&mut chunks, &mut self.outbox);
        proof {
            assert(self.outbox.deep_view() == Seq::<csv_file::ChunkView>::empty());
            assert(self.csv.names().len() == FILES);
            assert forall|i: int| #![trigger self.csv.files[i]] 0 <= i < FILES implies
                self.csv.files[i].stored@ == release_file(old(self).releases@, i) by {
                assert(self.csv.stored()[i] == self.csv.files[i].stored@);
                assert(old(self).csv.contents()[i] == release_file(old(self).releases@, i));
            }
        }
        chunks
    }

    /// The directory of the files.
    pub fn output_dir(&self) -> (r: &str)
        ensures
            r@ == self.output_dir@,
    {
        self.output_dir.as_str()
    }
}

/// All that waited is passed on: it stands behind what is in the outbox, and nothing of
/// the files waits any more.
pub open spec fn outbox_filled(before: CsvOutput, after: CsvOutput) -> bool {
    &&& after.releases@ == before.releases@
    &&& after.output_dir@ == before.output_dir@
    &&& after.csv.names() == before.csv.names()
    &&& after.csv.contents() == before.csv.contents()
    &&& after.csv.stored() == before.csv.contents()
    &&& after.outbox.deep_view() == before.outbox.deep_view() + before.csv.waiting()
    &&& forall|i: int|
        0 <= i < FILES ==> (#[trigger] after.csv.files[i]).pending@ == Seq::<u8>::empty()
}

impl ReleaseOutput for CsvOutput {
    type Error = String;

    open spec fn ready(&self) -> bool {
        self.wf()
    }

    open spec fn received(&self) -> Option<Seq<model::ReleaseView>> {
        Some(self.releases@)
    }

    open spec fn outgoing(&self) -> OutgoingView {
        OutgoingView { pieces: self.outbox.deep_view(), files: self.csv.stored() }
    }

    open spec fn infallible() -> bool {
        true
    }

    open spec fn passed_on(&self, after: &CsvOutput) -> bool {
        outbox_filled(*self, *after)
    }

    fn write_release(&mut self, release: &Release) -> (r: Result<(), String>) {
        CsvOutput::write_release(self, release);
        Ok(())
    }

    fn flush(&mut self) -> (r: Result<(), String>) {
        self.fill_outbox();
        Ok(())
    }

    fn finish(&mut self) -> (r: Result<(), String>) {
        self.fill_outbox();
        Ok(())
    }
}

/// Every file has a header and records of the same length, so that a CSV reader finds the
/// records again as they were written.
pub proof fn law_files_are_tables(releases: Seq<model::ReleaseView>, file: int)
    requires
        0 <= file < FILES,
    ensures
        csv_file::csv_table(seq![release_headers()[file]] + all_rows(releases, file)),
{
    let body = all_rows(releases, file);
    let rows = seq![release_headers()[file]] + body;
    lemma_widths(releases, file);
    reveal_strlit("id");
    reveal_strlit("release_id");
    assert(rows[0] == release_headers()[file]);
    assert(rows[0][0] == "id"@ || rows[0][0] == "release_id"@);
    assert forall|i: int| 0 <= i < rows.len() implies (#[trigger] rows[i]).len() == rows[0].len() by {
        if i > 0 {
            assert(rows[i] == body[i - 1]);
        }
    }
}

#[verifier::rlimit(40)]
proof fn lemma_widths(releases: Seq<model::ReleaseView>, file: int)
    requires
        0 <= file < FILES,
    ensures
        forall|i: int|
            0 <= i < all_rows(releases, file).len() ==> (#[trigger] all_rows(
                releases,
                file,
            )[i]).len() == release_headers()[file].len(),
    decreases releases.len(),
{
    if releases.len() > 0 {
        lemma_widths(releases.drop_last(), file);
        let earlier = all_rows(releases.drop_last(), file);
        let release = releases.last();
        let own = release_rows(release)[file];
        let width = release_headers()[file].len();
        if file == 4 {
            lemma_track_artist_widths(release.id, release.tracks);
        }
        assert forall|i: int| 0 <= i < own.len() implies (#[trigger] own[i]).len() == width by {
        }
        assert forall|i: int| 0 <= i < (earlier + own).len() implies (#[trigger] (earlier
            + own)[i]).len() == width by {
            if i >= earlier.len() {
                assert((earlier + own)[i] == own[i - earlier.len()]);
            }
        }
    }
}

proof fn lemma_track_artist_widths(id: u64, tracks: Seq<model::ReleaseTrackView>)
    ensures
        forall|i: int|
            0 <= i < track_artist_rows(id, tracks).len() ==> (#[trigger] track_artist_rows(
                id,
                tracks,
            )[i]).len() == 3,
    decreases tracks.len(),
{
    if tracks.len() > 0 {
        lemma_track_artist_widths(id, tracks.drop_last());
        let earlier = track_artist_rows(id, tracks.drop_last());
        let main = track_credit_rows(id, tracks.len(), tracks.last().artists);
        let extra = track_credit_rows(id, tracks.len(), tracks.last().extra_artists);
        let all = earlier + main + extra;
        assert forall|i: int| 0 <= i < all.len() implies (#[trigger] all[i]).len() == 3 by {
            if i < earlier.len() {
                assert(all[i] == earlier[i]);
            } else if i < earlier.len() + main.len() {
                assert(all[i] == main[i - earlier.len()]);
            } else {
                assert(all[i] == extra[i - earlier.len() - main.len()]);
            }
        }
    }
}

/// The file of releases has one record for each release, with its id first.
pub proof fn law_one_record_each(releases: Seq<model::ReleaseView>)
    ensures
        all_rows(releases, 0).len() == releases.len(),
        forall|i: int|
            0 <= i < releases.len() ==> (#[trigger] all_rows(releases, 0)[i])[0] == text::decimal(
                releases[i].id as nat,
            ),
    decreases releases.len(),
{
    if releases.len() > 0 {
        law_one_record_each(releases.drop_last());
        let earlier = all_rows(releases.drop_last(), 0);
        let own = release_rows(releases.last())[0];
        assert(own == seq![release_row(releases.last())]);
        assert forall|i: int| 0 <= i < releases.len() implies (#[trigger] all_rows(
            releases,
            0,
        )[i])[0] == text::decimal(releases[i].id as nat) by {
            if i < earlier.len() {
                assert(all_rows(releases, 0)[i] == earlier[i]);
                assert(releases.drop_last()[i] == releases[i]);
            } else {
                assert(all_rows(releases, 0)[i] == own[0]);
            }
        }
    }
}

proof fn lemma_track_artist_ids(id: u64, tracks: Seq<model::ReleaseTrackView>)
    ensures
        forall|i: int|
            0 <= i < track_artist_rows(id, tracks).len() ==> (#[trigger] track_artist_rows(
                id,
                tracks,
            )[i])[0] == text::decimal(id as nat),
    decreases tracks.len(),
{
    if tracks.len() > 0 {
        lemma_track_artist_ids(id, tracks.drop_last());
        let earlier = track_artist_rows(id, tracks.drop_last());
        let main = track_credit_rows(id, tracks.len(), tracks.last().artists);
        let extra = track_credit_rows(id, tracks.len(), tracks.last().extra_artists);
        let all = earlier + main + extra;
        assert forall|i: int| 0 <= i < all.len() implies (#[trigger] all[i])[0] == text::decimal(
            id as nat,
        ) by {
            if i < earlier.len() {
                assert(all[i] == earlier[i]);
            } else if i < earlier.len() + main.len() {
                assert(all[i] == main[i - earlier.len()]);
            } else {
                assert(all[i] == extra[i - earlier.len() - main.len()]);
            }
        }
    }
}

proof fn lemma_own_ids(release: model::ReleaseView, file: int)
    requires
        0 <= file < FILES,
    ensures
        forall|i: int|
            0 <= i < release_rows(release)[file].len() ==> (#[trigger] release_rows(
                release,
            )[file][i])[0] == text::decimal(release.id as nat),
{
    if file == 4 {
        lemma_track_artist_ids(release.id, release.tracks);
    }
}

/// Every record of every file starts with the id of a release that has a record in the
/// file of releases.
pub proof fn law_records_refer_to_releases(
    releases: Seq<model::ReleaseView>,
    file: int,
    i: int,
) -> (k: int)
    requires
        0 <= file < FILES,
        0 <= i < all_rows(releases, file).len(),
    ensures
        0 <= k < all_rows(releases, 0).len(),
        all_rows(releases, file)[i][0] == all_rows(releases, 0)[k][0],
    decreases releases.len(),
{
    let earlier = all_rows(releases.drop_last(), file);
    let own = release_rows(releases.last())[file];
    law_one_record_each(releases);
    if i < earlier.len() {
        let k = law_records_refer_to_releases(releases.drop_last(), file, i);
        assert(all_rows(releases, file)[i] == earlier[i]);
        assert(all_rows(releases, 0)[k] == all_rows(releases.drop_last(), 0)[k]);
        k
    } else {
        lemma_own_ids(releases.last(), file);
        assert(all_rows(releases, file)[i] == own[i - earlier.len()]);
        releases.len() - 1
    }
}

/// The same releases give the same files.
pub proof fn law_same_releases_same_files(a: CsvOutput, b: CsvOutput)
    requires
        a.wf(),
        b.wf(),
        a.releases@ == b.releases@,
    ensures
        a.csv.names() == b.csv.names(),
        a.csv.contents() == b.csv.contents(),
{
    assert forall|i: int| 0 <= i < FILES implies a.csv.contents()[i] == b.csv.contents()[i] by {
        assert(a.csv.contents()[i] == release_file(a.releases@, i));
        assert(b.csv.contents()[i] == release_file(b.releases@, i));
    }
}

/// Whoever reads a file finds its header and the records of the releases as they were
/// written.
pub proof fn law_files_are_read_back(releases: Seq<model::ReleaseView>, file: int)
    requires
        0 <= file < FILES,
    ensures
        csv_laws::records_of(release_file(releases, file)) == seq![release_headers()[file]]
            + all_rows(releases, file),
{
    let rows = seq![release_headers()[file]] + all_rows(releases, file);
    law_files_are_tables(releases, file);
    csv_laws::law_csv_is_read_back(rows);
}

} // verus!
