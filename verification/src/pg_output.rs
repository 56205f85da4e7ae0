//! Releases as rows of PostgreSQL tables.
//!
//! The rows are in the text format of COPY: a tab between columns, a line feed behind a
//! row, `\N` for no value, and a backslash before what would be read as one of these.

use crate::model;
use crate::model::{
    Release, ReleaseArtist, ReleaseCompany, ReleaseImage, ReleaseLabel, ReleaseTrack, TrackArtist,
};
use crate::text;
use std::collections::HashMap;
use vstd::prelude::*;
use wxyc_etl::pg::{BatchCopier, DedupSet};

verus! {

broadcast use vstd::std_specs::hash::group_hash_axioms;

/// The buffers of `wxyc_etl` for rows on their way to PostgreSQL.
#[verifier::external_type_specification]
#[verifier::external_body]
pub struct ExBatchCopier(BatchCopier);

/// The set of `wxyc_etl` that finds repeated keys.
#[verifier::external_type_specification]
#[verifier::external_body]
#[verifier::reject_recursive_types(K)]
pub struct ExDedupSet<K>(DedupSet<K>);

/// The rows that a copier holds for each of its tables.
pub uninterp spec fn copier_rows(copier: BatchCopier) -> Map<Seq<char>, Seq<u8>>;

/// The tables of a copier and their COPY statements, in the order in which they are
/// sent.
pub uninterp spec fn copier_tables(copier: BatchCopier) -> Seq<(Seq<char>, Seq<char>)>;

/// The number of records that a copier has sent.
pub uninterp spec fn copier_sent(copier: BatchCopier) -> nat;

/// The number of records that a copier collects before it sends them.
pub uninterp spec fn copier_limit(copier: BatchCopier) -> nat;

/// The pairs that a set of keys holds.
pub uninterp spec fn dedup_pairs(set: DedupSet<(u64, String)>) -> Set<(u64, Seq<char>)>;

/// The triples that a set of keys holds.
pub uninterp spec fn dedup_triples(set: DedupSet<(u64, u32, String)>) -> Set<
    (u64, u32, Seq<char>),
>;

/// `wxyc_etl::pg::BatchCopier::new` registers the tables in the order in which they
/// are sent, with nothing in their buffers and nothing sent.
#[verifier::external_body]
pub(crate) fn new_copier(tables: &Vec<(&str, &str)>, batch_size: usize) -> (copier: BatchCopier)
    requires
        forall|i: int, j: int|
            0 <= i < j < tables.len() ==> (#[trigger] tables[i]).0@ != (#[trigger] tables[j]).0@,
    ensures
        copier_tables(copier) == tables.deep_view(),
        forall|i: int|
            0 <= i < tables.len() ==> copier_rows(copier).dom().contains(
                (#[trigger] tables[i]).0@,
            ),
        forall|t: Seq<char>| #[trigger]
            copier_rows(copier).dom().contains(t) ==> copier_rows(copier)[t] == Seq::<u8>::empty(),
        copier_sent(copier) == 0,
        copier_limit(copier) == batch_size,
{
    BatchCopier::new(tables, batch_size)
}

/// `wxyc_etl::pg::BatchCopier::buffer` gives the buffer of a table, which must be
/// registered. The rows go to its end.
#[verifier::external_body]
pub(crate) fn append_rows(copier: &mut BatchCopier, table: &str, rows: &Vec<u8>)
    requires
        copier_rows(*old(copier)).dom().contains(table@),
    ensures
        copier_rows(*final(copier)) == copier_rows(*old(copier)).insert(
            table@,
            copier_rows(*old(copier))[table@] + rows@,
        ),
        copier_tables(*final(copier)) == copier_tables(*old(copier)),
        copier_sent(*final(copier)) == copier_sent(*old(copier)),
        copier_limit(*final(copier)) == copier_limit(*old(copier)),
{
    copier.buffer(table).extend_from_slice(rows)
}

/// `wxyc_etl::pg::BatchCopier::total_written` gives the number of records sent.
#[verifier::external_body]
pub(crate) fn records_sent(copier: &BatchCopier) -> (n: usize)
    ensures
        n == copier_sent(*copier),
{
    copier.total_written()
}

/// `wxyc_etl::pg::DedupSet::new` makes an empty set, here of pairs.
#[verifier::external_body]
pub(crate) fn new_pairs() -> (set: DedupSet<(u64, String)>)
    ensures
        dedup_pairs(set) == Set::<(u64, Seq<char>)>::empty(),
{
    DedupSet::new()
}

/// `wxyc_etl::pg::DedupSet::insert` adds a key and says whether it is new, here for
/// pairs.
#[verifier::external_body]
pub(crate) fn insert_pair(set: &mut DedupSet<(u64, String)>, id: u64, name: &str) -> (new: bool)
    ensures
        new == !dedup_pairs(*old(set)).contains((id, name@)),
        dedup_pairs(*final(set)) == dedup_pairs(*old(set)).insert((id, name@)),
{
    set.insert((id, name.to_string()))
}

/// `wxyc_etl::pg::DedupSet::new` makes an empty set, here of triples.
#[verifier::external_body]
pub(crate) fn new_triples() -> (set: DedupSet<(u64, u32, String)>)
    ensures
        dedup_triples(set) == Set::<(u64, u32, Seq<char>)>::empty(),
{
    DedupSet::new()
}

/// `wxyc_etl::pg::DedupSet::insert` adds a key and says whether it is new, here for
/// triples.
#[verifier::external_body]
pub(crate) fn insert_triple(
    set: &mut DedupSet<(u64, u32, String)>,
    id: u64,
    sequence: u32,
    name: &str,
) -> (new: bool)
    ensures
        new == !dedup_triples(*old(set)).contains((id, sequence, name@)),
        dedup_triples(*final(set)) == dedup_triples(*old(set)).insert((id, sequence, name@)),
{
    set.insert((id, sequence, name.to_string()))
}

/// A byte of a value in the text format of COPY.
pub open spec fn copy_byte(b: u8) -> Seq<u8> {
    if b == 0x5c {
        seq![0x5cu8, 0x5cu8]
    } else if b == 0x0a {
        seq![0x5cu8, 0x6eu8]
    } else if b == 0x0d {
        seq![0x5cu8, 0x72u8]
    } else if b == 0x09 {
        seq![0x5cu8, 0x74u8]
    } else {
        seq![b]
    }
}

/// The bytes of a value in the text format of COPY: a backslash, a line feed, a
/// carriage return and a tab are written with a backslash.
pub open spec fn copy_escaped(bytes: Seq<u8>) -> Seq<u8>
    decreases bytes.len(),
{
    if bytes.len() == 0 {
        Seq::empty()
    } else {
        copy_escaped(bytes.drop_last()) + copy_byte(bytes.last())
    }
}

/// A text in the text format of COPY.
pub open spec fn copy_text(value: Seq<char>) -> Seq<u8> {
    copy_escaped(vstd::utf8::encode_utf8(value))
}

/// No value in the text format of COPY.
pub open spec fn copy_null() -> Seq<u8> {
    seq![0x5cu8, 0x4eu8]
}

/// A text, or no value where it is empty.
pub open spec fn copy_text_or_null(value: Seq<char>) -> Seq<u8> {
    if value.len() == 0 {
        copy_null()
    } else {
        copy_text(value)
    }
}

/// A number in the text format of COPY.
pub open spec fn copy_int(n: nat) -> Seq<u8> {
    vstd::utf8::encode_utf8(text::decimal(n))
}

/// Columns with a tab between them.
pub open spec fn copy_columns(columns: Seq<Seq<u8>>) -> Seq<u8>
    decreases columns.len(),
{
    if columns.len() == 0 {
        Seq::empty()
    } else if columns.len() == 1 {
        columns[0]
    } else {
        copy_columns(columns.drop_last()) + seq![0x09u8] + columns.last()
    }
}

/// A row: its columns, and a line feed.
pub open spec fn copy_row(columns: Seq<Seq<u8>>) -> Seq<u8> {
    copy_columns(columns).push(0x0a)
}

/// The year that a date starts with: its first four bytes, where they are digits.
pub open spec fn year_of(date: Seq<char>) -> Option<nat> {
    let b = vstd::utf8::encode_utf8(date);
    if b.len() >= 4 && (forall|i: int| 0 <= i < 4 ==> 0x30 <= #[trigger] b[i] <= 0x39) {
        Some(
            ((b[0] - 0x30) * 1000 + (b[1] - 0x30) * 100 + (b[2] - 0x30) * 10 + (b[3]
                - 0x30)) as nat,
        )
    } else {
        None
    }
}

/// `wxyc_etl::pg::escape_copy_text_into` appends a text in the text format of COPY.
#[verifier::external_body]
pub(crate) fn escape_copy_text_into(buf: &mut Vec<u8>, value: &str)
    ensures
        final(buf)@ == old(buf)@ + copy_text(value@),
{
    wxyc_etl::pg::escape_copy_text_into(buf, value)
}

/// `wxyc_etl::pg::write_copy_int` appends a number in decimal.
#[verifier::external_body]
pub(crate) fn write_copy_int(buf: &mut Vec<u8>, n: u64)
    ensures
        final(buf)@ == old(buf)@ + copy_int(n as nat),
{
    wxyc_etl::pg::write_copy_int(buf, n)
}

/// `wxyc_etl::pg::extract_year` gives the first four bytes of a date as a number, where
/// they are digits.
#[verifier::external_body]
pub(crate) fn extract_year(date: &str) -> (year: Option<i16>)
    ensures
        match year {
            Some(y) => year_of(date@) == Some(y as nat) && y >= 0,
            None => year_of(date@) is None,
        },
{
    wxyc_etl::pg::extract_year(date)
}

/// The uri of the first primary image.
pub open spec fn first_primary(images: Seq<model::ReleaseImageView>) -> Option<Seq<char>>
    decreases images.len(),
{
    if images.len() == 0 {
        None
    } else if images[0].image_type == "primary"@ {
        Some(images[0].uri)
    } else {
        first_primary(images.skip(1))
    }
}

/// The uri of the artwork of a release: of its first primary image, or of its first
/// image where none is primary.
pub open spec fn artwork_of(images: Seq<model::ReleaseImageView>) -> Option<Seq<char>> {
    match first_primary(images) {
        Some(uri) => Some(uri),
        None => if images.len() > 0 {
            Some(images[0].uri)
        } else {
            None
        },
    }
}

/// Picks the uri of the artwork from the images of a release.
pub fn pick_artwork_url(images: &Vec<ReleaseImage>) -> (r: Option<&str>)
    ensures
        match r {
            Some(uri) => artwork_of(images.deep_view()) == Some(uri@),
            None => artwork_of(images.deep_view()) is None,
        },
{
    let ghost all = images.deep_view();
    let mut i: usize = 0;
    assert(all.skip(0) == all);
    while i < images.len()
        invariant
            i <= images.len(),
            all == images.deep_view(),
            first_primary(all.skip(i as int)) == first_primary(all),
        decreases images.len() - i,
    {
        assert(all.skip(i as int)[0] == images[i as int].deep_view());
        if text::same_text(images[i].image_type.as_str(), "primary") {
            return Some(images[i].uri.as_str());
        }
        assert(all.skip(i as int).skip(1) == all.skip(i + 1));
        i += 1;
    }
    if images.len() > 0 {
        assert(all[0] == images[0].deep_view());
        Some(images[0].uri.as_str())
    } else {
        None
    }
}

/// The columns of a release: id, title, year, country and master id.
pub open spec fn release_columns(release: model::ReleaseView) -> Seq<Seq<u8>> {
    seq![
        copy_int(release.id as nat),
        copy_text(release.title),
        match year_of(release.released) {
            Some(year) => copy_int(year),
            None => copy_null(),
        },
        copy_text_or_null(release.country),
        match release.master_id {
            Some(id) => copy_int(id as nat),
            None => copy_null(),
        },
    ]
}

/// The row of a release.
pub open spec fn release_copy(release: model::ReleaseView) -> Seq<u8> {
    copy_row(release_columns(release))
}

/// The keys and the rows after a list of artist credits of a release. A credit without
/// a name, or with a name that the release had before, has no row.
pub open spec fn credit_copies(
    seen: Set<(u64, Seq<char>)>,
    id: u64,
    artists: Seq<model::ReleaseArtistView>,
    extra: nat,
) -> (Set<(u64, Seq<char>)>, Seq<u8>)
    decreases artists.len(),
{
    if artists.len() == 0 {
        (seen, Seq::empty())
    } else {
        let (keys, rows) = credit_copies(seen, id, artists.drop_last(), extra);
        let artist = artists.last();
        if artist.name.len() == 0 || keys.contains((id, artist.name)) {
            (keys, rows)
        } else {
            (
                keys.insert((id, artist.name)),
                rows + copy_row(
                    seq![
                        copy_int(id as nat),
                        copy_int(artist.artist_id as nat),
                        copy_text(artist.name),
                        copy_int(extra),
                    ],
                ),
            )
        }
    }
}

/// The keys and the rows after the labels of a release. A label without a name, or with
/// a name that the release had before, has no row.
pub open spec fn label_copies(
    seen: Set<(u64, Seq<char>)>,
    id: u64,
    labels: Seq<model::ReleaseLabelView>,
) -> (Set<(u64, Seq<char>)>, Seq<u8>)
    decreases labels.len(),
{
    if labels.len() == 0 {
        (seen, Seq::empty())
    } else {
        let (keys, rows) = label_copies(seen, id, labels.drop_last());
        let label = labels.last();
        if label.name.len() == 0 || keys.contains((id, label.name)) {
            (keys, rows)
        } else {
            (
                keys.insert((id, label.name)),
                rows + copy_row(seq![copy_int(id as nat), copy_text(label.name)]),
            )
        }
    }
}

/// The rows of the tracks of a release. A track without a title has none, but keeps its
/// sequence number.
pub open spec fn track_copies(id: u64, tracks: Seq<model::ReleaseTrackView>) -> Seq<u8>
    decreases tracks.len(),
{
    if tracks.len() == 0 {
        Seq::empty()
    } else {
        let rows = track_copies(id, tracks.drop_last());
        let track = tracks.last();
        if track.title.len() == 0 {
            rows
        } else {
            rows + copy_row(
                seq![
                    copy_int(id as nat),
                    copy_int((tracks.len() as u32) as nat),
                    copy_text_or_null(track.position),
                    copy_text(track.title),
                    copy_text_or_null(track.duration),
                ],
            )
        }
    }
}

/// The keys and the rows after the artist credits of a track. A credit with a name that
/// the track had before has no row.
pub open spec fn track_credit_copies(
    seen: Set<(u64, u32, Seq<char>)>,
    id: u64,
    sequence: u32,
    artists: Seq<model::TrackArtistView>,
) -> (Set<(u64, u32, Seq<char>)>, Seq<u8>)
    decreases artists.len(),
{
    if artists.len() == 0 {
        (seen, Seq::empty())
    } else {
        let (keys, rows) = track_credit_copies(seen, id, sequence, artists.drop_last());
        let key = (id, sequence, artists.last().name);
        if keys.contains(key) {
            (keys, rows)
        } else {
            (
                keys.insert(key),
                rows + copy_row(
                    seq![
                        copy_int(id as nat),
                        copy_int(sequence as nat),
                        copy_text(artists.last().name),
                    ],
                ),
            )
        }
    }
}

/// The keys and the rows after the artist credits of the tracks of a release: of each
/// track with a title first its main and then its extra credits.
pub open spec fn track_artist_copies(
    seen: Set<(u64, u32, Seq<char>)>,
    id: u64,
    tracks: Seq<model::ReleaseTrackView>,
) -> (Set<(u64, u32, Seq<char>)>, Seq<u8>)
    decreases tracks.len(),
{
    if tracks.len() == 0 {
        (seen, Seq::empty())
    } else {
        let (keys, rows) = track_artist_copies(seen, id, tracks.drop_last());
        let track = tracks.last();
        if track.title.len() == 0 {
            (keys, rows)
        } else {
            let sequence = tracks.len() as u32;
            let main = track_credit_copies(keys, id, sequence, track.artists);
            let extra = track_credit_copies(main.0, id, sequence, track.extra_artists);
            (extra.0, rows + main.1 + extra.1)
        }
    }
}

/// The rows of the genres or the styles of a release. An empty one has none.
pub open spec fn tag_copies(id: u64, tags: Seq<Seq<char>>) -> Seq<u8>
    decreases tags.len(),
{
    if tags.len() == 0 {
        Seq::empty()
    } else if tags.last().len() == 0 {
        tag_copies(id, tags.drop_last())
    } else {
        tag_copies(id, tags.drop_last()) + copy_row(
            seq![copy_int(id as nat), copy_text(tags.last())],
        )
    }
}

/// The rows of the companies of a release. A company without a name has none.
pub open spec fn company_copies(id: u64, companies: Seq<model::ReleaseCompanyView>) -> Seq<u8>
    decreases companies.len(),
{
    if companies.len() == 0 {
        Seq::empty()
    } else {
        let rows = company_copies(id, companies.drop_last());
        let company = companies.last();
        if company.name.len() == 0 {
            rows
        } else {
            rows + copy_row(
                seq![
                    copy_int(id as nat),
                    copy_int(company.company_id as nat),
                    copy_text(company.name),
                    copy_int(company.entity_type as nat),
                    copy_text(company.entity_type_name),
                ],
            )
        }
    }
}

/// The model of a [`PgOutput`].
pub struct PgView {
    /// The rows that wait to be sent, for each table.
    pub rows: Map<Seq<char>, Seq<u8>>,
    /// The artist credits that have a row.
    pub artists: Set<(u64, Seq<char>)>,
    /// The labels that have a row.
    pub labels: Set<(u64, Seq<char>)>,
    /// The artist credits of tracks that have a row.
    pub track_artists: Set<(u64, u32, Seq<char>)>,
    /// The artwork of each release that has one.
    pub artwork: Map<u64, Seq<char>>,
    /// The number of tracks of each release that has one.
    pub track_counts: Map<u64, u32>,
}

/// The rows of the tables with more rows for one of them.
pub open spec fn with_rows(rows: Map<Seq<char>, Seq<u8>>, table: Seq<char>, more: Seq<u8>) -> Map<
    Seq<char>,
    Seq<u8>,
> {
    rows.insert(table, rows[table] + more)
}

/// The state after a release was written. A release without a title is left out.
pub open spec fn pg_written(state: PgView, release: model::ReleaseView) -> PgView {
    if release.title.len() == 0 {
        state
    } else {
        let id = release.id;
        let main = credit_copies(state.artists, id, release.artists, 0);
        let extra = credit_copies(main.0, id, release.extra_artists, 1);
        let labels = label_copies(state.labels, id, release.labels);
        let track_artists = track_artist_copies(state.track_artists, id, release.tracks);
        let rows = with_rows(state.rows, "release"@, release_copy(release));
        let rows = with_rows(rows, "release_artist"@, main.1 + extra.1);
        let rows = with_rows(rows, "release_label"@, labels.1);
        let rows = with_rows(rows, "release_track"@, track_copies(id, release.tracks));
        let rows = with_rows(rows, "release_track_artist"@, track_artists.1);
        let rows = with_rows(rows, "release_genre"@, tag_copies(id, release.genres));
        let rows = with_rows(rows, "release_style"@, tag_copies(id, release.styles));
        let rows = with_rows(rows, "release_company"@, company_copies(id, release.companies));
        PgView {
            rows,
            artists: extra.0,
            labels: labels.0,
            track_artists: track_artists.0,
            artwork: match artwork_of(release.images) {
                Some(uri) => state.artwork.insert(id, uri),
                None => state.artwork,
            },
            track_counts: if release.tracks.len() as u32 > 0 {
                state.track_counts.insert(id, release.tracks.len() as u32)
            } else {
                state.track_counts
            },
        }
    }
}

/// The tables and their COPY statements, in the order in which they are sent: a release
/// before all that belongs to it.
pub open spec fn pg_tables() -> Seq<(Seq<char>, Seq<char>)> {
    seq![
        (
            "release"@,
            "COPY release (id, title, release_year, country, master_id) FROM STDIN"@,
        ),
        (
            "release_artist"@,
            "COPY release_artist (release_id, artist_id, artist_name, extra) FROM STDIN"@,
        ),
        ("release_label"@, "COPY release_label (release_id, label_name) FROM STDIN"@),
        (
            "release_track"@,
            "COPY release_track (release_id, sequence, position, title, duration) FROM STDIN"@,
        ),
        (
            "release_track_artist"@,
            "COPY release_track_artist (release_id, track_sequence, artist_name) FROM STDIN"@,
        ),
        ("release_genre"@, "COPY release_genre (release_id, genre) FROM STDIN"@),
        ("release_style"@, "COPY release_style (release_id, style) FROM STDIN"@),
        (
            "release_company"@,
            "COPY release_company (release_id, company_id, company_name, entity_type, entity_type_name) FROM STDIN"@,
        ),
    ]
}

/// A row of the given columns.
fn make_row(columns: Vec<Vec<u8>>) -> (row: Vec<u8>)
    ensures
        row@ == copy_row(columns.deep_view()),
{
    let ghost all = columns.deep_view();
    let mut columns = columns;
    let mut row: Vec<u8> = Vec::new();
    let mut i: usize = 0;
    while i < columns.len()
        invariant
            i <= columns.len(),
            columns.len() == all.len(),
            forall|j: int| i <= j < columns.len() ==> columns[j].deep_view() == all[j],
            row@ == copy_columns(all.take(i as int)),
        decreases columns.len() - i,
    {
        let ghost longer = all.take(i + 1);
        assert(longer.drop_last() == all.take(i as int));
        assert(columns[i as int]@ == columns[i as int].deep_view());
        if i > 0 {
            row.push(0x09);
        }
        let mut column: Vec<u8> = Vec::new();
        std::mem::swap(&mut column, &mut columns[i]);
        row.append(&mut column);
        proof {
            if i == 0 {
                assert(row@ == longer[0]);
            } else {
                assert(row@ == copy_columns(all.take(i as int)) + seq![0x09u8] + longer.last());
            }
        }
        i += 1;
    }
    assert(all.take(all.len() as int) == all);
    row.push(0x0a);
    row
}

fn int_column(n: u64) -> (column: Vec<u8>)
    ensures
        column.deep_view() == copy_int(n as nat),
{
    let mut column: Vec<u8> = Vec::new();
    write_copy_int(&mut column, n);
    assert(column.deep_view() == copy_int(n as nat));
    column
}

fn text_column(value: &str) -> (column: Vec<u8>)
    ensures
        column.deep_view() == copy_text(value@),
{
    let mut column: Vec<u8> = Vec::new();
    escape_copy_text_into(&mut column, value);
    assert(column.deep_view() == copy_text(value@));
    column
}

fn null_column() -> (column: Vec<u8>)
    ensures
        column.deep_view() == copy_null(),
{
    let column: Vec<u8> = vec![0x5c, 0x4e];
    assert(column.deep_view() == copy_null());
    column
}

fn text_or_null_column(value: &str) -> (column: Vec<u8>)
    ensures
        column.deep_view() == copy_text_or_null(value@),
{
    if value.is_empty() {
        null_column()
    } else {
        text_column(value)
    }
}

fn write_release_copy(release: &Release) -> (rows: Vec<u8>)
    ensures
        rows@ == release_copy(release.deep_view()),
{
    let year = match extract_year(release.released.as_str()) {
        Some(year) => {
            assert(year as u64 == year as nat);
            int_column(year as u64)
        },
        None => null_column(),
    };
    let master_id = match release.master_id {
        Some(id) => int_column(id),
        None => null_column(),
    };
    let columns = vec![
        int_column(release.id),
        text_column(release.title.as_str()),
        year,
        text_or_null_column(release.country.as_str()),
        master_id,
    ];
    proof {
        let r = release.deep_view();
        assert(columns.deep_view() == release_columns(r));
    }
    make_row(columns)
}

fn push_credit_copies(
    seen: &mut DedupSet<(u64, String)>,
    id: u64,
    artists: &Vec<ReleaseArtist>,
    extra: u64,
    rows: &mut Vec<u8>,
)
    ensures
        ({
            let (keys, more) = credit_copies(
                dedup_pairs(*old(seen)),
                id,
                artists.deep_view(),
                extra as nat,
            );
            &&& dedup_pairs(*final(seen)) == keys
            &&& final(rows)@ == old(rows)@ + more
        }),
{
    let ghost all = artists.deep_view();
    let ghost first = dedup_pairs(*seen);
    let ghost before = rows@;
    let mut i: usize = 0;
    assert(before + Seq::<u8>::empty() == before);
    while i < artists.len()
        invariant
            i <= artists.len(),
            all == artists.deep_view(),
            ({
                let (keys, more) = credit_copies(first, id, all.take(i as int), extra as nat);
                &&& dedup_pairs(*seen) == keys
                &&& rows@ == before + more
            }),
        decreases artists.len() - i,
    {
        let artist = &artists[i];
        let ghost longer = all.take(i + 1);
        assert(longer.drop_last() == all.take(i as int));
        assert(longer.last() == artist.deep_view());
        if !artist.name.as_str().is_empty() {
            let new = insert_pair(seen, id, artist.name.as_str());
            if new {
                let columns = vec![
                    int_column(id),
                    int_column(artist.artist_id),
                    text_column(artist.name.as_str()),
                    int_column(extra),
                ];
                assert(columns.deep_view() == seq![
                    copy_int(id as nat),
                    copy_int(artist.artist_id as nat),
                    copy_text(artist.name@),
                    copy_int(extra as nat),
                ]);
                let mut row = make_row(columns);
                rows.append(&mut row);
            } else {
                assert(dedup_pairs(*seen) == credit_copies(
                    first,
                    id,
                    all.take(i as int),
                    extra as nat,
                ).0);
            }
        }
        i += 1;
    }
    assert(all.take(all.len() as int) == all);
}

fn write_label_copies(seen: &mut DedupSet<(u64, String)>, id: u64, labels: &Vec<ReleaseLabel>) -> (
rows: Vec<u8>)
    ensures
        label_copies(dedup_pairs(*old(seen)), id, labels.deep_view()) == (
            dedup_pairs(*final(seen)),
            rows@,
        ),
{
    let ghost all = labels.deep_view();
    let ghost first = dedup_pairs(*seen);
    let mut rows: Vec<u8> = Vec::new();
    let mut i: usize = 0;
    while i < labels.len()
        invariant
            i <= labels.len(),
            all == labels.deep_view(),
            label_copies(first, id, all.take(i as int)) == (dedup_pairs(*seen), rows@),
        decreases labels.len() - i,
    {
        let label = &labels[i];
        let ghost longer = all.take(i + 1);
        assert(longer.drop_last() == all.take(i as int));
        assert(longer.last() == label.deep_view());
        if !label.name.as_str().is_empty() {
            let ghost keys = dedup_pairs(*seen);
            let new = insert_pair(seen, id, label.name.as_str());
            if new {
                let columns = vec![int_column(id), text_column(label.name.as_str())];
                assert(columns.deep_view() == seq![copy_int(id as nat), copy_text(label.name@)]);
                let mut row = make_row(columns);
                rows.append(&mut row);
            } else {
                assert(dedup_pairs(*seen) == keys);
            }
        }
        i += 1;
    }
    assert(all.take(all.len() as int) == all);
    rows
}

fn write_track_copies(id: u64, tracks: &Vec<ReleaseTrack>) -> (rows: Vec<u8>)
    ensures
        rows@ == track_copies(id, tracks.deep_view()),
{
    let ghost all = tracks.deep_view();
    let mut rows: Vec<u8> = Vec::new();
    let mut i: usize = 0;
    while i < tracks.len()
        invariant
            i <= tracks.len(),
            all == tracks.deep_view(),
            rows@ == track_copies(id, all.take(i as int)),
        decreases tracks.len() - i,
    {
        let track = &tracks[i];
        let ghost longer = all.take(i + 1);
        assert(longer.drop_last() == all.take(i as int));
        assert(longer.last() == track.deep_view());
        if !track.title.as_str().is_empty() {
            let sequence: u32 = (i + 1) as u32;
            let columns = vec![
                int_column(id),
                int_column(sequence as u64),
                text_or_null_column(track.position.as_str()),
                text_column(track.title.as_str()),
                text_or_null_column(track.duration.as_str()),
            ];
            assert(columns.deep_view() == seq![
                copy_int(id as nat),
                copy_int((longer.len() as u32) as nat),
                copy_text_or_null(track.position@),
                copy_text(track.title@),
                copy_text_or_null(track.duration@),
            ]);
            let mut row = make_row(columns);
            rows.append(&mut row);
        }
        i += 1;
    }
    assert(all.take(all.len() as int) == all);
    rows
}

fn push_track_credit_copies(
    seen: &mut DedupSet<(u64, u32, String)>,
    id: u64,
    sequence: u32,
    artists: &Vec<TrackArtist>,
    rows: &mut Vec<u8>,
)
    ensures
        ({
            let (keys, more) = track_credit_copies(
                dedup_triples(*old(seen)),
                id,
                sequence,
                artists.deep_view(),
            );
            &&& dedup_triples(*final(seen)) == keys
            &&& final(rows)@ == old(rows)@ + more
        }),
{
    let ghost all = artists.deep_view();
    let ghost first = dedup_triples(*seen);
    let ghost before = rows@;
    let mut i: usize = 0;
    assert(before + Seq::<u8>::empty() == before);
    while i < artists.len()
        invariant
            i <= artists.len(),
            all == artists.deep_view(),
            ({
                let (keys, more) = track_credit_copies(first, id, sequence, all.take(i as int));
                &&& dedup_triples(*seen) == keys
                &&& rows@ == before + more
            }),
        decreases artists.len() - i,
    {
        let artist = &artists[i];
        let ghost longer = all.take(i + 1);
        let ghost keys = dedup_triples(*seen);
        assert(longer.drop_last() == all.take(i as int));
        assert(longer.last() == artist.deep_view());
        let new = insert_triple(seen, id, sequence, artist.name.as_str());
        if new {
            let columns = vec![
                int_column(id),
                int_column(sequence as u64),
                text_column(artist.name.as_str()),
            ];
            assert(columns.deep_view() == seq![
                copy_int(id as nat),
                copy_int(sequence as nat),
                copy_text(artist.name@),
            ]);
            let mut row = make_row(columns);
            rows.append(&mut row);
        } else {
            assert(dedup_triples(*seen) == keys);
        }
        i += 1;
    }
    assert(all.take(all.len() as int) == all);
}

fn write_track_artist_copies(
    seen: &mut DedupSet<(u64, u32, String)>,
    id: u64,
    tracks: &Vec<ReleaseTrack>,
) -> (rows: Vec<u8>)
    ensures
        track_artist_copies(dedup_triples(*old(seen)), id, tracks.deep_view()) == (
            dedup_triples(*final(seen)),
            rows@,
        ),
{
    let ghost all = tracks.deep_view();
    let ghost first = dedup_triples(*seen);
    let mut rows: Vec<u8> = Vec::new();
    let mut i: usize = 0;
    while i < tracks.len()
        invariant
            i <= tracks.len(),
            all == tracks.deep_view(),
            track_artist_copies(first, id, all.take(i as int)) == (dedup_triples(*seen), rows@),
        decreases tracks.len() - i,
    {
        let track = &tracks[i];
        let ghost longer = all.take(i + 1);
        assert(longer.drop_last() == all.take(i as int));
        assert(longer.last() == track.deep_view());
        if !track.title.as_str().is_empty() {
            let sequence: u32 = (i + 1) as u32;
            assert(sequence == longer.len() as u32);
            push_track_credit_copies(seen, id, sequence, &track.artists, &mut rows);
            push_track_credit_copies(seen, id, sequence, &track.extra_artists, &mut rows);
        }
        i += 1;
    }
    assert(all.take(all.len() as int) == all);
    rows
}

fn write_tag_copies(id: u64, tags: &Vec<String>) -> (rows: Vec<u8>)
    ensures
        rows@ == tag_copies(id, tags.deep_view()),
{
    let ghost all = tags.deep_view();
    let mut rows: Vec<u8> = Vec::new();
    let mut i: usize = 0;
    while i < tags.len()
        invariant
            i <= tags.len(),
            all == tags.deep_view(),
            rows@ == tag_copies(id, all.take(i as int)),
        decreases tags.len() - i,
    {
        let tag = &tags[i];
        let ghost longer = all.take(i + 1);
        assert(longer.drop_last() == all.take(i as int));
        assert(longer.last() == tag@);
        if !tag.as_str().is_empty() {
            let columns = vec![int_column(id), text_column(tag.as_str())];
            assert(columns.deep_view() == seq![copy_int(id as nat), copy_text(tag@)]);
            let mut row = make_row(columns);
            rows.append(&mut row);
        }
        i += 1;
    }
    assert(all.take(all.len() as int) == all);
    rows
}

fn write_company_copies(id: u64, companies: &Vec<ReleaseCompany>) -> (rows: Vec<u8>)
    ensures
        rows@ == company_copies(id, companies.deep_view()),
{
    let ghost all = companies.deep_view();
    let mut rows: Vec<u8> = Vec::new();
    let mut i: usize = 0;
    while i < companies.len()
        invariant
            i <= companies.len(),
            all == companies.deep_view(),
            rows@ == company_copies(id, all.take(i as int)),
        decreases companies.len() - i,
    {
        let company = &companies[i];
        let ghost longer = all.take(i + 1);
        assert(longer.drop_last() == all.take(i as int));
        assert(longer.last() == company.deep_view());
        if !company.name.as_str().is_empty() {
            let columns = vec![
                int_column(id),
                int_column(company.company_id),
                text_column(company.name.as_str()),
                int_column(company.entity_type as u64),
                text_column(company.entity_type_name.as_str()),
            ];
            assert(columns.deep_view() == seq![
                copy_int(id as nat),
                copy_int(company.company_id as nat),
                copy_text(company.name@),
                copy_int(company.entity_type as nat),
                copy_text(company.entity_type_name@),
            ]);
            let mut row = make_row(columns);
            rows.append(&mut row);
        }
        i += 1;
    }
    assert(all.take(all.len() as int) == all);
    rows
}

/// The artwork of releases, by the id of the release.
pub type ArtworkMap = HashMap<u64, String>;

/// The number of tracks of releases, by the id of the release.
pub type TrackCountMap = HashMap<u64, u32>;

/// The model of an [`ArtworkMap`].
pub open spec fn artwork_view(artwork: Map<u64, String>) -> Map<u64, Seq<char>> {
    artwork.map_values(|uri: String| uri@)
}

/// Collects releases as rows of PostgreSQL tables.
///
/// The rows wait in `copier`, which sends them. The artwork and the track counts wait
/// for the end of the import.
pub struct PgOutput {
    pub copier: BatchCopier,
    pub artist_dedup: DedupSet<(u64, String)>,
    pub label_dedup: DedupSet<(u64, String)>,
    pub track_artist_dedup: DedupSet<(u64, u32, String)>,
    pub artwork: ArtworkMap,
    pub track_counts: TrackCountMap,
}

impl DeepView for PgOutput {
    type V = PgView;

    open spec fn deep_view(&self) -> PgView {
        PgView {
            rows: copier_rows(self.copier),
            artists: dedup_pairs(self.artist_dedup),
            labels: dedup_pairs(self.label_dedup),
            track_artists: dedup_triples(self.track_artist_dedup),
            artwork: artwork_view(self.artwork@),
            track_counts: self.track_counts@,
        }
    }
}

impl PgOutput {
    /// Every table has a buffer.
    pub open spec fn wf(self) -> bool {
        &&& copier_tables(self.copier) == pg_tables()
        &&& has_tables(copier_rows(self.copier))
    }

    /// Nothing is collected yet. Rows are sent once `batch_size` releases are there.
    pub fn new(batch_size: usize) -> (r: PgOutput)
        ensures
            r.wf(),
            forall|t: Seq<char>| #[trigger]
                r.deep_view().rows.dom().contains(t) ==> r.deep_view().rows[t]
                    == Seq::<u8>::empty(),
            r.deep_view().artists == Set::<(u64, Seq<char>)>::empty(),
            r.deep_view().labels == Set::<(u64, Seq<char>)>::empty(),
            r.deep_view().track_artists == Set::<(u64, u32, Seq<char>)>::empty(),
            r.deep_view().artwork == Map::<u64, Seq<char>>::empty(),
            r.deep_view().track_counts == Map::<u64, u32>::empty(),
            copier_sent(r.copier) == 0,
            copier_limit(r.copier) == batch_size,
    {
        let tables = vec![
            (
                "release",
                "COPY release (id, title, release_year, country, master_id) FROM STDIN",
            ),
            (
                "release_artist",
                "COPY release_artist (release_id, artist_id, artist_name, extra) FROM STDIN",
            ),
            ("release_label", "COPY release_label (release_id, label_name) FROM STDIN"),
            (
                "release_track",
                "COPY release_track (release_id, sequence, position, title, duration) FROM STDIN",
            ),
            (
                "release_track_artist",
                "COPY release_track_artist (release_id, track_sequence, artist_name) FROM STDIN",
            ),
            ("release_genre", "COPY release_genre (release_id, genre) FROM STDIN"),
            ("release_style", "COPY release_style (release_id, style) FROM STDIN"),
            (
                "release_company",
                "COPY release_company (release_id, company_id, company_name, entity_type, entity_type_name) FROM STDIN",
            ),
        ];
        proof {
            lemma_tables_differ();
            assert(tables.deep_view() == pg_tables());
            assert forall|i: int, j: int| 0 <= i < j < tables.len() implies (#[trigger] tables[i]).0@
                != (#[trigger] tables[j]).0@ by {
                assert(pg_tables()[i].0 != pg_tables()[j].0);
            }
        }
        let copier = new_copier(&tables, batch_size);
        proof {
            assert forall|i: int| 0 <= i < pg_tables().len() implies copier_rows(
                copier,
            ).dom().contains((#[trigger] pg_tables()[i]).0) by {
                assert(tables[i].0@ == pg_tables()[i].0);
            }
            assert(artwork_view(Map::<u64, String>::empty()) == Map::<u64, Seq<char>>::empty());
        }
        PgOutput {
            copier,
            artist_dedup: new_pairs(),
            label_dedup: new_pairs(),
            track_artist_dedup: new_triples(),
            artwork: HashMap::new(),
            track_counts: HashMap::new(),
        }
    }

    /// The number of releases sent so far.
    pub fn total_written(&self) -> (n: usize)
        ensures
            n == copier_sent(self.copier),
    {
        records_sent(&self.copier)
    }

    fn add_rows(&mut self, table: &str, rows: &Vec<u8>)
        requires
            old(self).wf(),
            copier_rows(old(self).copier).dom().contains(table@),
        ensures
            final(self).wf(),
            final(self).deep_view() == (PgView {
                rows: with_rows(old(self).deep_view().rows, table@, rows@),
                ..old(self).deep_view()
            }),
            copier_sent(final(self).copier) == copier_sent(old(self).copier),
            copier_limit(final(self).copier) == copier_limit(old(self).copier),
    {
        append_rows(&mut self.copier, table, rows);
    }

    /// Collects the rows of a release, its artwork and its number of tracks. Gives
    /// whether there is anything to send: a release without a title is left out.
    pub fn write_release(&mut self, release: &Release) -> (written: bool)
        requires
            old(self).wf(),
        ensures
            final(self).wf(),
            written == (release.title@.len() > 0),
            final(self).deep_view() == pg_written(old(self).deep_view(), release.deep_view()),
            copier_sent(final(self).copier) == copier_sent(old(self).copier),
            copier_limit(final(self).copier) == copier_limit(old(self).copier),
    {
        if release.title.as_str().is_empty() {
            return false;
        }
        proof {
            assert(pg_tables()[0].0 == "release"@);
            assert(pg_tables()[1].0 == "release_artist"@);
            assert(pg_tables()[2].0 == "release_label"@);
            assert(pg_tables()[3].0 == "release_track"@);
            assert(pg_tables()[4].0 == "release_track_artist"@);
            assert(pg_tables()[5].0 == "release_genre"@);
            assert(pg_tables()[6].0 == "release_style"@);
            assert(pg_tables()[7].0 == "release_company"@);
        }
        let id: u64 = release.id;
        let rows = write_release_copy(release);
        self.add_rows("release", &rows);
        let mut rows: Vec<u8> = Vec::new();
        push_credit_copies(&mut self.artist_dedup, id, &release.artists, 0, &mut rows);
        push_credit_copies(&mut self.artist_dedup, id, &release.extra_artists, 1, &mut rows);
        assert(Seq::<u8>::empty() + rows@ == rows@);
        self.add_rows("release_artist", &rows);
        let rows = write_label_copies(&mut self.label_dedup, id, &release.labels);
        self.add_rows("release_label", &rows);
        let rows = write_track_copies(id, &release.tracks);
        self.add_rows("release_track", &rows);
        let rows = write_track_artist_copies(&mut self.track_artist_dedup, id, &release.tracks);
        self.add_rows("release_track_artist", &rows);
        let rows = write_tag_copies(id, &release.genres);
        self.add_rows("release_genre", &rows);
        let rows = write_tag_copies(id, &release.styles);
        self.add_rows("release_style", &rows);
        let rows = write_company_copies(id, &release.companies);
        self.add_rows("release_company", &rows);
        let track_count: u32 = release.tracks.len() as u32;
        if track_count > 0 {
            self.track_counts.insert(id, track_count);
        }
        if let Some(uri) = pick_artwork_url(&release.images) {
            let ghost before = self.artwork@;
            self.artwork.insert(id, uri.to_owned());
            assert(artwork_view(self.artwork@) == artwork_view(before).insert(id, uri@));
        }
        true
    }
}

/// The row of the artwork of a release.
pub fn artwork_row(release_id: u64, uri: &str) -> (row: Vec<u8>)
    ensures
        row@ == copy_row(seq![copy_int(release_id as nat), copy_text(uri@)]),
{
    let columns = vec![int_column(release_id), text_column(uri)];
    assert(columns.deep_view() == seq![copy_int(release_id as nat), copy_text(uri@)]);
    make_row(columns)
}

/// The row of the number of tracks of a release.
pub fn track_count_row(release_id: u64, count: u32) -> (row: Vec<u8>)
    ensures
        row@ == copy_row(seq![copy_int(release_id as nat), copy_int(count as nat)]),
{
    let columns = vec![int_column(release_id), int_column(count as u64)];
    assert(columns.deep_view() == seq![copy_int(release_id as nat), copy_int(count as nat)]);
    make_row(columns)
}

/// Whether every table has rows.
pub open spec fn has_tables(rows: Map<Seq<char>, Seq<u8>>) -> bool {
    forall|i: int|
        0 <= i < pg_tables().len() ==> rows.dom().contains((#[trigger] pg_tables()[i]).0)
}

proof fn lemma_tables_differ()
    ensures
        forall|i: int, j: int|
            0 <= i < j < pg_tables().len() ==> (#[trigger] pg_tables()[i]).0 != (
            #[trigger] pg_tables()[j]).0,
{
    reveal_strlit("release");
    reveal_strlit("release_artist");
    reveal_strlit("release_label");
    reveal_strlit("release_track");
    reveal_strlit("release_track_artist");
    reveal_strlit("release_genre");
    reveal_strlit("release_style");
    reveal_strlit("release_company");
    let length = |i: int| pg_tables()[i].0.len();
    let letter = |i: int| pg_tables()[i].0[8];
    assert(length(0) == 7 && length(1) == 14 && length(2) == 13 && length(3) == 13);
    assert(length(4) == 20 && length(5) == 13 && length(6) == 13 && length(7) == 15);
    assert(letter(2) == 'l' && letter(3) == 't' && letter(5) == 'g' && letter(6) == 's');
    assert forall|i: int, j: int| 0 <= i < j < pg_tables().len() implies (
    #[trigger] pg_tables()[i]).0 != (#[trigger] pg_tables()[j]).0 by {
        assert(length(i) != length(j) || letter(i) != letter(j));
    }
}

/// A value in the text format of COPY holds no tab and no line end, so that a row is one
/// line and has as many tabs as it has columns less one.
pub proof fn law_escaped_value_is_one_line(bytes: Seq<u8>)
    ensures
        forall|i: int|
            0 <= i < copy_escaped(bytes).len() ==> {
                &&& #[trigger] copy_escaped(bytes)[i] != 0x09
                &&& copy_escaped(bytes)[i] != 0x0a
                &&& copy_escaped(bytes)[i] != 0x0d
            },
    decreases bytes.len(),
{
    if bytes.len() > 0 {
        law_escaped_value_is_one_line(bytes.drop_last());
        let head = copy_escaped(bytes.drop_last());
        let tail = copy_byte(bytes.last());
        assert forall|i: int| 0 <= i < (head + tail).len() implies {
            &&& #[trigger] (head + tail)[i] != 0x09
            &&& (head + tail)[i] != 0x0a
            &&& (head + tail)[i] != 0x0d
        } by {
            if i >= head.len() {
                assert((head + tail)[i] == tail[i - head.len()]);
            }
        }
    }
}

proof fn lemma_escaped_front(bytes: Seq<u8>)
    requires
        bytes.len() > 0,
    ensures
        copy_escaped(bytes) == copy_byte(bytes[0]) + copy_escaped(bytes.skip(1)),
    decreases bytes.len(),
{
    if bytes.len() == 1 {
        assert(bytes.drop_last() == Seq::<u8>::empty());
        assert(bytes.skip(1) == Seq::<u8>::empty());
        let none = Seq::<u8>::empty();
        assert(copy_escaped(none) == none);
        assert(copy_escaped(bytes) == none + copy_byte(bytes[0]));
        assert(none + copy_byte(bytes[0]) == copy_byte(bytes[0]));
        assert(copy_byte(bytes[0]) + Seq::<u8>::empty() == copy_byte(bytes[0]));
    } else {
        lemma_escaped_front(bytes.drop_last());
        assert(bytes.drop_last().skip(1) == bytes.skip(1).drop_last());
        assert(copy_byte(bytes[0]) + copy_escaped(bytes.skip(1).drop_last()) + copy_byte(
            bytes.last(),
        ) == copy_byte(bytes[0]) + (copy_escaped(bytes.skip(1).drop_last()) + copy_byte(
            bytes.last(),
        )));
    }
}

/// Different values are written differently, so that a value can be read back.
pub proof fn law_escaping_keeps_values_apart(a: Seq<u8>, b: Seq<u8>)
    requires
        copy_escaped(a) == copy_escaped(b),
    ensures
        a == b,
    decreases a.len(),
{
    if a.len() == 0 || b.len() == 0 {
        if a.len() > 0 {
            lemma_escaped_front(a);
        }
        if b.len() > 0 {
            lemma_escaped_front(b);
        }
        assert(a == b);
    } else {
        lemma_escaped_front(a);
        lemma_escaped_front(b);
        let ea = copy_escaped(a);
        let x = copy_byte(a[0]);
        let y = copy_byte(b[0]);
        assert(x[0] == ea[0] && y[0] == ea[0]);
        if x.len() == 2 {
            assert(x[1] == ea[1]);
        }
        if y.len() == 2 {
            assert(y[1] == ea[1]);
        }
        assert(a[0] == b[0]);
        assert(ea.skip(x.len() as int) == copy_escaped(a.skip(1)));
        assert(ea.skip(x.len() as int) == copy_escaped(b.skip(1)));
        law_escaping_keeps_values_apart(a.skip(1), b.skip(1));
        assert(a == seq![a[0]] + a.skip(1));
        assert(b == seq![b[0]] + b.skip(1));
    }
}

/// The keys only grow, and every credit with a name is among them afterwards.
proof fn lemma_credit_keys(
    seen: Set<(u64, Seq<char>)>,
    id: u64,
    artists: Seq<model::ReleaseArtistView>,
    extra: nat,
)
    ensures
        seen.subset_of(credit_copies(seen, id, artists, extra).0),
        forall|i: int|
            0 <= i < artists.len() && (#[trigger] artists[i]).name.len() > 0 ==> credit_copies(
                seen,
                id,
                artists,
                extra,
            ).0.contains((id, artists[i].name)),
    decreases artists.len(),
{
    if artists.len() > 0 {
        lemma_credit_keys(seen, id, artists.drop_last(), extra);
        let shorter = artists.drop_last();
        assert forall|i: int|
            0 <= i < artists.len() && (#[trigger] artists[i]).name.len() > 0 implies credit_copies(
            seen,
            id,
            artists,
            extra,
        ).0.contains((id, artists[i].name)) by {
            if i < shorter.len() {
                assert(shorter[i] == artists[i]);
            }
        }
    }
}

proof fn lemma_known_credits(
    seen: Set<(u64, Seq<char>)>,
    id: u64,
    artists: Seq<model::ReleaseArtistView>,
    extra: nat,
)
    requires
        forall|i: int|
            0 <= i < artists.len() && (#[trigger] artists[i]).name.len() > 0 ==> seen.contains(
                (id, artists[i].name),
            ),
    ensures
        credit_copies(seen, id, artists, extra) == (seen, Seq::<u8>::empty()),
    decreases artists.len(),
{
    if artists.len() > 0 {
        let shorter = artists.drop_last();
        assert forall|i: int|
            0 <= i < shorter.len() && (#[trigger] shorter[i]).name.len() > 0 implies seen.contains(
            (id, shorter[i].name),
        ) by {
            assert(shorter[i] == artists[i]);
        }
        lemma_known_credits(seen, id, shorter, extra);
    }
}

/// No artist credit of a release has two rows: once the credits of a release are written,
/// writing them again, as main or as extra credits, adds nothing.
pub proof fn law_credits_once(
    seen: Set<(u64, Seq<char>)>,
    id: u64,
    artists: Seq<model::ReleaseArtistView>,
    extra: nat,
    again: nat,
)
    ensures
        ({
            let keys = credit_copies(seen, id, artists, extra).0;
            credit_copies(keys, id, artists, again) == (keys, Seq::<u8>::empty())
        }),
{
    lemma_credit_keys(seen, id, artists, extra);
    lemma_known_credits(credit_copies(seen, id, artists, extra).0, id, artists, again);
}

proof fn lemma_label_keys(
    seen: Set<(u64, Seq<char>)>,
    id: u64,
    labels: Seq<model::ReleaseLabelView>,
)
    ensures
        seen.subset_of(label_copies(seen, id, labels).0),
        forall|i: int|
            0 <= i < labels.len() && (#[trigger] labels[i]).name.len() > 0 ==> label_copies(
                seen,
                id,
                labels,
            ).0.contains((id, labels[i].name)),
    decreases labels.len(),
{
    if labels.len() > 0 {
        lemma_label_keys(seen, id, labels.drop_last());
        let shorter = labels.drop_last();
        assert forall|i: int|
            0 <= i < labels.len() && (#[trigger] labels[i]).name.len() > 0 implies label_copies(
            seen,
            id,
            labels,
        ).0.contains((id, labels[i].name)) by {
            if i < shorter.len() {
                assert(shorter[i] == labels[i]);
            }
        }
    }
}

proof fn lemma_known_labels(
    seen: Set<(u64, Seq<char>)>,
    id: u64,
    labels: Seq<model::ReleaseLabelView>,
)
    requires
        forall|i: int|
            0 <= i < labels.len() && (#[trigger] labels[i]).name.len() > 0 ==> seen.contains(
                (id, labels[i].name),
            ),
    ensures
        label_copies(seen, id, labels) == (seen, Seq::<u8>::empty()),
    decreases labels.len(),
{
    if labels.len() > 0 {
        let shorter = labels.drop_last();
        assert forall|i: int|
            0 <= i < shorter.len() && (#[trigger] shorter[i]).name.len() > 0 implies seen.contains(
            (id, shorter[i].name),
        ) by {
            assert(shorter[i] == labels[i]);
        }
        lemma_known_labels(seen, id, shorter);
    }
}

/// No label of a release has two rows: once the labels of a release are written, writing
/// them again adds nothing.
pub proof fn law_labels_once(
    seen: Set<(u64, Seq<char>)>,
    id: u64,
    labels: Seq<model::ReleaseLabelView>,
)
    ensures
        ({
            let keys = label_copies(seen, id, labels).0;
            label_copies(keys, id, labels) == (keys, Seq::<u8>::empty())
        }),
{
    lemma_label_keys(seen, id, labels);
    lemma_known_labels(label_copies(seen, id, labels).0, id, labels);
}

/// A release is sent before all that belongs to it.
pub proof fn law_release_is_sent_first()
    ensures
        pg_tables()[0].0 == "release"@,
        forall|i: int|
            0 < i < pg_tables().len() ==> (#[trigger] pg_tables()[i]).0 != "release"@,
{
    lemma_tables_differ();
}

proof fn lemma_track_credit_keys(
    seen: Set<(u64, u32, Seq<char>)>,
    id: u64,
    sequence: u32,
    artists: Seq<model::TrackArtistView>,
)
    ensures
        forall|i: int|
            0 <= i < artists.len() ==> track_credit_copies(seen, id, sequence, artists).0.contains(
                (id, sequence, (#[trigger] artists[i]).name),
            ),
    decreases artists.len(),
{
    if artists.len() > 0 {
        let shorter = artists.drop_last();
        lemma_track_credit_keys(seen, id, sequence, shorter);
        assert forall|i: int| 0 <= i < artists.len() implies track_credit_copies(
            seen,
            id,
            sequence,
            artists,
        ).0.contains((id, sequence, (#[trigger] artists[i]).name)) by {
            if i < shorter.len() {
                assert(shorter[i] == artists[i]);
            }
        }
    }
}

proof fn lemma_known_track_credits(
    seen: Set<(u64, u32, Seq<char>)>,
    id: u64,
    sequence: u32,
    artists: Seq<model::TrackArtistView>,
)
    requires
        forall|i: int|
            0 <= i < artists.len() ==> seen.contains((id, sequence, (#[trigger] artists[i]).name)),
    ensures
        track_credit_copies(seen, id, sequence, artists) == (seen, Seq::<u8>::empty()),
    decreases artists.len(),
{
    if artists.len() > 0 {
        let shorter = artists.drop_last();
        assert forall|i: int| 0 <= i < shorter.len() implies seen.contains(
            (id, sequence, (#[trigger] shorter[i]).name),
        ) by {
            assert(shorter[i] == artists[i]);
        }
        lemma_known_track_credits(seen, id, sequence, shorter);
    }
}

/// No artist credit of a track has two rows: once the credits of a track are written,
/// writing them again adds nothing.
pub proof fn law_track_credits_once(
    seen: Set<(u64, u32, Seq<char>)>,
    id: u64,
    sequence: u32,
    artists: Seq<model::TrackArtistView>,
)
    ensures
        ({
            let keys = track_credit_copies(seen, id, sequence, artists).0;
            track_credit_copies(keys, id, sequence, artists) == (keys, Seq::<u8>::empty())
        }),
{
    lemma_track_credit_keys(seen, id, sequence, artists);
    lemma_known_track_credits(
        track_credit_copies(seen, id, sequence, artists).0,
        id,
        sequence,
        artists,
    );
}

/// The rows of a table of columns.
pub open spec fn copy_rows(table: Seq<Seq<Seq<u8>>>) -> Seq<u8>
    decreases table.len(),
{
    if table.len() == 0 {
        Seq::empty()
    } else {
        copy_rows(table.drop_last()) + copy_row(table.last())
    }
}

/// Whether all rows of a table have the id of a release in their first column.
pub open spec fn refers_to(table: Seq<Seq<Seq<u8>>>, id: u64) -> bool {
    forall|i: int|
        0 <= i < table.len() ==> (#[trigger] table[i]).len() > 1 && table[i][0] == copy_int(
            id as nat,
        )
}

/// Whether `rows` are rows with the id of a release in their first column.
pub open spec fn rows_of(rows: Seq<u8>, id: u64) -> bool {
    exists|table: Seq<Seq<Seq<u8>>>| refers_to(table, id) && rows == #[trigger] copy_rows(table)
}

proof fn lemma_no_rows(id: u64)
    ensures
        rows_of(Seq::empty(), id),
{
    let table = Seq::<Seq<Seq<u8>>>::empty();
    assert(refers_to(table, id));
    assert(copy_rows(table) == Seq::<u8>::empty());
}

proof fn lemma_one_more_row(rows: Seq<u8>, id: u64, columns: Seq<Seq<u8>>)
    requires
        rows_of(rows, id),
        columns.len() > 1,
        columns[0] == copy_int(id as nat),
    ensures
        rows_of(rows + copy_row(columns), id),
{
    let table = choose|table: Seq<Seq<Seq<u8>>>|
        refers_to(table, id) && rows == #[trigger] copy_rows(table);
    let more = table.push(columns);
    assert(more.drop_last() == table);
    assert(refers_to(more, id));
    assert(copy_rows(more) == rows + copy_row(columns));
}

proof fn lemma_more_rows(a: Seq<u8>, b: Seq<u8>, id: u64)
    requires
        rows_of(a, id),
        rows_of(b, id),
    ensures
        rows_of(a + b, id),
{
    let table = choose|table: Seq<Seq<Seq<u8>>>|
        refers_to(table, id) && b == #[trigger] copy_rows(table);
    lemma_more_table(a, table, id);
}

proof fn lemma_more_table(a: Seq<u8>, table: Seq<Seq<Seq<u8>>>, id: u64)
    requires
        rows_of(a, id),
        refers_to(table, id),
    ensures
        rows_of(a + copy_rows(table), id),
    decreases table.len(),
{
    if table.len() == 0 {
        assert(a + copy_rows(table) == a);
    } else {
        let shorter = table.drop_last();
        assert forall|i: int| 0 <= i < shorter.len() implies (#[trigger] shorter[i]).len() > 1
            && shorter[i][0] == copy_int(id as nat) by {
            assert(shorter[i] == table[i]);
        }
        lemma_more_table(a, shorter, id);
        assert(table[table.len() - 1] == table.last());
        lemma_one_more_row(a + copy_rows(shorter), id, table.last());
        assert(a + copy_rows(shorter) + copy_row(table.last()) == a + copy_rows(table));
    }
}

proof fn lemma_credit_rows(
    seen: Set<(u64, Seq<char>)>,
    id: u64,
    artists: Seq<model::ReleaseArtistView>,
    extra: nat,
)
    ensures
        rows_of(credit_copies(seen, id, artists, extra).1, id),
    decreases artists.len(),
{
    if artists.len() == 0 {
        lemma_no_rows(id);
    } else {
        let shorter = credit_copies(seen, id, artists.drop_last(), extra);
        lemma_credit_rows(seen, id, artists.drop_last(), extra);
        let artist = artists.last();
        lemma_one_more_row(
            shorter.1,
            id,
            seq![
                copy_int(id as nat),
                copy_int(artist.artist_id as nat),
                copy_text(artist.name),
                copy_int(extra),
            ],
        );
    }
}

proof fn lemma_label_rows(
    seen: Set<(u64, Seq<char>)>,
    id: u64,
    labels: Seq<model::ReleaseLabelView>,
)
    ensures
        rows_of(label_copies(seen, id, labels).1, id),
    decreases labels.len(),
{
    if labels.len() == 0 {
        lemma_no_rows(id);
    } else {
        let shorter = label_copies(seen, id, labels.drop_last());
        lemma_label_rows(seen, id, labels.drop_last());
        lemma_one_more_row(
            shorter.1,
            id,
            seq![copy_int(id as nat), copy_text(labels.last().name)],
        );
    }
}

proof fn lemma_track_rows(id: u64, tracks: Seq<model::ReleaseTrackView>)
    ensures
        rows_of(track_copies(id, tracks), id),
    decreases tracks.len(),
{
    if tracks.len() == 0 {
        lemma_no_rows(id);
    } else {
        lemma_track_rows(id, tracks.drop_last());
        let track = tracks.last();
        lemma_one_more_row(
            track_copies(id, tracks.drop_last()),
            id,
            seq![
                copy_int(id as nat),
                copy_int((tracks.len() as u32) as nat),
                copy_text_or_null(track.position),
                copy_text(track.title),
                copy_text_or_null(track.duration),
            ],
        );
    }
}

proof fn lemma_track_credit_rows(
    seen: Set<(u64, u32, Seq<char>)>,
    id: u64,
    sequence: u32,
    artists: Seq<model::TrackArtistView>,
)
    ensures
        rows_of(track_credit_copies(seen, id, sequence, artists).1, id),
    decreases artists.len(),
{
    if artists.len() == 0 {
        lemma_no_rows(id);
    } else {
        let shorter = track_credit_copies(seen, id, sequence, artists.drop_last());
        lemma_track_credit_rows(seen, id, sequence, artists.drop_last());
        lemma_one_more_row(
            shorter.1,
            id,
            seq![
                copy_int(id as nat),
                copy_int(sequence as nat),
                copy_text(artists.last().name),
            ],
        );
    }
}

proof fn lemma_track_artist_rows(
    seen: Set<(u64, u32, Seq<char>)>,
    id: u64,
    tracks: Seq<model::ReleaseTrackView>,
)
    ensures
        rows_of(track_artist_copies(seen, id, tracks).1, id),
    decreases tracks.len(),
{
    if tracks.len() == 0 {
        lemma_no_rows(id);
    } else {
        let (keys, rows) = track_artist_copies(seen, id, tracks.drop_last());
        lemma_track_artist_rows(seen, id, tracks.drop_last());
        let track = tracks.last();
        let sequence = tracks.len() as u32;
        let main = track_credit_copies(keys, id, sequence, track.artists);
        lemma_track_credit_rows(keys, id, sequence, track.artists);
        lemma_track_credit_rows(main.0, id, sequence, track.extra_artists);
        lemma_more_rows(rows, main.1, id);
        lemma_more_rows(
            rows + main.1,
            track_credit_copies(main.0, id, sequence, track.extra_artists).1,
            id,
        );
    }
}

proof fn lemma_tag_rows(id: u64, tags: Seq<Seq<char>>)
    ensures
        rows_of(tag_copies(id, tags), id),
    decreases tags.len(),
{
    if tags.len() == 0 {
        lemma_no_rows(id);
    } else {
        lemma_tag_rows(id, tags.drop_last());
        lemma_one_more_row(
            tag_copies(id, tags.drop_last()),
            id,
            seq![copy_int(id as nat), copy_text(tags.last())],
        );
    }
}

proof fn lemma_company_rows(id: u64, companies: Seq<model::ReleaseCompanyView>)
    ensures
        rows_of(company_copies(id, companies), id),
    decreases companies.len(),
{
    if companies.len() == 0 {
        lemma_no_rows(id);
    } else {
        lemma_company_rows(id, companies.drop_last());
        let company = companies.last();
        lemma_one_more_row(
            company_copies(id, companies.drop_last()),
            id,
            seq![
                copy_int(id as nat),
                copy_int(company.company_id as nat),
                copy_text(company.name),
                copy_int(company.entity_type as nat),
                copy_text(company.entity_type_name),
            ],
        );
    }
}

/// What a release with a title adds to each table.
pub open spec fn release_additions(state: PgView, release: model::ReleaseView) -> Seq<Seq<u8>> {
    let id = release.id;
    let main = credit_copies(state.artists, id, release.artists, 0);
    let extra = credit_copies(main.0, id, release.extra_artists, 1);
    seq![
        release_copy(release),
        main.1 + extra.1,
        label_copies(state.labels, id, release.labels).1,
        track_copies(id, release.tracks),
        track_artist_copies(state.track_artists, id, release.tracks).1,
        tag_copies(id, release.genres),
        tag_copies(id, release.styles),
        company_copies(id, release.companies),
    ]
}

/// A release with a title adds its rows to each table, and nothing else.
pub proof fn lemma_additions(state: PgView, release: model::ReleaseView, table: int)
    requires
        0 <= table < pg_tables().len(),
        release.title.len() > 0,
    ensures
        pg_written(state, release).rows[pg_tables()[table].0] == state.rows[pg_tables()[table].0]
            + release_additions(state, release)[table],
{
    lemma_tables_differ();
}

/// What a release adds to a table are rows with its id in their first column, and a
/// release that adds anything has a row of its own. Gives what is added.
pub proof fn law_rows_refer_to_their_release(
    state: PgView,
    release: model::ReleaseView,
    table: int,
) -> (added: Seq<u8>)
    requires
        0 <= table < pg_tables().len(),
    ensures
        release.title.len() > 0 ==> pg_written(state, release).rows[pg_tables()[table].0]
            == state.rows[pg_tables()[table].0] + added,
        release.title.len() > 0 && table == 0 ==> added == release_copy(release),
        release.title.len() == 0 ==> added.len() == 0 && pg_written(state, release) == state,
        rows_of(added, release.id),
{
    let id = release.id;
    lemma_no_rows(id);
    if release.title.len() == 0 {
        Seq::empty()
    } else {
        lemma_tables_differ();
        lemma_one_more_row(Seq::empty(), id, release_columns(release));
        assert(Seq::<u8>::empty() + release_copy(release) == release_copy(release));
        let main = credit_copies(state.artists, id, release.artists, 0);
        let extra = credit_copies(main.0, id, release.extra_artists, 1);
        lemma_credit_rows(state.artists, id, release.artists, 0);
        lemma_credit_rows(main.0, id, release.extra_artists, 1);
        lemma_more_rows(main.1, extra.1, id);
        lemma_label_rows(state.labels, id, release.labels);
        lemma_track_rows(id, release.tracks);
        lemma_track_artist_rows(state.track_artists, id, release.tracks);
        lemma_tag_rows(id, release.genres);
        lemma_tag_rows(id, release.styles);
        lemma_company_rows(id, release.companies);
        release_additions(state, release)[table]
    }
}

} // verus!
