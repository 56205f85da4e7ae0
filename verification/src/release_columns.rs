//! What stands in the columns of the CSV files of releases.
//!
//! Everything here is said of the files as a reader of CSV finds them: their names, their
//! headers, how many records they have, and the values of a record under the headers.

use crate::csv_laws;
use crate::model;
use crate::text;
use crate::writer;
use crate::writer::{CsvOutput, Row};
use vstd::prelude::*;

verus! {

/// The records that a reader finds in one of the files, the header first.
pub open spec fn read_file(output: CsvOutput, file: int) -> Seq<Row> {
    csv_laws::records_of(output.csv.contents()[file])
}

/// Whether a record has a value in a column with the given header.
pub open spec fn in_column(
    records: Seq<Row>,
    row: int,
    column: int,
    header: Seq<char>,
    value: Seq<char>,
) -> bool {
    &&& 0 < row < records.len()
    &&& 0 <= column < records[0].len()
    &&& records[row].len() == records[0].len()
    &&& records[0][column] == header
    &&& records[row][column] == value
}

/// How many things the first `k` items have together.
pub open spec fn count_before<T>(items: Seq<T>, k: int, count: spec_fn(T) -> nat) -> nat
    decreases k,
{
    if k <= 0 {
        0
    } else {
        count_before(items, k - 1, count) + count(items[k - 1])
    }
}

pub proof fn lemma_count_prefix<T>(items: Seq<T>, k: int, count: spec_fn(T) -> nat)
    requires
        0 <= k < items.len(),
    ensures
        count_before(items.drop_last(), k, count) == count_before(items, k, count),
    decreases k,
{
    if k > 0 {
        lemma_count_prefix(items, k - 1, count);
    }
}

/// Whether a release has as many records in a file as is said.
spec fn counted(
    releases: Seq<model::ReleaseView>,
    file: int,
    count: spec_fn(model::ReleaseView) -> nat,
) -> bool {
    forall|i: int|
        0 <= i < releases.len() ==> records_in(#[trigger] releases[i], file).len() == count(
            releases[i],
        )
}

/// The records of a release in a file.
#[verifier::opaque]
spec fn records_in(release: model::ReleaseView, file: int) -> Seq<Row> {
    writer::release_rows(release)[file]
}

proof fn lemma_total(
    releases: Seq<model::ReleaseView>,
    file: int,
    count: spec_fn(model::ReleaseView) -> nat,
)
    requires
        counted(releases, file, count),
    ensures
        writer::all_rows(releases, file).len() == count_before(
            releases,
            releases.len() as int,
            count,
        ),
    decreases releases.len(),
{
    if releases.len() > 0 {
        let shorter = releases.drop_last();
        let last = releases.len() - 1;
        assert forall|i: int| 0 <= i < shorter.len() implies records_in(
            #[trigger] shorter[i],
            file,
        ).len() == count(shorter[i]) by {
            assert(shorter[i] == releases[i]);
        }
        lemma_total(shorter, file, count);
        lemma_count_prefix(releases, last, count);
        assert(releases[last] == releases.last());
        lemma_all_rows(releases, file);
    }
}

proof fn lemma_all_rows(releases: Seq<model::ReleaseView>, file: int)
    requires
        releases.len() > 0,
    ensures
        writer::all_rows(releases, file) == writer::all_rows(releases.drop_last(), file)
            + records_in(releases.last(), file),
{
    reveal(records_in);
}

proof fn lemma_place(
    releases: Seq<model::ReleaseView>,
    file: int,
    count: spec_fn(model::ReleaseView) -> nat,
    k: int,
    j: int,
)
    requires
        counted(releases, file, count),
        0 <= k < releases.len(),
        0 <= j < count(releases[k]),
    ensures
        count_before(releases, k, count) + j < writer::all_rows(releases, file).len(),
        writer::all_rows(releases, file)[count_before(releases, k, count) + j] == records_in(
            releases[k],
            file,
        )[j],
    decreases releases.len(),
{
    let shorter = releases.drop_last();
    let last = releases.len() - 1;
    assert forall|i: int| 0 <= i < shorter.len() implies records_in(
        #[trigger] shorter[i],
        file,
    ).len() == count(shorter[i]) by {
        assert(shorter[i] == releases[i]);
    }
    lemma_all_rows(releases, file);
    lemma_total(shorter, file, count);
    lemma_count_prefix(releases, k, count);
    assert(releases[last] == releases.last());
    assert(records_in(releases[k], file).len() == count(releases[k]));
    let earlier = writer::all_rows(shorter, file);
    let own = records_in(releases.last(), file);
    let place = count_before(releases, k, count) + j;
    if k < last {
        lemma_place(shorter, file, count, k, j);
        assert(shorter[k] == releases[k]);
        assert((earlier + own)[place] == earlier[place]);
    } else {
        assert((earlier + own)[earlier.len() + j] == own[j]);
    }
}

proof fn lemma_read_total(
    output: CsvOutput,
    file: int,
    count: spec_fn(model::ReleaseView) -> nat,
)
    requires
        output.wf(),
        0 <= file < writer::FILES,
        counted(output.releases@, file, count),
    ensures
        read_file(output, file).len() == 1 + count_before(
            output.releases@,
            output.releases@.len() as int,
            count,
        ),
        read_file(output, file)[0] == writer::release_headers()[file],
{
    let releases = output.releases@;
    assert(output.csv.contents()[file] == writer::release_file(releases, file));
    writer::law_files_are_read_back(releases, file);
    lemma_total(releases, file, count);
}

proof fn lemma_read(
    output: CsvOutput,
    file: int,
    count: spec_fn(model::ReleaseView) -> nat,
    k: int,
    j: int,
)
    requires
        output.wf(),
        0 <= file < writer::FILES,
        counted(output.releases@, file, count),
        0 <= k < output.releases@.len(),
        0 <= j < count(output.releases@[k]),
    ensures
        ({
            let releases = output.releases@;
            let records = read_file(output, file);
            let row = count_before(releases, k, count) + j + 1;
            &&& records[0] == writer::release_headers()[file]
            &&& 0 < row < records.len()
            &&& records[row] == records_in(releases[k], file)[j]
            &&& records[row].len() == records[0].len()
        }),
{
    let releases = output.releases@;
    let records = read_file(output, file);
    assert(output.csv.contents()[file] == writer::release_file(releases, file));
    writer::law_files_are_read_back(releases, file);
    writer::law_files_are_tables(releases, file);
    lemma_place(releases, file, count, k, j);
    let body = writer::all_rows(releases, file);
    let place = count_before(releases, k, count) + j;
    assert(records == seq![writer::release_headers()[file]] + body);
    assert(records[place + 1] == body[place]);
}

/// The names of the files.
pub proof fn law_file_names(output: CsvOutput)
    requires
        output.wf(),
    ensures
        output.csv.names() == seq![
            "release.csv"@,
            "release_artist.csv"@,
            "release_label.csv"@,
            "release_track.csv"@,
            "release_track_artist.csv"@,
            "release_image.csv"@,
            "release_genre.csv"@,
            "release_style.csv"@,
            "release_company.csv"@,
        ],
{
}

/// How many of the releases come one by one.
pub open spec fn one_each() -> spec_fn(model::ReleaseView) -> nat {
    |r: model::ReleaseView| 1
}

/// release.csv has one record for each release, in order, with its values under the
/// headers that name them.
pub proof fn law_release_columns(output: CsvOutput, k: int)
    requires
        output.wf(),
        0 <= k < output.releases@.len(),
    ensures
        ({
            let records = read_file(output, 0);
            let r = output.releases@[k];
            &&& records.len() == 1 + output.releases@.len()
            &&& records[0].len() == 9
            &&& in_column(records, k + 1, 0, "id"@, text::decimal(r.id as nat))
            &&& in_column(records, k + 1, 1, "status"@, r.status)
            &&& in_column(records, k + 1, 2, "title"@, r.title)
            &&& in_column(records, k + 1, 3, "country"@, r.country)
            &&& in_column(records, k + 1, 4, "released"@, r.released)
            &&& in_column(records, k + 1, 5, "notes"@, r.notes)
            &&& in_column(records, k + 1, 6, "data_quality"@, r.data_quality)
            &&& r.master_id matches Some(id) ==> in_column(
                records,
                k + 1,
                7,
                "master_id"@,
                text::decimal(id as nat),
            )
            &&& r.master_id is None ==> in_column(records, k + 1, 7, "master_id"@, Seq::empty())
            &&& in_column(records, k + 1, 8, "format"@, model::formats_text(r.formats))
        }),
{
    reveal(records_in);
    lemma_read_total(output, 0, one_each());
    lemma_read(output, 0, one_each(), k, 0);
    lemma_ones(output.releases@, k);
    lemma_ones(output.releases@, output.releases@.len() as int);
}

proof fn lemma_ones(releases: Seq<model::ReleaseView>, k: int)
    requires
        0 <= k,
    ensures
        count_before(releases, k, one_each()) == k,
    decreases k,
{
    if k > 0 {
        lemma_ones(releases, k - 1);
    }
}

/// The number of artist credits of a release.
pub open spec fn credit_count() -> spec_fn(model::ReleaseView) -> nat {
    |r: model::ReleaseView| r.artists.len() + r.extra_artists.len()
}

/// release_artist.csv has one record for each artist credit, of each release first the
/// main and then the extra ones, with the values of the credit under the headers that
/// name them.
pub proof fn law_credit_columns(output: CsvOutput, k: int, j: int)
    requires
        output.wf(),
        0 <= k < output.releases@.len(),
        0 <= j < output.releases@[k].artists.len() + output.releases@[k].extra_artists.len(),
    ensures
        ({
            let records = read_file(output, 1);
            let r = output.releases@[k];
            let credit = (r.artists + r.extra_artists)[j];
            let row = 1 + count_before(output.releases@, k, credit_count()) + j;
            &&& records[0].len() == 7
            &&& in_column(records, row, 0, "release_id"@, text::decimal(r.id as nat))
            &&& in_column(records, row, 1, "artist_id"@, text::decimal(credit.artist_id as nat))
            &&& in_column(records, row, 2, "artist_name"@, credit.name)
            &&& in_column(
                records,
                row,
                3,
                "extra"@,
                if j < r.artists.len() {
                    "0"@
                } else {
                    "1"@
                },
            )
            &&& in_column(records, row, 4, "anv"@, credit.anv)
            &&& in_column(records, row, 5, "position"@, text::decimal(credit.position as nat))
            &&& in_column(records, row, 6, "join_field"@, credit.join_field)
        }),
{
    let r = output.releases@[k];
    reveal(records_in);
    lemma_read(output, 1, credit_count(), k, j);
}

proof fn lemma_decimals_apart(a: u64, b: u64)
    requires
        text::decimal(a as nat) == text::decimal(b as nat),
    ensures
        a == b,
{
    text::law_decimal_round_trip(a as nat, u64::MAX as nat);
    text::law_decimal_round_trip(b as nat, u64::MAX as nat);
}

/// Releases that differ in a credit, main or extra, in any of its values, give different
/// files.
pub proof fn law_credits_are_told_apart(a: CsvOutput, b: CsvOutput)
    requires
        a.wf(),
        b.wf(),
        a.releases@.len() == 1,
        b.releases@.len() == 1,
        a.csv.contents()[1] == b.csv.contents()[1],
    ensures
        a.releases@[0].artists == b.releases@[0].artists,
        a.releases@[0].extra_artists == b.releases@[0].extra_artists,
        a.releases@[0].artists.len() + a.releases@[0].extra_artists.len() > 0
            ==> a.releases@[0].id == b.releases@[0].id,
{
    let ra = a.releases@[0];
    let rb = b.releases@[0];
    let n = (ra.artists.len() + ra.extra_artists.len()) as int;
    law_record_counts(a);
    law_record_counts(b);
    assert(count_before(a.releases@, 0, credit_count()) == 0);
    assert(count_before(b.releases@, 0, credit_count()) == 0);
    assert(count_before(a.releases@, 1, credit_count()) == n);
    assert(count_before(b.releases@, 1, credit_count()) == rb.artists.len()
        + rb.extra_artists.len());
    let xs = ra.artists + ra.extra_artists;
    let ys = rb.artists + rb.extra_artists;
    assert forall|j: int| 0 <= j < n implies #[trigger] xs[j] == ys[j] && (j < ra.artists.len()
        <==> j < rb.artists.len()) && ra.id == rb.id by {
        law_credit_columns(a, 0, j);
        law_credit_columns(b, 0, j);
        lemma_decimals_apart(ra.id, rb.id);
        lemma_decimals_apart(xs[j].artist_id, ys[j].artist_id);
        lemma_decimals_apart(xs[j].position as u64, ys[j].position as u64);
        reveal_strlit("0");
        reveal_strlit("1");
        assert("0"@[0] != "1"@[0]);
    }
    if ra.artists.len() < rb.artists.len() {
        assert(xs[ra.artists.len() as int] == ys[ra.artists.len() as int]);
    } else if rb.artists.len() < ra.artists.len() {
        assert(xs[rb.artists.len() as int] == ys[rb.artists.len() as int]);
    }
    assert forall|j: int| 0 <= j < ra.artists.len() implies ra.artists[j] == rb.artists[j] by {
        assert(xs[j] == ys[j]);
    }
    assert forall|j: int| 0 <= j < ra.extra_artists.len() implies ra.extra_artists[j]
        == rb.extra_artists[j] by {
        assert(xs[ra.artists.len() + j] == ys[ra.artists.len() + j]);
    }
    if n > 0 {
        assert(xs[0] == ys[0]);
    }
}

/// release_label.csv has one record for each label of each release.
pub proof fn law_label_columns(output: CsvOutput, k: int, j: int)
    requires
        output.wf(),
        0 <= k < output.releases@.len(),
        0 <= j < output.releases@[k].labels.len(),
    ensures
        ({
            let records = read_file(output, 2);
            let r = output.releases@[k];
            let row = 1 + count_before(output.releases@, k, label_count()) + j;
            &&& records[0].len() == 3
            &&& in_column(records, row, 0, "release_id"@, text::decimal(r.id as nat))
            &&& in_column(records, row, 1, "label"@, r.labels[j].name)
            &&& in_column(records, row, 2, "catno"@, r.labels[j].catno)
        }),
{
    let r = output.releases@[k];
    reveal(records_in);
    lemma_read(output, 2, label_count(), k, j);
}

/// The number of labels of a release.
pub open spec fn label_count() -> spec_fn(model::ReleaseView) -> nat {
    |r: model::ReleaseView| r.labels.len()
}

/// The number of tracks of a release.
pub open spec fn track_count() -> spec_fn(model::ReleaseView) -> nat {
    |r: model::ReleaseView| r.tracks.len()
}

/// release_track.csv has one record for each track of each release, numbered from one on
/// in each release.
pub proof fn law_track_columns(output: CsvOutput, k: int, j: int)
    requires
        output.wf(),
        0 <= k < output.releases@.len(),
        0 <= j < output.releases@[k].tracks.len(),
    ensures
        ({
            let records = read_file(output, 3);
            let r = output.releases@[k];
            let row = 1 + count_before(output.releases@, k, track_count()) + j;
            &&& records[0].len() == 5
            &&& in_column(records, row, 0, "release_id"@, text::decimal(r.id as nat))
            &&& in_column(records, row, 1, "sequence"@, text::decimal((j + 1) as nat))
            &&& in_column(records, row, 2, "position"@, r.tracks[j].position)
            &&& in_column(records, row, 3, "title"@, r.tracks[j].title)
            &&& in_column(records, row, 4, "duration"@, r.tracks[j].duration)
        }),
{
    let r = output.releases@[k];
    reveal(records_in);
    lemma_read(output, 3, track_count(), k, j);
}

/// The number of images of a release.
pub open spec fn image_count() -> spec_fn(model::ReleaseView) -> nat {
    |r: model::ReleaseView| r.images.len()
}

/// release_image.csv has one record for each image of each release.
pub proof fn law_image_columns(output: CsvOutput, k: int, j: int)
    requires
        output.wf(),
        0 <= k < output.releases@.len(),
        0 <= j < output.releases@[k].images.len(),
    ensures
        ({
            let records = read_file(output, 5);
            let r = output.releases@[k];
            let row = 1 + count_before(output.releases@, k, image_count()) + j;
            &&& records[0].len() == 5
            &&& in_column(records, row, 0, "release_id"@, text::decimal(r.id as nat))
            &&& in_column(records, row, 1, "type"@, r.images[j].image_type)
            &&& in_column(records, row, 2, "width"@, text::decimal(r.images[j].width as nat))
            &&& in_column(records, row, 3, "height"@, text::decimal(r.images[j].height as nat))
            &&& in_column(records, row, 4, "uri"@, r.images[j].uri)
        }),
{
    let r = output.releases@[k];
    reveal(records_in);
    lemma_read(output, 5, image_count(), k, j);
}

/// The number of genres of a release.
pub open spec fn genre_count() -> spec_fn(model::ReleaseView) -> nat {
    |r: model::ReleaseView| r.genres.len()
}

/// The number of styles of a release.
pub open spec fn style_count() -> spec_fn(model::ReleaseView) -> nat {
    |r: model::ReleaseView| r.styles.len()
}

/// release_genre.csv has one record for each genre of each release.
pub proof fn law_genre_columns(output: CsvOutput, k: int, j: int)
    requires
        output.wf(),
        0 <= k < output.releases@.len(),
        0 <= j < output.releases@[k].genres.len(),
    ensures
        ({
            let records = read_file(output, 6);
            let r = output.releases@[k];
            let row = 1 + count_before(output.releases@, k, genre_count()) + j;
            &&& records[0].len() == 2
            &&& in_column(records, row, 0, "release_id"@, text::decimal(r.id as nat))
            &&& in_column(records, row, 1, "genre"@, r.genres[j])
        }),
{
    let r = output.releases@[k];
    reveal(records_in);
    lemma_read(output, 6, genre_count(), k, j);
}

/// release_style.csv has one record for each style of each release.
pub proof fn law_style_columns(output: CsvOutput, k: int, j: int)
    requires
        output.wf(),
        0 <= k < output.releases@.len(),
        0 <= j < output.releases@[k].styles.len(),
    ensures
        ({
            let records = read_file(output, 7);
            let r = output.releases@[k];
            let row = 1 + count_before(output.releases@, k, style_count()) + j;
            &&& records[0].len() == 2
            &&& in_column(records, row, 0, "release_id"@, text::decimal(r.id as nat))
            &&& in_column(records, row, 1, "style"@, r.styles[j])
        }),
{
    let r = output.releases@[k];
    reveal(records_in);
    lemma_read(output, 7, style_count(), k, j);
}

/// The number of companies of a release.
pub open spec fn company_count() -> spec_fn(model::ReleaseView) -> nat {
    |r: model::ReleaseView| r.companies.len()
}

/// release_company.csv has one record for each company of each release.
pub proof fn law_company_columns(output: CsvOutput, k: int, j: int)
    requires
        output.wf(),
        0 <= k < output.releases@.len(),
        0 <= j < output.releases@[k].companies.len(),
    ensures
        ({
            let records = read_file(output, 8);
            let r = output.releases@[k];
            let company = r.companies[j];
            let row = 1 + count_before(output.releases@, k, company_count()) + j;
            &&& records[0].len() == 5
            &&& in_column(records, row, 0, "release_id"@, text::decimal(r.id as nat))
            &&& in_column(records, row, 1, "company_id"@, text::decimal(company.company_id as nat))
            &&& in_column(records, row, 2, "company_name"@, company.name)
            &&& in_column(
                records,
                row,
                3,
                "entity_type"@,
                text::decimal(company.entity_type as nat),
            )
            &&& in_column(records, row, 4, "entity_type_name"@, company.entity_type_name)
        }),
{
    let r = output.releases@[k];
    reveal(records_in);
    lemma_read(output, 8, company_count(), k, j);
}

/// The number of artist credits of a track.
pub open spec fn track_credits() -> spec_fn(model::ReleaseTrackView) -> nat {
    |t: model::ReleaseTrackView| t.artists.len() + t.extra_artists.len()
}

/// The number of artist credits of the tracks of a release.
pub open spec fn track_credit_count() -> spec_fn(model::ReleaseView) -> nat {
    |r: model::ReleaseView| count_before(r.tracks, r.tracks.len() as int, track_credits())
}

proof fn lemma_track_total(id: u64, tracks: Seq<model::ReleaseTrackView>)
    ensures
        writer::track_artist_rows(id, tracks).len() == count_before(
            tracks,
            tracks.len() as int,
            track_credits(),
        ),
    decreases tracks.len(),
{
    if tracks.len() > 0 {
        let last = tracks.len() - 1;
        lemma_track_total(id, tracks.drop_last());
        lemma_count_prefix(tracks, last, track_credits());
        assert(tracks[last] == tracks.last());
    }
}

proof fn lemma_track_place(id: u64, tracks: Seq<model::ReleaseTrackView>, t: int, c: int)
    requires
        0 <= t < tracks.len(),
        0 <= c < tracks[t].artists.len() + tracks[t].extra_artists.len(),
    ensures
        ({
            let place = count_before(tracks, t, track_credits()) + c;
            let rows = writer::track_artist_rows(id, tracks);
            &&& place < rows.len()
            &&& rows[place].len() == 3
            &&& rows[place][0] == text::decimal(id as nat)
            &&& rows[place][1] == text::decimal((t + 1) as nat)
            &&& rows[place][2] == (tracks[t].artists + tracks[t].extra_artists)[c].name
        }),
    decreases tracks.len(),
{
    let shorter = tracks.drop_last();
    let last = tracks.len() - 1;
    lemma_track_total(id, shorter);
    lemma_count_prefix(tracks, t, track_credits());
    assert(tracks[last] == tracks.last());
    let earlier = writer::track_artist_rows(id, shorter);
    let main = writer::track_credit_rows(id, tracks.len(), tracks.last().artists);
    let extra = writer::track_credit_rows(id, tracks.len(), tracks.last().extra_artists);
    let all = writer::track_artist_rows(id, tracks);
    assert(all == earlier + main + extra);
    let place = count_before(tracks, t, track_credits()) + c;
    if t < last {
        lemma_track_place(id, shorter, t, c);
        assert(shorter[t] == tracks[t]);
        assert(all[place] == earlier[place]);
    } else if c < main.len() {
        assert(all[place] == main[c]);
    } else {
        assert(all[place] == extra[c - main.len()]);
    }
}

proof fn lemma_track_credits_counted(releases: Seq<model::ReleaseView>)
    ensures
        counted(releases, 4, track_credit_count()),
{
    reveal(records_in);
    assert forall|i: int| 0 <= i < releases.len() implies records_in(
        #[trigger] releases[i],
        4,
    ).len() == track_credit_count()(releases[i]) by {
        lemma_track_total(releases[i].id, releases[i].tracks);
    }
}

/// release_track_artist.csv has one record for each artist credit of each track, of each
/// track first the main and then the extra ones, with the number of the track.
pub proof fn law_track_credit_columns(output: CsvOutput, k: int, t: int, c: int)
    requires
        output.wf(),
        0 <= k < output.releases@.len(),
        0 <= t < output.releases@[k].tracks.len(),
        0 <= c < output.releases@[k].tracks[t].artists.len()
            + output.releases@[k].tracks[t].extra_artists.len(),
    ensures
        ({
            let records = read_file(output, 4);
            let r = output.releases@[k];
            let credit = (r.tracks[t].artists + r.tracks[t].extra_artists)[c];
            let row = 1 + count_before(output.releases@, k, track_credit_count()) + count_before(
                r.tracks,
                t,
                track_credits(),
            ) + c;
            &&& records[0].len() == 3
            &&& in_column(records, row, 0, "release_id"@, text::decimal(r.id as nat))
            &&& in_column(records, row, 1, "track_sequence"@, text::decimal((t + 1) as nat))
            &&& in_column(records, row, 2, "artist_name"@, credit.name)
        }),
{
    let r = output.releases@[k];
    let j = count_before(r.tracks, t, track_credits()) + c;
    lemma_track_credits_counted(output.releases@);
    lemma_track_total(r.id, r.tracks);
    lemma_track_place(r.id, r.tracks, t, c);
    lemma_read(output, 4, track_credit_count(), k, j);
    reveal(records_in);
}

/// How many records the files have: the header, and one for each thing that is written.
pub proof fn law_record_counts(output: CsvOutput)
    requires
        output.wf(),
    ensures
        ({
            let releases = output.releases@;
            let n = releases.len() as int;
            &&& read_file(output, 1).len() == 1 + count_before(releases, n, credit_count())
            &&& read_file(output, 2).len() == 1 + count_before(releases, n, label_count())
            &&& read_file(output, 3).len() == 1 + count_before(releases, n, track_count())
            &&& read_file(output, 4).len() == 1 + count_before(releases, n, track_credit_count())
            &&& read_file(output, 5).len() == 1 + count_before(releases, n, image_count())
            &&& read_file(output, 6).len() == 1 + count_before(releases, n, genre_count())
            &&& read_file(output, 7).len() == 1 + count_before(releases, n, style_count())
            &&& read_file(output, 8).len() == 1 + count_before(releases, n, company_count())
        }),
{
    lemma_counted(output.releases@);
    lemma_track_credits_counted(output.releases@);
    lemma_read_total(output, 1, credit_count());
    lemma_read_total(output, 2, label_count());
    lemma_read_total(output, 3, track_count());
    lemma_read_total(output, 4, track_credit_count());
    lemma_read_total(output, 5, image_count());
    lemma_read_total(output, 6, genre_count());
    lemma_read_total(output, 7, style_count());
    lemma_read_total(output, 8, company_count());
}

proof fn lemma_counted(releases: Seq<model::ReleaseView>)
    ensures
        counted(releases, 1, credit_count()),
        counted(releases, 2, label_count()),
        counted(releases, 3, track_count()),
        counted(releases, 5, image_count()),
        counted(releases, 6, genre_count()),
        counted(releases, 7, style_count()),
        counted(releases, 8, company_count()),
{
    reveal(records_in);
}

} // verus!
