//! What stands in the columns of the CSV files of artists, labels and master releases.

use crate::artist_model;
use crate::artist_writer;
use crate::artist_writer::ArtistCsvOutput;
use crate::csv_laws;
use crate::label_model;
use crate::label_writer;
use crate::label_writer::LabelCsvOutput;
use crate::master_model;
use crate::master_writer;
use crate::master_writer::MasterCsvOutput;
use crate::release_columns::{count_before, in_column, lemma_count_prefix};
use crate::text;
use crate::writer::Row;
use vstd::prelude::*;

verus! {

/// The records of items, one item after another.
spec fn flat<T>(items: Seq<T>, rows: spec_fn(T) -> Seq<Row>) -> Seq<Row>
    decreases items.len(),
{
    if items.len() == 0 {
        Seq::empty()
    } else {
        flat(items.drop_last(), rows) + rows(items.last())
    }
}

proof fn lemma_flat_total<T>(items: Seq<T>, rows: spec_fn(T) -> Seq<Row>, count: spec_fn(T) -> nat)
    requires
        forall|i: int|
            0 <= i < items.len() ==> rows(#[trigger] items[i]).len() == count(items[i]),
    ensures
        flat(items, rows).len() == count_before(items, items.len() as int, count),
    decreases items.len(),
{
    if items.len() > 0 {
        let shorter = items.drop_last();
        let last = items.len() - 1;
        assert forall|i: int| 0 <= i < shorter.len() implies rows(#[trigger] shorter[i]).len()
            == count(shorter[i]) by {
            assert(shorter[i] == items[i]);
        }
        lemma_flat_total(shorter, rows, count);
        lemma_count_prefix(items, last, count);
        assert(items[last] == items.last());
    }
}

proof fn lemma_flat_place<T>(
    items: Seq<T>,
    rows: spec_fn(T) -> Seq<Row>,
    count: spec_fn(T) -> nat,
    k: int,
    j: int,
)
    requires
        forall|i: int|
            0 <= i < items.len() ==> rows(#[trigger] items[i]).len() == count(items[i]),
        0 <= k < items.len(),
        0 <= j < count(items[k]),
    ensures
        count_before(items, k, count) + j < flat(items, rows).len(),
        flat(items, rows)[count_before(items, k, count) + j] == rows(items[k])[j],
    decreases items.len(),
{
    let shorter = items.drop_last();
    let last = items.len() - 1;
    assert forall|i: int| 0 <= i < shorter.len() implies rows(#[trigger] shorter[i]).len() == count(
        shorter[i],
    ) by {
        assert(shorter[i] == items[i]);
    }
    lemma_flat_total(shorter, rows, count);
    lemma_count_prefix(items, k, count);
    assert(items[last] == items.last());
    assert(rows(items[k]).len() == count(items[k]));
    let earlier = flat(shorter, rows);
    let own = rows(items.last());
    let place = count_before(items, k, count) + j;
    if k < last {
        lemma_flat_place(shorter, rows, count, k, j);
        assert(shorter[k] == items[k]);
        assert((earlier + own)[place] == earlier[place]);
    } else {
        assert((earlier + own)[earlier.len() + j] == own[j]);
    }
}

/// As many as a condition says: one, or none.
pub open spec fn one_if(condition: bool) -> nat {
    if condition {
        1
    } else {
        0
    }
}

/// The records that a reader finds in one of the files of artists, the header first.
pub open spec fn read_artist_file(output: ArtistCsvOutput, file: int) -> Seq<Row> {
    csv_laws::records_of(output.csv.contents()[file])
}

spec fn artist_rows_in(file: int) -> spec_fn(artist_model::ArtistView) -> Seq<Row> {
    |item: artist_model::ArtistView| artist_writer::artist_rows(item)[file]
}

proof fn lemma_artist_flat(artists: Seq<artist_model::ArtistView>, file: int)
    ensures
        artist_writer::all_artist_rows(artists, file) == flat(artists, artist_rows_in(file)),
    decreases artists.len(),
{
    if artists.len() > 0 {
        lemma_artist_flat(artists.drop_last(), file);
    }
}

proof fn lemma_artist_read(
    output: ArtistCsvOutput,
    file: int,
    count: spec_fn(artist_model::ArtistView) -> nat,
)
    requires
        output.wf(),
        0 <= file < 5,
        forall|i: int|
            0 <= i < output.artists@.len() ==> artist_rows_in(file)(
                #[trigger] output.artists@[i],
            ).len() == count(output.artists@[i]),
    ensures
        read_artist_file(output, file).len() == 1 + count_before(
            output.artists@,
            output.artists@.len() as int,
            count,
        ),
        read_artist_file(output, file)[0] == artist_writer::artist_headers()[file],
{
    let artists = output.artists@;
    assert(output.csv.contents()[file] == artist_writer::artist_file(artists, file));
    artist_writer::law_artist_files_are_read_back(artists, file);
    lemma_artist_flat(artists, file);
    lemma_flat_total(artists, artist_rows_in(file), count);
}

proof fn lemma_artist_read_at(
    output: ArtistCsvOutput,
    file: int,
    count: spec_fn(artist_model::ArtistView) -> nat,
    k: int,
    j: int,
)
    requires
        output.wf(),
        0 <= file < 5,
        forall|i: int|
            0 <= i < output.artists@.len() ==> artist_rows_in(file)(
                #[trigger] output.artists@[i],
            ).len() == count(output.artists@[i]),
        0 <= k < output.artists@.len(),
        0 <= j < count(output.artists@[k]),
    ensures
        ({
            let records = read_artist_file(output, file);
            let row = 1 + count_before(output.artists@, k, count) + j;
            &&& 0 < row < records.len()
            &&& records[0] == artist_writer::artist_headers()[file]
            &&& records[row] == artist_rows_in(file)(output.artists@[k])[j]
        }),
{
    let artists = output.artists@;
    assert(output.csv.contents()[file] == artist_writer::artist_file(artists, file));
    artist_writer::law_artist_files_are_read_back(artists, file);
    lemma_artist_flat(artists, file);
    lemma_flat_place(artists, artist_rows_in(file), count, k, j);
    let body = artist_writer::all_artist_rows(artists, file);
    let place = count_before(artists, k, count) + j;
    let records = read_artist_file(output, file);
    assert(records == seq![artist_writer::artist_headers()[file]] + body);
    assert(records[place + 1] == body[place]);
}

/// The number of records of an artist in artist.csv: one where there is a profile.
pub open spec fn profile_count() -> spec_fn(artist_model::ArtistView) -> nat {
    |item: artist_model::ArtistView| one_if(item.profile.len() > 0)
}

/// artist.csv has one record for each artist with a profile, in order.
pub proof fn law_profile_columns(output: ArtistCsvOutput, k: int)
    requires
        output.wf(),
        0 <= k < output.artists@.len(),
        output.artists@[k].profile.len() > 0,
    ensures
        ({
            let records = read_artist_file(output, 0);
            let item = output.artists@[k];
            let row = 1 + count_before(output.artists@, k, profile_count()) + 0int;
            &&& output.csv.names()[0] == "artist.csv"@
            &&& records.len() == 1 + count_before(
                output.artists@,
                output.artists@.len() as int,
                profile_count(),
            )
            &&& records[0].len() == 3
            &&& in_column(records, row, 0, "artist_id"@, text::decimal(item.id as nat))
            &&& in_column(records, row, 1, "artist_name"@, item.name)
            &&& in_column(records, row, 2, "profile"@, item.profile)
        }),
{
    lemma_artist_read(output, 0, profile_count());
    lemma_artist_read_at(output, 0, profile_count(), k, 0);
}

/// The number of records of an artist in artist_alias.csv.
pub open spec fn alias_count() -> spec_fn(artist_model::ArtistView) -> nat {
    |item: artist_model::ArtistView| item.aliases.len()
}

/// artist_alias.csv has one record for each alias of each artist, in order.
pub proof fn law_alias_columns(output: ArtistCsvOutput, k: int, j: int)
    requires
        output.wf(),
        0 <= k < output.artists@.len(),
        0 <= j < output.artists@[k].aliases.len(),
    ensures
        ({
            let records = read_artist_file(output, 1);
            let item = output.artists@[k];
            let row = 1 + count_before(output.artists@, k, alias_count()) + j;
            &&& output.csv.names()[1] == "artist_alias.csv"@
            &&& records.len() == 1 + count_before(
                output.artists@,
                output.artists@.len() as int,
                alias_count(),
            )
            &&& records[0].len() == 3
            &&& in_column(records, row, 0, "artist_id"@, text::decimal(item.id as nat))
            &&& in_column(records, row, 1, "artist_name"@, item.name)
            &&& in_column(records, row, 2, "alias_name"@, item.aliases[j])
        }),
{
    lemma_artist_read(output, 1, alias_count());
    lemma_artist_read_at(output, 1, alias_count(), k, j);
}

/// The number of records of an artist in artist_name_variation.csv.
pub open spec fn variation_count() -> spec_fn(artist_model::ArtistView) -> nat {
    |item: artist_model::ArtistView| item.name_variations.len()
}

/// artist_name_variation.csv has one record for each name variation of each artist.
pub proof fn law_variation_columns(output: ArtistCsvOutput, k: int, j: int)
    requires
        output.wf(),
        0 <= k < output.artists@.len(),
        0 <= j < output.artists@[k].name_variations.len(),
    ensures
        ({
            let records = read_artist_file(output, 2);
            let item = output.artists@[k];
            let row = 1 + count_before(output.artists@, k, variation_count()) + j;
            &&& output.csv.names()[2] == "artist_name_variation.csv"@
            &&& records.len() == 1 + count_before(
                output.artists@,
                output.artists@.len() as int,
                variation_count(),
            )
            &&& records[0].len() == 2
            &&& in_column(records, row, 0, "artist_id"@, text::decimal(item.id as nat))
            &&& in_column(records, row, 1, "name"@, item.name_variations[j])
        }),
{
    lemma_artist_read(output, 2, variation_count());
    lemma_artist_read_at(output, 2, variation_count(), k, j);
}

/// The number of records of an artist in artist_member.csv.
pub open spec fn member_count() -> spec_fn(artist_model::ArtistView) -> nat {
    |item: artist_model::ArtistView| item.members.len()
}

/// artist_member.csv has one record for each member of each artist, in order.
pub proof fn law_member_columns(output: ArtistCsvOutput, k: int, j: int)
    requires
        output.wf(),
        0 <= k < output.artists@.len(),
        0 <= j < output.artists@[k].members.len(),
    ensures
        ({
            let records = read_artist_file(output, 3);
            let item = output.artists@[k];
            let row = 1 + count_before(output.artists@, k, member_count()) + j;
            &&& output.csv.names()[3] == "artist_member.csv"@
            &&& records.len() == 1 + count_before(
                output.artists@,
                output.artists@.len() as int,
                member_count(),
            )
            &&& records[0].len() == 4
            &&& in_column(records, row, 0, "group_artist_id"@, text::decimal(item.id as nat))
            &&& in_column(records, row, 1, "group_name"@, item.name)
            &&& in_column(records, row, 2, "member_artist_id"@, text::decimal(item.members[j].id as nat))
            &&& in_column(records, row, 3, "member_name"@, item.members[j].name)
        }),
{
    lemma_artist_read(output, 3, member_count());
    lemma_artist_read_at(output, 3, member_count(), k, j);
}

/// The number of records of an artist in artist_url.csv.
pub open spec fn url_count() -> spec_fn(artist_model::ArtistView) -> nat {
    |item: artist_model::ArtistView| item.urls.len()
}

/// artist_url.csv has one record for each link of each artist, in order.
pub proof fn law_url_columns(output: ArtistCsvOutput, k: int, j: int)
    requires
        output.wf(),
        0 <= k < output.artists@.len(),
        0 <= j < output.artists@[k].urls.len(),
    ensures
        ({
            let records = read_artist_file(output, 4);
            let item = output.artists@[k];
            let row = 1 + count_before(output.artists@, k, url_count()) + j;
            &&& output.csv.names()[4] == "artist_url.csv"@
            &&& records.len() == 1 + count_before(
                output.artists@,
                output.artists@.len() as int,
                url_count(),
            )
            &&& records[0].len() == 2
            &&& in_column(records, row, 0, "artist_id"@, text::decimal(item.id as nat))
            &&& in_column(records, row, 1, "url"@, item.urls[j])
        }),
{
    lemma_artist_read(output, 4, url_count());
    lemma_artist_read_at(output, 4, url_count(), k, j);
}

/// The records that a reader finds in one of the files of labels, the header first.
pub open spec fn read_label_file(output: LabelCsvOutput, file: int) -> Seq<Row> {
    csv_laws::records_of(output.csv.contents()[file])
}

spec fn label_rows_in(file: int) -> spec_fn(label_model::LabelView) -> Seq<Row> {
    |item: label_model::LabelView| label_writer::label_rows(item)[file]
}

proof fn lemma_label_flat(labels: Seq<label_model::LabelView>, file: int)
    ensures
        label_writer::all_label_rows(labels, file) == flat(labels, label_rows_in(file)),
    decreases labels.len(),
{
    if labels.len() > 0 {
        lemma_label_flat(labels.drop_last(), file);
    }
}

proof fn lemma_label_read(
    output: LabelCsvOutput,
    file: int,
    count: spec_fn(label_model::LabelView) -> nat,
)
    requires
        output.wf(),
        0 <= file < 1,
        forall|i: int|
            0 <= i < output.labels@.len() ==> label_rows_in(file)(
                #[trigger] output.labels@[i],
            ).len() == count(output.labels@[i]),
    ensures
        read_label_file(output, file).len() == 1 + count_before(
            output.labels@,
            output.labels@.len() as int,
            count,
        ),
        read_label_file(output, file)[0] == label_writer::label_headers()[file],
{
    let labels = output.labels@;
    assert(output.csv.contents()[file] == label_writer::label_file(labels, file));
    label_writer::law_label_files_are_read_back(labels, file);
    lemma_label_flat(labels, file);
    lemma_flat_total(labels, label_rows_in(file), count);
}

proof fn lemma_label_read_at(
    output: LabelCsvOutput,
    file: int,
    count: spec_fn(label_model::LabelView) -> nat,
    k: int,
    j: int,
)
    requires
        output.wf(),
        0 <= file < 1,
        forall|i: int|
            0 <= i < output.labels@.len() ==> label_rows_in(file)(
                #[trigger] output.labels@[i],
            ).len() == count(output.labels@[i]),
        0 <= k < output.labels@.len(),
        0 <= j < count(output.labels@[k]),
    ensures
        ({
            let records = read_label_file(output, file);
            let row = 1 + count_before(output.labels@, k, count) + j;
            &&& 0 < row < records.len()
            &&& records[0] == label_writer::label_headers()[file]
            &&& records[row] == label_rows_in(file)(output.labels@[k])[j]
        }),
{
    let labels = output.labels@;
    assert(output.csv.contents()[file] == label_writer::label_file(labels, file));
    label_writer::law_label_files_are_read_back(labels, file);
    lemma_label_flat(labels, file);
    lemma_flat_place(labels, label_rows_in(file), count, k, j);
    let body = label_writer::all_label_rows(labels, file);
    let place = count_before(labels, k, count) + j;
    let records = read_label_file(output, file);
    assert(records == seq![label_writer::label_headers()[file]] + body);
    assert(records[place + 1] == body[place]);
}

/// The number of records of a label: one where it has a parent.
pub open spec fn hierarchy_count() -> spec_fn(label_model::LabelView) -> nat {
    |item: label_model::LabelView| one_if(item.parent_id is Some)
}

/// label_hierarchy.csv has one record for each label with a parent, in order.
pub proof fn law_hierarchy_columns(output: LabelCsvOutput, k: int)
    requires
        output.wf(),
        0 <= k < output.labels@.len(),
        output.labels@[k].parent_id is Some,
    ensures
        ({
            let records = read_label_file(output, 0);
            let item = output.labels@[k];
            let row = 1 + count_before(output.labels@, k, hierarchy_count()) + 0int;
            &&& output.csv.names()[0] == "label_hierarchy.csv"@
            &&& records.len() == 1 + count_before(
                output.labels@,
                output.labels@.len() as int,
                hierarchy_count(),
            )
            &&& records[0].len() == 4
            &&& in_column(records, row, 0, "label_id"@, text::decimal(item.id as nat))
            &&& in_column(records, row, 1, "label_name"@, item.name)
            &&& in_column(records, row, 2, "parent_label_id"@, text::decimal(item.parent_id->0 as nat))
            &&& in_column(records, row, 3, "parent_label_name"@, item.parent_name)
        }),
{
    lemma_label_read(output, 0, hierarchy_count());
    lemma_label_read_at(output, 0, hierarchy_count(), k, 0);
}

/// The records that a reader finds in one of the files of masters, the header first.
pub open spec fn read_master_file(output: MasterCsvOutput, file: int) -> Seq<Row> {
    csv_laws::records_of(output.csv.contents()[file])
}

spec fn master_rows_in(file: int) -> spec_fn(master_model::MasterView) -> Seq<Row> {
    |item: master_model::MasterView| master_writer::master_rows(item)[file]
}

proof fn lemma_master_flat(masters: Seq<master_model::MasterView>, file: int)
    ensures
        master_writer::all_master_rows(masters, file) == flat(masters, master_rows_in(file)),
    decreases masters.len(),
{
    if masters.len() > 0 {
        lemma_master_flat(masters.drop_last(), file);
    }
}

proof fn lemma_master_read(
    output: MasterCsvOutput,
    file: int,
    count: spec_fn(master_model::MasterView) -> nat,
)
    requires
        output.wf(),
        0 <= file < 2,
        forall|i: int|
            0 <= i < output.masters@.len() ==> master_rows_in(file)(
                #[trigger] output.masters@[i],
            ).len() == count(output.masters@[i]),
    ensures
        read_master_file(output, file).len() == 1 + count_before(
            output.masters@,
            output.masters@.len() as int,
            count,
        ),
        read_master_file(output, file)[0] == master_writer::master_headers()[file],
{
    let masters = output.masters@;
    assert(output.csv.contents()[file] == master_writer::master_file(masters, file));
    master_writer::law_master_files_are_read_back(masters, file);
    lemma_master_flat(masters, file);
    lemma_flat_total(masters, master_rows_in(file), count);
}

proof fn lemma_master_read_at(
    output: MasterCsvOutput,
    file: int,
    count: spec_fn(master_model::MasterView) -> nat,
    k: int,
    j: int,
)
    requires
        output.wf(),
        0 <= file < 2,
        forall|i: int|
            0 <= i < output.masters@.len() ==> master_rows_in(file)(
                #[trigger] output.masters@[i],
            ).len() == count(output.masters@[i]),
        0 <= k < output.masters@.len(),
        0 <= j < count(output.masters@[k]),
    ensures
        ({
            let records = read_master_file(output, file);
            let row = 1 + count_before(output.masters@, k, count) + j;
            &&& 0 < row < records.len()
            &&& records[0] == master_writer::master_headers()[file]
            &&& records[row] == master_rows_in(file)(output.masters@[k])[j]
        }),
{
    let masters = output.masters@;
    assert(output.csv.contents()[file] == master_writer::master_file(masters, file));
    master_writer::law_master_files_are_read_back(masters, file);
    lemma_master_flat(masters, file);
    lemma_flat_place(masters, master_rows_in(file), count, k, j);
    let body = master_writer::all_master_rows(masters, file);
    let place = count_before(masters, k, count) + j;
    let records = read_master_file(output, file);
    assert(records == seq![master_writer::master_headers()[file]] + body);
    assert(records[place + 1] == body[place]);
}

/// A number in decimal, or nothing.
pub open spec fn decimal_or_nothing(n: Option<nat>) -> Seq<char> {
    match n {
        Some(n) => text::decimal(n),
        None => Seq::empty(),
    }
}

/// The number of records of a master release in master.csv.
pub open spec fn master_count() -> spec_fn(master_model::MasterView) -> nat {
    |item: master_model::MasterView| 1
}

/// master.csv has one record for each master release, in order.
pub proof fn law_master_columns(output: MasterCsvOutput, k: int)
    requires
        output.wf(),
        0 <= k < output.masters@.len(),
    ensures
        ({
            let records = read_master_file(output, 0);
            let item = output.masters@[k];
            let row = 1 + count_before(output.masters@, k, master_count()) + 0int;
            &&& output.csv.names()[0] == "master.csv"@
            &&& records.len() == 1 + count_before(
                output.masters@,
                output.masters@.len() as int,
                master_count(),
            )
            &&& records[0].len() == 4
            &&& in_column(records, row, 0, "id"@, text::decimal(item.id as nat))
            &&& in_column(records, row, 1, "title"@, item.title)
            &&& in_column(records, row, 2, "main_release_id"@, decimal_or_nothing(match item.main_release_id { Some(n) => Some(n as nat), None => None }))
            &&& in_column(records, row, 3, "year"@, decimal_or_nothing(match item.year { Some(n) => Some(n as nat), None => None }))
        }),
{
    lemma_master_read(output, 0, master_count());
    lemma_master_read_at(output, 0, master_count(), k, 0);
}

/// The number of records of a master release in master_artist.csv.
pub open spec fn master_artist_count() -> spec_fn(master_model::MasterView) -> nat {
    |item: master_model::MasterView| item.artists.len()
}

/// master_artist.csv has one record for each artist of each master release, in order.
pub proof fn law_master_artist_columns(output: MasterCsvOutput, k: int, j: int)
    requires
        output.wf(),
        0 <= k < output.masters@.len(),
        0 <= j < output.masters@[k].artists.len(),
    ensures
        ({
            let records = read_master_file(output, 1);
            let item = output.masters@[k];
            let row = 1 + count_before(output.masters@, k, master_artist_count()) + j;
            &&& output.csv.names()[1] == "master_artist.csv"@
            &&& records.len() == 1 + count_before(
                output.masters@,
                output.masters@.len() as int,
                master_artist_count(),
            )
            &&& records[0].len() == 3
            &&& in_column(records, row, 0, "master_id"@, text::decimal(item.id as nat))
            &&& in_column(records, row, 1, "artist_id"@, text::decimal(item.artists[j].id as nat))
            &&& in_column(records, row, 2, "artist_name"@, item.artists[j].name)
        }),
{
    lemma_master_read(output, 1, master_artist_count());
    lemma_master_read_at(output, 1, master_artist_count(), k, j);
}

} // verus!
