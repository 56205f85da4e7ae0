//! Artists as CSV files.
//!
//! Five files: artist.csv with the profiles, artist_alias.csv with the other names of
//! the artists, artist_name_variation.csv with the spellings of their names,
//! artist_member.csv with the members of groups, and artist_url.csv with links.

use crate::artist_model;
use crate::artist_model::{Artist, Member};
use crate::csv_file;
use crate::csv_file::{Chunk, CsvFiles};
use crate::csv_laws;
use crate::text;
use crate::writer;
use crate::writer::Row;
use vstd::prelude::*;

verus! {

/// The names of the files.
pub open spec fn artist_file_names() -> Seq<Seq<char>> {
    seq!["artist.csv"@, "artist_alias.csv"@, "artist_name_variation.csv"@, "artist_member.csv"@, "artist_url.csv"@]
}

/// The headers of the files.
pub open spec fn artist_headers() -> Seq<Row> {
    seq![
        seq!["artist_id"@, "artist_name"@, "profile"@],
        seq!["artist_id"@, "artist_name"@, "alias_name"@],
        seq!["artist_id"@, "name"@],
        seq!["group_artist_id"@, "group_name"@, "member_artist_id"@, "member_name"@],
        seq!["artist_id"@, "url"@],
    ]
}

/// The record of the profile of an artist; none where the profile is empty.
pub open spec fn profile_rows(artist: artist_model::ArtistView) -> Seq<Row> {
    if artist.profile.len() == 0 {
        Seq::empty()
    } else {
        seq![seq![text::decimal(artist.id as nat), artist.name, artist.profile]]
    }
}

/// The records of the aliases of an artist.
pub open spec fn alias_rows(id: u64, name: Seq<char>, aliases: Seq<Seq<char>>) -> Seq<Row> {
    aliases.map_values(|alias: Seq<char>| seq![text::decimal(id as nat), name, alias])
}

/// The records of the members of a group.
pub open spec fn member_rows(
    id: u64,
    name: Seq<char>,
    members: Seq<artist_model::MemberView>,
) -> Seq<Row> {
    members.map_values(
        |member: artist_model::MemberView|
            seq![
                text::decimal(id as nat),
                name,
                text::decimal(member.id as nat),
                member.name,
            ],
    )
}

/// The records of an artist in each of the files.
pub open spec fn artist_rows(artist: artist_model::ArtistView) -> Seq<Seq<Row>> {
    seq![
        profile_rows(artist),
        alias_rows(artist.id, artist.name, artist.aliases),
        writer::tag_rows(artist.id, artist.name_variations),
        member_rows(artist.id, artist.name, artist.members),
        writer::tag_rows(artist.id, artist.urls),
    ]
}

/// The records of a sequence of artists in one of the files.
pub open spec fn all_artist_rows(artists: Seq<artist_model::ArtistView>, file: int) -> Seq<Row>
    decreases artists.len(),
{
    if artists.len() == 0 {
        Seq::empty()
    } else {
        all_artist_rows(artists.drop_last(), file) + artist_rows(artists.last())[file]
    }
}

/// One of the files after a sequence of artists: the header, and the records of the
/// artists in order.
pub open spec fn artist_file(artists: Seq<artist_model::ArtistView>, file: int) -> Seq<u8> {
    csv_file::csv_lines(seq![artist_headers()[file]] + all_artist_rows(artists, file))
}

fn write_profile_rows(artist: &Artist) -> (rows: Vec<Vec<String>>)
    ensures
        rows.deep_view() == profile_rows(artist.deep_view()),
{
    let mut rows: Vec<Vec<String>> = Vec::new();
    if !artist.profile.as_str().is_empty() {
        let row = vec![
            text::decimal_string(artist.id),
            artist.name.clone(),
            artist.profile.clone(),
        ];
        assert(row.deep_view() == seq![
            text::decimal(artist.id as nat),
            artist.name@,
            artist.profile@,
        ]);
        text::push_item(&mut rows, row);
    }
    assert(rows.deep_view() == profile_rows(artist.deep_view()));
    rows
}

fn write_alias_rows(id: u64, name: &String, aliases: &Vec<String>) -> (rows: Vec<Vec<String>>)
    ensures
        rows.deep_view() == alias_rows(id, name@, aliases.deep_view()),
{
    let ghost all = alias_rows(id, name@, aliases.deep_view());
    let mut rows: Vec<Vec<String>> = Vec::new();
    let mut i: usize = 0;
    while i < aliases.len()
        invariant
            i <= aliases.len(),
            all == alias_rows(id, name@, aliases.deep_view()),
            rows.deep_view() == all.take(i as int),
        decreases aliases.len() - i,
    {
        let row = vec![text::decimal_string(id), name.clone(), aliases[i].clone()];
        assert(aliases.deep_view()[i as int] == aliases[i as int].deep_view());
        assert(row.deep_view() == all[i as int]);
        text::push_item(&mut rows, row);
        assert(all.take(i + 1) == all.take(i as int).push(all[i as int]));
        i += 1;
    }
    assert(all.take(all.len() as int) == all);
    rows
}

fn write_member_rows(id: u64, name: &String, members: &Vec<Member>) -> (rows: Vec<Vec<String>>)
    ensures
        rows.deep_view() == member_rows(id, name@, members.deep_view()),
{
    let ghost all = member_rows(id, name@, members.deep_view());
    let mut rows: Vec<Vec<String>> = Vec::new();
    let mut i: usize = 0;
    while i < members.len()
        invariant
            i <= members.len(),
            all == member_rows(id, name@, members.deep_view()),
            rows.deep_view() == all.take(i as int),
        decreases members.len() - i,
    {
        let row = vec![
            text::decimal_string(id),
            name.clone(),
            text::decimal_string(members[i].id),
            members[i].name.clone(),
        ];
        assert(members.deep_view()[i as int] == members[i as int].deep_view());
        assert(row.deep_view() == all[i as int]);
        text::push_item(&mut rows, row);
        assert(all.take(i + 1) == all.take(i as int).push(all[i as int]));
        i += 1;
    }
    assert(all.take(all.len() as int) == all);
    rows
}

fn write_artist_tables(artist: &Artist) -> (tables: Vec<Vec<Vec<String>>>)
    ensures
        tables.deep_view() == artist_rows(artist.deep_view()),
        tables.len() == 5,
{
    let tables = vec![
        write_profile_rows(artist),
        write_alias_rows(artist.id, &artist.name, &artist.aliases),
        writer::write_tag_rows(artist.id, &artist.name_variations),
        write_member_rows(artist.id, &artist.name, &artist.members),
        writer::write_tag_rows(artist.id, &artist.urls),
    ];
    assert(tables.deep_view() == artist_rows(artist.deep_view()));
    tables
}

/// Artists as CSV files.
///
/// The files are written in memory; [`ArtistCsvOutput::flush`] hands over what is to be
/// stored.
pub struct ArtistCsvOutput {
    pub csv: CsvFiles,
    pub artists: Ghost<Seq<artist_model::ArtistView>>,
}

impl ArtistCsvOutput {
    /// Each file holds its header and the records of the artists that were written, in
    /// order.
    pub open spec fn wf(self) -> bool {
        &&& self.csv.names() == artist_file_names()
        &&& self.csv.contents().len() == 5
        &&& forall|i: int|
            0 <= i < 5 ==> #[trigger] self.csv.contents()[i] == artist_file(self.artists@, i)
    }

    /// New files with their headers.
    pub fn new() -> (r: ArtistCsvOutput)
        ensures
            r.wf(),
            r.artists@ == Seq::<artist_model::ArtistView>::empty(),
            r.csv.stored() == Seq::new(5, |i: int| Seq::<u8>::empty()),
    {
        let mut csv = CsvFiles::new();
        let header = vec!["artist_id", "artist_name", "profile"];
        assert(header.deep_view() == artist_headers()[0]);
        csv.add_file("artist.csv", header);
        let header = vec!["artist_id", "artist_name", "alias_name"];
        assert(header.deep_view() == artist_headers()[1]);
        csv.add_file("artist_alias.csv", header);
        let header = vec!["artist_id", "name"];
        assert(header.deep_view() == artist_headers()[2]);
        csv.add_file("artist_name_variation.csv", header);
        let header = vec!["group_artist_id", "group_name", "member_artist_id", "member_name"];
        assert(header.deep_view() == artist_headers()[3]);
        csv.add_file("artist_member.csv", header);
        let header = vec!["artist_id", "url"];
        assert(header.deep_view() == artist_headers()[4]);
        csv.add_file("artist_url.csv", header);
        proof {
            assert(csv.names() == artist_file_names());
            let none = Seq::<artist_model::ArtistView>::empty();
            assert forall|i: int| 0 <= i < 5 implies #[trigger] csv.contents()[i]
                == artist_file(none, i) by {
                let header = artist_headers()[i];
                csv_file::lemma_header_line(header);
                assert(seq![header] + all_artist_rows(none, i) == seq![header]);
                assert(csv.contents()[i] == csv_file::csv_line(header));
            }
        }
        assert(csv.stored() == Seq::new(5, |i: int| Seq::<u8>::empty()));
        ArtistCsvOutput { csv, artists: Ghost(Seq::empty()) }
    }

    /// Writes an artist with the aliases, name variations, members and links.
    pub fn write_artist(&mut self, artist: &Artist)
        requires
            old(self).wf(),
        ensures
            final(self).wf(),
            final(self).artists@ == old(self).artists@.push(artist.deep_view()),
            final(self).csv.stored() == old(self).csv.stored(),
    {
        let ghost before = self.csv.contents();
        let tables = write_artist_tables(artist);
        self.csv.write_tables(&tables);
        let ghost earlier = self.artists@;
        self.artists = Ghost(self.artists@.push(artist.deep_view()));
        proof {
            let rows = artist_rows(artist.deep_view());
            assert(self.artists@.drop_last() == earlier);
            assert forall|i: int| 0 <= i < 5 implies #[trigger] self.csv.contents()[i]
                == artist_file(self.artists@, i) by {
                let shorter = seq![artist_headers()[i]] + all_artist_rows(earlier, i);
                csv_file::lemma_csv_lines_concat(shorter, rows[i]);
                assert(shorter + rows[i] == seq![artist_headers()[i]] + all_artist_rows(
                    self.artists@,
                    i,
                ));
                assert(before[i] == artist_file(earlier, i));
                assert(self.csv.contents()[i] == before[i] + csv_file::csv_lines(rows[i]));
            }
        }
    }

    /// Hands over what is to be stored at the end of each file.
    pub fn flush(&mut self) -> (chunks: Vec<Chunk>)
        requires
            old(self).wf(),
        ensures
            final(self).wf(),
            final(self).artists@ == old(self).artists@,
            chunks.deep_view() == old(self).csv.waiting(),
            final(self).csv.stored() == old(self).csv.contents(),
            chunks.len() == 5,
            forall|i: int|
                #![trigger chunks[i]]
                0 <= i < 5 ==> {
                    &&& chunks[i].name@ == artist_file_names()[i]
                    &&& chunks[i].bytes@ == old(self).csv.files[i].pending@
                    &&& final(self).csv.files[i].stored@ == artist_file(old(self).artists@, i)
                    &&& final(self).csv.files[i].pending@ == Seq::<u8>::empty()
                },
    {
        let ghost names = self.csv.names();
        let chunks = self.csv.take_pending();
        proof {
            assert(names.len() == 5);
            assert forall|i: int| #![trigger chunks[i]] 0 <= i < 5 implies chunks[i].name@
                == artist_file_names()[i] && self.csv.files[i].stored@ == artist_file(
                old(self).artists@,
                i,
            ) by {
                assert(names[i] == old(self).csv.files[i].name@);
                assert(old(self).csv.contents()[i] == artist_file(old(self).artists@, i));
            }
        }
        chunks
    }
}

/// Aliases and name variations stay apart: the names of one kind leave the file of the
/// other as it is.
pub proof fn law_names_stay_apart(
    artist: artist_model::ArtistView,
    names: Seq<Seq<char>>,
)
    ensures
        artist_rows(artist_model::ArtistView { name_variations: names, ..artist })[1]
            == artist_rows(artist)[1],
        artist_rows(artist_model::ArtistView { aliases: names, ..artist })[2] == artist_rows(
            artist,
        )[2],
{
}

proof fn lemma_widths(artists: Seq<artist_model::ArtistView>, file: int)
    requires
        0 <= file < 5,
    ensures
        forall|i: int|
            0 <= i < all_artist_rows(artists, file).len() ==> (#[trigger] all_artist_rows(
                artists,
                file,
            )[i]).len() == artist_headers()[file].len(),
    decreases artists.len(),
{
    if artists.len() > 0 {
        lemma_widths(artists.drop_last(), file);
        let earlier = all_artist_rows(artists.drop_last(), file);
        let own = artist_rows(artists.last())[file];
        let width = artist_headers()[file].len();
        assert forall|i: int| 0 <= i < own.len() implies (#[trigger] own[i]).len() == width by {
        }
        assert forall|i: int| 0 <= i < (earlier + own).len() implies (#[trigger] (earlier
            + own)[i]).len() == width by {
            if i >= earlier.len() {
                assert((earlier + own)[i] == own[i - earlier.len()]);
            }
        }
    }
}

/// Whoever reads a file finds its header and the records of the artists as they were
/// written.
pub proof fn law_artist_files_are_read_back(artists: Seq<artist_model::ArtistView>, file: int)
    requires
        0 <= file < 5,
    ensures
        csv_laws::records_of(artist_file(artists, file)) == seq![artist_headers()[file]]
            + all_artist_rows(artists, file),
{
    let body = all_artist_rows(artists, file);
    let rows = seq![artist_headers()[file]] + body;
    lemma_widths(artists, file);
    assert forall|i: int| 0 <= i < rows.len() implies (#[trigger] rows[i]).len() > 0 by {
        if i > 0 {
            assert(rows[i] == body[i - 1]);
        }
    }
    csv_laws::law_csv_is_read_back(rows);
}

} // verus!
