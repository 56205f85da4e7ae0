//! Master releases as CSV files.
//!
//! Two files: master.csv and master_artist.csv.

use crate::master_model;
use crate::master_model::{Master, MasterArtist};
use crate::csv_file;
use crate::csv_file::{Chunk, CsvFiles};
use crate::csv_laws;
use crate::text;
use crate::writer;
use crate::writer::Row;
use vstd::prelude::*;

verus! {

/// The names of the files.
pub open spec fn master_file_names() -> Seq<Seq<char>> {
    seq!["master.csv"@, "master_artist.csv"@]
}

/// The headers of the files.
pub open spec fn master_headers() -> Seq<Row> {
    seq![
        seq!["id"@, "title"@, "main_release_id"@, "year"@],
        seq!["master_id"@, "artist_id"@, "artist_name"@],
    ]
}

/// The record of a master release.
pub open spec fn master_row(master: master_model::MasterView) -> Row {
    seq![
        text::decimal(master.id as nat),
        master.title,
        writer::optional_decimal(master.main_release_id),
        match master.year {
            Some(year) => text::decimal(year as nat),
            None => Seq::empty(),
        },
    ]
}

/// The records of the artists of a master release.
pub open spec fn master_artist_rows(
    id: u64,
    artists: Seq<master_model::MasterArtistView>,
) -> Seq<Row> {
    artists.map_values(
        |artist: master_model::MasterArtistView|
            seq![text::decimal(id as nat), text::decimal(artist.id as nat), artist.name],
    )
}

/// The records of a master release in each of the files.
pub open spec fn master_rows(master: master_model::MasterView) -> Seq<Seq<Row>> {
    seq![seq![master_row(master)], master_artist_rows(master.id, master.artists)]
}

/// The records of a sequence of masters in one of the files.
pub open spec fn all_master_rows(masters: Seq<master_model::MasterView>, file: int) -> Seq<Row>
    decreases masters.len(),
{
    if masters.len() == 0 {
        Seq::empty()
    } else {
        all_master_rows(masters.drop_last(), file) + master_rows(masters.last())[file]
    }
}

/// One of the files after a sequence of masters: the header, and the records of the
/// masters in order.
pub open spec fn master_file(masters: Seq<master_model::MasterView>, file: int) -> Seq<u8> {
    csv_file::csv_lines(seq![master_headers()[file]] + all_master_rows(masters, file))
}

fn write_master_artist_rows(id: u64, artists: &Vec<MasterArtist>) -> (rows: Vec<Vec<String>>)
    ensures
        rows.deep_view() == master_artist_rows(id, artists.deep_view()),
{
    let ghost all = master_artist_rows(id, artists.deep_view());
    let mut rows: Vec<Vec<String>> = Vec::new();
    let mut i: usize = 0;
    while i < artists.len()
        invariant
            i <= artists.len(),
            all == master_artist_rows(id, artists.deep_view()),
            rows.deep_view() == all.take(i as int),
        decreases artists.len() - i,
    {
        let row = vec![
            text::decimal_string(id),
            text::decimal_string(artists[i].id),
            artists[i].name.clone(),
        ];
        assert(artists.deep_view()[i as int] == artists[i as int].deep_view());
        assert(row.deep_view() == all[i as int]);
        text::push_item(&mut rows, row);
        assert(all.take(i + 1) == all.take(i as int).push(all[i as int]));
        i += 1;
    }
    assert(all.take(all.len() as int) == all);
    rows
}

fn write_master_tables(master: &Master) -> (tables: Vec<Vec<Vec<String>>>)
    ensures
        tables.deep_view() == master_rows(master.deep_view()),
        tables.len() == 2,
{
    let year = match master.year {
        Some(year) => text::decimal_string(year as u64),
        None => String::new(),
    };
    let row = vec![
        text::decimal_string(master.id),
        master.title.clone(),
        writer::optional_decimal_string(master.main_release_id),
        year,
    ];
    assert(row.deep_view() == master_row(master.deep_view()));
    let mut rows: Vec<Vec<String>> = Vec::new();
    text::push_item(&mut rows, row);
    assert(rows.deep_view() == seq![master_row(master.deep_view())]);
    let tables = vec![rows, write_master_artist_rows(master.id, &master.artists)];
    assert(tables.deep_view() == master_rows(master.deep_view()));
    tables
}

/// Master releases as CSV files.
///
/// The files are written in memory; [`MasterCsvOutput::flush`] hands over what is to be
/// stored.
pub struct MasterCsvOutput {
    pub csv: CsvFiles,
    pub masters: Ghost<Seq<master_model::MasterView>>,
}

impl MasterCsvOutput {
    /// Each file holds its header and the records of the masters that were written, in
    /// order.
    pub open spec fn wf(self) -> bool {
        &&& self.csv.names() == master_file_names()
        &&& self.csv.contents().len() == 2
        &&& forall|i: int|
            0 <= i < 2 ==> #[trigger] self.csv.contents()[i] == master_file(self.masters@, i)
    }

    /// New files with their headers.
    pub fn new() -> (r: MasterCsvOutput)
        ensures
            r.wf(),
            r.masters@ == Seq::<master_model::MasterView>::empty(),
            r.csv.stored() == Seq::new(2, |i: int| Seq::<u8>::empty()),
    {
        let mut csv = CsvFiles::new();
        let header = vec!["id", "title", "main_release_id", "year"];
        assert(header.deep_view() == master_headers()[0]);
        csv.add_file("master.csv", header);
        let header = vec!["master_id", "artist_id", "artist_name"];
        assert(header.deep_view() == master_headers()[1]);
        csv.add_file("master_artist.csv", header);
        proof {
            assert(csv.names() == master_file_names());
            let none = Seq::<master_model::MasterView>::empty();
            assert forall|i: int| 0 <= i < 2 implies #[trigger] csv.contents()[i]
                == master_file(none, i) by {
                let header = master_headers()[i];
                csv_file::lemma_header_line(header);
                assert(seq![header] + all_master_rows(none, i) == seq![header]);
                assert(csv.contents()[i] == csv_file::csv_line(header));
            }
        }
        assert(csv.stored() == Seq::new(2, |i: int| Seq::<u8>::empty()));
        MasterCsvOutput { csv, masters: Ghost(Seq::empty()) }
    }

    /// Writes a master release with its artists.
    pub fn write_master(&mut self, master: &Master)
        requires
            old(self).wf(),
        ensures
            final(self).wf(),
            final(self).masters@ == old(self).masters@.push(master.deep_view()),
            final(self).csv.stored() == old(self).csv.stored(),
    {
        let ghost before = self.csv.contents();
        let tables = write_master_tables(master);
        self.csv.write_tables(&tables);
        let ghost earlier = self.masters@;
        self.masters = Ghost(self.masters@.push(master.deep_view()));
        proof {
            let rows = master_rows(master.deep_view());
            assert(self.masters@.drop_last() == earlier);
            assert forall|i: int| 0 <= i < 2 implies #[trigger] self.csv.contents()[i]
                == master_file(self.masters@, i) by {
                let shorter = seq![master_headers()[i]] + all_master_rows(earlier, i);
                csv_file::lemma_csv_lines_concat(shorter, rows[i]);
                assert(shorter + rows[i] == seq![master_headers()[i]] + all_master_rows(
                    self.masters@,
                    i,
                ));
                assert(before[i] == master_file(earlier, i));
                assert(self.csv.contents()[i] == before[i] + csv_file::csv_lines(rows[i]));
            }
        }
    }

    /// Hands over what is to be stored at the end of each file.
    pub fn flush(&mut self) -> (chunks: Vec<Chunk>)
        requires
            old(self).wf(),
        ensures
            final(self).wf(),
            final(self).masters@ == old(self).masters@,
            chunks.deep_view() == old(self).csv.waiting(),
            final(self).csv.stored() == old(self).csv.contents(),
            chunks.len() == 2,
            forall|i: int|
                #![trigger chunks[i]]
                0 <= i < 2 ==> {
                    &&& chunks[i].name@ == master_file_names()[i]
                    &&& chunks[i].bytes@ == old(self).csv.files[i].pending@
                    &&& final(self).csv.files[i].stored@ == master_file(old(self).masters@, i)
                    &&& final(self).csv.files[i].pending@ == Seq::<u8>::empty()
                },
    {
        let ghost names = self.csv.names();
        let chunks = self.csv.take_pending();
        proof {
            assert(names.len() == 2);
            assert forall|i: int| #![trigger chunks[i]] 0 <= i < 2 implies chunks[i].name@
                == master_file_names()[i] && self.csv.files[i].stored@ == master_file(
                old(self).masters@,
                i,
            ) by {
                assert(names[i] == old(self).csv.files[i].name@);
                assert(old(self).csv.contents()[i] == master_file(old(self).masters@, i));
            }
        }
        chunks
    }
}

proof fn lemma_widths(masters: Seq<master_model::MasterView>, file: int)
    requires
        0 <= file < 2,
    ensures
        forall|i: int|
            0 <= i < all_master_rows(masters, file).len() ==> (#[trigger] all_master_rows(
                masters,
                file,
            )[i]).len() == master_headers()[file].len(),
    decreases masters.len(),
{
    if masters.len() > 0 {
        lemma_widths(masters.drop_last(), file);
        let earlier = all_master_rows(masters.drop_last(), file);
        let own = master_rows(masters.last())[file];
        let width = master_headers()[file].len();
        assert forall|i: int| 0 <= i < own.len() implies (#[trigger] own[i]).len() == width by {
        }
        assert forall|i: int| 0 <= i < (earlier + own).len() implies (#[trigger] (earlier
            + own)[i]).len() == width by {
            if i >= earlier.len() {
                assert((earlier + own)[i] == own[i - earlier.len()]);
            }
        }
    }
}

/// Whoever reads a file finds its header and the records of the masters as they were
/// written.
pub proof fn law_master_files_are_read_back(masters: Seq<master_model::MasterView>, file: int)
    requires
        0 <= file < 2,
    ensures
        csv_laws::records_of(master_file(masters, file)) == seq![master_headers()[file]]
            + all_master_rows(masters, file),
{
    let body = all_master_rows(masters, file);
    let rows = seq![master_headers()[file]] + body;
    lemma_widths(masters, file);
    assert forall|i: int| 0 <= i < rows.len() implies (#[trigger] rows[i]).len() > 0 by {
        if i > 0 {
            assert(rows[i] == body[i - 1]);
        }
    }
    csv_laws::law_csv_is_read_back(rows);
}

} // verus!
