//! The label hierarchy as a CSV file.
//!
//! One file: label_hierarchy.csv, with the labels that have a parent label.

use crate::label_model;
use crate::label_model::{Label};
use crate::csv_file;
use crate::csv_file::{Chunk, CsvFiles};
use crate::csv_laws;
use crate::text;
use crate::writer::Row;
use vstd::prelude::*;

verus! {

/// The names of the files.
pub open spec fn label_file_names() -> Seq<Seq<char>> {
    seq!["label_hierarchy.csv"@]
}

/// The headers of the files.
pub open spec fn label_headers() -> Seq<Row> {
    seq![
        seq!["label_id"@, "label_name"@, "parent_label_id"@, "parent_label_name"@],
    ]
}

/// The records of a label in each of the files.
pub open spec fn label_rows(label: label_model::LabelView) -> Seq<Seq<Row>> {
    seq![
        match label.parent_id {
            None => Seq::empty(),
            Some(parent_id) => seq![
                seq![
                    text::decimal(label.id as nat),
                    label.name,
                    text::decimal(parent_id as nat),
                    label.parent_name,
                ],
            ],
        },
    ]
}

/// The records of a sequence of labels in one of the files.
pub open spec fn all_label_rows(labels: Seq<label_model::LabelView>, file: int) -> Seq<Row>
    decreases labels.len(),
{
    if labels.len() == 0 {
        Seq::empty()
    } else {
        all_label_rows(labels.drop_last(), file) + label_rows(labels.last())[file]
    }
}

/// One of the files after a sequence of labels: the header, and the records of the
/// labels in order.
pub open spec fn label_file(labels: Seq<label_model::LabelView>, file: int) -> Seq<u8> {
    csv_file::csv_lines(seq![label_headers()[file]] + all_label_rows(labels, file))
}

fn write_label_tables(label: &Label) -> (tables: Vec<Vec<Vec<String>>>)
    ensures
        tables.deep_view() == label_rows(label.deep_view()),
        tables.len() == 1,
{
    let mut rows: Vec<Vec<String>> = Vec::new();
    if let Some(parent_id) = label.parent_id {
        let row = vec![
            text::decimal_string(label.id),
            label.name.clone(),
            text::decimal_string(parent_id),
            label.parent_name.clone(),
        ];
        assert(row.deep_view() == seq![
            text::decimal(label.id as nat),
            label.name@,
            text::decimal(parent_id as nat),
            label.parent_name@,
        ]);
        text::push_item(&mut rows, row);
    }
    assert(rows.deep_view() == label_rows(label.deep_view())[0]);
    let tables = vec![rows];
    assert(tables.deep_view() == label_rows(label.deep_view()));
    tables
}

/// The label hierarchy as a CSV file.
///
/// The files are written in memory; [`LabelCsvOutput::flush`] hands over what is to be
/// stored.
pub struct LabelCsvOutput {
    pub csv: CsvFiles,
    pub labels: Ghost<Seq<label_model::LabelView>>,
}

impl LabelCsvOutput {
    /// Each file holds its header and the records of the labels that were written, in
    /// order.
    pub open spec fn wf(self) -> bool {
        &&& self.csv.names() == label_file_names()
        &&& self.csv.contents().len() == 1
        &&& forall|i: int|
            0 <= i < 1 ==> #[trigger] self.csv.contents()[i] == label_file(self.labels@, i)
    }

    /// New files with their headers.
    pub fn new() -> (r: LabelCsvOutput)
        ensures
            r.wf(),
            r.labels@ == Seq::<label_model::LabelView>::empty(),
            r.csv.stored() == Seq::new(1, |i: int| Seq::<u8>::empty()),
    {
        let mut csv = CsvFiles::new();
        let header = vec!["label_id", "label_name", "parent_label_id", "parent_label_name"];
        assert(header.deep_view() == label_headers()[0]);
        csv.add_file("label_hierarchy.csv", header);
        proof {
            assert(csv.names() == label_file_names());
            let none = Seq::<label_model::LabelView>::empty();
            assert forall|i: int| 0 <= i < 1 implies #[trigger] csv.contents()[i]
                == label_file(none, i) by {
                let header = label_headers()[i];
                csv_file::lemma_header_line(header);
                assert(seq![header] + all_label_rows(none, i) == seq![header]);
                assert(csv.contents()[i] == csv_file::csv_line(header));
            }
        }
        assert(csv.stored() == Seq::new(1, |i: int| Seq::<u8>::empty()));
        LabelCsvOutput { csv, labels: Ghost(Seq::empty()) }
    }

    /// Writes the parent of a label; nothing where it has none.
    pub fn write_label(&mut self, label: &Label)
        requires
            old(self).wf(),
        ensures
            final(self).wf(),
            final(self).labels@ == old(self).labels@.push(label.deep_view()),
            final(self).csv.stored() == old(self).csv.stored(),
    {
        let ghost before = self.csv.contents();
        let tables = write_label_tables(label);
        self.csv.write_tables(&tables);
        let ghost earlier = self.labels@;
        self.labels = Ghost(self.labels@.push(label.deep_view()));
        proof {
            let rows = label_rows(label.deep_view());
            assert(self.labels@.drop_last() == earlier);
            assert forall|i: int| 0 <= i < 1 implies #[trigger] self.csv.contents()[i]
                == label_file(self.labels@, i) by {
                let shorter = seq![label_headers()[i]] + all_label_rows(earlier, i);
                csv_file::lemma_csv_lines_concat(shorter, rows[i]);
                assert(shorter + rows[i] == seq![label_headers()[i]] + all_label_rows(
                    self.labels@,
                    i,
                ));
                assert(before[i] == label_file(earlier, i));
                assert(self.csv.contents()[i] == before[i] + csv_file::csv_lines(rows[i]));
            }
        }
    }

    /// Hands over what is to be stored at the end of each file.
    pub fn flush(&mut self) -> (chunks: Vec<Chunk>)
        requires
            old(self).wf(),
        ensures
            final(self).wf(),
            final(self).labels@ == old(self).labels@,
            chunks.deep_view() == old(self).csv.waiting(),
            final(self).csv.stored() == old(self).csv.contents(),
            chunks.len() == 1,
            forall|i: int|
                #![trigger chunks[i]]
                0 <= i < 1 ==> {
                    &&& chunks[i].name@ == label_file_names()[i]
                    &&& chunks[i].bytes@ == old(self).csv.files[i].pending@
                    &&& final(self).csv.files[i].stored@ == label_file(old(self).labels@, i)
                    &&& final(self).csv.files[i].pending@ == Seq::<u8>::empty()
                },
    {
        let ghost names = self.csv.names();
        let chunks = self.csv.take_pending();
        proof {
            assert(names.len() == 1);
            assert forall|i: int| #![trigger chunks[i]] 0 <= i < 1 implies chunks[i].name@
                == label_file_names()[i] && self.csv.files[i].stored@ == label_file(
                old(self).labels@,
                i,
            ) by {
                assert(names[i] == old(self).csv.files[i].name@);
                assert(old(self).csv.contents()[i] == label_file(old(self).labels@, i));
            }
        }
        chunks
    }
}

proof fn lemma_widths(labels: Seq<label_model::LabelView>, file: int)
    requires
        0 <= file < 1,
    ensures
        forall|i: int|
            0 <= i < all_label_rows(labels, file).len() ==> (#[trigger] all_label_rows(
                labels,
                file,
            )[i]).len() == label_headers()[file].len(),
    decreases labels.len(),
{
    if labels.len() > 0 {
        lemma_widths(labels.drop_last(), file);
        let earlier = all_label_rows(labels.drop_last(), file);
        let own = label_rows(labels.last())[file];
        let width = label_headers()[file].len();
        assert forall|i: int| 0 <= i < own.len() implies (#[trigger] own[i]).len() == width by {
        }
        assert forall|i: int| 0 <= i < (earlier + own).len() implies (#[trigger] (earlier
            + own)[i]).len() == width by {
            if i >= earlier.len() {
                assert((earlier + own)[i] == own[i - earlier.len()]);
            }
        }
    }
}

/// Whoever reads a file finds its header and the records of the labels as they were
/// written.
pub proof fn law_label_files_are_read_back(labels: Seq<label_model::LabelView>, file: int)
    requires
        0 <= file < 1,
    ensures
        csv_laws::records_of(label_file(labels, file)) == seq![label_headers()[file]]
            + all_label_rows(labels, file),
{
    let body = all_label_rows(labels, file);
    let rows = seq![label_headers()[file]] + body;
    lemma_widths(labels, file);
    assert forall|i: int| 0 <= i < rows.len() implies (#[trigger] rows[i]).len() > 0 by {
        if i > 0 {
            assert(rows[i] == body[i - 1]);
        }
    }
    csv_laws::law_csv_is_read_back(rows);
}

} // verus!
