//! CSV files that are written record by record.

use crate::text;
use vstd::prelude::*;

verus! {

/// Whether a byte in a field calls for quotes around the field: a comma, a quote or
/// a line end.
pub open spec fn csv_special(b: u8) -> bool {
    b == 0x2c || b == 0x22 || b == 0x0a || b == 0x0d
}

/// `bytes` with every quote doubled.
pub open spec fn quotes_doubled(bytes: Seq<u8>) -> Seq<u8>
    decreases bytes.len(),
{
    if bytes.len() == 0 {
        Seq::empty()
    } else if bytes.last() == 0x22 {
        quotes_doubled(bytes.drop_last()).push(0x22).push(0x22)
    } else {
        quotes_doubled(bytes.drop_last()).push(bytes.last())
    }
}

/// One field of a CSV record.
pub open spec fn csv_field(field: Seq<char>) -> Seq<u8> {
    let bytes = vstd::utf8::encode_utf8(field);
    if exists|i: int| 0 <= i < bytes.len() && csv_special(#[trigger] bytes[i]) {
        seq![0x22u8] + quotes_doubled(bytes) + seq![0x22u8]
    } else {
        bytes
    }
}

/// The fields of a CSV record, with a comma between them.
pub open spec fn csv_fields(fields: Seq<Seq<char>>) -> Seq<u8>
    decreases fields.len(),
{
    if fields.len() == 0 {
        Seq::empty()
    } else if fields.len() == 1 {
        csv_field(fields[0])
    } else {
        csv_fields(fields.drop_last()) + seq![0x2cu8] + csv_field(fields.last())
    }
}

/// A CSV record. One that would be an empty line is a pair of quotes.
pub open spec fn csv_line(fields: Seq<Seq<char>>) -> Seq<u8> {
    let body = csv_fields(fields);
    if body.len() == 0 {
        seq![0x22u8, 0x22u8, 0x0au8]
    } else {
        body.push(0x0a)
    }
}

/// A sequence of CSV records.
pub open spec fn csv_lines(rows: Seq<Seq<Seq<char>>>) -> Seq<u8>
    decreases rows.len(),
{
    if rows.len() == 0 {
        Seq::empty()
    } else {
        csv_lines(rows.drop_last()) + csv_line(rows.last())
    }
}

/// The records of two sequences one after the other.
pub proof fn lemma_csv_lines_concat(a: Seq<Seq<Seq<char>>>, b: Seq<Seq<Seq<char>>>)
    ensures
        csv_lines(a + b) == csv_lines(a) + csv_lines(b),
    decreases b.len(),
{
    if b.len() == 0 {
        assert(a + b == a);
        assert(csv_lines(a) + csv_lines(b) == csv_lines(a));
    } else {
        lemma_csv_lines_concat(a, b.drop_last());
        assert((a + b).drop_last() == a + b.drop_last());
        assert(csv_lines(a) + (csv_lines(b.drop_last()) + csv_line(b.last())) == csv_lines(a)
            + csv_lines(b.drop_last()) + csv_line(b.last()));
    }
}

/// A file with one record.
pub proof fn lemma_header_line(header: Seq<Seq<char>>)
    ensures
        csv_lines(seq![header]) == csv_line(header),
{
    let rows = seq![header];
    assert(rows.drop_last() == Seq::<Seq<Seq<char>>>::empty());
    assert(csv_lines(rows.drop_last()) + csv_line(rows.last())
        == csv_line(header));
}

/// Whether `rows` is a header and records that a reader finds again as they are: all
/// have as many fields as the header, at least one, and the file does not start with
/// a byte order mark.
pub open spec fn csv_table(rows: Seq<Seq<Seq<char>>>) -> bool {
    &&& rows.len() > 0
    &&& rows[0].len() > 0
    &&& forall|i: int| 0 <= i < rows.len() ==> (#[trigger] rows[i]).len() == rows[0].len()
    &&& !(rows[0][0].len() > 0 && rows[0][0][0] == '\u{feff}')
}

/// What `csv::Reader` reads from a file after its header, record by record: the
/// fields, or a message.
pub uninterp spec fn csv_records(content: Seq<u8>) -> Seq<Result<Seq<Seq<char>>, Seq<char>>>;

/// A record that was read, or a message.
pub type CsvItem = Result<Vec<String>, String>;

/// The model of records that were read.
pub open spec fn csv_items_view(items: Seq<CsvItem>) -> Seq<Result<Seq<Seq<char>>, Seq<char>>> {
    items.map_values(|item: CsvItem| csv_item_view(item))
}

/// The model of a record that was read.
pub open spec fn csv_item_view(item: CsvItem) -> Result<Seq<Seq<char>>, Seq<char>> {
    match item {
        Ok(fields) => Ok(fields.deep_view()),
        Err(message) => Err(message@),
    }
}

/// `csv::Writer::write_record` on a byte buffer.
///
/// Puts a comma between the fields and a line feed behind them. Puts quotes around a
/// field that holds a comma, a quote or a line end, and doubles the quotes in it. Puts
/// a pair of quotes in place of a record that would be an empty line.
#[verifier::external_body]
pub(crate) fn encode_record(fields: &Vec<String>) -> (line: Vec<u8>)
    ensures
        line@ == csv_line(fields.deep_view()),
{
    let mut writer = csv::Writer::from_writer(Vec::new());
    writer.write_record(fields).expect("a record fits in memory");
    writer.into_inner().expect("a buffer takes all bytes")
}

/// `csv::Reader::records` on a byte string, with each record turned into strings.
///
/// The first record is the header and is left out. A file that was written record by
/// record is read back as it was, where all records have the length of the header and
/// no byte order mark stands at its head.
#[verifier::external_body]
pub(crate) fn read_records(content: &[u8]) -> (items: Vec<CsvItem>)
    ensures
        csv_items_view(items@) == csv_records(content@),
        forall|rows: Seq<Seq<Seq<char>>>|
            csv_table(rows) && content@ == #[trigger] csv_lines(rows) ==> csv_items_view(items@)
                == rows.skip(1).map_values(
                |row: Seq<Seq<char>>| Ok::<Seq<Seq<char>>, Seq<char>>(row),
            ),
{
    let mut reader = csv::Reader::from_reader(content);
    reader.records().map(
        |r| r.map(|r| r.iter().map(String::from).collect()).map_err(|e| e.to_string()),
    ).collect()
}

/// A CSV file that is being written. `pending` are the bytes that wait to be stored;
/// the bytes before them were handed over.
pub struct CsvFile {
    pub name: String,
    pub pending: Vec<u8>,
    pub stored: Ghost<Seq<u8>>,
}

impl CsvFile {
    /// All that was written to the file.
    pub open spec fn contents(self) -> Seq<u8> {
        self.stored@ + self.pending@
    }
}

/// A piece of a file that is to be stored at its end.
pub struct Chunk {
    pub name: String,
    pub bytes: Vec<u8>,
}

/// The model of a [`Chunk`].
pub struct ChunkView {
    pub name: Seq<char>,
    pub bytes: Seq<u8>,
}

impl DeepView for Chunk {
    type V = ChunkView;

    open spec fn deep_view(&self) -> ChunkView {
        ChunkView { name: self.name@, bytes: self.bytes@ }
    }
}

/// A set of CSV files that are written together.
pub struct CsvFiles {
    pub files: Vec<CsvFile>,
}

impl CsvFiles {
    /// All that was written to each file.
    pub open spec fn contents(self) -> Seq<Seq<u8>> {
        Seq::new(self.files@.len(), |i: int| self.files@[i].contents())
    }

    /// The names of the files.
    pub open spec fn names(self) -> Seq<Seq<char>> {
        Seq::new(self.files@.len(), |i: int| self.files@[i].name@)
    }

    /// What was handed over of each file.
    pub open spec fn stored(self) -> Seq<Seq<u8>> {
        Seq::new(self.files@.len(), |i: int| self.files@[i].stored@)
    }

    /// What waits to be handed over, file by file.
    pub open spec fn waiting(self) -> Seq<ChunkView> {
        Seq::new(
            self.files@.len(),
            |i: int| ChunkView { name: self.files@[i].name@, bytes: self.files@[i].pending@ },
        )
    }

    /// No files.
    pub fn new() -> (r: CsvFiles)
        ensures
            r.contents() == Seq::<Seq<u8>>::empty(),
            r.stored() == Seq::<Seq<u8>>::empty(),
            r.names() == Seq::<Seq<char>>::empty(),
    {
        CsvFiles { files: Vec::new() }
    }

    /// Adds a file with a header.
    pub fn add_file(&mut self, name: &str, header: Vec<&str>)
        ensures
            final(self).contents() == old(self).contents().push(csv_line(header.deep_view())),
            final(self).stored() == old(self).stored().push(Seq::empty()),
            final(self).names() == old(self).names().push(name@),
    {
        let ghost before = *self;
        let mut fields: Vec<String> = Vec::new();
        let mut i: usize = 0;
        while i < header.len()
            invariant
                i <= header.len(),
                fields.deep_view() == header.deep_view().take(i as int),
            decreases header.len() - i,
        {
            text::push_item(&mut fields, header[i].to_owned());
            assert(header.deep_view().take(i + 1) == header.deep_view().take(i as int).push(
                header[i as int]@,
            ));
            i += 1;
        }
        assert(header.deep_view().take(header.len() as int) == header.deep_view());
        let pending = encode_record(&fields);
        let file = CsvFile { name: name.to_owned(), pending, stored: Ghost(Seq::empty()) };
        assert(file.contents() == pending@);
        self.files.push(file);
        assert(self.contents() == before.contents().push(csv_line(header.deep_view())));
        assert(self.stored() == before.stored().push(Seq::empty()));
        assert(self.names() == before.names().push(name@));
    }

    /// Writes records to the file at the given place.
    pub fn write_rows(&mut self, index: usize, rows: &Vec<Vec<String>>)
        requires
            index < old(self).files.len(),
        ensures
            final(self).contents() == old(self).contents().update(
                index as int,
                old(self).contents()[index as int] + csv_lines(rows.deep_view()),
            ),
            final(self).stored() == old(self).stored(),
            final(self).names() == old(self).names(),
            final(self).files.len() == old(self).files.len(),
    {
        let ghost before = *self;
        let ghost all = rows.deep_view();
        let mut bytes: Vec<u8> = Vec::new();
        let mut i: usize = 0;
        while i < rows.len()
            invariant
                i <= rows.len(),
                all == rows.deep_view(),
                bytes@ == csv_lines(all.take(i as int)),
            decreases rows.len() - i,
        {
            let mut line = encode_record(&rows[i]);
            bytes.append(&mut line);
            assert(all.take(i + 1).drop_last() == all.take(i as int));
            i += 1;
        }
        assert(all.take(rows.len() as int) == all);
        let ghost stored = self.files[index as int].stored@;
        let ghost shorter = self.files[index as int].pending@;
        self.files[index].pending.append(&mut bytes);
        proof {
            assert(stored + (shorter + csv_lines(all)) == stored + shorter + csv_lines(all));
            assert(self.files[index as int].contents() == before.contents()[index as int]
                + csv_lines(all));
            assert(self.contents() == before.contents().update(
                index as int,
                before.contents()[index as int] + csv_lines(all),
            ));
            assert(self.names() == before.names());
            assert(self.stored() == before.stored());
        }
    }

    /// Writes records to each of the files.
    pub fn write_tables(&mut self, tables: &Vec<Vec<Vec<String>>>)
        requires
            tables.len() == old(self).files.len(),
        ensures
            final(self).contents().len() == old(self).contents().len(),
            forall|i: int|
                0 <= i < tables.len() ==> #[trigger] final(self).contents()[i] == old(
                    self,
                ).contents()[i] + csv_lines(tables.deep_view()[i]),
            final(self).stored() == old(self).stored(),
            final(self).names() == old(self).names(),
    {
        let ghost before = *self;
        let mut i: usize = 0;
        while i < tables.len()
            invariant
                i <= tables.len() == self.files.len(),
                self.contents().len() == before.contents().len() == tables.len(),
                self.names() == before.names(),
                self.stored() == before.stored(),
                forall|j: int|
                    0 <= j < i ==> #[trigger] self.contents()[j] == before.contents()[j]
                        + csv_lines(tables.deep_view()[j]),
                forall|j: int|
                    i <= j < tables.len() ==> #[trigger] self.contents()[j] == before.contents()[j],
            decreases tables.len() - i,
        {
            assert(tables.deep_view()[i as int] == tables[i as int].deep_view());
            self.write_rows(i, &tables[i]);
            i += 1;
        }
    }

    /// Hands over what waits to be stored, file by file.
    pub fn take_pending(&mut self) -> (chunks: Vec<Chunk>)
        ensures
            final(self).contents() == old(self).contents(),
            final(self).names() == old(self).names(),
            final(self).stored() == old(self).contents(),
            chunks.deep_view() == old(self).waiting(),
            chunks.len() == old(self).files.len(),
            forall|i: int|
                #![trigger chunks[i]]
                0 <= i < chunks.len() ==> {
                    &&& chunks[i].name@ == old(self).files[i].name@
                    &&& chunks[i].bytes@ == old(self).files[i].pending@
                    &&& final(self).files[i].stored@ == old(self).contents()[i]
                    &&& final(self).files[i].pending@ == Seq::<u8>::empty()
                },
    {
        let ghost before = *self;
        let mut chunks: Vec<Chunk> = Vec::new();
        let mut i: usize = 0;
        while i < self.files.len()
            invariant
                i <= self.files.len(),
                chunks.len() == i,
                self.files.len() == before.files.len(),
                forall|j: int| i <= j < self.files.len() ==> self.files[j] == before.files[j],
                forall|j: int|
                    #![trigger chunks[j]]
                    #![trigger self.files[j]]
                    0 <= j < i ==> {
                        &&& chunks[j].name@ == before.files[j].name@
                        &&& chunks[j].bytes@ == before.files[j].pending@
                        &&& self.files[j].name@ == before.files[j].name@
                        &&& self.files[j].stored@ == before.files[j].contents()
                        &&& self.files[j].pending@ == Seq::<u8>::empty()
                    },
            decreases self.files.len() - i,
        {
            let mut bytes: Vec<u8> = Vec::new();
            let ghost file = self.files[i as int];
            let name = self.files[i].name.clone();
            std::mem::swap(&mut bytes, &mut self.files[i].pending);
            self.files[i].stored = Ghost(file.contents());
            chunks.push(Chunk { name, bytes });
            i += 1;
        }
        proof {
            assert forall|j: int| 0 <= j < before.files.len() implies self.files[j].contents()
                == before.files[j].contents() by {
                assert(self.files[j].contents() == before.files[j].contents() + Seq::<u8>::empty());
            }
            assert(self.contents() == before.contents());
            assert(self.names() == before.names());
            assert(self.stored() == before.contents());
            assert(chunks.deep_view() == before.waiting());
        }
        chunks
    }
}

/// Nothing is lost: what was handed over of a file, and after it what waits, is all that
/// was written to it.
pub proof fn law_nothing_is_lost(files: CsvFiles, i: int)
    requires
        0 <= i < files.files.len(),
    ensures
        files.contents()[i] == files.stored()[i] + files.waiting()[i].bytes,
        files.waiting()[i].name == files.names()[i],
{
}

} // verus!
