//! What a reader of CSV finds in the files.

use crate::csv_file;
use vstd::prelude::*;

verus! {

/// Where in a field a reader is.
pub enum FieldPlace {
    /// At its head.
    Head,
    /// In a field without quotes.
    Bare,
    /// In a field with quotes.
    Quoted,
    /// Behind a quote in a field with quotes.
    AfterQuote,
}

/// What a reader has found: records, the fields of the record that is being read, and the
/// bytes of the field that is being read.
pub struct ReadState {
    pub records: Seq<Seq<Seq<u8>>>,
    pub fields: Seq<Seq<u8>>,
    pub field: Seq<u8>,
    pub place: FieldPlace,
}

impl ReadState {
    /// At the head of a file.
    pub open spec fn start() -> ReadState {
        ReadState {
            records: Seq::empty(),
            fields: Seq::empty(),
            field: Seq::empty(),
            place: FieldPlace::Head,
        }
    }

    /// The field ends.
    pub open spec fn end_field(self) -> ReadState {
        ReadState {
            fields: self.fields.push(self.field),
            field: Seq::empty(),
            place: FieldPlace::Head,
            ..self
        }
    }

    /// The field and its record end.
    pub open spec fn end_record(self) -> ReadState {
        ReadState {
            records: self.records.push(self.fields.push(self.field)),
            fields: Seq::empty(),
            field: Seq::empty(),
            place: FieldPlace::Head,
        }
    }

    /// The field goes on with a byte.
    pub open spec fn take(self, b: u8, place: FieldPlace) -> ReadState {
        ReadState { field: self.field.push(b), place, ..self }
    }
}

/// One more byte of a file, as RFC 4180 reads it: quotes enclose a field, two of them
/// stand for one inside, and outside of quotes a comma ends a field and a line feed a
/// record.
pub open spec fn read_byte(s: ReadState, b: u8) -> ReadState {
    match s.place {
        FieldPlace::Quoted => if b == 0x22 {
            ReadState { place: FieldPlace::AfterQuote, ..s }
        } else {
            s.take(b, FieldPlace::Quoted)
        },
        FieldPlace::AfterQuote if b == 0x22 => s.take(b, FieldPlace::Quoted),
        FieldPlace::Head if b == 0x22 => ReadState { place: FieldPlace::Quoted, ..s },
        _ => if b == 0x2c {
            s.end_field()
        } else if b == 0x0a {
            s.end_record()
        } else {
            s.take(b, FieldPlace::Bare)
        },
    }
}

/// More bytes of a file.
pub open spec fn read_bytes(s: ReadState, bytes: Seq<u8>) -> ReadState
    decreases bytes.len(),
{
    if bytes.len() == 0 {
        s
    } else {
        read_byte(read_bytes(s, bytes.drop_last()), bytes.last())
    }
}

/// The bytes of the fields of a record.
pub open spec fn encoded(fields: Seq<Seq<char>>) -> Seq<Seq<u8>> {
    fields.map_values(|field: Seq<char>| vstd::utf8::encode_utf8(field))
}

/// The texts of the fields of a record.
pub open spec fn decoded(fields: Seq<Seq<u8>>) -> Seq<Seq<char>> {
    fields.map_values(|field: Seq<u8>| vstd::utf8::decode_utf8(field))
}

/// The records that a reader finds in a file.
pub open spec fn records_of(content: Seq<u8>) -> Seq<Seq<Seq<char>>> {
    read_bytes(ReadState::start(), content).records.map_values(
        |fields: Seq<Seq<u8>>| decoded(fields),
    )
}

proof fn lemma_read_concat(s: ReadState, a: Seq<u8>, b: Seq<u8>)
    ensures
        read_bytes(s, a + b) == read_bytes(read_bytes(s, a), b),
    decreases b.len(),
{
    if b.len() == 0 {
        assert(a + b == a);
    } else {
        lemma_read_concat(s, a, b.drop_last());
        assert((a + b).drop_last() == a + b.drop_last());
    }
}

proof fn lemma_read_push(s: ReadState, a: Seq<u8>, b: u8)
    ensures
        read_bytes(s, a.push(b)) == read_byte(read_bytes(s, a), b),
{
    assert(a.push(b).drop_last() == a);
}

proof fn lemma_read_one(s: ReadState, b: u8)
    ensures
        read_bytes(s, seq![b]) == read_byte(s, b),
{
    let none = Seq::<u8>::empty();
    lemma_read_push(s, none, b);
    assert(none.push(b) == seq![b]);
}

/// Inside of quotes a reader finds the bytes with their quotes doubled again.
proof fn lemma_read_quoted(s: ReadState, bytes: Seq<u8>)
    requires
        s.place is Quoted,
    ensures
        read_bytes(s, csv_file::quotes_doubled(bytes)) == (ReadState {
            field: s.field + bytes,
            ..s
        }),
    decreases bytes.len(),
{
    if bytes.len() == 0 {
        assert(s.field + bytes == s.field);
    } else {
        let shorter = bytes.drop_last();
        let earlier = csv_file::quotes_doubled(shorter);
        lemma_read_quoted(s, shorter);
        assert((s.field + shorter).push(bytes.last()) == s.field + bytes);
        if bytes.last() == 0x22 {
            lemma_read_push(s, earlier, 0x22);
            lemma_read_push(s, earlier.push(0x22), 0x22);
        } else {
            lemma_read_push(s, earlier, bytes.last());
        }
    }
}

/// Without quotes a reader finds bytes that call for none.
proof fn lemma_read_bare(s: ReadState, bytes: Seq<u8>)
    requires
        s.place is Head,
        s.field.len() == 0,
        forall|i: int| 0 <= i < bytes.len() ==> !csv_file::csv_special(#[trigger] bytes[i]),
    ensures
        read_bytes(s, bytes) == (ReadState {
            field: bytes,
            place: if bytes.len() == 0 {
                FieldPlace::Head
            } else {
                FieldPlace::Bare
            },
            ..s
        }),
    decreases bytes.len(),
{
    if bytes.len() == 0 {
        assert(s.field == bytes);
    } else {
        let shorter = bytes.drop_last();
        assert forall|i: int| 0 <= i < shorter.len() implies !csv_file::csv_special(
            #[trigger] shorter[i],
        ) by {
            assert(shorter[i] == bytes[i]);
        }
        lemma_read_bare(s, shorter);
        assert(bytes[bytes.len() - 1] == bytes.last());
        assert(shorter.push(bytes.last()) == bytes);
    }
}

/// A reader finds a field again, and a comma or a line feed would end it.
proof fn lemma_read_field(s: ReadState, field: Seq<char>)
    requires
        s.place is Head,
        s.field.len() == 0,
    ensures
        ({
            let t = read_bytes(s, csv_file::csv_field(field));
            &&& t.records == s.records
            &&& t.fields == s.fields
            &&& t.field == vstd::utf8::encode_utf8(field)
            &&& !(t.place is Quoted)
        }),
{
    let bytes = vstd::utf8::encode_utf8(field);
    if exists|i: int| 0 <= i < bytes.len() && csv_file::csv_special(#[trigger] bytes[i]) {
        let open = ReadState { place: FieldPlace::Quoted, ..s };
        let inner = csv_file::quotes_doubled(bytes);
        lemma_read_one(s, 0x22);
        lemma_read_concat(s, seq![0x22u8], inner);
        lemma_read_quoted(open, bytes);
        assert(s.field + bytes == bytes);
        lemma_read_concat(s, seq![0x22u8] + inner, seq![0x22u8]);
        lemma_read_one(read_bytes(s, seq![0x22u8] + inner), 0x22);
    } else {
        lemma_read_bare(s, bytes);
    }
}

/// A reader finds the fields of a record again, the last as the one that is being read.
proof fn lemma_read_fields(s: ReadState, fields: Seq<Seq<char>>)
    requires
        s.place is Head,
        s.field.len() == 0,
        s.fields.len() == 0,
        fields.len() > 0,
    ensures
        ({
            let t = read_bytes(s, csv_file::csv_fields(fields));
            &&& t.records == s.records
            &&& t.fields.push(t.field) == encoded(fields)
            &&& !(t.place is Quoted)
        }),
    decreases fields.len(),
{
    if fields.len() == 1 {
        lemma_read_field(s, fields[0]);
        let t = read_bytes(s, csv_file::csv_fields(fields));
        assert(t.fields.push(t.field) == encoded(fields));
    } else {
        let shorter = fields.drop_last();
        lemma_read_fields(s, shorter);
        let head = csv_file::csv_fields(shorter);
        let before = read_bytes(s, head);
        lemma_read_one(before, 0x2c);
        lemma_read_concat(s, head, seq![0x2cu8]);
        let next = before.end_field();
        lemma_read_field(next, fields.last());
        lemma_read_concat(s, head + seq![0x2cu8], csv_file::csv_field(fields.last()));
        assert(encoded(shorter).push(vstd::utf8::encode_utf8(fields.last())) == encoded(fields));
    }
}

/// A record that would be an empty line has one field, and that is empty.
proof fn lemma_empty_line(fields: Seq<Seq<char>>)
    requires
        fields.len() > 0,
        csv_file::csv_fields(fields).len() == 0,
    ensures
        encoded(fields) == seq![Seq::<u8>::empty()],
{
    if fields.len() == 1 {
        assert(csv_file::csv_field(fields[0]).len() == 0);
        assert(encoded(fields)[0] == Seq::<u8>::empty());
    } else {
        let head = csv_file::csv_fields(fields.drop_last());
        assert((head + seq![0x2cu8]).len() > 0);
    }
}

/// A reader finds a record again.
proof fn lemma_read_line(s: ReadState, fields: Seq<Seq<char>>)
    requires
        s.place is Head,
        s.field.len() == 0,
        s.fields.len() == 0,
        fields.len() > 0,
    ensures
        read_bytes(s, csv_file::csv_line(fields)) == (ReadState {
            records: s.records.push(encoded(fields)),
            ..ReadState::start()
        }),
{
    let body = csv_file::csv_fields(fields);
    if body.len() == 0 {
        lemma_empty_line(fields);
        let none = Seq::<u8>::empty();
        lemma_read_push(s, none, 0x22);
        lemma_read_push(s, none.push(0x22), 0x22);
        lemma_read_push(s, none.push(0x22).push(0x22), 0x0a);
        assert(csv_file::csv_line(fields) == none.push(0x22).push(0x22).push(0x0a));
        assert(s.field == none);
        assert(s.fields.push(none) == seq![none]);
    } else {
        lemma_read_fields(s, fields);
        lemma_read_push(s, body, 0x0a);
    }
}

proof fn lemma_read_lines(rows: Seq<Seq<Seq<char>>>)
    requires
        forall|i: int| 0 <= i < rows.len() ==> (#[trigger] rows[i]).len() > 0,
    ensures
        read_bytes(ReadState::start(), csv_file::csv_lines(rows)) == (ReadState {
            records: rows.map_values(|fields: Seq<Seq<char>>| encoded(fields)),
            ..ReadState::start()
        }),
    decreases rows.len(),
{
    let start = ReadState::start();
    let all = rows.map_values(|fields: Seq<Seq<char>>| encoded(fields));
    if rows.len() == 0 {
        assert(all == start.records);
    } else {
        let shorter = rows.drop_last();
        assert forall|i: int| 0 <= i < shorter.len() implies (#[trigger] shorter[i]).len() > 0 by {
            assert(shorter[i] == rows[i]);
        }
        lemma_read_lines(shorter);
        let head = csv_file::csv_lines(shorter);
        let earlier = shorter.map_values(|fields: Seq<Seq<char>>| encoded(fields));
        lemma_read_concat(start, head, csv_file::csv_line(rows.last()));
        lemma_read_line(ReadState { records: earlier, ..start }, rows.last());
        assert(earlier.push(encoded(rows.last())) == all);
    }
}

/// What is written as CSV is read back as it was, whatever commas, quotes and line ends
/// its fields hold. Every record has a field.
pub proof fn law_csv_is_read_back(rows: Seq<Seq<Seq<char>>>)
    requires
        forall|i: int| 0 <= i < rows.len() ==> (#[trigger] rows[i]).len() > 0,
    ensures
        records_of(csv_file::csv_lines(rows)) == rows,
{
    lemma_read_lines(rows);
    let found = records_of(csv_file::csv_lines(rows));
    assert forall|i: int| 0 <= i < rows.len() implies #[trigger] found[i] == rows[i] by {
        let fields = rows[i];
        assert forall|j: int| 0 <= j < fields.len() implies decoded(encoded(fields))[j]
            == fields[j] by {
            vstd::utf8::encode_utf8_decode_utf8(fields[j]);
        }
        assert(decoded(encoded(fields)) == fields);
    }
    assert(found == rows);
}

} // verus!
