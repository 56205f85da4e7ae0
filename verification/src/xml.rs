//! The events of an XML document, as the `quick_xml` crate reads them.

use crate::element::Element;
use crate::error::ParseError;
use crate::text;
use crate::xml::EventKind::{
    Characters, CloseTag, EmptyTag, EndOfInput, OpenTag, Other, Reference, Section,
};
use quick_xml::events::attributes::{AttrError, Attribute};
use quick_xml::events::Event::{CData, Empty, End, Eof, GeneralRef, Start, Text};
use vstd::prelude::*;
use vstd::slice::slice_subrange;

verus! {

/// One attribute of a tag: its name and its raw value, or what is wrong with it.
pub type AttributeItem = Result<(Vec<u8>, Vec<u8>), String>;

/// What an event of an XML document is.
#[derive(Debug)]
pub enum EventKind {
    /// An opening tag with its attributes.
    OpenTag(Vec<AttributeItem>),
    /// A tag that opens and closes an element, with its attributes.
    EmptyTag(Vec<AttributeItem>),
    /// A closing tag.
    CloseTag,
    /// Character data.
    Characters,
    /// An entity or character reference.
    Reference,
    /// A CDATA section.
    Section,
    /// The end of the document.
    EndOfInput,
    /// A comment, a declaration or a processing instruction.
    Other,
}

/// One event of an XML document.
///
/// `content` is the raw text of the event: of a tag all between its brackets,
/// of a closing tag its name, of a reference what stands between `&` and `;`.
#[derive(Debug)]
pub struct XmlEvent {
    pub kind: EventKind,
    pub content: Vec<u8>,
}

/// The next event of a document, or a message and a position where the document
/// cannot be read on.
pub type EventResult = Result<XmlEvent, (String, u64)>;

/// The model of an [`AttributeItem`].
pub type AttributeView = Result<(Seq<u8>, Seq<u8>), Seq<char>>;

/// The model of an [`EventKind`].
pub enum EventKindView {
    OpenTag(Seq<AttributeView>),
    EmptyTag(Seq<AttributeView>),
    CloseTag,
    Characters,
    Reference,
    Section,
    EndOfInput,
    Other,
}

/// The model of an [`XmlEvent`].
pub struct EventView {
    pub kind: EventKindView,
    pub content: Seq<u8>,
}

/// The model of an [`EventResult`].
pub type EventResultView = Result<EventView, (Seq<char>, u64)>;

/// The model of one attribute.
pub open spec fn attribute_view(item: AttributeItem) -> AttributeView {
    match item {
        Ok(pair) => Ok((pair.0@, pair.1@)),
        Err(message) => Err(message@),
    }
}

/// The model of the attributes of a tag.
pub open spec fn attributes_view(items: Seq<AttributeItem>) -> Seq<AttributeView> {
    items.map_values(|item: AttributeItem| attribute_view(item))
}

impl DeepView for XmlEvent {
    type V = EventView;

    open spec fn deep_view(&self) -> EventView {
        EventView {
            kind: match self.kind {
                EventKind::OpenTag(items) => EventKindView::OpenTag(attributes_view(items@)),
                EventKind::EmptyTag(items) => EventKindView::EmptyTag(attributes_view(items@)),
                EventKind::CloseTag => EventKindView::CloseTag,
                EventKind::Characters => EventKindView::Characters,
                EventKind::Reference => EventKindView::Reference,
                EventKind::Section => EventKindView::Section,
                EventKind::EndOfInput => EventKindView::EndOfInput,
                EventKind::Other => EventKindView::Other,
            },
            content: self.content@,
        }
    }
}

/// The model of what reading an event gives.
pub open spec fn event_result_view(result: EventResult) -> EventResultView {
    match result {
        Ok(event) => Ok(event.deep_view()),
        Err(failure) => Err((failure.0@, failure.1)),
    }
}

/// Whether nothing is read after this result.
pub open spec fn ends_document(result: EventResultView) -> bool {
    match result {
        Ok(event) => event.kind is EndOfInput,
        Err(_) => true,
    }
}

/// Whether `events` is a document read to its end: the last result ends the
/// document, and no other does.
pub open spec fn complete(events: Seq<EventResultView>) -> bool {
    &&& events.len() > 0
    &&& forall|i: int|
        0 <= i < events.len() ==> ends_document(#[trigger] events[i]) == (i == events.len() - 1)
}

/// What remains of a document after a result that does not end it is read to its end
/// too.
pub proof fn lemma_rest_complete(events: Seq<EventResultView>)
    requires
        complete(events),
    ensures
        !ends_document(events[0]) ==> complete(events.skip(1)),
{
    if !ends_document(events[0]) {
        let rest = events.skip(1);
        assert forall|i: int| 0 <= i < rest.len() implies ends_document(#[trigger] rest[i]) == (i
            == rest.len() - 1) by {
            assert(rest[i] == events[i + 1]);
        }
    }
}

/// The reader of the `quick_xml` crate.
#[verifier::external_type_specification]
#[verifier::external_body]
#[verifier::reject_recursive_types(R)]
pub struct ExReader<R>(quick_xml::Reader<R>);

/// The results that `quick_xml::Reader::read_event_into` gives, called again and
/// again on a new reader of `input`, up to the first that ends the document.
pub uninterp spec fn xml_events(input: Seq<u8>) -> Seq<EventResultView>;

/// The results that are still to come from a reader.
pub uninterp spec fn reader_events(reader: quick_xml::Reader<&[u8]>) -> Seq<EventResultView>;

/// `quick_xml::Reader::from_reader` on a byte slice, with the trimming of
/// character data switched off.
///
/// The new reader has all of the document before it. Every event but the end of
/// the document takes at least one byte of it, so the document ends.
#[verifier::external_body]
pub(crate) fn open_reader<'a>(input: &'a [u8]) -> (reader: quick_xml::Reader<&'a [u8]>)
    ensures
        reader_events(reader) == xml_events(input@),
        complete(reader_events(reader)),
{
    let mut reader = quick_xml::Reader::from_reader(input);
    reader.config_mut().trim_text(false);
    reader
}

/// `quick_xml::Reader::read_event_into`, with the event, the attributes of a tag
/// and the error turned into plain values.
///
/// Takes the next result from the reader and leaves the ones after it.
#[verifier::external_body]
pub(crate) fn read_event(reader: &mut quick_xml::Reader<&[u8]>) -> (result: EventResult)
    requires
        reader_events(*old(reader)).len() > 0,
    ensures
        event_result_view(result) == reader_events(*old(reader))[0],
        reader_events(*final(reader)) == reader_events(*old(reader)).skip(1),
{
    let mut buf = Vec::new();
    let item = |a: Result<Attribute, AttrError>|
        a.map(|a| (a.key.0.to_vec(), a.value.to_vec())).map_err(|e| e.to_string());
    let event = reader.read_event_into(&mut buf).map_err(|e| (e.to_string(), reader.error_position()))?;
    Ok(XmlEvent { content: event.to_vec(), kind: match event {
        Start(tag) => OpenTag(tag.attributes().map(item).collect()),
        Empty(tag) => EmptyTag(tag.attributes().map(item).collect()),
        End(_) => CloseTag,
        Text(_) => Characters,
        GeneralRef(_) => Reference,
        CData(_) => Section,
        Eof => EndOfInput,
        _ => Other,
    } })
}

/// Whether `b` is white space between the parts of a tag.
pub open spec fn tag_space(b: u8) -> bool {
    b == 0x20 || b == 0x0d || b == 0x0a || b == 0x09
}

/// The length of the name at the head of the content of a tag.
pub open spec fn name_len(content: Seq<u8>) -> nat
    decreases content.len(),
{
    if content.len() == 0 || tag_space(content[0]) {
        0
    } else {
        1 + name_len(content.skip(1))
    }
}

/// The element that a tag with the given content opens.
pub open spec fn tag_element(content: Seq<u8>) -> Element {
    crate::element::element(content.take(name_len(content) as int))
}

/// The length of the name at the head of the content of a tag.
pub fn tag_name_len(content: &[u8]) -> (n: usize)
    ensures
        n == name_len(content@),
        n <= content.len(),
{
    let mut n: usize = 0;
    assert(content@.skip(0) == content@);
    while n < content.len() && !(content[n] == 0x20 || content[n] == 0x0d || content[n] == 0x0a
        || content[n] == 0x09)
        invariant
            n <= content.len(),
            n + name_len(content@.skip(n as int)) == name_len(content@),
        decreases content.len() - n,
    {
        assert(content@.skip(n as int).skip(1) == content@.skip(n + 1));
        n += 1;
    }
    n
}

/// The element that a tag with the given content opens.
pub fn tag_element_of(content: &[u8]) -> (r: Element)
    ensures
        r == tag_element(content@),
{
    let n: usize = tag_name_len(content);
    Element::from_name(slice_subrange(content, 0, n))
}

/// What `quick_xml::escape::unescape` gives for a string: the string with its
/// references resolved, or a message.
pub uninterp spec fn unescaped(raw: Seq<char>) -> Result<Seq<char>, Seq<char>>;

/// What `String::from_utf8_lossy` gives for a byte string.
pub uninterp spec fn utf8_lossy(bytes: Seq<u8>) -> Seq<char>;

/// The message of the error that `std::str::from_utf8` gives for bytes that are not UTF-8.
pub uninterp spec fn utf8_fault(bytes: Seq<u8>) -> Seq<char>;

/// `std::str::from_utf8` gives the string that the bytes encode, and fails where
/// they are not UTF-8. How the message says what is wrong, and where, is left to the name.
#[verifier::external_body]
pub(crate) fn decode(bytes: &[u8]) -> (r: Result<&str, String>)
    ensures
        match r {
            Ok(s) => vstd::utf8::valid_utf8(bytes@) && s@ == vstd::utf8::decode_utf8(bytes@),
            Err(message) => !vstd::utf8::valid_utf8(bytes@) && message@ == utf8_fault(bytes@),
        },
{
    std::str::from_utf8(bytes).map_err(|e| e.to_string())
}

/// `String::from_utf8_lossy` gives the string that the bytes encode where they are
/// UTF-8, and else a string with replacement characters.
#[verifier::external_body]
pub(crate) fn decode_lossy(bytes: &[u8]) -> (s: String)
    ensures
        s@ == utf8_lossy(bytes@),
        vstd::utf8::valid_utf8(bytes@) ==> s@ == vstd::utf8::decode_utf8(bytes@),
{
    String::from_utf8_lossy(bytes).into_owned()
}

/// The character that a reference to a predefined entity stands for.
pub open spec fn predefined(reference: Seq<char>) -> Option<char> {
    if reference == "&lt;"@ {
        Some('<')
    } else if reference == "&gt;"@ {
        Some('>')
    } else if reference == "&amp;"@ {
        Some('&')
    } else if reference == "&apos;"@ {
        Some('\'')
    } else if reference == "&quot;"@ {
        Some('"')
    } else {
        None
    }
}

/// `quick_xml::escape::unescape` resolves the character references and the
/// predefined entities of a string. A string without `&` stays as it is, and a
/// reference to a predefined entity gives its character. Character references, and
/// which strings are refused, are left to the name.
#[verifier::external_body]
pub(crate) fn unescape(raw: &str) -> (r: Result<String, String>)
    ensures
        match r {
            Ok(s) => unescaped(raw@) == Ok::<Seq<char>, Seq<char>>(s@),
            Err(message) => unescaped(raw@) == Err::<Seq<char>, Seq<char>>(message@),
        },
        r is Err ==> raw@.contains('&'),
        !raw@.contains('&') ==> r->Ok_0@ == raw@,
        predefined(raw@) matches Some(c) ==> r is Ok && r->Ok_0@ == seq![c],
{
    quick_xml::escape::unescape(raw).map(|s| s.into_owned()).map_err(|e| e.to_string())
}

/// The text of a string with references.
pub open spec fn resolved(raw: Seq<char>) -> Result<Seq<char>, crate::error::ErrorView> {
    match unescaped(raw) {
        Ok(s) => Ok(s),
        Err(message) => Err(crate::error::ErrorView::Escape(message)),
    }
}

/// The error for character data or a reference that is not UTF-8, in the words of
/// `quick_xml::encoding::EncodingError`.
pub open spec fn undecodable(raw: Seq<u8>) -> crate::error::ErrorView {
    crate::error::ErrorView::InvalidUtf8("cannot decode input using UTF-8: "@ + utf8_fault(raw))
}

/// The text of raw character data.
pub open spec fn text_value(raw: Seq<u8>) -> Result<Seq<char>, crate::error::ErrorView> {
    if vstd::utf8::valid_utf8(raw) {
        resolved(vstd::utf8::decode_utf8(raw))
    } else {
        Err(undecodable(raw))
    }
}

/// The text of a raw attribute value.
pub open spec fn attribute_value(raw: Seq<u8>) -> Result<Seq<char>, crate::error::ErrorView> {
    if vstd::utf8::valid_utf8(raw) {
        resolved(vstd::utf8::decode_utf8(raw))
    } else {
        Err(crate::error::ErrorView::InvalidUtf8(utf8_fault(raw)))
    }
}

/// The text of a reference, given what stands between `&` and `;`.
pub open spec fn reference_value(raw: Seq<u8>) -> Result<Seq<char>, crate::error::ErrorView> {
    if vstd::utf8::valid_utf8(raw) {
        resolved("&"@ + vstd::utf8::decode_utf8(raw) + ";"@)
    } else {
        Err(undecodable(raw))
    }
}

fn report_undecodable(fault: &str) -> (r: ParseError)
    ensures
        r.deep_view() == crate::error::ErrorView::InvalidUtf8(
            "cannot decode input using UTF-8: "@ + fault@,
        ),
{
    let mut message = String::new();
    message.append("cannot decode input using UTF-8: ");
    message.append(fault);
    assert(message@ == "cannot decode input using UTF-8: "@ + fault@);
    ParseError::InvalidUtf8(message)
}

fn resolve(raw: &str) -> (r: Result<String, ParseError>)
    ensures
        crate::error::result_view(r) == resolved(raw@),
        !raw@.contains('&') ==> r is Ok && r->Ok_0@ == raw@,
        predefined(raw@) matches Some(c) ==> r is Ok && r->Ok_0@ == seq![c],
{
    match unescape(raw) {
        Ok(s) => Ok(s),
        Err(message) => Err(ParseError::Escape(message)),
    }
}

/// Whether `raw` is the UTF-8 encoding of a text without references.
pub open spec fn plain_text(raw: Seq<u8>) -> bool {
    vstd::utf8::valid_utf8(raw) && !vstd::utf8::decode_utf8(raw).contains('&')
}

/// Decodes raw character data and resolves its references. A text without references is
/// decoded only.
pub fn unescape_text(raw: &[u8]) -> (r: Result<String, ParseError>)
    ensures
        crate::error::result_view(r) == text_value(raw@),
        plain_text(raw@) ==> r is Ok && r->Ok_0@ == vstd::utf8::decode_utf8(raw@),
{
    match decode(raw) {
        Ok(s) => resolve(s),
        Err(fault) => Err(report_undecodable(fault.as_str())),
    }
}

/// Resolves a reference, given what stands between `&` and `;`. A reference to a
/// predefined entity gives its character.
pub fn resolve_general_ref(raw: &[u8]) -> (r: Result<String, ParseError>)
    ensures
        crate::error::result_view(r) == reference_value(raw@),
        vstd::utf8::valid_utf8(raw@) ==> (predefined(
            "&"@ + vstd::utf8::decode_utf8(raw@) + ";"@,
        ) matches Some(c) ==> r is Ok && r->Ok_0@ == seq![c]),
{
    match decode(raw) {
        Ok(name) => {
            let mut reference = String::new();
            reference.append("&");
            reference.append(name);
            reference.append(";");
            assert(reference@ == "&"@ + name@ + ";"@);
            resolve(reference.as_str())
        },
        Err(fault) => Err(report_undecodable(fault.as_str())),
    }
}

/// Decodes a raw attribute value and resolves its references. White space in the
/// value stays as it is.
pub fn unescape_attr(raw: &[u8]) -> (r: Result<String, ParseError>)
    ensures
        crate::error::result_view(r) == attribute_value(raw@),
        plain_text(raw@) ==> r is Ok && r->Ok_0@ == vstd::utf8::decode_utf8(raw@),
{
    match decode(raw) {
        Ok(s) => resolve(s),
        Err(fault) => Err(ParseError::InvalidUtf8(fault)),
    }
}

/// The place of the first of `keys` that names an attribute, or the number of keys.
pub open spec fn key_index(keys: Seq<Seq<char>>, name: Seq<u8>) -> nat
    decreases keys.len(),
{
    if keys.len() == 0 || name == vstd::utf8::encode_utf8(keys[0]) {
        0
    } else {
        1 + key_index(keys.skip(1), name)
    }
}

/// The values of the attributes with the given names, read from left to right. A
/// later attribute replaces an earlier one of its name. Reading stops at the first
/// attribute that is malformed, or is asked for and has a value that is no text.
pub open spec fn attribute_values(items: Seq<AttributeView>, keys: Seq<Seq<char>>) -> Result<
    Seq<Option<Seq<char>>>,
    crate::error::ErrorView,
>
    decreases items.len(),
{
    if items.len() == 0 {
        Ok(Seq::new(keys.len(), |i: int| None))
    } else {
        match attribute_values(items.drop_last(), keys) {
            Err(error) => Err(error),
            Ok(values) => match items.last() {
                Err(message) => Err(crate::error::ErrorView::Attribute(message)),
                Ok((name, raw)) => {
                    let k = key_index(keys, name);
                    if k >= keys.len() {
                        Ok(values)
                    } else {
                        match attribute_value(raw) {
                            Err(error) => Err(error),
                            Ok(value) => Ok(values.update(k as int, Some(value))),
                        }
                    }
                },
            },
        }
    }
}

fn find_key(keys: &Vec<&str>, name: &[u8]) -> (k: usize)
    ensures
        k <= keys.len(),
        k == key_index(keys.deep_view(), name@),
{
    let ghost all = keys.deep_view();
    let mut k: usize = 0;
    assert(all.skip(0) == all);
    while k < keys.len() && !text::bytes_are(name, keys[k])
        invariant
            k <= keys.len(),
            all == keys.deep_view(),
            k + key_index(all.skip(k as int), name@) == key_index(all, name@),
        decreases keys.len() - k,
    {
        assert(all.skip(k as int)[0] == keys[k as int]@);
        assert(all.skip(k as int).skip(1) == all.skip(k + 1));
        k += 1;
    }
    if k < keys.len() {
        assert(all.skip(k as int)[0] == keys[k as int]@);
    }
    k
}

proof fn lemma_attribute_error_stays(items: Seq<AttributeView>, keys: Seq<Seq<char>>, n: int)
    requires
        0 <= n <= items.len(),
        attribute_values(items.take(n), keys) is Err,
    ensures
        attribute_values(items, keys) == attribute_values(items.take(n), keys),
    decreases items.len(),
{
    if n < items.len() {
        assert(items.drop_last().take(n) == items.take(n));
        lemma_attribute_error_stays(items.drop_last(), keys, n);
    } else {
        assert(items.take(n) == items);
    }
}

/// Reads the attributes with the given names.
pub fn read_attributes(items: &Vec<AttributeItem>, keys: &Vec<&str>) -> (r: Result<
    Vec<Option<String>>,
    ParseError,
>)
    ensures
        crate::error::result_view(r) == attribute_values(attributes_view(items@), keys.deep_view()),
        r matches Ok(values) ==> values.len() == keys.len(),
{
    let ghost all = attributes_view(items@);
    let ghost names = keys.deep_view();
    let mut values: Vec<Option<String>> = Vec::new();
    let mut k: usize = 0;
    while k < keys.len()
        invariant
            k <= keys.len(),
            values.len() == k,
            forall|j: int| 0 <= j < k ==> values[j] is None,
        decreases keys.len() - k,
    {
        values.push(None);
        k += 1;
    }
    assert(all.take(0) == Seq::<AttributeView>::empty());
    assert(values.deep_view() == Seq::new(names.len(), |i: int| None::<Seq<char>>));
    let mut i: usize = 0;
    while i < items.len()
        invariant
            i <= items.len(),
            all == attributes_view(items@),
            names == keys.deep_view(),
            values.len() == keys.len(),
            attribute_values(all.take(i as int), names) == Ok::<_, crate::error::ErrorView>(
                values.deep_view(),
            ),
        decreases items.len() - i,
    {
        let ghost longer = all.take(i + 1);
        proof {
            assert(longer.drop_last() == all.take(i as int));
            assert(longer.last() == attribute_view(items[i as int]));
            if attribute_values(longer, names) is Err {
                lemma_attribute_error_stays(all, names, i + 1);
            }
        }
        match &items[i] {
            Err(message) => {
                return Err(ParseError::Attribute(message.clone()));
            },
            Ok(pair) => {
                let k: usize = find_key(keys, pair.0.as_slice());
                if k < keys.len() {
                    match unescape_attr(pair.1.as_slice()) {
                        Err(error) => {
                            return Err(error);
                        },
                        Ok(value) => {
                            let ghost before = values.deep_view();
                            let ghost text = value@;
                            values.set(k, Some(value));
                            assert(values.deep_view() == before.update(k as int, Some(text)));
                        },
                    }
                }
            },
        }
        i += 1;
    }
    assert(all.take(all.len() as int) == all);
    Ok(values)
}

} // verus!
