//! Reading records one after another from the events of a document.

use crate::element::Element;
use crate::error;
use crate::error::ParseError;
use crate::xml;
use crate::xml::{AttributeItem, EventKind, EventResult, XmlEvent};
use vstd::prelude::*;

verus! {

/// A parser of the records of one kind, which takes the events of a document one
/// by one.
pub trait RecordParser: Sized + DeepView {
    type Item: DeepView;

    /// The state after the opening tag of a record; `None` where the tag opens no
    /// record.
    spec fn opened(element: Element, items: Seq<xml::AttributeView>) -> Option<
        Result<<Self as DeepView>::V, error::ErrorView>,
    >;

    /// The state after an event inside a record, with the record where the event
    /// completes it.
    spec fn stepped(state: <Self as DeepView>::V, event: xml::EventView) -> Result<
        (<Self as DeepView>::V, Option<<Self::Item as DeepView>::V>),
        error::ErrorView,
    >;

    /// No record goes on past the end of the document.
    proof fn end_of_input_fails(state: <Self as DeepView>::V, event: xml::EventView)
        requires
            event.kind is EndOfInput,
        ensures
            Self::stepped(state, event) is Err,
    ;

    /// Starts a record at an opening tag.
    fn open(element: Element, items: &Vec<AttributeItem>) -> (r: Option<Result<Self, ParseError>>)
        ensures
            match Self::opened(element, xml::attributes_view(items@)) {
                None => r is None,
                Some(state) => r is Some && error::result_view(r->Some_0) == state,
            },
    ;

    /// Takes an event inside a record. Gives the record where the event completes
    /// it.
    fn step(&mut self, event: &XmlEvent) -> (r: Result<Option<Self::Item>, ParseError>)
        ensures
            match Self::stepped(old(self).deep_view(), event.deep_view()) {
                Ok((state, item)) => {
                    &&& r is Ok
                    &&& r->Ok_0.deep_view() == item
                    &&& item is None ==> final(self).deep_view() == state
                },
                Err(error) => r is Err && r->Err_0.deep_view() == error,
            },
    ;
}

/// What an event of a document brought.
pub enum Progress<T> {
    /// No record is complete yet.
    Reading,
    /// A record is complete.
    Complete(T),
    /// The document has ended.
    End,
}

impl<T: DeepView> DeepView for Progress<T> {
    type V = Progress<T::V>;

    open spec fn deep_view(&self) -> Progress<T::V> {
        match self {
            Progress::Reading => Progress::Reading,
            Progress::Complete(item) => Progress::Complete(item.deep_view()),
            Progress::End => Progress::End,
        }
    }
}

/// The state of a reader, and what it found, after it was given one more result of
/// reading the document. `current` is the state of the record that is being read.
pub open spec fn fed<P: RecordParser>(
    current: Option<<P as DeepView>::V>,
    result: xml::EventResultView,
) -> Result<
    (Option<<P as DeepView>::V>, Progress<<P::Item as DeepView>::V>),
    error::ErrorView,
> {
    match (current, result) {
        (Some(_), Err((message, _))) => Err(error::ErrorView::Malformed(message)),
        (Some(state), Ok(event)) => match P::stepped(state, event) {
            Err(error) => Err(error),
            Ok((state, None)) => Ok((Some(state), Progress::Reading)),
            Ok((_, Some(item))) => Ok((None, Progress::Complete(item))),
        },
        (None, Err((message, position))) => Err(error::ErrorView::MalformedAt(message, position)),
        (None, Ok(event)) => match event.kind {
            xml::EventKindView::EndOfInput => Ok((None, Progress::End)),
            xml::EventKindView::OpenTag(items) => match P::opened(
                xml::tag_element(event.content),
                items,
            ) {
                None => Ok((None, Progress::Reading)),
                Some(Err(error)) => Err(error),
                Some(Ok(state)) => Ok((Some(state), Progress::Reading)),
            },
            _ => Ok((None, Progress::Reading)),
        },
    }
}

/// The records of a document with the given events, and the error that ends the
/// reading, if there is one.
pub open spec fn records<P: RecordParser>(
    current: Option<<P as DeepView>::V>,
    events: Seq<xml::EventResultView>,
) -> (Seq<<P::Item as DeepView>::V>, Option<error::ErrorView>)
    decreases events.len(),
{
    if events.len() == 0 {
        (Seq::empty(), None)
    } else {
        match fed::<P>(current, events[0]) {
            Err(error) => (Seq::empty(), Some(error)),
            Ok((next, Progress::Reading)) => records::<P>(next, events.skip(1)),
            Ok((next, Progress::Complete(item))) => {
                let rest = records::<P>(next, events.skip(1));
                (seq![item] + rest.0, rest.1)
            },
            Ok((_, Progress::End)) => (Seq::empty(), None),
        }
    }
}

/// A reader of records, which is given the results of reading a document one by
/// one.
pub struct RecordReader<P> {
    pub current: Option<P>,
}

impl<P: RecordParser> RecordReader<P> {
    /// A reader at the head of a document.
    pub fn new() -> (r: Self)
        ensures
            r.current is None,
    {
        RecordReader { current: None }
    }

    /// Takes the next result of reading the document.
    pub fn feed(&mut self, result: EventResult) -> (r: Result<Progress<P::Item>, ParseError>)
        ensures
            match fed::<P>(old(self).current.deep_view(), xml::event_result_view(result)) {
                Ok((current, progress)) => {
                    &&& final(self).current.deep_view() == current
                    &&& r is Ok
                    &&& r->Ok_0.deep_view() == progress
                },
                Err(error) => r is Err && r->Err_0.deep_view() == error,
            },
    {
        match self.current.take() {
            Some(mut parser) => match result {
                Err(failure) => Err(ParseError::Malformed(failure.0)),
                Ok(event) => match parser.step(&event) {
                    Err(error) => Err(error),
                    Ok(None) => {
                        self.current = Some(parser);
                        Ok(Progress::Reading)
                    },
                    Ok(Some(item)) => Ok(Progress::Complete(item)),
                },
            },
            None => match result {
                Err(failure) => Err(ParseError::MalformedAt(failure.0, failure.1)),
                Ok(event) => match &event.kind {
                    EventKind::EndOfInput => Ok(Progress::End),
                    EventKind::OpenTag(items) => {
                        let element = xml::tag_element_of(event.content.as_slice());
                        match P::open(element, items) {
                            None => Ok(Progress::Reading),
                            Some(Err(error)) => Err(error),
                            Some(Ok(parser)) => {
                                self.current = Some(parser);
                                Ok(Progress::Reading)
                            },
                        }
                    },
                    _ => Ok(Progress::Reading),
                },
            },
        }
    }
}

/// While a document goes on, its remaining events are complete too.
pub proof fn lemma_goes_on<P: RecordParser>(
    current: Option<<P as DeepView>::V>,
    events: Seq<xml::EventResultView>,
)
    requires
        xml::complete(events),
    ensures
        fed::<P>(current, events[0]) matches Ok((_, progress)) ==> (progress is End <==> (
        current is None && ends_here(events[0]))) && (progress is End || xml::complete(
            events.skip(1),
        )),
{
    if let Ok(event) = events[0] {
        if let Some(state) = current {
            if event.kind is EndOfInput {
                P::end_of_input_fails(state, event);
            }
        }
    }
    xml::lemma_rest_complete(events);
}

/// Whether a result is the end of the document.
pub open spec fn ends_here(result: xml::EventResultView) -> bool {
    result matches Ok(event) && event.kind is EndOfInput
}

/// Appends the records of a document to `found`. Gives their number, or the error
/// that ended the reading; the records before it are in `found`.
pub fn parse_records<P: RecordParser>(document: &[u8], found: &mut Vec<P::Item>) -> (r: Result<
    usize,
    ParseError,
>)
    ensures
        final(found).deep_view() == old(found).deep_view() + records::<P>(
            None,
            xml::xml_events(document@),
        ).0,
        match records::<P>(None, xml::xml_events(document@)).1 {
            None => r == Ok::<usize, ParseError>((final(found).len() - old(found).len()) as usize),
            Some(error) => r is Err && r->Err_0.deep_view() == error,
        },
{
    let mut xml_reader = xml::open_reader(document);
    let mut reader = RecordReader::<P>::new();
    let ghost all = records::<P>(None, xml::xml_events(document@));
    let ghost before = found.deep_view();
    let start: usize = found.len();
    assert(found.deep_view() + all.0 == before + all.0);
    loop
        invariant
            xml::complete(xml::reader_events(xml_reader)),
            start == old(found).len(),
            start <= found.len(),
            before == old(found).deep_view(),
            all == records::<P>(None, xml::xml_events(document@)),
            ({
                let rest = records::<P>(
                    reader.current.deep_view(),
                    xml::reader_events(xml_reader),
                );
                &&& found.deep_view() + rest.0 == before + all.0
                &&& rest.1 == all.1
            }),
        decreases xml::reader_events(xml_reader).len(),
    {
        let ghost events = xml::reader_events(xml_reader);
        let ghost current = reader.current.deep_view();
        let result = xml::read_event(&mut xml_reader);
        proof {
            lemma_goes_on::<P>(current, events);
        }
        match reader.feed(result) {
            Err(error) => {
                assert(found.deep_view() + Seq::<<P::Item as DeepView>::V>::empty()
                    == found.deep_view());
                return Err(error);
            },
            Ok(Progress::Reading) => {},
            Ok(Progress::Complete(item)) => {
                let ghost shorter = found.deep_view();
                let ghost rest = records::<P>(reader.current.deep_view(), events.skip(1)).0;
                let ghost value = item.deep_view();
                found.push(item);
                assert(found.deep_view() == shorter.push(value));
                assert(shorter + (seq![value] + rest) == shorter.push(value) + rest);
            },
            Ok(Progress::End) => {
                assert(found.deep_view() + Seq::<<P::Item as DeepView>::V>::empty()
                    == found.deep_view());
                return Ok(found.len() - start);
            },
        }
    }
}

/// The state after events none of which completes the record or fails; `None` where one
/// does.
pub open spec fn state_after<P: RecordParser>(
    state: <P as DeepView>::V,
    body: Seq<xml::EventView>,
) -> Option<<P as DeepView>::V>
    decreases body.len(),
{
    if body.len() == 0 {
        Some(state)
    } else {
        match P::stepped(state, body[0]) {
            Ok((next, None)) => state_after::<P>(next, body.skip(1)),
            _ => None,
        }
    }
}

/// Events that were read.
pub open spec fn as_read(body: Seq<xml::EventView>) -> Seq<xml::EventResultView> {
    body.map_values(|event: xml::EventView| Ok::<xml::EventView, (Seq<char>, u64)>(event))
}

/// A record is read from its opening tag to the event that completes it. It is the first of
/// the records, and those after it are read on their own.
pub proof fn law_record_is_read<P: RecordParser>(
    open: xml::EventView,
    state: <P as DeepView>::V,
    body: Seq<xml::EventView>,
    close: xml::EventView,
    item: <P::Item as DeepView>::V,
    rest: Seq<xml::EventResultView>,
)
    requires
        open.kind matches xml::EventKindView::OpenTag(items) && P::opened(
            xml::tag_element(open.content),
            items,
        ) == Some(Ok::<<P as DeepView>::V, error::ErrorView>(state)),
        state_after::<P>(state, body) matches Some(last) && (P::stepped(last, close) matches Ok(
            (_, found),
        ) && found == Some(item)),
    ensures
        records::<P>(None, seq![Ok(open)] + (as_read(body) + (seq![Ok(close)] + rest))) == (
            seq![item] + records::<P>(None, rest).0,
            records::<P>(None, rest).1,
        ),
{
    let tail = as_read(body) + (seq![Ok(close)] + rest);
    let events = seq![Ok(open)] + tail;
    assert(events.skip(1) == tail);
    assert(events[0] == Ok::<xml::EventView, (Seq<char>, u64)>(open));
    lemma_body_is_read::<P>(state, body, close, item, rest);
}

proof fn lemma_body_is_read<P: RecordParser>(
    state: <P as DeepView>::V,
    body: Seq<xml::EventView>,
    close: xml::EventView,
    item: <P::Item as DeepView>::V,
    rest: Seq<xml::EventResultView>,
)
    requires
        state_after::<P>(state, body) matches Some(last) && (P::stepped(last, close) matches Ok(
            (_, found),
        ) && found == Some(item)),
    ensures
        records::<P>(Some(state), as_read(body) + (seq![Ok(close)] + rest)) == (
            seq![item] + records::<P>(None, rest).0,
            records::<P>(None, rest).1,
        ),
    decreases body.len(),
{
    let tail: Seq<xml::EventResultView> = seq![Ok(close)] + rest;
    let events = as_read(body) + tail;
    if body.len() == 0 {
        assert(events == tail);
        assert(tail.skip(1) == rest);
        assert(tail[0] == Ok::<xml::EventView, (Seq<char>, u64)>(close));
    } else {
        let next = P::stepped(state, body[0])->Ok_0.0;
        lemma_body_is_read::<P>(next, body.skip(1), close, item, rest);
        assert(events[0] == Ok::<xml::EventView, (Seq<char>, u64)>(body[0]));
        assert(events.skip(1) == as_read(body.skip(1)) + tail);
    }
}

/// What stands between records is passed over; the end of the document ends the reading,
/// and what cannot be read ends it with an error that says where. Inside a record the error
/// says what is wrong only.
pub proof fn law_between_records<P: RecordParser>(
    event: xml::EventView,
    state: <P as DeepView>::V,
    message: Seq<char>,
    position: u64,
    rest: Seq<xml::EventResultView>,
)
    ensures
        event.kind is EndOfInput ==> records::<P>(None, seq![Ok(event)] + rest) == (
            Seq::<<P::Item as DeepView>::V>::empty(),
            None::<error::ErrorView>,
        ),
        !(event.kind is EndOfInput) && !(event.kind is OpenTag) ==> records::<P>(
            None,
            seq![Ok(event)] + rest,
        ) == records::<P>(None, rest),
        event.kind matches xml::EventKindView::OpenTag(items) ==> P::opened(
            xml::tag_element(event.content),
            items,
        ) is None ==> records::<P>(None, seq![Ok(event)] + rest) == records::<P>(None, rest),
        records::<P>(None, seq![Err((message, position))] + rest) == (
            Seq::<<P::Item as DeepView>::V>::empty(),
            Some(error::ErrorView::MalformedAt(message, position)),
        ),
        records::<P>(Some(state), seq![Err((message, position))] + rest) == (
            Seq::<<P::Item as DeepView>::V>::empty(),
            Some(error::ErrorView::Malformed(message)),
        ),
{
    let good: Seq<xml::EventResultView> = seq![Ok(event)] + rest;
    let bad: Seq<xml::EventResultView> = seq![Err((message, position))] + rest;
    assert(good.skip(1) == rest);
    assert(good[0] == Ok::<xml::EventView, (Seq<char>, u64)>(event));
    assert(bad[0] == Err::<xml::EventView, (Seq<char>, u64)>((message, position)));
}

} // verus!
