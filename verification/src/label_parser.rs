//! Reading `<label>` elements.

use crate::element::Element;
use crate::error;
use crate::error::{ParseError, Record};
use crate::label_model;
use crate::label_model::{Label};
use crate::artist_parser;
use crate::parser;
use crate::record;
use crate::record::RecordParser;
use crate::text;
use crate::xml;
use crate::xml::{AttributeItem, EventKind, XmlEvent};
use vstd::prelude::*;

verus! {

/// The state of reading one `<label>` element.
pub struct LabelParser {
    pub label: Label,
    pub text: String,
    pub in_sublabels: bool,
    pub in_parent_label: bool,
}

/// The model of a [`LabelParser`].
pub struct LabelParserView {
    pub label: label_model::LabelView,
    pub text: Seq<char>,
    pub in_sublabels: bool,
    pub in_parent_label: bool,
}

impl DeepView for LabelParser {
    type V = LabelParserView;

    open spec fn deep_view(&self) -> LabelParserView {
        LabelParserView {
            label: self.label.deep_view(),
            text: self.text@,
            in_sublabels: self.in_sublabels,
            in_parent_label: self.in_parent_label,
        }
    }
}

/// The state right after the opening tag of a label.
pub open spec fn label_opened() -> LabelParserView {
    LabelParserView {
        label: label_model::LabelView::blank(),
        text: Seq::empty(),
        in_sublabels: false,
        in_parent_label: false,
    }
}

/// The state after an opening tag.
#[verifier::opaque]
pub open spec fn label_open(
    state: LabelParserView,
    element: Element,
    items: Seq<xml::AttributeView>,
) -> Result<LabelParserView, error::ErrorView> {
    let s = LabelParserView { text: Seq::empty(), ..state };
    match element {
        Element::SubLabels => Ok(LabelParserView { in_sublabels: true, ..s }),
        Element::ParentLabel => match artist_parser::id_attribute(items) {
            Err(error) => Err(error),
            Ok(id) => Ok(
                LabelParserView {
                    in_parent_label: true,
                    label: label_model::LabelView {
                        parent_id: match id {
                            Some(n) => Some(n),
                            None => s.label.parent_id,
                        },
                        ..s.label
                    },
                    ..s
                },
            ),
        },
        _ => Ok(s),
    }
}

/// The state after a closing tag other than the `</label>` of the label itself.
#[verifier::opaque]
pub open spec fn label_close(s: LabelParserView, element: Element) -> LabelParserView {
    let value = text::trimmed(s.text);
    let closed = match element {
        Element::SubLabels => LabelParserView { in_sublabels: false, ..s },
        Element::Id => if !s.in_sublabels {
            LabelParserView {
                label: label_model::LabelView { id: parser::number_u64(value), ..s.label },
                ..s
            }
        } else {
            s
        },
        Element::Name => if !s.in_sublabels && !s.in_parent_label {
            LabelParserView { label: label_model::LabelView { name: value, ..s.label }, ..s }
        } else {
            s
        },
        Element::ParentLabel => LabelParserView {
            label: label_model::LabelView { parent_name: value, ..s.label },
            in_parent_label: false,
            ..s
        },
        _ => s,
    };
    LabelParserView { text: Seq::empty(), ..closed }
}

/// The state after an event inside `<label>`, with the label at its closing tag.
pub open spec fn label_stepped(s: LabelParserView, event: xml::EventView) -> Result<
    (LabelParserView, Option<label_model::LabelView>),
    error::ErrorView,
> {
    match event.kind {
        xml::EventKindView::OpenTag(items) => match label_open(
            s,
            xml::tag_element(event.content),
            items,
        ) {
            Err(error) => Err(error),
            Ok(state) => Ok((state, None)),
        },
        xml::EventKindView::CloseTag => {
            let element = crate::element::element(event.content);
            if element == Element::Label && !s.in_sublabels {
                Ok((s, Some(s.label)))
            } else {
                Ok((label_close(s, element), None))
            }
        },
        xml::EventKindView::Characters => label_text(s, xml::text_value(event.content)),
        xml::EventKindView::Reference => label_text(s, xml::reference_value(event.content)),
        xml::EventKindView::Section => label_text(s, Ok(xml::utf8_lossy(event.content))),
        xml::EventKindView::EndOfInput => Err(error::ErrorView::UnexpectedEnd(Record::Label)),
        xml::EventKindView::EmptyTag(_) | xml::EventKindView::Other => Ok((s, None)),
    }
}

/// The state after more text.
pub open spec fn label_text(
    s: LabelParserView,
    value: Result<Seq<char>, error::ErrorView>,
) -> Result<(LabelParserView, Option<label_model::LabelView>), error::ErrorView> {
    match value {
        Err(error) => Err(error),
        Ok(more) => Ok((LabelParserView { text: s.text + more, ..s }, None)),
    }
}

impl LabelParser {
    /// The state right after the opening tag of a label.
    pub fn new() -> (r: LabelParser)
        ensures
            r.deep_view() == label_opened(),
    {
        LabelParser {
            label: Label::default(),
            text: String::new(),
            in_sublabels: false,
            in_parent_label: false,
        }
    }

    fn open_tag(&mut self, element: Element, items: &Vec<AttributeItem>) -> (r: Result<
        (),
        ParseError,
    >)
        ensures
            match label_open(old(self).deep_view(), element, xml::attributes_view(items@)) {
                Ok(state) => r is Ok && final(self).deep_view() == state,
                Err(error) => r is Err && r->Err_0.deep_view() == error,
            },
    {
        proof {
            reveal(label_open);
        }
        self.text = String::new();
        match element {
            Element::SubLabels => {
                self.in_sublabels = true;
            },
            Element::ParentLabel => {
                self.in_parent_label = true;
                match artist_parser::read_id(items) {
                    Err(error) => {
                        return Err(error);
                    },
                    Ok(Some(id)) => {
                        self.label.parent_id = Some(id);
                    },
                    Ok(None) => {},
                }
            },
            _ => {},
        }
        Ok(())
    }

    fn close_tag(&mut self, element: Element)
        ensures
            final(self).deep_view() == label_close(old(self).deep_view(), element),
    {
        proof {
            reveal(label_close);
        }
        match element {
            Element::SubLabels => {
                self.in_sublabels = false;
            },
            Element::Id => {
                if !self.in_sublabels {
                    self.label.id = parser::parse_u64(text::trim(self.text.as_str()).as_str());
                }
            },
            Element::Name => {
                if !self.in_sublabels && !self.in_parent_label {
                    self.label.name = text::trim(self.text.as_str());
                }
            },
            Element::ParentLabel => {
                self.label.parent_name = text::trim(self.text.as_str());
                self.in_parent_label = false;
            },
            _ => {},
        }
        self.text = String::new();
    }

    fn add_text(&mut self, value: Result<String, ParseError>) -> (r: Result<
        Option<Label>,
        ParseError,
    >)
        ensures
            match label_text(old(self).deep_view(), error::result_view(value)) {
                Ok((state, item)) => {
                    &&& r == Ok::<Option<Label>, ParseError>(None)
                    &&& item is None
                    &&& final(self).deep_view() == state
                },
                Err(error) => r is Err && r->Err_0.deep_view() == error,
            },
    {
        match value {
            Err(error) => Err(error),
            Ok(more) => {
                self.text.append(more.as_str());
                Ok(None)
            },
        }
    }
}

impl RecordParser for LabelParser {
    type Item = Label;

    open spec fn opened(element: Element, items: Seq<xml::AttributeView>) -> Option<
        Result<LabelParserView, error::ErrorView>,
    > {
        if element == Element::Label {
            Some(Ok(label_opened()))
        } else {
            None
        }
    }

    open spec fn stepped(state: LabelParserView, event: xml::EventView) -> Result<
        (LabelParserView, Option<label_model::LabelView>),
        error::ErrorView,
    > {
        label_stepped(state, event)
    }

    proof fn end_of_input_fails(state: LabelParserView, event: xml::EventView) {
    }

    fn open(element: Element, items: &Vec<AttributeItem>) -> (r: Option<
        Result<LabelParser, ParseError>,
    >) {
        if element == Element::Label {
            Some(Ok(LabelParser::new()))
        } else {
            None
        }
    }

    fn step(&mut self, event: &XmlEvent) -> (r: Result<Option<Label>, ParseError>) {
        match &event.kind {
            EventKind::OpenTag(items) => match self.open_tag(
                xml::tag_element_of(event.content.as_slice()),
                items,
            ) {
                Err(error) => Err(error),
                Ok(()) => Ok(None),
            },
            EventKind::CloseTag => {
                let element = Element::from_name(event.content.as_slice());
                if element == Element::Label && !self.in_sublabels {
                    let mut label = Label::default();
                    std::mem::swap(&mut label, &mut self.label);
                    return Ok(Some(label));
                }
                self.close_tag(element);
                Ok(None)
            },
            EventKind::Characters => self.add_text(xml::unescape_text(event.content.as_slice())),
            EventKind::Reference => self.add_text(
                xml::resolve_general_ref(event.content.as_slice()),
            ),
            EventKind::Section => self.add_text(Ok(xml::decode_lossy(event.content.as_slice()))),
            EventKind::EndOfInput => Err(ParseError::UnexpectedEnd(Record::Label)),
            EventKind::EmptyTag(_) | EventKind::Other => Ok(None),
        }
    }
}

/// Appends the labels of a document to `labels`. Gives their number, or the error that
/// ended the reading; the labels before it are in `labels`.
pub fn parse_labels(document: &[u8], labels: &mut Vec<Label>) -> (r: Result<usize, ParseError>)
    ensures
        ({
            let all = record::records::<LabelParser>(None, xml::xml_events(document@));
            &&& final(labels).deep_view() == old(labels).deep_view() + all.0
            &&& match all.1 {
                None => r == Ok::<usize, ParseError>(all.0.len() as usize) && all.0.len()
                    <= usize::MAX,
                Some(error) => r is Err && r->Err_0.deep_view() == error,
            }
        }),
{
    let r = record::parse_records::<LabelParser>(document, labels);
    assert(labels.deep_view().len() == labels.len());
    assert(old(labels).deep_view().len() == old(labels).len());
    r
}

/// What stands inside `<sublabels>` does not touch the id and the name of the label, nor
/// does it end the label.
pub proof fn law_sublabels_leave_the_label(state: LabelParserView, event: xml::EventView)
    requires
        state.in_sublabels,
    ensures
        label_stepped(state, event) matches Ok((after, done)) ==> {
            &&& done is None
            &&& after.label.id == state.label.id
            &&& after.label.name == state.label.name
        },
{
    reveal(label_open);
    reveal(label_close);
}

} // verus!
