//! Reading `<master>` elements.

use crate::element::Element;
use crate::error;
use crate::error::{ParseError, Record};
use crate::master_model;
use crate::master_model::{Master, MasterArtist};
use crate::artist_parser;
use crate::parser;
use crate::record;
use crate::record::RecordParser;
use crate::text;
use crate::xml;
use crate::xml::{AttributeItem, EventKind, XmlEvent};
use vstd::prelude::*;

verus! {

/// The state of reading one `<master>` element.
pub struct MasterParser {
    pub master: Master,
    pub text: String,
    pub in_artists: bool,
    pub in_artist: bool,
    pub in_genres: bool,
    pub in_styles: bool,
    pub in_videos: bool,
    pub artist: MasterArtist,
}

/// The model of a [`MasterParser`].
pub struct MasterParserView {
    pub master: master_model::MasterView,
    pub text: Seq<char>,
    pub in_artists: bool,
    pub in_artist: bool,
    pub in_genres: bool,
    pub in_styles: bool,
    pub in_videos: bool,
    pub artist: master_model::MasterArtistView,
}

impl DeepView for MasterParser {
    type V = MasterParserView;

    open spec fn deep_view(&self) -> MasterParserView {
        MasterParserView {
            master: self.master.deep_view(),
            text: self.text@,
            in_artists: self.in_artists,
            in_artist: self.in_artist,
            in_genres: self.in_genres,
            in_styles: self.in_styles,
            in_videos: self.in_videos,
            artist: self.artist.deep_view(),
        }
    }
}

/// The state right after the opening tag of a master release.
pub open spec fn master_opened(id: u64) -> MasterParserView {
    MasterParserView {
        master: master_model::MasterView { id, ..master_model::MasterView::blank() },
        text: Seq::empty(),
        in_artists: false,
        in_artist: false,
        in_genres: false,
        in_styles: false,
        in_videos: false,
        artist: master_model::MasterArtistView::blank(),
    }
}

/// The state after an opening tag.
#[verifier::opaque]
pub open spec fn master_open(
    state: MasterParserView,
    element: Element,
    items: Seq<xml::AttributeView>,
) -> Result<MasterParserView, error::ErrorView> {
    let s = MasterParserView { text: Seq::empty(), ..state };
    Ok(
        match element {
            Element::Artists => MasterParserView { in_artists: true, ..s },
            Element::Artist => if s.in_artists {
                MasterParserView {
                    in_artist: true,
                    artist: master_model::MasterArtistView::blank(),
                    ..s
                }
            } else {
                s
            },
            Element::Genres => MasterParserView { in_genres: true, ..s },
            Element::Styles => MasterParserView { in_styles: true, ..s },
            Element::Videos => MasterParserView { in_videos: true, ..s },
            _ => s,
        },
    )
}

/// A master release after the tag that closes one of its own text elements. A main
/// release or a year of zero, or one that is no number, changes nothing.
#[verifier::opaque]
pub open spec fn master_field(
    master: master_model::MasterView,
    element: Element,
    value: Seq<char>,
) -> master_model::MasterView {
    match element {
        Element::Title => master_model::MasterView { title: value, ..master },
        Element::MainRelease => {
            let n = parser::number_u64(value);
            if n > 0 {
                master_model::MasterView { main_release_id: Some(n), ..master }
            } else {
                master
            }
        },
        Element::Year => {
            let n = parser::number_or(value, u16::MAX as nat, 0);
            if n > 0 {
                master_model::MasterView { year: Some(n as u16), ..master }
            } else {
                master
            }
        },
        _ => master,
    }
}

fn set_master_field(master: &mut Master, element: Element, value: &String)
    ensures
        final(master).deep_view() == master_field(
            old(master).deep_view(),
            element,
            text::trimmed(value@),
        ),
{
    proof {
        reveal(master_field);
    }
    let value = text::trim(value.as_str());
    match element {
        Element::Title => {
            master.title = value;
        },
        Element::MainRelease => {
            let n: u64 = parser::parse_u64(value.as_str());
            if n > 0 {
                master.main_release_id = Some(n);
            }
        },
        Element::Year => {
            if let Some(n) = text::parse_unsigned(value.as_str(), u16::MAX as u64) {
                if n > 0 {
                    master.year = Some(n as u16);
                }
            }
        },
        _ => {},
    }
}

/// The state after a closing tag other than `</master>`.
#[verifier::opaque]
pub open spec fn master_close(s: MasterParserView, element: Element) -> MasterParserView {
    let value = text::trimmed(s.text);
    let nested = s.in_genres || s.in_styles || s.in_videos;
    let closed = match element {
        Element::Artists => MasterParserView { in_artists: false, ..s },
        Element::Artist => if s.in_artists {
            MasterParserView {
                master: master_model::MasterView {
                    artists: s.master.artists.push(s.artist),
                    ..s.master
                },
                in_artist: false,
                ..s
            }
        } else {
            s
        },
        Element::Genres => MasterParserView { in_genres: false, ..s },
        Element::Styles => MasterParserView { in_styles: false, ..s },
        Element::Videos => MasterParserView { in_videos: false, ..s },
        Element::Id => if s.in_artist {
            MasterParserView {
                artist: master_model::MasterArtistView {
                    id: parser::number_u64(value),
                    ..s.artist
                },
                ..s
            }
        } else {
            s
        },
        Element::Name => if s.in_artist {
            MasterParserView {
                artist: master_model::MasterArtistView { name: value, ..s.artist },
                ..s
            }
        } else {
            s
        },
        Element::MainRelease => MasterParserView {
            master: master_field(s.master, element, value),
            ..s
        },
        Element::Title | Element::Year => if nested {
            s
        } else {
            MasterParserView { master: master_field(s.master, element, value), ..s }
        },
        _ => s,
    };
    MasterParserView { text: Seq::empty(), ..closed }
}

/// The state after an event inside `<master>`, with the master at its closing tag.
pub open spec fn master_stepped(s: MasterParserView, event: xml::EventView) -> Result<
    (MasterParserView, Option<master_model::MasterView>),
    error::ErrorView,
> {
    match event.kind {
        xml::EventKindView::OpenTag(items) => match master_open(
            s,
            xml::tag_element(event.content),
            items,
        ) {
            Err(error) => Err(error),
            Ok(state) => Ok((state, None)),
        },
        xml::EventKindView::CloseTag => {
            let element = crate::element::element(event.content);
            if element == Element::Master {
                Ok((s, Some(s.master)))
            } else {
                Ok((master_close(s, element), None))
            }
        },
        xml::EventKindView::Characters => master_text(s, xml::text_value(event.content)),
        xml::EventKindView::Reference => master_text(s, xml::reference_value(event.content)),
        xml::EventKindView::Section => master_text(s, Ok(xml::utf8_lossy(event.content))),
        xml::EventKindView::EndOfInput => Err(error::ErrorView::UnexpectedEnd(Record::Master)),
        xml::EventKindView::EmptyTag(_) | xml::EventKindView::Other => Ok((s, None)),
    }
}

/// The state after more text.
pub open spec fn master_text(
    s: MasterParserView,
    value: Result<Seq<char>, error::ErrorView>,
) -> Result<(MasterParserView, Option<master_model::MasterView>), error::ErrorView> {
    match value {
        Err(error) => Err(error),
        Ok(more) => Ok((MasterParserView { text: s.text + more, ..s }, None)),
    }
}

impl MasterParser {
    /// The state right after the opening tag of a master release.
    pub fn new(id: u64) -> (r: MasterParser)
        ensures
            r.deep_view() == master_opened(id),
    {
        let mut master = Master::default();
        master.id = id;
        MasterParser {
            master,
            text: String::new(),
            in_artists: false,
            in_artist: false,
            in_genres: false,
            in_styles: false,
            in_videos: false,
            artist: MasterArtist::default(),
        }
    }

    fn open_tag(&mut self, element: Element, items: &Vec<AttributeItem>) -> (r: Result<
        (),
        ParseError,
    >)
        ensures
            match master_open(old(self).deep_view(), element, xml::attributes_view(items@)) {
                Ok(state) => r is Ok && final(self).deep_view() == state,
                Err(error) => r is Err && r->Err_0.deep_view() == error,
            },
    {
        proof {
            reveal(master_open);
        }
        self.text = String::new();
        match element {
            Element::Artists => {
                self.in_artists = true;
            },
            Element::Artist => {
                if self.in_artists {
                    self.in_artist = true;
                    self.artist = MasterArtist::default();
                }
            },
            Element::Genres => {
                self.in_genres = true;
            },
            Element::Styles => {
                self.in_styles = true;
            },
            Element::Videos => {
                self.in_videos = true;
            },
            _ => {},
        }
        Ok(())
    }

    fn close_tag(&mut self, element: Element)
        ensures
            final(self).deep_view() == master_close(old(self).deep_view(), element),
    {
        proof {
            reveal(master_close);
        }
        let nested = self.in_genres || self.in_styles || self.in_videos;
        match element {
            Element::Artists => {
                self.in_artists = false;
            },
            Element::Artist => {
                if self.in_artists {
                    let credit = MasterArtist {
                        id: self.artist.id,
                        name: self.artist.name.clone(),
                    };
                    text::push_item(&mut self.master.artists, credit);
                    self.in_artist = false;
                }
            },
            Element::Genres => {
                self.in_genres = false;
            },
            Element::Styles => {
                self.in_styles = false;
            },
            Element::Videos => {
                self.in_videos = false;
            },
            Element::Id => {
                if self.in_artist {
                    self.artist.id = parser::parse_u64(text::trim(self.text.as_str()).as_str());
                }
            },
            Element::Name => {
                if self.in_artist {
                    self.artist.name = text::trim(self.text.as_str());
                }
            },
            Element::MainRelease => {
                set_master_field(&mut self.master, element, &self.text);
            },
            Element::Title | Element::Year => {
                if !nested {
                    set_master_field(&mut self.master, element, &self.text);
                }
            },
            _ => {},
        }
        self.text = String::new();
    }

    fn add_text(&mut self, value: Result<String, ParseError>) -> (r: Result<
        Option<Master>,
        ParseError,
    >)
        ensures
            match master_text(old(self).deep_view(), error::result_view(value)) {
                Ok((state, item)) => {
                    &&& r == Ok::<Option<Master>, ParseError>(None)
                    &&& item is None
                    &&& final(self).deep_view() == state
                },
                Err(error) => r is Err && r->Err_0.deep_view() == error,
            },
    {
        match value {
            Err(error) => Err(error),
            Ok(more) => {
                self.text.append(more.as_str());
                Ok(None)
            },
        }
    }
}

impl RecordParser for MasterParser {
    type Item = Master;

    open spec fn opened(element: Element, items: Seq<xml::AttributeView>) -> Option<
        Result<MasterParserView, error::ErrorView>,
    > {
        if element == Element::Master {
            Some(
                match artist_parser::id_attribute(items) {
                    Err(error) => Err(error),
                    Ok(Some(id)) => Ok(master_opened(id)),
                    Ok(None) => Ok(master_opened(0)),
                },
            )
        } else {
            None
        }
    }

    open spec fn stepped(state: MasterParserView, event: xml::EventView) -> Result<
        (MasterParserView, Option<master_model::MasterView>),
        error::ErrorView,
    > {
        master_stepped(state, event)
    }

    proof fn end_of_input_fails(state: MasterParserView, event: xml::EventView) {
    }

    fn open(element: Element, items: &Vec<AttributeItem>) -> (r: Option<
        Result<MasterParser, ParseError>,
    >) {
        if element == Element::Master {
            Some(
                match artist_parser::read_id(items) {
                    Err(error) => Err(error),
                    Ok(Some(id)) => Ok(MasterParser::new(id)),
                    Ok(None) => Ok(MasterParser::new(0)),
                },
            )
        } else {
            None
        }
    }

    fn step(&mut self, event: &XmlEvent) -> (r: Result<Option<Master>, ParseError>) {
        match &event.kind {
            EventKind::OpenTag(items) => match self.open_tag(
                xml::tag_element_of(event.content.as_slice()),
                items,
            ) {
                Err(error) => Err(error),
                Ok(()) => Ok(None),
            },
            EventKind::CloseTag => {
                let element = Element::from_name(event.content.as_slice());
                if element == Element::Master {
                    let mut master = Master::default();
                    std::mem::swap(&mut master, &mut self.master);
                    return Ok(Some(master));
                }
                self.close_tag(element);
                Ok(None)
            },
            EventKind::Characters => self.add_text(xml::unescape_text(event.content.as_slice())),
            EventKind::Reference => self.add_text(
                xml::resolve_general_ref(event.content.as_slice()),
            ),
            EventKind::Section => self.add_text(Ok(xml::decode_lossy(event.content.as_slice()))),
            EventKind::EndOfInput => Err(ParseError::UnexpectedEnd(Record::Master)),
            EventKind::EmptyTag(_) | EventKind::Other => Ok(None),
        }
    }
}

/// Appends the masters of a document to `masters`. Gives their number, or the error that
/// ended the reading; the masters before it are in `masters`.
pub fn parse_masters(document: &[u8], masters: &mut Vec<Master>) -> (r: Result<usize, ParseError>)
    ensures
        ({
            let all = record::records::<MasterParser>(None, xml::xml_events(document@));
            &&& final(masters).deep_view() == old(masters).deep_view() + all.0
            &&& match all.1 {
                None => r == Ok::<usize, ParseError>(all.0.len() as usize) && all.0.len()
                    <= usize::MAX,
                Some(error) => r is Err && r->Err_0.deep_view() == error,
            }
        }),
{
    let r = record::parse_records::<MasterParser>(document, masters);
    assert(masters.deep_view().len() == masters.len());
    assert(old(masters).deep_view().len() == old(masters).len());
    r
}

/// A title or a year inside the genres, the styles or the videos of a master release does
/// not touch its own.
pub proof fn law_nested_titles_leave_the_master(state: MasterParserView, event: xml::EventView)
    requires
        state.in_genres || state.in_styles || state.in_videos,
    ensures
        master_stepped(state, event) matches Ok((after, _)) ==> {
            &&& after.master.id == state.master.id
            &&& after.master.title == state.master.title
            &&& after.master.year == state.master.year
        },
{
    reveal(master_open);
    reveal(master_close);
    reveal(master_field);
}

} // verus!
