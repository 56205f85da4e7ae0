//! Reading `<artist>` elements.

use crate::element::Element;
use crate::error;
use crate::error::{ParseError, Record};
use crate::artist_model;
use crate::artist_model::{Artist, Member};
use crate::parser;
use crate::record;
use crate::record::RecordParser;
use crate::text;
use crate::xml;
use crate::xml::{AttributeItem, EventKind, XmlEvent};
use vstd::prelude::*;

verus! {

/// The state of reading one `<artist>` element.
///
/// `member_id` is the id in the last `<name>` tag inside `<aliases>` or `<members>`.
pub struct ArtistParser {
    pub artist: Artist,
    pub text: String,
    pub in_namevariations: bool,
    pub in_aliases: bool,
    pub in_members: bool,
    pub in_urls: bool,
    pub member_id: u64,
}

/// The model of an [`ArtistParser`].
pub struct ArtistParserView {
    pub artist: artist_model::ArtistView,
    pub text: Seq<char>,
    pub in_namevariations: bool,
    pub in_aliases: bool,
    pub in_members: bool,
    pub in_urls: bool,
    pub member_id: u64,
}

impl DeepView for ArtistParser {
    type V = ArtistParserView;

    open spec fn deep_view(&self) -> ArtistParserView {
        ArtistParserView {
            artist: self.artist.deep_view(),
            text: self.text@,
            in_namevariations: self.in_namevariations,
            in_aliases: self.in_aliases,
            in_members: self.in_members,
            in_urls: self.in_urls,
            member_id: self.member_id,
        }
    }
}

/// The state right after the opening tag of an artist.
pub open spec fn artist_opened() -> ArtistParserView {
    ArtistParserView {
        artist: artist_model::ArtistView::blank(),
        text: Seq::empty(),
        in_namevariations: false,
        in_aliases: false,
        in_members: false,
        in_urls: false,
        member_id: 0,
    }
}

/// The id in the attributes of a tag, if it has one.
pub open spec fn id_attribute(items: Seq<xml::AttributeView>) -> Result<
    Option<u64>,
    error::ErrorView,
> {
    match xml::attribute_values(items, seq!["id"@]) {
        Err(error) => Err(error),
        Ok(values) => Ok(
            match values[0] {
                Some(s) => Some(parser::number_u64(s)),
                None => None,
            },
        ),
    }
}

/// Reads the id in the attributes of a tag, if it has one.
pub fn read_id(items: &Vec<AttributeItem>) -> (r: Result<Option<u64>, ParseError>)
    ensures
        error::result_view(r) == id_attribute(xml::attributes_view(items@)),
{
    let keys = vec!["id"];
    assert(keys.deep_view() == seq!["id"@]);
    match xml::read_attributes(items, &keys) {
        Err(error) => Err(error),
        Ok(values) => Ok(
            match &values[0] {
                Some(s) => Some(parser::parse_u64(s.as_str())),
                None => None,
            },
        ),
    }
}

/// The state after an opening tag.
#[verifier::opaque]
pub open spec fn artist_open(
    state: ArtistParserView,
    element: Element,
    items: Seq<xml::AttributeView>,
) -> Result<ArtistParserView, error::ErrorView> {
    let s = ArtistParserView { text: Seq::empty(), ..state };
    match element {
        Element::NameVariations => Ok(ArtistParserView { in_namevariations: true, ..s }),
        Element::Aliases => Ok(ArtistParserView { in_aliases: true, ..s }),
        Element::Members => Ok(ArtistParserView { in_members: true, ..s }),
        Element::Urls => Ok(ArtistParserView { in_urls: true, ..s }),
        Element::Name => if s.in_aliases || s.in_members {
            match id_attribute(items) {
                Err(error) => Err(error),
                Ok(Some(member_id)) => Ok(ArtistParserView { member_id, ..s }),
                Ok(None) => Ok(s),
            }
        } else {
            Ok(s)
        },
        _ => Ok(s),
    }
}

/// The state after the tag that closes a name that is not empty: it goes to the list
/// that is open, or is the name of the artist.
#[verifier::opaque]
pub open spec fn artist_name(s: ArtistParserView, name: Seq<char>) -> ArtistParserView {
    if s.in_namevariations {
        ArtistParserView {
            artist: artist_model::ArtistView {
                name_variations: s.artist.name_variations.push(name),
                ..s.artist
            },
            ..s
        }
    } else if s.in_aliases {
        ArtistParserView {
            artist: artist_model::ArtistView { aliases: s.artist.aliases.push(name), ..s.artist },
            ..s
        }
    } else if s.in_members {
        let member = artist_model::MemberView { id: s.member_id, name };
        ArtistParserView {
            artist: artist_model::ArtistView { members: s.artist.members.push(member), ..s.artist },
            member_id: 0,
            ..s
        }
    } else {
        ArtistParserView { artist: artist_model::ArtistView { name, ..s.artist }, ..s }
    }
}

/// The state after a closing tag other than `</artist>`.
#[verifier::opaque]
pub open spec fn artist_close(s: ArtistParserView, element: Element) -> ArtistParserView {
    let value = text::trimmed(s.text);
    let outside = !s.in_namevariations && !s.in_aliases && !s.in_members;
    let closed = match element {
        Element::Id => if outside {
            ArtistParserView {
                artist: artist_model::ArtistView { id: parser::number_u64(value), ..s.artist },
                ..s
            }
        } else {
            s
        },
        Element::Profile => if outside {
            ArtistParserView {
                artist: artist_model::ArtistView { profile: value, ..s.artist },
                ..s
            }
        } else {
            s
        },
        Element::Url => if s.in_urls && value.len() > 0 {
            ArtistParserView {
                artist: artist_model::ArtistView { urls: s.artist.urls.push(value), ..s.artist },
                ..s
            }
        } else {
            s
        },
        Element::Name => if value.len() > 0 {
            artist_name(s, value)
        } else {
            s
        },
        Element::NameVariations => ArtistParserView { in_namevariations: false, ..s },
        Element::Aliases => ArtistParserView { in_aliases: false, ..s },
        Element::Members => ArtistParserView { in_members: false, ..s },
        Element::Urls => ArtistParserView { in_urls: false, ..s },
        _ => s,
    };
    ArtistParserView { text: Seq::empty(), ..closed }
}

/// The state after an event inside `<artist>`, with the artist at its closing tag.
pub open spec fn artist_stepped(s: ArtistParserView, event: xml::EventView) -> Result<
    (ArtistParserView, Option<artist_model::ArtistView>),
    error::ErrorView,
> {
    match event.kind {
        xml::EventKindView::OpenTag(items) => match artist_open(
            s,
            xml::tag_element(event.content),
            items,
        ) {
            Err(error) => Err(error),
            Ok(state) => Ok((state, None)),
        },
        xml::EventKindView::CloseTag => {
            let element = crate::element::element(event.content);
            if element == Element::Artist {
                Ok((s, Some(s.artist)))
            } else {
                Ok((artist_close(s, element), None))
            }
        },
        xml::EventKindView::Characters => artist_text(s, xml::text_value(event.content)),
        xml::EventKindView::Reference => artist_text(s, xml::reference_value(event.content)),
        xml::EventKindView::Section => artist_text(s, Ok(xml::utf8_lossy(event.content))),
        xml::EventKindView::EndOfInput => Err(error::ErrorView::UnexpectedEnd(Record::Artist)),
        xml::EventKindView::EmptyTag(_) | xml::EventKindView::Other => Ok((s, None)),
    }
}

/// The state after more text.
pub open spec fn artist_text(
    s: ArtistParserView,
    value: Result<Seq<char>, error::ErrorView>,
) -> Result<(ArtistParserView, Option<artist_model::ArtistView>), error::ErrorView> {
    match value {
        Err(error) => Err(error),
        Ok(more) => Ok((ArtistParserView { text: s.text + more, ..s }, None)),
    }
}

impl ArtistParser {
    /// The state right after the opening tag of an artist.
    pub fn new() -> (r: ArtistParser)
        ensures
            r.deep_view() == artist_opened(),
    {
        ArtistParser {
            artist: Artist::default(),
            text: String::new(),
            in_namevariations: false,
            in_aliases: false,
            in_members: false,
            in_urls: false,
            member_id: 0,
        }
    }

    fn open_tag(&mut self, element: Element, items: &Vec<AttributeItem>) -> (r: Result<
        (),
        ParseError,
    >)
        ensures
            match artist_open(old(self).deep_view(), element, xml::attributes_view(items@)) {
                Ok(state) => r is Ok && final(self).deep_view() == state,
                Err(error) => r is Err && r->Err_0.deep_view() == error,
            },
    {
        proof {
            reveal(artist_open);
        }
        self.text = String::new();
        match element {
            Element::NameVariations => {
                self.in_namevariations = true;
            },
            Element::Aliases => {
                self.in_aliases = true;
            },
            Element::Members => {
                self.in_members = true;
            },
            Element::Urls => {
                self.in_urls = true;
            },
            Element::Name => {
                if self.in_aliases || self.in_members {
                    match read_id(items) {
                        Err(error) => {
                            return Err(error);
                        },
                        Ok(Some(id)) => {
                            self.member_id = id;
                        },
                        Ok(None) => {},
                    }
                }
            },
            _ => {},
        }
        Ok(())
    }

    fn close_name(&mut self, name: String)
        ensures
            final(self).deep_view() == artist_name(old(self).deep_view(), name@),
    {
        proof {
            reveal(artist_name);
        }
        if self.in_namevariations {
            text::push_item(&mut self.artist.name_variations, name);
        } else if self.in_aliases {
            text::push_item(&mut self.artist.aliases, name);
        } else if self.in_members {
            text::push_item(&mut self.artist.members, Member { id: self.member_id, name });
            self.member_id = 0;
        } else {
            self.artist.name = name;
        }
    }

    fn close_tag(&mut self, element: Element)
        ensures
            final(self).deep_view() == artist_close(old(self).deep_view(), element),
    {
        proof {
            reveal(artist_close);
        }
        let outside = !self.in_namevariations && !self.in_aliases && !self.in_members;
        match element {
            Element::Id => {
                if outside {
                    self.artist.id = parser::parse_u64(text::trim(self.text.as_str()).as_str());
                }
            },
            Element::Profile => {
                if outside {
                    self.artist.profile = text::trim(self.text.as_str());
                }
            },
            Element::Url => {
                let url = text::trim(self.text.as_str());
                if self.in_urls && !url.as_str().is_empty() {
                    text::push_item(&mut self.artist.urls, url);
                }
            },
            Element::Name => {
                let name = text::trim(self.text.as_str());
                if !name.as_str().is_empty() {
                    self.close_name(name);
                }
            },
            Element::NameVariations => {
                self.in_namevariations = false;
            },
            Element::Aliases => {
                self.in_aliases = false;
            },
            Element::Members => {
                self.in_members = false;
            },
            Element::Urls => {
                self.in_urls = false;
            },
            _ => {},
        }
        self.text = String::new();
    }

    fn add_text(&mut self, value: Result<String, ParseError>) -> (r: Result<
        Option<Artist>,
        ParseError,
    >)
        ensures
            match artist_text(old(self).deep_view(), error::result_view(value)) {
                Ok((state, item)) => {
                    &&& r == Ok::<Option<Artist>, ParseError>(None)
                    &&& item is None
                    &&& final(self).deep_view() == state
                },
                Err(error) => r is Err && r->Err_0.deep_view() == error,
            },
    {
        match value {
            Err(error) => Err(error),
            Ok(more) => {
                self.text.append(more.as_str());
                Ok(None)
            },
        }
    }
}

impl RecordParser for ArtistParser {
    type Item = Artist;

    open spec fn opened(element: Element, items: Seq<xml::AttributeView>) -> Option<
        Result<ArtistParserView, error::ErrorView>,
    > {
        if element == Element::Artist {
            Some(Ok(artist_opened()))
        } else {
            None
        }
    }

    open spec fn stepped(state: ArtistParserView, event: xml::EventView) -> Result<
        (ArtistParserView, Option<artist_model::ArtistView>),
        error::ErrorView,
    > {
        artist_stepped(state, event)
    }

    proof fn end_of_input_fails(state: ArtistParserView, event: xml::EventView) {
    }

    fn open(element: Element, items: &Vec<AttributeItem>) -> (r: Option<
        Result<ArtistParser, ParseError>,
    >) {
        if element == Element::Artist {
            Some(Ok(ArtistParser::new()))
        } else {
            None
        }
    }

    fn step(&mut self, event: &XmlEvent) -> (r: Result<Option<Artist>, ParseError>) {
        match &event.kind {
            EventKind::OpenTag(items) => match self.open_tag(
                xml::tag_element_of(event.content.as_slice()),
                items,
            ) {
                Err(error) => Err(error),
                Ok(()) => Ok(None),
            },
            EventKind::CloseTag => {
                let element = Element::from_name(event.content.as_slice());
                if element == Element::Artist {
                    let mut artist = Artist::default();
                    std::mem::swap(&mut artist, &mut self.artist);
                    return Ok(Some(artist));
                }
                self.close_tag(element);
                Ok(None)
            },
            EventKind::Characters => self.add_text(xml::unescape_text(event.content.as_slice())),
            EventKind::Reference => self.add_text(
                xml::resolve_general_ref(event.content.as_slice()),
            ),
            EventKind::Section => self.add_text(Ok(xml::decode_lossy(event.content.as_slice()))),
            EventKind::EndOfInput => Err(ParseError::UnexpectedEnd(Record::Artist)),
            EventKind::EmptyTag(_) | EventKind::Other => Ok(None),
        }
    }
}

/// Appends the artists of a document to `artists`. Gives their number, or the error that
/// ended the reading; the artists before it are in `artists`.
pub fn parse_artists(document: &[u8], artists: &mut Vec<Artist>) -> (r: Result<usize, ParseError>)
    ensures
        ({
            let all = record::records::<ArtistParser>(None, xml::xml_events(document@));
            &&& final(artists).deep_view() == old(artists).deep_view() + all.0
            &&& match all.1 {
                None => r == Ok::<usize, ParseError>(all.0.len() as usize) && all.0.len()
                    <= usize::MAX,
                Some(error) => r is Err && r->Err_0.deep_view() == error,
            }
        }),
{
    let r = record::parse_records::<ArtistParser>(document, artists);
    assert(artists.deep_view().len() == artists.len());
    assert(old(artists).deep_view().len() == old(artists).len());
    r
}

/// Aliases and name variations are kept apart: inside the name variations only the name
/// variations grow, and inside the aliases only the aliases.
pub proof fn law_aliases_and_variations_are_apart(state: ArtistParserView, event: xml::EventView)
    ensures
        artist_stepped(state, event) matches Ok((after, _)) ==> {
            &&& after.artist.name_variations != state.artist.name_variations ==> {
                &&& state.in_namevariations
                &&& after.artist == (artist_model::ArtistView {
                    name_variations: state.artist.name_variations.push(text::trimmed(state.text)),
                    ..state.artist
                })
            }
            &&& after.artist.aliases != state.artist.aliases ==> {
                &&& state.in_aliases
                &&& !state.in_namevariations
                &&& after.artist == (artist_model::ArtistView {
                    aliases: state.artist.aliases.push(text::trimmed(state.text)),
                    ..state.artist
                })
            }
        },
{
    reveal(artist_open);
    reveal(artist_close);
    reveal(artist_name);
}

} // verus!
