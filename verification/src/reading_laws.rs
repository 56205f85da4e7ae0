//! When a record is read: whatever its events are, as long as each can be read by itself.

use crate::artist_parser;
use crate::artist_parser::{ArtistParser, ArtistParserView};
use crate::body_laws::release_run;
use crate::element::Element;
use crate::error::{ErrorView, Record};
use crate::label_parser;
use crate::label_parser::{LabelParser, LabelParserView};
use crate::master_parser;
use crate::master_parser::{MasterParser, MasterParserView};
use crate::parser;
use crate::parser::{ReleaseParser, ReleaseParserView};
use crate::record::RecordParser;
use crate::record_laws::{artist_run, label_run, master_run};
use crate::xml;
use crate::xml::{EventKindView, EventView};
use vstd::prelude::*;

verus! {

/// Whether attributes are well-formed and have texts for values.
pub open spec fn readable_attributes(items: Seq<xml::AttributeView>) -> bool {
    forall|i: int|
        0 <= i < items.len() ==> ((#[trigger] items[i]) matches Ok((_, raw))
            && xml::attribute_value(raw) is Ok)
}

/// Whether an event can be read by itself.
pub open spec fn readable(event: EventView) -> bool {
    match event.kind {
        EventKindView::OpenTag(items) => readable_attributes(items),
        EventKindView::EmptyTag(items) => readable_attributes(items),
        EventKindView::Characters => xml::text_value(event.content) is Ok,
        EventKindView::Reference => xml::reference_value(event.content) is Ok,
        EventKindView::EndOfInput => false,
        _ => true,
    }
}

/// Attributes are read where each can be read, whichever are asked for. The first that is
/// not well-formed ends the reading with its message, where all before it can be read.
pub proof fn law_attributes_are_read(
    items: Seq<xml::AttributeView>,
    keys: Seq<Seq<char>>,
    rest: Seq<xml::AttributeView>,
    message: Seq<char>,
)
    requires
        readable_attributes(items),
    ensures
        xml::attribute_values(items, keys) is Ok,
        xml::attribute_values(items.push(Err(message)) + rest, keys) == Err::<
            Seq<Option<Seq<char>>>,
            ErrorView,
        >(ErrorView::Attribute(message)),
    decreases items.len(), rest.len(),
{
    if rest.len() > 0 {
        law_attributes_are_read(items, keys, rest.drop_last(), message);
        let all = items.push(Err(message)) + rest;
        assert(all.drop_last() == items.push(Err(message)) + rest.drop_last());
    } else {
        if items.len() > 0 {
            let shorter = items.drop_last();
            assert forall|i: int| 0 <= i < shorter.len() implies ((
            #[trigger] shorter[i]) matches Ok((_, raw)) && xml::attribute_value(raw) is Ok) by {
                assert(shorter[i] == items[i]);
            }
            law_attributes_are_read(shorter, keys, rest, message);
            assert(items[items.len() - 1] == items.last());
        }
        assert(items.push(Err(message)) + rest == items.push(Err(message)));
        assert(items.push(Err(message)).drop_last() == items);
    }
}

/// An event that can be read by itself never ends the reading of a record, in whatever
/// state that is.
pub proof fn law_readable_events_are_read(
    release: ReleaseParserView,
    artist: ArtistParserView,
    label: LabelParserView,
    master: MasterParserView,
    event: EventView,
)
    requires
        readable(event),
    ensures
        parser::release_stepped(release, event) is Ok,
        artist_parser::artist_stepped(artist, event) is Ok,
        label_parser::label_stepped(label, event) is Ok,
        master_parser::master_stepped(master, event) is Ok,
{
    reveal(parser::release_open);
    reveal(parser::release_empty);
    reveal(parser::release_attachment);
    reveal(parser::label_attributes);
    reveal(parser::format_attributes);
    reveal(parser::image_attributes);
    reveal(parser::video_attributes);
    reveal(artist_parser::artist_open);
    reveal(label_parser::label_open);
    reveal(master_parser::master_open);
    let none = Seq::<xml::AttributeView>::empty();
    match event.kind {
        EventKindView::OpenTag(items) | EventKindView::EmptyTag(items) => {
            law_attributes_are_read(items, seq!["name"@, "catno"@], none, ""@);
            law_attributes_are_read(items, seq!["name"@, "qty"@], none, ""@);
            law_attributes_are_read(
                items,
                seq!["type"@, "width"@, "height"@, "uri"@],
                none,
                ""@,
            );
            law_attributes_are_read(items, seq!["src"@, "duration"@, "embed"@], none, ""@);
            law_attributes_are_read(items, seq!["id"@], none, ""@);
        },
        _ => {},
    }
}

/// A record whose events can all be read is read.
pub proof fn law_readable_bodies_are_read(
    release: ReleaseParserView,
    artist: ArtistParserView,
    label: LabelParserView,
    master: MasterParserView,
    events: Seq<EventView>,
)
    requires
        forall|i: int| 0 <= i < events.len() ==> readable(#[trigger] events[i]),
    ensures
        release_run(release, events) is Ok,
        artist_run(artist, events) is Ok,
        label_run(label, events) is Ok,
        master_run(master, events) is Ok,
    decreases events.len(),
{
    if events.len() > 0 {
        let shorter = events.drop_last();
        assert forall|i: int| 0 <= i < shorter.len() implies readable(#[trigger] shorter[i]) by {
            assert(shorter[i] == events[i]);
        }
        law_readable_bodies_are_read(release, artist, label, master, shorter);
        assert(events[events.len() - 1] == events.last());
        law_readable_events_are_read(
            release_run(release, shorter)->Ok_0,
            artist_run(artist, shorter)->Ok_0,
            label_run(label, shorter)->Ok_0,
            master_run(master, shorter)->Ok_0,
            events.last(),
        );
    }
}

/// A record that the document ends in, or that holds text that cannot be read, is not read,
/// and the error says which.
pub proof fn law_unreadable_texts(
    release: ReleaseParserView,
    artist: ArtistParserView,
    label: LabelParserView,
    master: MasterParserView,
    event: EventView,
)
    ensures
        event.kind is EndOfInput ==> {
            &&& parser::release_stepped(release, event) matches Err(e) && e
                == ErrorView::UnexpectedEnd(Record::Release)
            &&& artist_parser::artist_stepped(artist, event) matches Err(e) && e
                == ErrorView::UnexpectedEnd(Record::Artist)
            &&& label_parser::label_stepped(label, event) matches Err(e) && e
                == ErrorView::UnexpectedEnd(Record::Label)
            &&& master_parser::master_stepped(master, event) matches Err(e) && e
                == ErrorView::UnexpectedEnd(Record::Master)
        },
        event.kind is Characters ==> (xml::text_value(event.content) matches Err(error) ==> {
            &&& parser::release_stepped(release, event) matches Err(e) && e == error
            &&& artist_parser::artist_stepped(artist, event) matches Err(e) && e == error
            &&& label_parser::label_stepped(label, event) matches Err(e) && e == error
            &&& master_parser::master_stepped(master, event) matches Err(e) && e == error
        }),
        event.kind is Reference ==> (xml::reference_value(event.content) matches Err(error) ==> {
            &&& parser::release_stepped(release, event) matches Err(e) && e == error
            &&& artist_parser::artist_stepped(artist, event) matches Err(e) && e == error
            &&& label_parser::label_stepped(label, event) matches Err(e) && e == error
            &&& master_parser::master_stepped(master, event) matches Err(e) && e == error
        }),
{
}

/// A text and an attribute that are not UTF-8 cannot be read; the error gives what is wrong.
/// A text that is UTF-8 is decoded, and its references are resolved.
pub proof fn law_undecodable(raw: Seq<u8>)
    ensures
        !vstd::utf8::valid_utf8(raw) ==> {
            let fault = xml::utf8_fault(raw);
            let report = ErrorView::InvalidUtf8("cannot decode input using UTF-8: "@ + fault);
            &&& xml::text_value(raw) matches Err(e) && e == report
            &&& xml::reference_value(raw) matches Err(e) && e == report
            &&& xml::attribute_value(raw) matches Err(e) && e == ErrorView::InvalidUtf8(fault)
        },
        vstd::utf8::valid_utf8(raw) ==> {
            let s = vstd::utf8::decode_utf8(raw);
            &&& xml::unescaped(s) matches Ok(t) ==> xml::text_value(raw) == Ok::<
                Seq<char>,
                ErrorView,
            >(t) && xml::attribute_value(raw) == Ok::<Seq<char>, ErrorView>(t)
            &&& xml::unescaped(s) matches Err(m) ==> xml::text_value(raw) == Err::<
                Seq<char>,
                ErrorView,
            >(ErrorView::Escape(m)) && xml::attribute_value(raw) == Err::<Seq<char>, ErrorView>(
                ErrorView::Escape(m),
            )
            &&& xml::unescaped("&"@ + s + ";"@) matches Ok(t) ==> xml::reference_value(raw) == Ok::<
                Seq<char>,
                ErrorView,
            >(t)
        },
{
}

/// Every kind of record begins at the tag of its name and at no other, and attributes that
/// can be read never keep it from beginning.
pub proof fn law_records_begin(element: Element, items: Seq<xml::AttributeView>)
    ensures
        <ReleaseParser as RecordParser>::opened(element, items) is Some <==> element
            == Element::Release,
        <ArtistParser as RecordParser>::opened(element, items) is Some <==> element
            == Element::Artist,
        <LabelParser as RecordParser>::opened(element, items) is Some <==> element
            == Element::Label,
        <MasterParser as RecordParser>::opened(element, items) is Some <==> element
            == Element::Master,
        readable_attributes(items) && element == Element::Release ==> (<ReleaseParser as RecordParser>::opened(
            element,
            items,
        )->Some_0 is Ok),
        element == Element::Artist ==> (<ArtistParser as RecordParser>::opened(
            element,
            items,
        )->Some_0 is Ok),
        element == Element::Label ==> (<LabelParser as RecordParser>::opened(
            element,
            items,
        )->Some_0 is Ok),
        readable_attributes(items) && element == Element::Master ==> (<MasterParser as RecordParser>::opened(
            element,
            items,
        )->Some_0 is Ok),
{
    reveal(parser::release_attributes);
    if readable_attributes(items) {
        let none = Seq::<xml::AttributeView>::empty();
        law_attributes_are_read(items, seq!["id"@, "status"@], none, ""@);
        law_attributes_are_read(items, seq!["id"@], none, ""@);
    }
}

/// A release begins with what its tag says and nothing else, outside of all lists.
pub proof fn law_release_begins_empty(items: Seq<xml::AttributeView>)
    ensures
        <ReleaseParser as RecordParser>::opened(Element::Release, items) matches Some(Ok(state)) ==> {
            let r = state.release;
            let scope = state.scope;
            &&& parser::release_attributes(items) == Ok::<(u64, Seq<char>), ErrorView>(
                (r.id, r.status),
            )
            &&& state.text.len() == 0 && r.title.len() == 0 && r.country.len() == 0
            &&& r.released.len() == 0 && r.notes.len() == 0 && r.data_quality.len() == 0
            &&& r.master_id is None
            &&& r.formats.len() == 0 && r.artists.len() == 0 && r.extra_artists.len() == 0
            &&& r.labels.len() == 0 && r.tracks.len() == 0 && r.images.len() == 0
            &&& r.genres.len() == 0 && r.styles.len() == 0 && r.companies.len() == 0
            &&& r.videos.len() == 0 && state.outer_tracks.len() == 0
            &&& !scope.in_artists && !scope.in_extraartists && !scope.in_tracklist
            &&& !scope.in_track_artists && !scope.in_track_extraartists && !scope.in_genres
            &&& !scope.in_styles && !scope.in_companies && !scope.in_company && !scope.in_videos
            &&& !scope.in_video && scope.track_depth == 0
        },
{
}

/// Artists, labels and master releases begin empty, outside of all lists; a master release
/// has its id.
pub proof fn law_others_begin_empty(items: Seq<xml::AttributeView>)
    ensures
        <ArtistParser as RecordParser>::opened(Element::Artist, items) matches Some(Ok(state)) ==> {
            let a = state.artist;
            &&& a.id == 0 && a.name.len() == 0 && a.profile.len() == 0 && a.aliases.len() == 0
            &&& a.name_variations.len() == 0 && a.members.len() == 0 && a.urls.len() == 0
            &&& state.text.len() == 0 && !state.in_namevariations && !state.in_aliases
            &&& !state.in_members && !state.in_urls
        },
        <LabelParser as RecordParser>::opened(Element::Label, items) matches Some(Ok(state)) ==> {
            let l = state.label;
            &&& l.id == 0 && l.name.len() == 0 && l.parent_id is None && l.parent_name.len() == 0
            &&& state.text.len() == 0 && !state.in_sublabels && !state.in_parent_label
        },
        <MasterParser as RecordParser>::opened(Element::Master, items) matches Some(Ok(state)) ==> {
            let m = state.master;
            &&& m.title.len() == 0 && m.main_release_id is None && m.year is None
            &&& m.artists.len() == 0 && state.text.len() == 0 && !state.in_artists
            &&& !state.in_artist && !state.in_genres && !state.in_styles && !state.in_videos
        },
{
}

} // verus!
