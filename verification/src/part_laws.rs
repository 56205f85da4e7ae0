//! Where the tracks, companies, videos, genres, styles, labels, formats and images of a
//! release come from, and its own fields.

use crate::body_laws::{closes, release_run};
use crate::element::Element;
use crate::field_laws;
use crate::field_laws::{begins, last_text, number_of, text_of};
use crate::model;
use crate::parser;
use crate::parser::ReleaseParserView;
use crate::text;
use crate::xml;
use crate::xml::EventView;
use vstd::prelude::*;

verus! {

// Tracks.

/// The elements that begin or end a track or a video.
pub open spec fn track_bounds() -> Seq<Element> {
    seq![Element::Track, Element::Video]
}

proof fn lemma_track_scope(scope: parser::Scope, element: Element)
    requires
        element != Element::Track,
        element != Element::Video,
    ensures
        parser::scope_open(scope, element).track_depth == scope.track_depth,
        parser::scope_open(scope, element).in_video == scope.in_video,
        parser::scope_close(scope, element).track_depth == scope.track_depth,
        parser::scope_close(scope, element).in_video == scope.in_video,
{
    reveal(parser::scope_open);
    reveal(parser::scope_close);
}

proof fn lemma_track_close(state: ReleaseParserView, element: Element)
    requires
        state.scope.track_depth > 0,
        !state.scope.in_video,
        element != Element::Track,
        element != Element::Video,
    ensures
        ({
            let after = parser::release_close(state, element);
            &&& after.track.title == (if element == Element::Title {
                state.text
            } else {
                state.track.title
            })
            &&& after.track.position == (if element == Element::Position {
                state.text
            } else {
                state.track.position
            })
            &&& after.track.duration == (if element == Element::Duration {
                state.text
            } else {
                state.track.duration
            })
            &&& after.release.tracks == state.release.tracks
        }),
{
    lemma_track_scope(state.scope, element);
    reveal(parser::release_close);
    reveal(parser::release_field);
    reveal(parser::credit_close);
    reveal(parser::title_close);
    reveal(parser::track_field);
    reveal(parser::part_close);
    reveal(parser::list_close);
}

proof fn lemma_track_other(
    state: ReleaseParserView,
    element: Element,
    items: Seq<xml::AttributeView>,
)
    ensures
        element != Element::Track ==> (parser::release_open(state, element, items) matches Ok(after)
            ==> after.track == state.track && after.release.tracks == state.release.tracks),
        parser::release_empty(state, element, items) matches Ok(after) ==> after.track
            == state.track && after.scope == state.scope && after.release.tracks
            == state.release.tracks,
{
    reveal(parser::release_open);
    reveal(parser::release_empty);
    reveal(parser::release_attachment);
}

proof fn lemma_track_inside(state: ReleaseParserView, events: Seq<EventView>)
    requires
        state.scope.track_depth < u32::MAX,
        !state.scope.in_video,
        begins(events, Element::Track, track_bounds()),
    ensures
        release_run(state, events) matches Ok(after) ==> {
            &&& after.scope.track_depth == state.scope.track_depth + 1
            &&& !after.scope.in_video
            &&& after.track.title == text_of(events, Element::Title)
            &&& after.track.position == text_of(events, Element::Position)
            &&& after.track.duration == text_of(events, Element::Duration)
            &&& after.release.tracks == state.release.tracks
        },
    decreases events.len(),
{
    let shorter = events.drop_last();
    if events.len() == 1 {
        field_laws::lemma_one(state, events);
        reveal(parser::scope_open);
        reveal(parser::release_open);
        assert(shorter == Seq::<EventView>::empty());
        field_laws::lemma_first_has_no_text(events);
    } else {
        field_laws::lemma_begins(events, Element::Track, track_bounds());
        lemma_track_inside(state, shorter);
        field_laws::lemma_text(state, shorter);
        if let Ok(before) = release_run(state, shorter) {
            let event = events.last();
            crate::body_laws::lemma_step_scope(before, event);
            assert(track_bounds()[0] == Element::Track && track_bounds()[1] == Element::Video);
            match event.kind {
                xml::EventKindView::OpenTag(items) => {
                    lemma_track_scope(before.scope, xml::tag_element(event.content));
                    lemma_track_other(before, xml::tag_element(event.content), items);
                },
                xml::EventKindView::EmptyTag(items) => {
                    lemma_track_other(before, xml::tag_element(event.content), items);
                },
                xml::EventKindView::CloseTag => {
                    lemma_track_scope(before.scope, crate::element::element(event.content));
                    lemma_track_close(before, crate::element::element(event.content));
                },
                _ => {},
            }
        }
    }
}

/// Every `<track>` gives a track at its closing tag: its title, position and duration are
/// the texts of the last `<title>`, `<position>` and `<duration>` inside it.
pub proof fn law_track_values(state: ReleaseParserView, events: Seq<EventView>, close: EventView)
    requires
        state.scope.track_depth < u32::MAX,
        !state.scope.in_video,
        begins(events, Element::Track, track_bounds()),
        closes(close, Element::Track),
    ensures
        release_run(state, events.push(close)) matches Ok(after) ==> {
            let tracks = after.release.tracks;
            &&& tracks.len() > 0
            &&& tracks.drop_last() == state.release.tracks
            &&& tracks.last().title == text_of(events, Element::Title)
            &&& tracks.last().position == text_of(events, Element::Position)
            &&& tracks.last().duration == text_of(events, Element::Duration)
        },
{
    assert(events.push(close).drop_last() == events);
    lemma_track_inside(state, events);
    if let Ok(before) = release_run(state, events) {
        reveal(parser::release_close);
        reveal(parser::track_close);
        assert(before.release.tracks.push(before.track).drop_last() == before.release.tracks);
    }
}

// Companies.

/// The elements that begin or end a company or the list of companies.
pub open spec fn company_bounds() -> Seq<Element> {
    seq![Element::Company, Element::Companies]
}

proof fn lemma_company_scope(scope: parser::Scope, element: Element)
    requires
        element != Element::Company,
        element != Element::Companies,
    ensures
        parser::scope_open(scope, element).in_companies == scope.in_companies,
        parser::scope_open(scope, element).in_company == scope.in_company,
        parser::scope_close(scope, element).in_companies == scope.in_companies,
        parser::scope_close(scope, element).in_company == scope.in_company,
{
    reveal(parser::scope_open);
    reveal(parser::scope_close);
}

proof fn lemma_company_close(state: ReleaseParserView, element: Element)
    requires
        state.scope.in_companies,
        state.scope.in_company,
        element != Element::Company,
        element != Element::Companies,
    ensures
        ({
            let after = parser::release_close(state, element);
            &&& after.company.company_id == (if element == Element::Id {
                parser::number_u64(text::trimmed(state.text))
            } else {
                state.company.company_id
            })
            &&& after.company.name == (if element == Element::Name {
                state.text
            } else {
                state.company.name
            })
            &&& after.company.entity_type == (if element == Element::EntityType {
                parser::number_u32(text::trimmed(state.text), 0)
            } else {
                state.company.entity_type
            })
            &&& after.company.entity_type_name == (if element == Element::EntityTypeName {
                state.text
            } else {
                state.company.entity_type_name
            })
            &&& after.release.companies == state.release.companies
        }),
{
    lemma_company_scope(state.scope, element);
    reveal(parser::release_close);
    reveal(parser::release_field);
    reveal(parser::company_field);
    reveal(parser::credit_close);
    reveal(parser::track_close);
    reveal(parser::title_close);
    reveal(parser::part_close);
    reveal(parser::list_close);
}

proof fn lemma_company_other(
    state: ReleaseParserView,
    element: Element,
    items: Seq<xml::AttributeView>,
)
    ensures
        element != Element::Company ==> (parser::release_open(state, element, items) matches Ok(
            after,
        ) ==> after.company == state.company && after.release.companies
            == state.release.companies),
        parser::release_empty(state, element, items) matches Ok(after) ==> after.company
            == state.company && after.scope == state.scope && after.release.companies
            == state.release.companies,
{
    reveal(parser::release_open);
    reveal(parser::release_empty);
    reveal(parser::release_attachment);
}

/// The number in the last element of a name, with white space around it, that fits in 32
/// bits; zero where there is none.
pub open spec fn small_number_of(events: Seq<EventView>, element: Element) -> u32 {
    match last_text(events, element) {
        Some(text) => parser::number_u32(text::trimmed(text), 0),
        None => 0,
    }
}

proof fn lemma_company_inside(state: ReleaseParserView, events: Seq<EventView>)
    requires
        state.scope.in_companies,
        begins(events, Element::Company, company_bounds()),
    ensures
        release_run(state, events) matches Ok(after) ==> {
            &&& after.scope.in_companies
            &&& after.scope.in_company
            &&& after.company.company_id == number_of(events, Element::Id)
            &&& after.company.name == text_of(events, Element::Name)
            &&& after.company.entity_type == small_number_of(events, Element::EntityType)
            &&& after.company.entity_type_name == text_of(events, Element::EntityTypeName)
            &&& after.release.companies == state.release.companies
        },
    decreases events.len(),
{
    let shorter = events.drop_last();
    if events.len() == 1 {
        field_laws::lemma_one(state, events);
        reveal(parser::scope_open);
        reveal(parser::release_open);
        assert(shorter == Seq::<EventView>::empty());
        field_laws::lemma_first_has_no_text(events);
    } else {
        field_laws::lemma_begins(events, Element::Company, company_bounds());
        lemma_company_inside(state, shorter);
        field_laws::lemma_text(state, shorter);
        if let Ok(before) = release_run(state, shorter) {
            let event = events.last();
            crate::body_laws::lemma_step_scope(before, event);
            assert(company_bounds()[0] == Element::Company && company_bounds()[1]
                == Element::Companies);
            match event.kind {
                xml::EventKindView::OpenTag(items) => {
                    lemma_company_scope(before.scope, xml::tag_element(event.content));
                    lemma_company_other(before, xml::tag_element(event.content), items);
                },
                xml::EventKindView::EmptyTag(items) => {
                    lemma_company_other(before, xml::tag_element(event.content), items);
                },
                xml::EventKindView::CloseTag => {
                    lemma_company_scope(before.scope, crate::element::element(event.content));
                    lemma_company_close(before, crate::element::element(event.content));
                },
                _ => {},
            }
        }
    }
}

/// Every `<company>` in the list of companies gives a company at its closing tag, with the
/// numbers and texts of the last elements of each name inside it.
pub proof fn law_company_values(
    state: ReleaseParserView,
    events: Seq<EventView>,
    close: EventView,
)
    requires
        state.scope.in_companies,
        begins(events, Element::Company, company_bounds()),
        closes(close, Element::Company),
    ensures
        release_run(state, events.push(close)) matches Ok(after) ==> {
            let companies = after.release.companies;
            &&& companies.len() > 0
            &&& companies.drop_last() == state.release.companies
            &&& companies.last().company_id == number_of(events, Element::Id)
            &&& companies.last().name == text_of(events, Element::Name)
            &&& companies.last().entity_type == small_number_of(events, Element::EntityType)
            &&& companies.last().entity_type_name == text_of(events, Element::EntityTypeName)
        },
{
    assert(events.push(close).drop_last() == events);
    lemma_company_inside(state, events);
    if let Ok(before) = release_run(state, events) {
        reveal(parser::scope_close);
        reveal(parser::release_close);
        reveal(parser::list_close);
        assert(before.release.companies.push(before.company).drop_last()
            == before.release.companies);
    }
}

// Videos.

/// The elements that begin or end a video or the list of videos.
pub open spec fn video_bounds() -> Seq<Element> {
    seq![Element::Video, Element::Videos]
}

proof fn lemma_video_scope(scope: parser::Scope, element: Element)
    requires
        element != Element::Video,
        element != Element::Videos,
    ensures
        parser::scope_open(scope, element).in_videos == scope.in_videos,
        parser::scope_open(scope, element).in_video == scope.in_video,
        parser::scope_close(scope, element).in_videos == scope.in_videos,
        parser::scope_close(scope, element).in_video == scope.in_video,
{
    reveal(parser::scope_open);
    reveal(parser::scope_close);
}

proof fn lemma_video_close(state: ReleaseParserView, element: Element)
    requires
        state.scope.in_video,
        element != Element::Video,
        element != Element::Videos,
    ensures
        ({
            let after = parser::release_close(state, element);
            &&& after.video == (if element == Element::Title {
                model::ReleaseVideoView { title: state.text, ..state.video }
            } else {
                state.video
            })
            &&& after.release.videos == state.release.videos
        }),
{
    lemma_video_scope(state.scope, element);
    reveal(parser::release_close);
    reveal(parser::release_field);
    reveal(parser::credit_close);
    reveal(parser::track_close);
    reveal(parser::title_close);
    reveal(parser::part_close);
    reveal(parser::list_close);
}

proof fn lemma_video_other(
    state: ReleaseParserView,
    element: Element,
    items: Seq<xml::AttributeView>,
)
    ensures
        element != Element::Video ==> (parser::release_open(state, element, items) matches Ok(after)
            ==> after.video == state.video && after.release.videos == state.release.videos),
        parser::release_empty(state, element, items) matches Ok(after) ==> after.video
            == state.video && after.scope == state.scope && (element != Element::Video
            ==> after.release.videos == state.release.videos),
{
    reveal(parser::release_open);
    reveal(parser::release_empty);
    reveal(parser::release_attachment);
}

/// Whether no event is a tag that opens and closes an element of the given name.
pub open spec fn no_empty_tag(events: Seq<EventView>, element: Element) -> bool {
    forall|i: int|
        0 <= i < events.len() ==> !((#[trigger] events[i]).kind is EmptyTag && xml::tag_element(
            events[i].content,
        ) == element)
}

proof fn lemma_video_inside(state: ReleaseParserView, events: Seq<EventView>)
    requires
        state.scope.in_videos,
        begins(events, Element::Video, video_bounds()),
        no_empty_tag(events, Element::Video),
    ensures
        release_run(state, events) matches Ok(after) ==> {
            &&& after.scope.in_videos
            &&& after.scope.in_video
            &&& parser::video_attributes(events[0].kind->OpenTag_0) matches Ok(video)
                && after.video == (model::ReleaseVideoView {
                title: text_of(events, Element::Title),
                ..video
            })
            &&& after.release.videos == state.release.videos
        },
    decreases events.len(),
{
    let shorter = events.drop_last();
    if events.len() == 1 {
        field_laws::lemma_one(state, events);
        reveal(parser::scope_open);
        reveal(parser::release_open);
        reveal(parser::video_attributes);
        assert(shorter == Seq::<EventView>::empty());
        field_laws::lemma_first_has_no_text(events);
    } else {
        field_laws::lemma_begins(events, Element::Video, video_bounds());
        assert forall|i: int| 0 <= i < shorter.len() implies !((
        #[trigger] shorter[i]).kind is EmptyTag && xml::tag_element(shorter[i].content)
            == Element::Video) by {
            assert(shorter[i] == events[i]);
        }
        assert(events[events.len() - 1] == events.last());
        assert(shorter[0] == events[0]);
        lemma_video_inside(state, shorter);
        field_laws::lemma_text(state, shorter);
        if let Ok(before) = release_run(state, shorter) {
            let event = events.last();
            crate::body_laws::lemma_step_scope(before, event);
            assert(video_bounds()[0] == Element::Video && video_bounds()[1] == Element::Videos);
            match event.kind {
                xml::EventKindView::OpenTag(items) => {
                    lemma_video_scope(before.scope, xml::tag_element(event.content));
                    lemma_video_other(before, xml::tag_element(event.content), items);
                },
                xml::EventKindView::EmptyTag(items) => {
                    lemma_video_other(before, xml::tag_element(event.content), items);
                },
                xml::EventKindView::CloseTag => {
                    lemma_video_scope(before.scope, crate::element::element(event.content));
                    lemma_video_close(before, crate::element::element(event.content));
                },
                _ => {},
            }
        }
    }
}

/// The value of the last attribute of a name, read from left to right.
pub open spec fn attribute_text(items: Seq<xml::AttributeView>, name: Seq<char>) -> Option<
    Seq<char>,
>
    decreases items.len(),
{
    if items.len() == 0 {
        None
    } else {
        match items.last() {
            Ok((key, raw)) if key == vstd::utf8::encode_utf8(name) => Some(
                xml::attribute_value(raw)->Ok_0,
            ),
            _ => attribute_text(items.drop_last(), name),
        }
    }
}

/// The value of an attribute; empty where there is none.
pub open spec fn attribute_or_empty(items: Seq<xml::AttributeView>, name: Seq<char>) -> Seq<char> {
    match attribute_text(items, name) {
        Some(value) => value,
        None => Seq::empty(),
    }
}

/// Whether no name stands twice among keys, as a text or as bytes.
pub open spec fn distinct_keys(keys: Seq<Seq<char>>) -> bool {
    forall|i: int, j: int|
        0 <= i < j < keys.len() ==> vstd::utf8::encode_utf8(#[trigger] keys[i])
            != vstd::utf8::encode_utf8(#[trigger] keys[j])
}

proof fn lemma_key_index(keys: Seq<Seq<char>>, name: Seq<u8>)
    ensures
        ({
            let k = xml::key_index(keys, name) as int;
            &&& k <= keys.len()
            &&& k < keys.len() ==> name == vstd::utf8::encode_utf8(keys[k])
            &&& forall|j: int|
                0 <= j < k ==> name != vstd::utf8::encode_utf8(#[trigger] keys[j])
        }),
    decreases keys.len(),
{
    if keys.len() > 0 && name != vstd::utf8::encode_utf8(keys[0]) {
        let rest = keys.skip(1);
        lemma_key_index(rest, name);
        let k = xml::key_index(keys, name) as int;
        assert(k == 1 + xml::key_index(rest, name));
        if k < keys.len() {
            assert(rest[k - 1] == keys[k]);
        }
        assert forall|j: int| 0 <= j < k implies name != vstd::utf8::encode_utf8(
            #[trigger] keys[j],
        ) by {
            if j > 0 {
                assert(rest[j - 1] == keys[j]);
            }
        }
    }
}

/// The attributes that are asked for come by their names: each has the value of the last
/// attribute of its name, or none.
pub proof fn law_attributes_by_name(items: Seq<xml::AttributeView>, keys: Seq<Seq<char>>)
    requires
        distinct_keys(keys),
    ensures
        xml::attribute_values(items, keys) matches Ok(values) ==> {
            &&& values.len() == keys.len()
            &&& forall|k: int|
                0 <= k < keys.len() ==> #[trigger] values[k] == attribute_text(items, keys[k])
        },
    decreases items.len(),
{
    if items.len() > 0 {
        law_attributes_by_name(items.drop_last(), keys);
        if let Ok((name, _)) = items.last() {
            lemma_key_index(keys, name);
            let place = xml::key_index(keys, name) as int;
            if let Ok(values) = xml::attribute_values(items, keys) {
                assert forall|k: int| 0 <= k < keys.len() implies #[trigger] values[k]
                    == attribute_text(items, keys[k]) by {
                    if k < place {
                        assert(name != vstd::utf8::encode_utf8(keys[k]));
                    } else if k > place {
                        assert(vstd::utf8::encode_utf8(keys[place]) != vstd::utf8::encode_utf8(
                            keys[k],
                        ));
                    }
                }
            }
        }
    }
}

proof fn lemma_different(a: Seq<char>, b: Seq<char>)
    requires
        a != b,
    ensures
        vstd::utf8::encode_utf8(a) != vstd::utf8::encode_utf8(b),
{
    vstd::utf8::encode_utf8_decode_utf8(a);
    vstd::utf8::encode_utf8_decode_utf8(b);
}

/// A label has its name and its catalogue number from the attributes of its tag.
pub proof fn law_label_attributes(items: Seq<xml::AttributeView>)
    ensures
        parser::label_attributes(items) matches Ok(label) ==> label.name == attribute_or_empty(
            items,
            "name"@,
        ) && label.catno == attribute_or_empty(items, "catno"@),
{
    reveal(parser::label_attributes);
    reveal_strlit("name");
    reveal_strlit("catno");
    let keys = seq!["name"@, "catno"@];
    assert("name"@.len() != "catno"@.len());
    lemma_different("name"@, "catno"@);
    law_attributes_by_name(items, keys);
}

/// A format has its name and its quantity from the attributes of its tag. A quantity that
/// is no number is one, and one that is missing is zero.
pub proof fn law_format_attributes(items: Seq<xml::AttributeView>)
    ensures
        parser::format_attributes(items) matches Ok(format) ==> {
            &&& format.name == attribute_or_empty(items, "name"@)
            &&& format.qty == (match attribute_text(items, "qty"@) {
                Some(s) => match text::unsigned_value(s, u32::MAX as nat) {
                    Some(n) => n,
                    None => 1,
                },
                None => 0,
            })
        },
{
    reveal(parser::format_attributes);
    reveal(parser::number_u32);
    reveal_strlit("name");
    reveal_strlit("qty");
    let keys = seq!["name"@, "qty"@];
    assert("name"@.len() != "qty"@.len());
    lemma_different("name"@, "qty"@);
    law_attributes_by_name(items, keys);
    if let Some(s) = attribute_text(items, "qty"@) {
        lemma_fits(s, u32::MAX as nat);
    }
}

proof fn lemma_fits(s: Seq<char>, max: nat)
    ensures
        text::unsigned_value(s, max) matches Some(n) ==> n <= max,
{
}

/// An image has its kind, its size and its uri from the attributes of its tag. A size that
/// is missing, or is no number, is zero.
pub proof fn law_image_attributes(items: Seq<xml::AttributeView>)
    ensures
        parser::image_attributes(items) matches Ok(image) ==> {
            &&& image.image_type == attribute_or_empty(items, "type"@)
            &&& image.uri == attribute_or_empty(items, "uri"@)
            &&& image.width == number_or_zero(attribute_text(items, "width"@))
            &&& image.height == number_or_zero(attribute_text(items, "height"@))
        },
{
    reveal(parser::image_attributes);
    reveal(parser::number_u32);
    reveal_strlit("type");
    reveal_strlit("width");
    reveal_strlit("height");
    reveal_strlit("uri");
    let keys = seq!["type"@, "width"@, "height"@, "uri"@];
    assert("type"@.len() == 4 && "width"@.len() == 5 && "height"@.len() == 6 && "uri"@.len() == 3);
    lemma_different("type"@, "width"@);
    lemma_different("type"@, "height"@);
    lemma_different("type"@, "uri"@);
    lemma_different("width"@, "height"@);
    lemma_different("width"@, "uri"@);
    lemma_different("height"@, "uri"@);
    law_attributes_by_name(items, keys);
    if let Some(s) = attribute_text(items, "width"@) {
        lemma_fits(s, u32::MAX as nat);
    }
    if let Some(s) = attribute_text(items, "height"@) {
        lemma_fits(s, u32::MAX as nat);
    }
}

/// The number that a text writes, where there is one; else zero.
pub open spec fn number_or_zero(value: Option<Seq<char>>) -> nat {
    match value {
        Some(s) => match text::unsigned_value(s, u32::MAX as nat) {
            Some(n) => n,
            None => 0,
        },
        None => 0,
    }
}

/// A video has its source, its duration and whether it may be embedded from the attributes
/// of its tag: it may unless they say "false", or say nothing.
pub proof fn law_video_attributes(items: Seq<xml::AttributeView>)
    ensures
        parser::video_attributes(items) matches Ok(video) ==> {
            &&& video.src == attribute_or_empty(items, "src"@)
            &&& video.title == Seq::<char>::empty()
            &&& match attribute_text(items, "duration"@) {
                Some(s) => match text::unsigned_value(s, u32::MAX as nat) {
                    Some(n) => video.duration is Some && video.duration->0 == n,
                    None => video.duration is None,
                },
                None => video.duration is None,
            }
            &&& video.embed == (attribute_text(items, "embed"@) matches Some(s) && s != "false"@)
        },
{
    reveal(parser::video_attributes);
    reveal_strlit("src");
    reveal_strlit("duration");
    reveal_strlit("embed");
    let keys = seq!["src"@, "duration"@, "embed"@];
    assert("src"@.len() == 3 && "duration"@.len() == 8 && "embed"@.len() == 5);
    lemma_different("src"@, "duration"@);
    lemma_different("src"@, "embed"@);
    lemma_different("duration"@, "embed"@);
    law_attributes_by_name(items, keys);
    if let Some(s) = attribute_text(items, "duration"@) {
        lemma_fits(s, u32::MAX as nat);
    }
}

/// The id and the status of a release are the attributes of its tag.
pub proof fn law_release_attributes(items: Seq<xml::AttributeView>)
    ensures
        parser::release_attributes(items) matches Ok((id, status)) ==> {
            &&& status == attribute_or_empty(items, "status"@)
            &&& id == (match attribute_text(items, "id"@) {
                Some(s) => match text::unsigned_value(s, u64::MAX as nat) {
                    Some(n) => n,
                    None => 0,
                },
                None => 0,
            })
        },
{
    reveal(parser::release_attributes);
    reveal(parser::number_u64);
    reveal_strlit("id");
    reveal_strlit("status");
    let keys = seq!["id"@, "status"@];
    assert("id"@.len() != "status"@.len());
    lemma_different("id"@, "status"@);
    law_attributes_by_name(items, keys);
    if let Some(s) = attribute_text(items, "id"@) {
        lemma_fits(s, u64::MAX as nat);
    }
}

/// Every `<video>` in the list of videos gives a video at its closing tag: with the source,
/// the duration and the leave to embed in the attributes of its tag, and the text of the
/// last `<title>` inside it.
pub proof fn law_video_values(state: ReleaseParserView, events: Seq<EventView>, close: EventView)
    requires
        state.scope.in_videos,
        begins(events, Element::Video, video_bounds()),
        no_empty_tag(events, Element::Video),
        closes(close, Element::Video),
    ensures
        release_run(state, events.push(close)) matches Ok(after) ==> {
            let videos = after.release.videos;
            let items = events[0].kind->OpenTag_0;
            &&& videos.len() > 0
            &&& videos.drop_last() == state.release.videos
            &&& videos.last().title == text_of(events, Element::Title)
            &&& videos.last().src == attribute_or_empty(items, "src"@)
            &&& videos.last().embed == (attribute_text(items, "embed"@) matches Some(s) && s
                != "false"@)
            &&& videos.last().duration is Some <==> (attribute_text(
                items,
                "duration"@,
            ) matches Some(s) && text::unsigned_value(s, u32::MAX as nat) is Some)
            &&& videos.last().duration matches Some(n) ==> text::unsigned_value(
                attribute_text(items, "duration"@)->0,
                u32::MAX as nat,
            ) == Some(n as nat)
        },
{
    assert(events.push(close).drop_last() == events);
    lemma_video_inside(state, events);
    law_video_attributes(events[0].kind->OpenTag_0);
    if let Ok(before) = release_run(state, events) {
        reveal(parser::scope_close);
        reveal(parser::release_close);
        reveal(parser::list_close);
        assert(before.release.videos.push(before.video).drop_last() == before.release.videos);
    }
}

} // verus!
