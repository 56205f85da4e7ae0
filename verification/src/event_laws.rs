//! What a single event changes in a release, and what its own fields come to.

use crate::body_laws::{closes, opens, release_run};
use crate::element::Element;
use crate::field_laws::text_of;
use crate::parser;
use crate::parser::{ReleaseParserView, Scope};
use crate::text;
use crate::xml;
use crate::xml::EventView;
use vstd::prelude::*;

verus! {

/// The attributes of a tag that opens an element of the given name, closed at once or not.
pub open spec fn tag_items(event: EventView, element: Element) -> Option<Seq<xml::AttributeView>> {
    if xml::tag_element(event.content) != element {
        None
    } else {
        match event.kind {
            xml::EventKindView::OpenTag(items) => Some(items),
            xml::EventKindView::EmptyTag(items) => Some(items),
            _ => None,
        }
    }
}

/// Whether an event is a tag that opens and closes an element of the given name.
pub open spec fn empty_tag(event: EventView, element: Element) -> bool {
    event.kind is EmptyTag && xml::tag_element(event.content) == element
}

/// Every `<label>`, `<format>` and `<image>`, closed at once or not, adds a label, a format
/// or an image with the values in its attributes. Nothing else does.
pub proof fn law_tags_add(state: ReleaseParserView, event: EventView)
    ensures
        parser::release_stepped(state, event) matches Ok((after, _)) ==> {
            let before = state.release;
            let now = after.release;
            &&& match tag_items(event, Element::Label) {
                Some(items) => parser::label_attributes(items) matches Ok(label) && now.labels
                    == before.labels.push(label),
                None => now.labels == before.labels,
            }
            &&& match tag_items(event, Element::Format) {
                Some(items) => parser::format_attributes(items) matches Ok(format) && now.formats
                    == before.formats.push(format),
                None => now.formats == before.formats,
            }
            &&& match tag_items(event, Element::Image) {
                Some(items) => parser::image_attributes(items) matches Ok(image) && now.images
                    == before.images.push(image),
                None => now.images == before.images,
            }
        },
{
    reveal(parser::release_open);
    reveal(parser::release_empty);
    reveal(parser::release_close);
    reveal(parser::release_attachment);
    reveal(parser::release_field);
    reveal(parser::credit_close);
    reveal(parser::track_close);
    reveal(parser::title_close);
    reveal(parser::part_close);
    reveal(parser::list_close);
}

/// Every `<genre>` in the list of genres, every `<style>` in the list of styles, every
/// `<company>` in the list of companies and every `<video>` in the list of videos adds one
/// where it ends. Nothing else does.
pub proof fn law_list_items_add(state: ReleaseParserView, event: EventView)
    ensures
        parser::release_stepped(state, event) matches Ok((after, _)) ==> {
            let before = state.release;
            let now = after.release;
            &&& now.genres == (if closes(event, Element::Genre) && state.scope.in_genres {
                before.genres.push(state.text)
            } else {
                before.genres
            })
            &&& now.styles == (if closes(event, Element::Style) && state.scope.in_styles {
                before.styles.push(state.text)
            } else {
                before.styles
            })
            &&& now.companies == (if closes(event, Element::Company) && state.scope.in_companies {
                before.companies.push(state.company)
            } else {
                before.companies
            })
            &&& closes(event, Element::Video) && state.scope.in_videos ==> now.videos
                == before.videos.push(state.video)
            &&& empty_tag(event, Element::Video) && state.scope.in_videos ==> (
            parser::video_attributes(event.kind->EmptyTag_0) matches Ok(video) && now.videos
                == before.videos.push(video))
            &&& !state.scope.in_videos || !closes(event, Element::Video) && !empty_tag(
                event,
                Element::Video,
            ) ==> now.videos == before.videos
        },
{
    reveal(parser::scope_close);
    reveal(parser::release_open);
    reveal(parser::release_empty);
    reveal(parser::release_close);
    reveal(parser::release_attachment);
    reveal(parser::release_field);
    reveal(parser::credit_close);
    reveal(parser::track_close);
    reveal(parser::title_close);
    reveal(parser::part_close);
    reveal(parser::list_close);
}

/// The country, the date, the notes, the quality and the master change only where an
/// element of that name ends.
pub proof fn law_fields_are_set(state: ReleaseParserView, event: EventView)
    ensures
        parser::release_stepped(state, event) matches Ok((after, _)) ==> {
            let before = state.release;
            let now = after.release;
            &&& now.country == (if closes(event, Element::Country) {
                state.text
            } else {
                before.country
            })
            &&& now.released == (if closes(event, Element::Released) {
                state.text
            } else {
                before.released
            })
            &&& now.notes == (if closes(event, Element::Notes) {
                state.text
            } else {
                before.notes
            })
            &&& now.data_quality == (if closes(event, Element::DataQuality) {
                state.text
            } else {
                before.data_quality
            })
            &&& match text::unsigned_value(text::trimmed(state.text), u64::MAX as nat) {
                Some(n) if closes(event, Element::MasterId) => now.master_id is Some
                    && now.master_id->0 == n,
                _ => now.master_id == before.master_id,
            }
        },
{
    reveal(parser::release_open);
    reveal(parser::release_empty);
    reveal(parser::release_close);
    reveal(parser::release_attachment);
    reveal(parser::release_field);
    reveal(parser::credit_close);
    reveal(parser::track_close);
    reveal(parser::title_close);
    reveal(parser::part_close);
    reveal(parser::list_close);
    lemma_fits(text::trimmed(state.text));
}

proof fn lemma_fits(s: Seq<char>)
    ensures
        text::unsigned_value(s, u64::MAX as nat) matches Some(n) ==> n <= u64::MAX,
{
}

/// The number in the last element of a name that holds one.
pub open spec fn last_number(events: Seq<EventView>, element: Element) -> Option<nat>
    decreases events.len(),
{
    if events.len() == 0 {
        None
    } else {
        let value = text::unsigned_value(
            text::trimmed(crate::body_laws::text_since_tag(events.drop_last())),
            u64::MAX as nat,
        );
        if closes(events.last(), element) && value is Some {
            value
        } else {
            last_number(events.drop_last(), element)
        }
    }
}

/// The country, the date, the notes and the quality of a release are the texts of the last
/// elements of these names inside it, and its master is the last number in a `<master_id>`.
pub proof fn law_own_fields(id: u64, status: Seq<char>, events: Seq<EventView>)
    ensures
        release_run(parser::release_opened(id, status), events) matches Ok(after) ==> {
            &&& after.release.country == text_of(events, Element::Country)
            &&& after.release.released == text_of(events, Element::Released)
            &&& after.release.notes == text_of(events, Element::Notes)
            &&& after.release.data_quality == text_of(events, Element::DataQuality)
            &&& match last_number(events, Element::MasterId) {
                Some(n) => after.release.master_id is Some && after.release.master_id->0 == n,
                None => after.release.master_id is None,
            }
        },
    decreases events.len(),
{
    if events.len() > 0 {
        let shorter = events.drop_last();
        law_own_fields(id, status, shorter);
        crate::body_laws::law_text_since_tag(id, status, shorter);
        if let Ok(before) = release_run(parser::release_opened(id, status), shorter) {
            law_fields_are_set(before, events.last());
        }
    }
}

/// The texts of the elements of a name that end among the events, in order.
pub open spec fn texts_of(events: Seq<EventView>, element: Element) -> Seq<Seq<char>>
    decreases events.len(),
{
    if events.len() == 0 {
        Seq::empty()
    } else {
        let before = texts_of(events.drop_last(), element);
        if closes(events.last(), element) {
            before.push(crate::body_laws::text_since_tag(events.drop_last()))
        } else {
            before
        }
    }
}

proof fn lemma_list_flags(scope: Scope, element: Element)
    ensures
        parser::scope_open(scope, element).in_genres == (scope.in_genres || element
            == Element::Genres),
        parser::scope_close(scope, element).in_genres == (scope.in_genres && element
            != Element::Genres),
        parser::scope_open(scope, element).in_styles == (scope.in_styles || element
            == Element::Styles),
        parser::scope_close(scope, element).in_styles == (scope.in_styles && element
            != Element::Styles),
{
    reveal(parser::scope_open);
    reveal(parser::scope_close);
}

/// A `<genres>` gives the texts of the `<genre>` elements inside it, in order, and a
/// `<styles>` those of its `<style>` elements.
pub proof fn law_genres_and_styles(state: ReleaseParserView, events: Seq<EventView>)
    requires
        events.len() > 0,
        forall|i: int|
            0 < i < events.len() ==> !closes(#[trigger] events[i], Element::Genres) && !closes(
                events[i],
                Element::Styles,
            ),
    ensures
        release_run(state, events) matches Ok(after) ==> {
            &&& opens(events[0], Element::Genres) ==> after.release.genres == state.release.genres
                + texts_of(events, Element::Genre) && after.scope.in_genres
            &&& opens(events[0], Element::Styles) ==> after.release.styles == state.release.styles
                + texts_of(events, Element::Style) && after.scope.in_styles
        },
    decreases events.len(),
{
    let shorter = events.drop_last();
    if events.len() == 1 {
        crate::field_laws::lemma_one(state, events);
        law_list_items_add(state, events[0]);
        crate::body_laws::lemma_step_scope(state, events[0]);
        lemma_list_flags(state.scope, xml::tag_element(events[0].content));
        assert(shorter == Seq::<EventView>::empty());
        assert(events.last() == events[0]);
        assert(texts_of(shorter, Element::Genre) == Seq::<Seq<char>>::empty());
        assert(texts_of(shorter, Element::Style) == Seq::<Seq<char>>::empty());
        assert(state.release.genres + Seq::<Seq<char>>::empty() == state.release.genres);
        assert(state.release.styles + Seq::<Seq<char>>::empty() == state.release.styles);
    } else {
        assert forall|i: int| 0 < i < shorter.len() implies !closes(
            #[trigger] shorter[i],
            Element::Genres,
        ) && !closes(shorter[i], Element::Styles) by {
            assert(shorter[i] == events[i]);
        }
        assert(shorter[0] == events[0]);
        assert(events[events.len() - 1] == events.last());
        law_genres_and_styles(state, shorter);
        if events[0].kind is OpenTag {
            crate::field_laws::lemma_text(state, shorter);
        }
        if let Ok(before) = release_run(state, shorter) {
            let event = events.last();
            law_list_items_add(before, event);
            crate::body_laws::lemma_step_scope(before, event);
            lemma_list_flags(before.scope, xml::tag_element(event.content));
            lemma_list_flags(before.scope, crate::element::element(event.content));
            assert(state.release.genres + texts_of(shorter, Element::Genre).push(before.text) == (
            state.release.genres + texts_of(shorter, Element::Genre)).push(before.text));
            assert(state.release.styles + texts_of(shorter, Element::Style).push(before.text) == (
            state.release.styles + texts_of(shorter, Element::Style)).push(before.text));
        }
    }
}

/// Where the lists begin: an `<artists>` or an `<extraartists>` inside a track begins the
/// credits of the track, one outside of tracks those of the release; but an `<artists>` in
/// the track list and outside of tracks begins nothing.
pub proof fn law_lists_begin(scope: Scope)
    ensures
        ({
            let artists = parser::scope_open(scope, Element::Artists);
            let extra = parser::scope_open(scope, Element::ExtraArtists);
            &&& artists.in_track_artists == (scope.in_track_artists || scope.track_depth > 0)
            &&& artists.in_artists == (scope.in_artists || scope.track_depth == 0
                && !scope.in_tracklist)
            &&& artists.in_extraartists == scope.in_extraartists
            &&& artists.in_track_extraartists == scope.in_track_extraartists
            &&& extra.in_track_extraartists == (scope.in_track_extraartists || scope.track_depth
                > 0)
            &&& extra.in_extraartists == (scope.in_extraartists || scope.track_depth == 0)
            &&& extra.in_artists == scope.in_artists
            &&& extra.in_track_artists == scope.in_track_artists
            &&& parser::scope_open(scope, Element::TrackList).in_tracklist
            &&& parser::scope_open(scope, Element::Companies).in_companies
            &&& parser::scope_open(scope, Element::Videos).in_videos
        }),
{
    reveal(parser::scope_open);
}

/// Where the lists end.
pub proof fn law_lists_end(scope: Scope)
    ensures
        ({
            let artists = parser::scope_close(scope, Element::Artists);
            let extra = parser::scope_close(scope, Element::ExtraArtists);
            &&& artists.in_track_artists == (scope.in_track_artists && scope.track_depth == 0)
            &&& artists.in_artists == (scope.in_artists && scope.track_depth > 0)
            &&& artists.in_extraartists == scope.in_extraartists
            &&& artists.in_track_extraartists == scope.in_track_extraartists
            &&& extra.in_track_extraartists == (scope.in_track_extraartists && scope.track_depth
                == 0)
            &&& extra.in_extraartists == (scope.in_extraartists && scope.track_depth > 0)
            &&& extra.in_artists == scope.in_artists
            &&& extra.in_track_artists == scope.in_track_artists
            &&& !parser::scope_close(scope, Element::TrackList).in_tracklist
            &&& !parser::scope_close(scope, Element::Companies).in_companies
            &&& !parser::scope_close(scope, Element::Videos).in_videos
        }),
{
    reveal(parser::scope_close);
}

} // verus!
