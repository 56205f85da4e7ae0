//! What holds of reading a release, whatever the document is.

use crate::element::Element;
use crate::error;
use crate::model;
use crate::parser;
use crate::record;
use crate::xml;
use vstd::prelude::*;

verus! {

/// The id and the status of a release are those in its opening tag: nothing inside the
/// element changes them.
pub proof fn law_id_and_status_stay(state: parser::ReleaseParserView, event: xml::EventView)
    ensures
        parser::release_stepped(state, event) matches Ok((after, _)) ==> after.release.id
            == state.release.id && after.release.status == state.release.status,
{
    reveal(parser::release_open);
    reveal(parser::release_empty);
    reveal(parser::release_close);
    reveal(parser::release_attachment);
    reveal(parser::release_field);
    reveal(parser::credit_close);
    reveal(parser::track_close);
    reveal(parser::title_close);
    reveal(parser::part_close);
    reveal(parser::list_close);
}

/// The title of a release changes only at the end of a `<title>` that is a child of
/// `<release>` itself. A title inside notes, a track or a video does not touch it.
pub proof fn law_title_is_own_child(state: parser::ReleaseParserView, event: xml::EventView)
    ensures
        parser::release_stepped(state, event) matches Ok((after, _)) ==> {
            ||| after.release.title == state.release.title
            ||| {
                &&& event.kind is CloseTag
                &&& crate::element::element(event.content) == Element::Title
                &&& state.scope.depth <= 1
                &&& state.scope.track_depth == 0
                &&& !state.scope.in_video
                &&& after.release.title == state.text
            }
        },
{
    reveal(parser::release_open);
    reveal(parser::release_empty);
    reveal(parser::release_close);
    reveal(parser::release_attachment);
    reveal(parser::release_field);
    reveal(parser::scope_close);
    reveal(parser::credit_close);
    reveal(parser::track_close);
    reveal(parser::title_close);
    reveal(parser::part_close);
    reveal(parser::list_close);
}

/// The tracks around the innermost one are left alone by every event but the opening and
/// the closing tag of a track.
pub proof fn law_outer_tracks_stay(state: parser::ReleaseParserView, event: xml::EventView)
    ensures
        parser::release_stepped(state, event) matches Ok((after, _)) ==> {
            ||| after.outer_tracks == state.outer_tracks
            ||| event.kind is OpenTag && xml::tag_element(event.content) == Element::Track
            ||| event.kind is CloseTag && crate::element::element(event.content) == Element::Track
        },
{
    reveal(parser::release_open);
    reveal(parser::release_empty);
    reveal(parser::release_close);
    reveal(parser::credit_close);
    reveal(parser::title_close);
    reveal(parser::part_close);
    reveal(parser::list_close);
}

/// A track inside a track leaves it as it was: whatever the inner track came to be, its
/// closing tag adds it to the tracks of the release and brings the outer track back.
pub proof fn law_inner_track_returns(
    state: parser::ReleaseParserView,
    items: Seq<xml::AttributeView>,
    inside: parser::ReleaseParserView,
)
    requires
        state.scope.track_depth > 0,
        parser::release_open(state, Element::Track, items) matches Ok(opened)
            && inside.outer_tracks == opened.outer_tracks && inside.release.tracks
            == state.release.tracks,
    ensures
        ({
            let after = parser::release_close(inside, Element::Track);
            &&& after.track == state.track
            &&& after.outer_tracks == state.outer_tracks
            &&& after.release.tracks == state.release.tracks.push(inside.track)
        }),
{
    reveal(parser::release_open);
    reveal(parser::release_close);
    reveal(parser::track_close);
    assert(state.outer_tracks.push(state.track).drop_last() == state.outer_tracks);
}

/// The opening and the closing tag of an element leave the depths as they were.
pub proof fn law_depths_return(scope: parser::Scope, element: Element)
    requires
        scope.depth < u32::MAX,
        scope.track_depth < u32::MAX,
    ensures
        parser::scope_close(parser::scope_open(scope, element), element).depth == scope.depth,
        parser::scope_close(parser::scope_open(scope, element), element).track_depth
            == scope.track_depth,
{
    reveal(parser::scope_open);
    reveal(parser::scope_close);
}

/// An artist credit inside a track stays inside it: it goes to the main credits or to the
/// extra credits of the track, and never to the credits of the release.
pub proof fn law_track_credits_stay_in_track(state: parser::ReleaseParserView)
    requires
        state.scope.track_credits(),
    ensures
        ({
            let after = parser::release_close(state, Element::Artist);
            &&& after.release == state.release
            &&& state.scope.in_track_artists ==> after.track.artists == state.track.artists.push(
                state.track_artist,
            ) && after.track.extra_artists == state.track.extra_artists
            &&& !state.scope.in_track_artists ==> after.track.extra_artists
                == state.track.extra_artists.push(state.track_artist) && after.track.artists
                == state.track.artists
        }),
{
    reveal(parser::release_close);
    reveal(parser::scope_close);
    reveal(parser::credit_close);
}

/// The role of a track credit is set only at the end of a `<role>` inside the extra
/// credits of a track; a main credit has none.
pub proof fn law_role_is_of_extra_credit(state: parser::ReleaseParserView, event: xml::EventView)
    ensures
        parser::release_stepped(state, event) matches Ok((after, _)) ==> {
            ||| after.track_artist.role == state.track_artist.role
            ||| after.track_artist.role == Seq::<char>::empty()
            ||| {
                &&& event.kind is CloseTag
                &&& crate::element::element(event.content) == Element::Role
                &&& state.scope.in_track_extraartists
                &&& after.track_artist.role == state.text
            }
        },
{
    reveal(parser::release_open);
    reveal(parser::release_empty);
    reveal(parser::release_close);
    reveal(parser::scope_close);
    reveal(parser::credit_close);
    reveal(parser::track_close);
    reveal(parser::title_close);
    reveal(parser::part_close);
    reveal(parser::list_close);
}

/// What was collected is not lost: no event takes an artist, a label, a track, an image, a
/// genre, a style, a company or a video from the release again, or changes it.
pub proof fn law_release_grows(state: parser::ReleaseParserView, event: xml::EventView)
    ensures
        parser::release_stepped(state, event) matches Ok((after, _)) ==> {
            &&& state.release.formats.is_prefix_of(after.release.formats)
            &&& state.release.artists.is_prefix_of(after.release.artists)
            &&& state.release.extra_artists.is_prefix_of(after.release.extra_artists)
            &&& state.release.labels.is_prefix_of(after.release.labels)
            &&& state.release.tracks.is_prefix_of(after.release.tracks)
            &&& state.release.images.is_prefix_of(after.release.images)
            &&& state.release.genres.is_prefix_of(after.release.genres)
            &&& state.release.styles.is_prefix_of(after.release.styles)
            &&& state.release.companies.is_prefix_of(after.release.companies)
            &&& state.release.videos.is_prefix_of(after.release.videos)
        },
{
    reveal(parser::release_open);
    reveal(parser::release_empty);
    reveal(parser::release_close);
    reveal(parser::release_attachment);
    reveal(parser::release_field);
    reveal(parser::credit_close);
    reveal(parser::track_close);
    reveal(parser::title_close);
    reveal(parser::part_close);
    reveal(parser::list_close);
    if let Ok((after, _)) = parser::release_stepped(state, event) {
        lemma_prefix(state.release.formats, after.release.formats);
        lemma_prefix(state.release.artists, after.release.artists);
        lemma_prefix(state.release.extra_artists, after.release.extra_artists);
        lemma_prefix(state.release.labels, after.release.labels);
        lemma_prefix(state.release.tracks, after.release.tracks);
        lemma_prefix(state.release.images, after.release.images);
        lemma_prefix(state.release.genres, after.release.genres);
        lemma_prefix(state.release.styles, after.release.styles);
        lemma_prefix(state.release.companies, after.release.companies);
        lemma_prefix(state.release.videos, after.release.videos);
    }
}

proof fn lemma_prefix<T>(a: Seq<T>, b: Seq<T>)
    ensures
        b == a ==> a.is_prefix_of(b),
        b.len() == a.len() + 1 && b.drop_last() == a ==> a.is_prefix_of(b),
        forall|x: T| #[trigger] a.push(x).drop_last() == a,
{
    assert forall|x: T| #[trigger] a.push(x).drop_last() == a by {
        assert(a.push(x).drop_last() =~= a);
    }
}

/// References are part of the text around them: character data, a reference and more
/// character data give one text.
pub proof fn law_text_is_joined(
    state: parser::ReleaseParserView,
    before: xml::EventView,
    reference: xml::EventView,
    after: xml::EventView,
)
    requires
        before.kind is Characters,
        reference.kind is Reference,
        after.kind is Characters,
        xml::text_value(before.content) is Ok,
        xml::reference_value(reference.content) is Ok,
        xml::text_value(after.content) is Ok,
    ensures
        ({
            let one = parser::release_stepped(state, before)->Ok_0.0;
            let two = parser::release_stepped(one, reference)->Ok_0.0;
            let three = parser::release_stepped(two, after)->Ok_0.0;
            &&& parser::release_stepped(state, before) is Ok
            &&& parser::release_stepped(one, reference) is Ok
            &&& parser::release_stepped(two, after) is Ok
            &&& three.text == state.text + xml::text_value(before.content)->Ok_0
                + xml::reference_value(reference.content)->Ok_0 + xml::text_value(
                after.content,
            )->Ok_0
        }),
{
}

/// Whether a release has an artist.
pub open spec fn has_artist() -> spec_fn(model::ReleaseView) -> bool {
    |release: model::ReleaseView| release.artists.len() > 0
}

/// Every release that is kept from a document has an artist. Those that are kept are the
/// first of all that have one: as many as the limit says, or all where there are fewer.
pub proof fn law_releases_kept(found: Seq<model::ReleaseView>, limit: Option<usize>)
    ensures
        ({
            let (kept, reached) = parser::releases_kept(found, limit);
            &&& forall|i: int| 0 <= i < kept.len() ==> (#[trigger] kept[i]).artists.len() > 0
            &&& match limit {
                Some(n) if found.filter(has_artist()).len() >= n => kept == found.filter(
                    has_artist(),
                ).take(n as int),
                _ => kept == found.filter(has_artist()),
            }
            &&& reached == (limit matches Some(n) && kept.len() >= n)
        }),
    decreases found.len(),
{
    reveal(Seq::filter);
    if found.len() > 0 {
        law_releases_kept(found.drop_last(), limit);
        let before = found.drop_last().filter(has_artist());
        let last = found.last();
        if let Some(n) = limit {
            if before.len() >= n {
                assert(before.push(last).take(n as int) == before.take(n as int));
            } else {
                assert(before.push(last).take(before.len() as int + 1) == before.push(last));
            }
        }
    }
}

/// The one release that is read from a document is the first of all its releases.
pub proof fn law_first_of_all(
    current: Option<parser::ReleaseParserView>,
    events: Seq<xml::EventResultView>,
)
    requires
        record::records::<parser::ReleaseParser>(current, events).0.len() > 0,
    ensures
        parser::first_release(current, events) == Ok::<model::ReleaseView, error::ErrorView>(
            record::records::<parser::ReleaseParser>(current, events).0[0],
        ),
    decreases events.len(),
{
    match record::fed::<parser::ReleaseParser>(current, events[0]) {
        Ok((next, record::Progress::Reading)) => {
            law_first_of_all(next, events.skip(1));
        },
        _ => {},
    }
}

} // verus!
