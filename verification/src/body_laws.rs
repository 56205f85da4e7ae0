//! What holds of a whole `<release>` element, however its elements are nested.
//!
//! The body of an element are the events between its opening and its closing tag.

use crate::element::Element;
use crate::error;
use crate::parser;
use crate::parser::{ReleaseParser, ReleaseParserView};
use crate::record;
use crate::xml;
use crate::xml::EventView;
use vstd::prelude::*;

verus! {

/// The state after a sequence of events inside `<release>`.
pub open spec fn release_run(state: ReleaseParserView, events: Seq<EventView>) -> Result<
    ReleaseParserView,
    error::ErrorView,
>
    decreases events.len(),
{
    if events.len() == 0 {
        Ok(state)
    } else {
        match release_run(state, events.drop_last()) {
            Err(error) => Err(error),
            Ok(before) => match parser::release_stepped(before, events.last()) {
                Err(error) => Err(error),
                Ok((after, _)) => Ok(after),
            },
        }
    }
}

/// Whether an event is the closing tag of the given element.
pub open spec fn closes(event: EventView, element: Element) -> bool {
    event.kind is CloseTag && crate::element::element(event.content) == element
}

/// The elements that are open after a sequence of events, the innermost last.
pub open spec fn open_elements(events: Seq<EventView>) -> Seq<Element>
    decreases events.len(),
{
    if events.len() == 0 {
        Seq::empty()
    } else {
        let before = open_elements(events.drop_last());
        match events.last().kind {
            xml::EventKindView::OpenTag(_) => before.push(xml::tag_element(events.last().content)),
            xml::EventKindView::CloseTag if before.len() > 0 => before.drop_last(),
            _ => before,
        }
    }
}

/// The largest number of elements that are open at once.
pub open spec fn deepest(events: Seq<EventView>) -> nat
    decreases events.len(),
{
    if events.len() == 0 {
        0
    } else {
        let before = deepest(events.drop_last());
        let now = open_elements(events).len();
        if now > before {
            now
        } else {
            before
        }
    }
}

/// Whether every closing tag closes the element that was opened last.
pub open spec fn well_nested(events: Seq<EventView>) -> bool
    decreases events.len(),
{
    events.len() > 0 ==> {
        let before = open_elements(events.drop_last());
        &&& well_nested(events.drop_last())
        &&& events.last().kind is CloseTag ==> before.len() > 0 && closes(
            events.last(),
            before.last(),
        )
    }
}

/// How often an element is among others.
pub open spec fn occurrences(elements: Seq<Element>, element: Element) -> nat
    decreases elements.len(),
{
    if elements.len() == 0 {
        0
    } else {
        occurrences(elements.drop_last(), element) + if elements.last() == element {
            1nat
        } else {
            0nat
        }
    }
}

/// The number of closing tags of an element.
pub open spec fn closings(events: Seq<EventView>, element: Element) -> nat
    decreases events.len(),
{
    if events.len() == 0 {
        0
    } else {
        closings(events.drop_last(), element) + if closes(events.last(), element) {
            1nat
        } else {
            0nat
        }
    }
}

/// The text since the last opening or closing tag.
pub open spec fn text_since_tag(events: Seq<EventView>) -> Seq<char>
    decreases events.len(),
{
    if events.len() == 0 {
        Seq::empty()
    } else {
        let before = text_since_tag(events.drop_last());
        let content = events.last().content;
        match events.last().kind {
            xml::EventKindView::OpenTag(_) | xml::EventKindView::CloseTag => Seq::empty(),
            xml::EventKindView::Characters => before + xml::text_value(content)->Ok_0,
            xml::EventKindView::Reference => before + xml::reference_value(content)->Ok_0,
            xml::EventKindView::Section => before + xml::utf8_lossy(content),
            _ => before,
        }
    }
}

/// The text of the last `<title>` that is a child of the element itself; empty where there
/// is none.
pub open spec fn own_title(events: Seq<EventView>) -> Seq<char>
    decreases events.len(),
{
    if events.len() == 0 {
        Seq::empty()
    } else if closes(events.last(), Element::Title) && open_elements(events.drop_last()) == seq![
        Element::Title,
    ] {
        text_since_tag(events.drop_last())
    } else {
        own_title(events.drop_last())
    }
}

/// Whether a `<video>` inside a `<videos>` is among the open elements.
pub open spec fn video_in_videos(elements: Seq<Element>) -> bool {
    exists|i: int, j: int|
        0 <= i < j < elements.len() && #[trigger] elements[i] == Element::Videos
            && #[trigger] elements[j] == Element::Video
}

/// Whether no `<video>` inside a `<videos>` has a `<videos>` in turn.
pub open spec fn videos_stay_apart(events: Seq<EventView>) -> bool
    decreases events.len(),
{
    events.len() > 0 ==> {
        &&& videos_stay_apart(events.drop_last())
        &&& events.last().kind is OpenTag && xml::tag_element(events.last().content)
            == Element::Videos ==> !video_in_videos(open_elements(events.drop_last()))
    }
}

pub proof fn lemma_step_scope(state: ReleaseParserView, event: EventView)
    ensures
        parser::release_stepped(state, event) matches Ok((after, _)) ==> after.scope == (
        match event.kind {
            xml::EventKindView::OpenTag(_) => parser::scope_open(
                state.scope,
                xml::tag_element(event.content),
            ),
            xml::EventKindView::CloseTag => parser::scope_close(
                state.scope,
                crate::element::element(event.content),
            ),
            _ => state.scope,
        }),
{
    reveal(parser::release_open);
    reveal(parser::release_empty);
    reveal(parser::release_close);
    reveal(parser::credit_close);
    reveal(parser::track_close);
    reveal(parser::title_close);
    reveal(parser::part_close);
    reveal(parser::list_close);
}

pub proof fn lemma_step_text(state: ReleaseParserView, event: EventView)
    ensures
        parser::release_stepped(state, event) matches Ok((after, _)) ==> after.text == (
        match event.kind {
            xml::EventKindView::OpenTag(_) | xml::EventKindView::CloseTag => Seq::empty(),
            xml::EventKindView::Characters => state.text + xml::text_value(event.content)->Ok_0,
            xml::EventKindView::Reference => state.text + xml::reference_value(
                event.content,
            )->Ok_0,
            xml::EventKindView::Section => state.text + xml::utf8_lossy(event.content),
            _ => state.text,
        }),
{
    reveal(parser::release_open);
    reveal(parser::release_empty);
    reveal(parser::release_close);
}

proof fn lemma_step_title(state: ReleaseParserView, event: EventView)
    ensures
        parser::release_stepped(state, event) matches Ok((after, _)) ==> after.release.title == (
        if closes(event, Element::Title) && !state.scope.in_video && state.scope.track_depth == 0
            && state.scope.depth <= 1 {
            state.text
        } else {
            state.release.title
        }),
{
    reveal(parser::release_open);
    reveal(parser::release_empty);
    reveal(parser::release_close);
    reveal(parser::release_attachment);
    reveal(parser::release_field);
    reveal(parser::scope_close);
    reveal(parser::credit_close);
    reveal(parser::track_close);
    reveal(parser::title_close);
    reveal(parser::part_close);
    reveal(parser::list_close);
}

proof fn lemma_step_tracks(state: ReleaseParserView, event: EventView)
    ensures
        parser::release_stepped(state, event) matches Ok((after, _)) ==> after.release.tracks == (
        if closes(event, Element::Track) {
            state.release.tracks.push(state.track)
        } else {
            state.release.tracks
        }),
{
    reveal(parser::release_open);
    reveal(parser::release_empty);
    reveal(parser::release_close);
    reveal(parser::release_attachment);
    reveal(parser::release_field);
    reveal(parser::credit_close);
    reveal(parser::track_close);
    reveal(parser::title_close);
    reveal(parser::part_close);
    reveal(parser::list_close);
}

proof fn lemma_step_outer_tracks(state: ReleaseParserView, event: EventView)
    ensures
        parser::release_stepped(state, event) matches Ok((after, _)) ==> after.outer_tracks == (
        if event.kind is OpenTag && xml::tag_element(event.content) == Element::Track
            && state.scope.track_depth > 0 {
            state.outer_tracks.push(state.track)
        } else if closes(event, Element::Track) && state.outer_tracks.len() > 0 {
            state.outer_tracks.drop_last()
        } else {
            state.outer_tracks
        }),
{
    reveal(parser::release_open);
    reveal(parser::release_empty);
    reveal(parser::release_close);
    reveal(parser::credit_close);
    reveal(parser::track_close);
    reveal(parser::title_close);
    reveal(parser::part_close);
    reveal(parser::list_close);
}

proof fn lemma_scope_depths(scope: parser::Scope, element: Element)
    ensures
        parser::scope_open(scope, element).depth == parser::next(scope.depth),
        parser::scope_close(scope, element).depth == parser::previous(scope.depth),
        parser::scope_open(scope, element).track_depth == (if element == Element::Track {
            parser::next(scope.track_depth)
        } else {
            scope.track_depth
        }),
        parser::scope_close(scope, element).track_depth == (if element == Element::Track {
            parser::previous(scope.track_depth)
        } else {
            scope.track_depth
        }),
{
    reveal(parser::scope_open);
    reveal(parser::scope_close);
}

proof fn lemma_occurrences(elements: Seq<Element>, element: Element)
    ensures
        occurrences(elements, element) <= elements.len(),
        forall|more: Element|
            occurrences(#[trigger] elements.push(more), element) == occurrences(elements, element)
                + if more == element {
                1nat
            } else {
                0nat
            },
    decreases elements.len(),
{
    if elements.len() > 0 {
        lemma_occurrences(elements.drop_last(), element);
    }
    assert forall|more: Element|
        occurrences(#[trigger] elements.push(more), element) == occurrences(elements, element)
            + if more == element {
            1nat
        } else {
            0nat
        } by {
        assert(elements.push(more).drop_last() == elements);
    }
}

/// `depth` is the number of open elements, and `track_depth` the number of open tracks,
/// beyond those that were open at first.
pub proof fn law_depths_count_open_elements(state: ReleaseParserView, events: Seq<EventView>)
    requires
        well_nested(events),
        state.scope.track_depth <= state.scope.depth,
        state.scope.depth + deepest(events) <= u32::MAX,
    ensures
        release_run(state, events) matches Ok(after) ==> {
            &&& after.scope.depth == state.scope.depth + open_elements(events).len()
            &&& after.scope.track_depth == state.scope.track_depth + occurrences(
                open_elements(events),
                Element::Track,
            )
        },
    decreases events.len(),
{
    if events.len() > 0 {
        let shorter = events.drop_last();
        law_depths_count_open_elements(state, shorter);
        if let Ok(before) = release_run(state, shorter) {
            let event = events.last();
            let open = open_elements(shorter);
            lemma_step_scope(before, event);
            lemma_scope_depths(before.scope, xml::tag_element(event.content));
            lemma_scope_depths(before.scope, crate::element::element(event.content));
            lemma_occurrences(open, Element::Track);
            lemma_occurrences(open_elements(events), Element::Track);
        }
    }
}

/// The text that was collected is the text since the last opening or closing tag.
pub proof fn law_text_since_tag(id: u64, status: Seq<char>, events: Seq<EventView>)
    ensures
        release_run(parser::release_opened(id, status), events) matches Ok(after) ==> after.text
            == text_since_tag(events),
    decreases events.len(),
{
    if events.len() > 0 {
        law_text_since_tag(id, status, events.drop_last());
        if let Ok(before) = release_run(parser::release_opened(id, status), events.drop_last()) {
            lemma_step_text(before, events.last());
        }
    }
}

/// Whether no `<videos>` is open inside a `<video>` that is inside a `<videos>`.
spec fn apart(elements: Seq<Element>) -> bool {
    forall|p: int|
        0 <= p < elements.len() && #[trigger] elements[p] == Element::Videos ==> !video_in_videos(
            elements.take(p),
        )
}

proof fn lemma_apart(events: Seq<EventView>)
    requires
        videos_stay_apart(events),
    ensures
        apart(open_elements(events)),
    decreases events.len(),
{
    if events.len() > 0 {
        let before = open_elements(events.drop_last());
        let after = open_elements(events);
        lemma_apart(events.drop_last());
        assert forall|p: int|
            0 <= p < after.len() && #[trigger] after[p] == Element::Videos implies !video_in_videos(
            after.take(p),
        ) by {
            if p < before.len() {
                assert(before[p] == after[p]);
                assert(after.take(p) == before.take(p));
            } else {
                assert(after.take(p) == before);
            }
        }
    }
}

/// A video is being read only inside a `<video>` that is inside a `<videos>`.
proof fn lemma_in_video(id: u64, status: Seq<char>, events: Seq<EventView>)
    requires
        well_nested(events),
        videos_stay_apart(events),
    ensures
        release_run(parser::release_opened(id, status), events) matches Ok(after) ==> {
            &&& after.scope.in_videos ==> open_elements(events).contains(Element::Videos)
            &&& after.scope.in_video ==> after.scope.in_videos && video_in_videos(
                open_elements(events),
            )
        },
    decreases events.len(),
{
    if events.len() > 0 {
        let shorter = events.drop_last();
        lemma_in_video(id, status, shorter);
        lemma_apart(shorter);
        let run = release_run(parser::release_opened(id, status), events);
        if let Ok(before) = release_run(parser::release_opened(id, status), shorter) {
            if let Ok(after) = run {
                lemma_step_scope(before, events.last());
                lemma_video_step(
                    before.scope,
                    after.scope,
                    open_elements(shorter),
                    open_elements(events),
                    events.last(),
                );
            }
        }
    }
}

proof fn lemma_video_step(
    before: parser::Scope,
    after: parser::Scope,
    open: Seq<Element>,
    now: Seq<Element>,
    event: EventView,
)
    requires
        apart(open),
        before.in_videos ==> open.contains(Element::Videos),
        before.in_video ==> before.in_videos && video_in_videos(open),
        event.kind is CloseTag ==> open.len() > 0 && closes(event, open.last()),
        match event.kind {
            xml::EventKindView::OpenTag(_) => {
                &&& after == parser::scope_open(before, xml::tag_element(event.content))
                &&& now == open.push(xml::tag_element(event.content))
            },
            xml::EventKindView::CloseTag => {
                &&& after == parser::scope_close(before, crate::element::element(event.content))
                &&& now == open.drop_last()
            },
            _ => after == before && now == open,
        },
    ensures
        after.in_videos ==> now.contains(Element::Videos),
        after.in_video ==> after.in_videos && video_in_videos(now),
{
    reveal(parser::scope_open);
    reveal(parser::scope_close);
    match event.kind {
        xml::EventKindView::OpenTag(_) => {
            let element = xml::tag_element(event.content);
            assert(now.last() == element);
            assert(now[open.len() as int] == element);
            if before.in_videos {
                let i = choose|i: int| 0 <= i < open.len() && open[i] == Element::Videos;
                assert(now[i] == Element::Videos);
                if element == Element::Video {
                    assert(now[open.len() as int] == Element::Video);
                }
            }
            if before.in_video {
                let (i, j) = choose|i: int, j: int|
                    0 <= i < j < open.len() && #[trigger] open[i] == Element::Videos
                        && #[trigger] open[j] == Element::Video;
                assert(now[i] == Element::Videos && now[j] == Element::Video);
            }
        },
        xml::EventKindView::CloseTag => {
            let element = crate::element::element(event.content);
            let last = open.len() - 1;
            assert(open[last] == element);
            assert(now == open.take(last));
            if before.in_videos && element != Element::Videos {
                let i = choose|i: int| 0 <= i < open.len() && open[i] == Element::Videos;
                assert(now[i] == Element::Videos);
            }
            if before.in_video && element != Element::Video {
                let (i, j) = choose|i: int, j: int|
                    0 <= i < j < open.len() && #[trigger] open[i] == Element::Videos
                        && #[trigger] open[j] == Element::Video;
                assert(j < last);
                assert(now[i] == Element::Videos && now[j] == Element::Video);
                assert(video_in_videos(now));
            }
        },
        _ => {},
    }
}

/// The title of a release is that of the last `<title>` that is a child of `<release>`
/// itself, whatever titles stand deeper inside it. Left out is a body in which a `<video>`
/// inside a `<videos>` has a `<videos>` in turn: the titles after it are taken for those of
/// a video.
pub proof fn law_title_of_body(id: u64, status: Seq<char>, events: Seq<EventView>)
    requires
        well_nested(events),
        deepest(events) <= u32::MAX,
        videos_stay_apart(events),
    ensures
        release_run(parser::release_opened(id, status), events) matches Ok(after)
            ==> after.release.title == own_title(events),
    decreases events.len(),
{
    let start = parser::release_opened(id, status);
    if events.len() > 0 {
        let shorter = events.drop_last();
        law_title_of_body(id, status, shorter);
        if let Ok(before) = release_run(start, shorter) {
            let open = open_elements(shorter);
            lemma_step_title(before, events.last());
            law_depths_count_open_elements(start, shorter);
            law_text_since_tag(id, status, shorter);
            lemma_in_video(id, status, shorter);
            if closes(events.last(), Element::Title) {
                if open.len() == 1 {
                    assert(open == seq![Element::Title]);
                    assert(open.drop_last() == Seq::<Element>::empty());
                    assert(occurrences(open.drop_last(), Element::Track) == 0);
                    assert(occurrences(open, Element::Track) == 0);
                    assert(!video_in_videos(open));
                } else {
                    assert(open != seq![Element::Title]);
                }
            }
        }
    }
}

/// Every closing tag of a track gives one track of the release, in the order of the closing
/// tags: the track that was innermost there.
pub proof fn law_tracks_of_body(id: u64, status: Seq<char>, events: Seq<EventView>)
    ensures
        release_run(parser::release_opened(id, status), events) matches Ok(after) ==> {
            &&& after.release.tracks.len() == closings(events, Element::Track)
            &&& forall|n: int|
                0 <= n < events.len() && closes(#[trigger] events[n], Element::Track) ==> {
                    let there = release_run(parser::release_opened(id, status), events.take(n));
                    let place = closings(events.take(n), Element::Track) as int;
                    &&& place < after.release.tracks.len()
                    &&& there is Ok
                    &&& after.release.tracks[place] == there->Ok_0.track
                }
        },
    decreases events.len(),
{
    let start = parser::release_opened(id, status);
    if events.len() > 0 {
        let shorter = events.drop_last();
        law_tracks_of_body(id, status, shorter);
        if let Ok(before) = release_run(start, shorter) {
            lemma_step_tracks(before, events.last());
            if let Ok(after) = release_run(start, events) {
                assert forall|n: int|
                    0 <= n < events.len() && closes(#[trigger] events[n], Element::Track) implies {
                    let there = release_run(start, events.take(n));
                    let place = closings(events.take(n), Element::Track) as int;
                    &&& place < after.release.tracks.len()
                    &&& there is Ok
                    &&& after.release.tracks[place] == there->Ok_0.track
                } by {
                    if n < shorter.len() {
                        assert(shorter[n] == events[n]);
                        assert(shorter.take(n) == events.take(n));
                    } else {
                        assert(shorter == events.take(n));
                        assert(events.last() == events[n]);
                    }
                }
            }
        }
    }
}

/// While a well-nested sequence of events inside a track is read, the tracks around it
/// stay, and each track that it opens adds one more around the innermost.
proof fn lemma_outer_tracks(state: ReleaseParserView, events: Seq<EventView>)
    requires
        well_nested(events),
        0 < state.scope.track_depth <= state.scope.depth,
        state.scope.depth + deepest(events) <= u32::MAX,
    ensures
        release_run(state, events) matches Ok(after) ==> {
            &&& after.outer_tracks.len() == state.outer_tracks.len() + occurrences(
                open_elements(events),
                Element::Track,
            )
            &&& after.outer_tracks.take(state.outer_tracks.len() as int) == state.outer_tracks
        },
    decreases events.len(),
{
    if events.len() == 0 {
        assert(state.outer_tracks.take(state.outer_tracks.len() as int) == state.outer_tracks);
    } else {
        let shorter = events.drop_last();
        lemma_outer_tracks(state, shorter);
        law_depths_count_open_elements(state, shorter);
        if let Ok(before) = release_run(state, shorter) {
            let open = open_elements(shorter);
            let base = state.outer_tracks.len() as int;
            lemma_step_outer_tracks(before, events.last());
            lemma_occurrences(open, Element::Track);
            assert(before.outer_tracks.push(before.track).take(base) == before.outer_tracks.take(
                base,
            ));
            if before.outer_tracks.len() > base {
                assert(before.outer_tracks.drop_last().take(base) == before.outer_tracks.take(
                    base,
                ));
            }
        }
    }
}

/// A track inside a track leaves it as it was, whatever stands in the inner one: after its
/// closing tag the outer track goes on, and so do the tracks around it.
pub proof fn law_track_inside_track(
    state: ReleaseParserView,
    open: EventView,
    inside: Seq<EventView>,
    close: EventView,
)
    requires
        0 < state.scope.track_depth <= state.scope.depth,
        open.kind is OpenTag,
        xml::tag_element(open.content) == Element::Track,
        closes(close, Element::Track),
        well_nested(inside),
        open_elements(inside) == Seq::<Element>::empty(),
        state.scope.depth + 1 + deepest(inside) <= u32::MAX,
    ensures
        release_run(state, seq![open] + inside + seq![close]) matches Ok(after) ==> {
            &&& after.track == state.track
            &&& after.outer_tracks == state.outer_tracks
            &&& after.scope.depth == state.scope.depth
            &&& after.scope.track_depth == state.scope.track_depth
        },
{
    let all = seq![open] + inside + seq![close];
    assert(all.drop_last() == seq![open] + inside);
    lemma_run_front(state, seq![open] + inside);
    assert((seq![open] + inside).skip(1) == inside);
    lemma_step_scope(state, open);
    lemma_scope_depths(state.scope, Element::Track);
    lemma_step_outer_tracks(state, open);
    if let Ok((opened, _)) = parser::release_stepped(state, open) {
        lemma_outer_tracks(opened, inside);
        law_depths_count_open_elements(opened, inside);
        if let Ok(before) = release_run(opened, inside) {
            assert(occurrences(open_elements(inside), Element::Track) == 0);
            assert(before.outer_tracks == state.outer_tracks.push(state.track)) by {
                assert(before.outer_tracks.take(before.outer_tracks.len() as int)
                    == before.outer_tracks);
            }
            assert(before.outer_tracks.drop_last() == state.outer_tracks);
            lemma_step_scope(before, close);
            lemma_scope_depths(before.scope, Element::Track);
            reveal(parser::release_close);
            reveal(parser::track_close);
        }
    }
}

proof fn lemma_run_front(state: ReleaseParserView, events: Seq<EventView>)
    requires
        events.len() > 0,
    ensures
        release_run(state, events) == (match parser::release_stepped(state, events[0]) {
            Err(error) => Err(error),
            Ok((after, _)) => release_run(after, events.skip(1)),
        }),
    decreases events.len(),
{
    if events.len() == 1 {
        assert(events.drop_last() == Seq::<EventView>::empty());
        assert(events.skip(1) == Seq::<EventView>::empty());
        assert(release_run(state, events.drop_last()) == Ok::<_, error::ErrorView>(state));
    } else {
        lemma_run_front(state, events.drop_last());
        assert(events.drop_last().skip(1) == events.skip(1).drop_last());
    }
}

/// The results of reading a document that are the given events.
pub open spec fn as_results(events: Seq<EventView>) -> Seq<xml::EventResultView> {
    events.map_values(|event: EventView| Ok::<EventView, (Seq<char>, u64)>(event))
}

/// What is read from the events of a body, and then from what follows: where the body is
/// in order, the reading goes on from the state after it; where it is not, there is no
/// release.
proof fn lemma_body_read(
    state: ReleaseParserView,
    body: Seq<EventView>,
    rest: Seq<xml::EventResultView>,
)
    requires
        closings(body, Element::Release) == 0,
    ensures
        match release_run(state, body) {
            Ok(after) => {
                &&& parser::first_release(Some(state), as_results(body) + rest)
                    == parser::first_release(Some(after), rest)
                &&& record::records::<ReleaseParser>(Some(state), as_results(body) + rest)
                    == record::records::<ReleaseParser>(Some(after), rest)
            },
            Err(_) => {
                &&& parser::first_release(Some(state), as_results(body) + rest) is Err
                &&& record::records::<ReleaseParser>(
                    Some(state),
                    as_results(body) + rest,
                ).0.len() == 0
            },
        },
    decreases body.len(),
{
    let all = as_results(body) + rest;
    if body.len() == 0 {
        assert(all == rest);
    } else {
        lemma_run_front(state, body);
        lemma_closings_front(body, Element::Release);
        assert(all[0] == Ok::<EventView, (Seq<char>, u64)>(body[0]));
        assert(all.skip(1) == as_results(body.skip(1)) + rest);
        if let Ok((after, item)) = parser::release_stepped(state, body[0]) {
            assert(item is None);
            lemma_body_read(after, body.skip(1), rest);
        }
    }
}

proof fn lemma_closings_front(events: Seq<EventView>, element: Element)
    requires
        events.len() > 0,
    ensures
        closings(events, element) == closings(events.skip(1), element) + if closes(
            events[0],
            element,
        ) {
            1nat
        } else {
            0nat
        },
    decreases events.len(),
{
    if events.len() == 1 {
        assert(events.drop_last() == Seq::<EventView>::empty());
        assert(events.skip(1) == Seq::<EventView>::empty());
        assert(closings(events.drop_last(), element) == 0);
    } else {
        lemma_closings_front(events.drop_last(), element);
        assert(events.drop_last().skip(1) == events.skip(1).drop_last());
    }
}

/// The release that is read from a document which starts with a `<release>` element: its
/// title is that of the last `<title>` right below `<release>`, and it has a track for
/// every closing tag of a track, in their order. What stands after the element does not
/// matter, and is read on its own.
pub proof fn law_release_of_element(
    open: EventView,
    body: Seq<EventView>,
    close: EventView,
    rest: Seq<xml::EventResultView>,
)
    requires
        open.kind is OpenTag,
        xml::tag_element(open.content) == Element::Release,
        closes(close, Element::Release),
        closings(body, Element::Release) == 0,
    ensures
        ({
            let document = seq![Ok::<EventView, (Seq<char>, u64)>(open)] + as_results(body) + seq![
                Ok::<EventView, (Seq<char>, u64)>(close),
            ] + rest;
            let read = record::records::<ReleaseParser>(None, document);
            let others = record::records::<ReleaseParser>(None, rest);
            parser::first_release(None, document) matches Ok(release) ==> {
                &&& read == (seq![release] + others.0, others.1)
                &&& parser::release_attributes(open.kind->OpenTag_0) == Ok::<_, error::ErrorView>(
                    (release.id, release.status),
                )
                &&& release.tracks.len() == closings(body, Element::Track)
                &&& forall|n: int|
                    0 <= n < body.len() && closes(#[trigger] body[n], Element::Track)
                        ==> release.tracks[closings(body.take(n), Element::Track) as int]
                        == release_run(
                        parser::release_opened(release.id, release.status),
                        body.take(n),
                    )->Ok_0.track
                &&& well_nested(body) && deepest(body) <= u32::MAX && videos_stay_apart(body)
                    ==> release.title == own_title(body)
            }
        }),
{
    let tail = seq![Ok::<EventView, (Seq<char>, u64)>(close)] + rest;
    let document = seq![Ok::<EventView, (Seq<char>, u64)>(open)] + as_results(body) + seq![
        Ok::<EventView, (Seq<char>, u64)>(close),
    ] + rest;
    assert(document[0] == Ok::<EventView, (Seq<char>, u64)>(open));
    assert(document.skip(1) == as_results(body) + tail);
    assert(tail[0] == Ok::<EventView, (Seq<char>, u64)>(close));
    assert(tail.skip(1) == rest);
    if let Ok((id, status)) = parser::release_attributes(open.kind->OpenTag_0) {
        let start = parser::release_opened(id, status);
        lemma_body_read(start, body, tail);
        law_tracks_of_body(id, status, body);
        lemma_id_and_status(start, body);
        if well_nested(body) && deepest(body) <= u32::MAX && videos_stay_apart(body) {
            law_title_of_body(id, status, body);
        }
    }
}

/// What stands before and between releases does not matter: events that open no release
/// and do not end the document are passed over.
pub proof fn law_other_events_are_passed_over(
    events: Seq<EventView>,
    rest: Seq<xml::EventResultView>,
)
    requires
        forall|i: int|
            0 <= i < events.len() ==> !opens(#[trigger] events[i], Element::Release)
                && !(events[i].kind is EndOfInput),
    ensures
        parser::first_release(None, as_results(events) + rest) == parser::first_release(None, rest),
        record::records::<ReleaseParser>(None, as_results(events) + rest) == record::records::<
            ReleaseParser,
        >(None, rest),
    decreases events.len(),
{
    let all = as_results(events) + rest;
    if events.len() == 0 {
        assert(all == rest);
    } else {
        assert(all[0] == Ok::<EventView, (Seq<char>, u64)>(events[0]));
        assert(all.skip(1) == as_results(events.skip(1)) + rest);
        law_other_events_are_passed_over(events.skip(1), rest);
    }
}

proof fn lemma_id_and_status(state: ReleaseParserView, events: Seq<EventView>)
    ensures
        release_run(state, events) matches Ok(after) ==> after.release.id == state.release.id
            && after.release.status == state.release.status,
    decreases events.len(),
{
    if events.len() > 0 {
        lemma_id_and_status(state, events.drop_last());
        if let Ok(before) = release_run(state, events.drop_last()) {
            crate::parser_laws::law_id_and_status_stay(before, events.last());
        }
    }
}

/// Whether an event is the opening tag of the given element.
pub open spec fn opens(event: EventView, element: Element) -> bool {
    event.kind is OpenTag && xml::tag_element(event.content) == element
}

/// The number of opening tags of an element.
pub open spec fn openings(events: Seq<EventView>, element: Element) -> nat
    decreases events.len(),
{
    if events.len() == 0 {
        0
    } else {
        openings(events.drop_last(), element) + if opens(events.last(), element) {
            1nat
        } else {
            0nat
        }
    }
}

/// Whether an event opens or closes the given element.
pub open spec fn tag_of(event: EventView, element: Element) -> bool {
    opens(event, element) || closes(event, element)
}

/// Whether a sequence of events is inside one list of artist credits: no list of credits
/// begins or ends there, and no `<artist>` is inside an `<artist>`.
pub open spec fn inside_credit_list(events: Seq<EventView>) -> bool
    decreases events.len(),
{
    events.len() > 0 ==> {
        let before = events.drop_last();
        let event = events.last();
        let open = openings(before, Element::Artist);
        let closed = closings(before, Element::Artist);
        &&& inside_credit_list(before)
        &&& keeps_credit_list(event)
        &&& opens(event, Element::Artist) ==> open == closed
        &&& closes(event, Element::Artist) ==> open == closed + 1
    }
}

/// Whether an event neither begins nor ends a list of artist credits.
pub open spec fn keeps_credit_list(event: EventView) -> bool {
    &&& !tag_of(event, Element::Artists)
    &&& !tag_of(event, Element::ExtraArtists)
}

proof fn lemma_credit_scope(scope: parser::Scope, element: Element)
    requires
        scope.credits(),
        !scope.track_credits(),
        element != Element::Artists,
        element != Element::ExtraArtists,
    ensures
        ({
            let opened = parser::scope_open(scope, element);
            let closed = parser::scope_close(scope, element);
            &&& opened.in_artists == scope.in_artists
            &&& opened.in_extraartists == scope.in_extraartists
            &&& opened.in_track_artists == scope.in_track_artists
            &&& opened.in_track_extraartists == scope.in_track_extraartists
            &&& opened.artist_position == (if element == Element::Artist {
                parser::next(scope.artist_position)
            } else {
                scope.artist_position
            })
            &&& closed.in_artists == scope.in_artists
            &&& closed.in_extraartists == scope.in_extraartists
            &&& closed.in_track_artists == scope.in_track_artists
            &&& closed.in_track_extraartists == scope.in_track_extraartists
            &&& closed.artist_position == scope.artist_position
        }),
{
    reveal(parser::scope_open);
    reveal(parser::scope_close);
}

proof fn lemma_credit_open(
    state: ReleaseParserView,
    element: Element,
    items: Seq<xml::AttributeView>,
)
    requires
        state.scope.credits(),
        !state.scope.track_credits(),
        element != Element::Artists,
        element != Element::ExtraArtists,
    ensures
        parser::release_open(state, element, items) matches Ok(after) ==> {
            &&& after.artist.position == (if element == Element::Artist {
                parser::next(state.scope.artist_position)
            } else {
                state.artist.position
            })
            &&& after.release.artists == state.release.artists
            &&& after.release.extra_artists == state.release.extra_artists
        },
{
    lemma_credit_scope(state.scope, element);
    reveal(parser::release_open);
    reveal(parser::release_attachment);
}

proof fn lemma_credit_close(state: ReleaseParserView, element: Element)
    requires
        state.scope.credits(),
        !state.scope.track_credits(),
        element != Element::Artists,
        element != Element::ExtraArtists,
    ensures
        ({
            let after = parser::release_close(state, element);
            &&& element != Element::Artist ==> after.artist.position == state.artist.position
            &&& after.release.artists == (if element == Element::Artist
                && state.scope.in_artists {
                state.release.artists.push(state.artist)
            } else {
                state.release.artists
            })
            &&& after.release.extra_artists == (if element == Element::Artist
                && !state.scope.in_artists {
                state.release.extra_artists.push(state.artist)
            } else {
                state.release.extra_artists
            })
        }),
{
    lemma_credit_scope(state.scope, element);
    reveal(parser::release_close);
    reveal(parser::release_field);
    reveal(parser::credit_field);
    reveal(parser::credit_close);
    reveal(parser::track_close);
    reveal(parser::title_close);
    reveal(parser::part_close);
    reveal(parser::list_close);
}

proof fn lemma_step_credits(state: ReleaseParserView, event: EventView)
    requires
        state.scope.credits(),
        !state.scope.track_credits(),
        keeps_credit_list(event),
    ensures
        parser::release_stepped(state, event) matches Ok((after, _)) ==> {
            &&& after.scope.in_artists == state.scope.in_artists
            &&& after.scope.in_extraartists == state.scope.in_extraartists
            &&& !after.scope.track_credits()
            &&& after.scope.artist_position == (if opens(event, Element::Artist) {
                parser::next(state.scope.artist_position)
            } else {
                state.scope.artist_position
            })
            &&& opens(event, Element::Artist) ==> after.artist.position
                == after.scope.artist_position
            &&& !tag_of(event, Element::Artist) ==> after.artist.position == state.artist.position
            &&& after.release.artists == (if closes(event, Element::Artist)
                && state.scope.in_artists {
                state.release.artists.push(state.artist)
            } else {
                state.release.artists
            })
            &&& after.release.extra_artists == (if closes(event, Element::Artist)
                && !state.scope.in_artists {
                state.release.extra_artists.push(state.artist)
            } else {
                state.release.extra_artists
            })
        },
{
    lemma_step_scope(state, event);
    match event.kind {
        xml::EventKindView::OpenTag(items) => {
            let element = xml::tag_element(event.content);
            lemma_credit_scope(state.scope, element);
            lemma_credit_open(state, element, items);
        },
        xml::EventKindView::EmptyTag(_) => {
            reveal(parser::release_empty);
            reveal(parser::release_attachment);
        },
        xml::EventKindView::CloseTag => {
            let element = crate::element::element(event.content);
            lemma_credit_scope(state.scope, element);
            lemma_credit_close(state, element);
        },
        _ => {},
    }
}

/// The main credits of a release are numbered from one on. Its extra credits go on with
/// the numbers of the credits before them.
pub proof fn law_credit_lists_begin(scope: parser::Scope)
    requires
        scope.track_depth == 0,
        !scope.track_credits(),
    ensures
        ({
            let main = parser::scope_open(scope, Element::Artists);
            let extra = parser::scope_open(scope, Element::ExtraArtists);
            &&& !scope.in_tracklist ==> main.in_artists && main.artist_position == 0
            &&& !main.track_credits()
            &&& extra.in_extraartists && extra.artist_position == scope.artist_position
            &&& !extra.track_credits()
        }),
{
    reveal(parser::scope_open);
}

/// The credits of the list that is being read.
pub open spec fn listed_credits(state: ReleaseParserView) -> Seq<
    crate::model::ReleaseArtistView,
> {
    if state.scope.in_artists {
        state.release.artists
    } else {
        state.release.extra_artists
    }
}

/// The artist credits of a release are numbered one after another: in a list, every
/// closing tag of an `<artist>` adds a credit, and each has the number after that of the
/// one before it.
pub proof fn law_credits_are_numbered(state: ReleaseParserView, events: Seq<EventView>)
    requires
        state.scope.credits(),
        !state.scope.track_credits(),
        inside_credit_list(events),
        state.scope.artist_position + openings(events, Element::Artist) <= u32::MAX,
    ensures
        release_run(state, events) matches Ok(after) ==> {
            let first = state.scope.artist_position;
            let old_credits = listed_credits(state);
            let credits = listed_credits(after);
            &&& after.scope.in_artists == state.scope.in_artists
            &&& after.scope.in_extraartists == state.scope.in_extraartists
            &&& !after.scope.track_credits()
            &&& after.scope.artist_position == first + openings(events, Element::Artist)
            &&& openings(events, Element::Artist) > closings(events, Element::Artist)
                ==> after.artist.position == after.scope.artist_position
            &&& credits.len() == old_credits.len() + closings(events, Element::Artist)
            &&& old_credits.is_prefix_of(credits)
            &&& forall|i: int|
                old_credits.len() <= i < credits.len() ==> (#[trigger] credits[i]).position
                    == first + (i - old_credits.len()) + 1
        },
    decreases events.len(),
{
    if events.len() > 0 {
        let shorter = events.drop_last();
        law_credits_are_numbered(state, shorter);
        lemma_openings(shorter);
        if let Ok(before) = release_run(state, shorter) {
            lemma_step_credits(before, events.last());
            if let Ok(after) = release_run(state, events) {
                let old_credits = listed_credits(state);
                let earlier = listed_credits(before);
                let credits = listed_credits(after);
                assert forall|i: int| old_credits.len() <= i < credits.len() implies (
                #[trigger] credits[i]).position == state.scope.artist_position + (i
                    - old_credits.len()) + 1 by {
                    if i < earlier.len() {
                        assert(credits[i] == earlier[i]);
                    }
                }
                assert(old_credits.is_prefix_of(credits));
            }
        }
    }
}

proof fn lemma_openings(events: Seq<EventView>)
    requires
        inside_credit_list(events),
    ensures
        closings(events, Element::Artist) <= openings(events, Element::Artist) <= closings(
            events,
            Element::Artist,
        ) + 1,
    decreases events.len(),
{
    if events.len() > 0 {
        lemma_openings(events.drop_last());
    }
}

} // verus!
