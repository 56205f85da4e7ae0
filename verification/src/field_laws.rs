//! Where the values of a release come from: which texts and attributes of its element they
//! are.

use crate::body_laws::{closes, opens, release_run, tag_of, text_since_tag};
use crate::element::Element;
use crate::parser;
use crate::parser::ReleaseParserView;
use crate::text;
use crate::xml;
use crate::xml::EventView;
use vstd::prelude::*;

verus! {

/// The text of the last element of a name that ends among the events.
pub open spec fn last_text(events: Seq<EventView>, element: Element) -> Option<Seq<char>>
    decreases events.len(),
{
    if events.len() == 0 {
        None
    } else if closes(events.last(), element) {
        Some(text_since_tag(events.drop_last()))
    } else {
        last_text(events.drop_last(), element)
    }
}

/// The text of the last element of a name; empty where there is none.
pub open spec fn text_of(events: Seq<EventView>, element: Element) -> Seq<char> {
    match last_text(events, element) {
        Some(text) => text,
        None => Seq::empty(),
    }
}

/// The number in the last element of a name, with white space around it; zero where there
/// is none.
pub open spec fn number_of(events: Seq<EventView>, element: Element) -> u64 {
    match last_text(events, element) {
        Some(text) => parser::number_u64(text::trimmed(text)),
        None => 0,
    }
}

/// Whether events begin with the opening tag of an element, and none of the others opens or
/// closes one of the given elements.
pub open spec fn begins(
    events: Seq<EventView>,
    element: Element,
    others: Seq<Element>,
) -> bool {
    &&& events.len() > 0
    &&& opens(events[0], element)
    &&& forall|i: int, e: int|
        #![trigger events[i], others[e]]
        0 < i < events.len() && 0 <= e < others.len() ==> !tag_of(events[i], others[e])
}

pub proof fn lemma_begins(events: Seq<EventView>, element: Element, others: Seq<Element>)
    requires
        begins(events, element, others),
        events.len() > 1,
    ensures
        begins(events.drop_last(), element, others),
        forall|e: int| 0 <= e < others.len() ==> !tag_of(events.last(), #[trigger] others[e]),
{
    let shorter = events.drop_last();
    assert forall|i: int, e: int|
        #![trigger shorter[i], others[e]]
        0 < i < shorter.len() && 0 <= e < others.len() implies !tag_of(shorter[i], others[e]) by {
        assert(shorter[i] == events[i]);
    }
    assert(shorter[0] == events[0]);
    assert(events[events.len() - 1] == events.last());
}

/// After an opening tag the text that is collected is the text since the last tag, wherever
/// the events stand.
pub proof fn lemma_text(state: ReleaseParserView, events: Seq<EventView>)
    requires
        events.len() > 0,
        events[0].kind is OpenTag,
    ensures
        release_run(state, events) matches Ok(after) ==> after.text == text_since_tag(events),
    decreases events.len(),
{
    let shorter = events.drop_last();
    if events.len() == 1 {
        assert(shorter == Seq::<EventView>::empty());
        assert(release_run(state, shorter) == Ok::<_, crate::error::ErrorView>(state));
        crate::body_laws::lemma_step_text(state, events.last());
    } else {
        assert(shorter[0] == events[0]);
        lemma_text(state, shorter);
        if let Ok(before) = release_run(state, shorter) {
            crate::body_laws::lemma_step_text(before, events.last());
        }
    }
}

pub proof fn lemma_one(state: ReleaseParserView, events: Seq<EventView>)
    requires
        events.len() == 1,
    ensures
        release_run(state, events) == (match parser::release_stepped(state, events[0]) {
            Err(error) => Err(error),
            Ok((after, _)) => Ok(after),
        }),
{
    assert(events.drop_last() == Seq::<EventView>::empty());
    assert(release_run(state, events.drop_last()) == Ok::<_, crate::error::ErrorView>(state));
}

// Artist credits of the release.

/// Whether the reader is in a list of artist credits of the release, and not in a company.
pub open spec fn in_credits(scope: parser::Scope) -> bool {
    &&& scope.in_artists || scope.in_extraartists
    &&& !scope.in_track_artists && !scope.in_track_extraartists
    &&& !(scope.in_companies && scope.in_company)
}

/// The elements that begin or end a credit, a list of credits or a company.
pub open spec fn credit_bounds() -> Seq<Element> {
    seq![
        Element::Artist,
        Element::Artists,
        Element::ExtraArtists,
        Element::Company,
        Element::Companies,
    ]
}

spec fn same_credit_scope(a: parser::Scope, b: parser::Scope) -> bool {
    &&& a.in_artists == b.in_artists
    &&& a.in_extraartists == b.in_extraartists
    &&& a.in_track_artists == b.in_track_artists
    &&& a.in_track_extraartists == b.in_track_extraartists
    &&& a.in_companies == b.in_companies
    &&& a.in_company == b.in_company
}

proof fn lemma_credit_scope(scope: parser::Scope, element: Element)
    requires
        element != Element::Artists,
        element != Element::ExtraArtists,
        element != Element::Company,
        element != Element::Companies,
    ensures
        same_credit_scope(parser::scope_open(scope, element), scope),
        same_credit_scope(parser::scope_close(scope, element), scope),
{
    reveal(parser::scope_open);
    reveal(parser::scope_close);
}

spec fn credit_field_set(
    before: ReleaseParserView,
    after: ReleaseParserView,
    event: EventView,
) -> bool {
    let a = before.artist;
    let b = after.artist;
    &&& b.artist_id == (if closes(event, Element::Id) {
        parser::number_u64(text::trimmed(before.text))
    } else {
        a.artist_id
    })
    &&& b.name == (if closes(event, Element::Name) {
        before.text
    } else {
        a.name
    })
    &&& b.anv == (if closes(event, Element::Anv) {
        before.text
    } else {
        a.anv
    })
    &&& b.join_field == (if closes(event, Element::Join) {
        before.text
    } else {
        a.join_field
    })
    &&& after.release.artists == before.release.artists
    &&& after.release.extra_artists == before.release.extra_artists
}

proof fn lemma_credit_close(state: ReleaseParserView, element: Element)
    requires
        in_credits(state.scope),
        !credit_bounds().contains(element),
    ensures
        ({
            let after = parser::release_close(state, element);
            let a = state.artist;
            let b = after.artist;
            &&& b.artist_id == (if element == Element::Id {
                parser::number_u64(text::trimmed(state.text))
            } else {
                a.artist_id
            })
            &&& b.name == (if element == Element::Name {
                state.text
            } else {
                a.name
            })
            &&& b.anv == (if element == Element::Anv {
                state.text
            } else {
                a.anv
            })
            &&& b.join_field == (if element == Element::Join {
                state.text
            } else {
                a.join_field
            })
            &&& after.release.artists == state.release.artists
            &&& after.release.extra_artists == state.release.extra_artists
        }),
{
    lemma_credit_bounds();
    lemma_credit_scope(state.scope, element);
    reveal(parser::release_close);
    reveal(parser::release_field);
    reveal(parser::credit_field);
    reveal(parser::track_close);
    reveal(parser::title_close);
    reveal(parser::part_close);
    reveal(parser::list_close);
}

proof fn lemma_credit_bounds()
    ensures
        forall|element: Element|
            #[trigger] credit_bounds().contains(element) <==> element == Element::Artist || element
                == Element::Artists || element == Element::ExtraArtists || element
                == Element::Company || element == Element::Companies,
{
    let bounds = credit_bounds();
    assert(bounds[0] == Element::Artist && bounds[1] == Element::Artists && bounds[2]
        == Element::ExtraArtists && bounds[3] == Element::Company && bounds[4]
        == Element::Companies);
}

proof fn lemma_credit_other(
    state: ReleaseParserView,
    element: Element,
    items: Seq<xml::AttributeView>,
)
    requires
        in_credits(state.scope),
    ensures
        !credit_bounds().contains(element) ==> (parser::release_open(state, element, items) matches Ok(
            after,
        ) ==> after.artist == state.artist && after.release.artists == state.release.artists
            && after.release.extra_artists == state.release.extra_artists),
        parser::release_empty(state, element, items) matches Ok(after) ==> after.artist
            == state.artist && after.scope == state.scope && after.release.artists
            == state.release.artists && after.release.extra_artists == state.release.extra_artists,
{
    lemma_credit_bounds();
    reveal(parser::release_open);
    reveal(parser::release_empty);
    reveal(parser::release_attachment);
}

proof fn lemma_credit_event(state: ReleaseParserView, event: EventView)
    requires
        in_credits(state.scope),
        forall|e: int|
            0 <= e < credit_bounds().len() ==> !tag_of(event, #[trigger] credit_bounds()[e]),
    ensures
        parser::release_stepped(state, event) matches Ok((after, _)) ==> credit_field_set(
            state,
            after,
            event,
        ) && same_credit_scope(after.scope, state.scope),
{
    crate::body_laws::lemma_step_scope(state, event);
    lemma_credit_bounds();
    let bounds = credit_bounds();
    match event.kind {
        xml::EventKindView::OpenTag(items) => {
            let element = xml::tag_element(event.content);
            assert(!bounds.contains(element)) by {
                if bounds.contains(element) {
                    let e = choose|e: int| 0 <= e < bounds.len() && bounds[e] == element;
                    assert(tag_of(event, bounds[e]));
                }
            }
            lemma_credit_scope(state.scope, element);
            lemma_credit_other(state, element, items);
        },
        xml::EventKindView::EmptyTag(items) => {
            lemma_credit_other(state, xml::tag_element(event.content), items);
        },
        xml::EventKindView::CloseTag => {
            let element = crate::element::element(event.content);
            assert(!bounds.contains(element)) by {
                if bounds.contains(element) {
                    let e = choose|e: int| 0 <= e < bounds.len() && bounds[e] == element;
                    assert(tag_of(event, bounds[e]));
                }
            }
            lemma_credit_scope(state.scope, element);
            lemma_credit_close(state, element);
        },
        _ => {},
    }
}

proof fn lemma_credit_begins(state: ReleaseParserView, open: EventView)
    requires
        in_credits(state.scope),
        opens(open, Element::Artist),
    ensures
        parser::release_stepped(state, open) matches Ok((after, _)) ==> {
            &&& same_credit_scope(after.scope, state.scope)
            &&& after.artist.artist_id == 0
            &&& after.artist.name == Seq::<char>::empty()
            &&& after.artist.anv == Seq::<char>::empty()
            &&& after.artist.join_field == Seq::<char>::empty()
            &&& after.release.artists == state.release.artists
            &&& after.release.extra_artists == state.release.extra_artists
        },
{
    lemma_credit_scope(state.scope, Element::Artist);
    reveal(parser::release_open);
}

proof fn lemma_credit_inside(state: ReleaseParserView, events: Seq<EventView>)
    requires
        in_credits(state.scope),
        begins(events, Element::Artist, credit_bounds()),
    ensures
        release_run(state, events) matches Ok(after) ==> {
            &&& same_credit_scope(after.scope, state.scope)
            &&& after.artist.artist_id == number_of(events, Element::Id)
            &&& after.artist.name == text_of(events, Element::Name)
            &&& after.artist.anv == text_of(events, Element::Anv)
            &&& after.artist.join_field == text_of(events, Element::Join)
            &&& after.release.artists == state.release.artists
            &&& after.release.extra_artists == state.release.extra_artists
        },
    decreases events.len(),
{
    let shorter = events.drop_last();
    if events.len() == 1 {
        lemma_one(state, events);
        lemma_credit_begins(state, events[0]);
        assert(shorter == Seq::<EventView>::empty());
        lemma_first_has_no_text(events);
    } else {
        lemma_begins(events, Element::Artist, credit_bounds());
        lemma_credit_inside(state, shorter);
        lemma_text(state, shorter);
        if let Ok(before) = release_run(state, shorter) {
            lemma_credit_event(before, events.last());
        }
    }
}

pub proof fn lemma_first_has_no_text(events: Seq<EventView>)
    requires
        events.len() == 1,
        events[0].kind is OpenTag,
    ensures
        forall|element: Element| #[trigger] last_text(events, element) is None,
{
    assert forall|element: Element| #[trigger] last_text(events, element) is None by {
        assert(events.last() == events[0]);
        assert(events.drop_last() == Seq::<EventView>::empty());
        assert(last_text(events.drop_last(), element) is None);
    }
}

/// Every `<artist>` in the main or the extra credits of a release gives a credit at its
/// closing tag. Its name, name variation and joining word are the texts of the last
/// `<name>`, `<anv>` and `<join>` inside it, and its id is the number in the last `<id>`.
pub proof fn law_credit_values(
    state: ReleaseParserView,
    events: Seq<EventView>,
    close: EventView,
)
    requires
        in_credits(state.scope),
        begins(events, Element::Artist, credit_bounds()),
        closes(close, Element::Artist),
    ensures
        release_run(state, events.push(close)) matches Ok(after) ==> {
            let added = if state.scope.in_artists {
                after.release.artists
            } else {
                after.release.extra_artists
            };
            &&& state.scope.in_artists ==> after.release.artists.drop_last()
                == state.release.artists && after.release.extra_artists
                == state.release.extra_artists
            &&& !state.scope.in_artists ==> after.release.extra_artists.drop_last()
                == state.release.extra_artists && after.release.artists == state.release.artists
            &&& added.len() > 0
            &&& added.last().name == text_of(events, Element::Name)
            &&& added.last().anv == text_of(events, Element::Anv)
            &&& added.last().join_field == text_of(events, Element::Join)
            &&& added.last().artist_id == number_of(events, Element::Id)
        },
{
    let all = events.push(close);
    assert(all.drop_last() == events);
    lemma_credit_inside(state, events);
    if let Ok(before) = release_run(state, events) {
        lemma_credit_ends(before, close);
        assert(before.release.artists.push(before.artist).drop_last() == before.release.artists);
        assert(before.release.extra_artists.push(before.artist).drop_last()
            == before.release.extra_artists);
    }
}

proof fn lemma_credit_ends(state: ReleaseParserView, close: EventView)
    requires
        in_credits(state.scope),
        closes(close, Element::Artist),
    ensures
        parser::release_stepped(state, close) matches Ok((after, _)) ==> {
            &&& state.scope.in_artists ==> after.release.artists == state.release.artists.push(
                state.artist,
            ) && after.release.extra_artists == state.release.extra_artists
            &&& !state.scope.in_artists ==> after.release.extra_artists
                == state.release.extra_artists.push(state.artist) && after.release.artists
                == state.release.artists
        },
{
    lemma_credit_scope(state.scope, Element::Artist);
    reveal(parser::release_close);
    reveal(parser::credit_close);
}

// Artist credits of a track.

/// Whether the reader is in a list of artist credits of a track, and not in a company.
pub open spec fn in_track_credits(scope: parser::Scope) -> bool {
    &&& scope.in_track_artists || scope.in_track_extraartists
    &&& !(scope.in_companies && scope.in_company)
}

proof fn lemma_track_credit_close(state: ReleaseParserView, element: Element)
    requires
        in_track_credits(state.scope),
        !credit_bounds().contains(element),
        element != Element::Track,
    ensures
        ({
            let after = parser::release_close(state, element);
            &&& after.track_artist.name == (if element == Element::Name {
                state.text
            } else {
                state.track_artist.name
            })
            &&& after.track_artist.role == (if element == Element::Role
                && state.scope.in_track_extraartists {
                state.text
            } else {
                state.track_artist.role
            })
            &&& after.track.artists == state.track.artists
            &&& after.track.extra_artists == state.track.extra_artists
        }),
{
    lemma_credit_bounds();
    lemma_credit_scope(state.scope, element);
    reveal(parser::release_close);
    reveal(parser::release_field);
    reveal(parser::title_close);
    reveal(parser::track_field);
    reveal(parser::part_close);
    reveal(parser::list_close);
}

proof fn lemma_track_credit_other(
    state: ReleaseParserView,
    element: Element,
    items: Seq<xml::AttributeView>,
)
    ensures
        element != Element::Artist && element != Element::Track ==> (parser::release_open(
            state,
            element,
            items,
        ) matches Ok(after) ==> after.track_artist == state.track_artist && after.track
            == state.track),
        parser::release_empty(state, element, items) matches Ok(after) ==> after.track_artist
            == state.track_artist && after.scope == state.scope && after.track == state.track,
{
    reveal(parser::release_open);
    reveal(parser::release_empty);
}

/// The elements that begin or end a credit, a list of credits, a track or a company.
pub open spec fn track_credit_bounds() -> Seq<Element> {
    credit_bounds().push(Element::Track)
}

proof fn lemma_track_credit_event(state: ReleaseParserView, event: EventView)
    requires
        in_track_credits(state.scope),
        forall|e: int|
            0 <= e < track_credit_bounds().len() ==> !tag_of(
                event,
                #[trigger] track_credit_bounds()[e],
            ),
    ensures
        parser::release_stepped(state, event) matches Ok((after, _)) ==> {
            &&& same_credit_scope(after.scope, state.scope)
            &&& after.track_artist.name == (if closes(event, Element::Name) {
                state.text
            } else {
                state.track_artist.name
            })
            &&& after.track_artist.role == (if closes(event, Element::Role)
                && state.scope.in_track_extraartists {
                state.text
            } else {
                state.track_artist.role
            })
            &&& after.track.artists == state.track.artists
            &&& after.track.extra_artists == state.track.extra_artists
        },
{
    crate::body_laws::lemma_step_scope(state, event);
    let bounds = track_credit_bounds();
    lemma_credit_bounds();
    assert(bounds[5] == Element::Track);
    assert forall|element: Element| credit_bounds().contains(element) || element
        == Element::Track implies !#[trigger] tag_of(event, element) by {
        if credit_bounds().contains(element) {
            let e = choose|e: int| 0 <= e < credit_bounds().len() && credit_bounds()[e] == element;
            assert(bounds[e] == element);
        }
    }
    match event.kind {
        xml::EventKindView::OpenTag(items) => {
            let element = xml::tag_element(event.content);
            assert(tag_of(event, element));
            lemma_credit_scope(state.scope, element);
            lemma_track_credit_other(state, element, items);
        },
        xml::EventKindView::EmptyTag(items) => {
            lemma_track_credit_other(state, xml::tag_element(event.content), items);
        },
        xml::EventKindView::CloseTag => {
            let element = crate::element::element(event.content);
            assert(tag_of(event, element));
            lemma_credit_scope(state.scope, element);
            lemma_track_credit_close(state, element);
        },
        _ => {},
    }
}

proof fn lemma_track_credit_inside(state: ReleaseParserView, events: Seq<EventView>)
    requires
        in_track_credits(state.scope),
        begins(events, Element::Artist, track_credit_bounds()),
    ensures
        release_run(state, events) matches Ok(after) ==> {
            &&& same_credit_scope(after.scope, state.scope)
            &&& after.track_artist.name == text_of(events, Element::Name)
            &&& after.track_artist.role == (if state.scope.in_track_extraartists {
                text_of(events, Element::Role)
            } else {
                Seq::empty()
            })
            &&& after.track.artists == state.track.artists
            &&& after.track.extra_artists == state.track.extra_artists
        },
    decreases events.len(),
{
    let shorter = events.drop_last();
    if events.len() == 1 {
        lemma_one(state, events);
        lemma_credit_scope(state.scope, Element::Artist);
        reveal(parser::release_open);
        assert(shorter == Seq::<EventView>::empty());
        lemma_first_has_no_text(events);
    } else {
        lemma_begins(events, Element::Artist, track_credit_bounds());
        lemma_track_credit_inside(state, shorter);
        lemma_text(state, shorter);
        if let Ok(before) = release_run(state, shorter) {
            lemma_track_credit_event(before, events.last());
        }
    }
}

/// Every `<artist>` in the credits of a track gives a credit of the track at its closing
/// tag, with the text of the last `<name>` inside it. An extra credit has as its role the
/// text of the last `<role>`; a main credit has none.
pub proof fn law_track_credit_values(
    state: ReleaseParserView,
    events: Seq<EventView>,
    close: EventView,
)
    requires
        in_track_credits(state.scope),
        begins(events, Element::Artist, track_credit_bounds()),
        closes(close, Element::Artist),
    ensures
        release_run(state, events.push(close)) matches Ok(after) ==> {
            let added = if state.scope.in_track_artists {
                after.track.artists
            } else {
                after.track.extra_artists
            };
            &&& state.scope.in_track_artists ==> after.track.artists.drop_last()
                == state.track.artists && after.track.extra_artists == state.track.extra_artists
            &&& !state.scope.in_track_artists ==> after.track.extra_artists.drop_last()
                == state.track.extra_artists && after.track.artists == state.track.artists
            &&& added.len() > 0
            &&& added.last().name == text_of(events, Element::Name)
            &&& added.last().role == (if state.scope.in_track_extraartists {
                text_of(events, Element::Role)
            } else {
                Seq::empty()
            })
        },
{
    let all = events.push(close);
    assert(all.drop_last() == events);
    lemma_track_credit_inside(state, events);
    if let Ok(before) = release_run(state, events) {
        lemma_credit_scope(before.scope, Element::Artist);
        reveal(parser::release_close);
        reveal(parser::credit_close);
        assert(before.track.artists.push(before.track_artist).drop_last()
            == before.track.artists);
        assert(before.track.extra_artists.push(before.track_artist).drop_last()
            == before.track.extra_artists);
    }
}

} // verus!
