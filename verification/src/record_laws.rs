//! Where the values of artists, labels and master releases come from.

use crate::artist_model;
use crate::artist_parser;
use crate::artist_parser::ArtistParserView;
use crate::body_laws::{closes, opens, text_since_tag};
use crate::element::Element;
use crate::error;
use crate::field_laws::{begins, last_text, lemma_begins, number_of};
use crate::label_parser;
use crate::label_parser::LabelParserView;
use crate::master_parser;
use crate::master_parser::MasterParserView;
use crate::parser;
use crate::part_laws;
use crate::text;
use crate::xml;
use crate::xml::EventView;
use vstd::prelude::*;

verus! {

/// Whether the last tag of an element is an opening one.
pub open spec fn inside(events: Seq<EventView>, element: Element) -> bool
    decreases events.len(),
{
    events.len() > 0 && if opens(events.last(), element) {
        true
    } else if closes(events.last(), element) {
        false
    } else {
        inside(events.drop_last(), element)
    }
}

/// The text since the last tag, without the white space around it.
pub open spec fn own_text(events: Seq<EventView>) -> Seq<char> {
    text::trimmed(text_since_tag(events))
}

/// The text of the last element of a name that ends where a condition holds of the events
/// before its end, without the white space around it; empty where there is none.
pub open spec fn last_where(
    events: Seq<EventView>,
    element: Element,
    when: spec_fn(Seq<EventView>) -> bool,
) -> Option<Seq<char>>
    decreases events.len(),
{
    if events.len() == 0 {
        None
    } else if closes(events.last(), element) && when(events.drop_last()) {
        Some(own_text(events.drop_last()))
    } else {
        last_where(events.drop_last(), element, when)
    }
}

/// The text of the last such element; empty where there is none.
pub open spec fn text_where(
    events: Seq<EventView>,
    element: Element,
    when: spec_fn(Seq<EventView>) -> bool,
) -> Seq<char> {
    match last_where(events, element, when) {
        Some(text) => text,
        None => Seq::empty(),
    }
}

/// The number in the last such element; zero where there is none.
pub open spec fn number_where(
    events: Seq<EventView>,
    element: Element,
    when: spec_fn(Seq<EventView>) -> bool,
) -> u64 {
    match last_where(events, element, when) {
        Some(text) => parser::number_u64(text),
        None => 0,
    }
}

/// The texts of all such elements, in order.
pub open spec fn all_where(
    events: Seq<EventView>,
    element: Element,
    when: spec_fn(Seq<EventView>) -> bool,
) -> Seq<Seq<char>>
    decreases events.len(),
{
    if events.len() == 0 {
        Seq::empty()
    } else {
        let before = all_where(events.drop_last(), element, when);
        if closes(events.last(), element) && when(events.drop_last()) {
            before.push(own_text(events.drop_last()))
        } else {
            before
        }
    }
}

// Artists.

/// The state after a sequence of events inside `<artist>`.
pub open spec fn artist_run(state: ArtistParserView, events: Seq<EventView>) -> Result<
    ArtistParserView,
    error::ErrorView,
>
    decreases events.len(),
{
    if events.len() == 0 {
        Ok(state)
    } else {
        match artist_run(state, events.drop_last()) {
            Err(error) => Err(error),
            Ok(before) => match artist_parser::artist_stepped(before, events.last()) {
                Err(error) => Err(error),
                Ok((after, _)) => Ok(after),
            },
        }
    }
}

/// Outside of the name variations, the aliases and the members.
pub open spec fn outside_lists() -> spec_fn(Seq<EventView>) -> bool {
    |events: Seq<EventView>|
        !inside(events, Element::NameVariations) && !inside(events, Element::Aliases) && !inside(
            events,
            Element::Members,
        )
}

/// A text that is not blank, outside of the name variations, the aliases and the members.
pub open spec fn named_outside_lists() -> spec_fn(Seq<EventView>) -> bool {
    |events: Seq<EventView>| outside_lists()(events) && own_text(events).len() > 0
}

/// A text that is not blank, in the name variations.
pub open spec fn named_in_variations() -> spec_fn(Seq<EventView>) -> bool {
    |events: Seq<EventView>|
        inside(events, Element::NameVariations) && own_text(events).len() > 0
}

/// A text that is not blank, in the aliases.
pub open spec fn named_in_aliases() -> spec_fn(Seq<EventView>) -> bool {
    |events: Seq<EventView>|
        inside(events, Element::Aliases) && !inside(events, Element::NameVariations) && own_text(
            events,
        ).len() > 0
}

/// A text that is not blank, in the members.
pub open spec fn named_in_members() -> spec_fn(Seq<EventView>) -> bool {
    |events: Seq<EventView>|
        inside(events, Element::Members) && !inside(events, Element::Aliases) && !inside(
            events,
            Element::NameVariations,
        ) && own_text(events).len() > 0
}

/// A text that is not blank, in the links.
pub open spec fn linked() -> spec_fn(Seq<EventView>) -> bool {
    |events: Seq<EventView>| inside(events, Element::Urls) && own_text(events).len() > 0
}

/// The names of the members of an artist.
pub open spec fn member_names(artist: artist_model::ArtistView) -> Seq<Seq<char>> {
    artist.members.map_values(|member: artist_model::MemberView| member.name)
}

spec fn artist_follows(state: ArtistParserView, events: Seq<EventView>) -> bool {
    let artist = state.artist;
    &&& state.text == text_since_tag(events)
    &&& state.in_namevariations == inside(events, Element::NameVariations)
    &&& state.in_aliases == inside(events, Element::Aliases)
    &&& state.in_members == inside(events, Element::Members)
    &&& state.in_urls == inside(events, Element::Urls)
    &&& artist.id == number_where(events, Element::Id, outside_lists())
    &&& artist.name == text_where(events, Element::Name, named_outside_lists())
    &&& artist.profile == text_where(events, Element::Profile, outside_lists())
    &&& artist.name_variations == all_where(events, Element::Name, named_in_variations())
    &&& artist.aliases == all_where(events, Element::Name, named_in_aliases())
    &&& member_names(artist) == all_where(events, Element::Name, named_in_members())
    &&& artist.urls == all_where(events, Element::Url, linked())
}

proof fn lemma_artist_step(
    state: ArtistParserView,
    after: ArtistParserView,
    shorter: Seq<EventView>,
    events: Seq<EventView>,
)
    requires
        events.len() > 0,
        shorter == events.drop_last(),
        artist_follows(state, shorter),
        !closes(events.last(), Element::Artist),
        artist_parser::artist_stepped(state, events.last()) matches Ok((s, _)) && s == after,
    ensures
        artist_follows(after, events),
{
    reveal(artist_parser::artist_open);
    reveal(artist_parser::artist_close);
    reveal(artist_parser::artist_name);
    assert(outside_lists()(shorter) == (!state.in_namevariations && !state.in_aliases
        && !state.in_members));
    let member = artist_model::MemberView { id: state.member_id, name: own_text(shorter) };
    assert(state.artist.members.push(member).map_values(
        |member: artist_model::MemberView| member.name,
    ) == member_names(state.artist).push(member.name));
}

/// An artist has the number of the last `<id>` and the texts of the last `<name>` that is
/// not blank and of the last `<profile>`, where they stand outside of its lists. Every
/// `<name>` in the name variations, the aliases or the members, and every `<url>` in the
/// links, that is not blank is listed there, in order.
pub proof fn law_artist_of_body(events: Seq<EventView>)
    requires
        forall|i: int| 0 <= i < events.len() ==> !closes(#[trigger] events[i], Element::Artist),
    ensures
        artist_run(artist_parser::artist_opened(), events) matches Ok(after) ==> {
            let artist = after.artist;
            &&& artist.id == number_where(events, Element::Id, outside_lists())
            &&& artist.name == text_where(events, Element::Name, named_outside_lists())
            &&& artist.profile == text_where(events, Element::Profile, outside_lists())
            &&& artist.name_variations == all_where(events, Element::Name, named_in_variations())
            &&& artist.aliases == all_where(events, Element::Name, named_in_aliases())
            &&& member_names(artist) == all_where(events, Element::Name, named_in_members())
            &&& artist.urls == all_where(events, Element::Url, linked())
        },
{
    lemma_artist_run(events);
}

proof fn lemma_artist_run(events: Seq<EventView>)
    requires
        forall|i: int| 0 <= i < events.len() ==> !closes(#[trigger] events[i], Element::Artist),
    ensures
        artist_run(artist_parser::artist_opened(), events) matches Ok(after) ==> artist_follows(
            after,
            events,
        ),
    decreases events.len(),
{
    let start = artist_parser::artist_opened();
    if events.len() == 0 {
        assert(member_names(start.artist) == Seq::<Seq<char>>::empty());
        assert(artist_follows(start, events));
    } else {
        let shorter = events.drop_last();
        assert forall|i: int| 0 <= i < shorter.len() implies !closes(
            #[trigger] shorter[i],
            Element::Artist,
        ) by {
            assert(shorter[i] == events[i]);
        }
        assert(events[events.len() - 1] == events.last());
        lemma_artist_run(shorter);
        if let Ok(before) = artist_run(start, shorter) {
            if let Ok(after) = artist_run(start, events) {
                lemma_artist_step(before, after, shorter, events);
            }
        }
    }
}

/// A member has the id in the tag of its name, where there is one.
pub proof fn law_member_id(
    state: ArtistParserView,
    open: EventView,
    inner: ArtistParserView,
    close: EventView,
)
    requires
        state.in_members,
        !state.in_aliases,
        !state.in_namevariations,
        opens(open, Element::Name),
        artist_parser::artist_stepped(state, open) matches Ok((opened, _)) && inner == (
        ArtistParserView { text: inner.text, ..opened }),
        closes(close, Element::Name),
        text::trimmed(inner.text).len() > 0,
        part_laws::attribute_text(open.kind->OpenTag_0, "id"@) is Some,
    ensures
        artist_parser::artist_stepped(inner, close) matches Ok((after, _)) ==> {
            let members = after.artist.members;
            &&& members.len() > 0
            &&& members.drop_last() == state.artist.members
            &&& members.last().name == text::trimmed(inner.text)
            &&& members.last().id == parser::number_u64(
                part_laws::attribute_text(open.kind->OpenTag_0, "id"@)->0,
            )
        },
{
    reveal(artist_parser::artist_open);
    reveal(artist_parser::artist_close);
    reveal(artist_parser::artist_name);
    part_laws::law_attributes_by_name(open.kind->OpenTag_0, seq!["id"@]);
    let member = artist_model::MemberView { id: inner.member_id, name: text::trimmed(inner.text) };
    assert(state.artist.members.push(member).drop_last() == state.artist.members);
}

// Labels.

/// The state after a sequence of events inside `<label>`.
pub open spec fn label_run(state: LabelParserView, events: Seq<EventView>) -> Result<
    LabelParserView,
    error::ErrorView,
>
    decreases events.len(),
{
    if events.len() == 0 {
        Ok(state)
    } else {
        match label_run(state, events.drop_last()) {
            Err(error) => Err(error),
            Ok(before) => match label_parser::label_stepped(before, events.last()) {
                Err(error) => Err(error),
                Ok((after, _)) => Ok(after),
            },
        }
    }
}

/// Outside of the sublabels.
pub open spec fn outside_sublabels() -> spec_fn(Seq<EventView>) -> bool {
    |events: Seq<EventView>| !inside(events, Element::SubLabels)
}

/// Outside of the sublabels and of the parent label.
pub open spec fn outside_other_labels() -> spec_fn(Seq<EventView>) -> bool {
    |events: Seq<EventView>|
        !inside(events, Element::SubLabels) && !inside(events, Element::ParentLabel)
}

/// Anywhere.
pub open spec fn anywhere() -> spec_fn(Seq<EventView>) -> bool {
    |events: Seq<EventView>| true
}

/// The number in the `id` attribute of the last `<parentLabel>` that has one.
pub open spec fn last_parent_id(events: Seq<EventView>) -> Option<u64>
    decreases events.len(),
{
    if events.len() == 0 {
        None
    } else if opens(events.last(), Element::ParentLabel) && part_laws::attribute_text(
        events.last().kind->OpenTag_0,
        "id"@,
    ) is Some {
        Some(
            parser::number_u64(
                part_laws::attribute_text(events.last().kind->OpenTag_0, "id"@)->0,
            ),
        )
    } else {
        last_parent_id(events.drop_last())
    }
}

/// A label has the number of the last `<id>` outside of its sublabels, and the text of the
/// last `<name>` outside of its sublabels and its parent. Its parent has the text of the
/// last `<parentLabel>`, and the id in its tag.
pub proof fn law_label_of_body(events: Seq<EventView>)
    ensures
        label_run(label_parser::label_opened(), events) matches Ok(after) ==> {
            let label = after.label;
            &&& ends_inside(events) ==> {
                &&& label.id == number_where(events, Element::Id, outside_sublabels())
                &&& label.name == text_where(events, Element::Name, outside_other_labels())
                &&& label.parent_name == text_where(events, Element::ParentLabel, anywhere())
                &&& label.parent_id == last_parent_id(events)
            }
        },
    decreases events.len(),
{
    lemma_label_run(events);
}

/// Whether no event closes the label itself: a `</label>` stands in the sublabels only.
pub open spec fn ends_inside(events: Seq<EventView>) -> bool
    decreases events.len(),
{
    events.len() > 0 ==> {
        &&& ends_inside(events.drop_last())
        &&& closes(events.last(), Element::Label) ==> inside(
            events.drop_last(),
            Element::SubLabels,
        )
    }
}

spec fn label_follows(state: LabelParserView, events: Seq<EventView>) -> bool {
    &&& state.text == text_since_tag(events)
    &&& state.in_sublabels == inside(events, Element::SubLabels)
    &&& state.in_parent_label == inside(events, Element::ParentLabel)
    &&& state.label.id == number_where(events, Element::Id, outside_sublabels())
    &&& state.label.name == text_where(events, Element::Name, outside_other_labels())
    &&& state.label.parent_name == text_where(events, Element::ParentLabel, anywhere())
    &&& state.label.parent_id == last_parent_id(events)
}

proof fn lemma_label_run(events: Seq<EventView>)
    ensures
        ends_inside(events) ==> (label_run(label_parser::label_opened(), events) matches Ok(after)
            ==> label_follows(after, events)),
    decreases events.len(),
{
    let start = label_parser::label_opened();
    if events.len() == 0 {
        assert(label_follows(start, events));
    } else if ends_inside(events) {
        let shorter = events.drop_last();
        lemma_label_run(shorter);
        if let Ok(before) = label_run(start, shorter) {
            reveal(label_parser::label_open);
            reveal(label_parser::label_close);
            if let xml::EventKindView::OpenTag(items) = events.last().kind {
                part_laws::law_attributes_by_name(items, seq!["id"@]);
            }
        }
    }
}

// Master releases.

/// The state after a sequence of events inside `<master>`.
pub open spec fn master_run(state: MasterParserView, events: Seq<EventView>) -> Result<
    MasterParserView,
    error::ErrorView,
>
    decreases events.len(),
{
    if events.len() == 0 {
        Ok(state)
    } else {
        match master_run(state, events.drop_last()) {
            Err(error) => Err(error),
            Ok(before) => match master_parser::master_stepped(before, events.last()) {
                Err(error) => Err(error),
                Ok((after, _)) => Ok(after),
            },
        }
    }
}

/// Outside of the genres, the styles and the videos.
pub open spec fn outside_nested() -> spec_fn(Seq<EventView>) -> bool {
    |events: Seq<EventView>|
        !inside(events, Element::Genres) && !inside(events, Element::Styles) && !inside(
            events,
            Element::Videos,
        )
}

/// A number above zero that fits in 64 bits.
pub open spec fn numbered() -> spec_fn(Seq<EventView>) -> bool {
    |events: Seq<EventView>|
        text::unsigned_value(own_text(events), u64::MAX as nat) matches Some(n) && n > 0
}

/// A number above zero that fits in 16 bits, outside of the genres, the styles and the
/// videos.
pub open spec fn dated() -> spec_fn(Seq<EventView>) -> bool {
    |events: Seq<EventView>|
        outside_nested()(events) && (text::unsigned_value(
            own_text(events),
            u16::MAX as nat,
        ) matches Some(n) && n > 0)
}

spec fn master_follows(state: MasterParserView, events: Seq<EventView>) -> bool {
    &&& state.text == text_since_tag(events)
    &&& state.in_genres == inside(events, Element::Genres)
    &&& state.in_styles == inside(events, Element::Styles)
    &&& state.in_videos == inside(events, Element::Videos)
    &&& state.in_artists == inside(events, Element::Artists)
    &&& state.master.title == text_where(events, Element::Title, outside_nested())
    &&& match last_where(events, Element::MainRelease, numbered()) {
        Some(s) => state.master.main_release_id is Some && text::unsigned_value(
            s,
            u64::MAX as nat,
        ) == Some(state.master.main_release_id->0 as nat),
        None => state.master.main_release_id is None,
    }
    &&& match last_where(events, Element::Year, dated()) {
        Some(s) => state.master.year is Some && text::unsigned_value(s, u16::MAX as nat) == Some(
            state.master.year->0 as nat,
        ),
        None => state.master.year is None,
    }
}

proof fn lemma_master_step(
    state: MasterParserView,
    after: MasterParserView,
    shorter: Seq<EventView>,
    events: Seq<EventView>,
)
    requires
        events.len() > 0,
        shorter == events.drop_last(),
        master_follows(state, shorter),
        !closes(events.last(), Element::Master),
        master_parser::master_stepped(state, events.last()) matches Ok((s, _)) && s == after,
    ensures
        master_follows(after, events),
        after.master.id == state.master.id,
{
    reveal(master_parser::master_open);
    reveal(master_parser::master_close);
    reveal(master_parser::master_field);
    reveal(parser::number_u64);
    assert(outside_nested()(shorter) == (!state.in_genres && !state.in_styles
        && !state.in_videos));
    let s = own_text(shorter);
    assert(text::unsigned_value(s, u64::MAX as nat) matches Some(n) ==> n <= u64::MAX);
    assert(text::unsigned_value(s, u16::MAX as nat) matches Some(n) ==> n <= u16::MAX);
}

/// A master release keeps its id. It has the text of the last `<title>`, and the last year
/// above zero, outside of its genres, styles and videos, and the last main release above
/// zero.
pub proof fn law_master_of_body(id: u64, events: Seq<EventView>)
    requires
        forall|i: int| 0 <= i < events.len() ==> !closes(#[trigger] events[i], Element::Master),
    ensures
        master_run(master_parser::master_opened(id), events) matches Ok(after) ==> {
            &&& after.master.id == id
            &&& after.master.title == text_where(events, Element::Title, outside_nested())
            &&& match last_where(events, Element::MainRelease, numbered()) {
                Some(s) => after.master.main_release_id is Some && text::unsigned_value(
                    s,
                    u64::MAX as nat,
                ) == Some(after.master.main_release_id->0 as nat),
                None => after.master.main_release_id is None,
            }
            &&& match last_where(events, Element::Year, dated()) {
                Some(s) => after.master.year is Some && text::unsigned_value(s, u16::MAX as nat)
                    == Some(after.master.year->0 as nat),
                None => after.master.year is None,
            }
        },
{
    lemma_master_run(id, events);
}

proof fn lemma_master_run(id: u64, events: Seq<EventView>)
    requires
        forall|i: int| 0 <= i < events.len() ==> !closes(#[trigger] events[i], Element::Master),
    ensures
        master_run(master_parser::master_opened(id), events) matches Ok(after) ==> master_follows(
            after,
            events,
        ) && after.master.id == id,
    decreases events.len(),
{
    let start = master_parser::master_opened(id);
    if events.len() == 0 {
        assert(master_follows(start, events));
    } else {
        let shorter = events.drop_last();
        assert forall|i: int| 0 <= i < shorter.len() implies !closes(
            #[trigger] shorter[i],
            Element::Master,
        ) by {
            assert(shorter[i] == events[i]);
        }
        assert(events[events.len() - 1] == events.last());
        lemma_master_run(id, shorter);
        if let Ok(before) = master_run(start, shorter) {
            if let Ok(after) = master_run(start, events) {
                lemma_master_step(before, after, shorter, events);
            }
        }
    }
}

/// The elements that begin or end a credit or the list of credits of a master release.
pub open spec fn master_credit_bounds() -> Seq<Element> {
    seq![Element::Artist, Element::Artists, Element::Master]
}

/// The text of the last element of a name, without the white space around it.
pub open spec fn trimmed_text_of(events: Seq<EventView>, element: Element) -> Seq<char> {
    match last_text(events, element) {
        Some(s) => text::trimmed(s),
        None => Seq::empty(),
    }
}

proof fn lemma_master_credit(state: MasterParserView, events: Seq<EventView>)
    requires
        state.in_artists,
        begins(events, Element::Artist, master_credit_bounds()),
    ensures
        master_run(state, events) matches Ok(after) ==> {
            &&& after.text == text_since_tag(events)
            &&& after.in_artists
            &&& after.in_artist
            &&& after.artist.id == number_of(events, Element::Id)
            &&& after.artist.name == trimmed_text_of(events, Element::Name)
            &&& after.master.artists == state.master.artists
        },
    decreases events.len(),
{
    let shorter = events.drop_last();
    reveal(master_parser::master_open);
    if events.len() == 1 {
        assert(shorter == Seq::<EventView>::empty());
        assert(master_run(state, shorter) == Ok::<_, error::ErrorView>(state));
        crate::field_laws::lemma_first_has_no_text(events);
    } else {
        lemma_begins(events, Element::Artist, master_credit_bounds());
        lemma_master_credit(state, shorter);
        let bounds = master_credit_bounds();
        assert(bounds[0] == Element::Artist && bounds[1] == Element::Artists && bounds[2]
            == Element::Master);
        reveal(master_parser::master_close);
        reveal(master_parser::master_field);
    }
}

/// Every `<artist>` in the credits of a master release gives a credit at its closing tag,
/// with the number in the last `<id>` and the text of the last `<name>` inside it.
pub proof fn law_master_credit_values(
    state: MasterParserView,
    events: Seq<EventView>,
    close: EventView,
)
    requires
        state.in_artists,
        begins(events, Element::Artist, master_credit_bounds()),
        closes(close, Element::Artist),
    ensures
        master_run(state, events.push(close)) matches Ok(after) ==> {
            let artists = after.master.artists;
            &&& artists.len() > 0
            &&& artists.drop_last() == state.master.artists
            &&& artists.last().id == number_of(events, Element::Id)
            &&& artists.last().name == trimmed_text_of(events, Element::Name)
        },
{
    assert(events.push(close).drop_last() == events);
    lemma_master_credit(state, events);
    reveal(master_parser::master_close);
    if let Ok(before) = master_run(state, events) {
        assert(before.master.artists.push(before.artist).drop_last() == before.master.artists);
    }
}

/// A record is complete at its closing tag, as it stands there. A `</label>` in the
/// sublabels of a label completes nothing.
pub proof fn law_records_complete(
    release: parser::ReleaseParserView,
    artist: ArtistParserView,
    label: LabelParserView,
    master: MasterParserView,
    close: EventView,
)
    ensures
        closes(close, Element::Release) ==> (parser::release_stepped(release, close) matches Ok(
            (_, item),
        ) && item == Some(release.release)),
        closes(close, Element::Artist) ==> (artist_parser::artist_stepped(
            artist,
            close,
        ) matches Ok((_, item)) && item == Some(artist.artist)),
        closes(close, Element::Label) ==> (label_parser::label_stepped(label, close) matches Ok(
            (_, item),
        ) && item == (if label.in_sublabels {
            None
        } else {
            Some(label.label)
        })),
        closes(close, Element::Master) ==> (master_parser::master_stepped(
            master,
            close,
        ) matches Ok((_, item)) && item == Some(master.master)),
{
}

/// Nothing but its closing tag completes a record.
pub proof fn law_only_the_end_completes(
    release: parser::ReleaseParserView,
    artist: ArtistParserView,
    label: LabelParserView,
    master: MasterParserView,
    event: EventView,
)
    ensures
        !closes(event, Element::Release) ==> (parser::release_stepped(release, event) matches Ok(
            (_, item),
        ) ==> item is None),
        !closes(event, Element::Artist) ==> (artist_parser::artist_stepped(
            artist,
            event,
        ) matches Ok((_, item)) ==> item is None),
        !closes(event, Element::Label) ==> (label_parser::label_stepped(label, event) matches Ok(
            (_, item),
        ) ==> item is None),
        !closes(event, Element::Master) ==> (master_parser::master_stepped(
            master,
            event,
        ) matches Ok((_, item)) ==> item is None),
{
}

/// A master release has the number in the `id` attribute of its tag; zero where there is
/// none.
pub proof fn law_master_id(items: Seq<xml::AttributeView>)
    ensures
        <master_parser::MasterParser as crate::record::RecordParser>::opened(
            Element::Master,
            items,
        ) matches Some(Ok(state)) ==> state.master.id == (match part_laws::attribute_text(
            items,
            "id"@,
        ) {
            Some(s) => parser::number_u64(s),
            None => 0,
        }),
{
    part_laws::law_attributes_by_name(items, seq!["id"@]);
}

} // verus!
