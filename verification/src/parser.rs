//! Reading `<release>` elements.

use crate::element::Element;
use crate::error;
use crate::error::{ParseError, Record};
use crate::model;
use crate::model::{
    Format, Release, ReleaseArtist, ReleaseCompany, ReleaseImage, ReleaseLabel, ReleaseTrack,
    ReleaseVideo, TrackArtist,
};
use crate::record;
use crate::record::{Progress, RecordParser, RecordReader};
use crate::text;
use crate::xml;
use crate::xml::{AttributeItem, EventKind, XmlEvent};
use vstd::prelude::*;

verus! {

/// Where in a `<release>` element the reader is.
///
/// Flags and two depth counters tell apart elements of the same name. `depth` counts
/// the open elements below `<release>`, and `track_depth` the open `<track>` elements.
#[derive(Clone, Copy, PartialEq, Eq, Structural, Debug)]
pub struct Scope {
    pub depth: u32,
    pub in_artists: bool,
    pub in_extraartists: bool,
    pub in_tracklist: bool,
    pub track_depth: u32,
    pub in_track_artists: bool,
    pub in_track_extraartists: bool,
    pub in_genres: bool,
    pub in_styles: bool,
    pub in_companies: bool,
    pub in_company: bool,
    pub in_videos: bool,
    pub in_video: bool,
    /// The number of artist credits of the release so far.
    pub artist_position: u32,
}

/// The state of reading one `<release>` element.
///
/// `track` is the innermost track that is open, and `outer_tracks` are the tracks
/// around it.
pub struct ReleaseParser {
    pub release: Release,
    pub text: String,
    pub scope: Scope,
    pub artist: ReleaseArtist,
    pub track_artist: TrackArtist,
    pub track: ReleaseTrack,
    pub outer_tracks: Vec<ReleaseTrack>,
    pub company: ReleaseCompany,
    pub video: ReleaseVideo,
}

/// The model of a [`ReleaseParser`].
pub struct ReleaseParserView {
    pub release: model::ReleaseView,
    pub text: Seq<char>,
    pub scope: Scope,
    pub artist: model::ReleaseArtistView,
    pub track_artist: model::TrackArtistView,
    pub track: model::ReleaseTrackView,
    pub outer_tracks: Seq<model::ReleaseTrackView>,
    pub company: model::ReleaseCompanyView,
    pub video: model::ReleaseVideoView,
}

impl DeepView for ReleaseParser {
    type V = ReleaseParserView;

    open spec fn deep_view(&self) -> ReleaseParserView {
        ReleaseParserView {
            release: self.release.deep_view(),
            text: self.text@,
            scope: self.scope,
            artist: self.artist.deep_view(),
            track_artist: self.track_artist.deep_view(),
            track: self.track.deep_view(),
            outer_tracks: self.outer_tracks.deep_view(),
            company: self.company.deep_view(),
            video: self.video.deep_view(),
        }
    }
}

impl Scope {
    /// Right below `<release>`.
    pub open spec fn top() -> Scope {
        Scope {
            depth: 0,
            in_artists: false,
            in_extraartists: false,
            in_tracklist: false,
            track_depth: 0,
            in_track_artists: false,
            in_track_extraartists: false,
            in_genres: false,
            in_styles: false,
            in_companies: false,
            in_company: false,
            in_videos: false,
            in_video: false,
            artist_position: 0,
        }
    }

    /// Inside a list of artist credits of the release.
    pub open spec fn credits(self) -> bool {
        self.in_artists || self.in_extraartists
    }

    /// Inside a list of artist credits of a track.
    pub open spec fn track_credits(self) -> bool {
        self.in_track_artists || self.in_track_extraartists
    }
}

/// The state right after the opening tag of a release.
pub open spec fn release_opened(id: u64, status: Seq<char>) -> ReleaseParserView {
    ReleaseParserView {
        release: model::ReleaseView { id, status, ..model::ReleaseView::blank() },
        text: Seq::empty(),
        scope: Scope::top(),
        artist: model::ReleaseArtistView::blank(),
        track_artist: model::TrackArtistView::blank(),
        track: model::ReleaseTrackView::blank(),
        outer_tracks: Seq::empty(),
        company: model::ReleaseCompanyView::blank(),
        video: model::ReleaseVideoView::blank(),
    }
}

/// One more, back to zero after the largest number.
pub open spec fn next(n: u32) -> u32 {
    if n == u32::MAX {
        0
    } else {
        (n + 1) as u32
    }
}

/// One less, but not below zero.
pub open spec fn previous(n: u32) -> u32 {
    if n == 0 {
        0
    } else {
        (n - 1) as u32
    }
}

/// A text that may be missing; then it is empty.
pub open spec fn text_or_empty(value: Option<Seq<char>>) -> Seq<char> {
    match value {
        Some(s) => s,
        None => Seq::empty(),
    }
}

/// The number that a text writes, or `otherwise` where it writes none of at most
/// `max`.
pub open spec fn number_or(s: Seq<char>, max: nat, otherwise: nat) -> nat {
    match text::unsigned_value(s, max) {
        Some(n) => n,
        None => otherwise,
    }
}

/// The `u64` that a text writes, or zero.
#[verifier::opaque]
pub open spec fn number_u64(s: Seq<char>) -> u64 {
    number_or(s, u64::MAX as nat, 0) as u64
}

/// The `u32` that a text writes, or `otherwise`.
#[verifier::opaque]
pub open spec fn number_u32(s: Seq<char>, otherwise: u32) -> u32 {
    number_or(s, u32::MAX as nat, otherwise as nat) as u32
}

/// The id and the status in the attributes of `<release>`.
#[verifier::opaque]
pub open spec fn release_attributes(items: Seq<xml::AttributeView>) -> Result<
    (u64, Seq<char>),
    error::ErrorView,
> {
    match xml::attribute_values(items, seq!["id"@, "status"@]) {
        Err(error) => Err(error),
        Ok(values) => Ok(
            (
                match values[0] {
                    Some(s) => number_u64(s),
                    None => 0,
                },
                text_or_empty(values[1]),
            ),
        ),
    }
}

/// The label in the attributes of `<label>`.
#[verifier::opaque]
pub open spec fn label_attributes(items: Seq<xml::AttributeView>) -> Result<
    model::ReleaseLabelView,
    error::ErrorView,
> {
    match xml::attribute_values(items, seq!["name"@, "catno"@]) {
        Err(error) => Err(error),
        Ok(values) => Ok(
            model::ReleaseLabelView {
                name: text_or_empty(values[0]),
                catno: text_or_empty(values[1]),
            },
        ),
    }
}

/// The format in the attributes of `<format>`. A quantity that is no number is one.
#[verifier::opaque]
pub open spec fn format_attributes(items: Seq<xml::AttributeView>) -> Result<
    model::FormatView,
    error::ErrorView,
> {
    match xml::attribute_values(items, seq!["name"@, "qty"@]) {
        Err(error) => Err(error),
        Ok(values) => Ok(
            model::FormatView {
                name: text_or_empty(values[0]),
                qty: match values[1] {
                    Some(s) => number_u32(s, 1),
                    None => 0,
                },
            },
        ),
    }
}

/// The image in the attributes of `<image>`.
#[verifier::opaque]
pub open spec fn image_attributes(items: Seq<xml::AttributeView>) -> Result<
    model::ReleaseImageView,
    error::ErrorView,
> {
    match xml::attribute_values(items, seq!["type"@, "width"@, "height"@, "uri"@]) {
        Err(error) => Err(error),
        Ok(values) => Ok(
            model::ReleaseImageView {
                image_type: text_or_empty(values[0]),
                width: match values[1] {
                    Some(s) => number_u32(s, 0),
                    None => 0,
                },
                height: match values[2] {
                    Some(s) => number_u32(s, 0),
                    None => 0,
                },
                uri: text_or_empty(values[3]),
            },
        ),
    }
}

/// The video in the attributes of `<video>`. It may be embedded unless the document
/// says "false"; a video without that attribute may not.
#[verifier::opaque]
pub open spec fn video_attributes(items: Seq<xml::AttributeView>) -> Result<
    model::ReleaseVideoView,
    error::ErrorView,
> {
    match xml::attribute_values(items, seq!["src"@, "duration"@, "embed"@]) {
        Err(error) => Err(error),
        Ok(values) => Ok(
            model::ReleaseVideoView {
                src: text_or_empty(values[0]),
                title: Seq::empty(),
                duration: match values[1] {
                    Some(s) => match text::unsigned_value(s, u32::MAX as nat) {
                        Some(n) => Some(n as u32),
                        None => None,
                    },
                    None => None,
                },
                embed: match values[2] {
                    Some(s) => s != "false"@,
                    None => false,
                },
            },
        ),
    }
}

fn text_at(values: &mut Vec<Option<String>>, i: usize) -> (r: String)
    requires
        i < old(values).len(),
    ensures
        r@ == text_or_empty(old(values).deep_view()[i as int]),
        final(values).len() == old(values).len(),
        final(values).deep_view() == old(values).deep_view().update(i as int, None),
{
    let ghost before = values.deep_view();
    let mut value: Option<String> = None;
    std::mem::swap(&mut value, &mut values[i]);
    assert(values.deep_view() == before.update(i as int, None));
    match value {
        Some(s) => s,
        None => String::new(),
    }
}

/// The `u64` that a text writes, or zero.
pub fn parse_u64(s: &str) -> (r: u64)
    ensures
        r == number_u64(s@),
{
    proof {
        reveal(number_u64);
    }
    match text::parse_unsigned(s, u64::MAX) {
        Some(n) => n,
        None => 0,
    }
}

/// The `u32` that a text writes, or `otherwise`.
pub fn parse_u32(s: &str, otherwise: u32) -> (r: u32)
    ensures
        r == number_u32(s@, otherwise),
{
    proof {
        reveal(number_u32);
    }
    match text::parse_unsigned(s, u32::MAX as u64) {
        Some(n) => n as u32,
        None => otherwise,
    }
}

/// Reads the id and the status of a release from the attributes of its tag.
pub fn extract_release_attrs(items: &Vec<AttributeItem>) -> (r: Result<(u64, String), ParseError>)
    ensures
        error::result_view(r) == release_attributes(xml::attributes_view(items@)),
{
    proof {
        reveal(release_attributes);
    }
    let keys = vec!["id", "status"];
    assert(keys.deep_view() == seq!["id"@, "status"@]);
    match xml::read_attributes(items, &keys) {
        Err(error) => Err(error),
        Ok(values) => {
            let mut values = values;
            let id: u64 = match &values[0] {
                Some(s) => parse_u64(s.as_str()),
                None => 0,
            };
            Ok((id, text_at(&mut values, 1)))
        },
    }
}

fn read_label(items: &Vec<AttributeItem>) -> (r: Result<ReleaseLabel, ParseError>)
    ensures
        error::result_view(r) == label_attributes(xml::attributes_view(items@)),
{
    proof {
        reveal(label_attributes);
    }
    let keys = vec!["name", "catno"];
    assert(keys.deep_view() == seq!["name"@, "catno"@]);
    match xml::read_attributes(items, &keys) {
        Err(error) => Err(error),
        Ok(values) => {
            let mut values = values;
            Ok(ReleaseLabel { name: text_at(&mut values, 0), catno: text_at(&mut values, 1) })
        },
    }
}

fn read_format(items: &Vec<AttributeItem>) -> (r: Result<Format, ParseError>)
    ensures
        error::result_view(r) == format_attributes(xml::attributes_view(items@)),
{
    proof {
        reveal(format_attributes);
    }
    let keys = vec!["name", "qty"];
    assert(keys.deep_view() == seq!["name"@, "qty"@]);
    match xml::read_attributes(items, &keys) {
        Err(error) => Err(error),
        Ok(values) => {
            let mut values = values;
            let qty: u32 = match &values[1] {
                Some(s) => parse_u32(s.as_str(), 1),
                None => 0,
            };
            Ok(Format { name: text_at(&mut values, 0), qty })
        },
    }
}

fn read_image(items: &Vec<AttributeItem>) -> (r: Result<ReleaseImage, ParseError>)
    ensures
        error::result_view(r) == image_attributes(xml::attributes_view(items@)),
{
    proof {
        reveal(image_attributes);
    }
    let keys = vec!["type", "width", "height", "uri"];
    assert(keys.deep_view() == seq!["type"@, "width"@, "height"@, "uri"@]);
    match xml::read_attributes(items, &keys) {
        Err(error) => Err(error),
        Ok(values) => {
            let mut values = values;
            let width: u32 = match &values[1] {
                Some(s) => parse_u32(s.as_str(), 0),
                None => 0,
            };
            let height: u32 = match &values[2] {
                Some(s) => parse_u32(s.as_str(), 0),
                None => 0,
            };
            Ok(
                ReleaseImage {
                    image_type: text_at(&mut values, 0),
                    width,
                    height,
                    uri: text_at(&mut values, 3),
                },
            )
        },
    }
}

fn read_video(items: &Vec<AttributeItem>) -> (r: Result<ReleaseVideo, ParseError>)
    ensures
        error::result_view(r) == video_attributes(xml::attributes_view(items@)),
{
    proof {
        reveal(video_attributes);
    }
    let keys = vec!["src", "duration", "embed"];
    assert(keys.deep_view() == seq!["src"@, "duration"@, "embed"@]);
    match xml::read_attributes(items, &keys) {
        Err(error) => Err(error),
        Ok(values) => {
            let mut values = values;
            let duration: Option<u32> = match &values[1] {
                Some(s) => match text::parse_unsigned(s.as_str(), u32::MAX as u64) {
                    Some(n) => Some(n as u32),
                    None => None,
                },
                None => None,
            };
            let embed = match &values[2] {
                Some(s) => !text::same_text(s.as_str(), "false"),
                None => false,
            };
            Ok(
                ReleaseVideo {
                    src: text_at(&mut values, 0),
                    title: String::new(),
                    duration,
                    embed,
                },
            )
        },
    }
}

/// Where the reader is after an opening tag.
#[verifier::opaque]
pub open spec fn scope_open(scope: Scope, element: Element) -> Scope {
    let s = Scope { depth: next(scope.depth), ..scope };
    match element {
        Element::Artists => if s.track_depth > 0 {
            Scope { in_track_artists: true, ..s }
        } else if !s.in_tracklist {
            Scope { in_artists: true, artist_position: 0, ..s }
        } else {
            s
        },
        Element::ExtraArtists => if s.track_depth > 0 {
            Scope { in_track_extraartists: true, ..s }
        } else {
            Scope { in_extraartists: true, ..s }
        },
        Element::Artist => if !s.track_credits() && s.credits() {
            Scope { artist_position: next(s.artist_position), ..s }
        } else {
            s
        },
        Element::TrackList => Scope { in_tracklist: true, ..s },
        Element::Track => Scope { track_depth: next(s.track_depth), ..s },
        Element::Genres => Scope { in_genres: true, ..s },
        Element::Styles => Scope { in_styles: true, ..s },
        Element::Companies => Scope { in_companies: true, ..s },
        Element::Company => Scope { in_company: s.in_companies || s.in_company, ..s },
        Element::Videos => Scope { in_videos: true, ..s },
        Element::Video => Scope { in_video: s.in_videos || s.in_video, ..s },
        _ => s,
    }
}

/// Where the reader is after a closing tag.
#[verifier::opaque]
pub open spec fn scope_close(scope: Scope, element: Element) -> Scope {
    let s = Scope { depth: previous(scope.depth), ..scope };
    match element {
        Element::Artists => if s.track_depth > 0 {
            Scope { in_track_artists: false, ..s }
        } else {
            Scope { in_artists: false, ..s }
        },
        Element::ExtraArtists => if s.track_depth > 0 {
            Scope { in_track_extraartists: false, ..s }
        } else {
            Scope { in_extraartists: false, ..s }
        },
        Element::TrackList => Scope { in_tracklist: false, ..s },
        Element::Track => Scope { track_depth: previous(s.track_depth), ..s },
        Element::Genres => Scope { in_genres: false, ..s },
        Element::Styles => Scope { in_styles: false, ..s },
        Element::Companies => Scope { in_companies: false, ..s },
        Element::Company => Scope { in_company: s.in_company && !s.in_companies, ..s },
        Element::Videos => Scope { in_videos: false, ..s },
        Element::Video => Scope { in_video: s.in_video && !s.in_videos, ..s },
        _ => s,
    }
}

impl Scope {
    #[verifier::rlimit(60)]
    #[verifier::spinoff_prover]
    fn open(&mut self, element: Element)
        ensures
            *final(self) == scope_open(*old(self), element),
    {
        proof {
            reveal(scope_open);
        }
        self.depth = self.depth.wrapping_add(1);
        match element {
            Element::Artists => {
                if self.track_depth > 0 {
                    self.in_track_artists = true;
                } else if !self.in_tracklist {
                    self.in_artists = true;
                    self.artist_position = 0;
                }
            },
            Element::ExtraArtists => {
                if self.track_depth > 0 {
                    self.in_track_extraartists = true;
                } else {
                    self.in_extraartists = true;
                }
            },
            Element::Artist => {
                if !(self.in_track_artists || self.in_track_extraartists) && (self.in_artists
                    || self.in_extraartists) {
                    self.artist_position = self.artist_position.wrapping_add(1);
                }
            },
            Element::TrackList => {
                self.in_tracklist = true;
            },
            Element::Track => {
                self.track_depth = self.track_depth.wrapping_add(1);
            },
            Element::Genres => {
                self.in_genres = true;
            },
            Element::Styles => {
                self.in_styles = true;
            },
            Element::Companies => {
                self.in_companies = true;
            },
            Element::Company => {
                if self.in_companies {
                    self.in_company = true;
                }
            },
            Element::Videos => {
                self.in_videos = true;
            },
            Element::Video => {
                if self.in_videos {
                    self.in_video = true;
                }
            },
            _ => {},
        }
    }

    #[verifier::rlimit(60)]
    #[verifier::spinoff_prover]
    fn close(&mut self, element: Element)
        ensures
            *final(self) == scope_close(*old(self), element),
    {
        proof {
            reveal(scope_close);
        }
        self.depth = self.depth.saturating_sub(1);
        match element {
            Element::Artists => {
                if self.track_depth > 0 {
                    self.in_track_artists = false;
                } else {
                    self.in_artists = false;
                }
            },
            Element::ExtraArtists => {
                if self.track_depth > 0 {
                    self.in_track_extraartists = false;
                } else {
                    self.in_extraartists = false;
                }
            },
            Element::TrackList => {
                self.in_tracklist = false;
            },
            Element::Track => {
                self.track_depth = self.track_depth.saturating_sub(1);
            },
            Element::Genres => {
                self.in_genres = false;
            },
            Element::Styles => {
                self.in_styles = false;
            },
            Element::Companies => {
                self.in_companies = false;
            },
            Element::Company => {
                if self.in_companies {
                    self.in_company = false;
                }
            },
            Element::Videos => {
                self.in_videos = false;
            },
            Element::Video => {
                if self.in_videos {
                    self.in_video = false;
                }
            },
            _ => {},
        }
    }
}

/// A release with what the attributes of a `<label>`, a `<format>` or an `<image>`
/// hold.
#[verifier::opaque]
pub open spec fn release_attachment(
    release: model::ReleaseView,
    element: Element,
    items: Seq<xml::AttributeView>,
) -> Result<model::ReleaseView, error::ErrorView> {
    match element {
        Element::Label => match label_attributes(items) {
            Err(error) => Err(error),
            Ok(label) => Ok(
                model::ReleaseView { labels: release.labels.push(label), ..release },
            ),
        },
        Element::Format => match format_attributes(items) {
            Err(error) => Err(error),
            Ok(format) => Ok(
                model::ReleaseView { formats: release.formats.push(format), ..release },
            ),
        },
        Element::Image => match image_attributes(items) {
            Err(error) => Err(error),
            Ok(image) => Ok(
                model::ReleaseView { images: release.images.push(image), ..release },
            ),
        },
        _ => Ok(release),
    }
}

fn attach(release: &mut Release, element: Element, items: &Vec<AttributeItem>) -> (r: Result<
    (),
    ParseError,
>)
    ensures
        match release_attachment(old(release).deep_view(), element, xml::attributes_view(items@)) {
            Ok(state) => r is Ok && final(release).deep_view() == state,
            Err(error) => r is Err && r->Err_0.deep_view() == error,
        },
{
    proof {
        reveal(release_attachment);
    }
    match element {
        Element::Label => match read_label(items) {
            Err(error) => {
                return Err(error);
            },
            Ok(label) => {
                text::push_item(&mut release.labels, label);
            },
        },
        Element::Format => match read_format(items) {
            Err(error) => {
                return Err(error);
            },
            Ok(format) => {
                text::push_item(&mut release.formats, format);
            },
        },
        Element::Image => match read_image(items) {
            Err(error) => {
                return Err(error);
            },
            Ok(image) => {
                text::push_item(&mut release.images, image);
            },
        },
        _ => {},
    }
    Ok(())
}

/// A release after the tag that closes one of its own text elements.
#[verifier::opaque]
pub open spec fn release_field(
    release: model::ReleaseView,
    element: Element,
    value: Seq<char>,
) -> model::ReleaseView {
    match element {
        Element::Country => model::ReleaseView { country: value, ..release },
        Element::Released => model::ReleaseView { released: value, ..release },
        Element::Notes => model::ReleaseView { notes: value, ..release },
        Element::DataQuality => model::ReleaseView { data_quality: value, ..release },
        Element::MasterId => match text::unsigned_value(text::trimmed(value), u64::MAX as nat) {
            Some(n) => model::ReleaseView { master_id: Some(n as u64), ..release },
            None => release,
        },
        _ => release,
    }
}

fn set_release_field(release: &mut Release, element: Element, value: &String)
    ensures
        final(release).deep_view() == release_field(old(release).deep_view(), element, value@),
{
    proof {
        reveal(release_field);
    }
    match element {
        Element::Country => {
            release.country = value.clone();
        },
        Element::Released => {
            release.released = value.clone();
        },
        Element::Notes => {
            release.notes = value.clone();
        },
        Element::DataQuality => {
            release.data_quality = value.clone();
        },
        Element::MasterId => {
            let digits = text::trim(value.as_str());
            match text::parse_unsigned(digits.as_str(), u64::MAX) {
                Some(n) => {
                    release.master_id = Some(n);
                },
                None => {},
            }
        },
        _ => {},
    }
}

/// A company after the tag that closes one of its elements.
#[verifier::opaque]
pub open spec fn company_field(
    company: model::ReleaseCompanyView,
    element: Element,
    value: Seq<char>,
) -> model::ReleaseCompanyView {
    match element {
        Element::Id => model::ReleaseCompanyView {
            company_id: number_u64(text::trimmed(value)),
            ..company
        },
        Element::Name => model::ReleaseCompanyView { name: value, ..company },
        Element::EntityType => model::ReleaseCompanyView {
            entity_type: number_u32(text::trimmed(value), 0),
            ..company
        },
        Element::EntityTypeName => model::ReleaseCompanyView { entity_type_name: value, ..company },
        _ => company,
    }
}

fn set_company_field(company: &mut ReleaseCompany, element: Element, value: &String)
    ensures
        final(company).deep_view() == company_field(old(company).deep_view(), element, value@),
{
    proof {
        reveal(company_field);
    }
    match element {
        Element::Id => {
            company.company_id = parse_u64(text::trim(value.as_str()).as_str());
        },
        Element::Name => {
            company.name = value.clone();
        },
        Element::EntityType => {
            company.entity_type = parse_u32(text::trim(value.as_str()).as_str(), 0);
        },
        Element::EntityTypeName => {
            company.entity_type_name = value.clone();
        },
        _ => {},
    }
}

/// An artist credit of a release after the tag that closes one of its elements.
#[verifier::opaque]
pub open spec fn credit_field(
    artist: model::ReleaseArtistView,
    element: Element,
    value: Seq<char>,
) -> model::ReleaseArtistView {
    match element {
        Element::Id => model::ReleaseArtistView {
            artist_id: number_u64(text::trimmed(value)),
            ..artist
        },
        Element::Name => model::ReleaseArtistView { name: value, ..artist },
        Element::Anv => model::ReleaseArtistView { anv: value, ..artist },
        Element::Join => model::ReleaseArtistView { join_field: value, ..artist },
        _ => artist,
    }
}

fn set_credit_field(artist: &mut ReleaseArtist, element: Element, value: &String)
    ensures
        final(artist).deep_view() == credit_field(old(artist).deep_view(), element, value@),
{
    proof {
        reveal(credit_field);
    }
    match element {
        Element::Id => {
            artist.artist_id = parse_u64(text::trim(value.as_str()).as_str());
        },
        Element::Name => {
            artist.name = value.clone();
        },
        Element::Anv => {
            artist.anv = value.clone();
        },
        Element::Join => {
            artist.join_field = value.clone();
        },
        _ => {},
    }
}

/// A track after the tag that closes one of its text elements.
#[verifier::opaque]
pub open spec fn track_field(
    track: model::ReleaseTrackView,
    element: Element,
    value: Seq<char>,
) -> model::ReleaseTrackView {
    match element {
        Element::Title => model::ReleaseTrackView { title: value, ..track },
        Element::Position => model::ReleaseTrackView { position: value, ..track },
        Element::Duration => model::ReleaseTrackView { duration: value, ..track },
        _ => track,
    }
}

fn set_track_field(track: &mut ReleaseTrack, element: Element, value: &String)
    ensures
        final(track).deep_view() == track_field(old(track).deep_view(), element, value@),
{
    proof {
        reveal(track_field);
    }
    match element {
        Element::Title => {
            track.title = value.clone();
        },
        Element::Position => {
            track.position = value.clone();
        },
        Element::Duration => {
            track.duration = value.clone();
        },
        _ => {},
    }
}

/// The state after an opening tag.
#[verifier::opaque]
pub open spec fn release_open(
    state: ReleaseParserView,
    element: Element,
    items: Seq<xml::AttributeView>,
) -> Result<ReleaseParserView, error::ErrorView> {
    let scope = scope_open(state.scope, element);
    let s = ReleaseParserView { text: Seq::empty(), scope, ..state };
    match element {
        Element::Artist => Ok(
            if scope.track_credits() {
                ReleaseParserView { track_artist: model::TrackArtistView::blank(), ..s }
            } else if scope.credits() {
                ReleaseParserView {
                    artist: model::ReleaseArtistView {
                        position: scope.artist_position,
                        ..model::ReleaseArtistView::blank()
                    },
                    ..s
                }
            } else {
                s
            },
        ),
        Element::Track => Ok(
            ReleaseParserView {
                outer_tracks: if state.scope.track_depth > 0 {
                    s.outer_tracks.push(s.track)
                } else {
                    s.outer_tracks
                },
                track: model::ReleaseTrackView::blank(),
                ..s
            },
        ),
        Element::Label | Element::Format | Element::Image => match release_attachment(
            s.release,
            element,
            items,
        ) {
            Err(error) => Err(error),
            Ok(release) => Ok(ReleaseParserView { release, ..s }),
        },
        Element::Company => Ok(
            if scope.in_companies {
                ReleaseParserView { company: model::ReleaseCompanyView::blank(), ..s }
            } else {
                s
            },
        ),
        Element::Video => if scope.in_videos {
            match video_attributes(items) {
                Err(error) => Err(error),
                Ok(video) => Ok(ReleaseParserView { video, ..s }),
            }
        } else {
            Ok(s)
        },
        _ => Ok(s),
    }
}

/// The state after a tag that opens and closes an element.
#[verifier::opaque]
pub open spec fn release_empty(
    s: ReleaseParserView,
    element: Element,
    items: Seq<xml::AttributeView>,
) -> Result<ReleaseParserView, error::ErrorView> {
    match element {
        Element::Video => if s.scope.in_videos {
            match video_attributes(items) {
                Err(error) => Err(error),
                Ok(video) => Ok(
                    ReleaseParserView {
                        release: model::ReleaseView {
                            videos: s.release.videos.push(video),
                            ..s.release
                        },
                        ..s
                    },
                ),
            }
        } else {
            Ok(s)
        },
        _ => match release_attachment(s.release, element, items) {
            Err(error) => Err(error),
            Ok(release) => Ok(ReleaseParserView { release, ..s }),
        },
    }
}

/// The state after the tag that closes an artist credit: the credit goes to the
/// innermost list that is open.
#[verifier::opaque]
pub open spec fn credit_close(s: ReleaseParserView) -> ReleaseParserView {
    if s.scope.in_track_artists {
        ReleaseParserView {
            track: model::ReleaseTrackView {
                artists: s.track.artists.push(s.track_artist),
                ..s.track
            },
            track_artist: model::TrackArtistView::blank(),
            ..s
        }
    } else if s.scope.in_track_extraartists {
        ReleaseParserView {
            track: model::ReleaseTrackView {
                extra_artists: s.track.extra_artists.push(s.track_artist),
                ..s.track
            },
            track_artist: model::TrackArtistView::blank(),
            ..s
        }
    } else if s.scope.in_artists {
        ReleaseParserView {
            release: model::ReleaseView {
                artists: s.release.artists.push(s.artist),
                ..s.release
            },
            artist: model::ReleaseArtistView::blank(),
            ..s
        }
    } else if s.scope.in_extraartists {
        ReleaseParserView {
            release: model::ReleaseView {
                extra_artists: s.release.extra_artists.push(s.artist),
                ..s.release
            },
            artist: model::ReleaseArtistView::blank(),
            ..s
        }
    } else {
        s
    }
}

/// The state after the tag that closes a track: the track joins the tracks of the
/// release, and the track around it goes on.
#[verifier::opaque]
pub open spec fn track_close(s: ReleaseParserView) -> ReleaseParserView {
    ReleaseParserView {
        release: model::ReleaseView { tracks: s.release.tracks.push(s.track), ..s.release },
        track: if s.outer_tracks.len() > 0 {
            s.outer_tracks.last()
        } else {
            model::ReleaseTrackView::blank()
        },
        outer_tracks: if s.outer_tracks.len() > 0 {
            s.outer_tracks.drop_last()
        } else {
            s.outer_tracks
        },
        ..s
    }
}

/// The state after the tag that closes a title: it is the title of the video, of the
/// track or of the release, whichever is innermost, and of the release only where it
/// is its own child.
#[verifier::opaque]
pub open spec fn title_close(s: ReleaseParserView) -> ReleaseParserView {
    if s.scope.in_video {
        ReleaseParserView { video: model::ReleaseVideoView { title: s.text, ..s.video }, ..s }
    } else if s.scope.track_depth > 0 {
        ReleaseParserView { track: track_field(s.track, Element::Title, s.text), ..s }
    } else if s.scope.depth == 0 {
        ReleaseParserView { release: model::ReleaseView { title: s.text, ..s.release }, ..s }
    } else {
        s
    }
}

/// The state after the tag that closes an element of a company, of an artist credit
/// or of a track.
#[verifier::opaque]
pub open spec fn part_close(s: ReleaseParserView, element: Element) -> ReleaseParserView {
    let company = s.scope.in_companies && s.scope.in_company;
    match element {
        Element::Id | Element::Name => if company {
            ReleaseParserView { company: company_field(s.company, element, s.text), ..s }
        } else if s.scope.track_credits() {
            if element == Element::Name {
                ReleaseParserView {
                    track_artist: model::TrackArtistView { name: s.text, ..s.track_artist },
                    ..s
                }
            } else {
                s
            }
        } else if s.scope.credits() {
            ReleaseParserView { artist: credit_field(s.artist, element, s.text), ..s }
        } else {
            s
        },
        Element::EntityType | Element::EntityTypeName => if company {
            ReleaseParserView { company: company_field(s.company, element, s.text), ..s }
        } else {
            s
        },
        Element::Anv | Element::Join => if s.scope.credits() {
            ReleaseParserView { artist: credit_field(s.artist, element, s.text), ..s }
        } else {
            s
        },
        Element::Position | Element::Duration => if s.scope.track_depth > 0 {
            ReleaseParserView { track: track_field(s.track, element, s.text), ..s }
        } else {
            s
        },
        Element::Role => if s.scope.in_track_extraartists {
            ReleaseParserView {
                track_artist: model::TrackArtistView { role: s.text, ..s.track_artist },
                ..s
            }
        } else {
            s
        },
        _ => s,
    }
}

/// The state after the tag that closes an element of a list.
#[verifier::opaque]
pub open spec fn list_close(s: ReleaseParserView, element: Element) -> ReleaseParserView {
    match element {
        Element::Genre => if s.scope.in_genres {
            ReleaseParserView {
                release: model::ReleaseView { genres: s.release.genres.push(s.text), ..s.release },
                ..s
            }
        } else {
            s
        },
        Element::Style => if s.scope.in_styles {
            ReleaseParserView {
                release: model::ReleaseView { styles: s.release.styles.push(s.text), ..s.release },
                ..s
            }
        } else {
            s
        },
        Element::Company => if s.scope.in_companies {
            ReleaseParserView {
                release: model::ReleaseView {
                    companies: s.release.companies.push(s.company),
                    ..s.release
                },
                company: model::ReleaseCompanyView::blank(),
                ..s
            }
        } else {
            s
        },
        Element::Video => if s.scope.in_videos {
            ReleaseParserView {
                release: model::ReleaseView {
                    videos: s.release.videos.push(s.video),
                    ..s.release
                },
                video: model::ReleaseVideoView::blank(),
                ..s
            }
        } else {
            s
        },
        _ => s,
    }
}

/// The state after a closing tag other than `</release>`.
#[verifier::opaque]
pub open spec fn release_close(state: ReleaseParserView, element: Element) -> ReleaseParserView {
    let s = ReleaseParserView { scope: scope_close(state.scope, element), ..state };
    let closed = match element {
        Element::Artist => credit_close(s),
        Element::Track => track_close(s),
        Element::Title => title_close(s),
        Element::Country
        | Element::Released
        | Element::Notes
        | Element::DataQuality
        | Element::MasterId => ReleaseParserView {
            release: release_field(s.release, element, s.text),
            ..s
        },
        Element::Genre | Element::Style | Element::Company | Element::Video => list_close(
            s,
            element,
        ),
        _ => part_close(s, element),
    };
    ReleaseParserView { text: Seq::empty(), ..closed }
}

/// The state after more text.
pub open spec fn release_text(
    s: ReleaseParserView,
    value: Result<Seq<char>, error::ErrorView>,
) -> Result<ReleaseParserView, error::ErrorView> {
    match value {
        Err(error) => Err(error),
        Ok(more) => Ok(ReleaseParserView { text: s.text + more, ..s }),
    }
}

/// The state after an event inside `<release>`, with the release at `</release>`.
pub open spec fn release_stepped(s: ReleaseParserView, event: xml::EventView) -> Result<
    (ReleaseParserView, Option<model::ReleaseView>),
    error::ErrorView,
> {
    let state = match event.kind {
        xml::EventKindView::OpenTag(items) => release_open(
            s,
            xml::tag_element(event.content),
            items,
        ),
        xml::EventKindView::EmptyTag(items) => release_empty(
            s,
            xml::tag_element(event.content),
            items,
        ),
        xml::EventKindView::CloseTag => Ok(
            release_close(s, crate::element::element(event.content)),
        ),
        xml::EventKindView::Characters => release_text(s, xml::text_value(event.content)),
        xml::EventKindView::Reference => release_text(s, xml::reference_value(event.content)),
        xml::EventKindView::Section => release_text(s, Ok(xml::utf8_lossy(event.content))),
        xml::EventKindView::EndOfInput => Err(error::ErrorView::UnexpectedEnd(Record::Release)),
        xml::EventKindView::Other => Ok(s),
    };
    match state {
        Err(error) => Err(error),
        Ok(state) => Ok(
            (
                state,
                if event.kind is CloseTag && crate::element::element(event.content)
                    == Element::Release {
                    Some(s.release)
                } else {
                    None
                },
            ),
        ),
    }
}

impl ReleaseParser {
    /// The state right after the opening tag of a release.
    pub fn new(id: u64, status: String) -> (r: ReleaseParser)
        ensures
            r.deep_view() == release_opened(id, status@),
    {
        let mut release = Release::default();
        release.id = id;
        release.status = status;
        let r = ReleaseParser {
            release,
            text: String::new(),
            scope: Scope {
                depth: 0,
                in_artists: false,
                in_extraartists: false,
                in_tracklist: false,
                track_depth: 0,
                in_track_artists: false,
                in_track_extraartists: false,
                in_genres: false,
                in_styles: false,
                in_companies: false,
                in_company: false,
                in_videos: false,
                in_video: false,
                artist_position: 0,
            },
            artist: ReleaseArtist::default(),
            track_artist: TrackArtist::default(),
            track: ReleaseTrack::default(),
            outer_tracks: Vec::new(),
            company: ReleaseCompany::default(),
            video: ReleaseVideo::default(),
        };
        assert(r.outer_tracks.deep_view() == Seq::<model::ReleaseTrackView>::empty());
        r
    }

    fn open_tag(&mut self, element: Element, items: &Vec<AttributeItem>) -> (r: Result<
        (),
        ParseError,
    >)
        ensures
            match release_open(old(self).deep_view(), element, xml::attributes_view(items@)) {
                Ok(state) => r is Ok && final(self).deep_view() == state,
                Err(error) => r is Err && r->Err_0.deep_view() == error,
            },
    {
        proof {
            reveal(release_open);
        }
        let nested = self.scope.track_depth > 0;
        self.text = String::new();
        self.scope.open(element);
        match element {
            Element::Artist => {
                if self.scope.in_track_artists || self.scope.in_track_extraartists {
                    self.track_artist = TrackArtist::default();
                } else if self.scope.in_artists || self.scope.in_extraartists {
                    let mut artist = ReleaseArtist::default();
                    artist.position = self.scope.artist_position;
                    self.artist = artist;
                }
            },
            Element::Track => {
                let mut outer = ReleaseTrack::default();
                std::mem::swap(&mut outer, &mut self.track);
                if nested {
                    text::push_item(&mut self.outer_tracks, outer);
                }
            },
            Element::Label | Element::Format | Element::Image => {
                return attach(&mut self.release, element, items);
            },
            Element::Company => {
                if self.scope.in_companies {
                    self.company = ReleaseCompany::default();
                }
            },
            Element::Video => {
                if self.scope.in_videos {
                    match read_video(items) {
                        Err(error) => {
                            return Err(error);
                        },
                        Ok(video) => {
                            self.video = video;
                        },
                    }
                }
            },
            _ => {},
        }
        Ok(())
    }

    fn empty_tag(&mut self, element: Element, items: &Vec<AttributeItem>) -> (r: Result<
        (),
        ParseError,
    >)
        ensures
            match release_empty(old(self).deep_view(), element, xml::attributes_view(items@)) {
                Ok(state) => r is Ok && final(self).deep_view() == state,
                Err(error) => r is Err && r->Err_0.deep_view() == error,
            },
    {
        proof {
            reveal(release_empty);
        }
        match element {
            Element::Video => {
                if self.scope.in_videos {
                    match read_video(items) {
                        Err(error) => {
                            return Err(error);
                        },
                        Ok(video) => {
                            text::push_item(&mut self.release.videos, video);
                        },
                    }
                }
                Ok(())
            },
            _ => attach(&mut self.release, element, items),
        }
    }

    fn close_credit(&mut self)
        ensures
            final(self).deep_view() == credit_close(old(self).deep_view()),
    {
        proof {
            reveal(credit_close);
        }
        if self.scope.in_track_artists || self.scope.in_track_extraartists {
            let mut credit = TrackArtist::default();
            std::mem::swap(&mut credit, &mut self.track_artist);
            if self.scope.in_track_artists {
                text::push_item(&mut self.track.artists, credit);
            } else {
                text::push_item(&mut self.track.extra_artists, credit);
            }
        } else if self.scope.in_artists || self.scope.in_extraartists {
            let mut credit = ReleaseArtist::default();
            std::mem::swap(&mut credit, &mut self.artist);
            if self.scope.in_artists {
                text::push_item(&mut self.release.artists, credit);
            } else {
                text::push_item(&mut self.release.extra_artists, credit);
            }
        }
    }

    fn close_track(&mut self)
        ensures
            final(self).deep_view() == track_close(old(self).deep_view()),
    {
        proof {
            reveal(track_close);
        }
        let mut track = pop_track(&mut self.outer_tracks);
        std::mem::swap(&mut track, &mut self.track);
        text::push_item(&mut self.release.tracks, track);
    }

    fn close_title(&mut self)
        ensures
            final(self).deep_view() == title_close(old(self).deep_view()),
    {
        proof {
            reveal(title_close);
        }
        if self.scope.in_video {
            self.video.title = self.text.clone();
        } else if self.scope.track_depth > 0 {
            set_track_field(&mut self.track, Element::Title, &self.text);
        } else if self.scope.depth == 0 {
            self.release.title = self.text.clone();
        }
    }

    fn close_part(&mut self, element: Element)
        ensures
            final(self).deep_view() == part_close(old(self).deep_view(), element),
    {
        proof {
            reveal(part_close);
        }
        let company = self.scope.in_companies && self.scope.in_company;
        let track_credits = self.scope.in_track_artists || self.scope.in_track_extraartists;
        let credits = self.scope.in_artists || self.scope.in_extraartists;
        match element {
            Element::Id | Element::Name => {
                if company {
                    set_company_field(&mut self.company, element, &self.text);
                } else if track_credits {
                    if element == Element::Name {
                        self.track_artist.name = self.text.clone();
                    }
                } else if credits {
                    set_credit_field(&mut self.artist, element, &self.text);
                }
            },
            Element::EntityType | Element::EntityTypeName => {
                if company {
                    set_company_field(&mut self.company, element, &self.text);
                }
            },
            Element::Anv | Element::Join => {
                if credits {
                    set_credit_field(&mut self.artist, element, &self.text);
                }
            },
            Element::Position | Element::Duration => {
                if self.scope.track_depth > 0 {
                    set_track_field(&mut self.track, element, &self.text);
                }
            },
            Element::Role => {
                if self.scope.in_track_extraartists {
                    self.track_artist.role = self.text.clone();
                }
            },
            _ => {},
        }
    }

    fn close_list(&mut self, element: Element)
        ensures
            final(self).deep_view() == list_close(old(self).deep_view(), element),
    {
        proof {
            reveal(list_close);
        }
        match element {
            Element::Genre => {
                if self.scope.in_genres {
                    let genre = self.text.clone();
                    text::push_item(&mut self.release.genres, genre);
                }
            },
            Element::Style => {
                if self.scope.in_styles {
                    let style = self.text.clone();
                    text::push_item(&mut self.release.styles, style);
                }
            },
            Element::Company => {
                if self.scope.in_companies {
                    let mut company = ReleaseCompany::default();
                    std::mem::swap(&mut company, &mut self.company);
                    text::push_item(&mut self.release.companies, company);
                }
            },
            Element::Video => {
                if self.scope.in_videos {
                    let mut video = ReleaseVideo::default();
                    std::mem::swap(&mut video, &mut self.video);
                    text::push_item(&mut self.release.videos, video);
                }
            },
            _ => {},
        }
    }

    fn close_tag(&mut self, element: Element)
        ensures
            final(self).deep_view() == release_close(old(self).deep_view(), element),
    {
        proof {
            reveal(release_close);
        }
        self.scope.close(element);
        match element {
            Element::Artist => {
                self.close_credit();
            },
            Element::Track => {
                self.close_track();
            },
            Element::Title => {
                self.close_title();
            },
            Element::Country
            | Element::Released
            | Element::Notes
            | Element::DataQuality
            | Element::MasterId => {
                set_release_field(&mut self.release, element, &self.text);
            },
            Element::Genre | Element::Style | Element::Company | Element::Video => {
                self.close_list(element);
            },
            _ => {
                self.close_part(element);
            },
        }
        self.text = String::new();
    }

    fn add_text(&mut self, value: Result<String, ParseError>) -> (r: Result<(), ParseError>)
        ensures
            match release_text(old(self).deep_view(), error::result_view(value)) {
                Ok(state) => r is Ok && final(self).deep_view() == state,
                Err(error) => r is Err && r->Err_0.deep_view() == error,
            },
    {
        match value {
            Err(error) => Err(error),
            Ok(more) => {
                self.text.append(more.as_str());
                Ok(())
            },
        }
    }
}

fn pop_track(tracks: &mut Vec<ReleaseTrack>) -> (r: ReleaseTrack)
    ensures
        ({
            let before = old(tracks).deep_view();
            if before.len() > 0 {
                r.deep_view() == before.last() && final(tracks).deep_view() == before.drop_last()
            } else {
                r.deep_view() == model::ReleaseTrackView::blank() && final(tracks).deep_view()
                    == before
            }
        }),
{
    let ghost before = tracks.deep_view();
    match tracks.pop() {
        Some(track) => {
            assert(tracks.deep_view() == before.drop_last());
            track
        },
        None => {
            assert(tracks.deep_view() == before);
            ReleaseTrack::default()
        },
    }
}

impl RecordParser for ReleaseParser {
    type Item = Release;

    open spec fn opened(element: Element, items: Seq<xml::AttributeView>) -> Option<
        Result<ReleaseParserView, error::ErrorView>,
    > {
        if element == Element::Release {
            Some(
                match release_attributes(items) {
                    Err(error) => Err(error),
                    Ok((id, status)) => Ok(release_opened(id, status)),
                },
            )
        } else {
            None
        }
    }

    open spec fn stepped(state: ReleaseParserView, event: xml::EventView) -> Result<
        (ReleaseParserView, Option<model::ReleaseView>),
        error::ErrorView,
    > {
        release_stepped(state, event)
    }

    proof fn end_of_input_fails(state: ReleaseParserView, event: xml::EventView) {
    }

    fn open(element: Element, items: &Vec<AttributeItem>) -> (r: Option<
        Result<ReleaseParser, ParseError>,
    >) {
        if element == Element::Release {
            Some(
                match extract_release_attrs(items) {
                    Err(error) => Err(error),
                    Ok((id, status)) => Ok(ReleaseParser::new(id, status)),
                },
            )
        } else {
            None
        }
    }

    fn step(&mut self, event: &XmlEvent) -> (r: Result<Option<Release>, ParseError>) {
        let outcome = match &event.kind {
            EventKind::OpenTag(items) => self.open_tag(
                xml::tag_element_of(event.content.as_slice()),
                items,
            ),
            EventKind::EmptyTag(items) => self.empty_tag(
                xml::tag_element_of(event.content.as_slice()),
                items,
            ),
            EventKind::CloseTag => {
                let element = Element::from_name(event.content.as_slice());
                if element == Element::Release {
                    let mut release = Release::default();
                    std::mem::swap(&mut release, &mut self.release);
                    return Ok(Some(release));
                }
                self.close_tag(element);
                Ok(())
            },
            EventKind::Characters => self.add_text(xml::unescape_text(event.content.as_slice())),
            EventKind::Reference => self.add_text(
                xml::resolve_general_ref(event.content.as_slice()),
            ),
            EventKind::Section => self.add_text(Ok(xml::decode_lossy(event.content.as_slice()))),
            EventKind::EndOfInput => Err(ParseError::UnexpectedEnd(Record::Release)),
            EventKind::Other => Ok(()),
        };
        match outcome {
            Err(error) => Err(error),
            Ok(()) => Ok(None),
        }
    }
}

/// The first release of a document with the given events, or why there is none.
/// `current` is the state of the release that is being read.
pub open spec fn first_release(
    current: Option<ReleaseParserView>,
    events: Seq<xml::EventResultView>,
) -> Result<model::ReleaseView, error::ErrorView>
    decreases events.len(),
{
    if events.len() == 0 {
        Err(error::ErrorView::NotFound(Record::Release))
    } else {
        match record::fed::<ReleaseParser>(current, events[0]) {
            Err(error::ErrorView::MalformedAt(message, _)) => Err(
                error::ErrorView::Malformed(message),
            ),
            Err(error) => Err(error),
            Ok((next, Progress::Reading)) => first_release(next, events.skip(1)),
            Ok((_, Progress::Complete(release))) => Ok(release),
            Ok((_, Progress::End)) => Err(error::ErrorView::NotFound(Record::Release)),
        }
    }
}

/// Reads one release from a byte string that holds `<release>...</release>`.
pub fn parse_release_from_bytes(bytes: &[u8]) -> (r: Result<Release, ParseError>)
    ensures
        error::result_view(r) == first_release(None, xml::xml_events(bytes@)),
{
    let mut xml_reader = xml::open_reader(bytes);
    let mut reader = RecordReader::<ReleaseParser>::new();
    loop
        invariant
            xml::complete(xml::reader_events(xml_reader)),
            first_release(reader.current.deep_view(), xml::reader_events(xml_reader))
                == first_release(None, xml::xml_events(bytes@)),
        decreases xml::reader_events(xml_reader).len(),
    {
        proof {
            record::lemma_goes_on::<ReleaseParser>(
                reader.current.deep_view(),
                xml::reader_events(xml_reader),
            );
        }
        let result = xml::read_event(&mut xml_reader);
        match reader.feed(result) {
            Err(ParseError::MalformedAt(message, _)) => {
                return Err(ParseError::Malformed(message));
            },
            Err(error) => {
                return Err(error);
            },
            Ok(Progress::Reading) => {},
            Ok(Progress::Complete(release)) => {
                return Ok(release);
            },
            Ok(Progress::End) => {
                return Err(ParseError::NotFound(Record::Release));
            },
        }
    }
}

/// The releases of `found` that are kept: those with an artist, up to the limit. Gives
/// whether it was reached.
pub open spec fn releases_kept(found: Seq<model::ReleaseView>, limit: Option<usize>) -> (
    Seq<model::ReleaseView>,
    bool,
)
    decreases found.len(),
{
    if found.len() == 0 {
        (Seq::empty(), limit == Some(0usize))
    } else {
        let (kept, reached) = releases_kept(found.drop_last(), limit);
        if reached || found.last().artists.len() == 0 {
            (kept, reached)
        } else {
            (
                kept.push(found.last()),
                match limit {
                    Some(n) => kept.len() + 1 >= n,
                    None => false,
                },
            )
        }
    }
}

proof fn lemma_reached_stays(
    found: Seq<model::ReleaseView>,
    more: Seq<model::ReleaseView>,
    limit: Option<usize>,
)
    requires
        releases_kept(found, limit).1,
    ensures
        releases_kept(found + more, limit) == releases_kept(found, limit),
    decreases more.len(),
{
    if more.len() == 0 {
        assert(found + more == found);
    } else {
        assert((found + more).drop_last() == found + more.drop_last());
        lemma_reached_stays(found, more.drop_last(), limit);
    }
}

/// Appends the releases of a document to `releases`: those with an artist, and no
/// more once `limit` is reached, so none under a limit of zero. Gives their number, or the error that ended the
/// reading; the releases before it are in `releases`.
pub fn parse_releases(document: &[u8], limit: Option<usize>, releases: &mut Vec<Release>) -> (r:
    Result<usize, ParseError>)
    ensures
        ({
            let all = record::records::<ReleaseParser>(None, xml::xml_events(document@));
            let (kept, reached) = releases_kept(all.0, limit);
            &&& final(releases).deep_view() == old(releases).deep_view() + kept
            &&& match all.1 {
                Some(error) if !reached => r is Err && r->Err_0.deep_view() == error,
                _ => r == Ok::<usize, ParseError>(kept.len() as usize) && kept.len()
                    <= usize::MAX,
            }
        }),
{
    let mut xml_reader = xml::open_reader(document);
    let mut reader = RecordReader::<ReleaseParser>::new();
    let ghost all = record::records::<ReleaseParser>(None, xml::xml_events(document@));
    let ghost before = releases.deep_view();
    let ghost mut seen: Seq<model::ReleaseView> = Seq::empty();
    let mut count: usize = 0;
    assert(seen + all.0 == all.0);
    assert(before + Seq::<model::ReleaseView>::empty() == before);
    if let Some(n) = limit {
        if n == 0 {
            proof {
                lemma_reached_stays(seen, all.0, limit);
            }
            return Ok(0);
        }
    }
    loop
        invariant
            xml::complete(xml::reader_events(xml_reader)),
            before == old(releases).deep_view(),
            all == record::records::<ReleaseParser>(None, xml::xml_events(document@)),
            ({
                let rest = record::records::<ReleaseParser>(
                    reader.current.deep_view(),
                    xml::reader_events(xml_reader),
                );
                &&& seen + rest.0 == all.0
                &&& rest.1 == all.1
            }),
            releases.deep_view() == before + releases_kept(seen, limit).0,
            !releases_kept(seen, limit).1,
            count == releases_kept(seen, limit).0.len(),
            count <= releases.len(),
        decreases xml::reader_events(xml_reader).len(),
    {
        let ghost events = xml::reader_events(xml_reader);
        proof {
            record::lemma_goes_on::<ReleaseParser>(reader.current.deep_view(), events);
        }
        let result = xml::read_event(&mut xml_reader);
        match reader.feed(result) {
            Err(error) => {
                assert(seen + Seq::<model::ReleaseView>::empty() == seen);
                return Err(error);
            },
            Ok(Progress::Reading) => {},
            Ok(Progress::Complete(release)) => {
                let ghost value = release.deep_view();
                let ghost longer = seen.push(value);
                let ghost rest = record::records::<ReleaseParser>(
                    reader.current.deep_view(),
                    events.skip(1),
                ).0;
                proof {
                    assert(longer.drop_last() == seen);
                    assert(seen + (seq![value] + rest) == longer + rest);
                    seen = longer;
                }
                if release.artists.len() > 0 {
                    text::push_item(releases, release);
                    assert(releases.deep_view() == before + releases_kept(longer, limit).0);
                    assert(count < releases.deep_view().len() == releases.len());
                    count += 1;
                    if let Some(n) = limit {
                        if count >= n {
                            proof {
                                lemma_reached_stays(longer, rest, limit);
                            }
                            return Ok(count);
                        }
                    }
                }
            },
            Ok(Progress::End) => {
                assert(seen + Seq::<model::ReleaseView>::empty() == seen);
                return Ok(count);
            },
        }
    }
}

} // verus!
