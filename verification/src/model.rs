//! The data model of Discogs releases.
//!
//! The structs mirror the `<release>` element of the Discogs dumps. Each has a model
//! of plain mathematical values, which the contracts speak of.

use crate::text;
use vstd::prelude::*;

verus! {

/// A release: one `<release>` element of a Discogs dump.
#[derive(Debug, Clone)]
pub struct Release {
    pub id: u64,
    pub status: String,
    pub title: String,
    pub country: String,
    pub released: String,
    pub notes: String,
    pub data_quality: String,
    pub master_id: Option<u64>,
    pub formats: Vec<Format>,
    pub artists: Vec<ReleaseArtist>,
    pub extra_artists: Vec<ReleaseArtist>,
    pub labels: Vec<ReleaseLabel>,
    pub tracks: Vec<ReleaseTrack>,
    pub images: Vec<ReleaseImage>,
    pub genres: Vec<String>,
    pub styles: Vec<String>,
    pub companies: Vec<ReleaseCompany>,
    pub videos: Vec<ReleaseVideo>,
}

/// The model of a [`Release`].
pub struct ReleaseView {
    pub id: u64,
    pub status: Seq<char>,
    pub title: Seq<char>,
    pub country: Seq<char>,
    pub released: Seq<char>,
    pub notes: Seq<char>,
    pub data_quality: Seq<char>,
    pub master_id: Option<u64>,
    pub formats: Seq<FormatView>,
    pub artists: Seq<ReleaseArtistView>,
    pub extra_artists: Seq<ReleaseArtistView>,
    pub labels: Seq<ReleaseLabelView>,
    pub tracks: Seq<ReleaseTrackView>,
    pub images: Seq<ReleaseImageView>,
    pub genres: Seq<Seq<char>>,
    pub styles: Seq<Seq<char>>,
    pub companies: Seq<ReleaseCompanyView>,
    pub videos: Seq<ReleaseVideoView>,
}

impl ReleaseView {
    /// The model of a default [`Release`]: nothing is set.
    pub open spec fn blank() -> ReleaseView {
        ReleaseView {
            id: 0,
            status: Seq::empty(),
            title: Seq::empty(),
            country: Seq::empty(),
            released: Seq::empty(),
            notes: Seq::empty(),
            data_quality: Seq::empty(),
            master_id: None,
            formats: Seq::empty(),
            artists: Seq::empty(),
            extra_artists: Seq::empty(),
            labels: Seq::empty(),
            tracks: Seq::empty(),
            images: Seq::empty(),
            genres: Seq::empty(),
            styles: Seq::empty(),
            companies: Seq::empty(),
            videos: Seq::empty(),
        }
    }
}

impl DeepView for Release {
    type V = ReleaseView;

    open spec fn deep_view(&self) -> ReleaseView {
        ReleaseView {
            id: self.id,
            status: self.status@,
            title: self.title@,
            country: self.country@,
            released: self.released@,
            notes: self.notes@,
            data_quality: self.data_quality@,
            master_id: self.master_id,
            formats: self.formats.deep_view(),
            artists: self.artists.deep_view(),
            extra_artists: self.extra_artists.deep_view(),
            labels: self.labels.deep_view(),
            tracks: self.tracks.deep_view(),
            images: self.images.deep_view(),
            genres: self.genres.deep_view(),
            styles: self.styles.deep_view(),
            companies: self.companies.deep_view(),
            videos: self.videos.deep_view(),
        }
    }
}

impl Default for Release {
    fn default() -> (r: Release)
        ensures
            r.deep_view() == ReleaseView::blank(),
    {
        let r = Release {
            id: 0,
            status: String::new(),
            title: String::new(),
            country: String::new(),
            released: String::new(),
            notes: String::new(),
            data_quality: String::new(),
            master_id: None,
            formats: Vec::new(),
            artists: Vec::new(),
            extra_artists: Vec::new(),
            labels: Vec::new(),
            tracks: Vec::new(),
            images: Vec::new(),
            genres: Vec::new(),
            styles: Vec::new(),
            companies: Vec::new(),
            videos: Vec::new(),
        };
        assert(r.formats.deep_view() == Seq::<FormatView>::empty());
        assert(r.artists.deep_view() == Seq::<ReleaseArtistView>::empty());
        assert(r.extra_artists.deep_view() == Seq::<ReleaseArtistView>::empty());
        assert(r.labels.deep_view() == Seq::<ReleaseLabelView>::empty());
        assert(r.tracks.deep_view() == Seq::<ReleaseTrackView>::empty());
        assert(r.images.deep_view() == Seq::<ReleaseImageView>::empty());
        assert(r.genres.deep_view() == Seq::<Seq<char>>::empty());
        assert(r.styles.deep_view() == Seq::<Seq<char>>::empty());
        assert(r.companies.deep_view() == Seq::<ReleaseCompanyView>::empty());
        assert(r.videos.deep_view() == Seq::<ReleaseVideoView>::empty());
        r
    }
}

/// A medium that a release came out on.
#[derive(Debug, Clone)]
pub struct Format {
    pub name: String,
    pub qty: u32,
}

/// The model of a [`Format`].
pub struct FormatView {
    pub name: Seq<char>,
    pub qty: u32,
}

impl FormatView {
    /// The model of a default [`Format`]: nothing is set.
    pub open spec fn blank() -> FormatView {
        FormatView {
            name: Seq::empty(),
            qty: 0,
        }
    }
}

impl DeepView for Format {
    type V = FormatView;

    open spec fn deep_view(&self) -> FormatView {
        FormatView {
            name: self.name@,
            qty: self.qty,
        }
    }
}

impl Default for Format {
    fn default() -> (r: Format)
        ensures
            r.deep_view() == FormatView::blank(),
    {
        Format {
            name: String::new(),
            qty: 0,
        }
    }
}

/// An artist credit of a release.
#[derive(Debug, Clone)]
pub struct ReleaseArtist {
    pub artist_id: u64,
    pub name: String,
    /// The name variation that the credit uses.
    pub anv: String,
    pub join_field: String,
    /// The place among the credits of the release, from one.
    pub position: u32,
}

/// The model of a [`ReleaseArtist`].
pub struct ReleaseArtistView {
    pub artist_id: u64,
    pub name: Seq<char>,
    pub anv: Seq<char>,
    pub join_field: Seq<char>,
    pub position: u32,
}

impl ReleaseArtistView {
    /// The model of a default [`ReleaseArtist`]: nothing is set.
    pub open spec fn blank() -> ReleaseArtistView {
        ReleaseArtistView {
            artist_id: 0,
            name: Seq::empty(),
            anv: Seq::empty(),
            join_field: Seq::empty(),
            position: 0,
        }
    }
}

impl DeepView for ReleaseArtist {
    type V = ReleaseArtistView;

    open spec fn deep_view(&self) -> ReleaseArtistView {
        ReleaseArtistView {
            artist_id: self.artist_id,
            name: self.name@,
            anv: self.anv@,
            join_field: self.join_field@,
            position: self.position,
        }
    }
}

impl Default for ReleaseArtist {
    fn default() -> (r: ReleaseArtist)
        ensures
            r.deep_view() == ReleaseArtistView::blank(),
    {
        ReleaseArtist {
            artist_id: 0,
            name: String::new(),
            anv: String::new(),
            join_field: String::new(),
            position: 0,
        }
    }
}

/// A label and a catalogue number of a release.
#[derive(Debug, Clone)]
pub struct ReleaseLabel {
    pub name: String,
    pub catno: String,
}

/// The model of a [`ReleaseLabel`].
pub struct ReleaseLabelView {
    pub name: Seq<char>,
    pub catno: Seq<char>,
}

impl ReleaseLabelView {
    /// The model of a default [`ReleaseLabel`]: nothing is set.
    pub open spec fn blank() -> ReleaseLabelView {
        ReleaseLabelView {
            name: Seq::empty(),
            catno: Seq::empty(),
        }
    }
}

impl DeepView for ReleaseLabel {
    type V = ReleaseLabelView;

    open spec fn deep_view(&self) -> ReleaseLabelView {
        ReleaseLabelView {
            name: self.name@,
            catno: self.catno@,
        }
    }
}

impl Default for ReleaseLabel {
    fn default() -> (r: ReleaseLabel)
        ensures
            r.deep_view() == ReleaseLabelView::blank(),
    {
        ReleaseLabel {
            name: String::new(),
            catno: String::new(),
        }
    }
}

/// A track of a release.
#[derive(Debug, Clone)]
pub struct ReleaseTrack {
    pub position: String,
    pub title: String,
    pub duration: String,
    pub artists: Vec<TrackArtist>,
    pub extra_artists: Vec<TrackArtist>,
}

/// The model of a [`ReleaseTrack`].
pub struct ReleaseTrackView {
    pub position: Seq<char>,
    pub title: Seq<char>,
    pub duration: Seq<char>,
    pub artists: Seq<TrackArtistView>,
    pub extra_artists: Seq<TrackArtistView>,
}

impl ReleaseTrackView {
    /// The model of a default [`ReleaseTrack`]: nothing is set.
    pub open spec fn blank() -> ReleaseTrackView {
        ReleaseTrackView {
            position: Seq::empty(),
            title: Seq::empty(),
            duration: Seq::empty(),
            artists: Seq::empty(),
            extra_artists: Seq::empty(),
        }
    }
}

impl DeepView for ReleaseTrack {
    type V = ReleaseTrackView;

    open spec fn deep_view(&self) -> ReleaseTrackView {
        ReleaseTrackView {
            position: self.position@,
            title: self.title@,
            duration: self.duration@,
            artists: self.artists.deep_view(),
            extra_artists: self.extra_artists.deep_view(),
        }
    }
}

impl Default for ReleaseTrack {
    fn default() -> (r: ReleaseTrack)
        ensures
            r.deep_view() == ReleaseTrackView::blank(),
    {
        let r = ReleaseTrack {
            position: String::new(),
            title: String::new(),
            duration: String::new(),
            artists: Vec::new(),
            extra_artists: Vec::new(),
        };
        assert(r.artists.deep_view() == Seq::<TrackArtistView>::empty());
        assert(r.extra_artists.deep_view() == Seq::<TrackArtistView>::empty());
        r
    }
}

/// An artist credit of a track.
#[derive(Debug, Clone)]
pub struct TrackArtist {
    pub name: String,
    /// What the artist did; empty for a main credit.
    pub role: String,
}

/// The model of a [`TrackArtist`].
pub struct TrackArtistView {
    pub name: Seq<char>,
    pub role: Seq<char>,
}

impl TrackArtistView {
    /// The model of a default [`TrackArtist`]: nothing is set.
    pub open spec fn blank() -> TrackArtistView {
        TrackArtistView {
            name: Seq::empty(),
            role: Seq::empty(),
        }
    }
}

impl DeepView for TrackArtist {
    type V = TrackArtistView;

    open spec fn deep_view(&self) -> TrackArtistView {
        TrackArtistView {
            name: self.name@,
            role: self.role@,
        }
    }
}

impl Default for TrackArtist {
    fn default() -> (r: TrackArtist)
        ensures
            r.deep_view() == TrackArtistView::blank(),
    {
        TrackArtist {
            name: String::new(),
            role: String::new(),
        }
    }
}

/// An image of a release.
#[derive(Debug, Clone)]
pub struct ReleaseImage {
    pub image_type: String,
    pub width: u32,
    pub height: u32,
    pub uri: String,
}

/// The model of a [`ReleaseImage`].
pub struct ReleaseImageView {
    pub image_type: Seq<char>,
    pub width: u32,
    pub height: u32,
    pub uri: Seq<char>,
}

impl ReleaseImageView {
    /// The model of a default [`ReleaseImage`]: nothing is set.
    pub open spec fn blank() -> ReleaseImageView {
        ReleaseImageView {
            image_type: Seq::empty(),
            width: 0,
            height: 0,
            uri: Seq::empty(),
        }
    }
}

impl DeepView for ReleaseImage {
    type V = ReleaseImageView;

    open spec fn deep_view(&self) -> ReleaseImageView {
        ReleaseImageView {
            image_type: self.image_type@,
            width: self.width,
            height: self.height,
            uri: self.uri@,
        }
    }
}

impl Default for ReleaseImage {
    fn default() -> (r: ReleaseImage)
        ensures
            r.deep_view() == ReleaseImageView::blank(),
    {
        ReleaseImage {
            image_type: String::new(),
            width: 0,
            height: 0,
            uri: String::new(),
        }
    }
}

/// A company that had a part in a release.
#[derive(Debug, Clone)]
pub struct ReleaseCompany {
    pub company_id: u64,
    pub name: String,
    pub entity_type: u32,
    pub entity_type_name: String,
}

/// The model of a [`ReleaseCompany`].
pub struct ReleaseCompanyView {
    pub company_id: u64,
    pub name: Seq<char>,
    pub entity_type: u32,
    pub entity_type_name: Seq<char>,
}

impl ReleaseCompanyView {
    /// The model of a default [`ReleaseCompany`]: nothing is set.
    pub open spec fn blank() -> ReleaseCompanyView {
        ReleaseCompanyView {
            company_id: 0,
            name: Seq::empty(),
            entity_type: 0,
            entity_type_name: Seq::empty(),
        }
    }
}

impl DeepView for ReleaseCompany {
    type V = ReleaseCompanyView;

    open spec fn deep_view(&self) -> ReleaseCompanyView {
        ReleaseCompanyView {
            company_id: self.company_id,
            name: self.name@,
            entity_type: self.entity_type,
            entity_type_name: self.entity_type_name@,
        }
    }
}

impl Default for ReleaseCompany {
    fn default() -> (r: ReleaseCompany)
        ensures
            r.deep_view() == ReleaseCompanyView::blank(),
    {
        ReleaseCompany {
            company_id: 0,
            name: String::new(),
            entity_type: 0,
            entity_type_name: String::new(),
        }
    }
}

/// A video of a release.
#[derive(Debug, Clone)]
pub struct ReleaseVideo {
    pub src: String,
    pub title: String,
    pub duration: Option<u32>,
    pub embed: bool,
}

/// The model of a [`ReleaseVideo`].
pub struct ReleaseVideoView {
    pub src: Seq<char>,
    pub title: Seq<char>,
    pub duration: Option<u32>,
    pub embed: bool,
}

impl ReleaseVideoView {
    /// The model of a default [`ReleaseVideo`]: nothing is set.
    pub open spec fn blank() -> ReleaseVideoView {
        ReleaseVideoView {
            src: Seq::empty(),
            title: Seq::empty(),
            duration: None,
            embed: false,
        }
    }
}

impl DeepView for ReleaseVideo {
    type V = ReleaseVideoView;

    open spec fn deep_view(&self) -> ReleaseVideoView {
        ReleaseVideoView {
            src: self.src@,
            title: self.title@,
            duration: self.duration,
            embed: self.embed,
        }
    }
}

impl Default for ReleaseVideo {
    fn default() -> (r: ReleaseVideo)
        ensures
            r.deep_view() == ReleaseVideoView::blank(),
    {
        ReleaseVideo {
            src: String::new(),
            title: String::new(),
            duration: None,
            embed: false,
        }
    }
}

/// The text of one format: its name, with the quantity in front where there is
/// more than one.
pub open spec fn format_text(format: FormatView) -> Seq<char> {
    if format.qty > 1 {
        text::decimal(format.qty as nat) + "x"@ + format.name
    } else {
        format.name
    }
}

/// The text of a list of formats, separated by a comma and a space.
pub open spec fn formats_text(formats: Seq<FormatView>) -> Seq<char>
    decreases formats.len(),
{
    if formats.len() == 0 {
        Seq::empty()
    } else if formats.len() == 1 {
        format_text(formats[0])
    } else {
        formats_text(formats.drop_last()) + ", "@ + format_text(formats.last())
    }
}

impl Release {
    /// The formats of the release as one string.
    ///
    /// A format is its name, as in "CD"; with a quantity over one the quantity
    /// stands before it, as in "2xLP"; a comma and a space separate formats, as in
    /// "CD, 2xLP".
    pub fn format_string(&self) -> (r: String)
        ensures
            r@ == formats_text(self.formats.deep_view()),
    {
        let mut r = String::new();
        let mut i: usize = 0;
        let ghost formats = self.formats.deep_view();
        while i < self.formats.len()
            invariant
                i <= self.formats.len(),
                formats == self.formats.deep_view(),
                r@ == formats_text(formats.take(i as int)),
            decreases self.formats.len() - i,
        {
            let ghost longer = formats.take(i + 1);
            assert(longer.drop_last() == formats.take(i as int));
            if i > 0 {
                r.append(", ");
            }
            let format = &self.formats[i];
            assert(formats[i as int] == format.deep_view());
            if format.qty > 1 {
                let qty = text::decimal_string(format.qty as u64);
                r.append(qty.as_str());
                r.append("x");
            }
            r.append(format.name.as_str());
            proof {
                assert(longer.last() == format.deep_view());
                let shorter = if i > 0 { formats_text(formats.take(i as int)) + ", "@ } else { Seq::empty() };
                if format.qty > 1 {
                    assert(shorter + text::decimal(format.qty as nat) + "x"@ + format.name@
                        == shorter + format_text(format.deep_view()));
                }
                assert(r@ == shorter + format_text(format.deep_view()));
                if i == 0 {
                    assert(r@ == format_text(longer[0]));
                }
            }
            i += 1;
        }
        assert(formats.take(formats.len() as int) == formats);
        r
    }
}

} // verus!
