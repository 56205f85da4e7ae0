//! The elements of the Discogs dumps that are read.

use crate::text;
use vstd::prelude::*;

verus! {

/// An element of a dump.
#[derive(Clone, Copy, PartialEq, Eq, Structural, Debug)]
pub enum Element {
    Artist,
    Artists,
    ExtraArtists,
    TrackList,
    Track,
    Label,
    Format,
    Image,
    Genres,
    Styles,
    Companies,
    Company,
    Videos,
    Video,
    Release,
    Title,
    Country,
    Released,
    Notes,
    DataQuality,
    MasterId,
    Id,
    Name,
    Genre,
    Style,
    EntityTypeName,
    EntityType,
    Anv,
    Join,
    Position,
    Duration,
    Role,
    NameVariations,
    Aliases,
    Members,
    Profile,
    Urls,
    Url,
    SubLabels,
    ParentLabel,
    Master,
    MainRelease,
    Year,
    /// An element that nothing is read from.
    Unknown,
}

/// Whether `name` is the UTF-8 encoding of `text`.
pub open spec fn named(name: Seq<u8>, text: &str) -> bool {
    name == vstd::utf8::encode_utf8(text@)
}

/// The element with the given name.
pub open spec fn element(name: Seq<u8>) -> Element {
    if named(name, "artist") {
        Element::Artist
    } else if named(name, "artists") {
        Element::Artists
    } else if named(name, "extraartists") {
        Element::ExtraArtists
    } else if named(name, "tracklist") {
        Element::TrackList
    } else if named(name, "track") {
        Element::Track
    } else if named(name, "label") {
        Element::Label
    } else if named(name, "format") {
        Element::Format
    } else if named(name, "image") {
        Element::Image
    } else if named(name, "genres") {
        Element::Genres
    } else if named(name, "styles") {
        Element::Styles
    } else if named(name, "companies") {
        Element::Companies
    } else if named(name, "company") {
        Element::Company
    } else if named(name, "videos") {
        Element::Videos
    } else if named(name, "video") {
        Element::Video
    } else if named(name, "release") {
        Element::Release
    } else if named(name, "title") {
        Element::Title
    } else if named(name, "country") {
        Element::Country
    } else if named(name, "released") {
        Element::Released
    } else if named(name, "notes") {
        Element::Notes
    } else if named(name, "data_quality") {
        Element::DataQuality
    } else if named(name, "master_id") {
        Element::MasterId
    } else if named(name, "id") {
        Element::Id
    } else if named(name, "name") {
        Element::Name
    } else if named(name, "genre") {
        Element::Genre
    } else if named(name, "style") {
        Element::Style
    } else if named(name, "entity_type_name") {
        Element::EntityTypeName
    } else if named(name, "entity_type") {
        Element::EntityType
    } else if named(name, "anv") {
        Element::Anv
    } else if named(name, "join") {
        Element::Join
    } else if named(name, "position") {
        Element::Position
    } else if named(name, "duration") {
        Element::Duration
    } else if named(name, "role") {
        Element::Role
    } else if named(name, "namevariations") {
        Element::NameVariations
    } else if named(name, "aliases") {
        Element::Aliases
    } else if named(name, "members") {
        Element::Members
    } else if named(name, "profile") {
        Element::Profile
    } else if named(name, "urls") {
        Element::Urls
    } else if named(name, "url") {
        Element::Url
    } else if named(name, "sublabels") {
        Element::SubLabels
    } else if named(name, "parentLabel") {
        Element::ParentLabel
    } else if named(name, "master") {
        Element::Master
    } else if named(name, "main_release") {
        Element::MainRelease
    } else if named(name, "year") {
        Element::Year
    } else {
        Element::Unknown
    }
}

impl Element {
    /// The element with the given name.
    pub fn from_name(name: &[u8]) -> (r: Element)
        ensures
            r == element(name@),
    {
        if text::bytes_are(name, "artist") {
            Element::Artist
        } else if text::bytes_are(name, "artists") {
            Element::Artists
        } else if text::bytes_are(name, "extraartists") {
            Element::ExtraArtists
        } else if text::bytes_are(name, "tracklist") {
            Element::TrackList
        } else if text::bytes_are(name, "track") {
            Element::Track
        } else if text::bytes_are(name, "label") {
            Element::Label
        } else if text::bytes_are(name, "format") {
            Element::Format
        } else if text::bytes_are(name, "image") {
            Element::Image
        } else if text::bytes_are(name, "genres") {
            Element::Genres
        } else if text::bytes_are(name, "styles") {
            Element::Styles
        } else if text::bytes_are(name, "companies") {
            Element::Companies
        } else if text::bytes_are(name, "company") {
            Element::Company
        } else if text::bytes_are(name, "videos") {
            Element::Videos
        } else if text::bytes_are(name, "video") {
            Element::Video
        } else if text::bytes_are(name, "release") {
            Element::Release
        } else if text::bytes_are(name, "title") {
            Element::Title
        } else if text::bytes_are(name, "country") {
            Element::Country
        } else if text::bytes_are(name, "released") {
            Element::Released
        } else if text::bytes_are(name, "notes") {
            Element::Notes
        } else if text::bytes_are(name, "data_quality") {
            Element::DataQuality
        } else if text::bytes_are(name, "master_id") {
            Element::MasterId
        } else if text::bytes_are(name, "id") {
            Element::Id
        } else if text::bytes_are(name, "name") {
            Element::Name
        } else if text::bytes_are(name, "genre") {
            Element::Genre
        } else if text::bytes_are(name, "style") {
            Element::Style
        } else if text::bytes_are(name, "entity_type_name") {
            Element::EntityTypeName
        } else if text::bytes_are(name, "entity_type") {
            Element::EntityType
        } else if text::bytes_are(name, "anv") {
            Element::Anv
        } else if text::bytes_are(name, "join") {
            Element::Join
        } else if text::bytes_are(name, "position") {
            Element::Position
        } else if text::bytes_are(name, "duration") {
            Element::Duration
        } else if text::bytes_are(name, "role") {
            Element::Role
        } else if text::bytes_are(name, "namevariations") {
            Element::NameVariations
        } else if text::bytes_are(name, "aliases") {
            Element::Aliases
        } else if text::bytes_are(name, "members") {
            Element::Members
        } else if text::bytes_are(name, "profile") {
            Element::Profile
        } else if text::bytes_are(name, "urls") {
            Element::Urls
        } else if text::bytes_are(name, "url") {
            Element::Url
        } else if text::bytes_are(name, "sublabels") {
            Element::SubLabels
        } else if text::bytes_are(name, "parentLabel") {
            Element::ParentLabel
        } else if text::bytes_are(name, "master") {
            Element::Master
        } else if text::bytes_are(name, "main_release") {
            Element::MainRelease
        } else if text::bytes_are(name, "year") {
            Element::Year
        } else {
            Element::Unknown
        }
    }
}

/// Every element has one name, and the names that nothing is read under are all others.
pub proof fn law_names(name: Seq<u8>)
    ensures
        element(name) == Element::Artist ==> name == vstd::utf8::encode_utf8("artist"@),
        element(name) == Element::Artists ==> name == vstd::utf8::encode_utf8("artists"@),
        element(name) == Element::ExtraArtists ==> name == vstd::utf8::encode_utf8("extraartists"@),
        element(name) == Element::TrackList ==> name == vstd::utf8::encode_utf8("tracklist"@),
        element(name) == Element::Track ==> name == vstd::utf8::encode_utf8("track"@),
        element(name) == Element::Label ==> name == vstd::utf8::encode_utf8("label"@),
        element(name) == Element::Format ==> name == vstd::utf8::encode_utf8("format"@),
        element(name) == Element::Image ==> name == vstd::utf8::encode_utf8("image"@),
        element(name) == Element::Genres ==> name == vstd::utf8::encode_utf8("genres"@),
        element(name) == Element::Styles ==> name == vstd::utf8::encode_utf8("styles"@),
        element(name) == Element::Companies ==> name == vstd::utf8::encode_utf8("companies"@),
        element(name) == Element::Company ==> name == vstd::utf8::encode_utf8("company"@),
        element(name) == Element::Videos ==> name == vstd::utf8::encode_utf8("videos"@),
        element(name) == Element::Video ==> name == vstd::utf8::encode_utf8("video"@),
        element(name) == Element::Release ==> name == vstd::utf8::encode_utf8("release"@),
        element(name) == Element::Title ==> name == vstd::utf8::encode_utf8("title"@),
        element(name) == Element::Country ==> name == vstd::utf8::encode_utf8("country"@),
        element(name) == Element::Released ==> name == vstd::utf8::encode_utf8("released"@),
        element(name) == Element::Notes ==> name == vstd::utf8::encode_utf8("notes"@),
        element(name) == Element::DataQuality ==> name == vstd::utf8::encode_utf8("data_quality"@),
        element(name) == Element::MasterId ==> name == vstd::utf8::encode_utf8("master_id"@),
        element(name) == Element::Id ==> name == vstd::utf8::encode_utf8("id"@),
        element(name) == Element::Name ==> name == vstd::utf8::encode_utf8("name"@),
        element(name) == Element::Genre ==> name == vstd::utf8::encode_utf8("genre"@),
        element(name) == Element::Style ==> name == vstd::utf8::encode_utf8("style"@),
        element(name) == Element::EntityTypeName ==> name == vstd::utf8::encode_utf8("entity_type_name"@),
        element(name) == Element::EntityType ==> name == vstd::utf8::encode_utf8("entity_type"@),
        element(name) == Element::Anv ==> name == vstd::utf8::encode_utf8("anv"@),
        element(name) == Element::Join ==> name == vstd::utf8::encode_utf8("join"@),
        element(name) == Element::Position ==> name == vstd::utf8::encode_utf8("position"@),
        element(name) == Element::Duration ==> name == vstd::utf8::encode_utf8("duration"@),
        element(name) == Element::Role ==> name == vstd::utf8::encode_utf8("role"@),
        element(name) == Element::NameVariations ==> name == vstd::utf8::encode_utf8("namevariations"@),
        element(name) == Element::Aliases ==> name == vstd::utf8::encode_utf8("aliases"@),
        element(name) == Element::Members ==> name == vstd::utf8::encode_utf8("members"@),
        element(name) == Element::Profile ==> name == vstd::utf8::encode_utf8("profile"@),
        element(name) == Element::Urls ==> name == vstd::utf8::encode_utf8("urls"@),
        element(name) == Element::Url ==> name == vstd::utf8::encode_utf8("url"@),
        element(name) == Element::SubLabels ==> name == vstd::utf8::encode_utf8("sublabels"@),
        element(name) == Element::ParentLabel ==> name == vstd::utf8::encode_utf8("parentLabel"@),
        element(name) == Element::Master ==> name == vstd::utf8::encode_utf8("master"@),
        element(name) == Element::MainRelease ==> name == vstd::utf8::encode_utf8("main_release"@),
        element(name) == Element::Year ==> name == vstd::utf8::encode_utf8("year"@),
        element(name) == Element::Unknown ==> name != vstd::utf8::encode_utf8("artist"@)
            && name != vstd::utf8::encode_utf8("artists"@)
            && name != vstd::utf8::encode_utf8("extraartists"@)
            && name != vstd::utf8::encode_utf8("tracklist"@)
            && name != vstd::utf8::encode_utf8("track"@)
            && name != vstd::utf8::encode_utf8("label"@)
            && name != vstd::utf8::encode_utf8("format"@)
            && name != vstd::utf8::encode_utf8("image"@)
            && name != vstd::utf8::encode_utf8("genres"@)
            && name != vstd::utf8::encode_utf8("styles"@)
            && name != vstd::utf8::encode_utf8("companies"@)
            && name != vstd::utf8::encode_utf8("company"@)
            && name != vstd::utf8::encode_utf8("videos"@)
            && name != vstd::utf8::encode_utf8("video"@)
            && name != vstd::utf8::encode_utf8("release"@)
            && name != vstd::utf8::encode_utf8("title"@)
            && name != vstd::utf8::encode_utf8("country"@)
            && name != vstd::utf8::encode_utf8("released"@)
            && name != vstd::utf8::encode_utf8("notes"@)
            && name != vstd::utf8::encode_utf8("data_quality"@)
            && name != vstd::utf8::encode_utf8("master_id"@)
            && name != vstd::utf8::encode_utf8("id"@)
            && name != vstd::utf8::encode_utf8("name"@)
            && name != vstd::utf8::encode_utf8("genre"@)
            && name != vstd::utf8::encode_utf8("style"@)
            && name != vstd::utf8::encode_utf8("entity_type_name"@)
            && name != vstd::utf8::encode_utf8("entity_type"@)
            && name != vstd::utf8::encode_utf8("anv"@)
            && name != vstd::utf8::encode_utf8("join"@)
            && name != vstd::utf8::encode_utf8("position"@)
            && name != vstd::utf8::encode_utf8("duration"@)
            && name != vstd::utf8::encode_utf8("role"@)
            && name != vstd::utf8::encode_utf8("namevariations"@)
            && name != vstd::utf8::encode_utf8("aliases"@)
            && name != vstd::utf8::encode_utf8("members"@)
            && name != vstd::utf8::encode_utf8("profile"@)
            && name != vstd::utf8::encode_utf8("urls"@)
            && name != vstd::utf8::encode_utf8("url"@)
            && name != vstd::utf8::encode_utf8("sublabels"@)
            && name != vstd::utf8::encode_utf8("parentLabel"@)
            && name != vstd::utf8::encode_utf8("master"@)
            && name != vstd::utf8::encode_utf8("main_release"@)
            && name != vstd::utf8::encode_utf8("year"@),
{
}

} // verus!
