//! The data model of Discogs master releases.
//!
//! The structs mirror the `<master>` element of the masters dump. A master groups
//! the pressings and editions of one album.

use vstd::prelude::*;

verus! {

/// A master release: one `<master>` element of the masters dump.
#[derive(Debug, Clone)]
pub struct Master {
    pub id: u64,
    pub title: String,
    pub main_release_id: Option<u64>,
    pub year: Option<u16>,
    pub artists: Vec<MasterArtist>,
}

/// The model of a [`Master`].
pub struct MasterView {
    pub id: u64,
    pub title: Seq<char>,
    pub main_release_id: Option<u64>,
    pub year: Option<u16>,
    pub artists: Seq<MasterArtistView>,
}

impl MasterView {
    /// The model of a default [`Master`]: nothing is set.
    pub open spec fn blank() -> MasterView {
        MasterView {
            id: 0,
            title: Seq::empty(),
            main_release_id: None,
            year: None,
            artists: Seq::empty(),
        }
    }
}

impl DeepView for Master {
    type V = MasterView;

    open spec fn deep_view(&self) -> MasterView {
        MasterView {
            id: self.id,
            title: self.title@,
            main_release_id: self.main_release_id,
            year: self.year,
            artists: self.artists.deep_view(),
        }
    }
}

impl Default for Master {
    fn default() -> (r: Master)
        ensures
            r.deep_view() == MasterView::blank(),
    {
        let r = Master {
            id: 0,
            title: String::new(),
            main_release_id: None,
            year: None,
            artists: Vec::new(),
        };
        assert(r.artists.deep_view() == Seq::<MasterArtistView>::empty());
        r
    }
}

/// An artist credit of a master release.
#[derive(Debug, Clone)]
pub struct MasterArtist {
    pub id: u64,
    pub name: String,
}

/// The model of a [`MasterArtist`].
pub struct MasterArtistView {
    pub id: u64,
    pub name: Seq<char>,
}

impl MasterArtistView {
    /// The model of a default [`MasterArtist`]: nothing is set.
    pub open spec fn blank() -> MasterArtistView {
        MasterArtistView {
            id: 0,
            name: Seq::empty(),
        }
    }
}

impl DeepView for MasterArtist {
    type V = MasterArtistView;

    open spec fn deep_view(&self) -> MasterArtistView {
        MasterArtistView {
            id: self.id,
            name: self.name@,
        }
    }
}

impl Default for MasterArtist {
    fn default() -> (r: MasterArtist)
        ensures
            r.deep_view() == MasterArtistView::blank(),
    {
        MasterArtist {
            id: 0,
            name: String::new(),
        }
    }
}

} // verus!
