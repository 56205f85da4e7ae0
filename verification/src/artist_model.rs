//! The data model of Discogs artists.
//!
//! The structs mirror the `<artist>` element of the artists dump.

use vstd::prelude::*;

verus! {

/// An artist: one `<artist>` element of the artists dump.
#[derive(Debug, Clone)]
pub struct Artist {
    pub id: u64,
    pub name: String,
    pub profile: String,
    pub aliases: Vec<String>,
    pub name_variations: Vec<String>,
    pub members: Vec<Member>,
    pub urls: Vec<String>,
}

/// The model of a [`Artist`].
pub struct ArtistView {
    pub id: u64,
    pub name: Seq<char>,
    pub profile: Seq<char>,
    pub aliases: Seq<Seq<char>>,
    pub name_variations: Seq<Seq<char>>,
    pub members: Seq<MemberView>,
    pub urls: Seq<Seq<char>>,
}

impl ArtistView {
    /// The model of a default [`Artist`]: nothing is set.
    pub open spec fn blank() -> ArtistView {
        ArtistView {
            id: 0,
            name: Seq::empty(),
            profile: Seq::empty(),
            aliases: Seq::empty(),
            name_variations: Seq::empty(),
            members: Seq::empty(),
            urls: Seq::empty(),
        }
    }
}

impl DeepView for Artist {
    type V = ArtistView;

    open spec fn deep_view(&self) -> ArtistView {
        ArtistView {
            id: self.id,
            name: self.name@,
            profile: self.profile@,
            aliases: self.aliases.deep_view(),
            name_variations: self.name_variations.deep_view(),
            members: self.members.deep_view(),
            urls: self.urls.deep_view(),
        }
    }
}

impl Default for Artist {
    fn default() -> (r: Artist)
        ensures
            r.deep_view() == ArtistView::blank(),
    {
        let r = Artist {
            id: 0,
            name: String::new(),
            profile: String::new(),
            aliases: Vec::new(),
            name_variations: Vec::new(),
            members: Vec::new(),
            urls: Vec::new(),
        };
        assert(r.aliases.deep_view() == Seq::<Seq<char>>::empty());
        assert(r.name_variations.deep_view() == Seq::<Seq<char>>::empty());
        assert(r.members.deep_view() == Seq::<MemberView>::empty());
        assert(r.urls.deep_view() == Seq::<Seq<char>>::empty());
        r
    }
}

/// A member of a group.
#[derive(Debug, Clone)]
pub struct Member {
    pub id: u64,
    pub name: String,
}

/// The model of a [`Member`].
pub struct MemberView {
    pub id: u64,
    pub name: Seq<char>,
}

impl MemberView {
    /// The model of a default [`Member`]: nothing is set.
    pub open spec fn blank() -> MemberView {
        MemberView {
            id: 0,
            name: Seq::empty(),
        }
    }
}

impl DeepView for Member {
    type V = MemberView;

    open spec fn deep_view(&self) -> MemberView {
        MemberView {
            id: self.id,
            name: self.name@,
        }
    }
}

impl Default for Member {
    fn default() -> (r: Member)
        ensures
            r.deep_view() == MemberView::blank(),
    {
        Member {
            id: 0,
            name: String::new(),
        }
    }
}

} // verus!
