//! Where releases go.

use crate::csv_file::ChunkView;
use crate::model;
use crate::model::Release;
use vstd::prelude::*;

verus! {

/// The account of a target that was given one more release.
pub open spec fn with_release(
    received: Option<Seq<model::ReleaseView>>,
    release: model::ReleaseView,
) -> Option<Seq<model::ReleaseView>> {
    match received {
        Some(releases) => Some(releases.push(release)),
        None => None,
    }
}

/// The account of a target that was given more releases.
pub open spec fn with_releases(
    received: Option<Seq<model::ReleaseView>>,
    more: Seq<model::ReleaseView>,
) -> Option<Seq<model::ReleaseView>> {
    match received {
        Some(releases) => Some(releases + more),
        None => None,
    }
}

/// What a target has passed on.
pub struct OutgoingView {
    /// The pieces that wait for whoever stores them.
    pub pieces: Seq<ChunkView>,
    /// What was passed on of each file.
    pub files: Seq<Seq<u8>>,
}

/// A target that releases are written to, such as CSV files or a database.
///
/// A target may hold back what it is given. `finish` is called after the last
/// release. A target that failed is not called again.
pub trait ReleaseOutput {
    type Error;

    /// Whether the target can take a release.
    open spec fn ready(&self) -> bool {
        true
    }

    /// The releases that the target was given, in order, where the target keeps account
    /// of them.
    open spec fn received(&self) -> Option<Seq<model::ReleaseView>> {
        None
    }

    /// What the target has passed on, where it keeps account of that.
    open spec fn outgoing(&self) -> OutgoingView {
        OutgoingView { pieces: Seq::empty(), files: Seq::empty() }
    }

    /// Whether nothing that the target does can fail.
    open spec fn infallible() -> bool {
        false
    }

    /// How the target changes where it passes on what it holds back. A target that says
    /// nothing of itself here may change in any way.
    open spec fn passed_on(&self, after: &Self) -> bool {
        true
    }

    /// Takes a release with all that belongs to it.
    fn write_release(&mut self, release: &Release) -> (r: Result<(), Self::Error>)
        requires
            old(self).ready(),
        ensures
            r is Ok ==> final(self).ready(),
            final(self).received() == with_release(old(self).received(), release.deep_view()),
            r is Ok ==> final(self).outgoing() == old(self).outgoing(),
            Self::infallible() ==> r is Ok,
    ;

    /// Passes on what the target holds back.
    fn flush(&mut self) -> (r: Result<(), Self::Error>)
        requires
            old(self).ready(),
        ensures
            r is Ok ==> final(self).ready(),
            final(self).received() == old(self).received(),
            Self::infallible() ==> r is Ok,
            r is Ok ==> old(self).passed_on(final(self)),
    ;

    /// Passes on what the target holds back, and completes it.
    fn finish(&mut self) -> (r: Result<(), Self::Error>)
        requires
            old(self).ready(),
        ensures
            r is Ok ==> final(self).ready(),
            final(self).received() == old(self).received(),
            Self::infallible() ==> r is Ok,
            r is Ok ==> old(self).passed_on(final(self)),
    ;
}

} // verus!
