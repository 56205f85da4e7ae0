//! From the bytes of a release to the output: which releases are kept, and which of
//! them are written.

use crate::csv_file;
use crate::error;
use crate::error::ParseError;
use crate::filter;
use crate::filter::{ArtistFilter, FilterError};
use crate::library_pairs;
use crate::library_pairs::LibraryPairs;
use crate::model;
use crate::model::Release;
use crate::output;
use crate::output::ReleaseOutput;
use crate::parser;
use crate::text;
use crate::xml;
use std::collections::HashSet;
use vstd::prelude::*;

verus! {

broadcast use vstd::std_specs::hash::group_hash_axioms;

/// A filter of releases: by artist, or by pairs of artist and title.
pub enum ReleaseFilter {
    Artists(ArtistFilter),
    Pairs(LibraryPairs),
}

/// The model of a [`ReleaseFilter`].
pub enum ReleaseFilterView {
    Artists(filter::ArtistFilterView),
    Pairs(Set<library_pairs::Pair>),
}

impl View for ReleaseFilter {
    type V = ReleaseFilterView;

    open spec fn view(&self) -> ReleaseFilterView {
        match self {
            ReleaseFilter::Artists(f) => ReleaseFilterView::Artists(f@),
            ReleaseFilter::Pairs(p) => ReleaseFilterView::Pairs(p@),
        }
    }
}

impl ReleaseFilter {
    /// The index of pairs is in order.
    pub open spec fn wf(self) -> bool {
        match self {
            ReleaseFilter::Artists(_) => true,
            ReleaseFilter::Pairs(p) => p.wf(),
        }
    }
}

/// The filter by artist for a list of artists, with the aliases and the name variations
/// in two CSV files where they are given.
pub open spec fn artist_filter(
    list: Seq<char>,
    aliases: Option<Seq<u8>>,
    name_variations: Option<Seq<u8>>,
) -> Result<filter::ArtistFilterView, filter::FilterErrorView> {
    let artists = filter::listed_artists(text::text_lines(list));
    let (known, outcome) = match aliases {
        Some(csv) => filter::aliases_loaded(
            filter::AliasMap::empty(),
            csv_file::csv_records(csv),
            2,
        ),
        None => (filter::AliasMap::empty(), Ok(0)),
    };
    match outcome {
        Err(error) => Err(error),
        Ok(_) => {
            let (known, outcome) = match name_variations {
                Some(csv) => filter::aliases_loaded(known, csv_file::csv_records(csv), 1),
                None => (known, Ok(0)),
            };
            match outcome {
                Err(error) => Err(error),
                Ok(_) => Ok(filter::ArtistFilterView { artists, aliases: known }),
            }
        },
    }
}

/// Builds the filter: by pairs where the rows of a library are given, else by artist
/// where a list of artists is given, else none. The aliases and the name variations go
/// with a list of artists only.
pub fn build_filter(
    library_rows: Option<&Vec<(String, String)>>,
    artist_list: Option<&str>,
    aliases: Option<&[u8]>,
    name_variations: Option<&[u8]>,
) -> (r: Result<Option<ReleaseFilter>, FilterError>)
    ensures
        match (library_rows, artist_list) {
            (Some(rows), _) => r is Ok && filter_wf(r->Ok_0) && filter_view(r->Ok_0) == Some(
                ReleaseFilterView::Pairs(library_pairs::library_pairs(rows.deep_view())),
            ),
            (None, Some(list)) => match artist_filter(
                list@,
                bytes_view(aliases),
                bytes_view(name_variations),
            ) {
                Ok(f) => r is Ok && filter_wf(r->Ok_0) && filter_view(r->Ok_0) == Some(
                    ReleaseFilterView::Artists(f),
                ),
                Err(error) => r is Err && r->Err_0.deep_view() == error,
            },
            (None, None) => r is Ok && r->Ok_0 is None,
        },
{
    if let Some(rows) = library_rows {
        return Ok(Some(ReleaseFilter::Pairs(LibraryPairs::from_db(rows))));
    }
    let list = match artist_list {
        None => {
            return Ok(None);
        },
        Some(list) => list,
    };
    let mut f = ArtistFilter::from_file(list);
    if let Some(csv) = aliases {
        if let Err(error) = f.load_aliases(csv) {
            return Err(error);
        }
    }
    if let Some(csv) = name_variations {
        if let Err(error) = f.load_name_variations(csv) {
            return Err(error);
        }
    }
    Ok(Some(ReleaseFilter::Artists(f)))
}

/// The model of bytes that may be missing.
pub open spec fn bytes_view(bytes: Option<&[u8]>) -> Option<Seq<u8>> {
    match bytes {
        Some(b) => Some(b@),
        None => None,
    }
}

/// The artist credits of a release: the main credits, and then the extra ones.
pub open spec fn credits(release: model::ReleaseView) -> Seq<model::ReleaseArtistView> {
    release.artists + release.extra_artists
}

/// Whether a filter accepts a release. A filter by artist does where a credited artist
/// is in the library, under the credited name or under another name of the artist. A
/// filter by pairs does where the library has the title by a credited artist.
pub open spec fn filter_accepts(filter: ReleaseFilterView, release: model::ReleaseView) -> bool {
    let all = credits(release);
    match filter {
        ReleaseFilterView::Artists(f) => exists|i: int|
            0 <= i < all.len() && (f.has_name((#[trigger] all[i]).name) || f.has_alias(
                all[i].artist_id,
            )),
        ReleaseFilterView::Pairs(pairs) => exists|i: int|
            0 <= i < all.len() && pairs.contains(
                (
                    library_pairs::title_form(release.title),
                    filter::artist_form((#[trigger] all[i]).name),
                ),
            ),
    }
}

fn credited_artists(release: &Release) -> (r: Vec<(u64, &str)>)
    ensures
        r.len() == credits(release.deep_view()).len(),
        forall|i: int|
            #![trigger r[i]]
            #![trigger credits(release.deep_view())[i]]
            0 <= i < r.len() ==> r[i].0 == credits(release.deep_view())[i].artist_id && r[i].1@
                == credits(release.deep_view())[i].name,
{
    let mut r: Vec<(u64, &str)> = Vec::new();
    let ghost all = credits(release.deep_view());
    let mut i: usize = 0;
    while i < release.artists.len()
        invariant
            i <= release.artists.len(),
            all == credits(release.deep_view()),
            r.len() == i,
            forall|j: int|
                0 <= j < i ==> (#[trigger] r[j]).0 == all[j].artist_id && r[j].1@ == all[j].name,
        decreases release.artists.len() - i,
    {
        let artist = &release.artists[i];
        assert(all[i as int] == artist.deep_view());
        r.push((artist.artist_id, artist.name.as_str()));
        i += 1;
    }
    let mut k: usize = 0;
    while k < release.extra_artists.len()
        invariant
            k <= release.extra_artists.len(),
            all == credits(release.deep_view()),
            r.len() == release.artists.len() + k,
            forall|j: int|
                0 <= j < r.len() ==> (#[trigger] r[j]).0 == all[j].artist_id && r[j].1@
                    == all[j].name,
        decreases release.extra_artists.len() - k,
    {
        let artist = &release.extra_artists[k];
        assert(all[release.artists.len() + k] == artist.deep_view());
        r.push((artist.artist_id, artist.name.as_str()));
        k += 1;
    }
    r
}

fn credited_names<'a>(artists: &Vec<(u64, &'a str)>) -> (r: Vec<&'a str>)
    ensures
        r.len() == artists.len(),
        forall|i: int| 0 <= i < r.len() ==> (#[trigger] r[i])@ == artists[i].1@,
{
    let mut r: Vec<&'a str> = Vec::new();
    let mut i: usize = 0;
    while i < artists.len()
        invariant
            i <= artists.len(),
            r.len() == i,
            forall|j: int| 0 <= j < i ==> (#[trigger] r[j])@ == artists[j].1@,
        decreases artists.len() - i,
    {
        let (_, name) = artists[i];
        r.push(name);
        i += 1;
    }
    r
}

/// Whether a filter accepts a release.
pub fn matches_filter(filter: &ReleaseFilter, release: &Release) -> (r: bool)
    requires
        filter.wf(),
    ensures
        r == filter_accepts(filter@, release.deep_view()),
{
    let artists = credited_artists(release);
    let names = credited_names(&artists);
    let ghost all = credits(release.deep_view());
    match filter {
        ReleaseFilter::Artists(f) => {
            if f.has_aliases() {
                let r = f.matches_any_with_ids(artists.as_slice());
                proof {
                    if r {
                        let i = choose|i: int|
                            0 <= i < artists.len() && (f@.has_name((#[trigger] artists@[i]).1@)
                                || f@.has_alias(artists@[i].0));
                        assert(f@.has_name(all[i].name) || f@.has_alias(all[i].artist_id));
                    }
                    if filter_accepts(filter@, release.deep_view()) {
                        let i = choose|i: int|
                            0 <= i < all.len() && (f@.has_name((#[trigger] all[i]).name)
                                || f@.has_alias(all[i].artist_id));
                        assert(f@.has_name(artists@[i].1@) || f@.has_alias(artists@[i].0));
                    }
                }
                r
            } else {
                let r = f.matches_any(&names);
                proof {
                    assert(forall|id: u64| !f@.has_alias(id)) by {
                        assert(forall|id: u64| !f@.aliases.dom().contains(id));
                    }
                    if r {
                        let i = choose|i: int|
                            0 <= i < names.len() && f@.has_name(#[trigger] names[i]@);
                        assert(names[i]@ == artists[i].1@ && artists[i].1@ == all[i].name);
                    }
                    if filter_accepts(filter@, release.deep_view()) {
                        let i = choose|i: int|
                            0 <= i < all.len() && (f@.has_name((#[trigger] all[i]).name)
                                || f@.has_alias(all[i].artist_id));
                        assert(names[i]@ == artists[i].1@ && artists[i].1@ == all[i].name);
                    }
                }
                r
            }
        },
        ReleaseFilter::Pairs(p) => {
            let r = p.matches(release.title.as_str(), &names);
            proof {
                let t = library_pairs::title_form(release.title@);
                if r {
                    let i = choose|i: int|
                        0 <= i < names.len() && p@.contains(
                            (t, filter::artist_form((#[trigger] names[i])@)),
                        );
                    assert(names[i]@ == artists[i].1@ && artists[i].1@ == all[i].name);
                }
                if filter_accepts(filter@, release.deep_view()) {
                    let i = choose|i: int|
                        0 <= i < all.len() && p@.contains(
                            (t, filter::artist_form((#[trigger] all[i]).name)),
                        );
                    assert(names[i]@ == artists[i].1@ && artists[i].1@ == all[i].name);
                }
            }
            r
        },
    }
}

/// Whether a release is kept, and why.
#[derive(Clone, Copy, PartialEq, Eq, Structural, Debug)]
pub enum KeepDecision {
    /// There is no filter, or the filter accepts the release.
    Keep,
    /// The filter does not accept the release, but it is in the list of kept ids.
    KeepViaAllowlist,
    /// The filter does not accept the release, and it is not in the list.
    Drop,
}

/// Whether a release is kept, and why.
pub open spec fn keep_decision(
    filter: Option<ReleaseFilterView>,
    keep_ids: Set<u64>,
    release: model::ReleaseView,
) -> KeepDecision {
    match filter {
        None => KeepDecision::Keep,
        Some(f) => if filter_accepts(f, release) {
            KeepDecision::Keep
        } else if keep_ids.contains(release.id) {
            KeepDecision::KeepViaAllowlist
        } else {
            KeepDecision::Drop
        },
    }
}

/// The model of a filter that may be missing.
pub open spec fn filter_view(filter: Option<ReleaseFilter>) -> Option<ReleaseFilterView> {
    match filter {
        Some(f) => Some(f@),
        None => None,
    }
}

/// A filter that may be missing is in order.
pub open spec fn filter_wf(filter: Option<ReleaseFilter>) -> bool {
    filter matches Some(f) ==> f.wf()
}

/// Decides whether a release is kept.
pub fn decide_keep(
    filter: &Option<ReleaseFilter>,
    keep_ids: &HashSet<u64>,
    release: &Release,
) -> (r: KeepDecision)
    requires
        filter_wf(*filter),
    ensures
        r == keep_decision(filter_view(*filter), keep_ids@, release.deep_view()),
{
    match filter {
        None => KeepDecision::Keep,
        Some(f) => {
            if matches_filter(f, release) {
                KeepDecision::Keep
            } else if keep_ids.contains(&release.id) {
                KeepDecision::KeepViaAllowlist
            } else {
                KeepDecision::Drop
            }
        },
    }
}

/// What became of a release in a dump.
pub enum FilterResult {
    /// It is kept.
    Matched(Box<Release>),
    /// It is kept because it is in the list of kept ids.
    MatchedViaAllowlist(Box<Release>),
    /// It is not kept.
    Filtered,
    /// It has no artist, or cannot be read.
    NoArtists,
}

/// The model of a [`FilterResult`].
pub enum FilterResultView {
    Matched(model::ReleaseView),
    MatchedViaAllowlist(model::ReleaseView),
    Filtered,
    NoArtists,
}

impl DeepView for FilterResult {
    type V = FilterResultView;

    open spec fn deep_view(&self) -> FilterResultView {
        match self {
            FilterResult::Matched(release) => FilterResultView::Matched(release.deep_view()),
            FilterResult::MatchedViaAllowlist(release) => FilterResultView::MatchedViaAllowlist(
                release.deep_view(),
            ),
            FilterResult::Filtered => FilterResultView::Filtered,
            FilterResult::NoArtists => FilterResultView::NoArtists,
        }
    }
}

/// What becomes of a release that was read. One that could not be read counts as one
/// without artists.
pub open spec fn release_result(
    parsed: Result<model::ReleaseView, error::ErrorView>,
    filter: Option<ReleaseFilterView>,
    keep_ids: Set<u64>,
) -> FilterResultView {
    match parsed {
        Err(_) => FilterResultView::NoArtists,
        Ok(release) => if release.artists.len() == 0 {
            FilterResultView::NoArtists
        } else {
            match keep_decision(filter, keep_ids, release) {
                KeepDecision::Keep => FilterResultView::Matched(release),
                KeepDecision::KeepViaAllowlist => FilterResultView::MatchedViaAllowlist(release),
                KeepDecision::Drop => FilterResultView::Filtered,
            }
        },
    }
}

/// Decides what becomes of a release that was read.
pub fn filter_release(
    parsed: Result<Release, ParseError>,
    filter: &Option<ReleaseFilter>,
    keep_ids: &HashSet<u64>,
) -> (r: FilterResult)
    requires
        filter_wf(*filter),
    ensures
        r.deep_view() == release_result(
            error::result_view(parsed),
            filter_view(*filter),
            keep_ids@,
        ),
{
    match parsed {
        Err(_) => FilterResult::NoArtists,
        Ok(release) => {
            if release.artists.len() == 0 {
                return FilterResult::NoArtists;
            }
            match decide_keep(filter, keep_ids, &release) {
                KeepDecision::Keep => FilterResult::Matched(Box::new(release)),
                KeepDecision::KeepViaAllowlist => FilterResult::MatchedViaAllowlist(
                    Box::new(release),
                ),
                KeepDecision::Drop => FilterResult::Filtered,
            }
        },
    }
}

/// Reads a release and decides what becomes of it.
pub fn process_release(
    bytes: &[u8],
    filter: &Option<ReleaseFilter>,
    keep_ids: &HashSet<u64>,
) -> (r: FilterResult)
    requires
        filter_wf(*filter),
    ensures
        r.deep_view() == release_result(
            parser::first_release(None, xml::xml_events(bytes@)),
            filter_view(*filter),
            keep_ids@,
        ),
{
    filter_release(parser::parse_release_from_bytes(bytes), filter, keep_ids)
}

/// How many releases were written, and how many were not and why.
pub struct ReleaseTally {
    pub written: usize,
    pub filtered: usize,
    pub skipped_no_artists: usize,
    pub duplicate_ids: usize,
    pub kept_via_allowlist: usize,
    pub seen_ids: HashSet<u64>,
}

/// The model of a [`ReleaseTally`].
pub struct TallyView {
    pub written: nat,
    pub filtered: nat,
    pub skipped_no_artists: nat,
    pub duplicate_ids: nat,
    pub kept_via_allowlist: nat,
    pub seen_ids: Set<u64>,
}

impl TallyView {
    /// Nothing is counted.
    pub open spec fn zero() -> TallyView {
        TallyView {
            written: 0,
            filtered: 0,
            skipped_no_artists: 0,
            duplicate_ids: 0,
            kept_via_allowlist: 0,
            seen_ids: Set::empty(),
        }
    }

    /// The number of releases that were counted.
    pub open spec fn total(self) -> nat {
        self.written + self.filtered + self.skipped_no_artists + self.duplicate_ids
    }
}

impl DeepView for ReleaseTally {
    type V = TallyView;

    open spec fn deep_view(&self) -> TallyView {
        TallyView {
            written: self.written as nat,
            filtered: self.filtered as nat,
            skipped_no_artists: self.skipped_no_artists as nat,
            duplicate_ids: self.duplicate_ids as nat,
            kept_via_allowlist: self.kept_via_allowlist as nat,
            seen_ids: self.seen_ids@,
        }
    }
}

/// The release that a result keeps, if it keeps one.
pub open spec fn kept_release(result: FilterResultView) -> Option<model::ReleaseView> {
    match result {
        FilterResultView::Matched(release) => Some(release),
        FilterResultView::MatchedViaAllowlist(release) => Some(release),
        _ => None,
    }
}

/// The counts after one more result, and whether its release is written: one that is
/// kept is, unless a release with its id was before.
pub open spec fn tallied(tally: TallyView, result: FilterResultView) -> (TallyView, bool) {
    match kept_release(result) {
        Some(release) => if tally.seen_ids.contains(release.id) {
            (TallyView { duplicate_ids: tally.duplicate_ids + 1, ..tally }, false)
        } else {
            (
                TallyView {
                    written: tally.written + 1,
                    kept_via_allowlist: tally.kept_via_allowlist + (
                    if result is MatchedViaAllowlist {
                        1nat
                    } else {
                        0nat
                    }),
                    seen_ids: tally.seen_ids.insert(release.id),
                    ..tally
                },
                true,
            )
        },
        None => (
            if result is Filtered {
                TallyView { filtered: tally.filtered + 1, ..tally }
            } else {
                TallyView { skipped_no_artists: tally.skipped_no_artists + 1, ..tally }
            },
            false,
        ),
    }
}

/// The counts after a sequence of results, and the releases that are written, in order.
pub open spec fn all_tallied(tally: TallyView, results: Seq<FilterResultView>) -> (
    TallyView,
    Seq<model::ReleaseView>,
)
    decreases results.len(),
{
    if results.len() == 0 {
        (tally, Seq::empty())
    } else {
        let (before, written) = all_tallied(tally, results.drop_last());
        let (after, write) = tallied(before, results.last());
        (
            after,
            if write {
                written.push(kept_release(results.last())->0)
            } else {
                written
            },
        )
    }
}

/// The message that ends a run.
pub open spec fn summary_text(tally: TallyView, scanned: nat) -> Seq<char> {
    let counts = "Complete: "@ + text::decimal(scanned) + " scanned, "@ + text::decimal(
        tally.written,
    ) + " written, "@ + text::decimal(tally.filtered) + " filtered, "@ + text::decimal(
        tally.skipped_no_artists,
    ) + " skipped (no artists)"@;
    let allowlist = if tally.kept_via_allowlist > 0 {
        ", "@ + text::decimal(tally.kept_via_allowlist)
            + " kept via --keep-release-ids allowlist"@
    } else {
        Seq::empty()
    };
    let duplicates = if tally.duplicate_ids > 0 {
        ", "@ + text::decimal(tally.duplicate_ids) + " duplicate ids skipped"@
    } else {
        Seq::empty()
    };
    counts + allowlist + duplicates
}

impl ReleaseTally {
    /// Nothing is counted.
    pub fn new() -> (r: ReleaseTally)
        ensures
            r.deep_view() == TallyView::zero(),
    {
        ReleaseTally {
            written: 0,
            filtered: 0,
            skipped_no_artists: 0,
            duplicate_ids: 0,
            kept_via_allowlist: 0,
            seen_ids: HashSet::new(),
        }
    }

    /// Counts a result. Gives whether its release is to be written.
    pub fn record(&mut self, result: &FilterResult) -> (write: bool)
        requires
            old(self).deep_view().total() < usize::MAX,
            old(self).kept_via_allowlist <= old(self).written,
        ensures
            (final(self).deep_view(), write) == tallied(
                old(self).deep_view(),
                result.deep_view(),
            ),
            final(self).kept_via_allowlist <= final(self).written,
    {
        match result {
            FilterResult::Matched(release) => {
                if !self.seen_ids.insert(release.id) {
                    self.duplicate_ids += 1;
                    assert(self.seen_ids@ == old(self).seen_ids@);
                    return false;
                }
                self.written += 1;
                true
            },
            FilterResult::MatchedViaAllowlist(release) => {
                if !self.seen_ids.insert(release.id) {
                    self.duplicate_ids += 1;
                    assert(self.seen_ids@ == old(self).seen_ids@);
                    return false;
                }
                self.written += 1;
                self.kept_via_allowlist += 1;
                true
            },
            FilterResult::Filtered => {
                self.filtered += 1;
                false
            },
            FilterResult::NoArtists => {
                self.skipped_no_artists += 1;
                false
            },
        }
    }

    /// Counts results and writes their releases, in order. Where the output fails, the
    /// release that it failed on is the last one that it was given.
    pub fn write_results<O: ReleaseOutput>(
        &mut self,
        results: &Vec<FilterResult>,
        target: &mut O,
    ) -> (r: Result<(), O::Error>)
        requires
            old(self).deep_view().total() + results.len() <= usize::MAX,
            old(self).kept_via_allowlist <= old(self).written,
            old(target).ready(),
        ensures
            final(self).kept_via_allowlist <= final(self).written,
            O::infallible() ==> r is Ok,
            match r {
                Ok(_) => {
                    let (tally, written) = all_tallied(
                        old(self).deep_view(),
                        results.deep_view(),
                    );
                    &&& final(self).deep_view() == tally
                    &&& final(target).ready()
                    &&& final(target).received() == output::with_releases(
                        old(target).received(),
                        written,
                    )
                    &&& final(target).outgoing() == old(target).outgoing()
                },
                Err(_) => exists|n: int|
                    {
                        let (tally, written) = #[trigger] all_tallied(
                            old(self).deep_view(),
                            results.deep_view().take(n),
                        );
                        &&& 0 < n <= results.len()
                        &&& written.len() == all_tallied(
                            old(self).deep_view(),
                            results.deep_view().take(n - 1),
                        ).1.len() + 1
                        &&& final(self).deep_view() == tally
                        &&& final(target).received() == output::with_releases(
                            old(target).received(),
                            written,
                        )
                    },
            },
    {
        let ghost all = results.deep_view();
        let ghost first = self.deep_view();
        let ghost received = target.received();
        let mut i: usize = 0;
        proof {
            assert(all.take(0) == Seq::<FilterResultView>::empty());
            if let Some(releases) = received {
                assert(releases + Seq::<model::ReleaseView>::empty() == releases);
            }
        }
        while i < results.len()
            invariant
                i <= results.len(),
                all == results.deep_view(),
                first == old(self).deep_view(),
                received == old(target).received(),
                first.total() + results.len() <= usize::MAX,
                self.deep_view().total() == first.total() + i,
                self.kept_via_allowlist <= self.written,
                target.ready(),
                target.outgoing() == old(target).outgoing(),
                ({
                    let (tally, written) = all_tallied(first, all.take(i as int));
                    &&& self.deep_view() == tally
                    &&& target.received() == output::with_releases(received, written)
                }),
            decreases results.len() - i,
        {
            let ghost longer = all.take(i + 1);
            let ghost shorter = all_tallied(first, all.take(i as int)).1;
            assert(longer.drop_last() == all.take(i as int));
            assert(longer.last() == results[i as int].deep_view());
            let write = self.record(&results[i]);
            if write {
                match &results[i] {
                    FilterResult::Matched(release) | FilterResult::MatchedViaAllowlist(release) => {
                        let outcome = target.write_release(release);
                        proof {
                            let value = release.deep_view();
                            if let Some(releases) = received {
                                assert((releases + shorter).push(value) == releases + shorter.push(
                                    value,
                                ));
                            }
                            assert(target.received() == output::with_releases(
                                received,
                                all_tallied(first, longer).1,
                            ));
                        }
                        if let Err(error) = outcome {
                            return Err(error);
                        }
                    },
                    _ => {},
                }
            }
            i += 1;
        }
        assert(all.take(all.len() as int) == all);
        Ok(())
    }

    /// The message that ends a run, given the number of releases in the dump.
    pub fn summary(&self, scanned: usize) -> (r: String)
        ensures
            r@ == summary_text(self.deep_view(), scanned as nat),
    {
        let mut r = String::new();
        r.append("Complete: ");
        r.append(text::decimal_string(scanned as u64).as_str());
        r.append(" scanned, ");
        r.append(text::decimal_string(self.written as u64).as_str());
        r.append(" written, ");
        r.append(text::decimal_string(self.filtered as u64).as_str());
        r.append(" filtered, ");
        r.append(text::decimal_string(self.skipped_no_artists as u64).as_str());
        r.append(" skipped (no artists)");
        let ghost counts = r@;
        if self.kept_via_allowlist > 0 {
            r.append(", ");
            r.append(text::decimal_string(self.kept_via_allowlist as u64).as_str());
            r.append(" kept via --keep-release-ids allowlist");
        }
        let ghost allowlist = if self.kept_via_allowlist > 0 {
            ", "@ + text::decimal(self.kept_via_allowlist as nat)
                + " kept via --keep-release-ids allowlist"@
        } else {
            Seq::empty()
        };
        assert(r@ == counts + allowlist);
        if self.duplicate_ids > 0 {
            r.append(", ");
            r.append(text::decimal_string(self.duplicate_ids as u64).as_str());
            r.append(" duplicate ids skipped");
        }
        let ghost duplicates = if self.duplicate_ids > 0 {
            ", "@ + text::decimal(self.duplicate_ids as nat) + " duplicate ids skipped"@
        } else {
            Seq::empty()
        };
        assert(r@ == counts + allowlist + duplicates);
        r
    }
}

/// A release that a filter does not accept is kept exactly where its id is in the list
/// of kept ids, and an empty list changes nothing.
pub proof fn law_allowlist(
    filter: Option<ReleaseFilterView>,
    keep_ids: Set<u64>,
    release: model::ReleaseView,
)
    ensures
        filter is None ==> keep_decision(filter, keep_ids, release) == KeepDecision::Keep,
        keep_decision(filter, keep_ids, release) == KeepDecision::Drop <==> filter is Some
            && !filter_accepts(filter->0, release) && !keep_ids.contains(release.id),
        keep_decision(filter, keep_ids, release) == KeepDecision::Keep <==> keep_decision(
            filter,
            Set::empty(),
            release,
        ) == KeepDecision::Keep,
        keep_decision(filter, Set::empty(), release) != KeepDecision::KeepViaAllowlist,
{
}

/// No release id is written twice, and none that was written before.
pub proof fn law_written_once(tally: TallyView, results: Seq<FilterResultView>)
    ensures
        ({
            let (after, written) = all_tallied(tally, results);
            &&& forall|i: int, j: int|
                0 <= i < j < written.len() ==> (#[trigger] written[i]).id != (
                #[trigger] written[j]).id
            &&& forall|i: int|
                0 <= i < written.len() ==> !tally.seen_ids.contains((#[trigger] written[i]).id)
            &&& forall|i: int|
                0 <= i < written.len() ==> after.seen_ids.contains((#[trigger] written[i]).id)
            &&& tally.seen_ids.subset_of(after.seen_ids)
        }),
    decreases results.len(),
{
    if results.len() > 0 {
        law_written_once(tally, results.drop_last());
    }
}

/// The ids that are known after a sequence of results are those known before and those
/// of the releases that the results keep.
proof fn lemma_seen_ids(tally: TallyView, results: Seq<FilterResultView>, id: u64)
    ensures
        all_tallied(tally, results).0.seen_ids.contains(id) <==> tally.seen_ids.contains(id) || exists|
            i: int,
        |
            0 <= i < results.len() && kept_id(#[trigger] results[i], id),
    decreases results.len(),
{
    if results.len() > 0 {
        let shorter = results.drop_last();
        lemma_seen_ids(tally, shorter, id);
        if exists|i: int| 0 <= i < shorter.len() && kept_id(#[trigger] shorter[i], id) {
            let i = choose|i: int| 0 <= i < shorter.len() && kept_id(#[trigger] shorter[i], id);
            assert(results[i] == shorter[i]);
        }
        if exists|i: int| 0 <= i < results.len() && kept_id(#[trigger] results[i], id) {
            let i = choose|i: int| 0 <= i < results.len() && kept_id(#[trigger] results[i], id);
            if i < shorter.len() {
                assert(results[i] == shorter[i]);
            }
        }
    }
}

/// Whether a result keeps a release with the given id.
pub open spec fn kept_id(result: FilterResultView, id: u64) -> bool {
    kept_release(result) matches Some(release) && release.id == id
}

/// Of the releases with one id that are kept, the first is written.
pub proof fn law_first_is_written(tally: TallyView, results: Seq<FilterResultView>, k: int)
    requires
        0 <= k < results.len(),
        kept_release(results[k]) is Some,
        !tally.seen_ids.contains(kept_release(results[k])->0.id),
        forall|j: int|
            0 <= j < k ==> !kept_id(#[trigger] results[j], kept_release(results[k])->0.id),
    ensures
        all_tallied(tally, results).1.contains(kept_release(results[k])->0),
    decreases results.len(),
{
    let release = kept_release(results[k])->0;
    let shorter = results.drop_last();
    let written = all_tallied(tally, results).1;
    if k < shorter.len() {
        assert(shorter[k] == results[k]);
        assert forall|j: int| 0 <= j < k implies !kept_id(#[trigger] shorter[j], release.id) by {
            assert(shorter[j] == results[j]);
        }
        law_first_is_written(tally, shorter, k);
        let earlier = all_tallied(tally, shorter).1;
        let i = choose|i: int| 0 <= i < earlier.len() && earlier[i] == release;
        assert(written[i] == release);
    } else {
        lemma_seen_ids(tally, shorter, release.id);
        assert(forall|j: int| 0 <= j < shorter.len() ==> #[trigger] shorter[j] == results[j]);
        assert(written.last() == release);
    }
}

/// Every result is counted once: the releases of a run are written, filtered, skipped or
/// duplicates, and as many are written as the count says.
pub proof fn law_counts_add_up(tally: TallyView, results: Seq<FilterResultView>)
    ensures
        ({
            let (after, written) = all_tallied(tally, results);
            &&& after.total() == tally.total() + results.len()
            &&& after.written == tally.written + written.len()
        }),
    decreases results.len(),
{
    if results.len() > 0 {
        law_counts_add_up(tally, results.drop_last());
    }
}

/// Releases are written in the order of the dump: each comes from a result of its own,
/// at the given place, and the places go up.
pub proof fn law_written_in_order(tally: TallyView, results: Seq<FilterResultView>) -> (places: Seq<
    int,
>)
    ensures
        ({
            let written = all_tallied(tally, results).1;
            &&& places.len() == written.len()
            &&& forall|i: int|
                0 <= i < places.len() ==> {
                    &&& 0 <= #[trigger] places[i] < results.len()
                    &&& kept_release(results[places[i]]) == Some(written[i])
                }
            &&& forall|i: int, j: int|
                0 <= i < j < places.len() ==> #[trigger] places[i] < #[trigger] places[j]
        }),
    decreases results.len(),
{
    if results.len() == 0 {
        Seq::empty()
    } else {
        let shorter = results.drop_last();
        let earlier = law_written_in_order(tally, shorter);
        let before = all_tallied(tally, shorter);
        let places = if tallied(before.0, results.last()).1 {
            earlier.push(results.len() - 1)
        } else {
            earlier
        };
        assert forall|i: int| 0 <= i < places.len() implies 0 <= #[trigger] places[i]
            < results.len() && kept_release(results[places[i]]) == Some(
            all_tallied(tally, results).1[i],
        ) by {
            if i < earlier.len() {
                assert(places[i] == earlier[i]);
                assert(shorter[earlier[i]] == results[earlier[i]]);
            }
        }
        assert forall|i: int, j: int| 0 <= i < j < places.len() implies #[trigger] places[i]
            < #[trigger] places[j] by {
            assert(places[i] == earlier[i]);
            if j < earlier.len() {
                assert(places[j] == earlier[j]);
            }
        }
        places
    }
}

} // verus!
