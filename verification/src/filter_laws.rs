//! What the filters accept.

use crate::filter;
use crate::filter::{AliasMap, ArtistFilterView};
use crate::library_pairs;
use crate::model;
use crate::parser;
use crate::pipeline;
use crate::pipeline::{FilterResultView, ReleaseFilterView};
use crate::text;
use vstd::prelude::*;

verus! {

/// The artist credits of one kind.
pub open spec fn credits_of(release: model::ReleaseView, extra: bool) -> Seq<
    model::ReleaseArtistView,
> {
    if extra {
        release.extra_artists
    } else {
        release.artists
    }
}

/// Whether a release credits an artist with the given id and name, in any place.
pub open spec fn credited(release: model::ReleaseView, id: u64, name: Seq<char>) -> bool {
    exists|extra: bool, i: int|
        0 <= i < credits_of(release, extra).len() && (#[trigger] credits_of(release, extra)[i]).name
            == name && credits_of(release, extra)[i].artist_id == id
}

/// A release is accepted by a filter by artist where any of its credits, main or extra and
/// in any place, has a name that is listed, or an id with another name that is listed.
pub proof fn law_credit_is_enough(
    f: ArtistFilterView,
    release: model::ReleaseView,
    extra: bool,
    i: int,
)
    requires
        0 <= i < credits_of(release, extra).len(),
    ensures
        f.artists.contains(filter::artist_form(credits_of(release, extra)[i].name))
            ==> pipeline::filter_accepts(ReleaseFilterView::Artists(f), release),
        forall|k: int|
            f.aliases.dom().contains(credits_of(release, extra)[i].artist_id) && 0 <= k
                < f.aliases[credits_of(release, extra)[i].artist_id].len() && f.artists.contains(
                #[trigger] f.aliases[credits_of(release, extra)[i].artist_id][k],
            ) ==> pipeline::filter_accepts(ReleaseFilterView::Artists(f), release),
{
    let all = pipeline::credits(release);
    let place = if extra {
        release.artists.len() + i
    } else {
        i
    };
    assert(all[place] == credits_of(release, extra)[i]);
}

/// A release that a filter by artist accepts credits an artist whose name, or another name
/// of the same id, is listed.
pub proof fn law_accepted_by_a_credit(f: ArtistFilterView, release: model::ReleaseView) -> (r: (
    bool,
    int,
))
    requires
        pipeline::filter_accepts(ReleaseFilterView::Artists(f), release),
    ensures
        0 <= r.1 < credits_of(release, r.0).len(),
        ({
            let credit = credits_of(release, r.0)[r.1];
            ||| f.artists.contains(filter::artist_form(credit.name))
            ||| f.aliases.dom().contains(credit.artist_id) && exists|k: int|
                0 <= k < f.aliases[credit.artist_id].len() && f.artists.contains(
                    #[trigger] f.aliases[credit.artist_id][k],
                )
        }),
{
    let all = pipeline::credits(release);
    let i = choose|i: int|
        0 <= i < all.len() && (f.has_name((#[trigger] all[i]).name) || f.has_alias(
            all[i].artist_id,
        ));
    if i < release.artists.len() {
        assert(credits_of(release, false)[i] == all[i]);
        (false, i)
    } else {
        assert(credits_of(release, true)[i - release.artists.len()] == all[i]);
        (true, i - release.artists.len())
    }
}

/// A release is accepted by a filter by pairs exactly where the library has its title
/// together with one of its credited artists.
pub proof fn law_pair_filter(
    pairs: Set<(Seq<char>, Seq<char>)>,
    release: model::ReleaseView,
)
    ensures
        pipeline::filter_accepts(ReleaseFilterView::Pairs(pairs), release) <==> exists|
            extra: bool,
            i: int,
        |
            0 <= i < credits_of(release, extra).len() && pairs.contains(
                (
                    library_pairs::title_form(release.title),
                    filter::artist_form((#[trigger] credits_of(release, extra)[i]).name),
                ),
            ),
{
    let all = pipeline::credits(release);
    let title = library_pairs::title_form(release.title);
    if exists|i: int|
        0 <= i < all.len() && pairs.contains(
            (title, filter::artist_form((#[trigger] all[i]).name)),
        ) {
        let i = choose|i: int|
            0 <= i < all.len() && pairs.contains(
                (title, filter::artist_form((#[trigger] all[i]).name)),
            );
        if i < release.artists.len() {
            assert(credits_of(release, false)[i] == all[i]);
        } else {
            assert(credits_of(release, true)[i - release.artists.len()] == all[i]);
        }
    }
    if exists|extra: bool, i: int|
        0 <= i < credits_of(release, extra).len() && pairs.contains(
            (title, filter::artist_form((#[trigger] credits_of(release, extra)[i]).name)),
        ) {
        let (extra, i) = choose|extra: bool, i: int|
            0 <= i < credits_of(release, extra).len() && pairs.contains(
                (title, filter::artist_form((#[trigger] credits_of(release, extra)[i]).name)),
            );
        let place = if extra {
            release.artists.len() + i
        } else {
            i
        };
        assert(all[place] == credits_of(release, extra)[i]);
    }
}

/// More credits never turn a release away, and neither their order nor whether they are
/// main or extra matters: where all credits of one release are among those of another
/// with the same title, a filter that accepts the first accepts the second.
pub proof fn law_more_credits_are_no_harm(
    filter: ReleaseFilterView,
    a: model::ReleaseView,
    b: model::ReleaseView,
)
    requires
        a.title == b.title,
        forall|id: u64, name: Seq<char>| #[trigger] credited(a, id, name) ==> credited(b, id, name),
        pipeline::filter_accepts(filter, a),
    ensures
        pipeline::filter_accepts(filter, b),
{
    match filter {
        ReleaseFilterView::Artists(f) => {
            let (extra, i) = law_accepted_by_a_credit(f, a);
            let credit = credits_of(a, extra)[i];
            assert(credited(a, credit.artist_id, credit.name));
            let (other, j) = choose|other: bool, j: int|
                0 <= j < credits_of(b, other).len() && (#[trigger] credits_of(b, other)[j]).name
                    == credit.name && credits_of(b, other)[j].artist_id == credit.artist_id;
            law_credit_is_enough(f, b, other, j);
        },
        ReleaseFilterView::Pairs(pairs) => {
            law_pair_filter(pairs, a);
            law_pair_filter(pairs, b);
            let title = library_pairs::title_form(a.title);
            let (extra, i) = choose|extra: bool, i: int|
                0 <= i < credits_of(a, extra).len() && pairs.contains(
                    (title, filter::artist_form((#[trigger] credits_of(a, extra)[i]).name)),
                );
            let credit = credits_of(a, extra)[i];
            assert(credited(a, credit.artist_id, credit.name));
            let (other, j) = choose|other: bool, j: int|
                0 <= j < credits_of(b, other).len() && (#[trigger] credits_of(b, other)[j]).name
                    == credit.name && credits_of(b, other)[j].artist_id == credit.artist_id;
            assert(pairs.contains(
                (title, filter::artist_form((credits_of(b, other)[j]).name)),
            ));
        },
    }
}

/// Every row of a library with an artist and a title, whose forms are not empty, is a pair
/// of the library, whatever the artist and the title are.
pub proof fn law_rows_are_pairs(rows: Seq<(Seq<char>, Seq<char>)>, i: int)
    requires
        0 <= i < rows.len(),
        rows[i].0.len() > 0,
        rows[i].1.len() > 0,
        filter::artist_form(rows[i].0).len() > 0,
        library_pairs::title_form(rows[i].1).len() > 0,
    ensures
        library_pairs::library_pairs(rows).contains(
            (library_pairs::title_form(rows[i].1), filter::artist_form(rows[i].0)),
        ),
{
    assert(library_pairs::row_counts(rows[i]));
}

/// Every pair of a library comes from a row: its forms are those of the title and the
/// artist there, and none is empty. Gives the place of the row.
pub proof fn law_pairs_are_of_rows(
    rows: Seq<(Seq<char>, Seq<char>)>,
    pair: (Seq<char>, Seq<char>),
) -> (i: int)
    requires
        library_pairs::library_pairs(rows).contains(pair),
    ensures
        0 <= i < rows.len(),
        pair.0 == library_pairs::title_form(rows[i].1),
        pair.1 == filter::artist_form(rows[i].0),
        rows[i].0.len() > 0 && rows[i].1.len() > 0,
        pair.0.len() > 0 && pair.1.len() > 0,
{
    choose|i: int|
        0 <= i < rows.len() && library_pairs::row_counts(#[trigger] rows[i]) && pair
            == library_pairs::row_pair(rows[i])
}

/// The artists of a list are the forms of its lines that are not blank, and no others.
pub proof fn law_listed_artists(lines: Seq<Seq<char>>)
    ensures
        forall|i: int|
            0 <= i < lines.len() && text::trimmed(#[trigger] lines[i]).len() > 0
                ==> filter::listed_artists(lines).contains(
                filter::artist_form(text::trimmed(lines[i])),
            ),
        forall|form: Seq<char>| #[trigger]
            filter::listed_artists(lines).contains(form) ==> exists|i: int|
                0 <= i < lines.len() && text::trimmed(#[trigger] lines[i]).len() > 0 && form
                    == filter::artist_form(text::trimmed(lines[i])),
{
}

/// The form of the name in a record.
pub open spec fn name_form(item: Result<Seq<Seq<char>>, Seq<char>>, column: nat) -> Seq<char> {
    filter::artist_form(item->Ok_0[column as int])
}

/// The names that the aliases hold for an id.
pub open spec fn names_of(aliases: AliasMap, id: u64) -> Seq<Seq<char>> {
    if aliases.dom().contains(id) {
        aliases[id]
    } else {
        Seq::empty()
    }
}

/// The names that records give to an id, in order: the forms that are not empty, of the
/// records that start with the number.
pub open spec fn names_for(
    items: Seq<Result<Seq<Seq<char>>, Seq<char>>>,
    column: nat,
    id: u64,
) -> Seq<Seq<char>> {
    items.filter(
        |item: Result<Seq<Seq<char>>, Seq<char>>|
            parser::number_u64(item->Ok_0[0]) == id && name_form(item, column).len() > 0,
    ).map_values(|item: Result<Seq<Seq<char>>, Seq<char>>| name_form(item, column))
}

/// Records that have enough columns all load. For every id the names are those from before
/// and, after them, those of the records in order; as many are counted as there are
/// records with a name.
pub proof fn law_aliases_load(
    aliases: AliasMap,
    items: Seq<Result<Seq<Seq<char>>, Seq<char>>>,
    column: nat,
)
    requires
        forall|i: int|
            0 <= i < items.len() ==> (#[trigger] items[i]) is Ok && items[i]->Ok_0.len() > column,
    ensures
        ({
            let (loaded, count) = filter::aliases_loaded(aliases, items, column);
            &&& count == Ok::<nat, filter::FilterErrorView>(
                items.filter(
                    |item: Result<Seq<Seq<char>>, Seq<char>>| name_form(item, column).len() > 0,
                ).len(),
            )
            &&& forall|id: u64| #[trigger]
                names_of(loaded, id) == names_of(aliases, id) + names_for(items, column, id)
        }),
    decreases items.len(),
{
    reveal(Seq::filter);
    let named = |item: Result<Seq<Seq<char>>, Seq<char>>| name_form(item, column).len() > 0;
    if items.len() == 0 {
        assert forall|id: u64| #[trigger] names_of(aliases, id) == names_of(aliases, id)
            + names_for(items, column, id) by {
            assert(names_for(items, column, id) == Seq::<Seq<char>>::empty());
        }
    } else {
        let first = items[0];
        let rest = items.skip(1);
        assert forall|i: int| 0 <= i < rest.len() implies (#[trigger] rest[i]) is Ok
            && rest[i]->Ok_0.len() > column by {
            assert(rest[i] == items[i + 1]);
        }
        assert(items == seq![first] + rest);
        let form = name_form(first, column);
        let own = parser::number_u64(first->Ok_0[0]);
        let more = if form.len() == 0 {
            aliases
        } else {
            filter::with_alias(aliases, own, form)
        };
        law_aliases_load(more, rest, column);
        Seq::filter_distributes_over_add(seq![first], rest, named);
        lemma_filter_one(first, named);
        let loaded = filter::aliases_loaded(aliases, items, column).0;
        assert forall|id: u64| #[trigger] names_of(loaded, id) == names_of(aliases, id)
            + names_for(items, column, id) by {
            let wanted = |item: Result<Seq<Seq<char>>, Seq<char>>|
                parser::number_u64(item->Ok_0[0]) == id && name_form(item, column).len() > 0;
            Seq::filter_distributes_over_add(seq![first], rest, wanted);
            lemma_filter_one(first, wanted);
            let tail = names_for(rest, column, id);
            if wanted(first) {
                assert(names_for(items, column, id) == seq![form] + tail);
                assert(names_of(more, id) == names_of(aliases, id).push(form));
                assert(names_of(aliases, id).push(form) + tail == names_of(aliases, id) + (
                seq![form] + tail));
            } else {
                assert(names_for(items, column, id) == tail);
                assert(names_of(more, id) == names_of(aliases, id));
            }
        }
    }
}

proof fn lemma_filter_one<T>(item: T, wanted: spec_fn(T) -> bool)
    ensures
        seq![item].filter(wanted) == if wanted(item) {
            seq![item]
        } else {
            Seq::empty()
        },
{
    reveal(Seq::filter);
    assert(seq![item].drop_last() == Seq::<T>::empty());
    assert(Seq::<T>::empty().filter(wanted) == Seq::<T>::empty());
    assert(seq![item].last() == item);
    assert(Seq::<T>::empty().push(item) == seq![item]);
}

/// A filter by artist is made of the names on a list, the aliases in the third column of
/// one file and the name variations in the second column of another.
pub proof fn law_artist_filter_is_built(
    list: Seq<char>,
    aliases: Option<Seq<u8>>,
    variations: Option<Seq<u8>>,
)
    ensures
        pipeline::artist_filter(list, aliases, variations) matches Ok(f) ==> {
            &&& forall|form: Seq<char>| #[trigger]
                f.artists.contains(form) <==> exists|i: int|
                    0 <= i < text::text_lines(list).len() && text::trimmed(
                        #[trigger] text::text_lines(list)[i],
                    ).len() > 0 && form == filter::artist_form(
                        text::trimmed(text::text_lines(list)[i]),
                    )
            &&& well_read(aliases, 2) && well_read(variations, 1) ==> forall|id: u64| #[trigger]
                names_of(f.aliases, id) == names_for(records_in(aliases), 2, id) + names_for(
                    records_in(variations),
                    1,
                    id,
                )
        },
{
    if well_read(aliases, 2) && well_read(variations, 1) {
        let none = AliasMap::empty();
        law_aliases_load(none, records_in(aliases), 2);
        let first = filter::aliases_loaded(none, records_in(aliases), 2).0;
        law_aliases_load(first, records_in(variations), 1);
        let f = pipeline::artist_filter(list, aliases, variations)->Ok_0;
        assert(f.aliases == filter::aliases_loaded(first, records_in(variations), 1).0);
        assert forall|id: u64| #[trigger] names_of(f.aliases, id) == names_for(
            records_in(aliases),
            2,
            id,
        ) + names_for(records_in(variations), 1, id) by {
            assert(names_of(none, id) == Seq::<Seq<char>>::empty());
            assert(names_of(first, id) == names_of(none, id) + names_for(
                records_in(aliases),
                2,
                id,
            ));
            assert(Seq::<Seq<char>>::empty() + names_for(records_in(aliases), 2, id) == names_for(
                records_in(aliases),
                2,
                id,
            ));
        }
    }
}

/// The records of a file that may be missing.
pub open spec fn records_in(csv: Option<Seq<u8>>) -> Seq<Result<Seq<Seq<char>>, Seq<char>>> {
    match csv {
        Some(bytes) => crate::csv_file::csv_records(bytes),
        None => Seq::empty(),
    }
}

/// Whether all records of a file are read and have the given column.
pub open spec fn well_read(csv: Option<Seq<u8>>, column: nat) -> bool {
    forall|i: int|
        0 <= i < records_in(csv).len() ==> (#[trigger] records_in(csv)[i]) is Ok && records_in(
            csv,
        )[i]->Ok_0.len() > column
}

/// What becomes of a release: one that cannot be read, or has no main artist, is skipped.
/// Any other is kept where there is no filter or the filter accepts it, kept through the
/// list where it is on it, and else filtered. A kept release is kept as it is.
pub proof fn law_what_becomes_of_a_release(
    release: model::ReleaseView,
    error: crate::error::ErrorView,
    filter: Option<ReleaseFilterView>,
    keep_ids: Set<u64>,
)
    ensures
        pipeline::release_result(Err(error), filter, keep_ids) == FilterResultView::NoArtists,
        release.artists.len() == 0 ==> pipeline::release_result(Ok(release), filter, keep_ids)
            == FilterResultView::NoArtists,
        release.artists.len() > 0 ==> {
            let result = pipeline::release_result(Ok(release), filter, keep_ids);
            let accepted = filter matches Some(f) ==> pipeline::filter_accepts(f, release);
            &&& accepted ==> result == FilterResultView::Matched(release)
            &&& !accepted && keep_ids.contains(release.id) ==> result
                == FilterResultView::MatchedViaAllowlist(release)
            &&& !accepted && !keep_ids.contains(release.id) ==> result
                == FilterResultView::Filtered
        },
{
}

/// The release that a result keeps.
pub open spec fn release_kept(result: FilterResultView) -> Option<model::ReleaseView> {
    match result {
        FilterResultView::Matched(release) => Some(release),
        FilterResultView::MatchedViaAllowlist(release) => Some(release),
        FilterResultView::Filtered => None,
        FilterResultView::NoArtists => None,
    }
}

/// Whether a result is the first that keeps a release with its id.
pub open spec fn first_of_its_id(
    seen: Set<u64>,
    results: Seq<FilterResultView>,
    i: int,
) -> bool {
    release_kept(results[i]) matches Some(release) && !seen.contains(release.id) && forall|j: int|
        0 <= j < i ==> !(release_kept(#[trigger] results[j]) matches Some(other) && other.id
            == release.id)
}

/// How many of the first `n` results meet a condition.
pub open spec fn count_where(n: nat, when: spec_fn(int) -> bool) -> nat
    decreases n,
{
    if n == 0 {
        0
    } else if when(n - 1) {
        count_where((n - 1) as nat, when) + 1
    } else {
        count_where((n - 1) as nat, when)
    }
}

/// The releases of those of the first `n` results that are the first of their id, in order.
pub open spec fn first_releases(
    seen: Set<u64>,
    results: Seq<FilterResultView>,
    n: nat,
) -> Seq<model::ReleaseView>
    decreases n,
{
    if n == 0 {
        Seq::empty()
    } else if first_of_its_id(seen, results, n - 1) {
        first_releases(seen, results, (n - 1) as nat).push(release_kept(results[n - 1])->0)
    } else {
        first_releases(seen, results, (n - 1) as nat)
    }
}

/// Of a run, exactly the releases that are kept and are the first of their id are written,
/// in order. What is filtered, what is skipped, what comes again and what the list kept are
/// counted one by one.
pub proof fn law_run_is_counted(tally: pipeline::TallyView, results: Seq<FilterResultView>)
    ensures
        ({
            let (after, written) = pipeline::all_tallied(tally, results);
            let seen = tally.seen_ids;
            let n = results.len();
            &&& written == first_releases(seen, results, n)
            &&& after.written == tally.written + count_where(
                n,
                |i: int| first_of_its_id(seen, results, i),
            )
            &&& after.filtered == tally.filtered + count_where(n, |i: int| results[i] is Filtered)
            &&& after.skipped_no_artists == tally.skipped_no_artists + count_where(
                n,
                |i: int| results[i] is NoArtists,
            )
            &&& after.duplicate_ids == tally.duplicate_ids + count_where(
                n,
                |i: int| release_kept(results[i]) is Some && !first_of_its_id(seen, results, i),
            )
            &&& after.kept_via_allowlist == tally.kept_via_allowlist + count_where(
                n,
                |i: int| results[i] is MatchedViaAllowlist && first_of_its_id(seen, results, i),
            )
        }),
{
    lemma_run(tally, results, results.len());
    assert(results.take(results.len() as int) == results);
}

proof fn lemma_run(tally: pipeline::TallyView, results: Seq<FilterResultView>, n: nat)
    requires
        n <= results.len(),
    ensures
        ({
            let (after, written) = pipeline::all_tallied(tally, results.take(n as int));
            let seen = tally.seen_ids;
            &&& written == first_releases(seen, results, n)
            &&& after.written == tally.written + count_where(
                n,
                |i: int| first_of_its_id(seen, results, i),
            )
            &&& after.filtered == tally.filtered + count_where(n, |i: int| results[i] is Filtered)
            &&& after.skipped_no_artists == tally.skipped_no_artists + count_where(
                n,
                |i: int| results[i] is NoArtists,
            )
            &&& after.duplicate_ids == tally.duplicate_ids + count_where(
                n,
                |i: int| release_kept(results[i]) is Some && !first_of_its_id(seen, results, i),
            )
            &&& after.kept_via_allowlist == tally.kept_via_allowlist + count_where(
                n,
                |i: int| results[i] is MatchedViaAllowlist && first_of_its_id(seen, results, i),
            )
            &&& forall|id: u64| #[trigger]
                after.seen_ids.contains(id) <==> seen.contains(id) || exists|j: int|
                    0 <= j < n && (release_kept(#[trigger] results[j]) matches Some(other)
                        && other.id == id)
        }),
    decreases n,
{
    if n > 0 {
        let last = n - 1;
        lemma_run(tally, results, last as nat);
        assert(results.take(n as int).drop_last() == results.take(last));
        assert(results.take(n as int).last() == results[last]);
        let before = pipeline::all_tallied(tally, results.take(last)).0;
        let after = pipeline::all_tallied(tally, results.take(n as int)).0;
        let seen = tally.seen_ids;
        if let Some(release) = release_kept(results[last]) {
            assert(first_of_its_id(seen, results, last) == !before.seen_ids.contains(release.id));
        }
        assert forall|id: u64| #[trigger] after.seen_ids.contains(id) <==> seen.contains(id)
            || exists|j: int|
            0 <= j < n && (release_kept(#[trigger] results[j]) matches Some(other) && other.id
                == id) by {
            assert(before.seen_ids.contains(id) <==> seen.contains(id) || exists|j: int|
                0 <= j < last && (release_kept(#[trigger] results[j]) matches Some(other)
                    && other.id == id));
            if exists|j: int|
                0 <= j < n && (release_kept(#[trigger] results[j]) matches Some(other) && other.id
                    == id) {
                let j = choose|j: int|
                    0 <= j < n && (release_kept(#[trigger] results[j]) matches Some(other)
                        && other.id == id);
                if j < last {
                    assert(release_kept(results[j]) is Some);
                }
            }
            if release_kept(results[last]) matches Some(other) && other.id == id {
                assert(release_kept(results[last]) is Some);
            }
        }
    }
}

/// A record that cannot be read, or lacks the column, ends the loading. What the records
/// before it gave stays, and those after it do not matter.
pub proof fn law_loading_ends(
    aliases: AliasMap,
    items: Seq<Result<Seq<Seq<char>>, Seq<char>>>,
    bad: Result<Seq<Seq<char>>, Seq<char>>,
    rest: Seq<Result<Seq<Seq<char>>, Seq<char>>>,
    column: nat,
)
    requires
        forall|i: int|
            0 <= i < items.len() ==> (#[trigger] items[i]) is Ok && items[i]->Ok_0.len() > column,
        bad matches Ok(fields) ==> fields.len() <= column,
    ensures
        filter::aliases_loaded(aliases, items + (seq![bad] + rest), column) == (
            filter::aliases_loaded(aliases, items, column).0,
            Err::<nat, filter::FilterErrorView>(
                match bad {
                    Ok(_) => filter::FilterErrorView::MissingColumn,
                    Err(message) => filter::FilterErrorView::Csv(message),
                },
            ),
        ),
    decreases items.len(),
{
    let tail = seq![bad] + rest;
    let all = items + tail;
    if items.len() == 0 {
        assert(all == tail);
        assert(tail[0] == bad);
    } else {
        let shorter = items.skip(1);
        assert forall|i: int| 0 <= i < shorter.len() implies (#[trigger] shorter[i]) is Ok
            && shorter[i]->Ok_0.len() > column by {
            assert(shorter[i] == items[i + 1]);
        }
        assert(all[0] == items[0]);
        assert(all.skip(1) == shorter + tail);
        let form = name_form(items[0], column);
        let more = filter::with_alias(aliases, parser::number_u64(items[0]->Ok_0[0]), form);
        law_loading_ends(aliases, shorter, bad, rest, column);
        law_loading_ends(more, shorter, bad, rest, column);
    }
}

/// The artists of a title are those it is paired with, and the titles are those that have
/// an artist.
pub proof fn law_titles_and_artists(
    pairs: Set<(Seq<char>, Seq<char>)>,
    title: Seq<char>,
    artist: Seq<char>,
)
    ensures
        library_pairs::title_artists(pairs, title).contains(artist) <==> pairs.contains(
            (title, artist),
        ),
        pairs.contains((title, artist)) ==> library_pairs::pair_titles(pairs).contains(title),
        library_pairs::pair_titles(pairs).contains(title) ==> exists|other: Seq<char>| #[trigger]
            pairs.contains((title, other)),
{
    if pairs.contains((title, artist)) {
        assert((|pair: library_pairs::Pair| pair.0)((title, artist)) == title);
    }
    if library_pairs::pair_titles(pairs).contains(title) {
        let pair = choose|pair: library_pairs::Pair| #[trigger]
            pairs.contains(pair) && (|p: library_pairs::Pair| p.0)(pair) == title;
        assert(pairs.contains((title, pair.1)));
    }
}

} // verus!
