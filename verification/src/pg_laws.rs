//! What a run of releases leaves in the database.

use crate::model;
use crate::pg_finish;
use crate::pg_output;
use crate::pg_output::PgView;
use vstd::prelude::*;

verus! {

/// The state after a sequence of releases was written.
pub open spec fn pg_run(state: PgView, releases: Seq<model::ReleaseView>) -> PgView
    decreases releases.len(),
{
    if releases.len() == 0 {
        state
    } else {
        pg_output::pg_written(pg_run(state, releases.drop_last()), releases.last())
    }
}

/// Whether every release has a title and an id of its own, and a number of tracks that can
/// be counted.
pub open spec fn distinct_and_titled(releases: Seq<model::ReleaseView>) -> bool {
    &&& forall|i: int| 0 <= i < releases.len() ==> (#[trigger] releases[i]).title.len() > 0
    &&& forall|i: int| 0 <= i < releases.len() ==> (#[trigger] releases[i]).tracks.len() <= u32::MAX
    &&& forall|i: int, j: int|
        0 <= i < j < releases.len() ==> (#[trigger] releases[i]).id != (#[trigger] releases[j]).id
}

/// Whether one of the releases has the given id.
pub open spec fn has_id(releases: Seq<model::ReleaseView>, id: u64) -> bool {
    exists|i: int| 0 <= i < releases.len() && (#[trigger] releases[i]).id == id
}

proof fn lemma_distinct_front(releases: Seq<model::ReleaseView>)
    requires
        distinct_and_titled(releases),
        releases.len() > 0,
    ensures
        distinct_and_titled(releases.drop_last()),
        forall|i: int|
            0 <= i < releases.len() - 1 ==> (#[trigger] releases[i]).id != releases.last().id,
        releases.last().title.len() > 0,
        releases.last().tracks.len() <= u32::MAX,
        forall|id: u64| #[trigger]
            has_id(releases.drop_last(), id) ==> has_id(releases, id),
        has_id(releases, releases.last().id),
        !has_id(releases.drop_last(), releases.last().id),
{
    let shorter = releases.drop_last();
    let last = releases.len() - 1;
    assert(releases[last] == releases.last());
    assert forall|i: int| 0 <= i < shorter.len() implies #[trigger] shorter[i] == releases[i] by {}
    assert forall|id: u64| #[trigger] has_id(shorter, id) implies has_id(releases, id) by {
        let i = choose|i: int| 0 <= i < shorter.len() && (#[trigger] shorter[i]).id == id;
        assert(releases[i].id == id);
    }
}

proof fn lemma_written(state: PgView, release: model::ReleaseView)
    requires
        release.title.len() > 0,
        release.tracks.len() <= u32::MAX,
    ensures
        pg_output::pg_written(state, release).track_counts == (if release.tracks.len() > 0 {
            state.track_counts.insert(release.id, release.tracks.len() as u32)
        } else {
            state.track_counts
        }),
        pg_output::pg_written(state, release).artwork == (match pg_output::artwork_of(
            release.images,
        ) {
            Some(uri) => state.artwork.insert(release.id, uri),
            None => state.artwork,
        }),
{
}

/// The track counts after a run are those of the releases that have tracks, and no others.
pub proof fn law_run_track_counts(start: PgView, releases: Seq<model::ReleaseView>)
    requires
        distinct_and_titled(releases),
        start.track_counts == Map::<u64, u32>::empty(),
    ensures
        ({
            let counts = pg_run(start, releases).track_counts;
            &&& forall|i: int|
                #![trigger releases[i]]
                0 <= i < releases.len() ==> {
                    &&& counts.dom().contains(releases[i].id) == (releases[i].tracks.len() > 0)
                    &&& releases[i].tracks.len() > 0 ==> counts[releases[i].id]
                        == releases[i].tracks.len()
                }
            &&& forall|id: u64| #[trigger] counts.dom().contains(id) ==> has_id(releases, id)
        }),
    decreases releases.len(),
{
    if releases.len() > 0 {
        let shorter = releases.drop_last();
        lemma_distinct_front(releases);
        law_run_track_counts(start, shorter);
        lemma_written(pg_run(start, shorter), releases.last());
        let before = pg_run(start, shorter).track_counts;
        let counts = pg_run(start, releases).track_counts;
        assert(!before.dom().contains(releases.last().id));
        assert forall|i: int| #![trigger releases[i]] 0 <= i < releases.len() implies {
            &&& counts.dom().contains(releases[i].id) == (releases[i].tracks.len() > 0)
            &&& releases[i].tracks.len() > 0 ==> counts[releases[i].id]
                == releases[i].tracks.len()
        } by {
            if i < shorter.len() {
                assert(shorter[i] == releases[i]);
            } else {
                assert(releases[i] == releases.last());
            }
        }
    }
}

/// The artwork after a run is that of the releases that have an image, and no other: the
/// uri of the first primary image, or of the first image where none is primary.
pub proof fn law_run_artwork(start: PgView, releases: Seq<model::ReleaseView>)
    requires
        distinct_and_titled(releases),
        start.artwork == Map::<u64, Seq<char>>::empty(),
    ensures
        ({
            let artwork = pg_run(start, releases).artwork;
            &&& forall|i: int|
                #![trigger releases[i]]
                0 <= i < releases.len() ==> {
                    &&& artwork.dom().contains(releases[i].id) == (releases[i].images.len() > 0)
                    &&& releases[i].images.len() > 0 ==> pg_output::artwork_of(releases[i].images)
                        == Some(artwork[releases[i].id])
                }
            &&& forall|id: u64| #[trigger] artwork.dom().contains(id) ==> has_id(releases, id)
        }),
    decreases releases.len(),
{
    if releases.len() > 0 {
        let shorter = releases.drop_last();
        lemma_distinct_front(releases);
        law_run_artwork(start, shorter);
        lemma_written(pg_run(start, shorter), releases.last());
        let before = pg_run(start, shorter).artwork;
        let artwork = pg_run(start, releases).artwork;
        assert(!before.dom().contains(releases.last().id));
        assert forall|i: int| #![trigger releases[i]] 0 <= i < releases.len() implies {
            &&& artwork.dom().contains(releases[i].id) == (releases[i].images.len() > 0)
            &&& releases[i].images.len() > 0 ==> pg_output::artwork_of(releases[i].images) == Some(
                artwork[releases[i].id],
            )
        } by {
            if i < shorter.len() {
                assert(shorter[i] == releases[i]);
            } else {
                assert(releases[i] == releases.last());
            }
        }
    }
}

/// Whether all rows of a table have the id of one of the releases in their first column.
pub open spec fn refers_to_one(
    table: Seq<Seq<Seq<u8>>>,
    releases: Seq<model::ReleaseView>,
) -> bool {
    forall|i: int|
        0 <= i < table.len() ==> (#[trigger] table[i]).len() > 1 && exists|j: int|
            0 <= j < releases.len() && table[i][0] == pg_output::copy_int(
                (#[trigger] releases[j]).id as nat,
            )
}

proof fn lemma_rows_concat(a: Seq<Seq<Seq<u8>>>, b: Seq<Seq<Seq<u8>>>)
    ensures
        pg_output::copy_rows(a + b) == pg_output::copy_rows(a) + pg_output::copy_rows(b),
    decreases b.len(),
{
    if b.len() == 0 {
        assert(a + b == a);
        assert(pg_output::copy_rows(a) + pg_output::copy_rows(b) == pg_output::copy_rows(a));
    } else {
        lemma_rows_concat(a, b.drop_last());
        assert((a + b).drop_last() == a + b.drop_last());
        assert(pg_output::copy_rows(a) + (pg_output::copy_rows(b.drop_last())
            + pg_output::copy_row(b.last())) == pg_output::copy_rows(a + b.drop_last())
            + pg_output::copy_row(b.last()));
    }
}

proof fn lemma_written_rows(state: PgView, release: model::ReleaseView, table: int) -> (rows: Seq<
    Seq<Seq<u8>>,
>)
    requires
        0 <= table < pg_output::pg_tables().len(),
        release.title.len() > 0,
    ensures
        pg_output::pg_written(state, release).rows[pg_output::pg_tables()[table].0]
            == state.rows[pg_output::pg_tables()[table].0] + pg_output::copy_rows(rows),
        pg_output::refers_to(rows, release.id),
        table == 0 ==> rows == seq![pg_output::release_columns(release)],
{
    let own = pg_output::law_rows_refer_to_their_release(state, release, table);
    if table == 0 {
        let rows = seq![pg_output::release_columns(release)];
        assert(rows.drop_last() == Seq::<Seq<Seq<u8>>>::empty());
        assert(pg_output::copy_rows(rows.drop_last()) == Seq::<u8>::empty());
        assert(Seq::<u8>::empty() + own == own);
        assert(pg_output::copy_rows(rows) == own);
        rows
    } else {
        choose|rows: Seq<Seq<Seq<u8>>>|
            pg_output::refers_to(rows, release.id) && own == #[trigger] pg_output::copy_rows(rows)
    }
}

/// What a run of titled releases adds to a table are rows that have the id of one of them
/// in their first column. To the table of releases it adds one row for each, in order.
/// Gives the rows that are added.
pub proof fn law_run_rows(start: PgView, releases: Seq<model::ReleaseView>, table: int) -> (added:
    Seq<Seq<Seq<u8>>>)
    requires
        0 <= table < pg_output::pg_tables().len(),
        forall|i: int| 0 <= i < releases.len() ==> (#[trigger] releases[i]).title.len() > 0,
    ensures
        pg_run(start, releases).rows[pg_output::pg_tables()[table].0]
            == start.rows[pg_output::pg_tables()[table].0] + pg_output::copy_rows(added),
        refers_to_one(added, releases),
        table == 0 ==> added.len() == releases.len() && forall|i: int|
            0 <= i < releases.len() ==> #[trigger] added[i] == pg_output::release_columns(
                releases[i],
            ),
    decreases releases.len(),
{
    let name = pg_output::pg_tables()[table].0;
    if releases.len() == 0 {
        let added = Seq::<Seq<Seq<u8>>>::empty();
        assert(start.rows[name] + pg_output::copy_rows(added) == start.rows[name]);
        added
    } else {
        let shorter = releases.drop_last();
        let last = releases.last();
        assert forall|i: int| 0 <= i < shorter.len() implies (#[trigger] shorter[i]).title.len()
            > 0 by {
            assert(shorter[i] == releases[i]);
        }
        assert(releases[releases.len() - 1] == last);
        let before = law_run_rows(start, shorter, table);
        let rows = lemma_written_rows(pg_run(start, shorter), last, table);
        let added = before + rows;
        lemma_rows_concat(before, rows);
        assert(start.rows[name] + pg_output::copy_rows(before) + pg_output::copy_rows(rows)
            == start.rows[name] + pg_output::copy_rows(added));
        assert forall|i: int| 0 <= i < added.len() implies (#[trigger] added[i]).len() > 1
            && exists|j: int|
            0 <= j < releases.len() && added[i][0] == pg_output::copy_int(
                (#[trigger] releases[j]).id as nat,
            ) by {
            if i < before.len() {
                assert(added[i] == before[i]);
                let j = choose|j: int|
                    0 <= j < shorter.len() && before[i][0] == pg_output::copy_int(
                        (#[trigger] shorter[j]).id as nat,
                    );
                assert(releases[j] == shorter[j]);
            } else {
                assert(added[i] == rows[i - before.len()]);
                assert(releases[releases.len() - 1].id == last.id);
            }
        }
        if table == 0 {
            assert forall|i: int| 0 <= i < releases.len() implies #[trigger] added[i]
                == pg_output::release_columns(releases[i]) by {
                if i < before.len() {
                    assert(added[i] == before[i]);
                    assert(shorter[i] == releases[i]);
                } else {
                    assert(added[i] == rows[0]);
                }
            }
        }
        added
    }
}

/// The state once all rows that wait are sent.
pub open spec fn pg_sent(state: PgView) -> PgView {
    PgView { rows: state.rows.map_values(|rows: Seq<u8>| Seq::<u8>::empty()), ..state }
}

/// Whether two states differ in their rows alone, and those of `whole` are `sent` with
/// those of `rest` after them.
spec fn continues(sent: Map<Seq<char>, Seq<u8>>, rest: PgView, whole: PgView) -> bool {
    &&& whole == (PgView { rows: whole.rows, ..rest })
    &&& forall|t: int|
        0 <= t < pg_output::pg_tables().len() ==> whole.rows[(
        #[trigger] pg_output::pg_tables()[t]).0] == sent[pg_output::pg_tables()[t].0]
            + rest.rows[pg_output::pg_tables()[t].0]
}

proof fn lemma_continues(
    sent: Map<Seq<char>, Seq<u8>>,
    rest: PgView,
    whole: PgView,
    release: model::ReleaseView,
)
    requires
        continues(sent, rest, whole),
    ensures
        continues(
            sent,
            pg_output::pg_written(rest, release),
            pg_output::pg_written(whole, release),
        ),
{
    let a = pg_output::pg_written(rest, release);
    let b = pg_output::pg_written(whole, release);
    if release.title.len() > 0 {
        assert forall|t: int| 0 <= t < pg_output::pg_tables().len() implies b.rows[(
        #[trigger] pg_output::pg_tables()[t]).0] == sent[pg_output::pg_tables()[t].0]
            + a.rows[pg_output::pg_tables()[t].0] by {
            let name = pg_output::pg_tables()[t].0;
            let added = pg_output::release_additions(rest, release)[t];
            pg_output::lemma_additions(rest, release, t);
            pg_output::lemma_additions(whole, release, t);
            assert(sent[name] + (rest.rows[name] + added) == sent[name] + rest.rows[name] + added);
        }
    }
}

/// When rows are sent does not matter. A run with a sending in between leaves the artwork,
/// the track counts and the keys of a run without one; what was sent, and after it what
/// waits, are the rows of a run without one.
pub proof fn law_sending_in_between(
    start: PgView,
    first: Seq<model::ReleaseView>,
    second: Seq<model::ReleaseView>,
)
    requires
        pg_output::has_tables(pg_run(start, first).rows),
    ensures
        ({
            let sent = pg_run(start, first).rows;
            let rest = pg_run(pg_sent(pg_run(start, first)), second);
            let whole = pg_run(start, first + second);
            &&& whole == (PgView { rows: whole.rows, ..rest })
            &&& forall|t: int|
                0 <= t < pg_output::pg_tables().len() ==> whole.rows[(
                #[trigger] pg_output::pg_tables()[t]).0] == sent[pg_output::pg_tables()[t].0]
                    + rest.rows[pg_output::pg_tables()[t].0]
        }),
    decreases second.len(),
{
    let middle = pg_run(start, first);
    let sent = middle.rows;
    if second.len() == 0 {
        assert(first + second == first);
        assert forall|t: int| 0 <= t < pg_output::pg_tables().len() implies middle.rows[(
        #[trigger] pg_output::pg_tables()[t]).0] == sent[pg_output::pg_tables()[t].0] + pg_sent(
            middle,
        ).rows[pg_output::pg_tables()[t].0] by {
            let name = pg_output::pg_tables()[t].0;
            assert(pg_sent(middle).rows[name] == Seq::<u8>::empty());
            assert(sent[name] + Seq::<u8>::empty() == sent[name]);
        }
    } else {
        let shorter = second.drop_last();
        law_sending_in_between(start, first, shorter);
        assert((first + second).drop_last() == first + shorter);
        lemma_continues(
            sent,
            pg_run(pg_sent(middle), shorter),
            pg_run(start, first + shorter),
            second.last(),
        );
    }
}

/// The end of a run. The rows of track counts are one for each release with tracks: its id
/// and the number of its tracks. Those of artwork are one for each release with an image:
/// its id and the uri. Last, all releases get their cache metadata.
pub proof fn law_end_of_run(
    start: PgView,
    releases: Seq<model::ReleaseView>,
    artwork_ids: Seq<u64>,
    count_ids: Seq<u64>,
)
    requires
        distinct_and_titled(releases),
        start.artwork == Map::<u64, Seq<char>>::empty(),
        start.track_counts == Map::<u64, u32>::empty(),
        pg_finish::lists(artwork_ids, pg_run(start, releases).artwork.dom()),
        pg_finish::lists(count_ids, pg_run(start, releases).track_counts.dom()),
    ensures
        ({
            let end = pg_run(start, releases);
            let actions = pg_finish::finish_actions(
                artwork_ids,
                count_ids,
                end.artwork,
                end.track_counts,
            );
            &&& forall|i: int|
                #![trigger releases[i]]
                0 <= i < releases.len() ==> {
                    &&& count_ids.contains(releases[i].id) == (releases[i].tracks.len() > 0)
                    &&& artwork_ids.contains(releases[i].id) == (releases[i].images.len() > 0)
                }
            &&& forall|k: int| 0 <= k < count_ids.len() ==> has_id(releases, #[trigger] count_ids[k])
            &&& forall|k: int|
                0 <= k < artwork_ids.len() ==> has_id(releases, #[trigger] artwork_ids[k])
            &&& count_ids.len() > 0 ==> actions[actions.len() - 2] == pg_finish::PgActionView::Copy(
                "COPY release_track_count (release_id, track_count) FROM STDIN"@,
                pg_output::copy_rows(count_table(count_ids, releases)),
            )
            &&& artwork_ids.len() > 0 ==> actions[1] == pg_finish::PgActionView::Copy(
                "COPY _artwork (release_id, artwork_url) FROM STDIN"@,
                pg_output::copy_rows(artwork_table(artwork_ids, releases)),
            )
            &&& actions.last() == pg_finish::PgActionView::Execute(
                "INSERT INTO cache_metadata (release_id, source) SELECT id, 'bulk_import' FROM release ON CONFLICT (release_id) DO NOTHING"@,
            )
        }),
{
    let end = pg_run(start, releases);
    lemma_listed(start, releases, artwork_ids, count_ids);
    lemma_count_rows(count_ids, releases, end.track_counts);
    lemma_artwork_rows(artwork_ids, releases, end.artwork);
    lemma_finish_actions(artwork_ids, count_ids, end);
}

proof fn lemma_finish_actions(artwork_ids: Seq<u64>, count_ids: Seq<u64>, end: PgView)
    ensures
        ({
            let actions = pg_finish::finish_actions(
                artwork_ids,
                count_ids,
                end.artwork,
                end.track_counts,
            );
            &&& count_ids.len() > 0 ==> actions[actions.len() - 2] == pg_finish::PgActionView::Copy(
                "COPY release_track_count (release_id, track_count) FROM STDIN"@,
                pg_finish::track_count_rows(count_ids, end.track_counts),
            )
            &&& artwork_ids.len() > 0 ==> actions[1] == pg_finish::PgActionView::Copy(
                "COPY _artwork (release_id, artwork_url) FROM STDIN"@,
                pg_finish::artwork_rows(artwork_ids, end.artwork),
            )
            &&& actions.last() == pg_finish::PgActionView::Execute(
                "INSERT INTO cache_metadata (release_id, source) SELECT id, 'bulk_import' FROM release ON CONFLICT (release_id) DO NOTHING"@,
            )
        }),
{
}

proof fn lemma_listed(
    start: PgView,
    releases: Seq<model::ReleaseView>,
    artwork_ids: Seq<u64>,
    count_ids: Seq<u64>,
)
    requires
        distinct_and_titled(releases),
        start.artwork == Map::<u64, Seq<char>>::empty(),
        start.track_counts == Map::<u64, u32>::empty(),
        pg_finish::lists(artwork_ids, pg_run(start, releases).artwork.dom()),
        pg_finish::lists(count_ids, pg_run(start, releases).track_counts.dom()),
    ensures
        forall|k: int|
            #![trigger count_ids[k]]
            0 <= k < count_ids.len() ==> {
                &&& has_id(releases, count_ids[k])
                &&& pg_run(start, releases).track_counts[count_ids[k]] == with_id(
                    releases,
                    count_ids[k],
                ).tracks.len()
            },
        forall|k: int|
            #![trigger artwork_ids[k]]
            0 <= k < artwork_ids.len() ==> {
                &&& has_id(releases, artwork_ids[k])
                &&& pg_output::artwork_of(with_id(releases, artwork_ids[k]).images) == Some(
                    pg_run(start, releases).artwork[artwork_ids[k]],
                )
            },
        forall|i: int|
            #![trigger releases[i]]
            0 <= i < releases.len() ==> {
                &&& count_ids.contains(releases[i].id) == (releases[i].tracks.len() > 0)
                &&& artwork_ids.contains(releases[i].id) == (releases[i].images.len() > 0)
            },
{
    law_run_track_counts(start, releases);
    law_run_artwork(start, releases);
    let counts = pg_run(start, releases).track_counts;
    let artwork = pg_run(start, releases).artwork;
    assert forall|k: int| #![trigger count_ids[k]] 0 <= k < count_ids.len() implies {
        &&& has_id(releases, count_ids[k])
        &&& counts[count_ids[k]] == with_id(releases, count_ids[k]).tracks.len()
    } by {
        assert(count_ids.to_set().contains(count_ids[k]));
        lemma_with_id(releases, count_ids[k]);
    }
    assert forall|k: int| #![trigger artwork_ids[k]] 0 <= k < artwork_ids.len() implies {
        &&& has_id(releases, artwork_ids[k])
        &&& pg_output::artwork_of(with_id(releases, artwork_ids[k]).images) == Some(
            artwork[artwork_ids[k]],
        )
    } by {
        assert(artwork_ids.to_set().contains(artwork_ids[k]));
        lemma_with_id(releases, artwork_ids[k]);
    }
    assert forall|i: int| #![trigger releases[i]] 0 <= i < releases.len() implies {
        &&& count_ids.contains(releases[i].id) == (releases[i].tracks.len() > 0)
        &&& artwork_ids.contains(releases[i].id) == (releases[i].images.len() > 0)
    } by {
        let id = releases[i].id;
        assert(count_ids.to_set().contains(id) == count_ids.contains(id));
        assert(artwork_ids.to_set().contains(id) == artwork_ids.contains(id));
    }
}

/// The release with the given id.
pub open spec fn with_id(releases: Seq<model::ReleaseView>, id: u64) -> model::ReleaseView {
    releases[choose|i: int| 0 <= i < releases.len() && (#[trigger] releases[i]).id == id]
}

proof fn lemma_with_id(releases: Seq<model::ReleaseView>, id: u64)
    requires
        has_id(releases, id),
    ensures
        with_id(releases, id).id == id,
        exists|i: int| 0 <= i < releases.len() && #[trigger] releases[i] == with_id(releases, id),
{
    let i = choose|i: int| 0 <= i < releases.len() && (#[trigger] releases[i]).id == id;
    assert(releases[i] == with_id(releases, id));
}

/// The rows of track counts: each id with the number of tracks of its release.
pub open spec fn count_table(ids: Seq<u64>, releases: Seq<model::ReleaseView>) -> Seq<
    Seq<Seq<u8>>,
> {
    ids.map_values(
        |id: u64|
            seq![
                pg_output::copy_int(id as nat),
                pg_output::copy_int(with_id(releases, id).tracks.len()),
            ],
    )
}

/// The rows of artwork: each id with the artwork of its release.
pub open spec fn artwork_table(ids: Seq<u64>, releases: Seq<model::ReleaseView>) -> Seq<
    Seq<Seq<u8>>,
> {
    ids.map_values(
        |id: u64|
            seq![
                pg_output::copy_int(id as nat),
                pg_output::copy_text(pg_output::artwork_of(with_id(releases, id).images)->0),
            ],
    )
}

proof fn lemma_count_rows(
    ids: Seq<u64>,
    releases: Seq<model::ReleaseView>,
    counts: Map<u64, u32>,
)
    requires
        forall|k: int|
            0 <= k < ids.len() ==> counts[#[trigger] ids[k]] == with_id(
                releases,
                ids[k],
            ).tracks.len(),
    ensures
        pg_finish::track_count_rows(ids, counts) == pg_output::copy_rows(
            count_table(ids, releases),
        ),
    decreases ids.len(),
{
    if ids.len() > 0 {
        let shorter = ids.drop_last();
        assert forall|k: int| 0 <= k < shorter.len() implies counts[#[trigger] shorter[k]]
            == with_id(releases, shorter[k]).tracks.len() by {
            assert(shorter[k] == ids[k]);
        }
        lemma_count_rows(shorter, releases, counts);
        assert(count_table(ids, releases).drop_last() == count_table(shorter, releases));
        assert(ids[ids.len() - 1] == ids.last());
    }
}

proof fn lemma_artwork_rows(
    ids: Seq<u64>,
    releases: Seq<model::ReleaseView>,
    artwork: Map<u64, Seq<char>>,
)
    requires
        forall|k: int|
            0 <= k < ids.len() ==> pg_output::artwork_of(with_id(releases, #[trigger] ids[k]).images)
                == Some(artwork[ids[k]]),
    ensures
        pg_finish::artwork_rows(ids, artwork) == pg_output::copy_rows(
            artwork_table(ids, releases),
        ),
    decreases ids.len(),
{
    if ids.len() > 0 {
        let shorter = ids.drop_last();
        assert forall|k: int| 0 <= k < shorter.len() implies pg_output::artwork_of(
            with_id(releases, #[trigger] shorter[k]).images,
        ) == Some(artwork[shorter[k]]) by {
            assert(shorter[k] == ids[k]);
        }
        lemma_artwork_rows(shorter, releases, artwork);
        assert(artwork_table(ids, releases).drop_last() == artwork_table(shorter, releases));
        assert(ids[ids.len() - 1] == ids.last());
    }
}

} // verus!
