//! What is left to do in the database once all rows of the releases are sent.

use crate::pg_output;
use crate::pg_output::PgOutput;
use crate::text;
use std::collections::HashMap;
use vstd::prelude::*;

verus! {

broadcast use vstd::std_specs::hash::group_hash_axioms;

/// Something to do in the database.
#[derive(Debug)]
pub enum PgAction {
    /// A statement to execute.
    Execute(String),
    /// A COPY statement, and the rows to send with it.
    Copy(String, Vec<u8>),
}

/// The model of a [`PgAction`].
pub enum PgActionView {
    Execute(Seq<char>),
    Copy(Seq<char>, Seq<u8>),
}

impl DeepView for PgAction {
    type V = PgActionView;

    open spec fn deep_view(&self) -> PgActionView {
        match self {
            PgAction::Execute(statement) => PgActionView::Execute(statement@),
            PgAction::Copy(statement, rows) => PgActionView::Copy(statement@, rows@),
        }
    }
}

/// Whether `ids` lists the members of a set, each once. The order is open.
pub open spec fn lists(ids: Seq<u64>, set: Set<u64>) -> bool {
    ids.no_duplicates() && ids.to_set() == set
}

/// The rows of the artwork of the given releases.
pub open spec fn artwork_rows(ids: Seq<u64>, artwork: Map<u64, Seq<char>>) -> Seq<u8>
    decreases ids.len(),
{
    if ids.len() == 0 {
        Seq::empty()
    } else {
        let id = ids.last();
        artwork_rows(ids.drop_last(), artwork) + pg_output::copy_row(
            seq![pg_output::copy_int(id as nat), pg_output::copy_text(artwork[id])],
        )
    }
}

/// The rows of the track counts of the given releases.
pub open spec fn track_count_rows(ids: Seq<u64>, counts: Map<u64, u32>) -> Seq<u8>
    decreases ids.len(),
{
    if ids.len() == 0 {
        Seq::empty()
    } else {
        let id = ids.last();
        track_count_rows(ids.drop_last(), counts) + pg_output::copy_row(
            seq![pg_output::copy_int(id as nat), pg_output::copy_int(counts[id] as nat)],
        )
    }
}

/// The artwork goes through a table of its own to the releases.
pub open spec fn artwork_actions(rows: Seq<u8>) -> Seq<PgActionView> {
    seq![
        PgActionView::Execute(
            "CREATE TEMP TABLE _artwork (release_id integer PRIMARY KEY, artwork_url text NOT NULL)"@,
        ),
        PgActionView::Copy("COPY _artwork (release_id, artwork_url) FROM STDIN"@, rows),
        PgActionView::Execute(
            "UPDATE release r SET artwork_url = a.artwork_url FROM _artwork a WHERE r.id = a.release_id"@,
        ),
        PgActionView::Execute("DROP TABLE _artwork"@),
    ]
}

/// The table of track counts is made anew.
pub open spec fn track_count_actions() -> Seq<PgActionView> {
    seq![
        PgActionView::Execute("DROP TABLE IF EXISTS release_track_count"@),
        PgActionView::Execute(
            "CREATE UNLOGGED TABLE release_track_count (release_id integer PRIMARY KEY, track_count integer NOT NULL)"@,
        ),
    ]
}

/// What is to be done, given the ids of the releases with artwork and of those with a
/// track count in the order of their rows: nothing for artwork where there is none, and no
/// rows of track counts where there are none. All releases end up in the cache metadata.
pub open spec fn finish_actions(
    artwork_ids: Seq<u64>,
    count_ids: Seq<u64>,
    artwork: Map<u64, Seq<char>>,
    counts: Map<u64, u32>,
) -> Seq<PgActionView> {
    let first = if artwork_ids.len() > 0 {
        artwork_actions(artwork_rows(artwork_ids, artwork))
    } else {
        Seq::empty()
    };
    let second = if count_ids.len() > 0 {
        seq![
            PgActionView::Copy(
                "COPY release_track_count (release_id, track_count) FROM STDIN"@,
                track_count_rows(count_ids, counts),
            ),
        ]
    } else {
        Seq::empty()
    };
    first + track_count_actions() + second + seq![
        PgActionView::Execute(
            "INSERT INTO cache_metadata (release_id, source) SELECT id, 'bulk_import' FROM release ON CONFLICT (release_id) DO NOTHING"@,
        ),
    ]
}

fn keys_of<V>(map: &HashMap<u64, V>) -> (ids: Vec<u64>)
    ensures
        lists(ids@, map@.dom()),
{
    let mut ids: Vec<u64> = Vec::new();
    if map.len() == 0 {
        assert(ids@.to_set() == map@.dom());
        return ids;
    }
    for id in it: map.keys()
        invariant
            it.seq().no_duplicates(),
            it.seq().unref().to_set() == map@.dom(),
            ids.len() == it.index(),
            forall|i: int| 0 <= i < ids.len() ==> ids[i] == it.seq().unref()[i],
            ids.len() == it.seq().len() ==> lists(ids@, map@.dom()),
    {
        ids.push(*id);
        assert(ids.len() == it.seq().len() ==> ids@ == it.seq().unref());
    }
    ids
}

fn write_artwork_rows(ids: &Vec<u64>, artwork: &HashMap<u64, String>) -> (rows: Vec<u8>)
    requires
        ids@.to_set().subset_of(artwork@.dom()),
    ensures
        rows@ == artwork_rows(ids@, pg_output::artwork_view(artwork@)),
{
    let ghost known = pg_output::artwork_view(artwork@);
    let mut rows: Vec<u8> = Vec::new();
    let mut i: usize = 0;
    while i < ids.len()
        invariant
            i <= ids.len(),
            ids@.to_set().subset_of(artwork@.dom()),
            known == pg_output::artwork_view(artwork@),
            rows@ == artwork_rows(ids@.take(i as int), known),
        decreases ids.len() - i,
    {
        let id: u64 = ids[i];
        assert(ids@.to_set().contains(id));
        if let Some(uri) = artwork.get(&id) {
            let mut row = pg_output::artwork_row(id, uri.as_str());
            rows.append(&mut row);
        }
        assert(ids@.take(i + 1).drop_last() == ids@.take(i as int));
        i += 1;
    }
    assert(ids@.take(ids.len() as int) == ids@);
    rows
}

fn write_track_count_rows(ids: &Vec<u64>, counts: &HashMap<u64, u32>) -> (rows: Vec<u8>)
    requires
        ids@.to_set().subset_of(counts@.dom()),
    ensures
        rows@ == track_count_rows(ids@, counts@),
{
    let mut rows: Vec<u8> = Vec::new();
    let mut i: usize = 0;
    while i < ids.len()
        invariant
            i <= ids.len(),
            ids@.to_set().subset_of(counts@.dom()),
            rows@ == track_count_rows(ids@.take(i as int), counts@),
        decreases ids.len() - i,
    {
        let id: u64 = ids[i];
        assert(ids@.to_set().contains(id));
        if let Some(count) = counts.get(&id) {
            let mut row = pg_output::track_count_row(id, *count);
            rows.append(&mut row);
        }
        assert(ids@.take(i + 1).drop_last() == ids@.take(i as int));
        i += 1;
    }
    assert(ids@.take(ids.len() as int) == ids@);
    rows
}

fn push_statement(actions: &mut Vec<PgAction>, statement: &str)
    ensures
        final(actions).deep_view() == old(actions).deep_view().push(
            PgActionView::Execute(statement@),
        ),
{
    text::push_item(actions, PgAction::Execute(statement.to_owned()));
}

fn push_copy(actions: &mut Vec<PgAction>, statement: &str, rows: Vec<u8>)
    ensures
        final(actions).deep_view() == old(actions).deep_view().push(
            PgActionView::Copy(statement@, rows@),
        ),
{
    text::push_item(actions, PgAction::Copy(statement.to_owned(), rows));
}

impl PgOutput {
    /// What is left to do once all rows are sent: the artwork goes to the releases, the
    /// table of track counts is made, and the cache metadata are completed.
    pub fn finish(&self) -> (actions: Vec<PgAction>)
        ensures
            exists|artwork_ids: Seq<u64>, count_ids: Seq<u64>|
                {
                    &&& lists(artwork_ids, self.deep_view().artwork.dom())
                    &&& lists(count_ids, self.deep_view().track_counts.dom())
                    &&& actions.deep_view() == #[trigger] finish_actions(
                        artwork_ids,
                        count_ids,
                        self.deep_view().artwork,
                        self.deep_view().track_counts,
                    )
                },
    {
        let artwork_ids = keys_of(&self.artwork);
        let count_ids = keys_of(&self.track_counts);
        let ghost artwork = self.deep_view().artwork;
        let ghost counts = self.deep_view().track_counts;
        assert(artwork.dom() == self.artwork@.dom());
        let mut actions: Vec<PgAction> = Vec::new();
        assert(actions.deep_view() == Seq::<PgActionView>::empty());
        if artwork_ids.len() > 0 {
            push_statement(
                &mut actions,
                "CREATE TEMP TABLE _artwork (release_id integer PRIMARY KEY, artwork_url text NOT NULL)",
            );
            let rows = write_artwork_rows(&artwork_ids, &self.artwork);
            push_copy(
                &mut actions,
                "COPY _artwork (release_id, artwork_url) FROM STDIN",
                rows,
            );
            push_statement(
                &mut actions,
                "UPDATE release r SET artwork_url = a.artwork_url FROM _artwork a WHERE r.id = a.release_id",
            );
            push_statement(&mut actions, "DROP TABLE _artwork");
            assert(actions.deep_view() == artwork_actions(artwork_rows(artwork_ids@, artwork)));
        }
        let ghost first = actions.deep_view();
        push_statement(&mut actions, "DROP TABLE IF EXISTS release_track_count");
        push_statement(
            &mut actions,
            "CREATE UNLOGGED TABLE release_track_count (release_id integer PRIMARY KEY, track_count integer NOT NULL)",
        );
        assert(actions.deep_view() == first + track_count_actions());
        if count_ids.len() > 0 {
            let rows = write_track_count_rows(&count_ids, &self.track_counts);
            push_copy(
                &mut actions,
                "COPY release_track_count (release_id, track_count) FROM STDIN",
                rows,
            );
        }
        push_statement(
            &mut actions,
            "INSERT INTO cache_metadata (release_id, source) SELECT id, 'bulk_import' FROM release ON CONFLICT (release_id) DO NOTHING",
        );
        assert(actions.deep_view() == finish_actions(artwork_ids@, count_ids@, artwork, counts));
        actions
    }
}

/// What is done at the end of a run, statement by statement. Artwork goes through a table
/// of its own, which is made before and dropped after; the table of track counts is made
/// anew whether or not there are any.
pub proof fn law_statements(
    artwork_ids: Seq<u64>,
    count_ids: Seq<u64>,
    artwork: Map<u64, Seq<char>>,
    counts: Map<u64, u32>,
)
    ensures
        ({
            let actions = finish_actions(artwork_ids, count_ids, artwork, counts);
            let first = if artwork_ids.len() > 0 {
                4int
            } else {
                0int
            };
            let rows = if count_ids.len() > 0 {
                1int
            } else {
                0int
            };
            &&& actions.len() == first + 2 + rows + 1
            &&& artwork_ids.len() > 0 ==> {
                &&& actions[0] == PgActionView::Execute(
                    "CREATE TEMP TABLE _artwork (release_id integer PRIMARY KEY, artwork_url text NOT NULL)"@,
                )
                &&& actions[1] matches PgActionView::Copy(statement, _) && statement
                    == "COPY _artwork (release_id, artwork_url) FROM STDIN"@
                &&& actions[2] == PgActionView::Execute(
                    "UPDATE release r SET artwork_url = a.artwork_url FROM _artwork a WHERE r.id = a.release_id"@,
                )
                &&& actions[3] == PgActionView::Execute("DROP TABLE _artwork"@)
            }
            &&& actions[first] == PgActionView::Execute(
                "DROP TABLE IF EXISTS release_track_count"@,
            )
            &&& actions[first + 1] == PgActionView::Execute(
                "CREATE UNLOGGED TABLE release_track_count (release_id integer PRIMARY KEY, track_count integer NOT NULL)"@,
            )
            &&& count_ids.len() > 0 ==> (actions[first + 2] matches PgActionView::Copy(
                statement,
                _,
            ) && statement == "COPY release_track_count (release_id, track_count) FROM STDIN"@)
            &&& actions[first + 2 + rows] == PgActionView::Execute(
                "INSERT INTO cache_metadata (release_id, source) SELECT id, 'bulk_import' FROM release ON CONFLICT (release_id) DO NOTHING"@,
            )
        }),
{
}

} // verus!
