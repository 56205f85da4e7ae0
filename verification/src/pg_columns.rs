//! Which rows a release adds to the tables, and what stands in their columns.

use crate::model;
use crate::pg_output;
use crate::pg_output::PgView;
use vstd::prelude::*;

verus! {

/// A row: the bytes of its columns.
pub type Columns = Seq<Seq<u8>>;

/// The rows of those of the first `n` items that have one, in order.
pub open spec fn rows_where(n: nat, keep: spec_fn(int) -> bool, row: spec_fn(int) -> Columns) -> Seq<
    Columns,
>
    decreases n,
{
    if n == 0 {
        Seq::empty()
    } else {
        let before = rows_where((n - 1) as nat, keep, row);
        if keep(n - 1) {
            before.push(row(n - 1))
        } else {
            before
        }
    }
}

/// A text column that may be empty: no value is written as `\\N`.
pub open spec fn text_or_none(value: Seq<char>) -> Seq<u8> {
    if value.len() > 0 {
        pg_output::copy_text(value)
    } else {
        seq![0x5cu8, 0x4eu8]
    }
}

/// A number that may be missing.
pub open spec fn number_or_none(n: Option<nat>) -> Seq<u8> {
    match n {
        Some(n) => pg_output::copy_int(n),
        None => seq![0x5cu8, 0x4eu8],
    }
}

/// The rows of a table after a release with a title: those before, and the given ones.
pub open spec fn adds(
    state: PgView,
    release: model::ReleaseView,
    table: Seq<char>,
    rows: Seq<Columns>,
) -> bool {
    pg_output::pg_written(state, release).rows[table] == state.rows[table] + pg_output::copy_rows(
        rows,
    )
}

proof fn lemma_push_row(rows: Seq<Columns>, row: Columns)
    ensures
        pg_output::copy_rows(rows.push(row)) == pg_output::copy_rows(rows) + pg_output::copy_row(
            row,
        ),
{
    assert(rows.push(row).drop_last() == rows);
}

proof fn lemma_concat_rows(a: Seq<Columns>, b: Seq<Columns>)
    ensures
        pg_output::copy_rows(a + b) == pg_output::copy_rows(a) + pg_output::copy_rows(b),
    decreases b.len(),
{
    if b.len() == 0 {
        assert(a + b == a);
        assert(pg_output::copy_rows(a) + pg_output::copy_rows(b) == pg_output::copy_rows(a));
    } else {
        lemma_concat_rows(a, b.drop_last());
        assert(a + b == (a + b.drop_last()).push(b.last()));
        lemma_push_row(a + b.drop_last(), b.last());
        assert(pg_output::copy_rows(a) + (pg_output::copy_rows(b.drop_last())
            + pg_output::copy_row(b.last())) == pg_output::copy_rows(a + b.drop_last())
            + pg_output::copy_row(b.last()));
    }
}

/// The columns of a release: its id and title, the year of its date, its country and its
/// master, with no value for what is missing.
pub open spec fn columns_of_release(release: model::ReleaseView) -> Columns {
    seq![
        pg_output::copy_int(release.id as nat),
        pg_output::copy_text(release.title),
        number_or_none(pg_output::year_of(release.released)),
        text_or_none(release.country),
        number_or_none(
            match release.master_id {
                Some(id) => Some(id as nat),
                None => None,
            },
        ),
    ]
}

proof fn lemma_release_row(release: model::ReleaseView)
    ensures
        pg_output::release_copy(release) == pg_output::copy_rows(
            seq![columns_of_release(release)],
        ),
{
    let row = columns_of_release(release);
    assert(pg_output::release_columns(release) == row);
    let none = Seq::<Columns>::empty();
    lemma_push_row(none, row);
    assert(none.push(row) == seq![row]);
    assert(pg_output::copy_rows(none) == Seq::<u8>::empty());
    assert(Seq::<u8>::empty() + pg_output::copy_row(row) == pg_output::copy_row(row));
}

proof fn lemma_adds(state: PgView, release: model::ReleaseView, t: int, rows: Seq<Columns>)
    requires
        release.title.len() > 0,
        0 <= t < pg_output::pg_tables().len(),
        pg_output::release_additions(state, release)[t] == pg_output::copy_rows(rows),
    ensures
        adds(state, release, pg_output::pg_tables()[t].0, rows),
{
    pg_output::lemma_additions(state, release, t);
}

/// A release with a title adds one row to the table of releases.
pub proof fn law_release_row(state: PgView, release: model::ReleaseView)
    requires
        release.title.len() > 0,
    ensures
        adds(state, release, "release"@, seq![columns_of_release(release)]),
{
    lemma_release_row(release);
    lemma_adds(state, release, 0, seq![columns_of_release(release)]);
}

/// Whether the credit at a place has a row: it has a name, which is new for the release.
pub open spec fn new_credit(
    known: Set<(u64, Seq<char>)>,
    id: u64,
    names: Seq<Seq<char>>,
    i: int,
) -> bool {
    &&& names[i].len() > 0
    &&& !known.contains((id, names[i]))
    &&& forall|j: int| 0 <= j < i ==> #[trigger] names[j] != names[i]
}

/// The names of artist credits.
pub open spec fn credit_names(credits: Seq<model::ReleaseArtistView>) -> Seq<Seq<char>> {
    credits.map_values(|credit: model::ReleaseArtistView| credit.name)
}

/// The row of the artist credit at a place: marked where it is an extra one.
pub open spec fn credit_row(
    id: u64,
    main: Seq<model::ReleaseArtistView>,
    extra: Seq<model::ReleaseArtistView>,
) -> spec_fn(int) -> Columns {
    |i: int|
        if i < main.len() {
            seq![
                pg_output::copy_int(id as nat),
                pg_output::copy_int(main[i].artist_id as nat),
                pg_output::copy_text(main[i].name),
                pg_output::copy_int(0),
            ]
        } else {
            seq![
                pg_output::copy_int(id as nat),
                pg_output::copy_int(extra[i - main.len()].artist_id as nat),
                pg_output::copy_text(extra[i - main.len()].name),
                pg_output::copy_int(1),
            ]
        }
}

/// Whether the artist credit at a place has a row.
pub open spec fn credit_is_new(
    known: Set<(u64, Seq<char>)>,
    id: u64,
    names: Seq<Seq<char>>,
) -> spec_fn(int) -> bool {
    |i: int| new_credit(known, id, names, i)
}

/// Whether keys are those known and those of the first names.
spec fn keys_after(
    keys: Set<(u64, Seq<char>)>,
    known: Set<(u64, Seq<char>)>,
    id: u64,
    names: Seq<Seq<char>>,
    n: int,
) -> bool {
    forall|key: (u64, Seq<char>)| #[trigger]
        keys.contains(key) <==> known.contains(key) || key.0 == id && key.1.len() > 0 && exists|
            j: int,
        |
            0 <= j < n && #[trigger] names[j] == key.1
}

proof fn lemma_main_credits(
    known: Set<(u64, Seq<char>)>,
    id: u64,
    main: Seq<model::ReleaseArtistView>,
    extra: Seq<model::ReleaseArtistView>,
    n: int,
)
    requires
        0 <= n <= main.len(),
    ensures
        ({
            let names = credit_names(main + extra);
            let copies = pg_output::credit_copies(known, id, main.take(n), 0);
            &&& copies.1 == pg_output::copy_rows(
                rows_where(
                    n as nat,
                    credit_is_new(known, id, names),
                    credit_row(id, main, extra),
                ),
            )
            &&& keys_after(copies.0, known, id, names, n)
        }),
    decreases n,
{
    if n > 0 {
        let names = credit_names(main + extra);
        let row = credit_row(id, main, extra);
        lemma_main_credits(known, id, main, extra, n - 1);
        lemma_push_row(
            rows_where((n - 1) as nat, credit_is_new(known, id, names), row),
            row(n - 1),
        );
        assert(names[n - 1] == main[n - 1].name);
        assert(main.take(n).drop_last() == main.take(n - 1));
        assert(main.take(n).last() == main[n - 1]);
        let shorter = pg_output::credit_copies(known, id, main.take(n - 1), 0);
        lemma_known(known, id, names, n, shorter.0);
    }
}

proof fn lemma_extra_credits(
    known: Set<(u64, Seq<char>)>,
    id: u64,
    main: Seq<model::ReleaseArtistView>,
    extra: Seq<model::ReleaseArtistView>,
    m: int,
)
    requires
        0 <= m <= extra.len(),
    ensures
        ({
            let names = credit_names(main + extra);
            let first = pg_output::credit_copies(known, id, main, 0);
            let copies = pg_output::credit_copies(first.0, id, extra.take(m), 1);
            &&& first.1 + copies.1 == pg_output::copy_rows(
                rows_where(
                    (main.len() + m) as nat,
                    credit_is_new(known, id, names),
                    credit_row(id, main, extra),
                ),
            )
            &&& keys_after(copies.0, known, id, names, main.len() + m)
        }),
    decreases m,
{
    let names = credit_names(main + extra);
    let row = credit_row(id, main, extra);
    let n = main.len() + m;
    let first = pg_output::credit_copies(known, id, main, 0);
    if m == 0 {
        lemma_main_credits(known, id, main, extra, main.len() as int);
        assert(main.take(main.len() as int) == main);
        assert(extra.take(0) == Seq::<model::ReleaseArtistView>::empty());
        assert(first.1 + Seq::<u8>::empty() == first.1);
    } else {
        lemma_extra_credits(known, id, main, extra, m - 1);
        lemma_push_row(
            rows_where((n - 1) as nat, credit_is_new(known, id, names), row),
            row(n - 1),
        );
        assert(names[n - 1] == extra[m - 1].name);
        assert(extra.take(m).drop_last() == extra.take(m - 1));
        assert(extra.take(m).last() == extra[m - 1]);
        let shorter = pg_output::credit_copies(first.0, id, extra.take(m - 1), 1);
        lemma_known(known, id, names, n, shorter.0);
        assert(first.1 + (shorter.1 + pg_output::copy_row(row(n - 1))) == first.1 + shorter.1
            + pg_output::copy_row(row(n - 1)));
    }
}

/// Among the keys after some credits, a name is new exactly where no credit before had it.
proof fn lemma_known(
    known: Set<(u64, Seq<char>)>,
    id: u64,
    names: Seq<Seq<char>>,
    n: int,
    keys: Set<(u64, Seq<char>)>,
)
    requires
        0 < n <= names.len(),
        keys_after(keys, known, id, names, n - 1),
    ensures
        new_credit(known, id, names, n - 1) <==> names[n - 1].len() > 0 && !keys.contains(
            (id, names[n - 1]),
        ),
        names[n - 1].len() > 0 ==> keys_after(
            keys.insert((id, names[n - 1])),
            known,
            id,
            names,
            n,
        ),
        names[n - 1].len() == 0 || keys.contains((id, names[n - 1])) ==> keys_after(
            keys,
            known,
            id,
            names,
            n,
        ),
{
    let name = names[n - 1];
    assert forall|key: (u64, Seq<char>)|
        (#[trigger] keys.contains(key) || key == (id, name) && name.len() > 0) <==> known.contains(
            key,
        ) || key.0 == id && key.1.len() > 0 && exists|j: int|
            0 <= j < n && #[trigger] names[j] == key.1 by {
        if exists|j: int| 0 <= j < n && #[trigger] names[j] == key.1 {
            let j = choose|j: int| 0 <= j < n && #[trigger] names[j] == key.1;
            if j < n - 1 {
                assert(names[j] == key.1);
            }
        }
    }
    let more = keys.insert((id, name));
    assert forall|key: (u64, Seq<char>)| name.len() > 0 implies (#[trigger] more.contains(key)
        <==> known.contains(key) || key.0 == id && key.1.len() > 0 && exists|j: int|
        0 <= j < n && #[trigger] names[j] == key.1) by {
        assert(more.contains(key) <==> keys.contains(key) || key == (id, name));
    }
}

/// The artist credits of a release, first the main and then the extra ones, have one row
/// for each name that is not empty and new for the release: that of the first credit with
/// the name, with its id, and marked where it is an extra one. The names are known from
/// there on, and no others.
pub proof fn law_artist_rows(state: PgView, release: model::ReleaseView)
    requires
        release.title.len() > 0,
    ensures
        ({
            let id = release.id;
            let names = credit_names(release.artists + release.extra_artists);
            &&& adds(
                state,
                release,
                "release_artist"@,
                rows_where(
                    names.len(),
                    credit_is_new(state.artists, id, names),
                    credit_row(id, release.artists, release.extra_artists),
                ),
            )
            &&& forall|key: (u64, Seq<char>)| #[trigger]
                pg_output::pg_written(state, release).artists.contains(key)
                    <==> state.artists.contains(key) || key.0 == id && key.1.len() > 0 && exists|
                    j: int,
                |
                    0 <= j < names.len() && #[trigger] names[j] == key.1
        }),
{
    let main = release.artists;
    let extra = release.extra_artists;
    lemma_extra_credits(state.artists, release.id, main, extra, extra.len() as int);
    assert(extra.take(extra.len() as int) == extra);
    let names = credit_names(main + extra);
    lemma_adds(
        state,
        release,
        1,
        rows_where(
            names.len(),
            credit_is_new(state.artists, release.id, names),
            credit_row(release.id, main, extra),
        ),
    );
    lemma_artist_keys(state, release);
}

proof fn lemma_artist_keys(state: PgView, release: model::ReleaseView)
    requires
        release.title.len() > 0,
    ensures
        pg_output::pg_written(state, release).artists == pg_output::credit_copies(
            pg_output::credit_copies(state.artists, release.id, release.artists, 0).0,
            release.id,
            release.extra_artists,
            1,
        ).0,
{
}

/// The names of labels.
pub open spec fn label_names(labels: Seq<model::ReleaseLabelView>) -> Seq<Seq<char>> {
    labels.map_values(|label: model::ReleaseLabelView| label.name)
}

proof fn lemma_labels(
    known: Set<(u64, Seq<char>)>,
    id: u64,
    labels: Seq<model::ReleaseLabelView>,
    n: int,
)
    requires
        0 <= n <= labels.len(),
    ensures
        ({
            let names = label_names(labels);
            let copies = pg_output::label_copies(known, id, labels.take(n));
            &&& copies.1 == pg_output::copy_rows(
                rows_where(
                    n as nat,
                    |i: int| new_credit(known, id, names, i),
                    |i: int|
                        seq![
                            pg_output::copy_int(id as nat),
                            pg_output::copy_text(labels[i].name),
                        ],
                ),
            )
            &&& keys_after(copies.0, known, id, names, n)
        }),
    decreases n,
{
    let names = label_names(labels);
    let keep = |i: int| new_credit(known, id, names, i);
    let row = |i: int|
        seq![pg_output::copy_int(id as nat), pg_output::copy_text(labels[i].name)];
    if n > 0 {
        lemma_labels(known, id, labels, n - 1);
        lemma_push_row(rows_where((n - 1) as nat, keep, row), row(n - 1));
        assert(labels.take(n).drop_last() == labels.take(n - 1));
        assert(labels.take(n).last() == labels[n - 1]);
        assert(names[n - 1] == labels[n - 1].name);
        lemma_known(
            known,
            id,
            names,
            n,
            pg_output::label_copies(known, id, labels.take(n - 1)).0,
        );
    }
}

/// The labels of a release have one row for each name that is not empty and new for the
/// release.
pub proof fn law_label_rows(state: PgView, release: model::ReleaseView)
    requires
        release.title.len() > 0,
    ensures
        ({
            let id = release.id;
            let labels = release.labels;
            &&& adds(
                state,
                release,
                "release_label"@,
                rows_where(
                    labels.len(),
                    |i: int| new_credit(state.labels, id, label_names(labels), i),
                    |i: int|
                        seq![
                            pg_output::copy_int(id as nat),
                            pg_output::copy_text(labels[i].name),
                        ],
                ),
            )
            &&& forall|key: (u64, Seq<char>)| #[trigger]
                pg_output::pg_written(state, release).labels.contains(key)
                    <==> state.labels.contains(key) || key.0 == id && key.1.len() > 0 && exists|
                    j: int,
                |
                    0 <= j < labels.len() && #[trigger] label_names(labels)[j] == key.1
        }),
{
    pg_output::lemma_additions(state, release, 2);
    lemma_labels(state.labels, release.id, release.labels, release.labels.len() as int);
    assert(release.labels.take(release.labels.len() as int) == release.labels);
}

proof fn lemma_tracks(id: u64, tracks: Seq<model::ReleaseTrackView>, n: int)
    requires
        0 <= n <= tracks.len() <= u32::MAX,
    ensures
        pg_output::track_copies(id, tracks.take(n)) == pg_output::copy_rows(
            rows_where(
                n as nat,
                |i: int| tracks[i].title.len() > 0,
                |i: int|
                    seq![
                        pg_output::copy_int(id as nat),
                        pg_output::copy_int((i + 1) as nat),
                        text_or_none(tracks[i].position),
                        pg_output::copy_text(tracks[i].title),
                        text_or_none(tracks[i].duration),
                    ],
            ),
        ),
    decreases n,
{
    let keep = |i: int| tracks[i].title.len() > 0;
    let row = |i: int|
        seq![
            pg_output::copy_int(id as nat),
            pg_output::copy_int((i + 1) as nat),
            text_or_none(tracks[i].position),
            pg_output::copy_text(tracks[i].title),
            text_or_none(tracks[i].duration),
        ];
    if n > 0 {
        lemma_tracks(id, tracks, n - 1);
        lemma_push_row(rows_where((n - 1) as nat, keep, row), row(n - 1));
        assert(tracks.take(n).drop_last() == tracks.take(n - 1));
        assert(tracks.take(n).last() == tracks[n - 1]);
    }
}

/// The tracks of a release with a title have one row each, in order, numbered by their
/// place among all tracks.
pub proof fn law_track_rows(state: PgView, release: model::ReleaseView)
    requires
        release.title.len() > 0,
        release.tracks.len() <= u32::MAX,
    ensures
        adds(
            state,
            release,
            "release_track"@,
            rows_where(
                release.tracks.len(),
                |i: int| release.tracks[i].title.len() > 0,
                |i: int|
                    seq![
                        pg_output::copy_int(release.id as nat),
                        pg_output::copy_int((i + 1) as nat),
                        text_or_none(release.tracks[i].position),
                        pg_output::copy_text(release.tracks[i].title),
                        text_or_none(release.tracks[i].duration),
                    ],
            ),
        ),
{
    pg_output::lemma_additions(state, release, 3);
    lemma_tracks(release.id, release.tracks, release.tracks.len() as int);
    assert(release.tracks.take(release.tracks.len() as int) == release.tracks);
}

proof fn lemma_tags(id: u64, tags: Seq<Seq<char>>, n: int)
    requires
        0 <= n <= tags.len(),
    ensures
        pg_output::tag_copies(id, tags.take(n)) == pg_output::copy_rows(
            rows_where(
                n as nat,
                |i: int| tags[i].len() > 0,
                |i: int| seq![pg_output::copy_int(id as nat), pg_output::copy_text(tags[i])],
            ),
        ),
    decreases n,
{
    let keep = |i: int| tags[i].len() > 0;
    let row = |i: int| seq![pg_output::copy_int(id as nat), pg_output::copy_text(tags[i])];
    if n > 0 {
        lemma_tags(id, tags, n - 1);
        lemma_push_row(rows_where((n - 1) as nat, keep, row), row(n - 1));
        assert(tags.take(n).drop_last() == tags.take(n - 1));
        assert(tags.take(n).last() == tags[n - 1]);
    }
}

/// The genres and the styles of a release that are not empty have one row each, in order.
pub proof fn law_tag_rows(state: PgView, release: model::ReleaseView)
    requires
        release.title.len() > 0,
    ensures
        adds(
            state,
            release,
            "release_genre"@,
            rows_where(
                release.genres.len(),
                |i: int| release.genres[i].len() > 0,
                |i: int|
                    seq![
                        pg_output::copy_int(release.id as nat),
                        pg_output::copy_text(release.genres[i]),
                    ],
            ),
        ),
        adds(
            state,
            release,
            "release_style"@,
            rows_where(
                release.styles.len(),
                |i: int| release.styles[i].len() > 0,
                |i: int|
                    seq![
                        pg_output::copy_int(release.id as nat),
                        pg_output::copy_text(release.styles[i]),
                    ],
            ),
        ),
{
    pg_output::lemma_additions(state, release, 5);
    pg_output::lemma_additions(state, release, 6);
    lemma_tags(release.id, release.genres, release.genres.len() as int);
    lemma_tags(release.id, release.styles, release.styles.len() as int);
    assert(release.genres.take(release.genres.len() as int) == release.genres);
    assert(release.styles.take(release.styles.len() as int) == release.styles);
}

proof fn lemma_companies(id: u64, companies: Seq<model::ReleaseCompanyView>, n: int)
    requires
        0 <= n <= companies.len(),
    ensures
        pg_output::company_copies(id, companies.take(n)) == pg_output::copy_rows(
            rows_where(
                n as nat,
                |i: int| companies[i].name.len() > 0,
                |i: int|
                    seq![
                        pg_output::copy_int(id as nat),
                        pg_output::copy_int(companies[i].company_id as nat),
                        pg_output::copy_text(companies[i].name),
                        pg_output::copy_int(companies[i].entity_type as nat),
                        pg_output::copy_text(companies[i].entity_type_name),
                    ],
            ),
        ),
    decreases n,
{
    let keep = |i: int| companies[i].name.len() > 0;
    let row = |i: int|
        seq![
            pg_output::copy_int(id as nat),
            pg_output::copy_int(companies[i].company_id as nat),
            pg_output::copy_text(companies[i].name),
            pg_output::copy_int(companies[i].entity_type as nat),
            pg_output::copy_text(companies[i].entity_type_name),
        ];
    if n > 0 {
        lemma_companies(id, companies, n - 1);
        lemma_push_row(rows_where((n - 1) as nat, keep, row), row(n - 1));
        assert(companies.take(n).drop_last() == companies.take(n - 1));
        assert(companies.take(n).last() == companies[n - 1]);
    }
}

/// Every company of a release that has a name has one row, in order, with its own id, name
/// and kind.
pub proof fn law_company_rows(state: PgView, release: model::ReleaseView)
    requires
        release.title.len() > 0,
    ensures
        adds(
            state,
            release,
            "release_company"@,
            rows_where(
                release.companies.len(),
                |i: int| release.companies[i].name.len() > 0,
                |i: int|
                    seq![
                        pg_output::copy_int(release.id as nat),
                        pg_output::copy_int(release.companies[i].company_id as nat),
                        pg_output::copy_text(release.companies[i].name),
                        pg_output::copy_int(release.companies[i].entity_type as nat),
                        pg_output::copy_text(release.companies[i].entity_type_name),
                    ],
            ),
        ),
{
    pg_output::lemma_additions(state, release, 7);
    lemma_companies(release.id, release.companies, release.companies.len() as int);
    assert(release.companies.take(release.companies.len() as int) == release.companies);
}

/// Whether the credit of a track at a place has a row: its name is new for the track.
pub open spec fn new_track_credit(
    known: Set<(u64, u32, Seq<char>)>,
    id: u64,
    sequence: u32,
    names: Seq<Seq<char>>,
    i: int,
) -> bool {
    &&& !known.contains((id, sequence, names[i]))
    &&& forall|j: int| 0 <= j < i ==> #[trigger] names[j] != names[i]
}

/// The names of the artist credits of a track: first the main and then the extra ones.
pub open spec fn track_names(track: model::ReleaseTrackView) -> Seq<Seq<char>> {
    (track.artists + track.extra_artists).map_values(|credit: model::TrackArtistView| credit.name)
}

/// The rows of the artist credits of one track.
pub open spec fn rows_of_track(
    known: Set<(u64, u32, Seq<char>)>,
    id: u64,
    sequence: u32,
    track: model::ReleaseTrackView,
) -> Seq<Columns> {
    let names = track_names(track);
    rows_where(
        names.len(),
        track_credit_is_new(known, id, sequence, names),
        track_credit_row(id, sequence, names),
    )
}

/// The rows of the artist credits of the first tracks: those of each track with a title.
pub open spec fn rows_of_tracks(
    known: Set<(u64, u32, Seq<char>)>,
    id: u64,
    tracks: Seq<model::ReleaseTrackView>,
    n: nat,
) -> Seq<Columns>
    decreases n,
{
    if n == 0 {
        Seq::empty()
    } else {
        let before = rows_of_tracks(known, id, tracks, (n - 1) as nat);
        if tracks[n - 1].title.len() > 0 {
            before + rows_of_track(known, id, n as u32, tracks[n - 1])
        } else {
            before
        }
    }
}

/// Whether the artist credit of a track at a place has a row.
pub open spec fn track_credit_is_new(
    known: Set<(u64, u32, Seq<char>)>,
    id: u64,
    sequence: u32,
    names: Seq<Seq<char>>,
) -> spec_fn(int) -> bool {
    |i: int| new_track_credit(known, id, sequence, names, i)
}

/// The row of the artist credit of a track at a place.
pub open spec fn track_credit_row(id: u64, sequence: u32, names: Seq<Seq<char>>) -> spec_fn(
    int,
) -> Columns {
    |i: int|
        seq![
            pg_output::copy_int(id as nat),
            pg_output::copy_int(sequence as nat),
            pg_output::copy_text(names[i]),
        ]
}

/// Whether keys are those before and those of the first names of a track.
spec fn track_keys_after(
    keys: Set<(u64, u32, Seq<char>)>,
    before: Set<(u64, u32, Seq<char>)>,
    id: u64,
    sequence: u32,
    names: Seq<Seq<char>>,
    n: int,
) -> bool {
    forall|key: (u64, u32, Seq<char>)| #[trigger]
        keys.contains(key) <==> before.contains(key) || key.0 == id && key.1 == sequence
            && exists|j: int| 0 <= j < n && #[trigger] names[j] == key.2
}

proof fn lemma_known_track(
    before: Set<(u64, u32, Seq<char>)>,
    id: u64,
    sequence: u32,
    names: Seq<Seq<char>>,
    n: int,
    keys: Set<(u64, u32, Seq<char>)>,
)
    requires
        0 < n <= names.len(),
        track_keys_after(keys, before, id, sequence, names, n - 1),
    ensures
        new_track_credit(before, id, sequence, names, n - 1) <==> !keys.contains(
            (id, sequence, names[n - 1]),
        ),
        track_keys_after(
            keys.insert((id, sequence, names[n - 1])),
            before,
            id,
            sequence,
            names,
            n,
        ),
        keys.contains((id, sequence, names[n - 1])) ==> track_keys_after(
            keys,
            before,
            id,
            sequence,
            names,
            n,
        ),
{
    let own = (id, sequence, names[n - 1]);
    assert forall|key: (u64, u32, Seq<char>)|
        (#[trigger] keys.contains(key) || key == own) <==> before.contains(key) || key.0 == id
            && key.1 == sequence && exists|j: int| 0 <= j < n && #[trigger] names[j] == key.2 by {
        if exists|j: int| 0 <= j < n && #[trigger] names[j] == key.2 {
            let j = choose|j: int| 0 <= j < n && #[trigger] names[j] == key.2;
            if j < n - 1 {
                assert(names[j] == key.2);
            }
        }
    }
    let more = keys.insert(own);
    assert forall|key: (u64, u32, Seq<char>)| #[trigger]
        more.contains(key) <==> before.contains(key) || key.0 == id && key.1 == sequence && exists|
            j: int,
        |
            0 <= j < n && #[trigger] names[j] == key.2 by {
        assert(more.contains(key) <==> keys.contains(key) || key == own);
    }
}

proof fn lemma_main_track_credits(
    before: Set<(u64, u32, Seq<char>)>,
    id: u64,
    sequence: u32,
    track: model::ReleaseTrackView,
    n: int,
)
    requires
        0 <= n <= track.artists.len(),
    ensures
        ({
            let names = track_names(track);
            let copies = pg_output::track_credit_copies(
                before,
                id,
                sequence,
                track.artists.take(n),
            );
            &&& copies.1 == pg_output::copy_rows(
                rows_where(
                    n as nat,
                    track_credit_is_new(before, id, sequence, names),
                    track_credit_row(id, sequence, names),
                ),
            )
            &&& track_keys_after(copies.0, before, id, sequence, names, n)
        }),
    decreases n,
{
    if n > 0 {
        let main = track.artists;
        let names = track_names(track);
        let row = track_credit_row(id, sequence, names);
        lemma_main_track_credits(before, id, sequence, track, n - 1);
        lemma_push_row(
            rows_where((n - 1) as nat, track_credit_is_new(before, id, sequence, names), row),
            row(n - 1),
        );
        assert(names[n - 1] == main[n - 1].name);
        assert(main.take(n).drop_last() == main.take(n - 1));
        assert(main.take(n).last() == main[n - 1]);
        let shorter = pg_output::track_credit_copies(before, id, sequence, main.take(n - 1));
        lemma_known_track(before, id, sequence, names, n, shorter.0);
    }
}

proof fn lemma_extra_track_credits(
    before: Set<(u64, u32, Seq<char>)>,
    id: u64,
    sequence: u32,
    track: model::ReleaseTrackView,
    m: int,
)
    requires
        0 <= m <= track.extra_artists.len(),
    ensures
        ({
            let names = track_names(track);
            let first = pg_output::track_credit_copies(before, id, sequence, track.artists);
            let copies = pg_output::track_credit_copies(
                first.0,
                id,
                sequence,
                track.extra_artists.take(m),
            );
            &&& first.1 + copies.1 == pg_output::copy_rows(
                rows_where(
                    (track.artists.len() + m) as nat,
                    track_credit_is_new(before, id, sequence, names),
                    track_credit_row(id, sequence, names),
                ),
            )
            &&& track_keys_after(
                copies.0,
                before,
                id,
                sequence,
                names,
                track.artists.len() + m,
            )
        }),
    decreases m,
{
    let main = track.artists;
    let extra = track.extra_artists;
    let names = track_names(track);
    let row = track_credit_row(id, sequence, names);
    let n = main.len() + m;
    let first = pg_output::track_credit_copies(before, id, sequence, main);
    if m == 0 {
        lemma_main_track_credits(before, id, sequence, track, main.len() as int);
        assert(main.take(main.len() as int) == main);
        assert(extra.take(0) == Seq::<model::TrackArtistView>::empty());
        assert(first.1 + Seq::<u8>::empty() == first.1);
    } else {
        lemma_extra_track_credits(before, id, sequence, track, m - 1);
        lemma_push_row(
            rows_where((n - 1) as nat, track_credit_is_new(before, id, sequence, names), row),
            row(n - 1),
        );
        assert(names[n - 1] == extra[m - 1].name);
        assert(extra.take(m).drop_last() == extra.take(m - 1));
        assert(extra.take(m).last() == extra[m - 1]);
        let shorter = pg_output::track_credit_copies(first.0, id, sequence, extra.take(m - 1));
        lemma_known_track(before, id, sequence, names, n, shorter.0);
        assert(first.1 + (shorter.1 + pg_output::copy_row(row(n - 1))) == first.1 + shorter.1
            + pg_output::copy_row(row(n - 1)));
    }
}

/// What is known of one track decides which of its credits have a row.
proof fn lemma_same_track_rows(
    a: Set<(u64, u32, Seq<char>)>,
    b: Set<(u64, u32, Seq<char>)>,
    id: u64,
    sequence: u32,
    names: Seq<Seq<char>>,
    n: nat,
)
    requires
        forall|name: Seq<char>|
            #![trigger a.contains((id, sequence, name))]
            a.contains((id, sequence, name)) == b.contains((id, sequence, name)),
    ensures
        rows_where(
            n,
            track_credit_is_new(a, id, sequence, names),
            track_credit_row(id, sequence, names),
        ) == rows_where(
            n,
            track_credit_is_new(b, id, sequence, names),
            track_credit_row(id, sequence, names),
        ),
    decreases n,
{
    if n > 0 {
        lemma_same_track_rows(a, b, id, sequence, names, (n - 1) as nat);
        assert(a.contains((id, sequence, names[n - 1])) == b.contains(
            (id, sequence, names[n - 1]),
        ));
    }
}

proof fn lemma_all_track_credits(
    known: Set<(u64, u32, Seq<char>)>,
    id: u64,
    tracks: Seq<model::ReleaseTrackView>,
    n: int,
)
    requires
        0 <= n <= tracks.len() <= u32::MAX,
    ensures
        ({
            let copies = pg_output::track_artist_copies(known, id, tracks.take(n));
            &&& copies.1 == pg_output::copy_rows(rows_of_tracks(known, id, tracks, n as nat))
            &&& forall|key: (u64, u32, Seq<char>)|
                key.0 != id || key.1 > n ==> (#[trigger] copies.0.contains(key) == known.contains(
                    key,
                ))
        }),
    decreases n,
{
    if n > 0 {
        lemma_all_track_credits(known, id, tracks, n - 1);
        assert(tracks.take(n).drop_last() == tracks.take(n - 1));
        assert(tracks.take(n).last() == tracks[n - 1]);
        assert(tracks.take(n).len() == n);
        let before = pg_output::track_artist_copies(known, id, tracks.take(n - 1));
        let track = tracks[n - 1];
        if track.title.len() > 0 {
            let sequence = n as u32;
            let main = track.artists;
            let extra = track.extra_artists;
            let names = track_names(track);
            assert forall|name: Seq<char>|
                #![trigger before.0.contains((id, sequence, name))]
                before.0.contains((id, sequence, name)) == known.contains(
                    (id, sequence, name),
                ) by {
                let key = (id, sequence, name);
                assert(before.0.contains(key) == known.contains(key));
            }
            lemma_extra_track_credits(before.0, id, sequence, track, extra.len() as int);
            lemma_same_track_rows(before.0, known, id, sequence, names, names.len());
            assert(extra.take(extra.len() as int) == extra);
            let first = pg_output::track_credit_copies(before.0, id, sequence, main);
            let second = pg_output::track_credit_copies(first.0, id, sequence, extra);
            assert(before.1 + first.1 + second.1 == before.1 + (first.1 + second.1));
            lemma_concat_rows(
                rows_of_tracks(known, id, tracks, (n - 1) as nat),
                rows_of_track(known, id, sequence, track),
            );
        }
    } else {
        assert(tracks.take(0) == Seq::<model::ReleaseTrackView>::empty());
    }
}

/// The artist credits of the tracks of a release, of each track with a title first the
/// main and then the extra ones, have one row for each name that is new for the track.
pub proof fn law_track_artist_rows(state: PgView, release: model::ReleaseView)
    requires
        release.title.len() > 0,
        release.tracks.len() <= u32::MAX,
    ensures
        adds(
            state,
            release,
            "release_track_artist"@,
            rows_of_tracks(
                state.track_artists,
                release.id,
                release.tracks,
                release.tracks.len(),
            ),
        ),
{
    pg_output::lemma_additions(state, release, 4);
    lemma_all_track_credits(
        state.track_artists,
        release.id,
        release.tracks,
        release.tracks.len() as int,
    );
    assert(release.tracks.take(release.tracks.len() as int) == release.tracks);
}

/// A release without a title adds nothing at all.
pub proof fn law_untitled_adds_nothing(state: PgView, release: model::ReleaseView)
    requires
        release.title.len() == 0,
    ensures
        pg_output::pg_written(state, release) == state,
{
}

/// The artwork of a release is the uri of an image: of the first primary one, or of the
/// very first where none is primary. There is none exactly where there is no image.
pub proof fn law_artwork(images: Seq<model::ReleaseImageView>)
    ensures
        pg_output::artwork_of(images) is None <==> images.len() == 0,
        forall|i: int|
            0 <= i < images.len() && (#[trigger] images[i]).image_type == "primary"@ && (forall|
                j: int,
            |
                0 <= j < i ==> (#[trigger] images[j]).image_type != "primary"@)
                ==> pg_output::artwork_of(images) == Some(images[i].uri),
        images.len() > 0 && (forall|j: int|
            0 <= j < images.len() ==> (#[trigger] images[j]).image_type != "primary"@)
            ==> pg_output::artwork_of(images) == Some(images[0].uri),
{
    lemma_first_primary(images);
}

proof fn lemma_first_primary(images: Seq<model::ReleaseImageView>)
    ensures
        match pg_output::first_primary(images) {
            Some(uri) => exists|i: int|
                0 <= i < images.len() && (#[trigger] images[i]).image_type == "primary"@
                    && images[i].uri == uri && forall|j: int|
                    0 <= j < i ==> (#[trigger] images[j]).image_type != "primary"@,
            None => forall|j: int|
                0 <= j < images.len() ==> (#[trigger] images[j]).image_type != "primary"@,
        },
    decreases images.len(),
{
    if images.len() > 0 && images[0].image_type != "primary"@ {
        let rest = images.skip(1);
        lemma_first_primary(rest);
        assert forall|j: int| 0 < j < images.len() implies #[trigger] images[j] == rest[j - 1] by {}
        if let Some(uri) = pg_output::first_primary(rest) {
            let i = choose|i: int|
                0 <= i < rest.len() && (#[trigger] rest[i]).image_type == "primary"@ && rest[i].uri
                    == uri && forall|j: int|
                    0 <= j < i ==> (#[trigger] rest[j]).image_type != "primary"@;
            assert(images[i + 1] == rest[i]);
            assert forall|j: int| 0 <= j < i + 1 implies (#[trigger] images[j]).image_type
                != "primary"@ by {
                if j > 0 {
                    assert(images[j] == rest[j - 1]);
                }
            }
        }
    }
}

/// A reader of rows: those that have ended, the columns that have ended in the row that is
/// being read, and the bytes of the column that is being read.
pub struct RowReader {
    pub rows: Seq<Columns>,
    pub columns: Columns,
    pub column: Seq<u8>,
}

/// One more byte: a tab ends a column, and a line feed a row.
pub open spec fn read_row_byte(s: RowReader, b: u8) -> RowReader {
    if b == 0x09 {
        RowReader { columns: s.columns.push(s.column), column: Seq::empty(), ..s }
    } else if b == 0x0a {
        RowReader {
            rows: s.rows.push(s.columns.push(s.column)),
            columns: Seq::empty(),
            column: Seq::empty(),
        }
    } else {
        RowReader { column: s.column.push(b), ..s }
    }
}

/// More bytes.
pub open spec fn read_row_bytes(s: RowReader, bytes: Seq<u8>) -> RowReader
    decreases bytes.len(),
{
    if bytes.len() == 0 {
        s
    } else {
        read_row_byte(read_row_bytes(s, bytes.drop_last()), bytes.last())
    }
}

/// The rows that a reader finds.
pub open spec fn rows_read(bytes: Seq<u8>) -> Seq<Columns> {
    read_row_bytes(
        RowReader { rows: Seq::empty(), columns: Seq::empty(), column: Seq::empty() },
        bytes,
    ).rows
}

/// Whether a column holds no tab and no line feed.
pub open spec fn plain_column(column: Seq<u8>) -> bool {
    forall|i: int| 0 <= i < column.len() ==> #[trigger] column[i] != 0x09 && column[i] != 0x0a
}

/// Whether all columns of all rows are plain, and every row has a column.
pub open spec fn plain_rows(rows: Seq<Columns>) -> bool {
    forall|i: int|
        0 <= i < rows.len() ==> (#[trigger] rows[i]).len() > 0 && forall|j: int|
            0 <= j < rows[i].len() ==> plain_column(#[trigger] rows[i][j])
}

proof fn lemma_read_more(s: RowReader, a: Seq<u8>, b: Seq<u8>)
    ensures
        read_row_bytes(s, a + b) == read_row_bytes(read_row_bytes(s, a), b),
    decreases b.len(),
{
    if b.len() == 0 {
        assert(a + b == a);
    } else {
        lemma_read_more(s, a, b.drop_last());
        assert((a + b).drop_last() == a + b.drop_last());
    }
}

proof fn lemma_read_column(s: RowReader, column: Seq<u8>)
    requires
        plain_column(column),
    ensures
        read_row_bytes(s, column) == (RowReader { column: s.column + column, ..s }),
    decreases column.len(),
{
    if column.len() == 0 {
        assert(s.column + column == s.column);
    } else {
        let shorter = column.drop_last();
        assert forall|i: int| 0 <= i < shorter.len() implies #[trigger] shorter[i] != 0x09
            && shorter[i] != 0x0a by {
            assert(shorter[i] == column[i]);
        }
        lemma_read_column(s, shorter);
        assert(column[column.len() - 1] == column.last());
        assert((s.column + shorter).push(column.last()) == s.column + column);
    }
}

proof fn lemma_read_columns(rows: Seq<Columns>, columns: Columns)
    requires
        columns.len() > 0,
        forall|j: int| 0 <= j < columns.len() ==> plain_column(#[trigger] columns[j]),
    ensures
        read_row_bytes(
            RowReader { rows, columns: Seq::empty(), column: Seq::empty() },
            pg_output::copy_columns(columns),
        ) == (RowReader { rows, columns: columns.drop_last(), column: columns.last() }),
    decreases columns.len(),
{
    let start = RowReader { rows, columns: Seq::empty(), column: Seq::empty() };
    let last = columns.last();
    assert(columns[columns.len() - 1] == last);
    if columns.len() == 1 {
        lemma_read_column(start, last);
        assert(Seq::<u8>::empty() + last == last);
        assert(columns.drop_last() == Seq::<Seq<u8>>::empty());
    } else {
        let shorter = columns.drop_last();
        assert forall|j: int| 0 <= j < shorter.len() implies plain_column(
            #[trigger] shorter[j],
        ) by {
            assert(shorter[j] == columns[j]);
        }
        lemma_read_columns(rows, shorter);
        let bytes = pg_output::copy_columns(shorter);
        let tab = seq![0x09u8];
        lemma_read_more(start, bytes, tab);
        lemma_read_more(start, bytes + tab, last);
        let middle = read_row_bytes(start, bytes);
        assert(tab.drop_last() == Seq::<u8>::empty());
        assert(read_row_bytes(middle, tab.drop_last()) == middle);
        assert(shorter.drop_last().push(shorter.last()) == shorter);
        lemma_read_column(read_row_bytes(start, bytes + tab), last);
        assert(Seq::<u8>::empty() + last == last);
    }
}

/// Whoever reads rows finds the columns that were written, row by row.
pub proof fn law_rows_are_read_back(rows: Seq<Columns>)
    requires
        plain_rows(rows),
    ensures
        rows_read(pg_output::copy_rows(rows)) == rows,
{
    lemma_read_rows(rows);
}

proof fn lemma_read_rows(rows: Seq<Columns>)
    requires
        plain_rows(rows),
    ensures
        read_row_bytes(
            RowReader { rows: Seq::empty(), columns: Seq::empty(), column: Seq::empty() },
            pg_output::copy_rows(rows),
        ) == (RowReader { rows, columns: Seq::empty(), column: Seq::empty() }),
    decreases rows.len(),
{
    let start = RowReader { rows: Seq::empty(), columns: Seq::empty(), column: Seq::empty() };
    if rows.len() == 0 {
        assert(rows == Seq::<Columns>::empty());
    } else {
        let shorter = rows.drop_last();
        let last = rows.last();
        assert forall|i: int| 0 <= i < shorter.len() implies (#[trigger] shorter[i]).len() > 0
            && forall|j: int|
            0 <= j < shorter[i].len() ==> plain_column(#[trigger] shorter[i][j]) by {
            assert(shorter[i] == rows[i]);
        }
        lemma_read_rows(shorter);
        assert(rows[rows.len() - 1] == last);
        lemma_read_columns(shorter, last);
        let bytes = pg_output::copy_rows(shorter);
        let row = pg_output::copy_row(last);
        lemma_read_more(start, bytes, row);
        assert(row.drop_last() == pg_output::copy_columns(last));
        assert(last.drop_last().push(last.last()) == last);
        assert(shorter.push(last) == rows);
    }
}

/// A reader of a value in the text format of COPY: what it has read, and whether the last
/// byte was a backslash that begins something.
pub struct ValueReader {
    pub value: Seq<u8>,
    pub backslash: bool,
}

/// One more byte: after a backslash an `n`, an `r` and a `t` stand for a line feed, a
/// carriage return and a tab, and any other byte for itself.
pub open spec fn read_value_byte(s: ValueReader, b: u8) -> ValueReader {
    if s.backslash {
        let meant = if b == 0x6e {
            0x0au8
        } else if b == 0x72 {
            0x0du8
        } else if b == 0x74 {
            0x09u8
        } else {
            b
        };
        ValueReader { value: s.value.push(meant), backslash: false }
    } else if b == 0x5c {
        ValueReader { backslash: true, ..s }
    } else {
        ValueReader { value: s.value.push(b), backslash: false }
    }
}

/// The value that a reader finds.
pub open spec fn value_read(bytes: Seq<u8>) -> ValueReader
    decreases bytes.len(),
{
    if bytes.len() == 0 {
        ValueReader { value: Seq::empty(), backslash: false }
    } else {
        read_value_byte(value_read(bytes.drop_last()), bytes.last())
    }
}

/// Whoever reads a text finds the bytes that were written. A text is never taken for no
/// value.
pub proof fn law_text_is_read_back(text: Seq<char>)
    ensures
        value_read(pg_output::copy_text(text)) == (ValueReader {
            value: vstd::utf8::encode_utf8(text),
            backslash: false,
        }),
        pg_output::copy_text(text) != seq![0x5cu8, 0x4eu8],
{
    lemma_value_read(vstd::utf8::encode_utf8(text));
    let bytes = vstd::utf8::encode_utf8(text);
    if pg_output::copy_text(text) == seq![0x5cu8, 0x4eu8] {
        let last = pg_output::copy_byte(bytes.last());
        let head = pg_output::copy_escaped(bytes.drop_last());
        assert(head + last == seq![0x5cu8, 0x4eu8]);
        assert((head + last)[1] == last[last.len() - 1]);
        assert((head + last)[0] == 0x5c && (head + last)[1] == 0x4e);
        assert(last == seq![0x4eu8]);
        assert(head == seq![0x5cu8]);
        let before = bytes.drop_last();
        assert(before.len() > 0);
        let inner = pg_output::copy_byte(before.last());
        let outer = pg_output::copy_escaped(before.drop_last());
        assert(outer + inner == seq![0x5cu8]);
        assert((outer + inner).last() == inner.last());
    }
}

proof fn lemma_value_read(bytes: Seq<u8>)
    ensures
        value_read(pg_output::copy_escaped(bytes)) == (ValueReader { value: bytes, backslash: false }),
    decreases bytes.len(),
{
    if bytes.len() > 0 {
        let shorter = bytes.drop_last();
        lemma_value_read(shorter);
        let head = pg_output::copy_escaped(shorter);
        let tail = pg_output::copy_byte(bytes.last());
        let all = head + tail;
        assert(all.last() == tail.last());
        if tail.len() == 1 {
            assert(all.drop_last() == head);
        } else {
            assert(all.drop_last() == head.push(tail[0]));
            assert(head.push(tail[0]).drop_last() == head);
            assert(value_read(head.push(tail[0])) == read_value_byte(value_read(head), tail[0]));
        }
        assert(shorter.push(bytes.last()) == bytes);
    } else {
        assert(bytes == Seq::<u8>::empty());
    }
}

/// The columns of the tables, in the order in which the rows give them. The releases are
/// sent before what refers to them.
pub proof fn law_tables()
    ensures
        pg_output::pg_tables().len() == 8,
        pg_output::pg_tables()[0] == (
            "release"@,
            "COPY release (id, title, release_year, country, master_id) FROM STDIN"@,
        ),
        pg_output::pg_tables()[1] == (
            "release_artist"@,
            "COPY release_artist (release_id, artist_id, artist_name, extra) FROM STDIN"@,
        ),
        pg_output::pg_tables()[2] == (
            "release_label"@,
            "COPY release_label (release_id, label_name) FROM STDIN"@,
        ),
        pg_output::pg_tables()[3] == (
            "release_track"@,
            "COPY release_track (release_id, sequence, position, title, duration) FROM STDIN"@,
        ),
        pg_output::pg_tables()[4] == (
            "release_track_artist"@,
            "COPY release_track_artist (release_id, track_sequence, artist_name) FROM STDIN"@,
        ),
        pg_output::pg_tables()[5] == (
            "release_genre"@,
            "COPY release_genre (release_id, genre) FROM STDIN"@,
        ),
        pg_output::pg_tables()[6] == (
            "release_style"@,
            "COPY release_style (release_id, style) FROM STDIN"@,
        ),
        pg_output::pg_tables()[7] == (
            "release_company"@,
            "COPY release_company (release_id, company_id, company_name, entity_type, entity_type_name) FROM STDIN"@,
        ),
{
}

} // verus!
