//! Normalization of artist names, and the filter by artist.

use crate::artist_model;
use crate::artist_writer;
use crate::csv_file;
use crate::csv_file::CsvItem;
use crate::parser;
use crate::text;
use std::collections::HashMap;
use vstd::hash_set::StringHashSet;
use vstd::prelude::*;

verus! {

broadcast use vstd::std_specs::hash::group_hash_axioms;

/// What `wxyc_etl::text::normalize_artist_name` gives for a name: the form under which
/// spellings of the name are the same.
pub uninterp spec fn artist_form(name: Seq<char>) -> Seq<char>;

/// The form of a name in ASCII: in small letters, without the spaces around it.
pub open spec fn ascii_artist_form(name: Seq<char>) -> Seq<char> {
    text::ascii_lowercase(text::unpadded(name))
}

/// `wxyc_etl::text::normalize_artist_name` gives the form of a name that is compared.
/// An empty name stays empty, and a form has no space at its ends. A name in ASCII has
/// nothing to decompose: its letters become small, and the spaces around it go. How other
/// letters are decomposed and their case is mapped is left to the tables of Unicode.
#[allow(deprecated)]
#[verifier::external_body]
fn normalize_artist_name(name: &str) -> (form: String)
    ensures
        form@ == artist_form(name@),
        name@.len() == 0 ==> form@.len() == 0,
        form@.len() > 0 ==> form@.first() != ' ' && form@.last() != ' ',
        vstd::utf8::is_ascii_chars(name@) ==> form@ == ascii_artist_form(name@),
{
    wxyc_etl::text::normalize_artist_name(name)
}

/// The form of an artist name that is compared: without case, diacritics and the
/// spaces around it.
pub fn normalize_artist(name: &str) -> (form: String)
    ensures
        form@ == artist_form(name@),
        name@.len() == 0 ==> form@.len() == 0,
        form@.len() > 0 ==> form@.first() != ' ' && form@.last() != ' ',
        vstd::utf8::is_ascii_chars(name@) ==> form@ == ascii_artist_form(name@),
{
    normalize_artist_name(name)
}

/// Why aliases could not be loaded.
#[derive(Debug)]
pub enum FilterError {
    /// The CSV file cannot be read.
    Csv(String),
    /// A record is too short to hold a name.
    MissingColumn,
}

/// The model of a [`FilterError`].
pub enum FilterErrorView {
    Csv(Seq<char>),
    MissingColumn,
}

impl DeepView for FilterError {
    type V = FilterErrorView;

    open spec fn deep_view(&self) -> FilterErrorView {
        match self {
            FilterError::Csv(message) => FilterErrorView::Csv(message@),
            FilterError::MissingColumn => FilterErrorView::MissingColumn,
        }
    }
}

/// The other names of artists, by the id of the artist.
pub type AliasMap = Map<u64, Seq<Seq<char>>>;

/// The other names with one more.
pub open spec fn with_alias(aliases: AliasMap, id: u64, alias: Seq<char>) -> AliasMap {
    aliases.insert(
        id,
        if aliases.dom().contains(id) {
            aliases[id].push(alias)
        } else {
            seq![alias]
        },
    )
}

/// The other names after the given records, and the number of names that they added, or
/// the error that ended the loading. The id is in the first column and the name in the
/// given one. A name whose form is empty adds nothing.
pub open spec fn aliases_loaded(
    aliases: AliasMap,
    items: Seq<Result<Seq<Seq<char>>, Seq<char>>>,
    column: nat,
) -> (AliasMap, Result<nat, FilterErrorView>)
    decreases items.len(),
{
    if items.len() == 0 {
        (aliases, Ok(0))
    } else {
        match items[0] {
            Err(message) => (aliases, Err(FilterErrorView::Csv(message))),
            Ok(fields) => if fields.len() == 0 || fields.len() <= column {
                (aliases, Err(FilterErrorView::MissingColumn))
            } else {
                let form = artist_form(fields[column as int]);
                if form.len() == 0 {
                    aliases_loaded(aliases, items.skip(1), column)
                } else {
                    let more = with_alias(aliases, parser::number_u64(fields[0]), form);
                    let (all, count) = aliases_loaded(more, items.skip(1), column);
                    (
                        all,
                        match count {
                            Ok(n) => Ok(n + 1),
                            Err(error) => Err(error),
                        },
                    )
                }
            },
        }
    }
}

/// The names in a list, one on each line: their forms. Empty lines are left out.
pub open spec fn listed_artists(lines: Seq<Seq<char>>) -> Set<Seq<char>> {
    Set::new(
        |form: Seq<char>|
            exists|i: int|
                0 <= i < lines.len() && text::trimmed(#[trigger] lines[i]).len() > 0 && form
                    == artist_form(text::trimmed(lines[i])),
    )
}

/// The model of an [`ArtistFilter`].
pub struct ArtistFilterView {
    /// The forms of the names of the artists in the library.
    pub artists: Set<Seq<char>>,
    /// The forms of the other names of artists, by the id of the artist.
    pub aliases: AliasMap,
}

impl ArtistFilterView {
    /// Whether a name is that of an artist in the library.
    pub open spec fn has_name(self, name: Seq<char>) -> bool {
        self.artists.contains(artist_form(name))
    }

    /// Whether another name of the artist with the given id is that of an artist in the
    /// library.
    pub open spec fn has_alias(self, id: u64) -> bool {
        self.aliases.dom().contains(id) && exists|i: int|
            0 <= i < self.aliases[id].len() && self.artists.contains(#[trigger] self.aliases[id][i])
    }
}

/// A filter by artist: the artists in a library, and other names of artists.
pub struct ArtistFilter {
    artists: StringHashSet,
    aliases: HashMap<u64, Vec<String>>,
}

/// The model of the other names of artists.
pub open spec fn alias_view(aliases: Map<u64, Vec<String>>) -> AliasMap {
    aliases.map_values(|names: Vec<String>| names.deep_view())
}

impl View for ArtistFilter {
    type V = ArtistFilterView;

    closed spec fn view(&self) -> ArtistFilterView {
        ArtistFilterView { artists: self.artists@, aliases: alias_view(self.aliases@) }
    }
}

impl ArtistFilter {
    /// The filter for a list of artist names, one on each line.
    pub fn from_file(content: &str) -> (r: ArtistFilter)
        ensures
            r@.artists == listed_artists(text::text_lines(content@)),
            r@.aliases == AliasMap::empty(),
    {
        let lines = text::lines(content);
        let ghost all = text::text_lines(content@);
        let mut artists = StringHashSet::new();
        let mut i: usize = 0;
        assert(listed_artists(all.take(0)) == Set::<Seq<char>>::empty());
        while i < lines.len()
            invariant
                i <= lines.len(),
                all == lines.deep_view(),
                artists@ == listed_artists(all.take(i as int)),
            decreases lines.len() - i,
        {
            let line = text::trim(lines[i].as_str());
            let ghost shorter = all.take(i as int);
            let ghost longer = all.take(i + 1);
            assert(longer == shorter.push(all[i as int]));
            assert(all[i as int] == lines[i as int]@);
            if !line.as_str().is_empty() {
                artists.insert(normalize_artist(line.as_str()));
                proof {
                    lemma_listed_push(shorter, all[i as int]);
                }
            } else {
                proof {
                    lemma_listed_push(shorter, all[i as int]);
                }
            }
            i += 1;
        }
        assert(all.take(all.len() as int) == all);
        let r = ArtistFilter { artists, aliases: HashMap::new() };
        assert(alias_view(r.aliases@) == AliasMap::empty());
        r
    }

    fn add_alias(&mut self, id: u64, alias: String)
        ensures
            final(self)@ == (ArtistFilterView {
                artists: old(self)@.artists,
                aliases: with_alias(old(self)@.aliases, id, alias@),
            }),
    {
        let ghost before = self.aliases@;
        let ghost form = alias@;
        let mut names = match self.aliases.remove(&id) {
            Some(names) => names,
            None => Vec::new(),
        };
        proof {
            if !before.dom().contains(id) {
                assert(names.deep_view() == Seq::<Seq<char>>::empty());
                assert(Seq::<Seq<char>>::empty().push(form) == seq![form]);
            }
        }
        text::push_item(&mut names, alias);
        self.aliases.insert(id, names);
        proof {
            assert(self.aliases@ == before.insert(id, names));
            assert(alias_view(self.aliases@) == with_alias(alias_view(before), id, form));
        }
    }

    /// Adds the names in records that were read: the id is in the first column, the name
    /// in the given one. Gives the number of names added, or the error that ended the
    /// loading; the names before it are added.
    pub fn add_aliases(&mut self, items: &Vec<CsvItem>, column: usize) -> (r: Result<
        usize,
        FilterError,
    >)
        ensures
            final(self)@.artists == old(self)@.artists,
            final(self)@.aliases == aliases_loaded(
                old(self)@.aliases,
                csv_file::csv_items_view(items@),
                column as nat,
            ).0,
            match aliases_loaded(
                old(self)@.aliases,
                csv_file::csv_items_view(items@),
                column as nat,
            ).1 {
                Ok(n) => r == Ok::<usize, FilterError>(n as usize) && n <= usize::MAX,
                Err(error) => r is Err && r->Err_0.deep_view() == error,
            },
    {
        let ghost all = csv_file::csv_items_view(items@);
        let ghost goal = aliases_loaded(self@.aliases, all, column as nat);
        let mut count: usize = 0;
        let mut i: usize = 0;
        assert(all.skip(0) == all);
        while i < items.len()
            invariant
                i <= items.len(),
                count <= i,
                all == csv_file::csv_items_view(items@),
                self@.artists == old(self)@.artists,
                ({
                    let rest = aliases_loaded(self@.aliases, all.skip(i as int), column as nat);
                    &&& rest.0 == goal.0
                    &&& match rest.1 {
                        Ok(n) => goal.1 == Ok::<nat, FilterErrorView>(count as nat + n),
                        Err(error) => goal.1 == Err::<nat, FilterErrorView>(error),
                    }
                }),
                goal == aliases_loaded(old(self)@.aliases, all, column as nat),
            decreases items.len() - i,
        {
            proof {
                assert(all.skip(i as int)[0] == csv_file::csv_item_view(items[i as int]));
                assert(all.skip(i as int).skip(1) == all.skip(i + 1));
            }
            match &items[i] {
                Err(message) => {
                    return Err(FilterError::Csv(message.clone()));
                },
                Ok(fields) => {
                    if fields.len() == 0 || fields.len() <= column {
                        return Err(FilterError::MissingColumn);
                    }
                    assert(fields.deep_view()[0] == fields[0]@);
                    assert(fields.deep_view()[column as int] == fields[column as int]@);
                    let id: u64 = parser::parse_u64(fields[0].as_str());
                    let form = normalize_artist(fields[column].as_str());
                    if !form.as_str().is_empty() {
                        self.add_alias(id, form);
                        count += 1;
                    }
                },
            }
            i += 1;
        }
        Ok(count)
    }

    /// Adds the aliases in a file `artist_alias.csv`. Gives their number, or the error
    /// that ended the loading; the aliases before it are added. A file that was written
    /// for a sequence of artists adds the aliases of these artists.
    pub fn load_aliases(&mut self, csv: &[u8]) -> (r: Result<usize, FilterError>)
        ensures
            final(self)@.artists == old(self)@.artists,
            final(self)@.aliases == aliases_loaded(
                old(self)@.aliases,
                csv_file::csv_records(csv@),
                2,
            ).0,
            match aliases_loaded(old(self)@.aliases, csv_file::csv_records(csv@), 2).1 {
                Ok(n) => r == Ok::<usize, FilterError>(n as usize) && n <= usize::MAX,
                Err(error) => r is Err && r->Err_0.deep_view() == error,
            },
            forall|artists: Seq<artist_model::ArtistView>|
                csv@ == #[trigger] artist_writer::artist_file(artists, 1) ==> r is Ok
                    && final(self)@.aliases == with_written_names(old(self)@.aliases, artists, false),
    {
        let items = csv_file::read_records(csv);
        let r = self.add_aliases(&items, 2);
        proof {
            assert forall|artists: Seq<artist_model::ArtistView>|
                csv@ == #[trigger] artist_writer::artist_file(artists, 1) implies r is Ok
                && self@.aliases == with_written_names(old(self)@.aliases, artists, false) by {
                lemma_read_back(
                    old(self)@.aliases,
                    artists,
                    false,
                    csv_file::csv_items_view(items@),
                );
            }
        }
        r
    }

    /// Adds the names in a file `artist_name_variation.csv`. Gives their number, or the
    /// error that ended the loading; the names before it are added. A file that was
    /// written for a sequence of artists adds the name variations of these artists.
    pub fn load_name_variations(&mut self, csv: &[u8]) -> (r: Result<usize, FilterError>)
        ensures
            final(self)@.artists == old(self)@.artists,
            final(self)@.aliases == aliases_loaded(
                old(self)@.aliases,
                csv_file::csv_records(csv@),
                1,
            ).0,
            match aliases_loaded(old(self)@.aliases, csv_file::csv_records(csv@), 1).1 {
                Ok(n) => r == Ok::<usize, FilterError>(n as usize) && n <= usize::MAX,
                Err(error) => r is Err && r->Err_0.deep_view() == error,
            },
            forall|artists: Seq<artist_model::ArtistView>|
                csv@ == #[trigger] artist_writer::artist_file(artists, 2) ==> r is Ok
                    && final(self)@.aliases == with_written_names(
                    old(self)@.aliases,
                    artists,
                    true,
                ),
    {
        let items = csv_file::read_records(csv);
        let r = self.add_aliases(&items, 1);
        proof {
            assert forall|artists: Seq<artist_model::ArtistView>|
                csv@ == #[trigger] artist_writer::artist_file(artists, 2) implies r is Ok
                && self@.aliases == with_written_names(old(self)@.aliases, artists, true) by {
                lemma_read_back(
                    old(self)@.aliases,
                    artists,
                    true,
                    csv_file::csv_items_view(items@),
                );
            }
        }
        r
    }

    /// Whether one of the names is that of an artist in the library.
    pub fn matches_any(&self, names: &Vec<&str>) -> (r: bool)
        ensures
            r == exists|i: int| 0 <= i < names.len() && self@.has_name(#[trigger] names[i]@),
    {
        let mut i: usize = 0;
        while i < names.len()
            invariant
                i <= names.len(),
                forall|j: int| 0 <= j < i ==> !self@.has_name(#[trigger] names[j]@),
            decreases names.len() - i,
        {
            let form = normalize_artist(names[i]);
            if self.artists.contains(form.as_str()) {
                assert(self@.has_name(names[i as int]@));
                return true;
            }
            i += 1;
        }
        false
    }

    /// Whether one of the artists is in the library, under the given name or under
    /// another name of the artist with the given id.
    pub fn matches_any_with_ids(&self, artists: &[(u64, &str)]) -> (r: bool)
        ensures
            r == exists|i: int|
                0 <= i < artists.len() && (self@.has_name((#[trigger] artists[i]).1@)
                    || self@.has_alias(artists[i].0)),
    {
        let mut i: usize = 0;
        while i < artists.len()
            invariant
                i <= artists.len(),
                forall|j: int|
                    0 <= j < i ==> !self@.has_name((#[trigger] artists[j]).1@) && !self@.has_alias(
                        artists[j].0,
                    ),
            decreases artists.len() - i,
        {
            let (artist_id, name) = artists[i];
            let form = normalize_artist(name);
            if self.artists.contains(form.as_str()) {
                assert(self@.has_name(artists[i as int].1@));
                return true;
            }
            if self.alias_matches(artist_id) {
                assert(self@.has_alias(artists[i as int].0));
                return true;
            }
            i += 1;
        }
        false
    }

    fn alias_matches(&self, artist_id: u64) -> (r: bool)
        ensures
            r == self@.has_alias(artist_id),
    {
        match self.aliases.get(&artist_id) {
            None => false,
            Some(names) => {
                let ghost forms = self@.aliases[artist_id];
                assert(forms == names.deep_view());
                let mut i: usize = 0;
                while i < names.len()
                    invariant
                        i <= names.len(),
                        forms == names.deep_view(),
                        forms == self@.aliases[artist_id],
                        self@.aliases.dom().contains(artist_id),
                        forall|j: int|
                            0 <= j < i ==> !self@.artists.contains(#[trigger] forms[j]),
                    decreases names.len() - i,
                {
                    assert(forms[i as int] == names[i as int]@);
                    if self.artists.contains(names[i].as_str()) {
                        assert(self@.artists.contains(self@.aliases[artist_id][i as int]));
                        return true;
                    }
                    i += 1;
                }
                false
            },
        }
    }

    /// Whether there are other names of artists.
    pub fn has_aliases(&self) -> (r: bool)
        ensures
            r == (self@.aliases.dom() != Set::<u64>::empty()),
    {
        let n: usize = self.aliases.len();
        proof {
            assert(self@.aliases.dom() == self.aliases@.dom());
            if n == 0 {
                self.aliases@.dom().lemma_len0_is_empty();
            }
        }
        n > 0
    }

    /// The number of artists in the library.
    pub fn len(&self) -> (n: usize)
        ensures
            n == self@.artists.len(),
    {
        self.artists.len()
    }

    /// Whether the library has no artists.
    pub fn is_empty(&self) -> (r: bool)
        ensures
            r == self@.artists.is_empty(),
    {
        self.artists.is_empty()
    }
}

proof fn lemma_listed_push(lines: Seq<Seq<char>>, line: Seq<char>)
    ensures
        listed_artists(lines.push(line)) == (if text::trimmed(line).len() > 0 {
            listed_artists(lines).insert(artist_form(text::trimmed(line)))
        } else {
            listed_artists(lines)
        }),
{
    let longer = lines.push(line);
    let after = listed_artists(longer);
    assert forall|form: Seq<char>| #[trigger] after.contains(form) == (listed_artists(lines).contains(
        form,
    ) || (text::trimmed(line).len() > 0 && form == artist_form(text::trimmed(line)))) by {
        if after.contains(form) {
            let i = choose|i: int|
                0 <= i < longer.len() && text::trimmed(#[trigger] longer[i]).len() > 0 && form
                    == artist_form(text::trimmed(longer[i]));
            if i < lines.len() {
                assert(longer[i] == lines[i]);
            }
        }
        if listed_artists(lines).contains(form) {
            let i = choose|i: int|
                0 <= i < lines.len() && text::trimmed(#[trigger] lines[i]).len() > 0 && form
                    == artist_form(text::trimmed(lines[i]));
            assert(longer[i] == lines[i]);
        }
        if text::trimmed(line).len() > 0 && form == artist_form(text::trimmed(line)) {
            assert(longer[lines.len() as int] == line);
        }
    }
    if text::trimmed(line).len() > 0 {
        assert(after == listed_artists(lines).insert(artist_form(text::trimmed(line))));
    } else {
        assert(after == listed_artists(lines));
    }
}

/// The other names with the aliases of one artist.
pub open spec fn with_aliases(aliases: AliasMap, id: u64, names: Seq<Seq<char>>) -> AliasMap
    decreases names.len(),
{
    if names.len() == 0 {
        aliases
    } else {
        let fewer = with_aliases(aliases, id, names.drop_last());
        if artist_form(names.last()).len() == 0 {
            fewer
        } else {
            with_alias(fewer, id, artist_form(names.last()))
        }
    }
}

/// The other names with the aliases, or the name variations, of a sequence of artists.
pub open spec fn with_written_names(
    aliases: AliasMap,
    artists: Seq<artist_model::ArtistView>,
    variations: bool,
) -> AliasMap
    decreases artists.len(),
{
    if artists.len() == 0 {
        aliases
    } else {
        with_aliases(
            with_written_names(aliases, artists.drop_last(), variations),
            artists.last().id,
            if variations {
                artists.last().name_variations
            } else {
                artists.last().aliases
            },
        )
    }
}

/// The place of the file of names among the files of artists.
spec fn names_file(variations: bool) -> int {
    if variations {
        2
    } else {
        1
    }
}

/// The column of the names in the file of names.
spec fn names_column(variations: bool) -> nat {
    if variations {
        1
    } else {
        2
    }
}

/// The rows of the names of one artist.
spec fn names_rows(
    id: u64,
    name: Seq<char>,
    names: Seq<Seq<char>>,
    variations: bool,
) -> Seq<Seq<Seq<char>>> {
    if variations {
        crate::writer::tag_rows(id, names)
    } else {
        artist_writer::alias_rows(id, name, names)
    }
}

/// Rows as records that were read.
spec fn as_items(rows: Seq<Seq<Seq<char>>>) -> Seq<Result<Seq<Seq<char>>, Seq<char>>> {
    rows.map_values(|row: Seq<Seq<char>>| Ok::<Seq<Seq<char>>, Seq<char>>(row))
}

/// The file of names has as many fields in each record as in its header.
proof fn lemma_names_table(artists: Seq<artist_model::ArtistView>, variations: bool)
    ensures
        csv_file::csv_table(
            seq![artist_writer::artist_headers()[names_file(variations)]]
                + artist_writer::all_artist_rows(artists, names_file(variations)),
        ),
{
    let file = names_file(variations);
    let body = artist_writer::all_artist_rows(artists, file);
    let rows = seq![artist_writer::artist_headers()[file]] + body;
    lemma_names_widths(artists, variations);
    reveal_strlit("artist_id");
    assert(rows[0] == artist_writer::artist_headers()[file]);
    assert(rows[0].len() == names_column(variations) + 1);
    assert(rows[0][0] == "artist_id"@);
    assert forall|i: int| 0 <= i < rows.len() implies (#[trigger] rows[i]).len() == rows[0].len() by {
        if i > 0 {
            assert(rows[i] == body[i - 1]);
        }
    }
}

proof fn lemma_names_widths(artists: Seq<artist_model::ArtistView>, variations: bool)
    ensures
        forall|i: int|
            0 <= i < artist_writer::all_artist_rows(artists, names_file(variations)).len() ==> (
            #[trigger] artist_writer::all_artist_rows(artists, names_file(variations))[i]).len()
                == names_column(variations) + 1,
    decreases artists.len(),
{
    if artists.len() > 0 {
        lemma_names_widths(artists.drop_last(), variations);
        let earlier = artist_writer::all_artist_rows(artists.drop_last(), names_file(variations));
        let own = artist_writer::artist_rows(artists.last())[names_file(variations)];
        assert forall|i: int| 0 <= i < (earlier + own).len() implies (#[trigger] (earlier
            + own)[i]).len() == names_column(variations) + 1 by {
            if i >= earlier.len() {
                assert((earlier + own)[i] == own[i - earlier.len()]);
            }
        }
    }
}

/// Loading records one after the other.
proof fn lemma_loaded_concat(
    aliases: AliasMap,
    a: Seq<Seq<Seq<char>>>,
    b: Seq<Seq<Seq<char>>>,
    column: nat,
)
    requires
        aliases_loaded(aliases, as_items(a), column).1 is Ok,
    ensures
        aliases_loaded(aliases, as_items(a + b), column).0 == aliases_loaded(
            aliases_loaded(aliases, as_items(a), column).0,
            as_items(b),
            column,
        ).0,
        aliases_loaded(aliases, as_items(a + b), column).1 is Ok == aliases_loaded(
            aliases_loaded(aliases, as_items(a), column).0,
            as_items(b),
            column,
        ).1 is Ok,
    decreases a.len(),
{
    if a.len() == 0 {
        assert(a + b == b);
    } else {
        let first = as_items(a)[0];
        assert(as_items(a + b)[0] == first);
        assert(as_items(a).skip(1) == as_items(a.skip(1)));
        assert(as_items(a + b).skip(1) == as_items(a.skip(1) + b));
        let fields = a[0];
        let form = artist_form(fields[column as int]);
        if form.len() == 0 {
            lemma_loaded_concat(aliases, a.skip(1), b, column);
        } else {
            lemma_loaded_concat(
                with_alias(aliases, parser::number_u64(fields[0]), form),
                a.skip(1),
                b,
                column,
            );
        }
    }
}

proof fn lemma_one_loaded(aliases: AliasMap, row: Seq<Seq<char>>, column: nat)
    requires
        row.len() > column,
    ensures
        aliases_loaded(aliases, as_items(seq![row]), column).0 == (if artist_form(
            row[column as int],
        ).len() == 0 {
            aliases
        } else {
            with_alias(aliases, parser::number_u64(row[0]), artist_form(row[column as int]))
        }),
        aliases_loaded(aliases, as_items(seq![row]), column).1 is Ok,
{
    let items = as_items(seq![row]);
    assert(items[0] == Ok::<Seq<Seq<char>>, Seq<char>>(row));
    assert(items.skip(1) == Seq::<Result<Seq<Seq<char>>, Seq<char>>>::empty());
    reveal_with_fuel(aliases_loaded, 2);
}

proof fn lemma_own_names_loaded(
    aliases: AliasMap,
    id: u64,
    name: Seq<char>,
    names: Seq<Seq<char>>,
    variations: bool,
)
    ensures
        ({
            let rows = names_rows(id, name, names, variations);
            let loaded = aliases_loaded(aliases, as_items(rows), names_column(variations));
            &&& loaded.0 == with_aliases(aliases, id, names)
            &&& loaded.1 is Ok
        }),
    decreases names.len(),
{
    let rows = names_rows(id, name, names, variations);
    let column = names_column(variations);
    if names.len() > 0 {
        let fewer = names_rows(id, name, names.drop_last(), variations);
        let row = rows.last();
        assert(rows == fewer + seq![row]);
        lemma_own_names_loaded(aliases, id, name, names.drop_last(), variations);
        lemma_loaded_concat(aliases, fewer, seq![row], column);
        lemma_one_loaded(aliases_loaded(aliases, as_items(fewer), column).0, row, column);
        text::law_decimal_round_trip(id as nat, u64::MAX as nat);
        reveal(parser::number_u64);
        assert(parser::number_u64(row[0]) == id);
        assert(row[column as int] == names.last());
    }
}

proof fn lemma_written_names_loaded(
    aliases: AliasMap,
    artists: Seq<artist_model::ArtistView>,
    variations: bool,
)
    ensures
        ({
            let rows = artist_writer::all_artist_rows(artists, names_file(variations));
            let loaded = aliases_loaded(aliases, as_items(rows), names_column(variations));
            &&& loaded.0 == with_written_names(aliases, artists, variations)
            &&& loaded.1 is Ok
        }),
    decreases artists.len(),
{
    if artists.len() > 0 {
        let earlier = artist_writer::all_artist_rows(artists.drop_last(), names_file(variations));
        let last = artists.last();
        let own = artist_writer::artist_rows(last)[names_file(variations)];
        let names = if variations {
            last.name_variations
        } else {
            last.aliases
        };
        assert(own == names_rows(last.id, last.name, names, variations));
        lemma_written_names_loaded(aliases, artists.drop_last(), variations);
        lemma_loaded_concat(aliases, earlier, own, names_column(variations));
        lemma_own_names_loaded(
            with_written_names(aliases, artists.drop_last(), variations),
            last.id,
            last.name,
            names,
            variations,
        );
    }
}

/// Records that are read back from a file of names load as the names that were written.
proof fn lemma_read_back(
    aliases: AliasMap,
    artists: Seq<artist_model::ArtistView>,
    variations: bool,
    items: Seq<Result<Seq<Seq<char>>, Seq<char>>>,
)
    requires
        forall|rows: Seq<Seq<Seq<char>>>|
            csv_file::csv_table(rows) && artist_writer::artist_file(artists, names_file(variations))
                == #[trigger] csv_file::csv_lines(rows) ==> items == as_items(rows.skip(1)),
    ensures
        ({
            let loaded = aliases_loaded(aliases, items, names_column(variations));
            &&& loaded.0 == with_written_names(aliases, artists, variations)
            &&& loaded.1 is Ok
        }),
{
    let header = artist_writer::artist_headers()[names_file(variations)];
    let body = artist_writer::all_artist_rows(artists, names_file(variations));
    let rows = seq![header] + body;
    lemma_names_table(artists, variations);
    lemma_written_names_loaded(aliases, artists, variations);
    assert(artist_writer::artist_file(artists, names_file(variations)) == csv_file::csv_lines(
        rows,
    ));
    assert(rows.skip(1) == body);
}

/// Another name of an artist never takes a match away: who is in the library with fewer
/// names is in it with more.
pub proof fn law_aliases_only_add(f: ArtistFilterView, id: u64, alias: Seq<char>, of: u64)
    requires
        f.has_alias(of),
    ensures
        (ArtistFilterView { aliases: with_alias(f.aliases, id, alias), ..f }).has_alias(of),
{
    let i = choose|i: int|
        0 <= i < f.aliases[of].len() && f.artists.contains(#[trigger] f.aliases[of][i]);
    let more = with_alias(f.aliases, id, alias);
    assert(more[of][i] == f.aliases[of][i]);
}

/// An alias that is the name of an artist in the library makes its artist match.
pub proof fn law_alias_matches(f: ArtistFilterView, id: u64, alias: Seq<char>)
    requires
        f.artists.contains(alias),
    ensures
        (ArtistFilterView { aliases: with_alias(f.aliases, id, alias), ..f }).has_alias(id),
{
    let more = ArtistFilterView { aliases: with_alias(f.aliases, id, alias), ..f };
    let names = if f.aliases.dom().contains(id) {
        f.aliases[id].push(alias)
    } else {
        seq![alias]
    };
    assert(more.aliases[id] == names);
    assert(names[names.len() - 1] == alias);
    assert(more.artists.contains(more.aliases[id][names.len() - 1]));
}

/// An artist on the list is in the library under every spelling of the same form.
pub proof fn law_listed_artist_matches(
    f: ArtistFilterView,
    lines: Seq<Seq<char>>,
    i: int,
    name: Seq<char>,
)
    requires
        f.artists == listed_artists(lines),
        0 <= i < lines.len(),
        text::trimmed(lines[i]).len() > 0,
        artist_form(name) == artist_form(text::trimmed(lines[i])),
    ensures
        f.has_name(name),
{
}

} // verus!
