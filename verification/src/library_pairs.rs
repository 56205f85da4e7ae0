//! The filter by pairs of artist and title.
//!
//! The pairs of a library are held as an index from titles to artists, so that a
//! release costs one lookup of its title and one of each artist.

use crate::filter;
use crate::text;
use vstd::hash_map::StringHashMap;
use vstd::hash_set::StringHashSet;
use vstd::prelude::*;

verus! {

/// What `wxyc_etl::text::to_match_form` gives for a title: the form under which
/// spellings of the title are the same.
pub uninterp spec fn title_form(title: Seq<char>) -> Seq<char>;

/// The form of a title in ASCII: in small letters, without the spaces around it, and with
/// one space in place of several side by side.
pub open spec fn ascii_title_form(title: Seq<char>) -> Seq<char> {
    text::ascii_lowercase(text::single_spaced(text::unpadded(title)))
}

/// `wxyc_etl::text::to_match_form` gives the form of a title that is compared. An empty
/// title stays empty, and a form has no space at its ends and no two spaces in a row. A
/// title in ASCII has nothing to repair, compose or fold: its letters become small, and
/// spaces go. How other letters are composed and their case is mapped is left to the
/// tables of Unicode.
#[verifier::external_body]
fn to_match_form(title: &str) -> (form: String)
    ensures
        form@ == title_form(title@),
        title@.len() == 0 ==> form@.len() == 0,
        form@.len() > 0 ==> form@.first() != ' ' && form@.last() != ' ',
        text::spaced_once(form@),
        vstd::utf8::is_ascii_chars(title@) ==> form@ == ascii_title_form(title@),
{
    wxyc_etl::text::to_match_form(title)
}

/// The form of a title that is compared: without case, diacritics and the spaces around
/// it.
pub fn normalize_title(title: &str) -> (form: String)
    ensures
        form@ == title_form(title@),
        title@.len() == 0 ==> form@.len() == 0,
        form@.len() > 0 ==> form@.first() != ' ' && form@.last() != ' ',
        text::spaced_once(form@),
        vstd::utf8::is_ascii_chars(title@) ==> form@ == ascii_title_form(title@),
{
    to_match_form(title)
}

/// A title and an artist, in the forms that are compared.
pub type Pair = (Seq<char>, Seq<char>);

/// The pair of a row of the library: its artist and its title.
pub open spec fn row_pair(row: (Seq<char>, Seq<char>)) -> Pair {
    (title_form(row.1), filter::artist_form(row.0))
}

/// Whether a row of the library counts: neither its artist nor its title is empty, as
/// it is or in the form that is compared.
pub open spec fn row_counts(row: (Seq<char>, Seq<char>)) -> bool {
    &&& row.0.len() > 0
    &&& row.1.len() > 0
    &&& title_form(row.1).len() > 0
    &&& filter::artist_form(row.0).len() > 0
}

/// The pairs of a library with the given rows of artist and title.
pub open spec fn library_pairs(rows: Seq<(Seq<char>, Seq<char>)>) -> Set<Pair> {
    Set::new(
        |pair: Pair|
            exists|i: int|
                0 <= i < rows.len() && row_counts(#[trigger] rows[i]) && pair == row_pair(rows[i]),
    )
}

/// The titles of a set of pairs.
pub open spec fn pair_titles(pairs: Set<Pair>) -> Set<Seq<char>> {
    pairs.map(|pair: Pair| pair.0)
}

/// The artists of a title in a set of pairs.
pub open spec fn title_artists(pairs: Set<Pair>, title: Seq<char>) -> Set<Seq<char>> {
    Set::new(|artist: Seq<char>| pairs.contains((title, artist)))
}

/// The pairs of artist and title in a library.
///
/// `titles` gives the place of the artists of a title in `artists`.
pub struct LibraryPairs {
    titles: StringHashMap<usize>,
    artists: Vec<StringHashSet>,
    count: usize,
    pairs: Ghost<Set<Pair>>,
}

impl View for LibraryPairs {
    type V = Set<Pair>;

    closed spec fn view(&self) -> Set<Pair> {
        self.pairs@
    }
}

impl LibraryPairs {
    /// The index holds the pairs, and no title without an artist.
    pub closed spec fn wf(self) -> bool {
        &&& self.pairs@.finite()
        &&& self.count == self.pairs@.len()
        &&& forall|t: Seq<char>| #[trigger]
            self.titles@.dom().contains(t) ==> self.titles@[t] < self.artists.len()
        &&& forall|t: Seq<char>, u: Seq<char>|
            #![trigger self.titles@.dom().contains(t), self.titles@.dom().contains(u)]
            self.titles@.dom().contains(t) && self.titles@.dom().contains(u) && t != u
                ==> self.titles@[t] != self.titles@[u]
        &&& forall|t: Seq<char>| #[trigger]
            self.titles@.dom().contains(t) ==> self.artists[self.titles@[t] as int]@
                == title_artists(self.pairs@, t)
        &&& self.titles@.dom() == pair_titles(self.pairs@)
    }

    /// The pairs in the rows of a library, each an artist and a title.
    pub fn from_db(rows: &Vec<(String, String)>) -> (r: LibraryPairs)
        ensures
            r.wf(),
            r@ == library_pairs(rows.deep_view()),
    {
        let mut r = LibraryPairs {
            titles: StringHashMap::new(),
            artists: Vec::new(),
            count: 0,
            pairs: Ghost(Set::empty()),
        };
        let ghost all = rows.deep_view();
        proof {
            assert(r.titles@.dom() == pair_titles(r.pairs@));
            assert(library_pairs(all.take(0)) == Set::<Pair>::empty());
        }
        let mut i: usize = 0;
        while i < rows.len()
            invariant
                i <= rows.len(),
                all == rows.deep_view(),
                r.wf(),
                r.count <= i,
                r@ == library_pairs(all.take(i as int)),
            decreases rows.len() - i,
        {
            let artist = rows[i].0.as_str();
            let title = rows[i].1.as_str();
            let ghost row = all[i as int];
            assert(row == (artist@, title@));
            proof {
                assert(all.take(i + 1) == all.take(i as int).push(row));
                lemma_pairs_push(all.take(i as int), row);
            }
            if !artist.is_empty() && !title.is_empty() {
                let title_form = normalize_title(title);
                let artist_form = filter::normalize_artist(artist);
                if !title_form.as_str().is_empty() && !artist_form.as_str().is_empty() {
                    r.add(title_form, artist_form);
                }
            }
            i += 1;
        }
        assert(all.take(all.len() as int) == all);
        r
    }

    fn add(&mut self, title: String, artist: String)
        requires
            old(self).wf(),
            old(self).count < usize::MAX,
        ensures
            final(self).wf(),
            final(self)@ == old(self)@.insert((title@, artist@)),
            final(self).count <= old(self).count + 1,
    {
        let ghost before = *self;
        let ghost pair = (title@, artist@);
        let ghost t0 = title@;
        let ghost pairs = self.pairs@.insert(pair);
        let place: usize = match self.titles.get(title.as_str()) {
            Some(place) => *place,
            None => {
                let place: usize = self.artists.len();
                self.artists.push(StringHashSet::new());
                self.titles.insert(title, place);
                place
            },
        };
        proof {
            if !before.titles@.dom().contains(t0) {
                assert(!pair_titles(before.pairs@).contains(t0));
                assert forall|a: Seq<char>| !before.pairs@.contains((t0, a)) by {
                    if before.pairs@.contains((t0, a)) {
                        assert(pair_titles(before.pairs@).contains((t0, a).0));
                    }
                }
            }
            assert(self.artists[place as int]@ == title_artists(before.pairs@, t0));
        }
        let new = self.artists[place].insert(artist);
        if new {
            self.count += 1;
        }
        self.pairs = Ghost(pairs);
        proof {
            assert(new == !before.pairs@.contains(pair));
            assert(self.artists[place as int]@ == title_artists(pairs, t0));
            assert forall|t: Seq<char>| #[trigger]
                self.titles@.dom().contains(t) implies self.artists[self.titles@[t] as int]@
                == title_artists(self.pairs@, t) by {
                if t != t0 {
                    assert(before.titles@.dom().contains(t));
                    assert(title_artists(before.pairs@, t) == title_artists(pairs, t));
                }
            }
            assert(pair_titles(pairs) == pair_titles(before.pairs@).insert(t0)) by {
                assert forall|t: Seq<char>| #[trigger] pair_titles(pairs).contains(t) == pair_titles(
                    before.pairs@,
                ).insert(t0).contains(t) by {
                    if pair_titles(pairs).contains(t) {
                        let p = choose|p: Pair| pairs.contains(p) && p.0 == t;
                        if p != pair {
                            assert(before.pairs@.contains(p));
                        }
                    }
                    if pair_titles(before.pairs@).contains(t) {
                        let p = choose|p: Pair| before.pairs@.contains(p) && p.0 == t;
                        assert(pairs.contains(p));
                    }
                    if t == t0 {
                        assert(pairs.contains(pair));
                    }
                }
            }
            assert(self.titles@.dom() == pair_titles(pairs));
        }
    }

    /// Whether the library has the title by one of the artists.
    pub fn matches(&self, title: &str, artist_names: &Vec<&str>) -> (r: bool)
        requires
            self.wf(),
        ensures
            r == exists|i: int|
                0 <= i < artist_names.len() && self@.contains(
                    (title_form(title@), filter::artist_form((#[trigger] artist_names[i])@)),
                ),
    {
        let form = normalize_title(title);
        let ghost t = title_form(title@);
        match self.titles.get(form.as_str()) {
            None => {
                proof {
                    assert(!pair_titles(self.pairs@).contains(t));
                    assert forall|i: int| 0 <= i < artist_names.len() implies !self@.contains(
                        (t, filter::artist_form((#[trigger] artist_names[i])@)),
                    ) by {
                        let pair = (t, filter::artist_form(artist_names[i]@));
                        if self@.contains(pair) {
                            assert(pair_titles(self.pairs@).contains(pair.0));
                        }
                    }
                }
                false
            },
            Some(place) => {
                let artists = &self.artists[*place];
                assert(artists@ == title_artists(self.pairs@, t));
                let mut i: usize = 0;
                while i < artist_names.len()
                    invariant
                        i <= artist_names.len(),
                        artists@ == title_artists(self@, t),
                        t == title_form(title@),
                        forall|j: int|
                            0 <= j < i ==> !self@.contains(
                                (t, filter::artist_form((#[trigger] artist_names[j])@)),
                            ),
                    decreases artist_names.len() - i,
                {
                    let name = filter::normalize_artist(artist_names[i]);
                    if artists.contains(name.as_str()) {
                        assert(self@.contains((t, filter::artist_form(artist_names[i as int]@))));
                        return true;
                    }
                    i += 1;
                }
                false
            },
        }
    }

    /// The number of titles.
    pub fn len(&self) -> (n: usize)
        requires
            self.wf(),
        ensures
            n == pair_titles(self@).len(),
    {
        self.titles.len()
    }

    /// Whether there are no pairs.
    pub fn is_empty(&self) -> (r: bool)
        requires
            self.wf(),
        ensures
            r == (self@ == Set::<Pair>::empty()),
    {
        proof {
            if self.count == 0 {
                self.pairs@.lemma_len0_is_empty();
            }
        }
        self.count == 0
    }

    /// The number of pairs.
    pub fn pair_count(&self) -> (n: usize)
        requires
            self.wf(),
        ensures
            n == self@.len(),
    {
        self.count
    }

    /// The artists of a title in the form that is compared.
    pub fn artists_for_title(&self, normalized_title: &str) -> (r: Option<&StringHashSet>)
        requires
            self.wf(),
        ensures
            match r {
                Some(artists) => pair_titles(self@).contains(normalized_title@) && artists@
                    == title_artists(self@, normalized_title@),
                None => !pair_titles(self@).contains(normalized_title@),
            },
    {
        match self.titles.get(normalized_title) {
            Some(place) => Some(&self.artists[*place]),
            None => None,
        }
    }
}

proof fn lemma_pairs_push(rows: Seq<(Seq<char>, Seq<char>)>, row: (Seq<char>, Seq<char>))
    ensures
        library_pairs(rows.push(row)) == (if row_counts(row) {
            library_pairs(rows).insert(row_pair(row))
        } else {
            library_pairs(rows)
        }),
{
    let longer = rows.push(row);
    let after = library_pairs(longer);
    assert forall|pair: Pair| #[trigger] after.contains(pair) == (library_pairs(rows).contains(pair)
        || (row_counts(row) && pair == row_pair(row))) by {
        if after.contains(pair) {
            let i = choose|i: int|
                0 <= i < longer.len() && row_counts(#[trigger] longer[i]) && pair == row_pair(
                    longer[i],
                );
            if i < rows.len() {
                assert(longer[i] == rows[i]);
            }
        }
        if library_pairs(rows).contains(pair) {
            let i = choose|i: int|
                0 <= i < rows.len() && row_counts(#[trigger] rows[i]) && pair == row_pair(rows[i]);
            assert(longer[i] == rows[i]);
        }
        if row_counts(row) && pair == row_pair(row) {
            assert(longer[rows.len() as int] == row);
        }
    }
    if row_counts(row) {
        assert(after == library_pairs(rows).insert(row_pair(row)));
    } else {
        assert(after == library_pairs(rows));
    }
}

/// Titles are compared as artist names are: a text in ASCII has the same form as a title
/// and as an artist name, unless two spaces stand side by side inside it.
pub proof fn law_titles_like_artists(s: Seq<char>)
    requires
        vstd::utf8::is_ascii_chars(s),
        text::spaced_once(text::unpadded(s)),
    ensures
        ascii_title_form(s) == filter::ascii_artist_form(s),
{
    text::lemma_single_spaced(text::unpadded(s));
}

/// Rows without an artist or a title are left out: no pair has an empty part.
pub proof fn law_no_empty_pairs(rows: Seq<(Seq<char>, Seq<char>)>, pair: Pair)
    requires
        library_pairs(rows).contains(pair),
    ensures
        pair.0.len() > 0,
        pair.1.len() > 0,
{
}

/// The order of the rows and rows that are there twice do not matter: the pairs are those
/// of the set of rows.
pub proof fn law_rows_are_a_set(
    a: Seq<(Seq<char>, Seq<char>)>,
    b: Seq<(Seq<char>, Seq<char>)>,
)
    requires
        forall|row: (Seq<char>, Seq<char>)| #[trigger] a.contains(row) <==> b.contains(row),
    ensures
        library_pairs(a) == library_pairs(b),
{
    assert forall|pair: Pair| #[trigger] library_pairs(a).contains(pair) == library_pairs(
        b,
    ).contains(pair) by {
        if library_pairs(a).contains(pair) {
            let i = choose|i: int|
                0 <= i < a.len() && row_counts(#[trigger] a[i]) && pair == row_pair(a[i]);
            assert(a.contains(a[i]));
            let j = choose|j: int| 0 <= j < b.len() && b[j] == a[i];
            assert(row_counts(b[j]) && pair == row_pair(b[j]));
        }
        if library_pairs(b).contains(pair) {
            let i = choose|i: int|
                0 <= i < b.len() && row_counts(#[trigger] b[i]) && pair == row_pair(b[i]);
            assert(b.contains(b[i]));
            assert(a.contains(b[i]));
            let j = choose|j: int| 0 <= j < a.len() && a[j] == b[i];
            assert(row_counts(a[j]) && pair == row_pair(a[j]));
        }
    }
    assert(library_pairs(a) =~= library_pairs(b));
}

/// A row of the library is found under every spelling of its title and its artist that
/// has the same form.
pub proof fn law_row_is_found(
    rows: Seq<(Seq<char>, Seq<char>)>,
    i: int,
    title: Seq<char>,
    artist: Seq<char>,
)
    requires
        0 <= i < rows.len(),
        row_counts(rows[i]),
        title_form(title) == title_form(rows[i].1),
        filter::artist_form(artist) == filter::artist_form(rows[i].0),
    ensures
        library_pairs(rows).contains((title_form(title), filter::artist_form(artist))),
{
}

} // verus!
