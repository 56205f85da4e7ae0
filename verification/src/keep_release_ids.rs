//! The list of release ids that are kept whatever the filter says.
//!
//! One id stands on each line. Blank lines and lines that start with `#` are ignored.
//! Any other line that is no id makes the whole list an error.

use crate::text;
use std::collections::HashSet;
use vstd::prelude::*;

verus! {

broadcast use vstd::std_specs::hash::group_hash_axioms;

/// A line that is no release id: its number, from one, and its text.
#[derive(Debug)]
pub struct MalformedId {
    pub line_no: usize,
    pub line: String,
}

/// What a line says: nothing, an id, or something that is no id.
pub enum IdLine {
    Ignored,
    Id(u64),
    Malformed,
}

/// What a line of the list says.
pub open spec fn id_line(line: Seq<char>) -> IdLine {
    let entry = text::trimmed(line);
    if entry.len() == 0 || entry[0] == '#' {
        IdLine::Ignored
    } else {
        match text::unsigned_value(entry, u64::MAX as nat) {
            Some(id) => IdLine::Id(id as u64),
            None => IdLine::Malformed,
        }
    }
}

/// The ids in the lines of a list, or the place of the first line that is no id.
pub open spec fn ids_in(lines: Seq<Seq<char>>) -> Result<Set<u64>, int>
    decreases lines.len(),
{
    if lines.len() == 0 {
        Ok(Set::empty())
    } else {
        match ids_in(lines.drop_last()) {
            Err(place) => Err(place),
            Ok(ids) => match id_line(lines.last()) {
                IdLine::Ignored => Ok(ids),
                IdLine::Id(id) => Ok(ids.insert(id)),
                IdLine::Malformed => Err(lines.len() - 1),
            },
        }
    }
}

proof fn lemma_error_stays(lines: Seq<Seq<char>>, n: int)
    requires
        0 <= n <= lines.len(),
        ids_in(lines.take(n)) is Err,
    ensures
        ids_in(lines) == ids_in(lines.take(n)),
    decreases lines.len(),
{
    if n < lines.len() {
        assert(lines.drop_last().take(n) == lines.take(n));
        lemma_error_stays(lines.drop_last(), n);
    } else {
        assert(lines.take(n) == lines);
    }
}

fn read_id_line(line: &str) -> (r: IdLine)
    ensures
        r == id_line(line@),
{
    let entry = text::trim(line);
    let chars = text::chars_of(entry.as_str());
    if chars.len() == 0 || chars[0] == '#' {
        return IdLine::Ignored;
    }
    match text::parse_unsigned(entry.as_str(), u64::MAX) {
        Some(id) => IdLine::Id(id),
        None => IdLine::Malformed,
    }
}

/// The ids in a list. A list that is missing has none.
pub fn parse_keep_release_ids(content: Option<&str>) -> (r: Result<HashSet<u64>, MalformedId>)
    ensures
        match content {
            None => r is Ok && r->Ok_0@ == Set::<u64>::empty(),
            Some(content) => match ids_in(text::text_lines(content@)) {
                Ok(ids) => r is Ok && r->Ok_0@ == ids,
                Err(place) => r is Err && r->Err_0.line_no == place + 1 && r->Err_0.line@
                    == text::text_lines(content@)[place],
            },
        },
{
    let mut ids: HashSet<u64> = HashSet::new();
    let list = match content {
        None => {
            return Ok(ids);
        },
        Some(list) => list,
    };
    let lines = text::lines(list);
    let ghost all = text::text_lines(list@);
    assert(all.take(0) == Seq::<Seq<char>>::empty());
    let mut i: usize = 0;
    while i < lines.len()
        invariant
            i <= lines.len(),
            content == Some(list),
            all == text::text_lines(list@),
            all == lines.deep_view(),
            ids_in(all.take(i as int)) == Ok::<Set<u64>, int>(ids@),
        decreases lines.len() - i,
    {
        let ghost longer = all.take(i + 1);
        assert(longer.drop_last() == all.take(i as int));
        assert(longer.last() == lines[i as int]@);
        match read_id_line(lines[i].as_str()) {
            IdLine::Ignored => {},
            IdLine::Id(id) => {
                ids.insert(id);
            },
            IdLine::Malformed => {
                proof {
                    lemma_error_stays(all, i + 1);
                }
                return Err(MalformedId { line_no: i + 1, line: lines[i].clone() });
            },
        }
        i += 1;
    }
    assert(all.take(all.len() as int) == all);
    Ok(ids)
}

/// The ids that are kept, where a list is given and where none is.
pub fn load_keep_ids(list: Option<Option<&str>>) -> (r: Result<HashSet<u64>, MalformedId>)
    ensures
        match list {
            Some(Some(content)) => match ids_in(text::text_lines(content@)) {
                Ok(ids) => r is Ok && r->Ok_0@ == ids,
                Err(place) => r is Err && r->Err_0.line_no == place + 1 && r->Err_0.line@
                    == text::text_lines(content@)[place],
            },
            _ => r is Ok && r->Ok_0@ == Set::<u64>::empty(),
        },
{
    match list {
        Some(content) => parse_keep_release_ids(content),
        None => parse_keep_release_ids(None),
    }
}

/// A list without lines and a list that is missing are the same.
pub proof fn law_empty_list()
    ensures
        ids_in(text::text_lines(Seq::empty())) == Ok::<Set<u64>, int>(Set::empty()),
{
}

/// The ids of a list are those on its lines, and the first line that is no id is the one
/// that is named.
pub proof fn law_ids_are_on_lines(lines: Seq<Seq<char>>)
    ensures
        match ids_in(lines) {
            Ok(ids) => {
                &&& forall|i: int| 0 <= i < lines.len() ==> id_line(#[trigger] lines[i]) !is Malformed
                &&& forall|id: u64| #[trigger]
                    ids.contains(id) <==> exists|i: int|
                        0 <= i < lines.len() && id_line(#[trigger] lines[i]) == IdLine::Id(id)
            },
            Err(place) => {
                &&& 0 <= place < lines.len()
                &&& id_line(lines[place]) is Malformed
                &&& forall|i: int| 0 <= i < place ==> id_line(#[trigger] lines[i]) !is Malformed
            },
        },
    decreases lines.len(),
{
    if lines.len() > 0 {
        let shorter = lines.drop_last();
        law_ids_are_on_lines(shorter);
        assert(forall|i: int| 0 <= i < shorter.len() ==> #[trigger] lines[i] == shorter[i]);
        if let Ok(ids) = ids_in(lines) {
            let fewer = ids_in(shorter)->Ok_0;
            assert forall|id: u64| #[trigger] ids.contains(id) <==> exists|i: int|
                0 <= i < lines.len() && id_line(#[trigger] lines[i]) == IdLine::Id(id) by {
                if fewer.contains(id) {
                    let i = choose|i: int|
                        0 <= i < shorter.len() && id_line(#[trigger] shorter[i]) == IdLine::Id(id);
                    assert(id_line(lines[i]) == IdLine::Id(id));
                }
                if exists|i: int|
                    0 <= i < lines.len() && id_line(#[trigger] lines[i]) == IdLine::Id(id) {
                    let i = choose|i: int|
                        0 <= i < lines.len() && id_line(#[trigger] lines[i]) == IdLine::Id(id);
                    if i < shorter.len() {
                        assert(id_line(shorter[i]) == IdLine::Id(id));
                    }
                }
            }
        }
    }
}

} // verus!
