//! What a dump file holds, and how it is stored.

use crate::error;
use crate::error::ParseError;
use crate::text;
use crate::text_laws;
use crate::xml;
use crate::xml::{EventKind, EventResult};
use vstd::prelude::*;
use vstd::slice::slice_subrange;

verus! {

/// The kinds of dumps.
#[derive(Clone, Copy, PartialEq, Eq, Structural, Debug)]
pub enum DumpKind {
    Artists,
    Labels,
    Masters,
    Releases,
    Unknown,
}

/// The kind of a dump with the given root element.
pub open spec fn kind_of_root(root: Seq<char>) -> DumpKind {
    if root == "artists"@ {
        DumpKind::Artists
    } else if root == "labels"@ {
        DumpKind::Labels
    } else if root == "masters"@ {
        DumpKind::Masters
    } else if root == "releases"@ {
        DumpKind::Releases
    } else {
        DumpKind::Unknown
    }
}

impl DumpKind {
    /// The kind of a dump with the given root element.
    pub fn from_root(root: &str) -> (r: DumpKind)
        ensures
            r == kind_of_root(root@),
    {
        if text::same_text(root, "artists") {
            DumpKind::Artists
        } else if text::same_text(root, "labels") {
            DumpKind::Labels
        } else if text::same_text(root, "masters") {
            DumpKind::Masters
        } else if text::same_text(root, "releases") {
            DumpKind::Releases
        } else {
            DumpKind::Unknown
        }
    }

    /// How a file that stands alone is read: one of no known kind as releases.
    pub fn for_single_file(root: &str) -> (r: DumpKind)
        ensures
            r == (if kind_of_root(root@) == DumpKind::Unknown {
                DumpKind::Releases
            } else {
                kind_of_root(root@)
            }),
    {
        let kind = DumpKind::from_root(root);
        if kind == DumpKind::Unknown {
            DumpKind::Releases
        } else {
            kind
        }
    }
}

/// What one more result of reading a document says of its root element: nothing yet, its
/// name, or that it cannot be found.
pub open spec fn root_step(result: xml::EventResultView) -> Option<
    Result<Seq<char>, error::ErrorView>,
> {
    match result {
        Err((message, _)) => Some(Err(error::ErrorView::Malformed(message))),
        Ok(event) => match event.kind {
            xml::EventKindView::OpenTag(_) => Some(
                Ok(
                    xml::utf8_lossy(
                        event.content.take(xml::name_len(event.content) as int),
                    ),
                ),
            ),
            xml::EventKindView::EndOfInput => Some(Ok("unknown"@)),
            _ => None,
        },
    }
}

/// The name of the root element of a document with the given events.
pub open spec fn root_element(events: Seq<xml::EventResultView>) -> Result<
    Seq<char>,
    error::ErrorView,
>
    decreases events.len(),
{
    if events.len() == 0 {
        Ok("unknown"@)
    } else {
        match root_step(events[0]) {
            Some(found) => found,
            None => root_element(events.skip(1)),
        }
    }
}

/// Looks for the root element in one more result of reading a document.
pub fn root_of_event(result: EventResult) -> (r: Option<Result<String, ParseError>>)
    ensures
        match root_step(xml::event_result_view(result)) {
            None => r is None,
            Some(found) => r is Some && error::result_view(r->Some_0) == found,
        },
{
    match result {
        Err(failure) => Some(Err(ParseError::Malformed(failure.0))),
        Ok(event) => match &event.kind {
            EventKind::OpenTag(_) => {
                let n: usize = xml::tag_name_len(event.content.as_slice());
                let name = slice_subrange(event.content.as_slice(), 0, n);
                assert(name@ == event.content@.take(n as int));
                Some(Ok(xml::decode_lossy(name)))
            },
            EventKind::EndOfInput => Some(Ok("unknown".to_owned())),
            _ => None,
        },
    }
}

/// The name of the root element of a document; "unknown" where it has none.
pub fn find_root_element(document: &[u8]) -> (r: Result<String, ParseError>)
    ensures
        error::result_view(r) == root_element(xml::xml_events(document@)),
{
    let mut reader = xml::open_reader(document);
    loop
        invariant
            xml::complete(xml::reader_events(reader)),
            root_element(xml::reader_events(reader)) == root_element(xml::xml_events(document@)),
        decreases xml::reader_events(reader).len(),
    {
        let ghost events = xml::reader_events(reader);
        let result = xml::read_event(&mut reader);
        if let Some(found) = root_of_event(result) {
            return found;
        }
        proof {
            xml::lemma_rest_complete(events);
        }
    }
}

/// The extension of a file name: what follows its last dot, unless that dot is its first
/// character.
pub open spec fn extension(name: Seq<char>) -> Option<Seq<char>> {
    match name.index_of_last('.') {
        Some(i) if i > 0 => Some(name.skip(i + 1)),
        _ => None,
    }
}

/// Whether `s` ends with `suffix`.
pub open spec fn has_suffix(s: Seq<char>, suffix: Seq<char>) -> bool {
    s.len() >= suffix.len() && s.skip(s.len() - suffix.len()) == suffix
}

/// Whether `s` ends with `suffix`.
pub fn ends_with(s: &str, suffix: &str) -> (r: bool)
    ensures
        r == has_suffix(s@, suffix@),
{
    let chars = text::chars_of(s);
    let tail = text::chars_of(suffix);
    if chars.len() < tail.len() {
        return false;
    }
    let start: usize = chars.len() - tail.len();
    let end = text::string_of(&chars, start, chars.len());
    assert(chars@.subrange(start as int, chars.len() as int) == s@.skip(start as int));
    text::same_text(end.as_str(), suffix)
}

/// Whether a file in a directory of dumps is one of them.
pub fn is_dump_file(name: &str) -> (r: bool)
    ensures
        r == (has_suffix(name@, ".xml"@) || has_suffix(name@, ".xml.gz"@)),
{
    ends_with(name, ".xml") || ends_with(name, ".xml.gz")
}

/// Whether a text is "gz", whatever the case of its letters.
pub open spec fn is_gz(s: Seq<char>) -> bool {
    s.len() == 2 && (s[0] == 'g' || s[0] == 'G') && (s[1] == 'z' || s[1] == 'Z')
}

/// Whether a file with the given name is compressed: its extension is "gz", whatever the
/// case of its letters.
pub fn is_gzip_file(name: &str) -> (r: bool)
    ensures
        r == (extension(name@) matches Some(s) && is_gz(s)),
{
    let chars = text::chars_of(name);
    let n: usize = chars.len();
    let r = n > 3 && chars[n - 3] == '.' && (chars[n - 2] == 'g' || chars[n - 2] == 'G') && (
    chars[n - 1] == 'z' || chars[n - 1] == 'Z');
    proof {
        name@.index_of_last_ensures('.');
        if r {
            assert(name@[n - 3] == '.');
            assert(name@[n - 2] != '.' && name@[n - 1] != '.');
            assert(name@.index_of_last('.') == Some(n - 3));
        } else if let Some(s) = extension(name@) {
            if is_gz(s) {
                let dot = name@.index_of_last('.')->0;
                assert(s.len() == n - dot - 1);
                assert(s[0] == name@[n - 2] && s[1] == name@[n - 1]);
            }
        }
    }
    r
}

/// The places of the dumps of each kind in a list of files.
#[derive(Clone, Copy, PartialEq, Eq, Structural, Debug)]
pub struct DumpFiles {
    pub artists: Option<usize>,
    pub labels: Option<usize>,
    pub masters: Option<usize>,
    pub releases: Option<usize>,
}

/// The place of the last file of a kind, given the root elements of the files.
pub open spec fn last_of_kind(roots: Seq<Seq<char>>, kind: DumpKind) -> Option<usize>
    decreases roots.len(),
{
    if roots.len() == 0 {
        None
    } else if kind_of_root(roots.last()) == kind {
        Some((roots.len() - 1) as usize)
    } else {
        last_of_kind(roots.drop_last(), kind)
    }
}

/// Finds the dump of each kind in a list of files, given their root elements. Of several
/// files of one kind the last counts.
pub fn scan_directory(roots: &Vec<String>) -> (r: DumpFiles)
    ensures
        r.artists == last_of_kind(roots.deep_view(), DumpKind::Artists),
        r.labels == last_of_kind(roots.deep_view(), DumpKind::Labels),
        r.masters == last_of_kind(roots.deep_view(), DumpKind::Masters),
        r.releases == last_of_kind(roots.deep_view(), DumpKind::Releases),
{
    let mut r = DumpFiles { artists: None, labels: None, masters: None, releases: None };
    let ghost all = roots.deep_view();
    let mut i: usize = 0;
    while i < roots.len()
        invariant
            i <= roots.len(),
            all == roots.deep_view(),
            r.artists == last_of_kind(all.take(i as int), DumpKind::Artists),
            r.labels == last_of_kind(all.take(i as int), DumpKind::Labels),
            r.masters == last_of_kind(all.take(i as int), DumpKind::Masters),
            r.releases == last_of_kind(all.take(i as int), DumpKind::Releases),
        decreases roots.len() - i,
    {
        let ghost longer = all.take(i + 1);
        assert(longer.drop_last() == all.take(i as int));
        assert(longer.last() == roots[i as int]@);
        match DumpKind::from_root(roots[i].as_str()) {
            DumpKind::Artists => {
                r.artists = Some(i);
            },
            DumpKind::Labels => {
                r.labels = Some(i);
            },
            DumpKind::Masters => {
                r.masters = Some(i);
            },
            DumpKind::Releases => {
                r.releases = Some(i);
            },
            DumpKind::Unknown => {},
        }
        i += 1;
    }
    assert(all.take(all.len() as int) == all);
    r
}

/// A dump has a kind exactly where its root element has the name of that kind.
pub proof fn law_kinds(root: Seq<char>)
    ensures
        kind_of_root(root) == DumpKind::Artists <==> root == "artists"@,
        kind_of_root(root) == DumpKind::Labels <==> root == "labels"@,
        kind_of_root(root) == DumpKind::Masters <==> root == "masters"@,
        kind_of_root(root) == DumpKind::Releases <==> root == "releases"@,
{
    reveal_strlit("artists");
    reveal_strlit("labels");
    reveal_strlit("masters");
    reveal_strlit("releases");
    assert("artists"@[0] != "masters"@[0]);
    assert("artists"@.len() == 7 && "labels"@.len() == 6 && "masters"@.len() == 7);
    assert("releases"@.len() == 8);
}

/// The root element is the first that is opened, whatever stands before it. What fails
/// before it is reported, and a document that ends before it has a root that is unknown.
pub proof fn law_root_is_first_tag(events: Seq<xml::EventResultView>, k: int, name: Seq<u8>)
    requires
        0 <= k < events.len(),
        forall|i: int|
            0 <= i < k ==> ((#[trigger] events[i]) matches Ok(event) && !(event.kind is OpenTag)
                && !(event.kind is EndOfInput)),
        forall|i: int|
            0 <= i < name.len() ==> #[trigger] name[i] != 0x20 && name[i] != 0x0d && name[i] != 0x0a
                && name[i] != 0x09,
    ensures
        events[k] matches Err((message, _)) ==> root_element(events) == Err::<
            Seq<char>,
            error::ErrorView,
        >(error::ErrorView::Malformed(message)),
        events[k] matches Ok(event) ==> event.kind is EndOfInput ==> root_element(events) == Ok::<
            Seq<char>,
            error::ErrorView,
        >("unknown"@),
        events[k] matches Ok(event) ==> event.kind is OpenTag && event.content.len() >= name.len()
            && event.content.take(name.len() as int) == name && (event.content.len() == name.len()
            || event.content[name.len() as int] == 0x20) ==> root_element(events) == Ok::<
            Seq<char>,
            error::ErrorView,
        >(xml::utf8_lossy(name)),
    decreases k,
{
    if k > 0 {
        let rest = events.skip(1);
        assert(events[0] matches Ok(event) && !(event.kind is OpenTag) && !(
        event.kind is EndOfInput));
        assert forall|i: int| 0 <= i < k - 1 implies ((#[trigger] rest[i]) matches Ok(event) && !(
        event.kind is OpenTag) && !(event.kind is EndOfInput)) by {
            assert(rest[i] == events[i + 1]);
        }
        law_root_is_first_tag(rest, k - 1, name);
        assert(rest[k - 1] == events[k]);
    } else if let Ok(event) = events[0] {
        if event.content.len() >= name.len() && event.content.take(name.len() as int) == name {
            let rest = event.content.skip(name.len() as int);
            assert(name + rest == event.content);
            if rest.len() == 0 || rest[0] == 0x20 {
                text_laws::lemma_name_len(name, rest);
            }
        }
    }
}

/// Of the files of a kind the last counts, and where there is none, none does.
pub proof fn law_last_of_kind(roots: Seq<Seq<char>>, kind: DumpKind, i: int)
    ensures
        0 <= i < roots.len() && kind_of_root(roots[i]) == kind && (forall|j: int|
            i < j < roots.len() ==> kind_of_root(#[trigger] roots[j]) != kind) ==> last_of_kind(
            roots,
            kind,
        ) == Some(i as usize),
        (forall|j: int| 0 <= j < roots.len() ==> kind_of_root(#[trigger] roots[j]) != kind)
            ==> last_of_kind(roots, kind) is None,
    decreases roots.len(),
{
    if roots.len() > 0 {
        let shorter = roots.drop_last();
        law_last_of_kind(shorter, kind, i);
        assert(roots[roots.len() - 1] == roots.last());
        assert(forall|j: int| 0 <= j < shorter.len() ==> #[trigger] shorter[j] == roots[j]);
    }
}

/// The extension is what follows the last dot. A name without a dot, or with none but in
/// front, has none.
pub proof fn law_extension(stem: Seq<char>, rest: Seq<char>)
    requires
        !rest.contains('.'),
    ensures
        stem.len() > 0 ==> extension(stem + seq!['.'] + rest) == Some(rest),
        extension(seq!['.'] + rest) is None,
        extension(rest) is None,
{
    let name = stem + seq!['.'] + rest;
    let hidden = seq!['.'] + rest;
    name.index_of_last_ensures('.');
    hidden.index_of_last_ensures('.');
    rest.index_of_last_ensures('.');
    assert(name[stem.len() as int] == '.');
    assert(hidden[0] == '.');
    assert forall|i: int| stem.len() < i < name.len() implies name[i] != '.' by {
        assert(name[i] == rest[i - stem.len() - 1]);
    }
    assert forall|i: int| 0 < i < hidden.len() implies hidden[i] != '.' by {
        assert(hidden[i] == rest[i - 1]);
    }
    assert(name.skip(stem.len() as int + 1) == rest);
}

/// What is put at the end of a name is found there, and nothing else is.
pub proof fn law_suffix(s: Seq<char>, suffix: Seq<char>)
    ensures
        has_suffix(s + suffix, suffix),
        has_suffix(s, suffix) ==> s == s.take(s.len() - suffix.len()) + suffix,
{
    assert((s + suffix).skip(s.len() as int) == suffix);
    if has_suffix(s, suffix) {
        let n = s.len() - suffix.len();
        assert(s.take(n) + s.skip(n) == s);
    }
}

/// An extension says that a file is compressed where it is "gz" in small letters.
pub proof fn law_gz(s: Seq<char>)
    ensures
        is_gz(s) <==> text::ascii_lowercase(s) == "gz"@,
{
    reveal_strlit("gz");
    let small = text::ascii_lowercase(s);
    if is_gz(s) {
        assert(small == "gz"@);
    }
    if small == "gz"@ {
        assert(small.len() == s.len());
        assert(small[0] == 'g' && small[1] == 'z');
    }
}

} // verus!
