//! Finding `<release>` elements in a stream of bytes.
//!
//! The scanner is given a dump piece by piece. It cuts out each stretch from
//! `<release ` to `</release>`, wherever the pieces begin and end, and packs the
//! stretches into batches.

use vstd::prelude::*;
use vstd::slice::slice_subrange;

verus! {

/// The head of the tag that opens a release.
pub open spec fn start_tag() -> Seq<u8> {
    vstd::utf8::encode_utf8("<release "@)
}

/// The tag that closes a release.
pub open spec fn end_tag() -> Seq<u8> {
    vstd::utf8::encode_utf8("</release>"@)
}

/// Whether `needle` stands in `haystack` at place `i`.
pub open spec fn occurs_at(haystack: Seq<u8>, needle: Seq<u8>, i: int) -> bool {
    0 <= i && i + needle.len() <= haystack.len() && haystack.subrange(i, i + needle.len() as int)
        == needle
}

/// The first place of `needle` in `haystack` at or after `from`.
pub open spec fn find_from(haystack: Seq<u8>, needle: Seq<u8>, from: int) -> Option<int>
    decreases haystack.len() + 1 - from,
{
    if from < 0 || from + needle.len() > haystack.len() {
        None
    } else if occurs_at(haystack, needle, from) {
        Some(from)
    } else {
        find_from(haystack, needle, from + 1)
    }
}

/// The stretches of `content` that hold a release, from place `from` on: each from the
/// next `<release ` to the `</release>` after it.
pub open spec fn releases_from(content: Seq<u8>, from: int) -> Seq<Seq<u8>>
    decreases content.len() - from,
    via releases_from_decreases
{
    match find_from(content, start_tag(), from) {
        None => Seq::empty(),
        Some(start) => match find_from(content, end_tag(), start + start_tag().len()) {
            None => Seq::empty(),
            Some(end) => {
                let next = end + end_tag().len();
                seq![content.subrange(start, next)] + releases_from(content, next)
            },
        },
    }
}

#[via_fn]
proof fn releases_from_decreases(content: Seq<u8>, from: int) {
    lemma_tag_lengths();
    lemma_find(content, start_tag(), from);
    if let Some(start) = find_from(content, start_tag(), from) {
        lemma_find(content, end_tag(), start + start_tag().len());
    }
}

/// The stretches of `content` that hold a release.
pub open spec fn releases_in(content: Seq<u8>) -> Seq<Seq<u8>> {
    releases_from(content, 0)
}

/// The first of `all` up to the limit.
pub open spec fn limited(all: Seq<Seq<u8>>, limit: Option<usize>) -> Seq<Seq<u8>> {
    match limit {
        None => all,
        Some(n) => if all.len() <= n {
            all
        } else {
            all.take(n as int)
        },
    }
}

/// `memchr::memmem::find` gives the first place of a needle in a haystack.
pub assume_specification[ memchr::memmem::find ](haystack: &[u8], needle: &[u8]) -> (r: Option<
    usize,
>)
    ensures
        match r {
            Some(i) => find_from(haystack@, needle@, 0) == Some(i as int),
            None => find_from(haystack@, needle@, 0) is None,
        },
;

proof fn lemma_tag_lengths()
    ensures
        start_tag().len() == 9,
        end_tag().len() == 10,
{
    reveal_strlit("<release ");
    reveal_strlit("</release>");
    vstd::utf8::is_ascii_chars_encode_utf8("<release "@);
    vstd::utf8::is_ascii_chars_encode_utf8("</release>"@);
}

proof fn lemma_find(haystack: Seq<u8>, needle: Seq<u8>, from: int)
    ensures
        match find_from(haystack, needle, from) {
            Some(i) => from <= i && occurs_at(haystack, needle, i) && (forall|j: int|
                from <= j < i ==> !occurs_at(haystack, needle, j)),
            None => from >= 0 ==> (forall|j: int| from <= j ==> !occurs_at(haystack, needle, j)),
        },
    decreases haystack.len() + 1 - from,
{
    if from >= 0 && from + needle.len() <= haystack.len() && !occurs_at(haystack, needle, from) {
        lemma_find(haystack, needle, from + 1);
    }
}

proof fn lemma_find_is(haystack: Seq<u8>, needle: Seq<u8>, from: int, i: int)
    requires
        0 <= from <= i,
        occurs_at(haystack, needle, i),
        forall|j: int| from <= j < i ==> !occurs_at(haystack, needle, j),
    ensures
        find_from(haystack, needle, from) == Some(i),
{
    lemma_find(haystack, needle, from);
}

proof fn lemma_occurs_shifted(haystack: Seq<u8>, needle: Seq<u8>, p: int, i: int)
    requires
        0 <= p <= haystack.len(),
        0 <= i,
    ensures
        occurs_at(haystack.skip(p), needle, i) == occurs_at(haystack, needle, p + i),
{
    if p + i + needle.len() <= haystack.len() {
        assert(haystack.skip(p).subrange(i, i + needle.len() as int) == haystack.subrange(
            p + i,
            p + i + needle.len() as int,
        ));
    }
}

/// A search in the rest of a byte string is a search from there on.
proof fn lemma_find_shifted(haystack: Seq<u8>, needle: Seq<u8>, p: int)
    requires
        0 <= p <= haystack.len(),
    ensures
        find_from(haystack, needle, p) == (match find_from(haystack.skip(p), needle, 0) {
            Some(i) => Some(p + i),
            None => None::<int>,
        }),
{
    lemma_find(haystack, needle, p);
    let rest = haystack.skip(p);
    lemma_find(rest, needle, 0);
    match find_from(rest, needle, 0) {
        Some(i) => {
            lemma_occurs_shifted(haystack, needle, p, i);
            assert forall|j: int| p <= j < p + i implies !occurs_at(haystack, needle, j) by {
                lemma_occurs_shifted(haystack, needle, p, j - p);
            }
            lemma_find_is(haystack, needle, p, p + i);
        },
        None => {
            if let Some(i) = find_from(haystack, needle, p) {
                lemma_occurs_shifted(haystack, needle, p, i - p);
            }
        },
    }
}

proof fn lemma_occurs_extended(content: Seq<u8>, more: Seq<u8>, needle: Seq<u8>, i: int)
    requires
        i + needle.len() <= content.len(),
    ensures
        occurs_at(content + more, needle, i) == occurs_at(content, needle, i),
{
    if 0 <= i {
        assert((content + more).subrange(i, i + needle.len() as int) == content.subrange(
            i,
            i + needle.len() as int,
        ));
    }
}

/// What is found stays found when more bytes come.
proof fn lemma_find_extended(content: Seq<u8>, more: Seq<u8>, needle: Seq<u8>, from: int)
    requires
        0 <= from,
        find_from(content, needle, from) is Some,
    ensures
        find_from(content + more, needle, from) == find_from(content, needle, from),
{
    lemma_find(content, needle, from);
    let i = find_from(content, needle, from)->0;
    lemma_occurs_extended(content, more, needle, i);
    assert forall|j: int| from <= j < i implies !occurs_at(content + more, needle, j) by {
        lemma_occurs_extended(content, more, needle, j);
    }
    lemma_find_is(content + more, needle, from, i);
}

/// A search may start later where nothing is found in between.
proof fn lemma_find_later(haystack: Seq<u8>, needle: Seq<u8>, from: int, later: int)
    requires
        0 <= from <= later,
        forall|j: int| from <= j < later ==> !occurs_at(haystack, needle, j),
    ensures
        find_from(haystack, needle, from) == find_from(haystack, needle, later),
{
    lemma_find(haystack, needle, from);
    lemma_find(haystack, needle, later);
    if let Some(i) = find_from(haystack, needle, later) {
        lemma_find_is(haystack, needle, from, i);
    }
}

/// Whether the releases of `content`, and of whatever `content` is the head of, are
/// `found` and those from `position` on.
pub open spec fn resumes(content: Seq<u8>, position: int, found: Seq<Seq<u8>>) -> bool {
    forall|more: Seq<u8>|
        found + releases_from(#[trigger] (content + more), position) == releases_in(content + more)
}

proof fn lemma_resumes_extended(
    content: Seq<u8>,
    chunk: Seq<u8>,
    position: int,
    found: Seq<Seq<u8>>,
)
    requires
        resumes(content, position, found),
    ensures
        resumes(content + chunk, position, found),
{
    assert forall|more: Seq<u8>|
        found + releases_from(#[trigger] (content + chunk + more), position) == releases_in(
            content + chunk + more,
        ) by {
        assert(content + chunk + more == content + (chunk + more));
    }
}

/// Where no release starts, the scanner may skip all but what could be the head of a
/// start tag.
proof fn lemma_resumes_without_start(
    content: Seq<u8>,
    position: int,
    found: Seq<Seq<u8>>,
    later: int,
)
    requires
        resumes(content, position, found),
        0 <= position <= later <= content.len(),
        find_from(content, start_tag(), position) is None,
        later + start_tag().len() <= content.len() + 1 || later == position,
    ensures
        resumes(content, later, found),
        releases_from(content, later) == Seq::<Seq<u8>>::empty(),
{
    lemma_find(content, start_tag(), position);
    lemma_find(content, start_tag(), later);
    assert forall|more: Seq<u8>|
        found + releases_from(#[trigger] (content + more), later) == releases_in(content + more) by {
        assert forall|j: int| position <= j < later implies !occurs_at(
            content + more,
            start_tag(),
            j,
        ) by {
            lemma_occurs_extended(content, more, start_tag(), j);
        }
        lemma_find_later(content + more, start_tag(), position, later);
    }
}

/// Where a release starts and does not end, the scanner may go on from its start.
proof fn lemma_resumes_at_start(content: Seq<u8>, position: int, found: Seq<Seq<u8>>, start: int)
    requires
        resumes(content, position, found),
        0 <= position <= content.len(),
        find_from(content, start_tag(), position) == Some(start),
        find_from(content, end_tag(), start + start_tag().len()) is None,
    ensures
        resumes(content, start, found),
        position <= start <= content.len(),
        releases_from(content, start) == Seq::<Seq<u8>>::empty(),
{
    lemma_find(content, start_tag(), position);
    lemma_find_is(content, start_tag(), start, start);
    assert forall|more: Seq<u8>|
        found + releases_from(#[trigger] (content + more), start) == releases_in(content + more) by {
        lemma_find_extended(content, more, start_tag(), position);
        lemma_find_extended(content, more, start_tag(), start);
    }
}

/// Where a release starts and ends, the scanner may go on after it.
proof fn lemma_resumes_after_release(
    content: Seq<u8>,
    position: int,
    found: Seq<Seq<u8>>,
    start: int,
    end: int,
)
    requires
        resumes(content, position, found),
        0 <= position <= content.len(),
        find_from(content, start_tag(), position) == Some(start),
        find_from(content, end_tag(), start + start_tag().len()) == Some(end),
    ensures
        position <= start,
        start + start_tag().len() <= end,
        end + end_tag().len() <= content.len(),
        resumes(
            content,
            end + end_tag().len(),
            found.push(content.subrange(start, end + end_tag().len() as int)),
        ),
{
    lemma_find(content, start_tag(), position);
    lemma_find(content, end_tag(), start + start_tag().len());
    let next = end + end_tag().len() as int;
    let release = content.subrange(start, next);
    assert forall|more: Seq<u8>|
        found.push(release) + releases_from(#[trigger] (content + more), next) == releases_in(
            content + more,
        ) by {
        lemma_find_extended(content, more, start_tag(), position);
        lemma_find_extended(content, more, end_tag(), start + start_tag().len());
        assert((content + more).subrange(start, next) == release);
        assert(found + (seq![release] + releases_from(content + more, next)) == found.push(release)
            + releases_from(content + more, next));
    }
}

/// The releases of a stream grow with it: what was found in its head is found again,
/// and first.
pub proof fn law_releases_grow(content: Seq<u8>, more: Seq<u8>)
    ensures
        releases_in(content).is_prefix_of(releases_in(content + more)),
{
    lemma_releases_grow(content, more, 0);
}

proof fn lemma_releases_grow(content: Seq<u8>, more: Seq<u8>, from: int)
    requires
        0 <= from,
    ensures
        releases_from(content, from).is_prefix_of(releases_from(content + more, from)),
    decreases content.len() - from,
{
    lemma_tag_lengths();
    if let Some(start) = find_from(content, start_tag(), from) {
        lemma_find(content, start_tag(), from);
        lemma_find_extended(content, more, start_tag(), from);
        if let Some(end) = find_from(content, end_tag(), start + start_tag().len()) {
            lemma_find(content, end_tag(), start + start_tag().len());
            lemma_find_extended(content, more, end_tag(), start + start_tag().len());
            let next = end + end_tag().len();
            assert((content + more).subrange(start, next) == content.subrange(start, next));
            lemma_releases_grow(content, more, next);
            let a = releases_from(content, next);
            let b = releases_from(content + more, next);
            let head = seq![content.subrange(start, next)];
            assert((head + b).take((head + a).len() as int) == head + b.take(a.len() as int));
            assert(a == b.take(a.len() as int));
        }
    }
}

/// Releases packed into one byte string. `offsets` are the places where each starts and
/// ends.
pub struct ReleaseBatch {
    pub data: Vec<u8>,
    pub offsets: Vec<(usize, usize)>,
}

impl ReleaseBatch {
    /// Each release starts where the one before it ends, the first at the head of the
    /// data and the last at its end.
    pub open spec fn wf(self) -> bool {
        &&& forall|i: int|
            0 <= i < self.offsets.len() ==> (#[trigger] self.offsets[i]).0
                <= self.offsets[i].1 <= self.data.len()
        &&& forall|i: int|
            0 < i < self.offsets.len() ==> (#[trigger] self.offsets[i]).0 == self.offsets[i - 1].1
        &&& self.offsets.len() > 0 ==> self.offsets[0].0 == 0
        &&& self.data.len() == (if self.offsets.len() > 0 {
            self.offsets@.last().1
        } else {
            0
        })
    }

    /// The releases of the batch.
    pub open spec fn releases(self) -> Seq<Seq<u8>> {
        Seq::new(
            self.offsets@.len(),
            |i: int| self.data@.subrange(self.offsets@[i].0 as int, self.offsets@[i].1 as int),
        )
    }

    /// A batch without releases.
    pub fn new() -> (r: ReleaseBatch)
        ensures
            r.wf(),
            r.releases() == Seq::<Seq<u8>>::empty(),
    {
        ReleaseBatch { data: Vec::new(), offsets: Vec::new() }
    }

    /// The number of releases.
    pub fn len(&self) -> (n: usize)
        ensures
            n == self.releases().len(),
    {
        self.offsets.len()
    }

    /// The bytes of one release.
    pub fn release(&self, i: usize) -> (bytes: &[u8])
        requires
            self.wf(),
            i < self.releases().len(),
        ensures
            bytes@ == self.releases()[i as int],
    {
        let (start, end) = self.offsets[i];
        assert(self.offsets@[i as int] == self.offsets[i as int]);
        slice_subrange(self.data.as_slice(), start, end)
    }

    fn push(&mut self, release: &[u8])
        requires
            old(self).wf(),
        ensures
            final(self).wf(),
            final(self).releases() == old(self).releases().push(release@),
    {
        let ghost before = *self;
        let start: usize = self.data.len();
        self.data.extend_from_slice(release);
        let end: usize = self.data.len();
        self.offsets.push((start, end));
        proof {
            assert(self.data@ == before.data@ + release@);
            assert(self.data@.subrange(start as int, end as int) == release@);
            assert forall|i: int| 0 <= i < before.offsets.len() implies self.releases()[i]
                == before.releases()[i] by {
                assert(before.offsets[i].1 <= before.data.len());
                assert(self.offsets[i] == before.offsets[i]);
                assert(self.data@.subrange(
                    before.offsets[i].0 as int,
                    before.offsets[i].1 as int,
                ) == before.data@.subrange(
                    before.offsets[i].0 as int,
                    before.offsets[i].1 as int,
                ));
            }
            assert(self.releases() == before.releases().push(release@));
        }
    }
}

/// The releases of a sequence of batches.
pub open spec fn batches_releases(batches: Seq<ReleaseBatch>) -> Seq<Seq<u8>>
    decreases batches.len(),
{
    if batches.len() == 0 {
        Seq::empty()
    } else {
        batches_releases(batches.drop_last()) + batches.last().releases()
    }
}

/// Cuts releases out of a stream that comes in pieces.
///
/// `unprocessed` holds the last bytes of the stream; those before `consumed` are done
/// with. `batch` is the batch that is being packed.
pub struct ReleaseScanner {
    pub unprocessed: Vec<u8>,
    pub consumed: usize,
    pub batch: ReleaseBatch,
    pub batch_size: usize,
    pub limit: Option<usize>,
    pub count: usize,
    pub done: bool,
    /// The stream so far.
    pub content: Ghost<Seq<u8>>,
    /// The place in the stream where the search goes on.
    pub position: Ghost<int>,
    /// The releases in the batches that were given out.
    pub sent: Ghost<Seq<Seq<u8>>>,
}

impl ReleaseScanner {
    /// The releases that were found.
    pub open spec fn found(self) -> Seq<Seq<u8>> {
        self.sent@ + self.batch.releases()
    }

    /// The number of releases in a full batch.
    pub open spec fn full(self) -> nat {
        if self.batch_size > 1 {
            self.batch_size as nat
        } else {
            1
        }
    }

    /// What is found so far is all that the stream so far holds, up to the limit. A full
    /// batch does not wait.
    pub open spec fn wf(self) -> bool {
        &&& self.batch.wf()
        &&& self.batch.releases().len() < self.full()
        &&& self.count == self.found().len()
        &&& self.found() == limited(releases_in(self.content@), self.limit)
        &&& self.done == (match self.limit {
            Some(n) => self.count >= n,
            None => false,
        })
        &&& !self.done ==> self.searching()
    }

    /// The unprocessed bytes are the stream from the place on where the search goes on.
    pub open spec fn searching(self) -> bool {
        &&& self.consumed <= self.unprocessed.len()
        &&& 0 <= self.position@ <= self.content@.len()
        &&& self.unprocessed@.skip(self.consumed as int) == self.content@.skip(self.position@)
        &&& resumes(self.content@, self.position@, self.found())
    }

    /// A scanner at the head of a stream. Under a limit of zero it is done at once.
    pub fn new(limit: Option<usize>, batch_size: usize) -> (r: ReleaseScanner)
        ensures
            r.wf(),
            r.done == (limit == Some(0usize)),
            r.content@ == Seq::<u8>::empty(),
            r.sent@ == Seq::<Seq<u8>>::empty(),
            r.found() == Seq::<Seq<u8>>::empty(),
            r.unprocessed.len() == 0,
            r.limit == limit,
            r.batch_size == batch_size,
    {
        let r = ReleaseScanner {
            unprocessed: Vec::new(),
            consumed: 0,
            batch: ReleaseBatch::new(),
            batch_size,
            limit,
            count: 0,
            done: match limit {
                Some(n) => n == 0,
                None => false,
            },
            content: Ghost(Seq::empty()),
            position: Ghost(0),
            sent: Ghost(Seq::empty()),
        };
        proof {
            lemma_tag_lengths();
            assert(r.found() == Seq::<Seq<u8>>::empty());
            assert(releases_in(r.content@) == Seq::<Seq<u8>>::empty());
            assert(r.unprocessed@.skip(0) == r.content@.skip(0));
            assert forall|more: Seq<u8>|
                r.found() + releases_from(#[trigger] (r.content@ + more), 0) == releases_in(
                    r.content@ + more,
                ) by {
                assert(r.found() + releases_from(r.content@ + more, 0) == releases_from(
                    r.content@ + more,
                    0,
                ));
            }
        }
        r
    }

    /// Forgets the bytes that are done with, once they are more than half of those held.
    fn compact(&mut self)
        requires
            old(self).searching(),
        ensures
            final(self).searching(),
            if old(self).consumed > old(self).unprocessed.len() / 2 {
                &&& final(self).unprocessed@ == old(self).unprocessed@.skip(
                    old(self).consumed as int,
                )
                &&& final(self).consumed == 0
            } else {
                &&& final(self).unprocessed == old(self).unprocessed
                &&& final(self).consumed == old(self).consumed
            },
            *final(self) == (ReleaseScanner {
                unprocessed: final(self).unprocessed,
                consumed: final(self).consumed,
                ..*old(self)
            }),
    {
        if self.consumed > 0 && self.consumed > self.unprocessed.len() / 2 {
            let ghost rest = self.unprocessed@.skip(self.consumed as int);
            self.unprocessed = self.unprocessed.split_off(self.consumed);
            self.consumed = 0;
            assert(self.unprocessed@.skip(0) == rest);
        }
    }

    /// Takes the next piece of the stream. Gives the batches that are full. Once the
    /// limit is reached, the batch that is being packed is given out as the last one, and
    /// further pieces are ignored.
    #[verifier::rlimit(40)]
    pub fn feed(&mut self, chunk: &[u8]) -> (batches: Vec<ReleaseBatch>)
        requires
            old(self).wf(),
            old(self).count + old(self).unprocessed.len() + chunk.len() <= usize::MAX,
        ensures
            final(self).wf(),
            final(self).limit == old(self).limit,
            final(self).batch_size == old(self).batch_size,
            final(self).content@ == (if old(self).done {
                old(self).content@
            } else {
                old(self).content@ + chunk@
            }),
            final(self).sent@ == old(self).sent@ + batches_releases(batches@),
            final(self).done ==> final(self).batch.releases().len() == 0 || old(self).done,
            forall|i: int|
                0 <= i < batches.len() ==> {
                    &&& (#[trigger] batches[i]).wf()
                    &&& 0 < batches[i].releases().len() <= old(self).full()
                    &&& batches[i].releases().len() == old(self).full() || (final(self).done && i
                        == batches.len() - 1)
                },
    {
        let mut batches: Vec<ReleaseBatch> = Vec::new();
        assert(self.sent@ + batches_releases(batches@) == self.sent@);
        if self.done {
            return batches;
        }
        self.compact();
        proof {
            lemma_tag_lengths();
            lemma_resumes_extended(self.content@, chunk@, self.position@, self.found());
        }
        let ghost live = self.unprocessed@.skip(self.consumed as int);
        self.unprocessed.extend_from_slice(chunk);
        self.content = Ghost(self.content@ + chunk@);
        proof {
            assert(self.unprocessed@.skip(self.consumed as int) == live + chunk@);
            assert(self.content@.skip(self.position@) == live + chunk@);
        }
        let start_needle = "<release ".as_bytes();
        let end_needle = "</release>".as_bytes();
        loop
            invariant_except_break
                self.batch.wf(),
                self.searching(),
                self.count == self.found().len(),
                !self.done,
                (match self.limit {
                    Some(n) => self.count < n,
                    None => true,
                }),
                self.batch.releases().len() < self.full(),
                forall|i: int|
                    0 <= i < batches.len() ==> (#[trigger] batches[i]).wf()
                        && batches[i].releases().len() == self.full(),
            invariant
                start_needle@ == start_tag(),
                end_needle@ == end_tag(),
                start_tag().len() == 9,
                end_tag().len() == 10,
                self.limit == old(self).limit,
                self.batch_size == old(self).batch_size,
                self.content@ == old(self).content@ + chunk@,
                self.sent@ == old(self).sent@ + batches_releases(batches@),
                self.consumed <= self.unprocessed.len(),
                self.count + (self.unprocessed.len() - self.consumed) <= usize::MAX,
            ensures
                self.wf(),
                self.done ==> self.batch.releases().len() == 0,
                forall|i: int|
                    0 <= i < batches.len() ==> {
                        &&& (#[trigger] batches[i]).wf()
                        &&& 0 < batches[i].releases().len() <= self.full()
                        &&& batches[i].releases().len() == self.full() || (self.done && i
                            == batches.len() - 1)
                    },
            decreases self.unprocessed.len() - self.consumed,
        {
            let live = slice_subrange(
                self.unprocessed.as_slice(),
                self.consumed,
                self.unprocessed.len(),
            );
            proof {
                assert(live@ == self.content@.skip(self.position@));
                lemma_find_shifted(self.content@, start_tag(), self.position@);
                lemma_find(live@, start_tag(), 0);
            }
            let start_offset: usize = match memchr::memmem::find(live, start_needle) {
                Some(offset) => offset,
                None => {
                    let keep: usize = if live.len() < 8 {
                        live.len()
                    } else {
                        8
                    };
                    let ghost later = self.position@ + (live.len() - keep);
                    proof {
                        lemma_resumes_without_start(
                            self.content@,
                            self.position@,
                            self.found(),
                            later,
                        );
                        self.lemma_exhausted(later);
                        assert(live@.skip(live.len() - keep) == self.content@.skip(later));
                        assert(self.unprocessed@.skip(self.unprocessed.len() - keep) == live@.skip(
                            live.len() - keep,
                        ));
                    }
                    self.consumed = self.unprocessed.len() - keep;
                    self.position = Ghost(later);
                    break ;
                },
            };
            let ghost start = self.position@ + start_offset;
            let search_from: usize = start_offset + 9;
            let after = slice_subrange(live, search_from, live.len());
            proof {
                assert(after@ == self.content@.skip(start + 9));
                lemma_find_shifted(self.content@, end_tag(), start + 9);
                lemma_find(after@, end_tag(), 0);
            }
            let end_offset: usize = match memchr::memmem::find(after, end_needle) {
                Some(offset) => search_from + offset,
                None => {
                    proof {
                        lemma_resumes_at_start(
                            self.content@,
                            self.position@,
                            self.found(),
                            start,
                        );
                        self.lemma_exhausted(start);
                        assert(live@.skip(start_offset as int) == self.content@.skip(start));
                        assert(self.unprocessed@.skip(self.consumed + start_offset) == live@.skip(
                            start_offset as int,
                        ));
                    }
                    self.consumed = self.consumed + start_offset;
                    self.position = Ghost(start);
                    break ;
                },
            };
            let end_pos: usize = end_offset + 10;
            let ghost before = self.found();
            let ghost next = self.position@ + end_pos;
            proof {
                lemma_resumes_after_release(
                    self.content@,
                    self.position@,
                    before,
                    start,
                    self.position@ + end_offset,
                );
                assert(live@.subrange(start_offset as int, end_pos as int)
                    == self.content@.subrange(start, next));
                assert(live@.skip(end_pos as int) == self.content@.skip(next));
                assert(self.unprocessed@.skip(self.consumed + end_pos) == live@.skip(
                    end_pos as int,
                ));
            }
            let release = slice_subrange(live, start_offset, end_pos);
            let ghost bytes = release@;
            let ghost sent = self.sent@;
            let ghost packed = self.batch.releases();
            self.batch.push(release);
            assert(sent + packed.push(bytes) == before.push(bytes));
            self.count += 1;
            self.consumed = self.consumed + end_pos;
            self.position = Ghost(next);
            let reached = match self.limit {
                Some(n) => self.count >= n,
                None => false,
            };
            if self.batch.offsets.len() >= self.batch_size || reached {
                let ghost earlier = batches@;
                let mut full = ReleaseBatch::new();
                std::mem::swap(&mut full, &mut self.batch);
                self.sent = Ghost(self.sent@ + full.releases());
                batches.push(full);
                proof {
                    assert(batches@.drop_last() == earlier);
                    assert(old(self).sent@ + batches_releases(earlier) + full.releases() == old(
                        self,
                    ).sent@ + batches_releases(batches@));
                    assert(self.found() == before.push(bytes));
                }
            }
            if reached {
                self.done = true;
                proof {
                    self.lemma_reached();
                }
                break ;
            }
        }
        batches
    }

    /// Ends the stream. Gives the releases that were found and not given out yet, if
    /// there are any.
    pub fn finish(&mut self) -> (batch: Option<ReleaseBatch>)
        requires
            old(self).wf(),
        ensures
            final(self).wf(),
            final(self).limit == old(self).limit,
            final(self).batch_size == old(self).batch_size,
            final(self).content@ == old(self).content@,
            final(self).sent@ == limited(releases_in(old(self).content@), old(self).limit),
            match batch {
                Some(b) => b.wf() && b.releases().len() > 0 && final(self).sent@ == old(self).sent@
                    + b.releases(),
                None => final(self).sent@ == old(self).sent@,
            },
    {
        if self.batch.offsets.len() == 0 {
            assert(self.found() == self.sent@);
            return None;
        }
        let ghost found = self.found();
        let mut last = ReleaseBatch::new();
        std::mem::swap(&mut last, &mut self.batch);
        self.sent = Ghost(self.sent@ + last.releases());
        assert(self.found() == found);
        Some(last)
    }

    /// Where nothing is left to find, all releases of the stream are found.
    proof fn lemma_exhausted(self, later: int)
        requires
            resumes(self.content@, later, self.found()),
            releases_from(self.content@, later) == Seq::<Seq<u8>>::empty(),
            self.count == self.found().len(),
            (match self.limit {
                Some(n) => self.count < n,
                None => true,
            }),
        ensures
            self.found() == limited(releases_in(self.content@), self.limit),
    {
        let none = Seq::<u8>::empty();
        assert(self.content@ + none == self.content@);
        assert(self.found() + Seq::<Seq<u8>>::empty() == self.found());
    }

    /// Where the limit is reached, the releases found are the first of the stream.
    proof fn lemma_reached(self)
        requires
            resumes(self.content@, self.position@, self.found()),
            self.count == self.found().len(),
            self.limit == Some(self.count),
        ensures
            self.found() == limited(releases_in(self.content@), self.limit),
    {
        let none = Seq::<u8>::empty();
        assert(self.content@ + none == self.content@);
        let rest = releases_from(self.content@, self.position@);
        assert((self.found() + rest).take(self.count as int) == self.found());
        if rest.len() == 0 {
            assert(self.found() + rest == self.found());
        }
    }
}

/// How a stream is cut into pieces does not matter: two scanners that were given the same
/// bytes, under the same limit, have found the same releases.
pub proof fn law_pieces_do_not_matter(a: ReleaseScanner, b: ReleaseScanner)
    requires
        a.wf(),
        b.wf(),
        a.content@ == b.content@,
        a.limit == b.limit,
    ensures
        a.found() == b.found(),
{
}

/// Every stretch that is cut out starts with `<release ` and ends with `</release>`.
pub proof fn law_releases_are_delimited(content: Seq<u8>, i: int)
    requires
        0 <= i < releases_in(content).len(),
    ensures
        ({
            let release = releases_in(content)[i];
            &&& release.len() >= start_tag().len() + end_tag().len()
            &&& release.take(start_tag().len() as int) == start_tag()
            &&& release.skip(release.len() - end_tag().len()) == end_tag()
        }),
{
    lemma_delimited(content, 0, i);
}

proof fn lemma_delimited(content: Seq<u8>, from: int, i: int)
    requires
        0 <= from,
        0 <= i < releases_from(content, from).len(),
    ensures
        ({
            let release = releases_from(content, from)[i];
            &&& release.len() >= start_tag().len() + end_tag().len()
            &&& release.take(start_tag().len() as int) == start_tag()
            &&& release.skip(release.len() - end_tag().len()) == end_tag()
        }),
    decreases i,
{
    lemma_find(content, start_tag(), from);
    let start = find_from(content, start_tag(), from)->0;
    lemma_find(content, end_tag(), start + start_tag().len());
    let end = find_from(content, end_tag(), start + start_tag().len())->0;
    let next = end + end_tag().len();
    let release = content.subrange(start, next);
    if i == 0 {
        assert(release.take(start_tag().len() as int) == content.subrange(
            start,
            start + start_tag().len() as int,
        ));
        assert(release.skip(release.len() - end_tag().len()) == content.subrange(end, next));
    } else {
        lemma_delimited(content, next, i - 1);
        assert(releases_from(content, from)[i] == releases_from(content, next)[i - 1]);
    }
}

/// Under a limit, the releases found are the first of all, and no more than the limit;
/// as many as the limit where there are enough.
pub proof fn law_limit(all: Seq<Seq<u8>>, n: usize)
    ensures
        limited(all, Some(n)) == all.take(limited(all, Some(n)).len() as int),
        limited(all, Some(n)).len() <= n,
        all.len() >= n ==> limited(all, Some(n)).len() == n,
        all.len() < n ==> limited(all, Some(n)) == all,
{
    assert(all.take(all.len() as int) == all);
}

proof fn lemma_releases_shifted(content: Seq<u8>, p: int, from: int)
    requires
        0 <= p <= content.len(),
        0 <= from,
    ensures
        releases_from(content, p + from) == releases_from(content.skip(p), from),
    decreases content.len() - p - from,
{
    let rest = content.skip(p);
    lemma_tag_lengths();
    if p + from <= content.len() {
        lemma_find_shifted(content, start_tag(), p + from);
        lemma_find_shifted(rest, start_tag(), from);
        assert(rest.skip(from) == content.skip(p + from));
        lemma_find(rest, start_tag(), from);
        if let Some(start) = find_from(rest, start_tag(), from) {
            let after = start + start_tag().len();
            lemma_find_shifted(content, end_tag(), p + after);
            lemma_find_shifted(rest, end_tag(), after);
            assert(rest.skip(after) == content.skip(p + after));
            lemma_find(rest, end_tag(), after);
            if let Some(end) = find_from(rest, end_tag(), after) {
                let next = end + end_tag().len();
                assert(rest.subrange(start, next) == content.subrange(p + start, p + next));
                lemma_releases_shifted(content, p, next);
            }
        }
    }
}

/// Every stretch from `<release ` to the next `</release>` is cut out, whole and in order:
/// what stands before it does not matter, unless a release begins there, and what stands
/// after it is searched on its own.
pub proof fn law_release_is_cut_out(before: Seq<u8>, release: Seq<u8>, after: Seq<u8>)
    requires
        ({
            let start = vstd::utf8::encode_utf8("<release "@);
            let end = vstd::utf8::encode_utf8("</release>"@);
            &&& release.len() >= start.len() + end.len()
            &&& release.take(start.len() as int) == start
            &&& release.skip(release.len() - end.len()) == end
            &&& forall|j: int|
                start.len() <= j < release.len() - end.len() ==> !#[trigger] occurs_at(
                    release,
                    end,
                    j,
                )
            &&& forall|j: int|
                0 <= j < before.len() ==> !#[trigger] occurs_at(before + release + after, start, j)
        }),
    ensures
        releases_in(before + release + after) == seq![release] + releases_in(after),
{
    let content = before + release + after;
    let b = before.len() as int;
    let e = b + release.len() - end_tag().len();
    lemma_tag_lengths();
    assert(content.subrange(b, b + 9) == release.take(9));
    lemma_find_is(content, start_tag(), 0, b);
    assert(content.subrange(e, e + 10) == release.skip(release.len() - 10));
    assert forall|j: int| b + 9 <= j < e implies !occurs_at(content, end_tag(), j) by {
        assert(!occurs_at(release, end_tag(), j - b));
        assert(content.subrange(j, j + 10) == release.subrange(j - b, j - b + 10));
    }
    lemma_find_is(content, end_tag(), b + 9, e);
    let next = b + release.len() as int;
    assert(content.subrange(b, next) == release);
    lemma_releases_shifted(content, next, 0);
    assert(content.skip(next) == after);
}

/// Where no release begins, or one begins and none ends after it, nothing is cut out.
pub proof fn law_nothing_is_cut_out(content: Seq<u8>)
    ensures
        (forall|j: int| !#[trigger] occurs_at(content, vstd::utf8::encode_utf8("<release "@), j))
            ==> releases_in(content) == Seq::<Seq<u8>>::empty(),
        (forall|j: int| !#[trigger] occurs_at(content, vstd::utf8::encode_utf8("</release>"@), j))
            ==> releases_in(content) == Seq::<Seq<u8>>::empty(),
{
    lemma_tag_lengths();
    lemma_find(content, start_tag(), 0);
    if let Some(start) = find_from(content, start_tag(), 0) {
        lemma_find(content, end_tag(), start + start_tag().len());
    }
}

/// No release of a batch is lost or comes twice: the releases of batches are those of the
/// first, then those of the others, each in its place.
pub proof fn law_batches_keep_releases(a: Seq<ReleaseBatch>, batch: ReleaseBatch, b: Seq<ReleaseBatch>)
    ensures
        batches_releases(Seq::empty()) == Seq::<Seq<u8>>::empty(),
        batches_releases(a + seq![batch] + b) == batches_releases(a) + batch.releases()
            + batches_releases(b),
    decreases b.len(),
{
    let all = a + seq![batch] + b;
    if b.len() == 0 {
        assert(all.drop_last() == a);
        assert(all.last() == batch);
        let some = batches_releases(a) + batch.releases();
        assert(some + Seq::<Seq<u8>>::empty() == some);
    } else {
        law_batches_keep_releases(a, batch, b.drop_last());
        assert(all.drop_last() == a + seq![batch] + b.drop_last());
        assert(all.last() == b.last());
        let some = batches_releases(a) + batch.releases();
        let others = batches_releases(b.drop_last());
        assert(some + others + b.last().releases() == some + (others + b.last().releases()));
    }
}

} // verus!
