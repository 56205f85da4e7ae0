//! What holds of texts: white space, lines, numbers, formats, lists of ids and messages.

use crate::error;
use crate::error::{ErrorView, Record};
use crate::keep_release_ids;
use crate::model;
use crate::parser;
use crate::pipeline;
use crate::pipeline::TallyView;
use crate::text;
use crate::xml;
use vstd::prelude::*;

verus! {

/// Whether a text is nothing but white space.
pub open spec fn blank(s: Seq<char>) -> bool {
    forall|i: int| 0 <= i < s.len() ==> text::white_space(#[trigger] s[i])
}

/// In ASCII, the tab, the line feed, the vertical tab, the form feed, the carriage return
/// and the space are white space, and nothing else is.
pub proof fn law_ascii_white_space(c: char)
    requires
        c as u32 <= 0x7f,
    ensures
        text::white_space(c) <==> c as u32 == 9 || c as u32 == 10 || c as u32 == 11 || c as u32
            == 12 || c as u32 == 13 || c == ' ',
{
}

/// The white space around a text goes, and nothing of the text itself does.
pub proof fn law_trimmed(before: Seq<char>, s: Seq<char>, after: Seq<char>)
    requires
        blank(before),
        blank(after),
        s.len() > 0 ==> !text::white_space(s.first()) && !text::white_space(s.last()),
    ensures
        text::trimmed(before + s + after) == s,
{
    let all = before + s + after;
    if s.len() == 0 {
        assert(blank(all)) by {
            assert forall|i: int| 0 <= i < all.len() implies text::white_space(
                #[trigger] all[i],
            ) by {
                if i < before.len() {
                    assert(all[i] == before[i]);
                } else {
                    assert(all[i] == after[i - before.len()]);
                }
            }
        }
        lemma_blank_start(all, Seq::empty());
        assert(all + Seq::<char>::empty() == all);
        assert(text::trimmed_start(Seq::<char>::empty()) == Seq::<char>::empty());
        assert(s == Seq::<char>::empty());
    } else {
        lemma_blank_start(before, s + after);
        assert(before + (s + after) == all);
        assert((s + after)[0] == s.first());
        lemma_blank_end(s, after);
    }
}

proof fn lemma_blank_start(before: Seq<char>, s: Seq<char>)
    requires
        blank(before),
    ensures
        text::trimmed_start(before + s) == text::trimmed_start(s),
    decreases before.len(),
{
    if before.len() == 0 {
        assert(before + s == s);
    } else {
        let rest = before.skip(1);
        assert forall|i: int| 0 <= i < rest.len() implies text::white_space(#[trigger] rest[i]) by {
            assert(rest[i] == before[i + 1]);
        }
        lemma_blank_start(rest, s);
        assert((before + s)[0] == before[0]);
        assert((before + s).skip(1) == rest + s);
    }
}

proof fn lemma_blank_end(s: Seq<char>, after: Seq<char>)
    requires
        blank(after),
        s.len() > 0,
        !text::white_space(s.last()),
    ensures
        text::trimmed_end(s + after) == s,
    decreases after.len(),
{
    if after.len() == 0 {
        assert(s + after == s);
    } else {
        let rest = after.drop_last();
        assert forall|i: int| 0 <= i < rest.len() implies text::white_space(#[trigger] rest[i]) by {
            assert(rest[i] == after[i]);
        }
        lemma_blank_end(s, rest);
        assert((s + after).last() == after.last());
        assert(after[after.len() - 1] == after.last());
        assert((s + after).drop_last() == s + rest);
    }
}

/// A number is read from its digits: one more digit makes it ten times as large, and adds
/// the digit. A plus sign in front changes nothing.
pub proof fn law_numbers_from_digits(s: Seq<char>, d: nat, n: nat, max: nat)
    requires
        d < 10,
    ensures
        d <= max ==> text::unsigned_value(seq![text::digit_char(d)], max) == Some(d),
        text::unsigned_value(s, max) == Some(n) && n * 10 + d <= max ==> text::unsigned_value(
            s.push(text::digit_char(d)),
            max,
        ) == Some(n * 10 + d),
        s.len() > 0 && s[0] != '+' ==> text::unsigned_value(seq!['+'] + s, max)
            == text::unsigned_value(s, max),
        text::unsigned_value(s, max) matches Some(value) ==> value <= max && s.len() > 0,
{
    let one = seq![text::digit_char(d)];
    assert(one.drop_last() == Seq::<char>::empty());
    assert(text::digits_value(one.drop_last()) == 0);
    assert(text::digit(one[0]));
    assert(text::digits_value(one) == d);
    let longer = s.push(text::digit_char(d));
    if text::unsigned_value(s, max) == Some(n) {
        let digits = text::without_plus(s);
        assert(text::without_plus(longer) == digits.push(text::digit_char(d)));
        assert(digits.push(text::digit_char(d)).drop_last() == digits);
        assert forall|i: int| 0 <= i < digits.len() + 1 implies text::digit(
            #[trigger] digits.push(text::digit_char(d))[i],
        ) by {
            if i < digits.len() {
                assert(text::digit(digits[i]));
            }
        }
    }
    assert((seq!['+'] + s).skip(1) == s);
}

/// What is no number is refused: an empty text, and one with anything but digits in it,
/// but for a plus sign in front.
pub proof fn law_no_number(s: Seq<char>, i: int, max: nat)
    ensures
        text::unsigned_value(Seq::empty(), max) is None,
        0 <= i < s.len() && !('0' <= s[i] <= '9') && !(i == 0 && s[i] == '+')
            ==> text::unsigned_value(s, max) is None,
{
    if 0 <= i < s.len() && !('0' <= s[i] <= '9') && !(i == 0 && s[i] == '+') {
        let digits = text::without_plus(s);
        if s[0] == '+' {
            assert(digits[i - 1] == s[i]);
        } else {
            assert(digits[i] == s[i]);
        }
    }
}

/// A number that is written in decimal is read back, with white space around it or not;
/// what is no number counts as zero.
pub proof fn law_numbers_are_read_back(n: u64, before: Seq<char>, after: Seq<char>, s: Seq<char>)
    requires
        blank(before),
        blank(after),
    ensures
        parser::number_u64(text::trimmed(before + text::decimal(n as nat) + after)) == n,
        n <= u32::MAX ==> parser::number_u32(
            text::trimmed(before + text::decimal(n as nat) + after),
            0,
        ) == n,
        text::unsigned_value(s, u64::MAX as nat) is None ==> parser::number_u64(s) == 0,
        text::unsigned_value(s, u32::MAX as nat) is None ==> parser::number_u32(s, 0) == 0,
{
    let digits = text::decimal(n as nat);
    text::law_decimal_round_trip(n as nat, u64::MAX as nat);
    if n <= u32::MAX {
        text::law_decimal_round_trip(n as nat, u32::MAX as nat);
    }
    text::lemma_decimal_digits(n as nat);
    assert(text::digit(digits[0]) && text::digit(digits[digits.len() - 1]));
    assert(!text::white_space(digits.first()) && !text::white_space(digits.last()));
    law_trimmed(before, digits, after);
    reveal(parser::number_u64);
    reveal(parser::number_u32);
}

proof fn lemma_lines_shifted(s: Seq<char>, p: int, from: int)
    requires
        0 <= p <= s.len(),
        0 <= from,
    ensures
        text::lines_from(s, p + from) == text::lines_from(s.skip(p), from),
    decreases s.len() - p - from,
{
    let rest = s.skip(p);
    if p + from < s.len() {
        lemma_line_feed_shifted(s, p, from);
        let end = text::line_feed(rest, from);
        text::lemma_line_feed(rest, from);
        if end < rest.len() {
            assert(rest.subrange(from, end) == s.subrange(p + from, p + end));
            lemma_lines_shifted(s, p, end + 1);
        } else {
            assert(rest.skip(from) == s.skip(p + from));
        }
    }
}

proof fn lemma_line_feed_shifted(s: Seq<char>, p: int, from: int)
    requires
        0 <= p <= s.len(),
        0 <= from <= s.len() - p,
    ensures
        text::line_feed(s, p + from) == p + text::line_feed(s.skip(p), from),
    decreases s.len() - p - from,
{
    if p + from < s.len() && s[p + from] != '\n' {
        lemma_line_feed_shifted(s, p, from + 1);
    }
}

/// A text is cut into lines at its line feeds: what stands before the first one is the
/// first line, without a carriage return at its end, and what stands after it is cut on
/// its own. A text without a line feed is one line, and an empty one has none.
pub proof fn law_lines(line: Seq<char>, rest: Seq<char>)
    requires
        forall|i: int| 0 <= i < line.len() ==> #[trigger] line[i] != '\n',
    ensures
        line.len() > 0 ==> text::text_lines(line) == seq![line],
        text::text_lines(Seq::empty()) == Seq::<Seq<char>>::empty(),
        line.len() == 0 || line.last() != '\r' ==> text::text_lines(line + seq!['\n'] + rest)
            == seq![line] + text::text_lines(rest),
        text::text_lines(line + seq!['\r', '\n'] + rest) == seq![line] + text::text_lines(rest),
{
    if line.len() > 0 {
        text::lemma_line_feed_is(line, 0, line.len() as int);
        assert(line.skip(0) == line);
    }
    let a = line + seq!['\n'] + rest;
    text::lemma_line_feed_is(a, 0, line.len() as int);
    assert(a.subrange(0, line.len() as int) == line);
    lemma_lines_shifted(a, line.len() as int + 1, 0);
    assert(a.skip(line.len() as int + 1) == rest);
    let b = line + seq!['\r', '\n'] + rest;
    let cut = line.push('\r');
    text::lemma_line_feed_is(b, 0, cut.len() as int);
    assert(b.subrange(0, cut.len() as int) == cut);
    assert(cut.drop_last() == line);
    lemma_lines_shifted(b, cut.len() as int + 1, 0);
    assert(b.skip(cut.len() as int + 1) == rest);
}

/// A format is its name; with a quantity over one, the quantity and an "x" stand before
/// it. Lists of formats are joined by a comma and a space, and no format is nothing.
pub proof fn law_formats(a: Seq<model::FormatView>, b: Seq<model::FormatView>, f: model::FormatView)
    ensures
        model::formats_text(Seq::empty()) == Seq::<char>::empty(),
        f.qty <= 1 ==> model::formats_text(seq![f]) == f.name,
        f.qty > 1 ==> model::formats_text(seq![f]) == text::decimal(f.qty as nat) + "x"@ + f.name,
        a.len() > 0 && b.len() > 0 ==> model::formats_text(a + b) == model::formats_text(a) + ", "@
            + model::formats_text(b),
    decreases b.len(),
{
    assert(seq![f][0] == f);
    if a.len() > 0 && b.len() > 0 {
        assert((a + b).drop_last() == a + b.drop_last());
        assert((a + b).last() == b.last());
        if b.len() == 1 {
            assert(a + b.drop_last() == a);
        } else {
            law_formats(a, b.drop_last(), f);
            let x = model::formats_text(a) + ", "@;
            let y = model::formats_text(b.drop_last());
            let z = model::format_text(b.last());
            assert(x + y + ", "@ + z == x + (y + ", "@ + z));
        }
    }
}

/// Whether a line of a list of ids counts: it is not blank, and no comment.
pub open spec fn entry(line: Seq<char>) -> bool {
    text::trimmed(line).len() > 0 && text::trimmed(line)[0] != '#'
}

/// A list of ids is in order exactly where every line is blank, a comment or a number that
/// fits. It holds exactly the numbers on its lines; else the first line that is none of
/// these is named.
pub proof fn law_list_of_ids(lines: Seq<Seq<char>>)
    ensures
        match keep_release_ids::ids_in(lines) {
            Ok(ids) => {
                &&& forall|i: int|
                    0 <= i < lines.len() && entry(#[trigger] lines[i]) ==> (text::unsigned_value(
                        text::trimmed(lines[i]),
                        u64::MAX as nat,
                    ) matches Some(n) && ids.contains(n as u64))
                &&& forall|id: u64| #[trigger]
                    ids.contains(id) ==> exists|i: int|
                        0 <= i < lines.len() && entry(#[trigger] lines[i]) && text::unsigned_value(
                            text::trimmed(lines[i]),
                            u64::MAX as nat,
                        ) == Some(id as nat)
            },
            Err(place) => {
                &&& 0 <= place < lines.len()
                &&& entry(lines[place]) && text::unsigned_value(
                    text::trimmed(lines[place]),
                    u64::MAX as nat,
                ) is None
                &&& forall|i: int|
                    0 <= i < place && entry(#[trigger] lines[i]) ==> text::unsigned_value(
                        text::trimmed(lines[i]),
                        u64::MAX as nat,
                    ) is Some
            },
        },
    decreases lines.len(),
{
    if lines.len() > 0 {
        let shorter = lines.drop_last();
        let last = lines.len() - 1;
        law_list_of_ids(shorter);
        assert(forall|i: int| 0 <= i < shorter.len() ==> #[trigger] lines[i] == shorter[i]);
        assert(lines[last] == lines.last());
        assert(text::unsigned_value(text::trimmed(lines[last]), u64::MAX as nat) matches Some(n)
            ==> n <= u64::MAX);
        if let Ok(ids) = keep_release_ids::ids_in(lines) {
            let fewer = keep_release_ids::ids_in(shorter)->Ok_0;
            assert forall|id: u64| #[trigger] ids.contains(id) implies exists|i: int|
                0 <= i < lines.len() && entry(#[trigger] lines[i]) && text::unsigned_value(
                    text::trimmed(lines[i]),
                    u64::MAX as nat,
                ) == Some(id as nat) by {
                if fewer.contains(id) {
                    let i = choose|i: int|
                        0 <= i < shorter.len() && entry(#[trigger] shorter[i])
                            && text::unsigned_value(
                            text::trimmed(shorter[i]),
                            u64::MAX as nat,
                        ) == Some(id as nat);
                    assert(entry(lines[i]));
                } else {
                    assert(entry(lines[last]));
                }
            }
        }
    }
}

/// The element of a tag is that of the name in front, up to the first white space.
pub proof fn law_tag_name(name: Seq<u8>, rest: Seq<u8>)
    requires
        forall|i: int|
            0 <= i < name.len() ==> #[trigger] name[i] != 0x20 && name[i] != 0x0d && name[i] != 0x0a
                && name[i] != 0x09,
        rest.len() > 0 ==> rest[0] == 0x20 || rest[0] == 0x0d || rest[0] == 0x0a || rest[0] == 0x09,
    ensures
        xml::tag_element(name + rest) == crate::element::element(name),
{
    lemma_name_len(name, rest);
    assert((name + rest).take(name.len() as int) == name);
}

pub proof fn lemma_name_len(name: Seq<u8>, rest: Seq<u8>)
    requires
        forall|i: int|
            0 <= i < name.len() ==> #[trigger] name[i] != 0x20 && name[i] != 0x0d && name[i] != 0x0a
                && name[i] != 0x09,
        rest.len() > 0 ==> rest[0] == 0x20 || rest[0] == 0x0d || rest[0] == 0x0a || rest[0] == 0x09,
    ensures
        xml::name_len(name + rest) == name.len(),
    decreases name.len(),
{
    if name.len() > 0 {
        let shorter = name.skip(1);
        assert forall|i: int| 0 <= i < shorter.len() implies #[trigger] shorter[i] != 0x20
            && shorter[i] != 0x0d && shorter[i] != 0x0a && shorter[i] != 0x09 by {
            assert(shorter[i] == name[i + 1]);
        }
        lemma_name_len(shorter, rest);
        assert((name + rest).skip(1) == shorter + rest);
        assert((name + rest)[0] == name[0]);
    } else {
        assert(name + rest == rest);
    }
}

/// Whether a text is nothing but spaces.
pub open spec fn spaces(s: Seq<char>) -> bool {
    forall|i: int| 0 <= i < s.len() ==> #[trigger] s[i] == ' '
}

/// The spaces around a text go, and nothing of the text itself does.
pub proof fn law_unpadded(before: Seq<char>, s: Seq<char>, after: Seq<char>)
    requires
        spaces(before),
        spaces(after),
        s.len() > 0 ==> s.first() != ' ' && s.last() != ' ',
    ensures
        text::unpadded(before + s + after) == s,
    decreases before.len() + after.len(),
{
    let all = before + s + after;
    if before.len() > 0 {
        let rest = before.skip(1);
        assert forall|i: int| 0 <= i < rest.len() implies #[trigger] rest[i] == ' ' by {
            assert(rest[i] == before[i + 1]);
        }
        law_unpadded(rest, s, after);
        assert(all.first() == before[0]);
        assert(all.skip(1) == rest + s + after);
    } else if after.len() > 0 {
        let rest = after.drop_last();
        if s.len() == 0 {
            let shorter = after.skip(1);
            assert forall|i: int| 0 <= i < shorter.len() implies #[trigger] shorter[i] == ' ' by {
                assert(shorter[i] == after[i + 1]);
            }
            law_unpadded(before, s, shorter);
            assert(all.first() == after[0]);
            assert(all.skip(1) == before + s + shorter);
        } else {
            assert forall|i: int| 0 <= i < rest.len() implies #[trigger] rest[i] == ' ' by {
                assert(rest[i] == after[i]);
            }
            law_unpadded(before, s, rest);
            assert(all.first() == s.first());
            assert(all.last() == after[after.len() - 1]);
            assert(all.drop_last() == before + s + rest);
        }
    } else {
        assert(all == s);
    }
}

/// Two spaces count as one, wherever they stand. A text in which none stand side by side
/// stays as it is.
pub proof fn law_single_spaced(a: Seq<char>, b: Seq<char>)
    ensures
        text::single_spaced(a + seq![' ', ' '] + b) == text::single_spaced(a + seq![' '] + b),
        text::spaced_once(a) ==> text::single_spaced(a) == a,
    decreases b.len(),
{
    if text::spaced_once(a) {
        text::lemma_single_spaced(a);
    }
    let two = a + seq![' ', ' '] + b;
    let one = a + seq![' '] + b;
    if b.len() == 0 {
        assert(two[two.len() - 2] == ' ' && two.last() == ' ');
        assert(two.drop_last() == one);
    } else {
        let shorter = b.drop_last();
        law_single_spaced(a, shorter);
        assert(two.drop_last() == a + seq![' ', ' '] + shorter);
        assert(one.drop_last() == a + seq![' '] + shorter);
        assert(two.last() == b.last() && one.last() == b.last());
        if b.len() == 1 {
            assert(two[two.len() - 2] == ' ' && one[one.len() - 2] == ' ');
        } else {
            assert(two[two.len() - 2] == b[b.len() - 2] && one[one.len() - 2] == b[b.len() - 2]);
        }
    }
}

/// Capital letters become the small ones, place by place, and everything else stays.
pub proof fn law_lowercase(s: Seq<char>, i: int)
    requires
        0 <= i < s.len(),
    ensures
        text::ascii_lowercase(s).len() == s.len(),
        'A' <= s[i] <= 'Z' ==> text::ascii_lowercase(s)[i] as u32 - 'a' as u32 == s[i] as u32
            - 'A' as u32,
        !('A' <= s[i] <= 'Z') ==> text::ascii_lowercase(s)[i] == s[i],
{
}

/// What the errors say.
pub proof fn law_messages(message: Seq<char>, position: u64)
    ensures
        error::error_message(ErrorView::NotFound(Record::Release))
            == "No <"@ + "release"@ + "> found in bytes"@,
        error::error_message(ErrorView::NotFound(Record::Artist))
            == "No <"@ + "artist"@ + "> found in bytes"@,
        error::error_message(ErrorView::NotFound(Record::Label))
            == "No <"@ + "label"@ + "> found in bytes"@,
        error::error_message(ErrorView::NotFound(Record::Master))
            == "No <"@ + "master"@ + "> found in bytes"@,
        error::error_message(ErrorView::UnexpectedEnd(Record::Release))
            == "Unexpected EOF inside <"@ + "release"@ + ">"@,
        error::error_message(ErrorView::UnexpectedEnd(Record::Artist))
            == "Unexpected EOF inside <"@ + "artist"@ + ">"@,
        error::error_message(ErrorView::UnexpectedEnd(Record::Label))
            == "Unexpected EOF inside <"@ + "label"@ + ">"@,
        error::error_message(ErrorView::UnexpectedEnd(Record::Master))
            == "Unexpected EOF inside <"@ + "master"@ + ">"@,
        error::error_message(ErrorView::Malformed(message)) == "XML parse error: "@ + message,
        error::error_message(ErrorView::MalformedAt(message, position))
            == "XML parse error at position "@ + text::decimal(position as nat) + ": "@ + message,
        error::error_message(ErrorView::Attribute(message)) == message,
        error::error_message(ErrorView::InvalidUtf8(message)) == message,
        error::error_message(ErrorView::Escape(message)) == message,
{
}

/// The message that ends a run gives every number in its place. What the list kept and what
/// came again is named only where there is any.
pub proof fn law_summary(tally: TallyView, scanned: nat)
    ensures
        ({
            let head = "Complete: "@ + text::decimal(scanned) + " scanned, "@ + text::decimal(
                tally.written,
            ) + " written, "@ + text::decimal(tally.filtered) + " filtered, "@ + text::decimal(
                tally.skipped_no_artists,
            ) + " skipped (no artists)"@;
            let kept = ", "@ + text::decimal(tally.kept_via_allowlist)
                + " kept via --keep-release-ids allowlist"@;
            let again = ", "@ + text::decimal(tally.duplicate_ids) + " duplicate ids skipped"@;
            let summary = pipeline::summary_text(tally, scanned);
            &&& tally.kept_via_allowlist == 0 && tally.duplicate_ids == 0 ==> summary == head
            &&& tally.kept_via_allowlist > 0 && tally.duplicate_ids == 0 ==> summary == head + kept
            &&& tally.kept_via_allowlist == 0 && tally.duplicate_ids > 0 ==> summary == head + again
            &&& tally.kept_via_allowlist > 0 && tally.duplicate_ids > 0 ==> summary == head + kept
                + again
        }),
{
    let summary = pipeline::summary_text(tally, scanned);
    assert(summary + Seq::<char>::empty() == summary);
}

} // verus!
