//! What holds of every description, proved from the definition of the scan.

use crate::changelist::{empty_record, ChangelistRecord, P4Changelist};
use crate::parser::{
    block_after, block_len, description_of, files_of, is_blank, is_comment, key_of, key_text,
    lemma_block_len, lemma_step_advances, parse_lines, parse_text, scan, step, value_of, Key,
    ParseFailure,
};
use crate::text::{lemma_run, lines_of, other_than, parse_u32, starts_with_tab, trim};
use vstd::prelude::*;

verus! {

/// What a record holds under a key.
pub enum Field {
    Selector(P4Changelist),
    Text(Option<Seq<char>>),
    Files(Option<Seq<(Seq<char>, Seq<char>)>>),
    Nothing,
}

/// The field of `record` that lines with the key `key` write.
pub open spec fn field(record: ChangelistRecord, key: Key) -> Field {
    match key {
        Key::Change => Field::Selector(record.changelist),
        Key::Client => Field::Text(record.client),
        Key::User => Field::Text(record.user),
        Key::Status => Field::Text(record.status),
        Key::Description => Field::Text(record.description),
        Key::Files => Field::Files(record.files),
        Key::Other => Field::Nothing,
    }
}

/// The key of a line.
pub open spec fn key_in(line: Seq<char>) -> Key {
    key_of(key_text(line))
}

/// A line with one of the six keys begins with a letter: it is neither
/// blank nor a comment, and no part of a block.
pub proof fn lemma_keyed_line(line: Seq<char>)
    requires
        key_in(line) != Key::Other,
    ensures
        !is_blank(line),
        !is_comment(line),
        !starts_with_tab(line),
{
    reveal_strlit("Change");
    reveal_strlit("Client");
    reveal_strlit("User");
    reveal_strlit("Status");
    reveal_strlit("Description");
    reveal_strlit("Files");
    let name = key_text(line);
    lemma_run(line, other_than(':'));
    assert(name.len() > 0);
    assert(name[0] == line[0]);
}

/// A description in which no line has one of the six keys says nothing:
/// its record has the default selector and every field absent.
pub proof fn law_nothing_recognized(text: Seq<char>)
    requires
        forall|i: int|
            0 <= i < lines_of(text).len() ==> key_in(#[trigger] lines_of(text)[i]) == Key::Other,
    ensures
        parse_text(text) == Ok::<ChangelistRecord, ParseFailure>(empty_record()),
{
    lemma_scan_of_other_lines(lines_of(text), 0, empty_record());
}

/// Lines without one of the six keys leave the record as it is.
pub proof fn lemma_scan_of_other_lines(lines: Seq<Seq<char>>, at: int, record: ChangelistRecord)
    requires
        0 <= at,
        forall|i: int| at <= i < lines.len() ==> key_in(#[trigger] lines[i]) == Key::Other,
    ensures
        scan(lines, at, record) == Ok::<ChangelistRecord, ParseFailure>(record),
    decreases lines.len() - at,
{
    if at < lines.len() {
        assert(key_in(lines[at]) == Key::Other);
        lemma_scan_of_other_lines(lines, at + 1, record);
    }
}

/// A step leaves alone every field but that of its line's key.
pub proof fn lemma_step_frame(
    lines: Seq<Seq<char>>,
    at: int,
    record: ChangelistRecord,
    key: Key,
)
    requires
        0 <= at < lines.len(),
        key_in(lines[at]) != key,
    ensures
        step(lines, at, record) matches Ok((_, changed)) ==> field(changed, key) == field(
            record,
            key,
        ),
{
}

/// Lines with other keys leave the field of `key` as it is.
pub proof fn lemma_scan_frame(
    lines: Seq<Seq<char>>,
    at: int,
    record: ChangelistRecord,
    key: Key,
)
    requires
        0 <= at,
        forall|i: int| at <= i < lines.len() ==> key_in(#[trigger] lines[i]) != key,
    ensures
        scan(lines, at, record) matches Ok(last) ==> field(last, key) == field(record, key),
    decreases lines.len() - at,
{
    if at < lines.len() {
        lemma_step_advances(lines, at, record);
        lemma_step_frame(lines, at, record, key);
        match step(lines, at, record) {
            Ok((next, changed)) => {
                lemma_scan_frame(lines, next, changed, key);
            },
            Err(_) => {},
        }
    }
}

/// Whether a line can be read, and what it writes under its own key, does
/// not depend on the record before it.
pub proof fn lemma_step_writes(
    lines: Seq<Seq<char>>,
    at: int,
    first: ChangelistRecord,
    second: ChangelistRecord,
)
    requires
        0 <= at < lines.len(),
    ensures
        match step(lines, at, first) {
            Ok((next, changed)) => step(lines, at, second) matches Ok((same, other)) && same
                == next && field(other, key_in(lines[at])) == field(changed, key_in(lines[at])),
            Err(failure) => step(lines, at, second) == Err::<
                (int, ChangelistRecord),
                ParseFailure,
            >(failure),
        },
{
    if key_in(lines[at]) != Key::Other {
        lemma_keyed_line(lines[at]);
    }
}

/// No block swallows a line that does not begin with a tab: from a line
/// before it, the scan comes to that line, not past it.
pub proof fn law_unindented_line_is_read(
    lines: Seq<Seq<char>>,
    at: int,
    record: ChangelistRecord,
    k: int,
)
    requires
        0 <= at < k < lines.len(),
        !starts_with_tab(lines[k]),
    ensures
        step(lines, at, record) matches Ok((next, _)) ==> next <= k,
{
    lemma_block_len(lines, at + 1);
}

/// The field of a key holds what the last line with that key wrote.
pub proof fn lemma_last_line_wins(
    lines: Seq<Seq<char>>,
    at: int,
    record: ChangelistRecord,
    k: int,
    last: ChangelistRecord,
)
    requires
        0 <= at <= k < lines.len(),
        key_in(lines[k]) != Key::Other,
        forall|j: int| k < j < lines.len() ==> key_in(#[trigger] lines[j]) != key_in(lines[k]),
        scan(lines, at, record) == Ok::<ChangelistRecord, ParseFailure>(last),
    ensures
        step(lines, k, empty_record()) matches Ok((_, written)) && field(last, key_in(lines[k]))
            == field(written, key_in(lines[k])),
    decreases k - at,
{
    lemma_step_advances(lines, at, record);
    if at == k {
        lemma_step_writes(lines, k, record, empty_record());
        match step(lines, k, record) {
            Ok((next, changed)) => {
                lemma_scan_frame(lines, next, changed, key_in(lines[k]));
            },
            Err(_) => {},
        }
    } else {
        lemma_keyed_line(lines[k]);
        law_unindented_line_is_read(lines, at, record, k);
        match step(lines, at, record) {
            Ok((next, changed)) => {
                lemma_last_line_wins(lines, next, changed, k, last);
            },
            Err(_) => {},
        }
    }
}

/// Where a key stands on several lines, the last one counts: the record
/// of a description holds, under each key, what the last line with that key
/// says.
pub proof fn law_last_occurrence_wins(lines: Seq<Seq<char>>, k: int, record: ChangelistRecord)
    requires
        0 <= k < lines.len(),
        key_in(lines[k]) != Key::Other,
        forall|j: int| k < j < lines.len() ==> key_in(#[trigger] lines[j]) != key_in(lines[k]),
        parse_lines(lines) == Ok::<ChangelistRecord, ParseFailure>(record),
    ensures
        match key_in(lines[k]) {
            Key::Change => value_of(lines[k]) matches Some(value) && parse_u32(trim(value))
                matches Some(number) && record.changelist == P4Changelist::Change(number),
            Key::Client => value_of(lines[k]) matches Some(value) && record.client == Some(
                trim(value),
            ),
            Key::User => value_of(lines[k]) matches Some(value) && record.user == Some(
                trim(value),
            ),
            Key::Status => value_of(lines[k]) matches Some(value) && record.status == Some(
                trim(value),
            ),
            Key::Description => record.description == Some(
                description_of(block_after(lines, k)),
            ),
            Key::Files => files_of(block_after(lines, k)) matches Ok(files) && record.files
                == Some(files),
            Key::Other => true,
        },
{
    lemma_keyed_line(lines[k]);
    lemma_last_line_wins(lines, 0, empty_record(), k, record);
}

/// A blank line and a comment change no field: the scan goes on behind
/// them with the record it came with.
pub proof fn law_blank_or_comment_is_skipped(
    lines: Seq<Seq<char>>,
    at: int,
    record: ChangelistRecord,
)
    requires
        0 <= at < lines.len(),
        is_blank(lines[at]) || is_comment(lines[at]),
    ensures
        step(lines, at, record) == Ok::<(int, ChangelistRecord), ParseFailure>((at + 1, record)),
        scan(lines, at, record) == scan(lines, at + 1, record),
{
}

/// Only a line that does not begin with a tab ends a block, and the first
/// such line does.
pub proof fn law_block_ends_at_first_unindented(lines: Seq<Seq<char>>, from: int, j: int)
    requires
        0 <= from <= j < lines.len(),
        !starts_with_tab(lines[j]),
    ensures
        from + block_len(lines, from) <= j,
        (forall|i: int| from <= i < j ==> starts_with_tab(#[trigger] lines[i])) ==> from
            + block_len(lines, from) == j,
{
    lemma_block_len(lines, from);
}

/// A blank line or a comment ends a block like any other line that does not
/// begin with a tab.
pub proof fn law_blank_or_comment_ends_block(lines: Seq<Seq<char>>, from: int, j: int)
    requires
        0 <= from <= j < lines.len(),
        is_blank(lines[j]) || is_comment(lines[j]),
    ensures
        from + block_len(lines, from) <= j,
{
    law_block_ends_at_first_unindented(lines, from, j);
}

/// A step looks at its line and at the lines behind it, not at those before.
pub proof fn lemma_step_local(
    lines: Seq<Seq<char>>,
    at: int,
    others: Seq<Seq<char>>,
    there: int,
    record: ChangelistRecord,
)
    requires
        0 <= at < lines.len(),
        0 <= there < others.len(),
        lines.skip(at) == others.skip(there),
    ensures
        step(lines, at, record) == match step(others, there, record) {
            Ok((next, changed)) => Ok::<(int, ChangelistRecord), ParseFailure>(
                (next + at - there, changed),
            ),
            Err(failure) => Err(failure),
        },
{
    assert(lines[at] == lines.skip(at)[0]);
    assert(others[there] == others.skip(there)[0]);
    assert(lines.skip(at + 1) =~= lines.skip(at).skip(1));
    assert(others.skip(there + 1) =~= others.skip(there).skip(1));
    lemma_block_len(lines, at + 1);
    lemma_block_len(others, there + 1);
    let n = block_len(lines, at + 1) as int;
    assert(block_after(lines, at) =~= lines.skip(at + 1).take(n));
    assert(block_after(others, there) =~= others.skip(there + 1).take(n));
}

/// The scan from a line on depends on that line and those behind it alone.
pub proof fn lemma_scan_local(
    lines: Seq<Seq<char>>,
    at: int,
    others: Seq<Seq<char>>,
    there: int,
    record: ChangelistRecord,
)
    requires
        0 <= at <= lines.len(),
        0 <= there <= others.len(),
        lines.skip(at) == others.skip(there),
    ensures
        scan(lines, at, record) == scan(others, there, record),
    decreases lines.len() - at,
{
    assert(lines.skip(at).len() == lines.len() - at);
    assert(others.skip(there).len() == others.len() - there);
    if at < lines.len() {
        lemma_step_local(lines, at, others, there, record);
        lemma_step_advances(lines, at, record);
        lemma_step_advances(others, there, record);
        match step(others, there, record) {
            Ok((next, changed)) => {
                let here = next + at - there;
                assert(lines.skip(here) =~= lines.skip(at).skip(here - at));
                assert(others.skip(next) =~= others.skip(there).skip(next - there));
                lemma_scan_local(lines, here, others, next, changed);
            },
            Err(_) => {},
        }
    }
}

/// Whether a line opens a block.
pub open spec fn opens_block(line: Seq<char>) -> bool {
    key_in(line) == Key::Description || key_in(line) == Key::Files
}

/// Whether a block that a line of `lines` opens reaches the end of `lines`.
pub open spec fn ends_in_block(lines: Seq<Seq<char>>) -> bool {
    exists|q: int|
        0 <= q < lines.len() && opens_block(#[trigger] lines[q]) && forall|j: int|
            q < j < lines.len() ==> starts_with_tab(#[trigger] lines[j])
}

/// The scan of `before + after` and that of `before + [line] + after`, both
/// from `at`, a line of `before`, come to the same end.
proof fn lemma_scan_with_inserted(
    before: Seq<Seq<char>>,
    line: Seq<char>,
    after: Seq<Seq<char>>,
    at: int,
    record: ChangelistRecord,
)
    requires
        0 <= at <= before.len(),
        is_blank(line) || is_comment(line),
        !(ends_in_block(before) && after.len() > 0 && starts_with_tab(after[0])),
    ensures
        scan(before + seq![line] + after, at, record) == scan(before + after, at, record),
    decreases before.len() - at,
{
    let k = before.len() as int;
    let with = before + seq![line] + after;
    let without = before + after;
    assert(with[k] == line);
    assert(with.skip(k + 1) =~= after);
    assert(without.skip(k) =~= after);
    if at == k {
        lemma_scan_local(with, k + 1, without, k, record);
    } else {
        assert(with[at] == before[at]);
        assert(without[at] == before[at]);
        lemma_block_len(with, at + 1);
        lemma_block_len(without, at + 1);
        lemma_step_advances(with, at, record);
        let n = block_len(with, at + 1) as int;
        assert(at + 1 + n <= k) by {
            if at + 1 + n > k {
                assert(starts_with_tab(with[k]));
            }
        }
        assert forall|i: int| at + 1 <= i < at + 1 + n implies starts_with_tab(
            #[trigger] without[i],
        ) by {
            assert(without[i] == with[i]);
        }
        if at + 1 + n < k {
            assert(without[at + 1 + n] == with[at + 1 + n]);
            law_block_ends_at_first_unindented(without, at + 1, at + 1 + n);
        } else if opens_block(before[at]) {
            assert forall|j: int| at < j < before.len() implies starts_with_tab(
                #[trigger] before[j],
            ) by {
                assert(before[j] == with[j]);
            }
            assert(ends_in_block(before));
            if after.len() > 0 {
                assert(without[k] == after[0]);
                law_block_ends_at_first_unindented(without, at + 1, k);
            }
        }
        if opens_block(before[at]) || at + 1 + n < k {
            assert(block_len(without, at + 1) == n);
            assert(block_after(without, at) =~= block_after(with, at));
        }
        match step(with, at, record) {
            Ok((next, changed)) => {
                assert(step(without, at, record) == step(with, at, record));
                lemma_scan_with_inserted(before, line, after, next, changed);
            },
            Err(_) => {
                assert(step(without, at, record) == step(with, at, record));
            },
        }
    }
}

/// A blank line or a comment, put between two lines of a description or at
/// either end, changes nothing of what the description says, unless it
/// parts a block from lines that went on with it.
pub proof fn law_blank_or_comment_between(
    before: Seq<Seq<char>>,
    line: Seq<char>,
    after: Seq<Seq<char>>,
)
    requires
        is_blank(line) || is_comment(line),
        !(ends_in_block(before) && after.len() > 0 && starts_with_tab(after[0])),
    ensures
        parse_lines(before + seq![line] + after) == parse_lines(before + after),
{
    lemma_scan_with_inserted(before, line, after, 0, empty_record());
}

} // verus!
