//! The format of a changelist description, and the scan that reads one.
//!
//! A description is a list of lines. A blank line and a line that begins
//! with `#` say nothing. Any other line has a key: its text up to the first
//! colon, or all of it where it holds no colon. `Change`, `Client`, `User`
//! and `Status` carry their value on the same line, behind the colon.
//! `Description` and `Files` open a block: the lines that follow, for as long
//! as they begin with a tab. A line with any other key says nothing.

use crate::changelist::{
    empty_record, pairs_of, ChangelistRecord, P4Changelist, P4ChangelistResult,
};
use crate::text::{
    contents, copy_range, find, find_char, join, lemma_run, lemma_run_unique, lines_of,
    parse_decimal, parse_u32, run, split_lines, starts_with_tab, tab_led, texts, trim,
    trim_bounds,
};
use crate::trusted::{join_strings, string_from_chars, take_tab_led};
use vstd::prelude::*;
use vstd::string::StringExecFns;

verus! {

/// The keys that a line of a description can have.
#[derive(Clone, Copy, Debug, PartialEq, Eq, Structural)]
pub enum Key {
    Change,
    Client,
    User,
    Status,
    Description,
    Files,
    /// Any text that is none of the six names.
    Other,
}

/// Why a description cannot be read.
#[derive(Clone, Debug, PartialEq, Eq)]
pub enum ParseError {
    /// A `Change`, `Client`, `User` or `Status` line holds no colon. Carries
    /// the line.
    MissingValue(String),
    /// The value of a `Change` line is no 32-bit unsigned number. Carries
    /// the value, trimmed.
    InvalidChange(String),
    /// A line of a `Files` block holds no `#`. Carries the line.
    MissingAction(String),
}

/// The mathematical content of a [`ParseError`].
pub enum ParseFailure {
    MissingValue(Seq<char>),
    InvalidChange(Seq<char>),
    MissingAction(Seq<char>),
}

impl View for ParseError {
    type V = ParseFailure;

    open spec fn view(&self) -> ParseFailure {
        match *self {
            ParseError::MissingValue(line) => ParseFailure::MissingValue(line@),
            ParseError::InvalidChange(value) => ParseFailure::InvalidChange(value@),
            ParseError::MissingAction(line) => ParseFailure::MissingAction(line@),
        }
    }
}

/// What a failure reads like.
pub open spec fn failure_message(failure: ParseFailure) -> Seq<char> {
    match failure {
        ParseFailure::MissingValue(line) => "No value behind the key. Line: "@ + line,
        ParseFailure::InvalidChange(value) => "Not a changelist number: "@ + value,
        ParseFailure::MissingAction(line) => "No action behind the file. Line: "@ + line,
    }
}

impl ParseError {
    /// The error in words, with the text that it carries.
    pub fn message(&self) -> (text: String)
        ensures
            text@ == failure_message(self@),
    {
        match self {
            ParseError::MissingValue(line) => String::from_str(
                "No value behind the key. Line: ",
            ).concat(line.as_str()),
            ParseError::InvalidChange(value) => String::from_str(
                "Not a changelist number: ",
            ).concat(value.as_str()),
            ParseError::MissingAction(line) => String::from_str(
                "No action behind the file. Line: ",
            ).concat(line.as_str()),
        }
    }
}

/// The key that a key text names.
pub open spec fn key_of(name: Seq<char>) -> Key {
    if name == "Change"@ {
        Key::Change
    } else if name == "Client"@ {
        Key::Client
    } else if name == "User"@ {
        Key::User
    } else if name == "Status"@ {
        Key::Status
    } else if name == "Description"@ {
        Key::Description
    } else if name == "Files"@ {
        Key::Files
    } else {
        Key::Other
    }
}

/// A line without any character.
pub open spec fn is_blank(line: Seq<char>) -> bool {
    line.len() == 0
}

/// A line whose first character is `#`.
pub open spec fn is_comment(line: Seq<char>) -> bool {
    line.len() > 0 && line[0] == '#'
}

/// The text of a line up to its first colon; the whole line without one.
pub open spec fn key_text(line: Seq<char>) -> Seq<char> {
    line.take(find(line, ':') as int)
}

/// The text of a line behind its first colon, if it has one.
pub open spec fn value_of(line: Seq<char>) -> Option<Seq<char>> {
    let colon = find(line, ':') as int;
    if colon < line.len() {
        Some(line.skip(colon + 1))
    } else {
        None
    }
}

/// How many lines from `from` on begin with a tab, one after the other.
pub open spec fn block_len(lines: Seq<Seq<char>>, from: int) -> nat {
    run(lines.skip(from), tab_led())
}

/// The block that the line at `at` opens: the lines behind it up to, and
/// without, the first one that does not begin with a tab.
pub open spec fn block_after(lines: Seq<Seq<char>>, at: int) -> Seq<Seq<char>> {
    lines.subrange(at + 1, at + 1 + block_len(lines, at + 1))
}

/// Each line, trimmed.
pub open spec fn trimmed(lines: Seq<Seq<char>>) -> Seq<Seq<char>> {
    Seq::new(lines.len(), |i: int| trim(lines[i]))
}

/// The description that a block holds: its lines, trimmed, with a line feed
/// between each two.
pub open spec fn description_of(block: Seq<Seq<char>>) -> Seq<char> {
    join(trimmed(block), seq!['\n'])
}

/// Whether a line of a `Files` block holds the `#` that parts path and action.
pub open spec fn has_action(line: Seq<char>) -> bool {
    find(line, '#') < line.len()
}

/// The predicate of [`has_action`], as a value.
pub open spec fn with_action() -> spec_fn(Seq<char>) -> bool {
    |line: Seq<char>| has_action(line)
}

/// Path and action of a line of a `Files` block: what stands before its
/// first `#` and what stands behind it, both trimmed.
pub open spec fn file_entry(line: Seq<char>) -> (Seq<char>, Seq<char>) {
    let hash = find(line, '#') as int;
    (trim(line.take(hash)), trim(line.skip(hash + 1)))
}

/// The files that a block lists, in its order; or its first line without `#`.
pub open spec fn files_of(block: Seq<Seq<char>>) -> Result<
    Seq<(Seq<char>, Seq<char>)>,
    ParseFailure,
> {
    let good = run(block, with_action());
    if good < block.len() {
        Err(ParseFailure::MissingAction(block[good as int]))
    } else {
        Ok(Seq::new(block.len(), |i: int| file_entry(block[i])))
    }
}

/// `record` after a line with the key `key` and the trimmed value `value`.
pub open spec fn with_value(key: Key, value: Seq<char>, record: ChangelistRecord) -> Result<
    ChangelistRecord,
    ParseFailure,
> {
    match key {
        Key::Change => match parse_u32(value) {
            Some(number) => Ok(
                ChangelistRecord { changelist: P4Changelist::Change(number), ..record },
            ),
            None => Err(ParseFailure::InvalidChange(value)),
        },
        Key::Client => Ok(ChangelistRecord { client: Some(value), ..record }),
        Key::User => Ok(ChangelistRecord { user: Some(value), ..record }),
        Key::Status => Ok(ChangelistRecord { status: Some(value), ..record }),
        _ => Ok(record),
    }
}

/// One step of the scan: what the line at `at` makes of `record`, and where
/// the scan goes on.
pub open spec fn step(lines: Seq<Seq<char>>, at: int, record: ChangelistRecord) -> Result<
    (int, ChangelistRecord),
    ParseFailure,
> {
    let line = lines[at];
    let behind = at + 1 + block_len(lines, at + 1);
    if is_blank(line) || is_comment(line) {
        Ok((at + 1, record))
    } else {
        match key_of(key_text(line)) {
            Key::Other => Ok((at + 1, record)),
            Key::Description => Ok(
                (
                    behind,
                    ChangelistRecord {
                        description: Some(description_of(block_after(lines, at))),
                        ..record
                    },
                ),
            ),
            Key::Files => match files_of(block_after(lines, at)) {
                Ok(files) => Ok((behind, ChangelistRecord { files: Some(files), ..record })),
                Err(failure) => Err(failure),
            },
            key => match value_of(line) {
                Some(value) => match with_value(key, trim(value), record) {
                    Ok(next) => Ok((at + 1, next)),
                    Err(failure) => Err(failure),
                },
                None => Err(ParseFailure::MissingValue(line)),
            },
        }
    }
}

/// A block ends where the lines end, at the latest.
pub proof fn lemma_block_len(lines: Seq<Seq<char>>, from: int)
    requires
        0 <= from <= lines.len(),
    ensures
        from + block_len(lines, from) <= lines.len(),
        forall|i: int|
            from <= i < from + block_len(lines, from) ==> starts_with_tab(#[trigger] lines[i]),
        from + block_len(lines, from) < lines.len() ==> !starts_with_tab(
            lines[from + block_len(lines, from)],
        ),
{
    let rest = lines.skip(from);
    lemma_run(rest, tab_led());
    assert forall|i: int| from <= i < from + block_len(lines, from) implies starts_with_tab(
        #[trigger] lines[i],
    ) by {
        assert(tab_led()(rest[i - from]));
    }
    if from + block_len(lines, from) < lines.len() {
        assert(rest[block_len(lines, from) as int] == lines[from + block_len(lines, from)]);
    }
}

/// A step goes on behind the line it read, and not beyond the last line.
pub proof fn lemma_step_advances(lines: Seq<Seq<char>>, at: int, record: ChangelistRecord)
    requires
        0 <= at < lines.len(),
    ensures
        step(lines, at, record) matches Ok((next, _)) ==> at < next <= lines.len(),
{
    lemma_block_len(lines, at + 1);
}

/// The scan from the line at `at` on, begun with `record`: the record behind
/// the last line, or the first failure on the way.
pub open spec fn scan(lines: Seq<Seq<char>>, at: int, record: ChangelistRecord) -> Result<
    ChangelistRecord,
    ParseFailure,
>
    decreases lines.len() - at,
{
    if 0 <= at < lines.len() {
        match step(lines, at, record) {
            Ok((next, changed)) => {
                proof {
                    lemma_step_advances(lines, at, record);
                }
                scan(lines, next, changed)
            },
            Err(failure) => Err(failure),
        }
    } else {
        Ok(record)
    }
}

/// What a list of lines says.
pub open spec fn parse_lines(lines: Seq<Seq<char>>) -> Result<ChangelistRecord, ParseFailure> {
    scan(lines, 0, empty_record())
}

/// What a description says.
pub open spec fn parse_text(text: Seq<char>) -> Result<ChangelistRecord, ParseFailure> {
    parse_lines(lines_of(text))
}

/// Whether the first `len` characters of `chars` spell `name`.
fn has_name(chars: &Vec<char>, len: usize, name: &str) -> (b: bool)
    requires
        len <= chars.len(),
    ensures
        b == (chars@.take(len as int) == name@),
{
    if name.unicode_len() != len {
        return false;
    }
    let mut i: usize = 0;
    while i < len
        invariant
            i <= len <= chars.len(),
            len == name@.len(),
            forall|k: int| 0 <= k < i ==> chars[k] == name@[k],
        decreases len - i,
    {
        if chars[i] != name.get_char(i) {
            assert(chars@.take(len as int)[i as int] != name@[i as int]);
            return false;
        }
        i += 1;
    }
    assert(chars@.take(len as int) =~= name@);
    true
}

/// The key that the first `len` characters of `line` name.
pub fn classify(line: &Vec<char>, len: usize) -> (key: Key)
    requires
        len <= line.len(),
    ensures
        key == key_of(line@.take(len as int)),
{
    if has_name(line, len, "Change") {
        Key::Change
    } else if has_name(line, len, "Client") {
        Key::Client
    } else if has_name(line, len, "User") {
        Key::User
    } else if has_name(line, len, "Status") {
        Key::Status
    } else if has_name(line, len, "Description") {
        Key::Description
    } else if has_name(line, len, "Files") {
        Key::Files
    } else {
        Key::Other
    }
}

/// `chars[from..to]` as a string.
fn range_string(chars: &Vec<char>, from: usize, to: usize) -> (s: String)
    requires
        from <= to <= chars.len(),
    ensures
        s@ == chars@.subrange(from as int, to as int),
{
    let part = copy_range(chars, from, to);
    string_from_chars(&part)
}

/// `chars[from..to]`, trimmed, as a string.
fn trimmed_string(chars: &Vec<char>, from: usize, to: usize) -> (s: String)
    requires
        from <= to <= chars.len(),
    ensures
        s@ == trim(chars@.subrange(from as int, to as int)),
{
    let (first, last) = trim_bounds(chars, from, to);
    range_string(chars, first, last)
}

/// The description that the lines of a block hold.
pub fn describe(block: &Vec<Vec<char>>) -> (text: String)
    ensures
        text@ == description_of(contents(block@)),
{
    let mut parts: Vec<String> = Vec::new();
    let mut i: usize = 0;
    while i < block.len()
        invariant
            i <= block.len(),
            parts.len() == i,
            forall|k: int| 0 <= k < i ==> (#[trigger] parts[k])@ == trim(block[k]@),
        decreases block.len() - i,
    {
        let line = &block[i];
        assert(line@.subrange(0, line.len() as int) =~= line@);
        let part = trimmed_string(line, 0, line.len());
        parts.push(part);
        i += 1;
    }
    proof {
        reveal_strlit("\n");
        assert("\n"@ =~= seq!['\n']);
        assert(texts(parts@) =~= trimmed(contents(block@)));
    }
    join_strings(&parts, "\n")
}

/// The files that the lines of a block list.
pub fn read_files(block: &Vec<Vec<char>>) -> (files: Result<Vec<(String, String)>, ParseError>)
    ensures
        match files_of(contents(block@)) {
            Ok(entries) => files is Ok && pairs_of(files->Ok_0@) == entries,
            Err(failure) => files is Err && files->Err_0@ == failure,
        },
{
    let ghost lines = contents(block@);
    let mut files: Vec<(String, String)> = Vec::new();
    let mut i: usize = 0;
    while i < block.len()
        invariant
            i <= block.len(),
            files.len() == i,
            lines == contents(block@),
            forall|k: int| 0 <= k < i ==> has_action(#[trigger] lines[k]),
            forall|k: int|
                0 <= k < i ==> (#[trigger] files[k].0@, files[k].1@) == file_entry(lines[k]),
        decreases block.len() - i,
    {
        let line = &block[i];
        let end = line.len();
        assert(line@.subrange(0, end as int) =~= line@);
        let hash = find_char(line, 0, end, '#');
        if hash == end {
            proof {
                assert forall|k: int| 0 <= k < i implies with_action()(#[trigger] lines[k]) by {}
                assert(!with_action()(lines[i as int]));
                lemma_run_unique(lines, with_action(), i as nat);
            }
            return Err(ParseError::MissingAction(string_from_chars(line)));
        }
        assert(line@.subrange(0, hash as int) =~= line@.take(hash as int));
        assert(line@.subrange(hash + 1, end as int) =~= line@.skip(hash + 1));
        let path = trimmed_string(line, 0, hash);
        let action = trimmed_string(line, hash + 1, end);
        files.push((path, action));
        i += 1;
    }
    proof {
        assert forall|k: int| 0 <= k < lines.len() implies with_action()(#[trigger] lines[k]) by {}
        lemma_run_unique(lines, with_action(), lines.len());
        assert(pairs_of(files@) =~= Seq::new(
            lines.len(),
            |k: int| file_entry(lines[k]),
        ));
    }
    Ok(files)
}

/// Reads the line at `at` into `record` and says where the scan goes on.
/// A line that cannot be read leaves `record` as it was.
pub fn advance(
    lines: &Vec<Vec<char>>,
    at: usize,
    record: &mut P4ChangelistResult,
) -> (next: Result<usize, ParseError>)
    requires
        at < lines.len(),
    ensures
        match step(contents(lines@), at as int, old(record)@) {
            Ok((behind, changed)) => next is Ok && next->Ok_0 == behind && final(record)@
                == changed,
            Err(failure) => next is Err && next->Err_0@ == failure && final(record)@ == old(
                record,
            )@,
        },
{
    let ghost all = contents(lines@);
    let line = &lines[at];
    let end = line.len();
    if end == 0 || line[0] == '#' {
        return Ok(at + 1);
    }
    assert(line@.subrange(0, end as int) =~= line@);
    let colon = find_char(line, 0, end, ':');
    let key = classify(line, colon);
    match key {
        Key::Other => Ok(at + 1),
        Key::Description | Key::Files => {
            let block = take_tab_led(lines, at + 1);
            proof {
                let rest = all.skip(at + 1);
                assert forall|i: int| 0 <= i < block.len() implies tab_led()(
                    #[trigger] rest[i],
                ) by {
                    assert(rest[i] == contents(block@)[i]);
                }
                if block.len() < rest.len() {
                    assert(rest[block.len() as int] == lines[at + 1 + block.len()]@);
                }
                lemma_run_unique(rest, tab_led(), block.len() as nat);
                assert(block_after(all, at as int) == contents(block@));
            }
            match key {
                Key::Description => {
                    record.description = Some(describe(&block));
                    Ok(at + 1 + block.len())
                },
                _ => match read_files(&block) {
                    Ok(files) => {
                        record.files = Some(files);
                        Ok(at + 1 + block.len())
                    },
                    Err(failure) => Err(failure),
                },
            }
        },
        _ => {
            if colon == end {
                return Err(ParseError::MissingValue(string_from_chars(line)));
            }
            assert(line@.subrange(colon + 1, end as int) =~= line@.skip(colon + 1));
            let (first, last) = trim_bounds(line, colon + 1, end);
            match key {
                Key::Change => match parse_decimal(line, first, last) {
                    Some(number) => {
                        record.changelist = P4Changelist::Change(number);
                    },
                    None => {
                        return Err(ParseError::InvalidChange(range_string(line, first, last)));
                    },
                },
                Key::Client => {
                    record.client = Some(range_string(line, first, last));
                },
                Key::User => {
                    record.user = Some(range_string(line, first, last));
                },
                _ => {
                    record.status = Some(range_string(line, first, last));
                },
            }
            Ok(at + 1)
        },
    }
}

/// The mathematical content of the result of reading a description.
pub open spec fn outcome(result: Result<P4ChangelistResult, ParseError>) -> Result<
    ChangelistRecord,
    ParseFailure,
> {
    match result {
        Ok(record) => Ok(record@),
        Err(error) => Err(error@),
    }
}

impl P4ChangelistResult {
    /// Reads a changelist description.
    ///
    /// Gives the record that the description amounts to, or the first thing in
    /// it that cannot be read.
    pub fn try_from_text(source: &str) -> (result: Result<P4ChangelistResult, ParseError>)
        ensures
            outcome(result) == parse_text(source@),
    {
        let lines = split_lines(source);
        let mut record = P4ChangelistResult::new();
        let mut at: usize = 0;
        while at < lines.len()
            invariant
                at <= lines.len(),
                scan(contents(lines@), at as int, record@) == parse_text(source@),
            decreases lines.len() - at,
        {
            proof {
                lemma_step_advances(contents(lines@), at as int, record@);
            }
            match advance(&lines, at, &mut record) {
                Ok(next) => {
                    at = next;
                },
                Err(error) => {
                    return Err(error);
                },
            }
        }
        Ok(record)
    }

    /// Reads a changelist description that is known to be readable.
    pub fn from_text(source: &str) -> (record: P4ChangelistResult)
        requires
            parse_text(source@) is Ok,
        ensures
            Ok::<ChangelistRecord, ParseFailure>(record@) == parse_text(source@),
    {
        P4ChangelistResult::try_from_text(source).unwrap()
    }
}

} // verus!
