//! Text as sequences of characters: runs, whitespace, trimming, splitting
//! and decimal numbers.

use vstd::prelude::*;

verus! {

/// The length of the longest prefix of `s` whose elements all satisfy `p`.
pub open spec fn run<T>(s: Seq<T>, p: spec_fn(T) -> bool) -> nat
    decreases s.len(),
{
    if s.len() > 0 && p(s[0]) {
        1 + run(s.drop_first(), p)
    } else {
        0
    }
}

/// A run stays inside the sequence, holds only elements that satisfy `p`,
/// and is followed by one that does not, if by any.
pub proof fn lemma_run<T>(s: Seq<T>, p: spec_fn(T) -> bool)
    ensures
        run(s, p) <= s.len(),
        forall|i: int| 0 <= i < run(s, p) ==> p(#[trigger] s[i]),
        run(s, p) < s.len() ==> !p(s[run(s, p) as int]),
    decreases s.len(),
{
    if s.len() > 0 && p(s[0]) {
        let rest = s.drop_first();
        lemma_run(rest, p);
        assert forall|i: int| 0 <= i < run(s, p) implies p(#[trigger] s[i]) by {
            if i > 0 {
                assert(s[i] == rest[i - 1]);
            }
        }
        if run(s, p) < s.len() {
            assert(s[run(s, p) as int] == rest[run(rest, p) as int]);
        }
    }
}

/// Whatever length has the two properties of a run is the run.
pub proof fn lemma_run_unique<T>(s: Seq<T>, p: spec_fn(T) -> bool, k: nat)
    requires
        k <= s.len(),
        forall|i: int| 0 <= i < k ==> p(#[trigger] s[i]),
        k < s.len() ==> !p(s[k as int]),
    ensures
        run(s, p) == k,
    decreases s.len(),
{
    if k > 0 {
        let rest = s.drop_first();
        assert(p(s[0]));
        assert forall|i: int| 0 <= i < k - 1 implies p(#[trigger] rest[i]) by {
            assert(rest[i] == s[i + 1]);
        }
        if k < s.len() {
            assert(rest[k - 1] == s[k as int]);
        }
        lemma_run_unique(rest, p, (k - 1) as nat);
    }
}

/// Whether `c` has the Unicode property `White_Space`.
pub open spec fn is_whitespace(c: char) -> bool {
    let n = c as u32;
    ||| 0x09 <= n <= 0x0d
    ||| n == 0x20
    ||| n == 0x85
    ||| n == 0xa0
    ||| n == 0x1680
    ||| 0x2000 <= n <= 0x200a
    ||| n == 0x2028
    ||| n == 0x2029
    ||| n == 0x202f
    ||| n == 0x205f
    ||| n == 0x3000
}

/// The predicate of [`is_whitespace`], as a value.
pub open spec fn whitespace() -> spec_fn(char) -> bool {
    |c: char| is_whitespace(c)
}

/// `s` without its leading whitespace.
pub open spec fn trim_start(s: Seq<char>) -> Seq<char> {
    s.skip(run(s, whitespace()) as int)
}

/// `s` without its trailing whitespace.
pub open spec fn trim_end(s: Seq<char>) -> Seq<char> {
    s.take(s.len() - run(s.reverse(), whitespace()))
}

/// `s` without the whitespace at either end.
pub open spec fn trim(s: Seq<char>) -> Seq<char> {
    trim_end(trim_start(s))
}

/// Decides [`is_whitespace`].
pub fn char_is_whitespace(c: char) -> (b: bool)
    ensures
        b == is_whitespace(c),
{
    let n: u32 = c as u32;
    (0x09 <= n && n <= 0x0d) || n == 0x20 || n == 0x85 || n == 0xa0 || n == 0x1680 || (0x2000 <= n
        && n <= 0x200a) || n == 0x2028 || n == 0x2029 || n == 0x202f || n == 0x205f || n == 0x3000
}

/// A copy of `chars[from..to]`.
pub fn copy_range(chars: &Vec<char>, from: usize, to: usize) -> (out: Vec<char>)
    requires
        from <= to <= chars.len(),
    ensures
        out@ == chars@.subrange(from as int, to as int),
{
    let mut out: Vec<char> = Vec::new();
    let mut i: usize = from;
    while i < to
        invariant
            from <= i <= to <= chars.len(),
            out@ == chars@.subrange(from as int, i as int),
        decreases to - i,
    {
        out.push(chars[i]);
        i += 1;
    }
    out
}

/// The bounds of what [`trim`] keeps of `chars[from..to]`: behind its
/// leading whitespace and before its trailing whitespace. Where all of it is
/// whitespace, both bounds are `to`.
pub fn trim_bounds(chars: &Vec<char>, from: usize, to: usize) -> (kept: (usize, usize))
    requires
        from <= to <= chars.len(),
    ensures
        from <= kept.0 <= kept.1 <= to,
        kept.0 - from == run(chars@.subrange(from as int, to as int), whitespace()),
        chars@.subrange(kept.0 as int, kept.1 as int) == trim(
            chars@.subrange(from as int, to as int),
        ),
{
    let ghost whole = chars@.subrange(from as int, to as int);
    let mut a: usize = from;
    while a < to && char_is_whitespace(chars[a])
        invariant
            from <= a <= to <= chars.len(),
            forall|i: int| from <= i < a ==> is_whitespace(#[trigger] chars[i]),
        decreases to - a,
    {
        a += 1;
    }
    let ghost rest = chars@.subrange(a as int, to as int);
    proof {
        assert forall|i: int| 0 <= i < a - from implies whitespace()(#[trigger] whole[i]) by {
            assert(whole[i] == chars[from + i]);
        }
        lemma_run_unique(whole, whitespace(), (a - from) as nat);
        assert(trim_start(whole) =~= rest);
    }
    let mut b: usize = to;
    while a < b && char_is_whitespace(chars[b - 1])
        invariant
            a <= b <= to <= chars.len(),
            forall|i: int| b <= i < to ==> is_whitespace(#[trigger] chars[i]),
        decreases b - a,
    {
        b -= 1;
    }
    proof {
        let back = rest.reverse();
        assert forall|i: int| 0 <= i < to - b implies whitespace()(#[trigger] back[i]) by {
            assert(back[i] == chars[to - 1 - i]);
        }
        if to - b < back.len() {
            assert(back[to - b] == chars[b - 1]);
        }
        lemma_run_unique(back, whitespace(), (to - b) as nat);
        assert(trim_end(rest) =~= chars@.subrange(a as int, b as int));
    }
    (a, b)
}

/// The predicate "is not `c`", as a value.
pub open spec fn other_than(c: char) -> spec_fn(char) -> bool {
    |x: char| x != c
}

/// The index of the first `c` in `s`, or the length of `s` if it holds none.
pub open spec fn find(s: Seq<char>, c: char) -> nat {
    run(s, other_than(c))
}

/// The index of the first `c` in `chars[from..to]`, counted from the start
/// of `chars`, or `to` if that range holds none.
pub fn find_char(chars: &Vec<char>, from: usize, to: usize, c: char) -> (at: usize)
    requires
        from <= to <= chars.len(),
    ensures
        from <= at <= to,
        at - from == find(chars@.subrange(from as int, to as int), c),
{
    let mut at: usize = from;
    while at < to && chars[at] != c
        invariant
            from <= at <= to <= chars.len(),
            forall|i: int| from <= i < at ==> chars[i] != c,
        decreases to - at,
    {
        at += 1;
    }
    proof {
        let part = chars@.subrange(from as int, to as int);
        assert forall|i: int| 0 <= i < at - from implies other_than(c)(#[trigger] part[i]) by {
            assert(part[i] == chars[from + i]);
        }
        if at < to {
            assert(part[at - from] == chars[at as int]);
        }
        lemma_run_unique(part, other_than(c), (at - from) as nat);
    }
    at
}

/// The pieces of `s` between its occurrences of `sep`: one more piece than
/// there are occurrences, so at least one, and empty ones are kept.
pub open spec fn split(s: Seq<char>, sep: char) -> Seq<Seq<char>>
    decreases s.len(),
{
    let k = find(s, sep) as int;
    if k < s.len() {
        seq![s.take(k)] + split(s.skip(k + 1), sep)
    } else {
        seq![s]
    }
}

/// The lines of a text: its pieces between line feeds.
pub open spec fn lines_of(text: Seq<char>) -> Seq<Seq<char>> {
    split(text, '\n')
}

/// The content of each line of a list of lines.
pub open spec fn contents(lines: Seq<Vec<char>>) -> Seq<Seq<char>> {
    Seq::new(lines.len(), |i: int| lines[i]@)
}

/// `parts` with `sep` between each two neighbours.
pub open spec fn join(parts: Seq<Seq<char>>, sep: Seq<char>) -> Seq<char>
    decreases parts.len(),
{
    if parts.len() == 0 {
        Seq::empty()
    } else if parts.len() == 1 {
        parts[0]
    } else {
        join(parts.drop_last(), sep) + sep + parts.last()
    }
}

/// Where the first `sep` of `s` stands, there the first piece ends and the
/// rest is split in turn.
pub proof fn lemma_split_at_first(s: Seq<char>, sep: char, k: int)
    requires
        0 <= k < s.len(),
        s[k] == sep,
        forall|i: int| 0 <= i < k ==> s[i] != sep,
    ensures
        find(s, sep) == k,
        split(s, sep) == seq![s.take(k)] + split(s.skip(k + 1), sep),
{
    assert forall|i: int| 0 <= i < k implies other_than(sep)(#[trigger] s[i]) by {}
    lemma_run_unique(s, other_than(sep), k as nat);
}

/// A sequence without `sep` is its own single piece.
pub proof fn lemma_split_without(s: Seq<char>, sep: char)
    requires
        forall|i: int| 0 <= i < s.len() ==> s[i] != sep,
    ensures
        find(s, sep) == s.len(),
        split(s, sep) == seq![s],
{
    assert forall|i: int| 0 <= i < s.len() implies other_than(sep)(#[trigger] s[i]) by {}
    lemma_run_unique(s, other_than(sep), s.len());
}

/// The lines of `source`, each as the list of its characters.
pub fn split_lines(source: &str) -> (lines: Vec<Vec<char>>)
    ensures
        contents(lines@) == lines_of(source@),
{
    let mut lines: Vec<Vec<char>> = Vec::new();
    let mut current: Vec<char> = Vec::new();
    let ghost mut start: int = 0;
    proof {
        assert(source@.skip(0) =~= source@);
        assert(contents(lines@) + lines_of(source@) =~= lines_of(source@));
    }
    for c in it: source.chars()
        invariant
            it.seq() == source@,
            0 <= start <= it.index() <= source@.len(),
            current@ == source@.subrange(start, it.index() as int),
            forall|i: int| start <= i < it.index() ==> source@[i] != '\n',
            contents(lines@) + split(source@.skip(start), '\n') == lines_of(source@),
    {
        if c == '\n' {
            proof {
                let at = it.index() as int;
                let rest = source@.skip(start);
                assert forall|i: int| 0 <= i < at - start implies rest[i] != '\n' by {
                    assert(rest[i] == source@[start + i]);
                }
                assert(rest[at - start] == source@[at]);
                lemma_split_at_first(rest, '\n', at - start);
                assert(rest.take(at - start) =~= current@);
                assert(rest.skip(at - start + 1) =~= source@.skip(at + 1));
                assert(contents(lines@.push(current)) =~= contents(lines@) + seq![current@]);
                assert(contents(lines@.push(current)) + split(source@.skip(at + 1), '\n')
                    =~= contents(lines@) + split(rest, '\n'));
                start = at + 1;
            }
            lines.push(current);
            current = Vec::new();
        } else {
            current.push(c);
        }
    }
    proof {
        let rest = source@.skip(start);
        assert forall|i: int| 0 <= i < rest.len() implies rest[i] != '\n' by {
            assert(rest[i] == source@[start + i]);
        }
        lemma_split_without(rest, '\n');
        assert(rest =~= current@);
        assert(contents(lines@.push(current)) =~= contents(lines@) + seq![current@]);
    }
    lines.push(current);
    lines
}

/// Whether `c` is one of the ten decimal digits of ASCII.
pub open spec fn is_digit(c: char) -> bool {
    0x30 <= c as u32 <= 0x39
}

/// The number that the digit `c` stands for.
pub open spec fn digit_value(c: char) -> nat {
    (c as u32 - 0x30) as nat
}

/// The number that a sequence of decimal digits denotes; 0 for none.
pub open spec fn decimal_value(digits: Seq<char>) -> nat
    decreases digits.len(),
{
    if digits.len() == 0 {
        0
    } else {
        10 * decimal_value(digits.drop_last()) + digit_value(digits.last())
    }
}

/// `s` without one leading plus sign.
pub open spec fn unsigned_part(s: Seq<char>) -> Seq<char> {
    if s.len() > 0 && s[0] == '+' {
        s.skip(1)
    } else {
        s
    }
}

/// The 32-bit unsigned number that `s` denotes: an optional plus sign, then
/// at least one decimal digit and nothing else, the value within range.
pub open spec fn parse_u32(s: Seq<char>) -> Option<u32> {
    let digits = unsigned_part(s);
    if digits.len() > 0 && (forall|i: int| 0 <= i < digits.len() ==> is_digit(#[trigger] digits[i]))
        && decimal_value(digits) <= u32::MAX {
        Some(decimal_value(digits) as u32)
    } else {
        None
    }
}

/// More digits never denote less.
pub proof fn lemma_decimal_value_grows(digits: Seq<char>, n: int)
    requires
        0 <= n <= digits.len(),
    ensures
        decimal_value(digits.take(n)) <= decimal_value(digits),
    decreases digits.len() - n,
{
    if n < digits.len() {
        lemma_decimal_value_grows(digits, n + 1);
        assert(digits.take(n + 1).drop_last() =~= digits.take(n));
    } else {
        assert(digits.take(n) =~= digits);
    }
}

/// The number that `chars[from..to]` denotes, as [`parse_u32`] reads it.
pub fn parse_decimal(chars: &Vec<char>, from: usize, to: usize) -> (number: Option<u32>)
    requires
        from <= to <= chars.len(),
    ensures
        number == parse_u32(chars@.subrange(from as int, to as int)),
{
    let ghost whole = chars@.subrange(from as int, to as int);
    let first: usize = if from < to && chars[from] == '+' {
        from + 1
    } else {
        from
    };
    let ghost digits = chars@.subrange(first as int, to as int);
    proof {
        if from < to {
            assert(whole[0] == chars[from as int]);
        }
        assert(unsigned_part(whole) =~= digits);
    }
    if first == to {
        return None;
    }
    let mut value: u64 = 0;
    let mut i: usize = first;
    while i < to
        invariant
            from <= first <= i <= to <= chars.len(),
            digits == chars@.subrange(first as int, to as int),
            digits == unsigned_part(chars@.subrange(from as int, to as int)),
            forall|k: int| 0 <= k < i - first ==> is_digit(#[trigger] digits[k]),
            value == decimal_value(digits.take(i - first)),
            value <= u32::MAX,
        decreases to - i,
    {
        let code: u32 = chars[i] as u32;
        proof {
            assert(digits[i - first] == chars[i as int]);
            assert(digits.take(i - first + 1).drop_last() =~= digits.take(i - first));
            assert(digits.take(i - first + 1).last() == chars[i as int]);
        }
        if code < 0x30 || code > 0x39 {
            assert(!is_digit(digits[i - first]));
            return None;
        }
        let next: u64 = 10 * value + (code - 0x30) as u64;
        if next > u32::MAX as u64 {
            proof {
                lemma_decimal_value_grows(digits, i - first + 1);
            }
            return None;
        }
        value = next;
        i += 1;
    }
    proof {
        assert(digits.take(to - first) =~= digits);
    }
    Some(value as u32)
}

/// Whether a line begins with a tab character.
pub open spec fn starts_with_tab(line: Seq<char>) -> bool {
    line.len() > 0 && line[0] == '\t'
}

/// The predicate of [`starts_with_tab`], as a value.
pub open spec fn tab_led() -> spec_fn(Seq<char>) -> bool {
    |line: Seq<char>| starts_with_tab(line)
}

/// Decides [`starts_with_tab`].
pub fn has_leading_tab(line: &Vec<char>) -> (b: bool)
    ensures
        b == starts_with_tab(line@),
{
    line.len() > 0 && line[0] == '\t'
}

/// The content of each string of a list.
pub open spec fn texts(parts: Seq<String>) -> Seq<Seq<char>> {
    Seq::new(parts.len(), |i: int| parts[i]@)
}

/// The character of the digit `d`, for `d` below ten.
pub open spec fn digit_char(d: nat) -> char {
    ((0x30 + d) as u8) as char
}

/// The decimal digits of `n`, without leading zeros.
pub open spec fn decimal(n: nat) -> Seq<char>
    decreases n,
{
    if n < 10 {
        seq![digit_char(n)]
    } else {
        decimal(n / 10).push(digit_char(n % 10))
    }
}

/// What [`decimal`] writes, [`parse_u32`] reads back.
pub proof fn law_decimal_parses(n: nat)
    ensures
        decimal(n).len() > 0,
        forall|i: int| 0 <= i < decimal(n).len() ==> is_digit(#[trigger] decimal(n)[i]),
        decimal_value(decimal(n)) == n,
        n <= u32::MAX ==> parse_u32(decimal(n)) == Some(n as u32),
    decreases n,
{
    let last = digit_char(n % 10);
    assert(last as u32 == 0x30 + n % 10);
    assert(digit_value(last) == n % 10);
    assert(decimal(n).last() == last);
    if n >= 10 {
        law_decimal_parses(n / 10);
        assert(decimal(n).drop_last() =~= decimal(n / 10));
        assert(decimal(n)[0] == decimal(n / 10)[0]);
    } else {
        assert(decimal(n).drop_last() =~= Seq::<char>::empty());
        assert(decimal_value(decimal(n).drop_last()) == 0);
    }
    assert(is_digit(decimal(n)[0]));
    assert(unsigned_part(decimal(n)) == decimal(n));
}

/// Appends the decimal digits of `n` to `out`.
pub fn push_decimal(n: u32, out: &mut Vec<char>)
    ensures
        final(out)@ == old(out)@ + decimal(n as nat),
    decreases n,
{
    if n >= 10 {
        push_decimal(n / 10, out);
    }
    let digit: u8 = (n % 10) as u8;
    out.push((0x30 + digit) as char);
}

/// What [`trim`] keeps is one stretch of `s`. All before it and all behind
/// it is whitespace, and neither its first nor its last character is.
pub proof fn law_trim(s: Seq<char>)
    ensures
        run(s, whitespace()) + trim(s).len() <= s.len(),
        trim(s) == s.subrange(
            run(s, whitespace()) as int,
            (run(s, whitespace()) + trim(s).len()) as int,
        ),
        forall|i: int| 0 <= i < run(s, whitespace()) ==> is_whitespace(#[trigger] s[i]),
        forall|i: int|
            run(s, whitespace()) + trim(s).len() <= i < s.len() ==> is_whitespace(#[trigger] s[i]),
        trim(s).len() > 0 ==> !is_whitespace(trim(s).first()) && !is_whitespace(trim(s).last()),
{
    let lead = run(s, whitespace()) as int;
    lemma_run(s, whitespace());
    let rest = s.skip(lead);
    let back = rest.reverse();
    let trail = run(back, whitespace()) as int;
    lemma_run(back, whitespace());
    let kept = trim(s);
    assert(kept == rest.take(rest.len() - trail));
    assert(kept =~= s.subrange(lead, lead + kept.len()));
    assert forall|i: int| 0 <= i < lead implies is_whitespace(#[trigger] s[i]) by {
        assert(whitespace()(s[i]));
    }
    assert forall|i: int| lead + kept.len() <= i < s.len() implies is_whitespace(
        #[trigger] s[i],
    ) by {
        let j = s.len() - 1 - i;
        assert(whitespace()(back[j]));
        assert(back[j] == rest[rest.len() - 1 - j]);
    }
    if kept.len() > 0 {
        assert(kept.first() == s[lead]);
        assert(kept.last() == back[trail]);
    }
}

/// A list that begins with `first` and goes on with at least one more part
/// joins to `first`, the separator, and the rest joined.
pub proof fn lemma_join_first(first: Seq<char>, rest: Seq<Seq<char>>, sep: Seq<char>)
    requires
        rest.len() > 0,
    ensures
        join(seq![first] + rest, sep) == first + sep + join(rest, sep),
    decreases rest.len(),
{
    let all = seq![first] + rest;
    assert(all.last() == rest.last());
    assert(all.drop_last() =~= seq![first] + rest.drop_last());
    if rest.len() == 1 {
        assert(all.drop_last() =~= seq![first]);
        assert(join(all.drop_last(), sep) == first);
    } else {
        lemma_join_first(first, rest.drop_last(), sep);
        assert(join(all, sep) =~= first + sep + join(rest, sep));
    }
}

/// Splitting gives at least one piece, no piece holds the separator, and
/// the pieces joined by the separator are the sequence again.
pub proof fn law_split(s: Seq<char>, sep: char)
    ensures
        split(s, sep).len() >= 1,
        forall|i: int, j: int|
            0 <= i < split(s, sep).len() && 0 <= j < split(s, sep)[i].len() ==> split(
                s,
                sep,
            )[i][j] != sep,
        join(split(s, sep), seq![sep]) == s,
    decreases s.len(),
{
    let k = find(s, sep) as int;
    lemma_run(s, other_than(sep));
    assert forall|j: int| 0 <= j < k implies s[j] != sep by {
        assert(other_than(sep)(s[j]));
    }
    if k < s.len() {
        let head = s.take(k);
        let tail = split(s.skip(k + 1), sep);
        law_split(s.skip(k + 1), sep);
        lemma_join_first(head, tail, seq![sep]);
        assert(head + seq![sep] + s.skip(k + 1) =~= s);
        assert forall|i: int, j: int|
            0 <= i < split(s, sep).len() && 0 <= j < split(s, sep)[i].len() implies split(
            s,
            sep,
        )[i][j] != sep by {
            if i > 0 {
                assert(split(s, sep)[i] == tail[i - 1]);
            }
        }
    }
}

} // verus!
