//! The calls that leave this crate. Verus takes the contracts in this file
//! on faith: each one restates what the called function is documented to do.

use crate::text::{contents, has_leading_tab, join, starts_with_tab, texts};
use itertools::Itertools;
use vstd::prelude::*;

verus! {

/// `Itertools::take_while_ref`, on the lines from `start` on, with
/// [`has_leading_tab`] as the predicate.
///
/// The adaptor hands out items for as long as the predicate accepts them and
/// leaves the first rejected item, and all behind it, in the iterator. So the
/// result is assumed to be a copy of the lines from `start` up to, and
/// without, the first one that does not begin with a tab, or up to the end if
/// all of them do.
#[verifier::external_body]
pub(crate) fn take_tab_led(lines: &Vec<Vec<char>>, start: usize) -> (taken: Vec<Vec<char>>)
    requires
        start <= lines.len(),
    ensures
        start + taken.len() <= lines.len(),
        contents(taken@) == contents(lines@).subrange(start as int, start + taken.len()),
        forall|i: int| 0 <= i < taken.len() ==> starts_with_tab(#[trigger] taken[i]@),
        start + taken.len() < lines.len() ==> !starts_with_tab(lines[start + taken.len()]@),
{
    let mut rest = lines[start..].iter();
    rest.take_while_ref(|line| has_leading_tab(line)).cloned().collect()
}

/// `Itertools::join`, on the strings of `parts`.
///
/// It writes the items one after the other with `sep` between each two, and
/// gives the empty string for no items. A `String` is written as its own
/// text, so the result is assumed to be [`join`] of the texts.
#[verifier::external_body]
pub(crate) fn join_strings(parts: &Vec<String>, sep: &str) -> (joined: String)
    ensures
        joined@ == join(texts(parts@), sep@),
{
    parts.iter().join(sep)
}

/// `String::from_iter`, on the characters of `chars`.
///
/// The string is assumed to hold those characters, in their order.
#[verifier::external_body]
pub(crate) fn string_from_chars(chars: &Vec<char>) -> (s: String)
    ensures
        s@ == chars@,
{
    String::from_iter(chars.iter())
}

} // verus!
