//! Cleaning up the words of a command line before they are read.
//!
//! A parameter may be quoted together with its neighbours, and may hold blanks
//! around `,`, `=`, `(` and `)`. Repairing drops those blanks and then splits the
//! words at the blanks that are left.

use vstd::prelude::*;

use crate::text::{join_strings, joined, views};

verus! {

/// Matches the whitespace before one of `,=()`, with that character as its group.
pub const WHITESPACE_BEFORE: &'static str = r"\s+([,=()])";

/// Matches the whitespace after one of `,=(`, with that character as its group.
///
/// `)` is not among them: what follows a closing bracket after a blank is the next
/// parameter, and must not be glued to the bracket.
pub const WHITESPACE_AFTER: &'static str = r"([,=(])\s+";

/// Matches the whitespace between two parameters.
pub const WHITESPACE: &'static str = r"\s+";

/// Replaces a match by its first group.
pub const FIRST_GROUP: &'static str = "$1";

/// A blank between two words.
pub const BLANK: &'static str = " ";

/// The characters with the Unicode property `White_Space`.
pub open spec fn is_space(c: char) -> bool {
    ||| '\t' <= c <= '\r'
    ||| c == ' '
    ||| c == '\u{85}'
    ||| c == '\u{a0}'
    ||| c == '\u{1680}'
    ||| '\u{2000}' <= c <= '\u{200a}'
    ||| '\u{2028}' <= c <= '\u{2029}'
    ||| c == '\u{202f}'
    ||| c == '\u{205f}'
    ||| c == '\u{3000}'
}

/// The characters that take no whitespace before them.
pub open spec fn closes(c: char) -> bool {
    c == ',' || c == '=' || c == '(' || c == ')'
}

/// The characters that take no whitespace after them.
pub open spec fn opens(c: char) -> bool {
    c == ',' || c == '=' || c == '('
}

/// Whether the first character of `s` that is not whitespace takes none before it.
pub open spec fn leads_to_closing(s: Seq<char>) -> bool
    decreases s.len(),
{
    s.len() > 0 && if is_space(s[0]) {
        leads_to_closing(s.drop_first())
    } else {
        closes(s[0])
    }
}

/// `s` without the whitespace that stands directly before one of `,=()`.
pub open spec fn without_space_before(s: Seq<char>) -> Seq<char>
    decreases s.len(),
{
    if s.len() == 0 {
        s
    } else if is_space(s[0]) && leads_to_closing(s) {
        without_space_before(s.drop_first())
    } else {
        seq![s[0]] + without_space_before(s.drop_first())
    }
}

/// `s` without the whitespace that stands directly after one of `,=(`, where
/// `after_opening` says whether such a character, followed by nothing but
/// whitespace, stands right before `s`.
pub open spec fn without_space_after(s: Seq<char>, after_opening: bool) -> Seq<char>
    decreases s.len(),
{
    if s.len() == 0 {
        s
    } else if !is_space(s[0]) {
        seq![s[0]] + without_space_after(s.drop_first(), opens(s[0]))
    } else if after_opening {
        without_space_after(s.drop_first(), true)
    } else {
        seq![s[0]] + without_space_after(s.drop_first(), false)
    }
}

/// How many characters at the start of `s` are not whitespace.
pub open spec fn word_len(s: Seq<char>) -> nat
    decreases s.len(),
{
    if s.len() == 0 || is_space(s[0]) {
        0
    } else {
        1 + word_len(s.drop_first())
    }
}

/// `s` without the whitespace at its start.
pub open spec fn trimmed(s: Seq<char>) -> Seq<char>
    decreases s.len(),
{
    if s.len() > 0 && is_space(s[0]) {
        trimmed(s.drop_first())
    } else {
        s
    }
}

/// The pieces of `s` between its runs of whitespace. A run at the start or at the
/// end of `s` has an empty piece beside it.
pub open spec fn split_at_space(s: Seq<char>) -> Seq<Seq<char>>
    decreases s.len(),
    via split_at_space_decreases
{
    if word_len(s) >= s.len() {
        seq![s]
    } else {
        seq![s.take(word_len(s) as int)] + split_at_space(trimmed(s.skip(word_len(s) as int)))
    }
}

#[via_fn]
proof fn split_at_space_decreases(s: Seq<char>) {
    if word_len(s) < s.len() {
        lemma_word_len(s);
        lemma_trimmed(s.skip(word_len(s) as int).drop_first());
    }
}

/// The words that a list of arguments is repaired to.
pub open spec fn repaired(args: Seq<Seq<char>>) -> Seq<Seq<char>> {
    split_at_space(
        without_space_after(without_space_before(joined(args, BLANK@)), false),
    )
}

/// Calls `regex::Regex::replace_all` with the regex `pattern`.
///
/// Of the two patterns it is called with, every match is a maximal run of
/// whitespace (`\s` is the Unicode property `White_Space`) together with the
/// character before or after it, which the replacement puts back. So all that
/// changes is that this whitespace is gone.
#[verifier::external_body]
fn replace_all(pattern: &str, haystack: &str, replacement: &str) -> (replaced: String)
    requires
        pattern@ == WHITESPACE_BEFORE@ || pattern@ == WHITESPACE_AFTER@,
        replacement@ == FIRST_GROUP@,
    ensures
        pattern@ == WHITESPACE_BEFORE@ ==> replaced@ == without_space_before(haystack@),
        pattern@ == WHITESPACE_AFTER@ ==> replaced@ == without_space_after(haystack@, false),
{
    regex::Regex::new(pattern).unwrap().replace_all(haystack, replacement).into_owned()
}

/// Calls `regex::Regex::split` with the regex `pattern`, which matches the maximal
/// runs of whitespace: it yields the parts of the haystack between them, the part
/// before the first and the part after the last among them, also where empty.
#[verifier::external_body]
fn split(pattern: &str, haystack: &str) -> (parts: Vec<String>)
    requires
        pattern@ == WHITESPACE@,
    ensures
        views(parts@) == split_at_space(haystack@),
{
    regex::Regex::new(pattern).unwrap().split(haystack).map(str::to_owned).collect()
}

/// Removes the unnecessary whitespace from the arguments, and then splits the
/// arguments that contain whitespace.
///
/// `read -rate 'threads=80 throttle=8000/s'` has three arguments; repaired, it has
/// the four words `read`, `-rate`, `threads=80` and `throttle=8000/s`.
pub fn repair_params(args: &Vec<String>) -> (words: Vec<String>)
    ensures
        views(words@) == repaired(views(args@)),
{
    let line = join_strings(args, BLANK);
    let line = replace_all(WHITESPACE_BEFORE, line.as_str(), FIRST_GROUP);
    let line = replace_all(WHITESPACE_AFTER, line.as_str(), FIRST_GROUP);
    split(WHITESPACE, line.as_str())
}

pub(crate) proof fn lemma_word_len(s: Seq<char>)
    ensures
        word_len(s) <= s.len(),
        forall|i: int| 0 <= i < word_len(s) ==> !is_space(#[trigger] s[i]),
        word_len(s) < s.len() ==> is_space(s[word_len(s) as int]),
    decreases s.len(),
{
    if s.len() > 0 && !is_space(s[0]) {
        let rest = s.drop_first();
        lemma_word_len(rest);
        assert forall|i: int| 0 <= i < word_len(s) implies !is_space(#[trigger] s[i]) by {
            if i > 0 {
                assert(!is_space(rest[i - 1]));
            }
        }
    }
}

proof fn lemma_trimmed(s: Seq<char>)
    ensures
        trimmed(s).len() <= s.len(),
        trimmed(s).len() > 0 ==> !is_space(trimmed(s)[0]),
    decreases s.len(),
{
    if s.len() > 0 && is_space(s[0]) {
        lemma_trimmed(s.drop_first());
    }
}

} // verus!
