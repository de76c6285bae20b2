//! What holds of every repaired command line.

use vstd::prelude::*;

use crate::repair::{
    closes, is_space, leads_to_closing, lemma_word_len, opens, repaired, split_at_space, trimmed,
    without_space_after, without_space_before, word_len, BLANK,
};
use crate::text::{joined, lemma_joined_add};

verus! {

/// Whether `s` holds no whitespace.
pub open spec fn has_no_space(s: Seq<char>) -> bool {
    forall|i: int| 0 <= i < s.len() ==> !is_space(#[trigger] s[i])
}

/// Whether one word may stand after another as a word of its own: the first does
/// not end, and the second does not start, with a character that takes no
/// whitespace on that side.
pub open spec fn stand_apart(word: Seq<char>, next: Seq<char>) -> bool {
    &&& word.len() > 0 ==> !opens(word.last())
    &&& next.len() > 0 ==> !closes(next[0])
}

/// Whether there is nothing to repair in `words`.
pub open spec fn is_settled(words: Seq<Seq<char>>) -> bool {
    &&& words.len() > 0
    &&& forall|i: int| 0 <= i < words.len() ==> has_no_space(#[trigger] words[i])
    &&& forall|i: int| 0 < i < words.len() - 1 ==> (#[trigger] words[i]).len() > 0
    &&& forall|i: int, j: int|
        #![trigger words[i], words[j]]
        0 <= i < words.len() - 1 && j == i + 1 ==> stand_apart(words[i], words[j])
}

/// The characters of `s` that are not whitespace.
pub open spec fn solid(s: Seq<char>) -> Seq<char>
    decreases s.len(),
{
    if s.len() == 0 {
        s
    } else if is_space(s[0]) {
        solid(s.drop_first())
    } else {
        seq![s[0]] + solid(s.drop_first())
    }
}

/// The characters of all words, one word after the other.
pub open spec fn characters(words: Seq<Seq<char>>) -> Seq<char>
    decreases words.len(),
{
    if words.len() == 0 {
        Seq::empty()
    } else {
        words[0] + characters(words.drop_first())
    }
}

/// Repairing gives at least one word; no word holds whitespace; at most the first
/// and the last are empty; and none ends or starts where it should have been glued
/// to its neighbour.
pub proof fn law_repaired_is_settled(args: Seq<Seq<char>>)
    ensures
        is_settled(repaired(args)),
{
    let line = without_space_before(joined(args, BLANK@));
    lemma_before_is_clean(joined(args, BLANK@));
    lemma_after_is_clean(line, false);
    lemma_split_is_settled(without_space_after(line, false), false);
}

/// Words in which there is nothing to repair are left as they are.
pub proof fn law_settled_words_are_kept(words: Seq<Seq<char>>)
    requires
        is_settled(words),
    ensures
        repaired(words) == words,
{
    lemma_settled_line(words);
}

/// Repairing what was repaired changes nothing.
pub proof fn law_repairing_is_idempotent(args: Seq<Seq<char>>)
    ensures
        repaired(repaired(args)) == repaired(args),
{
    law_repaired_is_settled(args);
    law_settled_words_are_kept(repaired(args));
}

/// Repairing touches nothing but whitespace: the other characters are all there
/// afterwards, in their order.
pub proof fn law_only_whitespace_changes(args: Seq<Seq<char>>)
    ensures
        characters(repaired(args)) == solid(characters(args)),
{
    let line = joined(args, BLANK@);
    lemma_solid_joined(args);
    lemma_solid_before(line);
    lemma_solid_after(without_space_before(line), false);
    lemma_characters_of_split(without_space_after(without_space_before(line), false));
}

/// Quoting is undone: arguments that were quoted together, and so came as one, are
/// read as if they had come one by one.
pub proof fn law_quoting_is_undone(
    before: Seq<Seq<char>>,
    quoted: Seq<Seq<char>>,
    after: Seq<Seq<char>>,
)
    requires
        quoted.len() > 0,
    ensures
        repaired(before + seq![joined(quoted, BLANK@)] + after) == repaired(
            before + quoted + after,
        ),
{
    let one = seq![joined(quoted, BLANK@)];
    assert(joined(one, BLANK@) == joined(quoted, BLANK@));
    if before.len() > 0 {
        lemma_joined_add(before, one, BLANK@);
        lemma_joined_add(before, quoted, BLANK@);
    } else {
        assert(before + one =~= one);
        assert(before + quoted =~= quoted);
    }
    assert(joined(before + one, BLANK@) == joined(before + quoted, BLANK@));
    if after.len() > 0 {
        lemma_joined_add(before + one, after, BLANK@);
        lemma_joined_add(before + quoted, after, BLANK@);
    } else {
        assert(before + one + after =~= before + one);
        assert(before + quoted + after =~= before + quoted);
    }
}

/// Whitespace is what Unicode says it is.
pub proof fn law_space_is_white_space(c: char)
    ensures
        is_space(c) <==> {
            let code = c as int;
            ||| 9 <= code <= 13
            ||| code == 32
            ||| code == 0x85
            ||| code == 0xa0
            ||| code == 0x1680
            ||| 0x2000 <= code <= 0x200a
            ||| code == 0x2028
            ||| code == 0x2029
            ||| code == 0x202f
            ||| code == 0x205f
            ||| code == 0x3000
        },
{
}

/// Whitespace separates unless a delimiter takes it, in every line and whatever is on
/// either side. A run of whitespace is a boundary between the words on its left and the
/// words on its right, unless the character before it is one of `,=(` or the character
/// after it is one of `,=()`. There is no other boundary: where such a character takes
/// the whitespace, or where there is none, the words on either side meet in one word.
pub proof fn law_whitespace_separates_unless_a_delimiter_takes_it(
    left: Seq<char>,
    gap: Seq<char>,
    right: Seq<char>,
)
    requires
        left.len() > 0 ==> !is_space(left.last()),
        forall|i: int| 0 <= i < gap.len() ==> is_space(#[trigger] gap[i]),
        right.len() > 0 ==> !is_space(right[0]),
    ensures
        ({
            let taken = {
                ||| gap.len() == 0
                ||| left.len() > 0 && (left.last() == ',' || left.last() == '=' || left.last()
                    == '(')
                ||| right.len() > 0 && (right[0] == ',' || right[0] == '=' || right[0] == '('
                    || right[0] == ')')
            };
            let words = repaired(seq![left + gap + right]);
            let front = repaired(seq![left]);
            let back = repaired(seq![right]);
            if taken {
                &&& front.len() > 0
                &&& back.len() > 0
                &&& words == front.drop_last().push(front.last() + back[0]) + back.drop_first()
            } else {
                words == front + back
            }
        }),
{
    lemma_joined_alone(left);
    lemma_joined_alone(right);
    lemma_joined_alone(left + gap + right);
    let a = without_space_before(left);
    let b = without_space_before(right);
    let c = without_space_after(a, false);
    let d = without_space_after(b, false);
    let flag = left.len() > 0 && opens(left.last());
    // The whitespace before a delimiter goes first.
    lemma_before_of_front(left, gap + right);
    assert(left + gap + right =~= left + (gap + right));
    lemma_before_of_gap(gap, right);
    let middle = if right.len() > 0 && closes(right[0]) {
        Seq::empty()
    } else {
        gap
    };
    assert(without_space_before(left + gap + right) == a + (middle + b));
    // Then the whitespace after one.
    lemma_after_of_front(a, middle + b, false);
    lemma_after_of_gap(middle, b, flag);
    lemma_before_starts(right);
    lemma_after_starts(b, false);
    lemma_after_of_front(a, Seq::empty(), false);
    let kept = if flag {
        Seq::empty()
    } else {
        middle
    };
    assert(without_space_after(a + (middle + b), false) == c + (kept + d));
    assert(c + (kept + d) =~= c + kept + d);
    if kept.len() == 0 {
        assert(c + kept + d =~= c + d);
        lemma_split_glued(c, d);
    } else {
        lemma_split_apart(c, kept, d);
    }
}

/// A character that is no whitespace is a word, and an empty line is an empty word. With
/// the law on where whitespace separates, this fixes the words of every line.
pub proof fn law_shortest_lines(c: char)
    ensures
        !is_space(c) ==> repaired(seq![seq![c]]) == seq![seq![c]],
        repaired(seq![Seq::empty()]) == seq![Seq::<char>::empty()],
{
    let none = Seq::<char>::empty();
    lemma_joined_alone(none);
    lemma_joined_alone(seq![c]);
    if !is_space(c) {
        let s = seq![c];
        assert(has_no_space(s));
        assert(s + none =~= s);
        lemma_before_of_word(s, none);
        lemma_after_of_word(s, none, false);
        lemma_word_len_of_word(s, none);
    }
}

/// The arguments are read as one line, with blanks between them.
pub proof fn law_arguments_are_one_line(args: Seq<Seq<char>>)
    ensures
        repaired(args) == repaired(seq![joined(args, " "@)]),
{
    lemma_joined_alone(joined(args, BLANK@));
}

proof fn lemma_joined_alone(s: Seq<char>)
    ensures
        joined(seq![s], BLANK@) == s,
{
}

// A text that is empty or ends with no whitespace is cleaned up on its own, whatever
// comes after it.
proof fn lemma_before_of_front(s: Seq<char>, t: Seq<char>)
    requires
        s.len() > 0 ==> !is_space(s.last()),
    ensures
        without_space_before(s + t) == without_space_before(s) + without_space_before(t),
        s.len() > 0 ==> leads_to_closing(s + t) == leads_to_closing(s),
        s.len() == 0 <==> without_space_before(s).len() == 0,
        s.len() > 0 ==> without_space_before(s).last() == s.last(),
    decreases s.len(),
{
    if s.len() == 0 {
        assert(s + t =~= t);
        assert(without_space_before(s) + without_space_before(t) =~= without_space_before(t));
    } else {
        let rest = s.drop_first();
        assert((s + t).drop_first() =~= rest + t);
        if rest.len() > 0 {
            assert(rest.last() == s.last());
        }
        lemma_before_of_front(rest, t);
        assert(without_space_before(s + t) =~= without_space_before(s) + without_space_before(t));
    }
}

proof fn lemma_after_of_front(s: Seq<char>, t: Seq<char>, after_opening: bool)
    requires
        s.len() > 0 ==> !is_space(s.last()),
    ensures
        without_space_after(s + t, after_opening) == without_space_after(s, after_opening)
            + without_space_after(t, ends_opening(s, after_opening)),
        s.len() == 0 <==> without_space_after(s, after_opening).len() == 0,
        s.len() > 0 ==> without_space_after(s, after_opening).last() == s.last(),
    decreases s.len(),
{
    let flag = ends_opening(s, after_opening);
    let end = without_space_after(t, flag);
    if s.len() == 0 {
        assert(s + t =~= t);
        assert(without_space_after(s, after_opening) + end =~= end);
    } else {
        let rest = s.drop_first();
        let now = if is_space(s[0]) {
            after_opening
        } else {
            opens(s[0])
        };
        assert((s + t).drop_first() =~= rest + t);
        if rest.len() > 0 {
            assert(rest.last() == s.last());
        }
        lemma_after_of_front(rest, t, now);
        assert(ends_opening(rest, now) == flag);
        assert(without_space_after(s + t, after_opening) =~= without_space_after(
            s,
            after_opening,
        ) + end);
    }
}

// A run of whitespace stays as a whole, or goes as a whole.
proof fn lemma_before_of_gap(gap: Seq<char>, s: Seq<char>)
    requires
        forall|i: int| 0 <= i < gap.len() ==> is_space(#[trigger] gap[i]),
        s.len() > 0 ==> !is_space(s[0]),
    ensures
        leads_to_closing(gap + s) == (s.len() > 0 && closes(s[0])),
        without_space_before(gap + s) == if s.len() > 0 && closes(s[0]) {
            without_space_before(s)
        } else {
            gap + without_space_before(s)
        },
    decreases gap.len(),
{
    if gap.len() == 0 {
        assert(gap + s =~= s);
        assert(gap + without_space_before(s) =~= without_space_before(s));
    } else {
        let rest = gap.drop_first();
        assert forall|i: int| 0 <= i < rest.len() implies is_space(#[trigger] rest[i]) by {
            assert(is_space(gap[i + 1]));
        }
        lemma_before_of_gap(rest, s);
        assert(is_space(gap[0]));
        assert((gap + s).drop_first() =~= rest + s);
        assert(seq![gap[0]] + (rest + without_space_before(s)) =~= gap + without_space_before(s));
    }
}

proof fn lemma_after_of_gap(gap: Seq<char>, s: Seq<char>, after_opening: bool)
    requires
        forall|i: int| 0 <= i < gap.len() ==> is_space(#[trigger] gap[i]),
        s.len() > 0 ==> !is_space(s[0]),
    ensures
        without_space_after(gap + s, after_opening) == if after_opening {
            without_space_after(s, false)
        } else {
            gap + without_space_after(s, false)
        },
    decreases gap.len(),
{
    if gap.len() == 0 {
        assert(gap + s =~= s);
        assert(gap + without_space_after(s, false) =~= without_space_after(s, false));
    } else {
        let rest = gap.drop_first();
        assert forall|i: int| 0 <= i < rest.len() implies is_space(#[trigger] rest[i]) by {
            assert(is_space(gap[i + 1]));
        }
        lemma_after_of_gap(rest, s, after_opening);
        assert(is_space(gap[0]));
        assert((gap + s).drop_first() =~= rest + s);
        assert(seq![gap[0]] + (rest + without_space_after(s, false)) =~= gap
            + without_space_after(s, false));
    }
}

proof fn lemma_before_starts(s: Seq<char>)
    requires
        s.len() > 0 ==> !is_space(s[0]),
    ensures
        s.len() > 0 ==> without_space_before(s).len() > 0 && without_space_before(s)[0] == s[0],
{
}

proof fn lemma_after_starts(s: Seq<char>, after_opening: bool)
    requires
        s.len() > 0 ==> !is_space(s[0]),
    ensures
        s.len() > 0 ==> without_space_after(s, after_opening).len() > 0 && without_space_after(
            s,
            after_opening,
        )[0] == s[0],
{
}

proof fn lemma_word_len_of_front(s: Seq<char>, t: Seq<char>)
    ensures
        word_len(s + t) == if word_len(s) == s.len() {
            s.len() + word_len(t)
        } else {
            word_len(s)
        },
    decreases s.len(),
{
    lemma_word_len(s);
    if s.len() == 0 {
        assert(s + t =~= t);
    } else {
        assert((s + t).drop_first() =~= s.drop_first() + t);
        lemma_word_len_of_front(s.drop_first(), t);
    }
}

// Text with a last character that is no whitespace keeps it when it is trimmed.
proof fn lemma_trimmed_of_front(s: Seq<char>, t: Seq<char>)
    requires
        s.len() > 0,
        !is_space(s.last()),
    ensures
        trimmed(s + t) == trimmed(s) + t,
        0 < trimmed(s).len() <= s.len(),
        trimmed(s).last() == s.last(),
    decreases s.len(),
{
    if is_space(s[0]) {
        let rest = s.drop_first();
        assert((s + t).drop_first() =~= rest + t);
        assert(rest.len() > 0 && rest.last() == s.last());
        lemma_trimmed_of_front(rest, t);
    }
}

proof fn lemma_trimmed_of_gap(gap: Seq<char>, s: Seq<char>)
    requires
        forall|i: int| 0 <= i < gap.len() ==> is_space(#[trigger] gap[i]),
        s.len() > 0 ==> !is_space(s[0]),
    ensures
        trimmed(gap + s) == s,
    decreases gap.len(),
{
    if gap.len() == 0 {
        assert(gap + s =~= s);
    } else {
        let rest = gap.drop_first();
        assert forall|i: int| 0 <= i < rest.len() implies is_space(#[trigger] rest[i]) by {
            assert(is_space(gap[i + 1]));
        }
        assert(is_space(gap[0]));
        assert((gap + s).drop_first() =~= rest + s);
        lemma_trimmed_of_gap(rest, s);
    }
}

proof fn lemma_split_is_not_empty(s: Seq<char>)
    ensures
        split_at_space(s).len() > 0,
{
}

// Splitting goes on after the first word.
proof fn lemma_split_of_front(s: Seq<char>, t: Seq<char>) -> (rest: Seq<char>)
    requires
        word_len(s) < s.len(),
        !is_space(s.last()),
    ensures
        rest.len() < s.len(),
        rest.len() > 0,
        !is_space(rest.last()),
        split_at_space(s) == seq![s.take(word_len(s) as int)] + split_at_space(rest),
        split_at_space(s + t) == seq![s.take(word_len(s) as int)] + split_at_space(rest + t),
{
    let n = word_len(s) as int;
    let gap = s.skip(n);
    lemma_word_len(s);
    lemma_word_len_of_front(s, t);
    assert(gap.last() == s.last());
    assert(gap[0] == s[n]);
    lemma_trimmed_of_front(gap, t);
    assert(gap.drop_first().len() > 0) by {
        if gap.len() == 1 {
            assert(gap.last() == gap[0]);
        }
    }
    assert(gap.drop_first().last() == s.last());
    lemma_trimmed_of_front(gap.drop_first(), t);
    assert((s + t).take(n) =~= s.take(n));
    assert((s + t).skip(n) =~= gap + t);
    trimmed(gap)
}

// Two lists of words, the last word of the first made one with the first word of the
// second.
spec fn glued(left: Seq<Seq<char>>, right: Seq<Seq<char>>) -> Seq<Seq<char>> {
    left.drop_last().push(left.last() + right[0]) + right.drop_first()
}

proof fn lemma_split_glued(s: Seq<char>, t: Seq<char>)
    requires
        s.len() > 0 ==> !is_space(s.last()),
        t.len() > 0 ==> !is_space(t[0]),
    ensures
        split_at_space(s + t) == glued(split_at_space(s), split_at_space(t)),
    decreases s.len(),
{
    lemma_word_len(s);
    lemma_word_len(t);
    lemma_word_len_of_front(s, t);
    lemma_split_is_not_empty(t);
    let n = word_len(s) as int;
    let m = word_len(t) as int;
    if n == s.len() {
        let tail = split_at_space(t);
        assert(split_at_space(s) =~= seq![s]);
        if m < t.len() {
            assert((s + t).take(n + m) =~= s + t.take(m));
            assert((s + t).skip(n + m) =~= t.skip(m));
            assert(tail.drop_first() =~= split_at_space(trimmed(t.skip(m))));
        } else {
            assert(tail =~= seq![t]);
        }
        assert(split_at_space(s + t) =~= glued(seq![s], tail));
    } else {
        let rest = lemma_split_of_front(s, t);
        lemma_split_glued(rest, t);
        lemma_split_is_not_empty(rest);
        let words = split_at_space(rest);
        let first = seq![s.take(n)];
        assert((first + words).drop_last() =~= first + words.drop_last());
        assert((first + words).last() == words.last());
        assert(first + glued(words, split_at_space(t)) =~= glued(first + words, split_at_space(t)));
    }
}

proof fn lemma_split_apart(s: Seq<char>, gap: Seq<char>, t: Seq<char>)
    requires
        s.len() > 0 ==> !is_space(s.last()),
        gap.len() > 0,
        forall|i: int| 0 <= i < gap.len() ==> is_space(#[trigger] gap[i]),
        t.len() > 0 ==> !is_space(t[0]),
    ensures
        split_at_space(s + gap + t) == split_at_space(s) + split_at_space(t),
    decreases s.len(),
{
    let end = gap + t;
    let n = word_len(s) as int;
    assert(s + gap + t =~= s + end);
    lemma_word_len(s);
    lemma_word_len_of_front(s, end);
    if n == s.len() {
        assert(is_space(gap[0]));
        assert(end[0] == gap[0]);
        lemma_trimmed_of_gap(gap, t);
        assert((s + end).take(n) =~= s);
        assert((s + end).skip(n) =~= end);
        assert(split_at_space(s) =~= seq![s]);
    } else {
        let rest = lemma_split_of_front(s, end);
        lemma_split_apart(rest, gap, t);
        assert(rest + gap + t =~= rest + end);
        assert(split_at_space(s + end) =~= split_at_space(s) + split_at_space(t));
    }
}

/// `s` with each run of whitespace made a single blank, where `after_space` says
/// whether whitespace stands right before `s`.
pub open spec fn squeezed(s: Seq<char>, after_space: bool) -> Seq<char>
    decreases s.len(),
{
    if s.len() == 0 {
        s
    } else if !is_space(s[0]) {
        seq![s[0]] + squeezed(s.drop_first(), false)
    } else if after_space {
        squeezed(s.drop_first(), true)
    } else {
        seq![' '] + squeezed(s.drop_first(), true)
    }
}

/// The amount and the kind of whitespace do not matter: lines that are the same once
/// each run of whitespace is a blank are repaired to the same words.
pub proof fn law_kind_of_whitespace_does_not_matter(a: Seq<Seq<char>>, b: Seq<Seq<char>>)
    requires
        squeezed(joined(a, BLANK@), false) == squeezed(joined(b, BLANK@), false),
    ensures
        repaired(a) == repaired(b),
{
    lemma_squeezed_line(joined(a, BLANK@));
    lemma_squeezed_line(joined(b, BLANK@));
}

// A line is repaired as the squeezed line is.
proof fn lemma_squeezed_line(s: Seq<char>)
    ensures
        split_at_space(without_space_after(without_space_before(squeezed(s, false)), false))
            == split_at_space(without_space_after(without_space_before(s), false)),
{
    lemma_squeezed_before(s, false);
    lemma_squeezed_after(without_space_before(s), false, false);
    lemma_squeezed_split(without_space_after(without_space_before(s), false));
}

proof fn lemma_squeezed_first(s: Seq<char>, after_space: bool)
    ensures
        squeezed(s, false).drop_first() == if s.len() > 0 {
            squeezed(s.drop_first(), is_space(s[0]))
        } else {
            s.drop_first()
        },
        squeezed(s, false).len() == 0 <==> s.len() == 0,
        s.len() > 0 && !is_space(s[0]) ==> squeezed(s, after_space) == squeezed(s, false),
        s.len() > 0 && is_space(s[0]) ==> squeezed(s, false)[0] == ' ',
        s.len() > 0 && !is_space(s[0]) ==> squeezed(s, false)[0] == s[0],
{
    if s.len() > 0 {
        let rest = squeezed(s.drop_first(), is_space(s[0]));
        assert((seq![' '] + rest).drop_first() =~= rest);
        assert((seq![s[0]] + rest).drop_first() =~= rest);
    }
}

proof fn lemma_squeezed_lead(s: Seq<char>, after_space: bool)
    ensures
        leads_to_closing(squeezed(s, after_space)) == leads_to_closing(s),
    decreases s.len(),
{
    lemma_blank();
    if s.len() > 0 {
        lemma_squeezed_lead(s.drop_first(), is_space(s[0]));
        lemma_squeezed_first(s, after_space);
    }
}

proof fn lemma_before_closing(s: Seq<char>)
    requires
        leads_to_closing(s),
    ensures
        without_space_before(s).len() > 0,
        !is_space(without_space_before(s)[0]),
    decreases s.len(),
{
    if is_space(s[0]) {
        lemma_before_closing(s.drop_first());
    }
}

proof fn lemma_squeezed_before(s: Seq<char>, after_space: bool)
    ensures
        squeezed(without_space_before(s), after_space) == without_space_before(
            squeezed(s, after_space),
        ),
    decreases s.len(),
{
    lemma_blank();
    if s.len() > 0 {
        let rest = s.drop_first();
        let short = without_space_before(rest);
        lemma_squeezed_before(rest, is_space(s[0]));
        lemma_squeezed_first(s, after_space);
        lemma_squeezed_lead(s, false);
        assert((seq![s[0]] + short).drop_first() =~= short);
        if is_space(s[0]) && leads_to_closing(s) {
            lemma_before_closing(rest);
            lemma_squeezed_first(short, after_space);
            lemma_squeezed_first(short, true);
        }
    }
}

proof fn lemma_after_opening(s: Seq<char>)
    ensures
        without_space_after(s, true).len() > 0 ==> !is_space(without_space_after(s, true)[0]),
    decreases s.len(),
{
    if s.len() > 0 && is_space(s[0]) {
        lemma_after_opening(s.drop_first());
    }
}

proof fn lemma_squeezed_after(s: Seq<char>, after_opening: bool, after_space: bool)
    ensures
        squeezed(without_space_after(s, after_opening), after_space) == without_space_after(
            squeezed(s, after_space),
            after_opening,
        ),
    decreases s.len(),
{
    lemma_blank();
    if s.len() > 0 {
        let rest = s.drop_first();
        let now = if is_space(s[0]) {
            after_opening
        } else {
            opens(s[0])
        };
        let short = without_space_after(rest, now);
        lemma_squeezed_after(rest, now, is_space(s[0]));
        lemma_squeezed_first(s, after_space);
        assert((seq![s[0]] + short).drop_first() =~= short);
        if is_space(s[0]) && after_opening {
            lemma_after_opening(rest);
            lemma_squeezed_first(short, after_space);
            lemma_squeezed_first(short, true);
        }
    }
}

proof fn lemma_squeezed_word(s: Seq<char>)
    ensures
        ({
            let n = word_len(s);
            &&& n <= s.len()
            &&& word_len(squeezed(s, false)) == n
            &&& n <= squeezed(s, false).len()
            &&& squeezed(s, false).len() == n <==> s.len() == n
            &&& squeezed(s, false).take(n as int) == s.take(n as int)
            &&& squeezed(s, false).skip(n as int) == squeezed(s.skip(n as int), false)
        }),
    decreases s.len(),
{
    lemma_blank();
    lemma_squeezed_first(s, false);
    if s.len() == 0 || is_space(s[0]) {
        assert(s.take(0) =~= squeezed(s, false).take(0));
        assert(s.skip(0) =~= s);
        assert(squeezed(s, false).skip(0) =~= squeezed(s, false));
    } else {
        let rest = s.drop_first();
        let n = word_len(rest) as int;
        let tight = squeezed(rest, false);
        lemma_squeezed_word(rest);
        assert(s.take(n + 1) =~= seq![s[0]] + rest.take(n));
        assert((seq![s[0]] + tight).take(n + 1) =~= seq![s[0]] + tight.take(n));
        assert(s.skip(n + 1) =~= rest.skip(n));
        assert((seq![s[0]] + tight).skip(n + 1) =~= tight.skip(n));
    }
}

proof fn lemma_squeezed_trimmed(s: Seq<char>, after_space: bool)
    ensures
        trimmed(squeezed(s, after_space)) == squeezed(trimmed(s), false),
    decreases s.len(),
{
    lemma_blank();
    if s.len() > 0 {
        lemma_squeezed_first(s, after_space);
        if is_space(s[0]) {
            lemma_squeezed_trimmed(s.drop_first(), true);
        }
    }
}

proof fn lemma_squeezed_split(s: Seq<char>)
    ensures
        split_at_space(squeezed(s, false)) == split_at_space(s),
    decreases s.len(),
{
    let n = word_len(s) as int;
    lemma_squeezed_word(s);
    lemma_first_word(s);
    if n >= s.len() {
        assert(s.take(n) =~= s);
        assert(squeezed(s, false).take(n) =~= squeezed(s, false));
    } else {
        let gap = s.skip(n);
        lemma_squeezed_trimmed(gap, false);
        lemma_solid_trimmed(gap.drop_first());
        lemma_squeezed_split(trimmed(gap));
    }
}

// A line without whitespace next to a character that takes none there. The flag
// says whether a character that takes no whitespace after it stands right before.

spec fn is_clean_before(s: Seq<char>) -> bool
    decreases s.len(),
{
    s.len() > 0 ==> {
        &&& is_space(s[0]) ==> !leads_to_closing(s)
        &&& is_clean_before(s.drop_first())
    }
}

spec fn is_clean(s: Seq<char>, after_opening: bool) -> bool
    decreases s.len(),
{
    s.len() > 0 ==> if is_space(s[0]) {
        &&& !after_opening
        &&& !leads_to_closing(s)
        &&& is_clean(s.drop_first(), false)
    } else {
        is_clean(s.drop_first(), opens(s[0]))
    }
}

proof fn lemma_before_is_clean(s: Seq<char>)
    ensures
        is_clean_before(without_space_before(s)),
        leads_to_closing(without_space_before(s)) == leads_to_closing(s),
    decreases s.len(),
{
    if s.len() > 0 {
        let rest = s.drop_first();
        lemma_before_is_clean(rest);
        assert((seq![s[0]] + without_space_before(rest)).drop_first() =~= without_space_before(
            rest,
        ));
    }
}

proof fn lemma_after_keeps_lead(s: Seq<char>, after_opening: bool)
    ensures
        leads_to_closing(without_space_after(s, after_opening)) == leads_to_closing(s),
    decreases s.len(),
{
    if s.len() > 0 {
        let rest = s.drop_first();
        let now = if is_space(s[0]) {
            after_opening
        } else {
            opens(s[0])
        };
        lemma_after_keeps_lead(rest, now);
        assert((seq![s[0]] + without_space_after(rest, now)).drop_first() =~= without_space_after(
            rest,
            now,
        ));
    }
}

proof fn lemma_after_is_clean(s: Seq<char>, after_opening: bool)
    requires
        is_clean_before(s),
    ensures
        is_clean(without_space_after(s, after_opening), after_opening),
    decreases s.len(),
{
    if s.len() > 0 {
        let rest = s.drop_first();
        let now = if is_space(s[0]) {
            after_opening
        } else {
            opens(s[0])
        };
        lemma_after_is_clean(rest, now);
        lemma_after_keeps_lead(s, after_opening);
        assert((seq![s[0]] + without_space_after(rest, now)).drop_first() =~= without_space_after(
            rest,
            now,
        ));
    }
}

// Whether the text before `s` and the word `a` at the start of `s` end with a
// character that takes no whitespace after it.
spec fn ends_opening(a: Seq<char>, after_opening: bool) -> bool {
    if a.len() == 0 {
        after_opening
    } else {
        opens(a.last())
    }
}

proof fn lemma_clean_after_word(s: Seq<char>, after_opening: bool)
    requires
        is_clean(s, after_opening),
    ensures
        is_clean(
            s.skip(word_len(s) as int),
            ends_opening(s.take(word_len(s) as int), after_opening),
        ),
    decreases s.len(),
{
    if s.len() == 0 || is_space(s[0]) {
        assert(s.skip(0) =~= s);
    } else {
        let rest = s.drop_first();
        let n = word_len(rest) as int;
        lemma_first_word(rest);
        lemma_clean_after_word(rest, opens(s[0]));
        assert(s.skip(n + 1) =~= rest.skip(n));
        if n > 0 {
            assert(s.take(n + 1).last() == rest.take(n).last());
        } else {
            assert(s.take(1).last() == s[0]);
        }
    }
}

// The characters before the first whitespace are a word.
proof fn lemma_first_word(s: Seq<char>)
    ensures
        word_len(s) <= s.len(),
        has_no_space(s.take(word_len(s) as int)),
        word_len(s) < s.len() ==> is_space(s[word_len(s) as int]),
{
    lemma_word_len(s);
}

// What follows the first character of a word is a word too.
proof fn lemma_rest_of_word(word: Seq<char>)
    requires
        has_no_space(word),
        word.len() > 0,
    ensures
        !is_space(word[0]),
        has_no_space(word.drop_first()),
{
    let rest = word.drop_first();
    assert forall|i: int| 0 <= i < rest.len() implies !is_space(#[trigger] rest[i]) by {
        assert(!is_space(word[i + 1]));
    }
}

proof fn lemma_trimmed_is_clean(s: Seq<char>)
    requires
        is_clean(s, false),
    ensures
        trimmed(s).len() <= s.len(),
        is_clean(trimmed(s), false),
        trimmed(s).len() > 0 ==> !is_space(trimmed(s)[0]),
        trimmed(s).len() > 0 ==> leads_to_closing(s) == closes(trimmed(s)[0]),
    decreases s.len(),
{
    if s.len() > 0 && is_space(s[0]) {
        lemma_trimmed_is_clean(s.drop_first());
    }
}

proof fn lemma_split_is_settled(s: Seq<char>, after_opening: bool)
    requires
        is_clean(s, after_opening),
    ensures
        is_settled(split_at_space(s)),
        split_at_space(s)[0] == s.take(word_len(s) as int),
    decreases s.len(),
{
    let n = word_len(s) as int;
    lemma_first_word(s);
    if n >= s.len() {
        assert(s.take(n) =~= s);
    } else {
        let word = s.take(n);
        let gap = s.skip(n);
        let rest = trimmed(gap);
        assert(gap[0] == s[n]);
        lemma_clean_after_word(s, after_opening);
        lemma_trimmed_is_clean(gap.drop_first());
        assert(rest == trimmed(gap.drop_first()));
        lemma_split_is_settled(rest, false);
        assert(is_clean(gap, false));
        lemma_trimmed_is_clean(gap);
        let tail = split_at_space(rest);
        let words = seq![word] + tail;
        lemma_first_word(rest);
        assert(tail[0] == rest.take(word_len(rest) as int));
        if tail[0].len() > 0 {
            assert(tail[0][0] == rest[0]);
        }
        assert(stand_apart(word, tail[0]));
        assert forall|i: int| 0 <= i < words.len() implies has_no_space(#[trigger] words[i]) by {
            if i > 0 {
                assert(words[i] == tail[i - 1]);
            }
        }
        assert forall|i: int| 0 < i < words.len() - 1 implies (#[trigger] words[i]).len() > 0 by {
            assert(words[i] == tail[i - 1]);
            if i == 1 {
                // More words follow, so the rest is not empty.
                assert(rest.len() > 0);
            }
        }
        assert forall|i: int, j: int|
            #![trigger words[i], words[j]]
            0 <= i < words.len() - 1 && j == i + 1 implies stand_apart(words[i], words[j]) by {
            assert(words[j] == tail[j - 1]);
            if i > 0 {
                assert(words[i] == tail[i - 1]);
                assert(stand_apart(tail[i - 1], tail[j - 1]));
            }
        }
    }
}

proof fn lemma_before_of_word(word: Seq<char>, rest: Seq<char>)
    requires
        has_no_space(word),
    ensures
        without_space_before(word + rest) == word + without_space_before(rest),
    decreases word.len(),
{
    if word.len() == 0 {
        assert(word + rest =~= rest);
        assert(word + without_space_before(rest) =~= without_space_before(rest));
    } else {
        let tail = word.drop_first();
        lemma_rest_of_word(word);
        lemma_before_of_word(tail, rest);
        assert((word + rest).drop_first() =~= tail + rest);
        assert(seq![word[0]] + (tail + without_space_before(rest)) =~= word
            + without_space_before(rest));
    }
}

proof fn lemma_after_of_word(word: Seq<char>, rest: Seq<char>, after_opening: bool)
    requires
        has_no_space(word),
    ensures
        without_space_after(word + rest, after_opening) == word + without_space_after(
            rest,
            ends_opening(word, after_opening),
        ),
    decreases word.len(),
{
    let flag = ends_opening(word, after_opening);
    if word.len() == 0 {
        assert(word + rest =~= rest);
        assert(word + without_space_after(rest, flag) =~= without_space_after(rest, flag));
    } else {
        let tail = word.drop_first();
        lemma_rest_of_word(word);
        lemma_after_of_word(tail, rest, opens(word[0]));
        assert((word + rest).drop_first() =~= tail + rest);
        assert(ends_opening(tail, opens(word[0])) == flag);
        assert(seq![word[0]] + (tail + without_space_after(rest, flag)) =~= word
            + without_space_after(rest, flag));
    }
}

proof fn lemma_word_len_of_word(word: Seq<char>, rest: Seq<char>)
    requires
        has_no_space(word),
        rest.len() == 0 || is_space(rest[0]),
    ensures
        word_len(word + rest) == word.len(),
    decreases word.len(),
{
    if word.len() == 0 {
        assert(word + rest =~= rest);
    } else {
        let tail = word.drop_first();
        lemma_rest_of_word(word);
        lemma_word_len_of_word(tail, rest);
        assert((word + rest).drop_first() =~= tail + rest);
    }
}

proof fn lemma_settled_tail(words: Seq<Seq<char>>)
    requires
        is_settled(words),
        words.len() > 1,
    ensures
        is_settled(words.drop_first()),
{
    let tail = words.drop_first();
    assert forall|i: int| 0 <= i < tail.len() implies has_no_space(#[trigger] tail[i]) by {
        assert(tail[i] == words[i + 1]);
    }
    assert forall|i: int| 0 < i < tail.len() - 1 implies (#[trigger] tail[i]).len() > 0 by {
        assert(tail[i] == words[i + 1]);
    }
    assert forall|i: int, j: int|
        #![trigger tail[i], tail[j]]
        0 <= i < tail.len() - 1 && j == i + 1 implies stand_apart(tail[i], tail[j]) by {
        assert(stand_apart(words[i + 1], words[j + 1]));
    }
}

proof fn lemma_blank()
    ensures
        BLANK@ == seq![' '],
        is_space(' '),
{
    reveal_strlit(" ");
    assert(BLANK@ =~= seq![' ']);
}

// A word, a blank and a rest that itself needs no repair: neither does the whole.
proof fn lemma_word_and_rest(word: Seq<char>, rest: Seq<char>)
    requires
        has_no_space(word),
        word.len() > 0 ==> !opens(word.last()),
        rest.len() > 0 ==> !is_space(rest[0]) && !closes(rest[0]),
        without_space_before(rest) == rest,
        without_space_after(rest, false) == rest,
    ensures
        without_space_before(word + seq![' '] + rest) == word + seq![' '] + rest,
        without_space_after(word + seq![' '] + rest, false) == word + seq![' '] + rest,
        split_at_space(word + seq![' '] + rest) == seq![word] + split_at_space(rest),
{
    let gap = seq![' '] + rest;
    let line = word + seq![' '] + rest;
    lemma_blank();
    assert(gap[0] == ' ');
    assert(gap.drop_first() =~= rest);
    assert(line =~= word + gap);
    assert(!leads_to_closing(rest));
    assert(!leads_to_closing(gap));
    assert(without_space_before(gap) == gap);
    assert(without_space_after(gap, false) == gap);
    lemma_before_of_word(word, gap);
    lemma_after_of_word(word, gap, false);
    lemma_word_len_of_word(word, gap);
    assert(line.take(word.len() as int) =~= word);
    assert(line.skip(word.len() as int) =~= gap);
    assert(trimmed(rest) == rest);
    assert(trimmed(gap) == rest);
}

// The line of settled words starts as the first of them does, loses nothing, and
// splits into these words.
proof fn lemma_settled_line(words: Seq<Seq<char>>)
    requires
        is_settled(words),
    ensures
        without_space_before(joined(words, BLANK@)) == joined(words, BLANK@),
        without_space_after(joined(words, BLANK@), false) == joined(words, BLANK@),
        split_at_space(joined(words, BLANK@)) == words,
        words[0].len() > 0 ==> joined(words, BLANK@).len() > 0 && joined(words, BLANK@)[0]
            == words[0][0],
    decreases words.len(),
{
    lemma_blank();
    let word = words[0];
    let none = Seq::<char>::empty();
    assert(has_no_space(word));
    if words.len() == 1 {
        lemma_before_of_word(word, none);
        lemma_after_of_word(word, none, false);
        lemma_word_len_of_word(word, none);
        assert(word + none =~= word);
        assert(seq![word] =~= words);
    } else {
        let tail = words.drop_first();
        let rest = joined(tail, BLANK@);
        lemma_settled_tail(words);
        lemma_settled_line(tail);
        assert(tail[0] == words[1]);
        assert(stand_apart(words[0], words[1]));
        if tail[0].len() == 0 {
            // Only a last word is empty.
            assert(words.len() == 2);
            assert(rest =~= none);
        } else {
            assert(has_no_space(tail[0]));
            assert(!is_space(tail[0][0]));
        }
        lemma_word_and_rest(word, rest);
        assert(seq![word] + tail =~= words);
    }
}

proof fn lemma_solid_add(s: Seq<char>, t: Seq<char>)
    ensures
        solid(s + t) == solid(s) + solid(t),
    decreases s.len(),
{
    if s.len() == 0 {
        assert(s + t =~= t);
        assert(solid(s) + solid(t) =~= solid(t));
    } else {
        lemma_solid_add(s.drop_first(), t);
        assert((s + t).drop_first() =~= s.drop_first() + t);
        assert(solid(s + t) =~= solid(s) + solid(t));
    }
}

proof fn lemma_solid_joined(words: Seq<Seq<char>>)
    ensures
        solid(joined(words, BLANK@)) == solid(characters(words)),
    decreases words.len(),
{
    lemma_blank();
    if words.len() == 1 {
        assert(characters(words.drop_first()) =~= Seq::empty());
        assert(characters(words) =~= words[0]);
    } else if words.len() > 1 {
        let tail = words.drop_first();
        let rest = joined(tail, BLANK@);
        lemma_solid_joined(tail);
        lemma_solid_add(words[0] + BLANK@, rest);
        lemma_solid_add(words[0], BLANK@);
        lemma_solid_add(words[0], characters(tail));
        assert(BLANK@.drop_first() =~= Seq::empty());
        assert(solid(Seq::empty()) =~= Seq::<char>::empty());
        assert(solid(BLANK@) =~= Seq::empty());
        assert(solid(words[0]) + solid(BLANK@) =~= solid(words[0]));
    }
}

proof fn lemma_solid_before(s: Seq<char>)
    ensures
        solid(without_space_before(s)) == solid(s),
    decreases s.len(),
{
    if s.len() > 0 {
        let rest = s.drop_first();
        lemma_solid_before(rest);
        assert((seq![s[0]] + without_space_before(rest)).drop_first() =~= without_space_before(
            rest,
        ));
    }
}

proof fn lemma_solid_after(s: Seq<char>, after_opening: bool)
    ensures
        solid(without_space_after(s, after_opening)) == solid(s),
    decreases s.len(),
{
    if s.len() > 0 {
        let rest = s.drop_first();
        let now = if is_space(s[0]) {
            after_opening
        } else {
            opens(s[0])
        };
        lemma_solid_after(rest, now);
        assert((seq![s[0]] + without_space_after(rest, now)).drop_first() =~= without_space_after(
            rest,
            now,
        ));
    }
}

proof fn lemma_solid_word(s: Seq<char>)
    requires
        has_no_space(s),
    ensures
        solid(s) == s,
    decreases s.len(),
{
    if s.len() > 0 {
        let rest = s.drop_first();
        lemma_rest_of_word(s);
        lemma_solid_word(rest);
        assert(seq![s[0]] + rest =~= s);
    }
}

proof fn lemma_solid_trimmed(s: Seq<char>)
    ensures
        trimmed(s).len() <= s.len(),
        solid(trimmed(s)) == solid(s),
    decreases s.len(),
{
    if s.len() > 0 && is_space(s[0]) {
        lemma_solid_trimmed(s.drop_first());
    }
}

proof fn lemma_characters_of_split(s: Seq<char>)
    ensures
        characters(split_at_space(s)) == solid(s),
    decreases s.len(),
{
    let n = word_len(s) as int;
    lemma_first_word(s);
    let word = s.take(n);
    lemma_solid_word(word);
    if n >= s.len() {
        assert(word =~= s);
        assert(seq![s].drop_first() =~= Seq::empty());
        assert(characters(seq![s]) =~= s + characters(Seq::empty()));
        assert(characters(split_at_space(s)) =~= s);
    } else {
        let gap = s.skip(n);
        let rest = trimmed(gap);
        lemma_solid_trimmed(gap.drop_first());
        lemma_solid_trimmed(gap);
        lemma_characters_of_split(rest);
        assert((seq![word] + split_at_space(rest)).drop_first() =~= split_at_space(rest));
        lemma_solid_add(word, gap);
        assert(word + gap =~= s);
    }
}

} // verus!
