//! What holds of grouped words: which words open a group, when grouping fails, and that
//! neither the order of the options nor the letter case of names matters.

use vstd::prelude::*;

use crate::grouping::{
    ascii_lower, ascii_lowercase, grouped, grouping_fails, has_no_repetition, is_first_repeated,
    is_header, is_option, is_repeated, last_header_of, lemma_grouped_one,
    lemma_grouped_push_option, lemma_grouped_push_param, lemma_params_end_push, lowercase,
    lowers_ascii, lowers_ascii_letters, params_end, GroupingError,
};
use crate::payload::{
    are_distinct, holds, holds_at, lemma_map_of, lemma_map_push, lemma_map_update, map_of, Entry,
};

verus! {

/// The groups of `words` in their order: the command or option as it is spelled, with
/// the words that follow it up to the next option.
pub open spec fn groups_of(words: Seq<Seq<char>>) -> Seq<Entry>
    decreases words.len(),
{
    if words.len() == 0 {
        Seq::empty()
    } else {
        let before = groups_of(words.drop_last());
        if is_header(words, words.len() - 1) {
            before.push((words.last(), Seq::empty()))
        } else {
            before.update(
                before.len() - 1,
                (before.last().0, before.last().1.push(words.last())),
            )
        }
    }
}

/// The words of `groups`, one group after the other.
pub open spec fn words_of(groups: Seq<Entry>) -> Seq<Seq<char>>
    decreases groups.len(),
{
    if groups.len() == 0 {
        Seq::empty()
    } else {
        words_of(groups.drop_last()) + seq![groups.last().0] + groups.last().1
    }
}

/// A group with its command or option in lower case.
pub open spec fn named(group: Entry) -> Entry {
    (lowercase(group.0), group.1)
}

/// The groups of `words` in their order, each command or option in lower case.
pub open spec fn named_groups(words: Seq<Seq<char>>) -> Seq<Entry> {
    groups_of(words).map_values(|group: Entry| named(group))
}

/// A group with the ASCII letters of its command or option in lower case.
pub open spec fn ascii_named(group: Entry) -> Entry {
    (ascii_lowercase(group.0), group.1)
}

/// The groups of `words` in their order, the ASCII letters of each command or option in
/// lower case.
pub open spec fn ascii_named_groups(words: Seq<Seq<char>>) -> Seq<Entry> {
    groups_of(words).map_values(|group: Entry| ascii_named(group))
}

/// Whether `a` and `b` are the same words but for the letter case of ASCII letters in
/// the command and in the options.
pub open spec fn differ_in_case_only(a: Seq<Seq<char>>, b: Seq<Seq<char>>) -> bool {
    a.len() == b.len() && forall|i: int|
        #![trigger a[i]]
        #![trigger b[i]]
        0 <= i < a.len() ==> a[i] == b[i] || (is_header(a, i) && ascii_lowercase(a[i])
            == ascii_lowercase(b[i]))
}

/// The groups make up the words: nothing is lost, and the first group is that of the
/// command.
pub proof fn law_groups_make_up_the_words(words: Seq<Seq<char>>)
    ensures
        words_of(groups_of(words)) == words,
        words.len() > 0 ==> groups_of(words).len() > 0 && groups_of(words)[0].0 == words[0],
    decreases words.len(),
{
    if words.len() > 0 {
        let shorter = words.drop_last();
        let before = groups_of(shorter);
        let groups = groups_of(words);
        law_groups_make_up_the_words(shorter);
        if is_header(words, words.len() - 1) {
            assert(groups.drop_last() =~= before);
        } else {
            assert(groups.drop_last() =~= before.drop_last());
        }
        assert(words_of(groups) =~= shorter.push(words.last()));
        assert(shorter.push(words.last()) =~= words);
    }
}

/// The words after the command up to the first that starts with `-` are the parameters
/// of the command, whatever else they hold: without such a word, they make up the one
/// group there is, and nothing is repeated.
pub proof fn law_command_takes_the_words_after_it(command: Seq<char>, params: Seq<Seq<char>>)
    requires
        forall|i: int|
            0 <= i < params.len() ==> (#[trigger] params[i]).len() == 0 || params[i][0] != '-',
    ensures
        grouped(seq![command] + params) == Map::<Seq<char>, Seq<Seq<char>>>::empty().insert(
            lowercase(command),
            params,
        ),
        has_no_repetition(seq![command] + params),
{
    let words = seq![command];
    assert(words + Seq::<Seq<char>>::empty() =~= words);
    lemma_grouped_one(words);
    assert(params_end(words, 1) == 1);
    lemma_grouped_params(words, 0, params);
    assert(Seq::<Seq<char>>::empty() + params =~= params);
    assert(grouped(words + params) =~= Map::empty().insert(lowercase(command), params));
    assert forall|i: int| !#[trigger] is_repeated(words + params, i) by {
        if 0 < i < params.len() + 1 {
            assert((words + params)[i] == params[i - 1]);
        }
    }
}

/// A word that starts with `-` opens a group, whatever follows the dash, and the words
/// up to the next such word are its parameters, whatever else they hold. It is repeated
/// exactly if there was a group of its name.
pub proof fn law_dash_opens_a_group(
    before: Seq<Seq<char>>,
    option: Seq<char>,
    params: Seq<Seq<char>>,
)
    requires
        before.len() > 0,
        option.len() > 0,
        option[0] == '-',
        forall|i: int|
            0 <= i < params.len() ==> (#[trigger] params[i]).len() == 0 || params[i][0] != '-',
    ensures
        grouped(before + seq![option] + params) == grouped(before).insert(
            lowercase(option),
            params,
        ),
        has_no_repetition(before + seq![option] + params) <==> has_no_repetition(before)
            && !grouped(before).dom().contains(lowercase(option)),
{
    let words = before.push(option);
    let all = before + seq![option] + params;
    let at = before.len() as int;
    assert(words + params =~= all);
    lemma_grouped_push_option(before, option);
    assert(params_end(words, at + 1) == at + 1);
    lemma_grouped_params(words, at, params);
    assert(Seq::<Seq<char>>::empty() + params =~= params);
    assert(grouped(all) =~= grouped(before).insert(lowercase(option), params));
    assert(all.take(at) =~= before);
    assert(all[at] == option);
    assert forall|i: int| i < at implies #[trigger] is_repeated(all, i) == is_repeated(
        before,
        i,
    ) by {
        if 0 < i {
            assert(all.take(i) =~= before.take(i));
        }
    }
    assert forall|i: int| at < i implies !#[trigger] is_repeated(all, i) by {
        if i < all.len() {
            assert(all[i] == params[i - at - 1]);
        }
    }
    assert(is_repeated(all, at) == grouped(before).dom().contains(lowercase(option)));
    if has_no_repetition(all) {
        assert forall|i: int| !#[trigger] is_repeated(before, i) by {
            assert(!is_repeated(all, i));
        }
    }
    if has_no_repetition(before) && !is_repeated(all, at) {
        assert forall|i: int| !#[trigger] is_repeated(all, i) by {
            assert(!is_repeated(before, i));
        }
    }
}

/// Grouping fails for want of a command exactly if there is no word, and over an option
/// exactly if that option, which starts with `-`, is the first to come when there
/// already is a group of its name.
pub proof fn law_grouping_fails_at_the_first_repetition(
    words: Seq<Seq<char>>,
    error: GroupingError,
)
    ensures
        error is NoCommand ==> (grouping_fails(words, error) <==> words.len() == 0),
        error matches GroupingError::DefinedMultipleTimes(option) ==> (grouping_fails(words, error)
            <==> exists|i: int|
            #![trigger words.take(i)]
            0 < i < words.len() && words[i].len() > 0 && words[i][0] == '-' && option@ == words[i]
                && has_no_repetition(words.take(i)) && grouped(words.take(i)).dom().contains(
                lowercase(words[i]),
            )),
{
    if let GroupingError::DefinedMultipleTimes(option) = error {
        assert forall|i: int, j: int| 0 < i <= words.len() && j < i implies #[trigger] is_repeated(
            words.take(i),
            j,
        ) == is_repeated(words, j) by {
            if 0 < j {
                assert(words.take(i).take(j) =~= words.take(j));
            }
        }
        if grouping_fails(words, error) {
            let i = choose|i: int| #[trigger] is_first_repeated(words, i) && option@ == words[i];
            assert forall|j: int| !#[trigger] is_repeated(words.take(i), j) by {
                if j < i {
                    assert(!is_repeated(words, j));
                }
            }
            assert(has_no_repetition(words.take(i)));
        }
        if exists|i: int|
            #![trigger words.take(i)]
            0 < i < words.len() && words[i].len() > 0 && words[i][0] == '-' && option@ == words[i]
                && has_no_repetition(words.take(i)) && grouped(words.take(i)).dom().contains(
                lowercase(words[i]),
            ) {
            let i = choose|i: int|
                #![trigger words.take(i)]
                0 < i < words.len() && words[i].len() > 0 && words[i][0] == '-' && option@
                    == words[i] && has_no_repetition(words.take(i)) && grouped(
                    words.take(i),
                ).dom().contains(lowercase(words[i]));
            assert forall|j: int| j < i implies !#[trigger] is_repeated(words, j) by {
                assert(!is_repeated(words.take(i), j));
            }
            assert(is_first_repeated(words, i));
        }
    }
}

/// No option is repeated exactly if the names of the groups are pairwise distinct.
pub proof fn law_no_repetition_means_distinct_names(words: Seq<Seq<char>>)
    ensures
        has_no_repetition(words) <==> are_distinct(named_groups(words)),
    decreases words.len(),
{
    if words.len() > 0 {
        let last = words.len() - 1;
        let shorter = words.drop_last();
        let before = named_groups(shorter);
        let groups = named_groups(words);
        law_no_repetition_means_distinct_names(shorter);
        law_groups_make_up_the_words(shorter);
        assert forall|i: int| i < last implies #[trigger] is_repeated(words, i) == is_repeated(
            shorter,
            i,
        ) by {
            if 0 < i {
                assert(shorter.take(i) =~= words.take(i));
            }
        }
        assert(has_no_repetition(words) <==> has_no_repetition(shorter) && !is_repeated(
            words,
            last,
        )) by {
            if has_no_repetition(words) {
                assert forall|i: int| !#[trigger] is_repeated(shorter, i) by {
                    assert(!is_repeated(words, i));
                }
            }
            if has_no_repetition(shorter) && !is_repeated(words, last) {
                assert forall|i: int| !#[trigger] is_repeated(words, i) by {
                    assert(!is_repeated(shorter, i));
                }
            }
        }
        if is_header(words, last) {
            let key = lowercase(words.last());
            assert(groups =~= before.push((key, Seq::empty())));
            lemma_held_names(shorter, key);
            assert(words.take(last) =~= shorter);
            if last > 0 {
                assert(is_repeated(words, last) == holds(before, key));
            } else {
                assert(before.len() == 0);
                assert(!holds(before, key));
            }
            lemma_distinct_push(before, (key, Seq::empty()));
        } else {
            assert(groups.len() == before.len());
            assert forall|i: int| 0 <= i < groups.len() implies (#[trigger] groups[i]).0
                == before[i].0 by {}
            lemma_distinct_by_keys(before, groups);
        }
    }
}

/// With distinct names, the groups in their order, taken as a map, are the groups.
pub proof fn law_grouped_is_the_map_of_the_groups(words: Seq<Seq<char>>)
    requires
        words.len() > 0,
        are_distinct(named_groups(words)),
    ensures
        grouped(words) == map_of(named_groups(words)),
    decreases words.len(),
{
    let last = words.len() - 1;
    let shorter = words.drop_last();
    let before = named_groups(shorter);
    let groups = named_groups(words);
    assert(shorter.push(words.last()) =~= words);
    if last == 0 {
        let entry: Entry = (lowercase(words[0]), Seq::empty());
        assert(before =~= Seq::empty());
        assert(groups =~= before.push(entry));
        assert(!holds(before, entry.0));
        lemma_map_push(before, entry);
        assert(map_of(before) =~= Map::empty());
        lemma_grouped_one(words);
    } else if is_header(words, last) {
        let entry: Entry = (lowercase(words.last()), Seq::empty());
        assert(groups =~= before.push(entry));
        lemma_distinct_push(before, entry);
        law_grouped_is_the_map_of_the_groups(shorter);
        lemma_map_push(before, entry);
        lemma_grouped_push_option(shorter, words.last());
    } else {
        law_groups_make_up_the_words(shorter);
        let i = before.len() - 1;
        let params = before[i].1.push(words.last());
        assert(groups =~= before.update(i, (before[i].0, params)));
        assert forall|j: int| 0 <= j < groups.len() implies (#[trigger] groups[j]).0
            == before[j].0 by {}
        lemma_distinct_by_keys(before, groups);
        law_grouped_is_the_map_of_the_groups(shorter);
        lemma_map_update(before, i, params);
        assert(holds_at(before, before[i].0, i));
        lemma_map_of(before, before[i].0, i);
        let header = lemma_last_group(shorter);
        lemma_grouped_push_param(shorter, words.last(), header);
    }
}

/// Neither the order of the options nor the letter case matters: where the names are
/// distinct, the command has the same name and parameters, and the options have the
/// same names and parameters in whatever order, nothing is repeated and the groups are
/// the same.
pub proof fn law_order_and_case_do_not_matter(a: Seq<Seq<char>>, b: Seq<Seq<char>>)
    requires
        a.len() > 0,
        b.len() > 0,
        are_distinct(named_groups(a)),
        named_groups(a)[0] == named_groups(b)[0],
        named_groups(a).drop_first().to_multiset() == named_groups(b).drop_first().to_multiset(),
    ensures
        has_no_repetition(a),
        has_no_repetition(b),
        grouped(a) == grouped(b),
{
    law_groups_make_up_the_words(a);
    law_groups_make_up_the_words(b);
    lemma_same_first(named_groups(a), named_groups(b));
    lemma_same_map(named_groups(a), named_groups(b));
    law_no_repetition_means_distinct_names(a);
    law_no_repetition_means_distinct_names(b);
    law_grouped_is_the_map_of_the_groups(a);
    law_grouped_is_the_map_of_the_groups(b);
}

/// The order of the options does not matter: where the names are distinct, the command
/// group is the same, and the option groups are the same in whatever order, nothing is
/// repeated, and the command and the groups are the same.
pub proof fn law_option_order_does_not_matter(a: Seq<Seq<char>>, b: Seq<Seq<char>>)
    requires
        a.len() > 0,
        b.len() > 0,
        are_distinct(named_groups(a)),
        groups_of(a)[0] == groups_of(b)[0],
        groups_of(a).drop_first().to_multiset() == groups_of(b).drop_first().to_multiset(),
    ensures
        has_no_repetition(a),
        has_no_repetition(b),
        a[0] == b[0],
        grouped(a) == grouped(b),
{
    let f = |group: Entry| named(group);
    law_groups_make_up_the_words(a);
    law_groups_make_up_the_words(b);
    lemma_mapped_multiset(groups_of(a).drop_first(), groups_of(b).drop_first(), f);
    assert(named_groups(a).drop_first() =~= groups_of(a).drop_first().map_values(f));
    assert(named_groups(b).drop_first() =~= groups_of(b).drop_first().map_values(f));
    law_order_and_case_do_not_matter(a, b);
}

/// The ASCII letter case of the command and the options does not matter: where the
/// names are distinct, nothing is repeated and the groups are the same. What it says of
/// the lower case of the words is what grouping them ensures.
pub proof fn law_letter_case_does_not_matter(a: Seq<Seq<char>>, b: Seq<Seq<char>>)
    requires
        a.len() > 0,
        differ_in_case_only(a, b),
        are_distinct(named_groups(a)),
        lowers_ascii(a),
        lowers_ascii(b),
    ensures
        has_no_repetition(a),
        has_no_repetition(b),
        named_groups(a) == named_groups(b),
        grouped(a) == grouped(b),
{
    law_no_repetition_means_distinct_names(a);
    lemma_names_in_prefix(a, b, a.len() as int);
    lemma_same_named_groups(a, b);
    law_no_repetition_means_distinct_names(b);
    law_grouped_is_the_map_of_the_groups(a);
    law_grouped_is_the_map_of_the_groups(b);
}

/// Neither the order of the options nor the ASCII letter case matters: where the names
/// are distinct, the command has the same name and parameters but for the case of ASCII
/// letters in the name, and so have the options in whatever order, nothing is repeated
/// and the groups are the same. What it says of the lower case of the words is what
/// grouping them ensures.
pub proof fn law_order_and_ascii_case_do_not_matter(a: Seq<Seq<char>>, b: Seq<Seq<char>>)
    requires
        a.len() > 0,
        b.len() > 0,
        lowers_ascii(a),
        lowers_ascii(b),
        are_distinct(named_groups(a)),
        ascii_named_groups(a)[0] == ascii_named_groups(b)[0],
        ascii_named_groups(a).drop_first().to_multiset() == ascii_named_groups(
            b,
        ).drop_first().to_multiset(),
    ensures
        has_no_repetition(a),
        has_no_repetition(b),
        grouped(a) == grouped(b),
{
    let f = |group: Entry| named(group);
    law_groups_make_up_the_words(a);
    law_groups_make_up_the_words(b);
    lemma_same_first(ascii_named_groups(a), ascii_named_groups(b));
    lemma_mapped_multiset(ascii_named_groups(a), ascii_named_groups(b), f);
    lemma_names_by_ascii_names(a);
    lemma_same_map(renamed_groups(a), renamed_groups(b));
    lemma_names_by_ascii_names(b);
    assert(named_groups(a)[0] == f(ascii_named_groups(a)[0]));
    assert(named_groups(b)[0] == f(ascii_named_groups(b)[0]));
    lemma_mapped_multiset(
        ascii_named_groups(a).drop_first(),
        ascii_named_groups(b).drop_first(),
        f,
    );
    assert(named_groups(a).drop_first() =~= ascii_named_groups(a).drop_first().map_values(f));
    assert(named_groups(b).drop_first() =~= ascii_named_groups(b).drop_first().map_values(f));
    law_order_and_case_do_not_matter(a, b);
}

// The groups of `words`, lowered as ASCII first and then in full.
spec fn renamed_groups(words: Seq<Seq<char>>) -> Seq<Entry> {
    ascii_named_groups(words).map_values(|group: Entry| named(group))
}

// Whether `a` and `b` have the same parameters and the same names, in the same places.
spec fn have_same_names(a: Seq<Seq<char>>, b: Seq<Seq<char>>) -> bool {
    a.len() == b.len() && forall|i: int|
        #![trigger a[i]]
        #![trigger b[i]]
        0 <= i < a.len() ==> is_header(a, i) == is_header(b, i) && if is_header(a, i) {
            lowercase(a[i]) == lowercase(b[i])
        } else {
            a[i] == b[i]
        }
}

proof fn lemma_held_names(words: Seq<Seq<char>>, key: Seq<char>)
    ensures
        holds(named_groups(words), key) <==> last_header_of(words, key) >= 0,
    decreases words.len(),
{
    let groups = named_groups(words);
    if words.len() == 0 {
        assert(groups.len() == 0);
        assert forall|i: int| !holds_at(groups, key, i) by {}
    } else {
        let shorter = words.drop_last();
        let before = named_groups(shorter);
        lemma_held_names(shorter, key);
        law_groups_make_up_the_words(shorter);
        if holds(before, key) {
            let i = choose|i: int| holds_at(before, key, i);
            assert(groups[i].0 == before[i].0);
            assert(holds_at(groups, key, i));
        }
        if is_header(words, words.len() - 1) && lowercase(words.last()) == key {
            assert(holds_at(groups, key, groups.len() - 1));
        }
        if holds(groups, key) {
            let i = choose|i: int| holds_at(groups, key, i);
            if i < before.len() {
                assert(groups[i].0 == before[i].0);
                assert(holds_at(before, key, i));
            }
        }
    }
}

// Words that are no options join the group opened last, at `header`.
proof fn lemma_grouped_params(words: Seq<Seq<char>>, header: int, params: Seq<Seq<char>>)
    requires
        is_header(words, header),
        params_end(words, header + 1) == words.len(),
        forall|i: int| 0 <= i < params.len() ==> !is_option(#[trigger] params[i]),
    ensures
        grouped(words).dom().contains(lowercase(words[header])),
        grouped(words + params) == grouped(words).insert(
            lowercase(words[header]),
            grouped(words)[lowercase(words[header])] + params,
        ),
        params_end(words + params, header + 1) == words.len() + params.len(),
    decreases params.len(),
{
    let key = lowercase(words[header]);
    if params.len() == 0 {
        lemma_grouped_push_param(words, Seq::empty(), header);
        assert(words + params =~= words);
        assert(grouped(words)[key] + params =~= grouped(words)[key]);
        assert(grouped(words) =~= grouped(words).insert(key, grouped(words)[key]));
    } else {
        let front = params.drop_last();
        let so_far = words + front;
        assert forall|i: int| 0 <= i < front.len() implies !is_option(#[trigger] front[i]) by {
            assert(front[i] == params[i]);
        }
        lemma_grouped_params(words, header, front);
        assert(so_far.push(params.last()) =~= words + params);
        assert(so_far[header] == words[header]);
        assert(!is_option(params[params.len() - 1]));
        lemma_grouped_push_param(so_far, params.last(), header);
        lemma_params_end_push(so_far, params.last(), header + 1);
        assert((grouped(words)[key] + front).push(params.last()) =~= grouped(words)[key] + params);
        assert(grouped(words + params) =~= grouped(words).insert(
            key,
            grouped(words)[key] + params,
        ));
    }
}

// The place of the word that opens the last group.
proof fn lemma_last_group(words: Seq<Seq<char>>) -> (header: int)
    requires
        words.len() > 0,
    ensures
        is_header(words, header),
        params_end(words, header + 1) == words.len(),
        groups_of(words).len() > 0,
        groups_of(words).last().0 == words[header],
    decreases words.len(),
{
    let last = words.len() - 1;
    if is_header(words, last) {
        last
    } else {
        let shorter = words.drop_last();
        let header = lemma_last_group(shorter);
        assert(shorter.push(words.last()) =~= words);
        lemma_params_end_push(shorter, words.last(), header + 1);
        header
    }
}

proof fn lemma_distinct_push(entries: Seq<Entry>, entry: Entry)
    ensures
        are_distinct(entries.push(entry)) <==> are_distinct(entries) && !holds(entries, entry.0),
{
    let new = entries.push(entry);
    if are_distinct(new) {
        assert forall|i: int, j: int|
            #![trigger entries[i], entries[j]]
            0 <= i < entries.len() && 0 <= j < entries.len() && entries[i].0
                == entries[j].0 implies i == j by {
            assert(new[i].0 == new[j].0);
        }
        assert forall|i: int| !#[trigger] holds_at(entries, entry.0, i) by {
            if holds_at(entries, entry.0, i) {
                assert(new[i].0 == new[entries.len() as int].0);
            }
        }
    }
    if are_distinct(entries) && !holds(entries, entry.0) {
        lemma_map_push(entries, entry);
    }
}

proof fn lemma_distinct_by_keys(entries: Seq<Entry>, others: Seq<Entry>)
    requires
        entries.len() == others.len(),
        forall|i: int| 0 <= i < others.len() ==> (#[trigger] others[i]).0 == entries[i].0,
    ensures
        are_distinct(entries) == are_distinct(others),
{
    if are_distinct(entries) {
        assert forall|i: int, j: int|
            #![trigger others[i], others[j]]
            0 <= i < others.len() && 0 <= j < others.len() && others[i].0
                == others[j].0 implies i == j by {
            assert(entries[i].0 == entries[j].0);
        }
    }
    if are_distinct(others) {
        assert forall|i: int, j: int|
            #![trigger entries[i], entries[j]]
            0 <= i < entries.len() && 0 <= j < entries.len() && entries[i].0
                == entries[j].0 implies i == j by {
            assert(others[i].0 == others[j].0);
        }
    }
}

proof fn lemma_same_first(s: Seq<Entry>, t: Seq<Entry>)
    requires
        s.len() > 0,
        t.len() > 0,
        s[0] == t[0],
        s.drop_first().to_multiset() == t.drop_first().to_multiset(),
    ensures
        s.to_multiset() == t.to_multiset(),
{
    broadcast use vstd::seq_lib::group_to_multiset_ensures;

    assert(s.drop_first() =~= s.remove(0));
    assert(t.drop_first() =~= t.remove(0));
    assert(s.to_multiset() =~= s.remove(0).to_multiset().insert(s[0])) by {
        assert(s.contains(s[0]));
    }
    assert(t.to_multiset() =~= t.remove(0).to_multiset().insert(t[0])) by {
        assert(t.contains(t[0]));
    }
}

proof fn lemma_mapped_multiset(s: Seq<Entry>, t: Seq<Entry>, f: spec_fn(Entry) -> Entry)
    requires
        s.to_multiset() == t.to_multiset(),
    ensures
        s.map_values(f).to_multiset() == t.map_values(f).to_multiset(),
    decreases s.len(),
{
    broadcast use vstd::seq_lib::group_to_multiset_ensures;

    assert(s.len() == s.to_multiset().len());
    assert(t.len() == t.to_multiset().len());
    if s.len() == 0 {
        assert(s.map_values(f) =~= t.map_values(f));
    } else {
        assert(s.contains(s[0]));
        assert(t.to_multiset().count(s[0]) > 0);
        assert(t.contains(s[0]));
        let i = choose|i: int| 0 <= i < t.len() && t[i] == s[0];
        assert(s.remove(0).to_multiset() == t.remove(i).to_multiset());
        lemma_mapped_multiset(s.remove(0), t.remove(i), f);
        let ms = s.map_values(f);
        let mt = t.map_values(f);
        assert(s.remove(0).map_values(f) =~= ms.remove(0));
        assert(t.remove(i).map_values(f) =~= mt.remove(i));
        assert(ms[0] == mt[i]);
        assert(ms.contains(ms[0]));
        assert(mt.contains(mt[i]));
        assert(ms.to_multiset() =~= ms.remove(0).to_multiset().insert(ms[0]));
        assert(mt.to_multiset() =~= mt.remove(i).to_multiset().insert(mt[i]));
    }
}

proof fn lemma_same_map(s: Seq<Entry>, t: Seq<Entry>)
    requires
        are_distinct(s),
        s.to_multiset() == t.to_multiset(),
    ensures
        are_distinct(t),
        map_of(s) == map_of(t),
{
    broadcast use vstd::seq_lib::group_to_multiset_ensures;

    assert forall|entry: Entry| s.contains(entry) == t.contains(entry) by {
        vstd::seq_lib::to_multiset_contains(s, entry);
        vstd::seq_lib::to_multiset_contains(t, entry);
    }
    assert(s.no_duplicates()) by {
        assert forall|i: int, j: int|
            0 <= i < s.len() && 0 <= j < s.len() && i != j implies s[i] != s[j] by {
            if s[i] == s[j] {
                assert(s[i].0 == s[j].0);
            }
        }
    }
    s.lemma_multiset_has_no_duplicates();
    t.lemma_multiset_has_no_duplicates_conv();
    assert forall|i: int, j: int|
        #![trigger t[i], t[j]]
        0 <= i < t.len() && 0 <= j < t.len() && t[i].0 == t[j].0 implies i == j by {
        assert(t.contains(t[i]) && t.contains(t[j]));
        let k = choose|k: int| 0 <= k < s.len() && s[k] == t[i];
        let l = choose|l: int| 0 <= l < s.len() && s[l] == t[j];
        assert(s[k].0 == s[l].0);
    }
    assert forall|key: Seq<char>| #[trigger] holds(s, key) == holds(t, key) by {
        if holds(s, key) {
            lemma_found_in_other(s, t, key);
        }
        if holds(t, key) {
            lemma_found_in_other(t, s, key);
        }
    }
    assert forall|key: Seq<char>| holds(s, key) implies #[trigger] map_of(s)[key] == map_of(
        t,
    )[key] by {
        lemma_found_in_other(s, t, key);
    }
    assert(map_of(s) =~= map_of(t));
}

proof fn lemma_found_in_other(s: Seq<Entry>, t: Seq<Entry>, key: Seq<char>)
    requires
        are_distinct(s),
        are_distinct(t),
        holds(s, key),
        forall|entry: Entry| s.contains(entry) == t.contains(entry),
    ensures
        holds(t, key),
        map_of(s)[key] == map_of(t)[key],
{
    let i = choose|i: int| holds_at(s, key, i);
    assert(s.contains(s[i]));
    assert(t.contains(s[i]));
    let j = choose|j: int| 0 <= j < t.len() && t[j] == s[i];
    assert(holds_at(t, key, j));
    lemma_map_of(s, key, i);
    lemma_map_of(t, key, j);
}

proof fn lemma_same_named_groups(a: Seq<Seq<char>>, b: Seq<Seq<char>>)
    requires
        have_same_names(a, b),
    ensures
        named_groups(a) == named_groups(b),
        forall|key: Seq<char>| #[trigger] last_header_of(a, key) == last_header_of(b, key),
    decreases a.len(),
{
    if a.len() == 0 {
        assert(named_groups(a) =~= named_groups(b));
    } else {
        let last = a.len() - 1;
        let c = a.drop_last();
        let d = b.drop_last();
        assert(have_same_names(c, d)) by {
            assert forall|i: int| 0 <= i < c.len() implies is_header(c, i) == is_header(d, i)
                && if is_header(c, i) {
                lowercase(#[trigger] c[i]) == lowercase(d[i])
            } else {
                c[i] == d[i]
            } by {
                assert(c[i] == a[i] && d[i] == b[i]);
            }
        }
        lemma_same_named_groups(c, d);
        law_groups_make_up_the_words(c);
        law_groups_make_up_the_words(d);
        assert(a[last] == a.last() && b[last] == b.last());
        assert forall|key: Seq<char>| #[trigger]
            last_header_of(a, key) == last_header_of(b, key) by {
            assert(last_header_of(c, key) == last_header_of(d, key));
        }
        let before = named_groups(c);
        if is_header(a, last) {
            let entry: Entry = (lowercase(a.last()), Seq::empty());
            assert(named_groups(a) =~= before.push(entry));
            assert(named_groups(b) =~= before.push(entry));
        } else {
            let i = before.len() - 1;
            let entry: Entry = (before[i].0, before[i].1.push(a.last()));
            assert(named_groups(d)[i] == before[i]);
            assert(named_groups(a) =~= before.update(i, entry));
            assert(named_groups(b) =~= before.update(i, entry));
        }
    }
}

// Where the names are distinct, lowering their ASCII letters first changes nothing.
proof fn lemma_names_by_ascii_names(words: Seq<Seq<char>>)
    requires
        lowers_ascii(words),
        are_distinct(named_groups(words)) || are_distinct(renamed_groups(words)),
    ensures
        named_groups(words) == renamed_groups(words),
    decreases words.len(),
{
    if words.len() == 0 {
        assert(named_groups(words) =~= renamed_groups(words));
    } else {
        let last = words.len() - 1;
        let shorter = words.drop_last();
        law_groups_make_up_the_words(shorter);
        lemma_distinct_before(named_groups(shorter), named_groups(words));
        lemma_distinct_before(renamed_groups(shorter), renamed_groups(words));
        assert forall|i: int| i < last implies #[trigger] is_repeated(shorter, i) == is_repeated(
            words,
            i,
        ) by {
            if 0 < i {
                assert(shorter.take(i) =~= words.take(i));
            }
        }
        assert forall|i: int| #[trigger]
            is_header(shorter, i) && (forall|j: int|
                j < i ==> !#[trigger] is_repeated(shorter, j)) implies lowers_ascii_letters(
            shorter[i],
        ) by {
            assert(is_header(words, i));
            assert forall|j: int| j < i implies !#[trigger] is_repeated(words, j) by {
                assert(!is_repeated(shorter, j));
            }
        }
        lemma_names_by_ascii_names(shorter);
        let before = named_groups(shorter);
        if is_header(words, last) {
            let entry: Entry = (lowercase(words.last()), Seq::empty());
            law_no_repetition_means_distinct_names(shorter);
            assert forall|j: int| j < last implies !#[trigger] is_repeated(words, j) by {
                assert(!is_repeated(shorter, j));
            }
            assert(lowers_ascii_letters(words[last]));
            assert(named_groups(words) =~= before.push(entry));
            assert(renamed_groups(words) =~= renamed_groups(shorter).push(entry));
        } else {
            let i = before.len() - 1;
            let entry: Entry = (before[i].0, before[i].1.push(words.last()));
            assert(renamed_groups(shorter)[i] == before[i]);
            assert(named_groups(words) =~= before.update(i, entry));
            assert(renamed_groups(words) =~= renamed_groups(shorter).update(i, entry));
        }
    }
}

// Groups that keep their names when a group is added or the last one grows: if all
// names are distinct then, they were before.
proof fn lemma_distinct_before(before: Seq<Entry>, groups: Seq<Entry>)
    requires
        before.len() <= groups.len(),
        forall|i: int| 0 <= i < before.len() ==> (#[trigger] before[i]).0 == groups[i].0,
    ensures
        are_distinct(groups) ==> are_distinct(before),
{
    if are_distinct(groups) {
        assert forall|i: int, j: int|
            #![trigger before[i], before[j]]
            0 <= i < before.len() && 0 <= j < before.len() && before[i].0
                == before[j].0 implies i == j by {
            assert(groups[i].0 == groups[j].0);
        }
    }
}

// Options stay options in another letter case.
proof fn lemma_case_keeps_option(word: Seq<char>, other: Seq<char>)
    requires
        ascii_lowercase(word) == ascii_lowercase(other),
    ensures
        is_option(word) == is_option(other),
{
    assert(ascii_lowercase(word).len() == word.len());
    assert(ascii_lowercase(other).len() == other.len());
    if word.len() > 0 {
        assert(ascii_lowercase(word)[0] == ascii_lower(word[0]));
        assert(ascii_lowercase(other)[0] == ascii_lower(other[0]));
    }
}

// The first `n` words have the same names, and no option among them is repeated.
proof fn lemma_names_in_prefix(a: Seq<Seq<char>>, b: Seq<Seq<char>>, n: int)
    requires
        differ_in_case_only(a, b),
        has_no_repetition(a),
        lowers_ascii(a),
        lowers_ascii(b),
        0 <= n <= a.len(),
    ensures
        have_same_names(a.take(n), b.take(n)),
        n == a.len() ==> have_same_names(a, b),
        forall|i: int| i < n ==> !#[trigger] is_repeated(b, i),
    decreases n,
{
    if n > 0 {
        let i = n - 1;
        let c = a.take(i);
        let d = b.take(i);
        lemma_names_in_prefix(a, b, i);
        lemma_same_named_groups(c, d);
        if a[i] != b[i] {
            lemma_case_keeps_option(a[i], b[i]);
        }
        assert(is_header(a, i) == is_header(b, i));
        assert(!is_repeated(a, i));
        assert(is_header(a, i) ==> lowercase(a[i]) == lowercase(b[i]));
        assert(is_repeated(b, i) == is_repeated(a, i));
        let e = a.take(n);
        let f = b.take(n);
        assert forall|j: int| 0 <= j < n implies is_header(e, j) == is_header(f, j) && if is_header(
            e,
            j,
        ) {
            lowercase(#[trigger] e[j]) == lowercase(f[j])
        } else {
            e[j] == f[j]
        } by {
            assert(e[j] == a[j] && f[j] == b[j]);
            if j < i {
                assert(c[j] == a[j] && d[j] == b[j]);
            }
        }
        assert(have_same_names(e, f));
    }
    if n == a.len() {
        assert(a.take(n) =~= a);
        assert(b.take(n) =~= b);
    }
}

} // verus!
