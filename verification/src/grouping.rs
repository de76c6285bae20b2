//! Grouping the words of a command line by the command or option they belong to.

use vstd::prelude::*;

use crate::payload::ParsePayload;
use crate::text::{str_views, views};

verus! {

/// Why the words of a command line cannot be grouped.
#[derive(Debug)]
pub enum GroupingError {
    /// There is no word.
    NoCommand,
    /// This option names a group that is already there.
    DefinedMultipleTimes(String),
}

/// Follows the option in the text of `GroupingError::DefinedMultipleTimes`.
pub const DEFINED_MULTIPLE_TIMES: &'static str =
    " is defined multiple times. Each option/command can be specified at most once.";

impl GroupingError {
    /// The text of the error.
    pub open spec fn text(self) -> Seq<char> {
        match self {
            GroupingError::NoCommand => "No command specified"@,
            GroupingError::DefinedMultipleTimes(option) => option@ + DEFINED_MULTIPLE_TIMES@,
        }
    }

    /// Writes the error out.
    pub fn message(&self) -> (message: String)
        ensures
            message@ == self.text(),
    {
        match self {
            GroupingError::NoCommand => "No command specified".to_owned(),
            GroupingError::DefinedMultipleTimes(option) => {
                let mut message = option.clone();
                message.append(DEFINED_MULTIPLE_TIMES);
                message
            },
        }
    }
}

/// Whether `word` names an option.
pub open spec fn is_option(word: Seq<char>) -> bool {
    word.len() > 0 && word[0] == '-'
}

/// Whether the word at `i` opens a group: the command does, and each option does.
pub open spec fn is_header(words: Seq<Seq<char>>, i: int) -> bool {
    0 <= i < words.len() && (i == 0 || is_option(words[i]))
}

/// What `str::to_lowercase` makes of a text.
pub uninterp spec fn lowercase(text: Seq<char>) -> Seq<char>;

/// The lower case of an ASCII character.
pub open spec fn ascii_lower(c: char) -> char {
    if 'A' <= c <= 'Z' {
        (c as u32 + 32) as char
    } else {
        c
    }
}

/// `text` with its ASCII letters in lower case.
pub open spec fn ascii_lowercase(text: Seq<char>) -> Seq<char> {
    text.map_values(|c: char| ascii_lower(c))
}

/// Whether all characters of `text` are ASCII.
pub open spec fn is_ascii_text(text: Seq<char>) -> bool {
    forall|i: int| 0 <= i < text.len() ==> (#[trigger] text[i]) <= '\u{7f}'
}

/// The last word of `words` that opens the group `key`; -1 where none does.
pub open spec fn last_header_of(words: Seq<Seq<char>>, key: Seq<char>) -> int
    decreases words.len(),
{
    if words.len() == 0 {
        -1
    } else if is_header(words, words.len() - 1) && lowercase(words.last()) == key {
        words.len() - 1
    } else {
        last_header_of(words.drop_last(), key)
    }
}

/// Where the parameters that start at `i` end: at the next option or at the end.
pub open spec fn params_end(words: Seq<Seq<char>>, i: int) -> int
    decreases words.len() - i,
{
    if i >= words.len() || is_option(words[i]) {
        i
    } else {
        params_end(words, i + 1)
    }
}

/// The words between the one at `i` and the next option.
pub open spec fn params_of(words: Seq<Seq<char>>, i: int) -> Seq<Seq<char>> {
    words.subrange(i + 1, params_end(words, i + 1))
}

/// The groups of `words`: the command and each option in lower case, with the words
/// that follow it up to the next option.
pub open spec fn grouped(words: Seq<Seq<char>>) -> Map<Seq<char>, Seq<Seq<char>>> {
    Map::new(
        |key: Seq<char>| last_header_of(words, key) >= 0,
        |key: Seq<char>| params_of(words, last_header_of(words, key)),
    )
}

/// Whether the word at `i` is an option whose group is already there. The letter case
/// of options does not count.
pub open spec fn is_repeated(words: Seq<Seq<char>>, i: int) -> bool {
    0 < i < words.len() && is_option(words[i]) && last_header_of(
        words.take(i),
        lowercase(words[i]),
    ) >= 0
}

/// Whether the word at `i` is the first option that is repeated.
pub open spec fn is_first_repeated(words: Seq<Seq<char>>, i: int) -> bool {
    is_repeated(words, i) && forall|j: int| j < i ==> !#[trigger] is_repeated(words, j)
}

/// Whether no option is repeated.
pub open spec fn has_no_repetition(words: Seq<Seq<char>>) -> bool {
    forall|i: int| !#[trigger] is_repeated(words, i)
}

/// Whether the letter case of ASCII letters does not count in the lower case of `text`,
/// which is the ASCII lower case where all of `text` is ASCII.
pub open spec fn lowers_ascii_letters(text: Seq<char>) -> bool {
    &&& lowercase(text) == lowercase(ascii_lowercase(text))
    &&& is_ascii_text(text) ==> lowercase(text) == ascii_lowercase(text)
}

/// Whether ASCII letters are lowered in the command and the options of `words`, up to
/// the first option that is repeated and including it.
pub open spec fn lowers_ascii(words: Seq<Seq<char>>) -> bool {
    forall|i: int| #[trigger]
        is_header(words, i) && (forall|j: int| j < i ==> !#[trigger] is_repeated(words, j))
            ==> lowers_ascii_letters(words[i])
}

/// Whether grouping `words` fails with `error`.
pub open spec fn grouping_fails(words: Seq<Seq<char>>, error: GroupingError) -> bool {
    match error {
        GroupingError::NoCommand => words.len() == 0,
        GroupingError::DefinedMultipleTimes(option) => exists|i: int|
            #[trigger] is_first_repeated(words, i) && option@ == words[i],
    }
}

/// Calls `str::to_lowercase`, whose result depends on the text alone. Of an ASCII text it
/// is the ASCII lower case. In any text, lowering the ASCII letters beforehand changes
/// nothing: an ASCII letter has the same lower case in either case, and the one rule that
/// looks at the neighbours of a character, that of the final sigma, only asks whether
/// they are letters that have a case.
#[verifier::external_body]
fn to_lowercase(text: &str) -> (lower: String)
    ensures
        lower@ == lowercase(text@),
        lower@ == lowercase(ascii_lowercase(text@)),
        is_ascii_text(text@) ==> lower@ == ascii_lowercase(text@),
{
    text.to_lowercase()
}

fn names_option(word: &str) -> (option: bool)
    ensures
        option == is_option(word@),
{
    !word.is_empty() && word.get_char(0) == '-'
}

proof fn lemma_last_header(words: Seq<Seq<char>>, key: Seq<char>)
    ensures
        -1 <= last_header_of(words, key) < words.len(),
        last_header_of(words, key) >= 0 ==> is_header(words, last_header_of(words, key))
            && lowercase(words[last_header_of(words, key)]) == key,
    decreases words.len(),
{
    if words.len() > 0 {
        lemma_last_header(words.drop_last(), key);
    }
}

pub(crate) proof fn lemma_params_end(words: Seq<Seq<char>>, i: int)
    requires
        0 <= i <= words.len(),
    ensures
        i <= params_end(words, i) <= words.len(),
        params_end(words, i) < words.len() ==> is_option(words[params_end(words, i)]),
        forall|j: int| i <= j < params_end(words, i) ==> !is_option(#[trigger] words[j]),
    decreases words.len() - i,
{
    if i < words.len() && !is_option(words[i]) {
        lemma_params_end(words, i + 1);
    }
}

// How the end of a group moves when one more word comes.
pub(crate) proof fn lemma_params_end_push(words: Seq<Seq<char>>, word: Seq<char>, i: int)
    requires
        0 <= i <= words.len(),
    ensures
        params_end(words.push(word), i) == if params_end(words, i) == words.len() && !is_option(
            word,
        ) {
            (words.len() + 1) as int
        } else {
            params_end(words, i)
        },
    decreases words.len() - i,
{
    let longer = words.push(word);
    if i < words.len() {
        assert(longer[i] == words[i]);
        if !is_option(words[i]) {
            lemma_params_end_push(words, word, i + 1);
        }
    } else if !is_option(word) {
        assert(params_end(longer, i + 1) == i + 1);
    }
}

// The command alone is a group without parameters.
pub(crate) proof fn lemma_grouped_one(words: Seq<Seq<char>>)
    requires
        words.len() == 1,
    ensures
        grouped(words) == Map::<Seq<char>, Seq<Seq<char>>>::empty().insert(
            lowercase(words[0]),
            Seq::empty(),
        ),
{
    let key = lowercase(words[0]);
    assert(words.drop_last() =~= Seq::empty());
    assert forall|k: Seq<char>| #[trigger] last_header_of(words, k) == if k == key {
        0int
    } else {
        -1int
    } by {
        assert(last_header_of(Seq::empty(), k) == -1);
    }
    assert(params_of(words, 0) =~= Seq::empty());
    assert(grouped(words) =~= Map::empty().insert(key, Seq::empty()));
}

pub(crate) proof fn lemma_grouped_push_option(words: Seq<Seq<char>>, option: Seq<char>)
    requires
        words.len() > 0,
        is_option(option),
    ensures
        grouped(words.push(option)) == grouped(words).insert(lowercase(option), Seq::empty()),
{
    let longer = words.push(option);
    assert(longer.drop_last() =~= words);
    assert forall|key: Seq<char>| #[trigger] last_header_of(longer, key) == if key == lowercase(
        option,
    ) {
        words.len() as int
    } else {
        last_header_of(words, key)
    } by {}
    assert forall|key: Seq<char>| last_header_of(longer, key) >= 0 implies #[trigger] grouped(
        longer,
    )[key] == grouped(words).insert(lowercase(option), Seq::empty())[key] by {
        if key == lowercase(option) {
            assert(params_end(longer, (words.len() + 1) as int) == words.len() + 1);
            assert(params_of(longer, words.len() as int) =~= Seq::empty());
        } else {
            let i = last_header_of(words, key);
            lemma_last_header(words, key);
            lemma_params_end(words, i + 1);
            lemma_params_end_push(words, option, i + 1);
            assert(params_of(longer, i) =~= params_of(words, i));
        }
    }
    assert(grouped(longer) =~= grouped(words).insert(lowercase(option), Seq::empty()));
}

// A word that is no option joins the group opened last, at `header`.
pub(crate) proof fn lemma_grouped_push_param(words: Seq<Seq<char>>, param: Seq<char>, header: int)
    requires
        is_header(words, header),
        params_end(words, header + 1) == words.len(),
        !is_option(param),
    ensures
        ({
            let key = lowercase(words[header]);
            &&& grouped(words).dom().contains(key)
            &&& grouped(words.push(param)) == grouped(words).insert(
                key,
                grouped(words)[key].push(param),
            )
        }),
{
    let longer = words.push(param);
    let current = lowercase(words[header]);
    assert(longer.drop_last() =~= words);
    lemma_params_end(words, header + 1);
    lemma_last_header_is_last(words, header);
    assert forall|key: Seq<char>| #[trigger]
        last_header_of(longer, key) == last_header_of(words, key) by {}
    assert forall|key: Seq<char>| last_header_of(longer, key) >= 0 implies #[trigger] grouped(
        longer,
    )[key] == grouped(words).insert(current, grouped(words)[current].push(param))[key] by {
        let i = last_header_of(words, key);
        lemma_last_header(words, key);
        lemma_params_end(words, i + 1);
        lemma_params_end_push(words, param, i + 1);
        if key == current {
            assert(i == header);
            assert(params_of(longer, i) =~= params_of(words, i).push(param));
        } else {
            // Another group ends before the last one begins.
            if i < header && params_end(words, i + 1) == words.len() {
                assert(!is_option(words[header]));
            }
            if i > header {
                assert(!is_option(words[i]));
            }
            assert(params_of(longer, i) =~= params_of(words, i));
        }
    }
    assert(grouped(longer) =~= grouped(words).insert(
        current,
        grouped(words)[current].push(param),
    ));
}

proof fn lemma_last_header_is_last(words: Seq<Seq<char>>, header: int)
    requires
        is_header(words, header),
        forall|j: int| header < j < words.len() ==> !is_option(#[trigger] words[j]),
    ensures
        last_header_of(words, lowercase(words[header])) == header,
    decreases words.len(),
{
    if header < words.len() - 1 {
        let shorter = words.drop_last();
        assert(!is_option(words[words.len() - 1]));
        assert forall|j: int| header < j < shorter.len() implies !is_option(
            #[trigger] shorter[j],
        ) by {
            assert(shorter[j] == words[j]);
        }
        lemma_last_header_is_last(shorter, header);
    }
}

/// The groups are those that the command and the options open.
pub proof fn law_groups_are_the_headers(words: Seq<Seq<char>>, key: Seq<char>)
    ensures
        grouped(words).dom().contains(key) <==> exists|i: int| #[trigger]
            is_header(words, i) && lowercase(words[i]) == key,
{
    lemma_last_header(words, key);
    if grouped(words).dom().contains(key) {
        assert(is_header(words, last_header_of(words, key)));
    }
    if exists|i: int| #[trigger] is_header(words, i) && lowercase(words[i]) == key {
        let i = choose|i: int| #[trigger] is_header(words, i) && lowercase(words[i]) == key;
        lemma_header_is_found(words, i);
    }
}

/// Each option can be specified at most once: an option is refused where the command or
/// an option before it has the same name, in whatever letter case.
pub proof fn law_option_comes_once(words: Seq<Seq<char>>, i: int, j: int)
    requires
        is_header(words, i),
        i < j < words.len(),
        is_option(words[j]),
        lowercase(words[i]) == lowercase(words[j]),
    ensures
        is_repeated(words, j),
        !has_no_repetition(words),
{
    let before = words.take(j);
    assert(before[i] == words[i]);
    assert(is_header(before, i));
    lemma_header_is_found(before, i);
    assert(is_repeated(words, j));
}

/// A word that is no option is a parameter of the command or option before it.
pub proof fn law_params_follow_their_header(words: Seq<Seq<char>>, header: int, i: int)
    requires
        is_header(words, header),
        header < i < words.len(),
        forall|j: int| header < j <= i ==> !is_option(#[trigger] words[j]),
        has_no_repetition(words),
    ensures
        ({
            let params = grouped(words)[lowercase(words[header])];
            &&& grouped(words).dom().contains(lowercase(words[header]))
            &&& i - header - 1 < params.len()
            &&& params[i - header - 1] == words[i]
        }),
{
    let key = lowercase(words[header]);
    lemma_header_is_found(words, header);
    lemma_last_header(words, key);
    let last = last_header_of(words, key);
    if last > header {
        law_option_comes_once(words, header, last);
    }
    lemma_params_end(words, header + 1);
    if params_end(words, header + 1) <= i {
        assert(is_option(words[params_end(words, header + 1)]));
    }
}

proof fn lemma_header_is_found(words: Seq<Seq<char>>, i: int)
    requires
        is_header(words, i),
    ensures
        last_header_of(words, lowercase(words[i])) >= i,
    decreases words.len(),
{
    if i < words.len() - 1 {
        assert(words.drop_last()[i] == words[i]);
        assert(is_header(words.drop_last(), i));
        lemma_header_is_found(words.drop_last(), i);
    }
}

/// Groups the commands/options and their corresponding parameters.
///
/// The words follow the pattern `COMMAND [command_param...] [OPTION
/// [option_param...]...]`. Returns the command as it was written, and the groups.
pub fn prepare_parse_payload<'a>(args: &'a [String]) -> (result: Result<
    (&'a str, ParsePayload<'a>),
    GroupingError,
>)
    ensures
        match result {
            Ok((command, payload)) => {
                &&& args@.len() > 0
                &&& command@ == args@[0]@
                &&& has_no_repetition(views(args@))
                &&& payload@ == grouped(views(args@))
            },
            Err(error) => grouping_fails(views(args@), error),
        },
        lowers_ascii(views(args@)),
{
    if args.len() == 0 {
        return Err(GroupingError::NoCommand);
    }
    let ghost words = views(args@);
    let command = args[0].as_str();
    let mut payload: ParsePayload<'a> = ParsePayload::new();
    let mut current = to_lowercase(command);
    payload.insert(current.clone(), Vec::new());
    let ghost mut header: int = 0;
    proof {
        lemma_grouped_one(words.take(1));
        assert(str_views(Seq::<&str>::empty()) =~= Seq::empty());
        assert(payload@ =~= grouped(words.take(1)));
    }
    let mut i: usize = 1;
    while i < args.len()
        invariant
            words == views(args@),
            1 <= i <= args@.len(),
            payload@ == grouped(words.take(i as int)),
            is_header(words.take(i as int), header),
            params_end(words.take(i as int), header + 1) == i,
            current@ == lowercase(words[header]),
            forall|j: int| j < i ==> !#[trigger] is_repeated(words, j),
            forall|j: int| #[trigger]
                is_header(words, j) && j < i ==> lowers_ascii_letters(words[j]),
        decreases args@.len() - i,
    {
        let arg: &'a str = args[i].as_str();
        let ghost done = words.take(i as int);
        assert(words.take(i + 1) =~= done.push(words[i as int]));
        if names_option(arg) {
            current = to_lowercase(arg);
            if payload.contains_key(current.as_str()) {
                assert(is_first_repeated(words, i as int));
                return Err(GroupingError::DefinedMultipleTimes(args[i].clone()));
            }
            payload.insert(current.clone(), Vec::new());
            proof {
                lemma_grouped_push_option(done, words[i as int]);
                assert(str_views(Seq::<&str>::empty()) =~= Seq::empty());
                header = i as int;
            }
        } else {
            proof {
                lemma_grouped_push_param(done, words[i as int], header);
                lemma_params_end_push(done, words[i as int], header + 1);
            }
            payload.push_param(current.as_str(), arg);
        }
        i = i + 1;
    }
    assert(words.take(args@.len() as int) =~= words);
    Ok((command, payload))
}

} // verus!
