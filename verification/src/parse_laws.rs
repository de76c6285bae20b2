//! Where each outcome of parsing a command line comes from.

use vstd::prelude::*;

use crate::grouping::{grouped, grouping_fails, has_no_repetition, GroupingError};
use crate::parse::{
    ignored_text, is_conclusion, is_parse_of, operation_count_of, Answers,
    CassandraStressParsingResult, ParsingError,
};
use crate::payload::{are_distinct, entry_line, holds, holds_at, lemma_map_of, Entry, ParsePayload};
use crate::repair::repaired;
use crate::repair_laws::law_repaired_is_settled;
use crate::settings::{
    CassandraStressSettings, ColumnOption, Command, CommandParams, NodeOption, OptionModules,
    SchemaOption, TransportOption,
};
use crate::text::{joined, lemma_joined_push, views};
use crate::text_laws::{law_decimal_reads_back, number};

verus! {

/// The number of operations reads back from the text that the population module gets, so
/// different numbers have different texts. Without a number it is a million.
pub proof fn law_operation_count_reads_back(count: u64, other: u64)
    ensures
        number(operation_count_of(Some(count))) == count,
        forall|i: int|
            0 <= i < operation_count_of(Some(count)).len() ==> '0' <= #[trigger] operation_count_of(
                Some(count),
            )[i] <= '9',
        operation_count_of(Some(count)).len() > 0,
        count > 0 ==> operation_count_of(Some(count))[0] != '0',
        count == 0 ==> operation_count_of(Some(count)).len() == 1,
        count != other ==> operation_count_of(Some(count)) != operation_count_of(Some(other)),
        number(operation_count_of(None)) == 1000000,
{
    law_decimal_reads_back(count as nat);
    law_decimal_reads_back(other as nat);
    reveal_strlit("1000000");
    let text = operation_count_of(None);
    assert(text =~= seq!['1', '0', '0', '0', '0', '0', '0']);
    lemma_number_push(Seq::empty(), '1');
    lemma_number_push(seq!['1'], '0');
    lemma_number_push(seq!['1', '0'], '0');
    lemma_number_push(seq!['1', '0', '0'], '0');
    lemma_number_push(seq!['1', '0', '0', '0'], '0');
    lemma_number_push(seq!['1', '0', '0', '0', '0'], '0');
    lemma_number_push(seq!['1', '0', '0', '0', '0', '0'], '0');
    assert(Seq::<char>::empty().push('1') =~= seq!['1']);
    assert(seq!['1'].push('0') =~= seq!['1', '0']);
    assert(seq!['1', '0'].push('0') =~= seq!['1', '0', '0']);
    assert(seq!['1', '0', '0'].push('0') =~= seq!['1', '0', '0', '0']);
    assert(seq!['1', '0', '0', '0'].push('0') =~= seq!['1', '0', '0', '0', '0']);
    assert(seq!['1', '0', '0', '0', '0'].push('0') =~= seq!['1', '0', '0', '0', '0', '0']);
    assert(seq!['1', '0', '0', '0', '0', '0'].push('0') =~= text);
}

proof fn lemma_number_push(text: Seq<char>, c: char)
    ensures
        number(text.push(c)) == 10 * number(text) + (c as int - '0' as int),
{
    assert(text.push(c).drop_last() =~= text);
}

/// An option that is left has a line with its name, a blank, and its parameters with
/// blanks between them.
pub proof fn law_line_of_an_option(name: Seq<char>, params: Seq<Seq<char>>, param: Seq<char>)
    ensures
        entry_line((name, Seq::empty())) == name.push(' '),
        entry_line((name, seq![param])) == name.push(' ') + param,
        params.len() > 0 ==> entry_line((name, params.push(param))) == entry_line(
            (name, params),
        ).push(' ') + param,
{
    reveal_strlit(" ");
    assert(" "@ =~= seq![' ']);
    assert(entry_line((name, Seq::empty())) =~= name.push(' '));
    assert(entry_line((name, seq![param])) =~= name.push(' ') + param);
    if params.len() > 0 {
        lemma_joined_push(params, param, " "@);
        assert(entry_line((name, params.push(param))) =~= entry_line((name, params)).push(' ')
            + param);
    }
}

/// Settings are returned exactly if nothing is left to read. Else there is one line for
/// each option that is left, and none besides.
pub proof fn law_leftovers_are_reported<M: OptionModules>(
    settings: CassandraStressSettings<M>,
    payload: ParsePayload,
    result: Result<CassandraStressParsingResult<M>, ParsingError<M::Error>>,
)
    requires
        is_conclusion(settings, payload, result),
    ensures
        payload@.dom().finite(),
        payload@.dom().len() == 0 ==> (result matches Ok(
            CassandraStressParsingResult::Workload(workload),
        ) && *workload == settings),
        payload@.dom().len() > 0 ==> {
            &&& result matches Err(ParsingError::Ignored(lines))
            &&& lines@.len() == payload@.dom().len()
            &&& forall|option: Seq<char>| #[trigger]
                payload@.dom().contains(option) ==> views(lines@).contains(
                    entry_line((option, payload@[option])),
                )
            &&& forall|line: Seq<char>| #[trigger]
                views(lines@).contains(line) ==> exists|option: Seq<char>| #[trigger]
                    payload@.dom().contains(option) && line == entry_line(
                        (option, payload@[option]),
                    )
        },
{
    let entries = payload.entries();
    let keys = entries.map_values(|entry: Entry| entry.0);
    assert forall|key: Seq<char>| #[trigger] holds(entries, key) == keys.contains(key) by {
        if holds(entries, key) {
            let i = choose|i: int| holds_at(entries, key, i);
            assert(keys[i] == key);
        }
        if keys.contains(key) {
            let i = choose|i: int| 0 <= i < keys.len() && keys[i] == key;
            assert(holds_at(entries, key, i));
        }
    }
    assert(payload@.dom() =~= keys.to_set()) by {
        assert forall|key: Seq<char>| #[trigger]
            payload@.dom().contains(key) == keys.to_set().contains(key) by {
            assert(holds(entries, key) == keys.contains(key));
        }
    }
    vstd::seq_lib::seq_to_set_is_finite(keys);
    if entries.len() > 0 {
        assert(are_distinct(entries));
        assert(keys.no_duplicates()) by {
            assert forall|i: int, j: int|
                0 <= i < keys.len() && 0 <= j < keys.len() && i != j implies keys[i] != keys[j] by {
                assert(keys[i] == entries[i].0 && keys[j] == entries[j].0);
            }
        }
        keys.unique_seq_to_set();
        let lines = views(result->Err_0->Ignored_0@);
        assert(lines.len() == result->Err_0->Ignored_0@.len());
        assert forall|option: Seq<char>| #[trigger]
            payload@.dom().contains(option) implies lines.contains(
            entry_line((option, payload@[option])),
        ) by {
            let i = choose|i: int| holds_at(entries, option, i);
            lemma_map_of(entries, option, i);
            assert(entries[i] == (option, payload@[option]));
            assert(lines[i] == entry_line(entries[i]));
        }
        assert forall|line: Seq<char>| #[trigger] lines.contains(line) implies exists|
            option: Seq<char>,
        | #[trigger]
            payload@.dom().contains(option) && line == entry_line((option, payload@[option])) by {
            let i = choose|i: int| 0 <= i < lines.len() && lines[i] == line;
            let option = entries[i].0;
            assert(holds_at(entries, option, i));
            lemma_map_of(entries, option, i);
            assert(entries[i] == (option, payload@[option]));
            assert(payload@.dom().contains(option));
        }
    } else {
        assert(keys =~= Seq::empty());
        keys.unique_seq_to_set();
    }
}

/// The text on options that are left is the same for all, but for their lines, which
/// follow each other on lines of their own.
pub proof fn law_ignored_text_lists_the_lines() -> (head: Seq<char>)
    ensures
        forall|lines: Seq<Seq<char>>| #[trigger]
            ignored_text(lines) == head + joined(lines, "\n"@),
{
    crate::parse::IGNORED@
}

/// The text on an option that comes again is the same for all, but for the option, which
/// stands first as it is spelled.
pub proof fn law_repetition_text_names_the_option() -> (end: Seq<char>)
    ensures
        forall|option: String|
            #![trigger GroupingError::DefinedMultipleTimes(option).text()]
            GroupingError::DefinedMultipleTimes(option).text() == option@ + end,
{
    crate::grouping::DEFINED_MULTIPLE_TIMES@
}

/// The words cannot be grouped exactly if an option is repeated, and the outcome is then
/// the error of grouping them.
pub proof fn law_grouping_decides_first<M: OptionModules>(
    args: Seq<Seq<char>>,
    result: Result<CassandraStressParsingResult<M>, ParsingError<M::Error>>,
)
    requires
        is_parse_of(args, result),
    ensures
        result matches Err(ParsingError::Grouping(_)) <==> !has_no_repetition(repaired(args)),
        result matches Err(ParsingError::Grouping(error)) ==> grouping_fails(
            repaired(args),
            error,
        ),
{
    law_repaired_is_settled(args);
}

/// What a module answered, read from what was left before it.
pub struct Trail<'a> {
    /// The command as it was written.
    pub command: &'a str,
    /// The number of operations, written out.
    pub count: &'a str,
    /// What was still to be read: at first all groups, and then what each module left.
    pub left: Seq<ParsePayload<'a>>,
}

/// Settings are what the modules read, each its part: the module of the command from the
/// command and all groups, and each later module from what the one before it left, until
/// nothing was left.
pub proof fn law_settings_are_what_the_modules_read<'a, M: OptionModules>(
    args: Seq<Seq<char>>,
    settings: Box<CassandraStressSettings<M>>,
) -> (trail: Trail<'a>)
    requires
        is_parse_of::<M>(args, Ok(CassandraStressParsingResult::Workload(settings))),
    ensures
        trail.command@ == repaired(args)[0],
        trail.left.len() == 11,
        trail.left[0]@ == grouped(repaired(args)),
        call_ensures(
            M::parse_command,
            (trail.command, trail.left[0]),
            (Ok((settings.command, Some(settings.command_params))), trail.left[1]),
        ),
        call_ensures(M::parse_node, (trail.left[1],), (Ok(settings.node), trail.left[2])),
        call_ensures(M::parse_rate, (trail.left[2],), (Ok(settings.rate), trail.left[3])),
        call_ensures(M::parse_mode, (trail.left[3],), (Ok(settings.mode), trail.left[4])),
        call_ensures(M::parse_schema, (trail.left[4],), (Ok(settings.schema), trail.left[5])),
        call_ensures(M::parse_column, (trail.left[5],), (Ok(settings.column), trail.left[6])),
        call_ensures(M::parse_log, (trail.left[6],), (Ok(settings.log), trail.left[7])),
        call_ensures(
            M::parse_transport,
            (trail.left[7],),
            (Ok(settings.transport), trail.left[8]),
        ),
        call_ensures(M::parse_errors, (trail.left[8],), (Ok(settings.errors), trail.left[9])),
        trail.count@ == operation_count_of(settings.command_params.common.operation_count),
        call_ensures(
            M::parse_population,
            (trail.left[9], trail.count),
            (Ok(settings.population), trail.left[10]),
        ),
        trail.left[10]@ == Map::<Seq<char>, Seq<Seq<char>>>::empty(),
{
    let result = Ok(CassandraStressParsingResult::Workload(settings));
    let (trail, answers) = lemma_trail::<M>(args, result);
    law_leftovers_are_reported(answers.settings(), answers.population.1, result);
    assert(trail.left[10]@.dom() =~= Set::empty());
    assert(trail.left[10]@ =~= Map::empty());
    trail
}

/// Options are reported as ignored only if every module read its part, and they are what
/// the last one left.
pub proof fn law_ignored_options_were_left_by_all<'a, M: OptionModules>(
    args: Seq<Seq<char>>,
    lines: Vec<String>,
) -> (trail: Trail<'a>)
    requires
        is_parse_of::<M>(args, Err(ParsingError::Ignored(lines))),
    ensures
        trail.command@ == repaired(args)[0],
        trail.left.len() == 11,
        trail.left[0]@ == grouped(repaired(args)),
        exists|command: Command, params: CommandParams<M::UserParams, M::CommandDetails>|
            #[trigger] call_ensures(
                M::parse_command,
                (trail.command, trail.left[0]),
                (Ok((command, Some(params))), trail.left[1]),
            ) && trail.count@ == operation_count_of(params.common.operation_count),
        exists|node: NodeOption<M::NodeDetails>| #[trigger]
            call_ensures(M::parse_node, (trail.left[1],), (Ok(node), trail.left[2])),
        exists|rate: M::Rate| #[trigger]
            call_ensures(M::parse_rate, (trail.left[2],), (Ok(rate), trail.left[3])),
        exists|mode: M::Mode| #[trigger]
            call_ensures(M::parse_mode, (trail.left[3],), (Ok(mode), trail.left[4])),
        exists|schema: SchemaOption<M::SchemaDetails>| #[trigger]
            call_ensures(M::parse_schema, (trail.left[4],), (Ok(schema), trail.left[5])),
        exists|column: ColumnOption<M::Columns, M::ColumnDetails>| #[trigger]
            call_ensures(M::parse_column, (trail.left[5],), (Ok(column), trail.left[6])),
        exists|log: M::Log| #[trigger]
            call_ensures(M::parse_log, (trail.left[6],), (Ok(log), trail.left[7])),
        exists|transport: TransportOption<M::TransportDetails>| #[trigger]
            call_ensures(M::parse_transport, (trail.left[7],), (Ok(transport), trail.left[8])),
        exists|errors: M::Errors| #[trigger]
            call_ensures(M::parse_errors, (trail.left[8],), (Ok(errors), trail.left[9])),
        exists|population: M::Population| #[trigger]
            call_ensures(
                M::parse_population,
                (trail.left[9], trail.count),
                (Ok(population), trail.left[10]),
            ),
        trail.left[10]@.dom().len() > 0,
        lines@.len() == trail.left[10]@.dom().len(),
        forall|option: Seq<char>| #[trigger]
            trail.left[10]@.dom().contains(option) ==> views(lines@).contains(
                entry_line((option, trail.left[10]@[option])),
            ),
{
    let result: Result<CassandraStressParsingResult<M>, ParsingError<M::Error>> = Err(
        ParsingError::Ignored(lines),
    );
    let (trail, answers) = lemma_trail::<M>(args, result);
    law_leftovers_are_reported(answers.settings(), answers.population.1, result);
    lemma_command_of_workload(answers);
    trail
}

/// A command is no workload only if the module of the command says so.
pub proof fn law_special_commands_come_from_the_command<'a, M: OptionModules>(
    args: Seq<Seq<char>>,
) -> (trail: Trail<'a>)
    requires
        is_parse_of::<M>(args, Ok(CassandraStressParsingResult::SpecialCommand)),
    ensures
        trail.command@ == repaired(args)[0],
        trail.left.len() == 11,
        trail.left[0]@ == grouped(repaired(args)),
        exists|command: Command|
            #[trigger] call_ensures(
                M::parse_command,
                (trail.command, trail.left[0]),
                (Ok((command, None)), trail.left[1]),
            ),
{
    let (trail, answers) = lemma_trail::<M>(
        args,
        Ok(CassandraStressParsingResult::SpecialCommand),
    );
    assert(call_ensures(
        M::parse_command,
        (trail.command, trail.left[0]),
        (Ok((answers.command.0->Ok_0.0, None)), trail.left[1]),
    ));
    trail
}

/// An error of a module is the answer of the module at place `k`, counted from the module
/// of the command, and each module before it read its part.
pub proof fn law_refusal_comes_from_a_module<'a, M: OptionModules>(
    args: Seq<Seq<char>>,
    error: M::Error,
) -> (found: (int, Trail<'a>))
    requires
        is_parse_of::<M>(args, Err(ParsingError::Module(error))),
    ensures
        ({
            let (k, trail) = found;
            let left = trail.left;
            &&& 0 <= k <= 9
            &&& trail.command@ == repaired(args)[0]
            &&& left.len() == 11
            &&& left[0]@ == grouped(repaired(args))
            &&& k == 0 ==> call_ensures(
                M::parse_command,
                (trail.command, left[0]),
                (Err(error), left[1]),
            )
            &&& k > 0 ==> exists|
                command: Command,
                params: CommandParams<M::UserParams, M::CommandDetails>,
            | #[trigger]
                call_ensures(
                    M::parse_command,
                    (trail.command, left[0]),
                    (Ok((command, Some(params))), left[1]),
                ) && (k == 9 ==> trail.count@ == operation_count_of(params.common.operation_count))
            &&& k == 1 ==> call_ensures(M::parse_node, (left[1],), (Err(error), left[2]))
            &&& k > 1 ==> exists|node: NodeOption<M::NodeDetails>| #[trigger]
                call_ensures(M::parse_node, (left[1],), (Ok(node), left[2]))
            &&& k == 2 ==> call_ensures(M::parse_rate, (left[2],), (Err(error), left[3]))
            &&& k > 2 ==> exists|rate: M::Rate| #[trigger]
                call_ensures(M::parse_rate, (left[2],), (Ok(rate), left[3]))
            &&& k == 3 ==> call_ensures(M::parse_mode, (left[3],), (Err(error), left[4]))
            &&& k > 3 ==> exists|mode: M::Mode| #[trigger]
                call_ensures(M::parse_mode, (left[3],), (Ok(mode), left[4]))
            &&& k == 4 ==> call_ensures(M::parse_schema, (left[4],), (Err(error), left[5]))
            &&& k > 4 ==> exists|schema: SchemaOption<M::SchemaDetails>| #[trigger]
                call_ensures(M::parse_schema, (left[4],), (Ok(schema), left[5]))
            &&& k == 5 ==> call_ensures(M::parse_column, (left[5],), (Err(error), left[6]))
            &&& k > 5 ==> exists|column: ColumnOption<M::Columns, M::ColumnDetails>| #[trigger]
                call_ensures(M::parse_column, (left[5],), (Ok(column), left[6]))
            &&& k == 6 ==> call_ensures(M::parse_log, (left[6],), (Err(error), left[7]))
            &&& k > 6 ==> exists|log: M::Log| #[trigger]
                call_ensures(M::parse_log, (left[6],), (Ok(log), left[7]))
            &&& k == 7 ==> call_ensures(M::parse_transport, (left[7],), (Err(error), left[8]))
            &&& k > 7 ==> exists|transport: TransportOption<M::TransportDetails>| #[trigger]
                call_ensures(M::parse_transport, (left[7],), (Ok(transport), left[8]))
            &&& k == 8 ==> call_ensures(M::parse_errors, (left[8],), (Err(error), left[9]))
            &&& k > 8 ==> exists|errors: M::Errors| #[trigger]
                call_ensures(M::parse_errors, (left[8],), (Ok(errors), left[9]))
            &&& k == 9 ==> call_ensures(
                M::parse_population,
                (left[9], trail.count),
                (Err(error), left[10]),
            )
        }),
{
    let (trail, answers) = lemma_trail::<M>(args, Err(ParsingError::Module(error)));
    let k: int = if answers.command.0 is Err {
        0
    } else if answers.node.0 is Err {
        1
    } else if answers.rate.0 is Err {
        2
    } else if answers.mode.0 is Err {
        3
    } else if answers.schema.0 is Err {
        4
    } else if answers.column.0 is Err {
        5
    } else if answers.log.0 is Err {
        6
    } else if answers.transport.0 is Err {
        7
    } else if answers.errors.0 is Err {
        8
    } else {
        9
    };
    if k > 0 {
        lemma_command_of_workload(answers);
    }
    (k, trail)
}

proof fn lemma_command_of_workload<'a, M: OptionModules>(answers: Answers<'a, M>)
    requires
        answers.is_workload(),
    ensures
        answers.command == (
            Ok::<_, M::Error>((answers.command.0->Ok_0.0, Some(answers.params()))),
            answers.command.1,
        ),
{
}

proof fn lemma_trail<'a, M: OptionModules>(
    args: Seq<Seq<char>>,
    result: Result<CassandraStressParsingResult<M>, ParsingError<M::Error>>,
) -> (found: (Trail<'a>, Answers<'a, M>))
    requires
        is_parse_of(args, result),
        !(result matches Err(ParsingError::Grouping(_))),
    ensures
        ({
            let (trail, answers) = found;
            &&& trail.command@ == repaired(args)[0]
            &&& trail.left[0]@ == grouped(repaired(args))
            &&& trail.left == seq![
                trail.left[0],
                answers.command.1,
                answers.node.1,
                answers.rate.1,
                answers.mode.1,
                answers.schema.1,
                answers.column.1,
                answers.log.1,
                answers.transport.1,
                answers.errors.1,
                answers.population.1,
            ]
            &&& answers.answer(trail.command, trail.left[0])
            &&& answers.make(result)
            &&& answers.asks_population() ==> trail.count@ == operation_count_of(
                answers.params().common.operation_count,
            ) && call_ensures(
                M::parse_population,
                (answers.errors.1, trail.count),
                answers.population,
            )
        }),
{
    let words = repaired(args);
    let (command, payload, answers) = choose|
        command: &str,
        payload: ParsePayload,
        answers: Answers<M>,
    |
        command@ == words[0] && payload@ == grouped(words) && #[trigger] answers.answer(
            command,
            payload,
        ) && answers.make(result);
    let count = choose|count: &str|
        count@ == operation_count_of(answers.params().common.operation_count)
            && #[trigger] call_ensures(
            M::parse_population,
            (answers.errors.1, count),
            answers.population,
        );
    let left = seq![
        payload,
        answers.command.1,
        answers.node.1,
        answers.rate.1,
        answers.mode.1,
        answers.schema.1,
        answers.column.1,
        answers.log.1,
        answers.transport.1,
        answers.errors.1,
        answers.population.1,
    ];
    (Trail { command, count, left }, answers)
}

} // verus!
