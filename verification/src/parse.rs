//! Reading the settings from a command line.

use vstd::prelude::*;

use crate::grouping::{
    grouped, grouping_fails, has_no_repetition, lowers_ascii, prepare_parse_payload, GroupingError,
};
use crate::grouping_laws::{
    ascii_named_groups, groups_of, law_groups_make_up_the_words,
    law_order_and_ascii_case_do_not_matter, law_order_and_case_do_not_matter, named_groups,
};
use crate::payload::{are_distinct, entry_line, holds, Entry, ParsePayload};
use crate::repair::{repair_params, repaired};
use crate::repair_laws::law_repaired_is_settled;
use crate::settings::{
    CassandraStressSettings, ColumnOption, Command, CommandParams, NodeOption, OptionModules,
    SchemaOption, TransportOption,
};
use crate::text::{decimal, decimal_text, join_strings, joined, views};

verus! {

/// What a command line asks for.
pub enum CassandraStressParsingResult<M: OptionModules> {
    /// The command was no workload, and is done: help or a version.
    SpecialCommand,
    Workload(Box<CassandraStressSettings<M>>),
}

/// Why a command line cannot be read.
#[derive(Debug)]
pub enum ParsingError<E> {
    /// Its words cannot be grouped.
    Grouping(GroupingError),
    /// The module of the command or of an option refused its parameters.
    Module(E),
    /// There are options that no module reads; one line for each.
    Ignored(Vec<String>),
}

/// Precedes the list of the options that no module reads.
pub const IGNORED: &'static str =
    "Error processing CLI arguments. The following were ignored:\n";

/// The number of operations where none is given.
pub const DEFAULT_OPERATION_COUNT: &'static str = "1000000";

/// The number of operations, written out.
pub open spec fn operation_count_of(count: Option<u64>) -> Seq<char> {
    match count {
        Some(count) => decimal(count as nat),
        None => DEFAULT_OPERATION_COUNT@,
    }
}

/// The number of operations, written out. It is the range of the default population.
pub fn operation_count_text(count: Option<u64>) -> (text: String)
    ensures
        text@ == operation_count_of(count),
{
    match count {
        Some(count) => decimal_text(count),
        None => DEFAULT_OPERATION_COUNT.to_owned(),
    }
}

/// The text that reports options that no module reads.
pub open spec fn ignored_text(lines: Seq<Seq<char>>) -> Seq<char> {
    IGNORED@ + joined(lines, "\n"@)
}

/// Writes out which options no module reads.
pub fn ignored_message(lines: &Vec<String>) -> (message: String)
    ensures
        message@ == ignored_text(views(lines@)),
{
    let mut message = IGNORED.to_owned();
    message.append(join_strings(lines, "\n").as_str());
    message
}

/// What the modules answered on a command line: of each, what it read and what it
/// left. The answer of a module that was not asked means nothing.
pub struct Answers<'a, M: OptionModules> {
    pub command: (
        Result<(Command, Option<CommandParams<M::UserParams, M::CommandDetails>>), M::Error>,
        ParsePayload<'a>,
    ),
    pub node: (Result<NodeOption<M::NodeDetails>, M::Error>, ParsePayload<'a>),
    pub rate: (Result<M::Rate, M::Error>, ParsePayload<'a>),
    pub mode: (Result<M::Mode, M::Error>, ParsePayload<'a>),
    pub schema: (Result<SchemaOption<M::SchemaDetails>, M::Error>, ParsePayload<'a>),
    pub column: (
        Result<ColumnOption<M::Columns, M::ColumnDetails>, M::Error>,
        ParsePayload<'a>,
    ),
    pub log: (Result<M::Log, M::Error>, ParsePayload<'a>),
    pub transport: (Result<TransportOption<M::TransportDetails>, M::Error>, ParsePayload<'a>),
    pub errors: (Result<M::Errors, M::Error>, ParsePayload<'a>),
    pub population: (Result<M::Population, M::Error>, ParsePayload<'a>),
}

impl<'a, M: OptionModules> Answers<'a, M> {
    /// Whether the command is a workload. If so, the modules of the options are asked
    /// in turn, until one refuses.
    pub open spec fn is_workload(self) -> bool {
        self.command.0 matches Ok((_, Some(_)))
    }

    pub open spec fn asks_rate(self) -> bool {
        self.is_workload() && self.node.0 is Ok
    }

    pub open spec fn asks_mode(self) -> bool {
        self.asks_rate() && self.rate.0 is Ok
    }

    pub open spec fn asks_schema(self) -> bool {
        self.asks_mode() && self.mode.0 is Ok
    }

    pub open spec fn asks_column(self) -> bool {
        self.asks_schema() && self.schema.0 is Ok
    }

    pub open spec fn asks_log(self) -> bool {
        self.asks_column() && self.column.0 is Ok
    }

    pub open spec fn asks_transport(self) -> bool {
        self.asks_log() && self.log.0 is Ok
    }

    pub open spec fn asks_errors(self) -> bool {
        self.asks_transport() && self.transport.0 is Ok
    }

    pub open spec fn asks_population(self) -> bool {
        self.asks_errors() && self.errors.0 is Ok
    }

    pub open spec fn is_complete(self) -> bool {
        self.asks_population() && self.population.0 is Ok
    }

    /// The parameters of the command of a workload.
    pub open spec fn params(self) -> CommandParams<M::UserParams, M::CommandDetails> {
        self.command.0->Ok_0.1->0
    }

    /// Whether these are answers of the modules: the first to `command` and `payload`,
    /// each later one to what the module before it left.
    pub open spec fn answer(self, command: &str, payload: ParsePayload<'a>) -> bool {
        &&& call_ensures(M::parse_command, (command, payload), self.command)
        &&& self.is_workload() ==> call_ensures(M::parse_node, (self.command.1,), self.node)
        &&& self.asks_rate() ==> call_ensures(M::parse_rate, (self.node.1,), self.rate)
        &&& self.asks_mode() ==> call_ensures(M::parse_mode, (self.rate.1,), self.mode)
        &&& self.asks_schema() ==> call_ensures(M::parse_schema, (self.mode.1,), self.schema)
        &&& self.asks_column() ==> call_ensures(M::parse_column, (self.schema.1,), self.column)
        &&& self.asks_log() ==> call_ensures(M::parse_log, (self.column.1,), self.log)
        &&& self.asks_transport() ==> call_ensures(
            M::parse_transport,
            (self.log.1,),
            self.transport,
        )
        &&& self.asks_errors() ==> call_ensures(M::parse_errors, (self.transport.1,), self.errors)
        &&& self.asks_population() ==> exists|count: &str|
            count@ == operation_count_of(self.params().common.operation_count)
                && #[trigger] call_ensures(
                M::parse_population,
                (self.errors.1, count),
                self.population,
            )
    }

    /// Why a module refused, if one did.
    pub open spec fn refusal(self) -> Option<M::Error> {
        if self.command.0 is Err {
            Some(self.command.0->Err_0)
        } else if !self.is_workload() {
            None
        } else if self.node.0 is Err {
            Some(self.node.0->Err_0)
        } else if self.rate.0 is Err {
            Some(self.rate.0->Err_0)
        } else if self.mode.0 is Err {
            Some(self.mode.0->Err_0)
        } else if self.schema.0 is Err {
            Some(self.schema.0->Err_0)
        } else if self.column.0 is Err {
            Some(self.column.0->Err_0)
        } else if self.log.0 is Err {
            Some(self.log.0->Err_0)
        } else if self.transport.0 is Err {
            Some(self.transport.0->Err_0)
        } else if self.errors.0 is Err {
            Some(self.errors.0->Err_0)
        } else if self.population.0 is Err {
            Some(self.population.0->Err_0)
        } else {
            None
        }
    }

    /// The settings that the answers make up.
    pub open spec fn settings(self) -> CassandraStressSettings<M> {
        CassandraStressSettings {
            command: self.command.0->Ok_0.0,
            command_params: self.params(),
            node: self.node.0->Ok_0,
            rate: self.rate.0->Ok_0,
            mode: self.mode.0->Ok_0,
            schema: self.schema.0->Ok_0,
            column: self.column.0->Ok_0,
            population: self.population.0->Ok_0,
            log: self.log.0->Ok_0,
            transport: self.transport.0->Ok_0,
            errors: self.errors.0->Ok_0,
        }
    }

    /// Whether `result` is what the answers make of the command line: the first
    /// refusal; else nothing more for a special command; else a complaint about what
    /// the modules left; else the settings.
    pub open spec fn make(
        self,
        result: Result<CassandraStressParsingResult<M>, ParsingError<M::Error>>,
    ) -> bool {
        if self.refusal() is Some {
            result matches Err(ParsingError::Module(error)) && error == self.refusal()->0
        } else if !self.is_workload() {
            result matches Ok(CassandraStressParsingResult::SpecialCommand)
        } else {
            is_conclusion(self.settings(), self.population.1, result)
        }
    }
}

/// Whether `result` is right for `settings` when `payload` was left unread. Each option
/// that is left has one line.
pub open spec fn is_conclusion<M: OptionModules>(
    settings: CassandraStressSettings<M>,
    payload: ParsePayload,
    result: Result<CassandraStressParsingResult<M>, ParsingError<M::Error>>,
) -> bool {
    if payload.entries().len() == 0 {
        result matches Ok(CassandraStressParsingResult::Workload(workload)) && *workload
            == settings
    } else {
        &&& are_distinct(payload.entries())
        &&& result matches Err(ParsingError::Ignored(lines)) && views(lines@)
            == payload.entries().map_values(|entry: Entry| entry_line(entry))
    }
}

/// Ensures that all of the command line was read: if not, unknown options appeared,
/// and the settings are not returned.
pub fn conclude<M: OptionModules>(
    settings: CassandraStressSettings<M>,
    payload: &ParsePayload,
) -> (result: Result<CassandraStressParsingResult<M>, ParsingError<M::Error>>)
    ensures
        is_conclusion(settings, *payload, result),
{
    if payload.is_empty() {
        Ok(CassandraStressParsingResult::Workload(Box::new(settings)))
    } else {
        Err(ParsingError::Ignored(payload.lines()))
    }
}

/// Reads the command and the options of a payload: asks each module in turn, and
/// stops at the first that refuses.
pub fn parse_payload<'a, M: OptionModules>(command: &str, payload: ParsePayload<'a>) -> (result:
    Result<CassandraStressParsingResult<M>, ParsingError<M::Error>>)
    ensures
        exists|answers: Answers<'a, M>| #[trigger]
            answers.answer(command, payload) && answers.make(result),
{
    let ghost given = command;
    let ghost whole = payload;
    let ghost mut answers: Answers<'a, M> = arbitrary();
    let (parsed, payload) = M::parse_command(command, payload);
    proof {
        answers.command = (parsed, payload);
    }
    let (command, command_params) = match parsed {
        Err(error) => {
            assert(answers.answer(given, whole));
            return Err(ParsingError::Module(error));
        },
        Ok((_, None)) => {
            assert(answers.answer(given, whole));
            return Ok(CassandraStressParsingResult::SpecialCommand);
        },
        Ok((command, Some(params))) => (command, params),
    };
    let (parsed, payload) = M::parse_node(payload);
    proof {
        answers.node = (parsed, payload);
    }
    let node = match parsed {
        Err(error) => {
            assert(answers.answer(given, whole));
            return Err(ParsingError::Module(error));
        },
        Ok(node) => node,
    };
    let (parsed, payload) = M::parse_rate(payload);
    proof {
        answers.rate = (parsed, payload);
    }
    let rate = match parsed {
        Err(error) => {
            assert(answers.answer(given, whole));
            return Err(ParsingError::Module(error));
        },
        Ok(rate) => rate,
    };
    let (parsed, payload) = M::parse_mode(payload);
    proof {
        answers.mode = (parsed, payload);
    }
    let mode = match parsed {
        Err(error) => {
            assert(answers.answer(given, whole));
            return Err(ParsingError::Module(error));
        },
        Ok(mode) => mode,
    };
    let (parsed, payload) = M::parse_schema(payload);
    proof {
        answers.schema = (parsed, payload);
    }
    let schema = match parsed {
        Err(error) => {
            assert(answers.answer(given, whole));
            return Err(ParsingError::Module(error));
        },
        Ok(schema) => schema,
    };
    let (parsed, payload) = M::parse_column(payload);
    proof {
        answers.column = (parsed, payload);
    }
    let column = match parsed {
        Err(error) => {
            assert(answers.answer(given, whole));
            return Err(ParsingError::Module(error));
        },
        Ok(column) => column,
    };
    let (parsed, payload) = M::parse_log(payload);
    proof {
        answers.log = (parsed, payload);
    }
    let log = match parsed {
        Err(error) => {
            assert(answers.answer(given, whole));
            return Err(ParsingError::Module(error));
        },
        Ok(log) => log,
    };
    let (parsed, payload) = M::parse_transport(payload);
    proof {
        answers.transport = (parsed, payload);
    }
    let transport = match parsed {
        Err(error) => {
            assert(answers.answer(given, whole));
            return Err(ParsingError::Module(error));
        },
        Ok(transport) => transport,
    };
    let (parsed, payload) = M::parse_errors(payload);
    proof {
        answers.errors = (parsed, payload);
    }
    let errors = match parsed {
        Err(error) => {
            assert(answers.answer(given, whole));
            return Err(ParsingError::Module(error));
        },
        Ok(errors) => errors,
    };
    // The default distribution (if not specified) is SEQ(1..operation_count).
    let count = operation_count_text(command_params.common.operation_count);
    let count = count.as_str();
    let (parsed, payload) = M::parse_population(payload, count);
    proof {
        answers.population = (parsed, payload);
        assert(call_ensures(
            M::parse_population,
            (answers.errors.1, count),
            answers.population,
        ));
    }
    let population = match parsed {
        Err(error) => {
            assert(answers.answer(given, whole));
            return Err(ParsingError::Module(error));
        },
        Ok(population) => population,
    };
    let settings = CassandraStressSettings {
        command,
        command_params,
        node,
        rate,
        mode,
        schema,
        column,
        population,
        log,
        transport,
        errors,
    };
    assert(answers.answer(given, whole));
    conclude(settings, &payload)
}

/// Whether `result` is what a command line comes to, where `args` are its arguments
/// without the name of the program: an error if the repaired words cannot be grouped;
/// else what the modules make of the groups.
pub open spec fn is_parse_of<M: OptionModules>(
    args: Seq<Seq<char>>,
    result: Result<CassandraStressParsingResult<M>, ParsingError<M::Error>>,
) -> bool {
    let words = repaired(args);
    if words.len() > 0 && has_no_repetition(words) {
        exists|command: &str, payload: ParsePayload, answers: Answers<M>|
            command@ == words[0] && payload@ == grouped(words) && #[trigger] answers.answer(
                command,
                payload,
            ) && answers.make(result)
    } else {
        result matches Err(ParsingError::Grouping(error)) && grouping_fails(words, error)
    }
}

/// Reads the settings from the arguments of the program, the first of which is its
/// name.
pub fn parse_cassandra_stress_args<M: OptionModules>(args: &Vec<String>) -> (result: Result<
    CassandraStressParsingResult<M>,
    ParsingError<M::Error>,
>)
    requires
        args@.len() > 0,
    ensures
        is_parse_of::<M>(views(args@).drop_first(), result),
        lowers_ascii(repaired(views(args@).drop_first())),
{
    let mut given: Vec<String> = Vec::new();
    let mut i: usize = 1;
    while i < args.len()
        invariant
            1 <= i <= args@.len(),
            given@ == args@.subrange(1, i as int),
        decreases args@.len() - i,
    {
        given.push(args[i].clone());
        assert(args@.subrange(1, i + 1) =~= args@.subrange(1, i as int).push(args@[i as int]));
        i = i + 1;
    }
    assert(views(given@) =~= views(args@).drop_first());
    let words = repair_params(&given);
    match prepare_parse_payload(words.as_slice()) {
        Err(error) => Err(ParsingError::Grouping(error)),
        Ok((command, payload)) => parse_payload::<M>(command, payload),
    }
}

/// There always is a command: even without arguments, it is the empty word.
pub proof fn law_there_is_a_command<M: OptionModules>(
    args: Seq<Seq<char>>,
    result: Result<CassandraStressParsingResult<M>, ParsingError<M::Error>>,
)
    requires
        is_parse_of(args, result),
    ensures
        !(result matches Err(ParsingError::Grouping(GroupingError::NoCommand))),
{
    law_repaired_is_settled(args);
}

/// Settings are returned only if the modules read all of the command line.
pub proof fn law_nothing_is_ignored<M: OptionModules>(
    answers: Answers<M>,
    result: Result<CassandraStressParsingResult<M>, ParsingError<M::Error>>,
)
    requires
        answers.make(result),
        result matches Ok(CassandraStressParsingResult::Workload(_)),
    ensures
        answers.is_complete(),
        answers.population.1@ == Map::<Seq<char>, Seq<Seq<char>>>::empty(),
{
    assert forall|key: Seq<char>| !holds(answers.population.1.entries(), key) by {}
    assert(answers.population.1@ =~= Map::empty());
}

/// The first module that refuses decides: its error is the outcome, whatever the
/// modules after it would say.
pub proof fn law_refusal_is_the_outcome<M: OptionModules>(
    answers: Answers<M>,
    result: Result<CassandraStressParsingResult<M>, ParsingError<M::Error>>,
)
    requires
        answers.make(result),
    ensures
        answers.refusal() is Some <==> result matches Err(ParsingError::Module(_)),
        result matches Err(ParsingError::Module(error)) ==> answers.refusal() == Some(error),
{
}

/// The name of the program does not matter: arguments that differ in the first only
/// admit the same results.
pub proof fn law_program_name_does_not_matter<M: OptionModules>(
    a: Seq<Seq<char>>,
    b: Seq<Seq<char>>,
    result: Result<CassandraStressParsingResult<M>, ParsingError<M::Error>>,
)
    requires
        a.len() > 0,
        a.len() == b.len(),
        forall|i: int| 0 < i < a.len() ==> a[i] == b[i],
    ensures
        is_parse_of(a.drop_first(), result) == is_parse_of(b.drop_first(), result),
{
    assert(a.drop_first() =~= b.drop_first());
}

/// Equal repaired words are parsed alike: arguments that are repaired to the same words
/// admit the same results.
pub proof fn law_equal_words_are_parsed_alike<M: OptionModules>(
    a: Seq<Seq<char>>,
    b: Seq<Seq<char>>,
    result: Result<CassandraStressParsingResult<M>, ParsingError<M::Error>>,
)
    requires
        a.len() > 0,
        b.len() > 0,
        repaired(a.drop_first()) == repaired(b.drop_first()),
    ensures
        is_parse_of(a.drop_first(), result) == is_parse_of(b.drop_first(), result),
{
}

/// Neither the order of the options nor their letter case matters: where the names of
/// the groups are distinct, the command is the same, its parameters are the same, and
/// the options have the same names and parameters in whatever order, the same results
/// are admitted.
pub proof fn law_option_order_and_case_do_not_matter<M: OptionModules>(
    a: Seq<Seq<char>>,
    b: Seq<Seq<char>>,
    result: Result<CassandraStressParsingResult<M>, ParsingError<M::Error>>,
)
    requires
        are_distinct(named_groups(repaired(a))),
        groups_of(repaired(a))[0] == groups_of(repaired(b))[0],
        named_groups(repaired(a)).drop_first().to_multiset() == named_groups(
            repaired(b),
        ).drop_first().to_multiset(),
    ensures
        grouped(repaired(a)) == grouped(repaired(b)),
        is_parse_of(a, result) == is_parse_of(b, result),
{
    law_repaired_is_settled(a);
    law_repaired_is_settled(b);
    law_groups_make_up_the_words(repaired(a));
    law_groups_make_up_the_words(repaired(b));
    law_order_and_case_do_not_matter(repaired(a), repaired(b));
}

/// Neither the order of the options nor their ASCII letter case matters: the same, where
/// the names of the options are the same but for the case of ASCII letters. What it says
/// of the lower case of the words is what parsing them ensures.
pub proof fn law_option_order_and_ascii_case_do_not_matter<M: OptionModules>(
    a: Seq<Seq<char>>,
    b: Seq<Seq<char>>,
    result: Result<CassandraStressParsingResult<M>, ParsingError<M::Error>>,
)
    requires
        lowers_ascii(repaired(a)),
        lowers_ascii(repaired(b)),
        are_distinct(named_groups(repaired(a))),
        groups_of(repaired(a))[0] == groups_of(repaired(b))[0],
        ascii_named_groups(repaired(a)).drop_first().to_multiset() == ascii_named_groups(
            repaired(b),
        ).drop_first().to_multiset(),
    ensures
        grouped(repaired(a)) == grouped(repaired(b)),
        is_parse_of(a, result) == is_parse_of(b, result),
{
    law_repaired_is_settled(a);
    law_repaired_is_settled(b);
    law_groups_make_up_the_words(repaired(a));
    law_groups_make_up_the_words(repaired(b));
    law_order_and_ascii_case_do_not_matter(repaired(a), repaired(b));
}

} // verus!
