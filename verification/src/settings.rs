//! The settings of a run.
//!
//! Each option is read by a module of its own. Of what such a module reads, the
//! settings hold by name what they decide on; the rest they carry along.

use vstd::prelude::*;

use crate::payload::ParsePayload;

verus! {

/// What a run is asked to do.
#[derive(Clone, Copy, Debug, PartialEq, Eq, Structural)]
pub enum Command {
    Read,
    Write,
    CounterRead,
    CounterWrite,
    Mixed,
    /// Operations that come from a profile.
    User,
    Help,
    Version,
    VersionJson,
}

/// How many replicas have to answer a request.
#[derive(Clone, Copy, Debug, PartialEq, Eq, Structural)]
pub enum Consistency {
    Any,
    One,
    Two,
    Three,
    Quorum,
    All,
    LocalQuorum,
    EachQuorum,
    LocalOne,
    Serial,
    LocalSerial,
}

/// The parameters that every workload has.
pub struct CommonParams {
    pub consistency_level: Consistency,
    pub operation_count: Option<u64>,
}

/// The parameters of a command.
pub struct CommandParams<User, Details> {
    pub common: CommonParams,
    pub user: Option<User>,
    pub details: Details,
}

/// The nodes to connect to.
pub struct NodeOption<Details> {
    pub nodes: Vec<String>,
    pub datacenter: Option<String>,
    pub details: Details,
}

/// The schema to run on.
pub struct SchemaOption<Details> {
    pub keyspace: String,
    /// Whether `consistency=global` was requested.
    pub strong_consistency: bool,
    pub details: Details,
}

/// The columns of the tables.
pub struct ColumnOption<Columns, Details> {
    pub columns: Columns,
    pub details: Details,
}

/// How to connect to the nodes.
pub struct TransportOption<Details> {
    pub truststore: Option<String>,
    pub keystore: Option<String>,
    pub details: Details,
}

/// The modules that read the command and the options, and that write the statements
/// of the schema.
///
/// A reading module gets what is still to be read, and hands back what it left. Nothing
/// is asked of what the modules answer: whatever they do, the library says what comes of
/// their answers.
pub trait OptionModules: Sized {
    type Error;

    type UserParams;

    type CommandDetails;

    type NodeDetails;

    type Rate;

    type Mode;

    type SchemaDetails;

    type Columns;

    type ColumnDetails;

    type Population;

    type Log;

    type TransportDetails;

    type Errors;

    fn parse_command<'a>(command: &str, payload: ParsePayload<'a>) -> (
        Result<
            (Command, Option<CommandParams<Self::UserParams, Self::CommandDetails>>),
            Self::Error,
        >,
        ParsePayload<'a>,
    );

    fn parse_node<'a>(payload: ParsePayload<'a>) -> (
        Result<NodeOption<Self::NodeDetails>, Self::Error>,
        ParsePayload<'a>,
    );

    fn parse_rate<'a>(payload: ParsePayload<'a>) -> (
        Result<Self::Rate, Self::Error>,
        ParsePayload<'a>,
    );

    fn parse_mode<'a>(payload: ParsePayload<'a>) -> (
        Result<Self::Mode, Self::Error>,
        ParsePayload<'a>,
    );

    fn parse_schema<'a>(payload: ParsePayload<'a>) -> (
        Result<SchemaOption<Self::SchemaDetails>, Self::Error>,
        ParsePayload<'a>,
    );

    fn parse_column<'a>(payload: ParsePayload<'a>) -> (
        Result<ColumnOption<Self::Columns, Self::ColumnDetails>, Self::Error>,
        ParsePayload<'a>,
    );

    fn parse_log<'a>(payload: ParsePayload<'a>) -> (
        Result<Self::Log, Self::Error>,
        ParsePayload<'a>,
    );

    fn parse_transport<'a>(payload: ParsePayload<'a>) -> (
        Result<TransportOption<Self::TransportDetails>, Self::Error>,
        ParsePayload<'a>,
    );

    fn parse_errors<'a>(payload: ParsePayload<'a>) -> (
        Result<Self::Errors, Self::Error>,
        ParsePayload<'a>,
    );

    fn parse_population<'a>(payload: ParsePayload<'a>, operation_count: &str) -> (
        Result<Self::Population, Self::Error>,
        ParsePayload<'a>,
    );

    fn construct_keyspace_creation_query(schema: &SchemaOption<Self::SchemaDetails>) -> String;

    fn construct_table_creation_query(
        schema: &SchemaOption<Self::SchemaDetails>,
        columns: &Self::Columns,
    ) -> String;

    fn construct_counter_table_creation_query(
        schema: &SchemaOption<Self::SchemaDetails>,
        columns: &Self::Columns,
    ) -> String;
}

/// All settings of a workload.
pub struct CassandraStressSettings<M: OptionModules> {
    pub command: Command,
    pub command_params: CommandParams<M::UserParams, M::CommandDetails>,
    pub node: NodeOption<M::NodeDetails>,
    pub rate: M::Rate,
    pub mode: M::Mode,
    pub schema: SchemaOption<M::SchemaDetails>,
    pub column: ColumnOption<M::Columns, M::ColumnDetails>,
    pub population: M::Population,
    pub log: M::Log,
    pub transport: TransportOption<M::TransportDetails>,
    pub errors: M::Errors,
}

/// A piece of the report on the settings.
#[derive(Clone, Copy, Debug)]
pub enum SettingsPart {
    /// A line of text.
    Line(&'static str),
    /// What the module of this name reports.
    CommandParams,
    Rate,
    Mode,
    Node,
    Schema,
    Column,
    Population,
    Log,
    Transport,
    Errors,
}

/// The first line of the report on the settings.
pub const SETTINGS_HEADER: &'static str =
    "******************** Stress Settings ********************";

/// The last line of the report on the settings.
pub const EMPTY_LINE: &'static str = "";

/// A step of creating the schema. The steps are taken in order; the first that
/// fails ends the creation.
#[derive(Debug)]
pub enum SchemaStep {
    /// Leave the schema to the profile of the `user` command.
    FromUserProfile,
    /// Run a statement. A failure is reported in this context, if there is one.
    Query { statement: String, context: Option<&'static str> },
    /// Make this the keyspace of the session.
    UseKeyspace { keyspace: String, case_sensitive: bool },
}

/// The context of a failure to create the table of the `write` command.
pub const STANDARD_TABLE_FAILED: &'static str = "Failed to create standard table";

/// The context of a failure to create the table of the `counter_write` command.
pub const COUNTER_TABLE_FAILED: &'static str = "Failed to create counter table";

/// Whether a command writes; `None` where that depends on a profile.
pub open spec fn command_writes(command: Command) -> Option<bool> {
    match command {
        Command::Write | Command::CounterWrite | Command::Mixed => Some(true),
        Command::User => None,
        Command::Read | Command::CounterRead => Some(false),
        Command::Help | Command::Version | Command::VersionJson => Some(false),
    }
}

impl<M: OptionModules> CassandraStressSettings<M> {
    /// What to report on the settings, in order.
    pub fn print_settings(&self) -> (parts: Vec<SettingsPart>)
        ensures
            parts@ == seq![
                SettingsPart::Line(SETTINGS_HEADER),
                SettingsPart::CommandParams,
                SettingsPart::Rate,
                SettingsPart::Mode,
                SettingsPart::Node,
                SettingsPart::Schema,
                SettingsPart::Column,
                SettingsPart::Population,
                SettingsPart::Log,
                SettingsPart::Transport,
                SettingsPart::Errors,
                SettingsPart::Line(EMPTY_LINE),
            ],
    {
        vec![
            SettingsPart::Line(SETTINGS_HEADER),
            SettingsPart::CommandParams,
            SettingsPart::Rate,
            SettingsPart::Mode,
            SettingsPart::Node,
            SettingsPart::Schema,
            SettingsPart::Column,
            SettingsPart::Population,
            SettingsPart::Log,
            SettingsPart::Transport,
            SettingsPart::Errors,
            SettingsPart::Line(EMPTY_LINE),
        ]
    }

    /// Whether `step` creates the keyspace.
    pub open spec fn creates_keyspace(&self, step: SchemaStep) -> bool {
        step matches SchemaStep::Query { statement, context } && context is None && call_ensures(
            M::construct_keyspace_creation_query,
            (&self.schema,),
            statement,
        )
    }

    /// Whether `step` makes the keyspace of the schema that of the session.
    pub open spec fn uses_keyspace(&self, step: SchemaStep) -> bool {
        step matches SchemaStep::UseKeyspace { keyspace, case_sensitive } && keyspace@
            == self.schema.keyspace@ && case_sensitive
    }

    /// Whether `step` creates the table of the `write` command.
    pub open spec fn creates_standard_table(&self, step: SchemaStep) -> bool {
        step matches SchemaStep::Query { statement, context } && context == Some(
            STANDARD_TABLE_FAILED,
        ) && call_ensures(
            M::construct_table_creation_query,
            (&self.schema, &self.column.columns),
            statement,
        )
    }

    /// Whether `step` creates the table of the `counter_write` command.
    pub open spec fn creates_counter_table(&self, step: SchemaStep) -> bool {
        step matches SchemaStep::Query { statement, context } && context == Some(
            COUNTER_TABLE_FAILED,
        ) && call_ensures(
            M::construct_counter_table_creation_query,
            (&self.schema, &self.column.columns),
            statement,
        )
    }

    /// The steps that create the schema. Only the commands that write tables of
    /// their own create them; the others use the keyspace that is there.
    pub fn create_schema(&self) -> (steps: Vec<SchemaStep>)
        ensures
            if self.command_params.user is Some {
                steps@ == seq![SchemaStep::FromUserProfile]
            } else {
                match self.command {
                    Command::Write => {
                        &&& steps@.len() == 3
                        &&& self.creates_keyspace(steps@[0])
                        &&& self.uses_keyspace(steps@[1])
                        &&& self.creates_standard_table(steps@[2])
                    },
                    Command::CounterWrite => {
                        &&& steps@.len() == 3
                        &&& self.creates_keyspace(steps@[0])
                        &&& self.uses_keyspace(steps@[1])
                        &&& self.creates_counter_table(steps@[2])
                    },
                    _ => steps@.len() == 1 && self.uses_keyspace(steps@[0]),
                }
            },
    {
        if self.command_params.user.is_some() {
            return vec![SchemaStep::FromUserProfile];
        }
        let mut steps: Vec<SchemaStep> = Vec::new();
        if matches!(self.command, Command::Write | Command::CounterWrite) {
            let statement = M::construct_keyspace_creation_query(&self.schema);
            steps.push(SchemaStep::Query { statement, context: None });
        }
        steps.push(
            SchemaStep::UseKeyspace {
                keyspace: self.schema.keyspace.clone(),
                case_sensitive: true,
            },
        );
        match self.command {
            Command::Write => {
                let statement = M::construct_table_creation_query(
                    &self.schema,
                    &self.column.columns,
                );
                steps.push(SchemaStep::Query { statement, context: Some(STANDARD_TABLE_FAILED) });
            },
            Command::CounterWrite => {
                let statement = M::construct_counter_table_creation_query(
                    &self.schema,
                    &self.column.columns,
                );
                steps.push(SchemaStep::Query { statement, context: Some(COUNTER_TABLE_FAILED) });
            },
            _ => {},
        }
        steps
    }

    /// Whether this run issues writes, which decides how strict a strongly consistent
    /// keyspace is about `cl=`. `None` for a user profile, whose operations can be
    /// either.
    pub fn issues_writes(&self) -> (writes: Option<bool>)
        ensures
            writes == command_writes(self.command),
    {
        match self.command {
            Command::Write | Command::CounterWrite | Command::Mixed => Some(true),
            Command::Read | Command::CounterRead => Some(false),
            Command::User => None,
            // Not workloads: they have no settings to check.
            Command::Help | Command::Version | Command::VersionJson => Some(false),
        }
    }
}

/// A profile creates its own schema. Without one, exactly one step chooses a keyspace,
/// that of the schema by its exact name. Statements are run exactly by the commands that
/// write tables of their own: one that creates the keyspace before it is chosen, and one
/// that creates the table of that command afterwards. Only a failure of the latter is
/// reported in a context.
pub proof fn law_only_writers_create<M: OptionModules>(
    settings: CassandraStressSettings<M>,
    steps: Vec<SchemaStep>,
)
    requires
        call_ensures(CassandraStressSettings::<M>::create_schema, (&settings,), steps),
    ensures
        ({
            let creates = settings.command == Command::Write || settings.command
                == Command::CounterWrite;
            let at: int = if creates {
                1
            } else {
                0
            };
            if settings.command_params.user is Some {
                steps@.len() == 1 && steps@[0] is FromUserProfile
            } else {
                &&& steps@.len() == 2 * at + 1
                &&& steps@[at] matches SchemaStep::UseKeyspace { keyspace, case_sensitive }
                    && keyspace@ == settings.schema.keyspace@ && case_sensitive
                &&& creates ==> (steps@[0] matches SchemaStep::Query { statement, context }
                    && context is None && call_ensures(
                    M::construct_keyspace_creation_query,
                    (&settings.schema,),
                    statement,
                ))
                &&& settings.command == Command::Write ==> (steps@[2] matches SchemaStep::Query {
                    statement,
                    context,
                } && context matches Some(note) && note@ == "Failed to create standard table"@
                    && call_ensures(
                    M::construct_table_creation_query,
                    (&settings.schema, &settings.column.columns),
                    statement,
                ))
                &&& settings.command == Command::CounterWrite ==> (
                steps@[2] matches SchemaStep::Query { statement, context } && context matches Some(
                    note,
                ) && note@ == "Failed to create counter table"@ && call_ensures(
                    M::construct_counter_table_creation_query,
                    (&settings.schema, &settings.column.columns),
                    statement,
                ))
            }
        }),
{
}

/// The commands that write are `write`, `counter_write` and `mixed`; of `user` it is not
/// known; no other command writes.
pub proof fn law_commands_that_write(command: Command)
    ensures
        command_writes(command) == Some(true) <==> command == Command::Write || command
            == Command::CounterWrite || command == Command::Mixed,
        command_writes(command) is None <==> command == Command::User,
{
}

} // verus!
