use cql_stress_settings::parse::{
    conclude, ignored_message, operation_count_text, parse_cassandra_stress_args,
    CassandraStressParsingResult, ParsingError,
};
use cql_stress_settings::grouping::GroupingError;
use cql_stress_settings::payload::ParsePayload;
use cql_stress_settings::settings::{
    CassandraStressSettings, ColumnOption, Command, CommandParams, CommonParams, Consistency,
    NodeOption, OptionModules, SchemaOption, SchemaStep, SettingsPart, TransportOption,
};

/// Modules that keep the parameters of an option as they are, and refuse `bad`.
struct Plain;

type Params = Vec<String>;

fn take<'a>(
    mut payload: ParsePayload<'a>,
    option: &str,
) -> (Result<Params, String>, ParsePayload<'a>) {
    let params: Params =
        payload.remove(option).unwrap_or_default().iter().map(|param| param.to_string()).collect();
    if params.iter().any(|param| param == "bad") {
        (Err(format!("{option} refuses")), payload)
    } else {
        (Ok(params), payload)
    }
}

impl OptionModules for Plain {
    type Error = String;
    type UserParams = ();
    type CommandDetails = Params;
    type NodeDetails = ();
    type Rate = Params;
    type Mode = Params;
    type SchemaDetails = ();
    type Columns = Params;
    type ColumnDetails = ();
    type Population = (Params, String);
    type Log = Params;
    type TransportDetails = ();
    type Errors = Params;

    fn parse_command<'a>(
        command: &str,
        payload: ParsePayload<'a>,
    ) -> (Result<(Command, Option<CommandParams<(), Params>>), String>, ParsePayload<'a>) {
        let key = command.to_lowercase();
        let (params, payload) = take(payload, &key);
        let command = match key.as_str() {
            "read" => Command::Read,
            "write" => Command::Write,
            "user" => Command::User,
            "help" => return (Ok((Command::Help, None)), payload),
            _ => return (Err(format!("Invalid command: {command}")), payload),
        };
        let parsed = params.map(|details| {
            let operation_count =
                details.iter().find_map(|param| param.strip_prefix("n=")?.parse().ok());
            let common =
                CommonParams { consistency_level: Consistency::LocalOne, operation_count };
            let user = if command == Command::User { Some(()) } else { None };
            (command, Some(CommandParams { common, user, details }))
        });
        (parsed, payload)
    }

    fn parse_node<'a>(
        payload: ParsePayload<'a>,
    ) -> (Result<NodeOption<()>, String>, ParsePayload<'a>) {
        let (nodes, payload) = take(payload, "-node");
        (nodes.map(|nodes| NodeOption { nodes, datacenter: None, details: () }), payload)
    }

    fn parse_rate<'a>(payload: ParsePayload<'a>) -> (Result<Params, String>, ParsePayload<'a>) {
        take(payload, "-rate")
    }

    fn parse_mode<'a>(payload: ParsePayload<'a>) -> (Result<Params, String>, ParsePayload<'a>) {
        take(payload, "-mode")
    }

    fn parse_schema<'a>(
        payload: ParsePayload<'a>,
    ) -> (Result<SchemaOption<()>, String>, ParsePayload<'a>) {
        let (params, payload) = take(payload, "-schema");
        let parsed = params.map(|params| SchemaOption {
            keyspace: params.first().cloned().unwrap_or("keyspace1".to_string()),
            strong_consistency: false,
            details: (),
        });
        (parsed, payload)
    }

    fn parse_column<'a>(
        payload: ParsePayload<'a>,
    ) -> (Result<ColumnOption<Params, ()>, String>, ParsePayload<'a>) {
        let (columns, payload) = take(payload, "-col");
        (columns.map(|columns| ColumnOption { columns, details: () }), payload)
    }

    fn parse_log<'a>(payload: ParsePayload<'a>) -> (Result<Params, String>, ParsePayload<'a>) {
        take(payload, "-log")
    }

    fn parse_transport<'a>(
        payload: ParsePayload<'a>,
    ) -> (Result<TransportOption<()>, String>, ParsePayload<'a>) {
        let (params, payload) = take(payload, "-transport");
        let parsed = params.map(|params| TransportOption {
            truststore: params.first().cloned(),
            keystore: params.get(1).cloned(),
            details: (),
        });
        (parsed, payload)
    }

    fn parse_errors<'a>(payload: ParsePayload<'a>) -> (Result<Params, String>, ParsePayload<'a>) {
        take(payload, "-errors")
    }

    fn parse_population<'a>(
        payload: ParsePayload<'a>,
        operation_count: &str,
    ) -> (Result<(Params, String), String>, ParsePayload<'a>) {
        let (params, payload) = take(payload, "-pop");
        (params.map(|params| (params, operation_count.to_string())), payload)
    }

    fn construct_keyspace_creation_query(schema: &SchemaOption<()>) -> String {
        format!("CREATE KEYSPACE {}", schema.keyspace)
    }

    fn construct_table_creation_query(schema: &SchemaOption<()>, columns: &Params) -> String {
        format!("CREATE TABLE {}.standard1 {}", schema.keyspace, columns.concat())
    }

    fn construct_counter_table_creation_query(
        schema: &SchemaOption<()>,
        columns: &Params,
    ) -> String {
        format!("CREATE TABLE {}.counter1 {}", schema.keyspace, columns.concat())
    }
}

type Parsed = Result<CassandraStressParsingResult<Plain>, ParsingError<String>>;

fn parse(args: &[&str]) -> Parsed {
    let mut all = vec!["cassandra-stress".to_string()];
    all.extend(args.iter().map(|arg| arg.to_string()));
    parse_cassandra_stress_args::<Plain>(&all)
}

fn workload(parsed: Parsed) -> CassandraStressSettings<Plain> {
    match parsed {
        Ok(CassandraStressParsingResult::Workload(settings)) => *settings,
        Ok(CassandraStressParsingResult::SpecialCommand) => panic!("a special command"),
        Err(error) => panic!("{error:?}"),
    }
}

fn settings(command: Command) -> CassandraStressSettings<Plain> {
    let mut settings = workload(parse(&["write", "-schema", "ks", "-col", "c0"]));
    settings.command = command;
    settings
}

#[test]
fn settings_are_read() {
    let settings = workload(parse(&[
        "Write", "n = 20", "-NODE", "a", "-rate", "threads=80 throttle=8000/s", "-mode", "m",
        "-schema", "ks", "-col", "c0", "-log", "l", "-transport", "t k", "-errors", "e", "-pop",
        "seq( 1 )",
    ]));
    assert_eq!(settings.command, Command::Write);
    assert_eq!(settings.command_params.details, ["n=20"]);
    assert_eq!(settings.command_params.common.operation_count, Some(20));
    assert_eq!(settings.node.nodes, ["a"]);
    assert_eq!(settings.rate, ["threads=80", "throttle=8000/s"]);
    assert_eq!(settings.mode, ["m"]);
    assert_eq!(settings.schema.keyspace, "ks");
    assert_eq!(settings.column.columns, ["c0"]);
    assert_eq!(settings.log, ["l"]);
    assert_eq!(settings.transport.truststore.as_deref(), Some("t"));
    assert_eq!(settings.transport.keystore.as_deref(), Some("k"));
    assert_eq!(settings.errors, ["e"]);
    assert_eq!(settings.population, (vec!["seq(1)".to_string()], "20".to_string()));
}

#[test]
fn a_million_operations_are_the_default() {
    assert_eq!(workload(parse(&["read"])).population.1, "1000000");
    assert_eq!(operation_count_text(None), "1000000");
    assert_eq!(operation_count_text(Some(1234567890123)), "1234567890123");
    assert_eq!(operation_count_text(Some(0)), "0");
}

#[test]
fn special_commands_have_no_settings() {
    assert!(matches!(
        parse(&["help", "-unknown"]),
        Ok(CassandraStressParsingResult::SpecialCommand)
    ));
}

#[test]
fn without_arguments_the_command_is_empty() {
    assert!(matches!(
        parse(&[]),
        Err(ParsingError::Module(error)) if error == "Invalid command: "
    ));
}

#[test]
fn repeated_options_are_refused() {
    assert!(matches!(
        parse(&["read", "-node a", "-node", "b"]),
        Err(ParsingError::Grouping(GroupingError::DefinedMultipleTimes(option)))
            if option == "-node"
    ));
}

#[test]
fn the_first_refusal_counts() {
    let options = [
        "-node", "-rate", "-mode", "-schema", "-col", "-log", "-transport", "-errors", "-pop",
    ];
    for i in 0..options.len() {
        // This module and all after it refuse, and an option is unknown.
        let mut args = vec!["read", "-unknown"];
        for option in options[i..].iter().rev() {
            args.push(option);
            args.push("bad");
        }
        assert!(matches!(
            parse(&args),
            Err(ParsingError::Module(error)) if error == format!("{} refuses", options[i])
        ));
    }
    assert!(matches!(
        parse(&["read", "bad", "-node", "bad"]),
        Err(ParsingError::Module(error)) if error == "read refuses"
    ));
}

#[test]
fn unread_options_are_reported() {
    match parse(&["read", "-foo", "a", "b", "-node", "n", "-bar"]) {
        Err(ParsingError::Ignored(lines)) => {
            assert_eq!(lines, ["-foo a b", "-bar "]);
            assert_eq!(
                ignored_message(&lines),
                "Error processing CLI arguments. The following were ignored:\n-foo a b\n-bar "
            );
        }
        Err(error) => panic!("{error:?}"),
        Ok(_) => panic!("accepted"),
    }
}

#[test]
fn concluding_asks_for_an_empty_payload() {
    let mut payload = ParsePayload::new();
    assert!(conclude(settings(Command::Read), &payload).is_ok());
    payload.insert("-x".to_string(), vec!["y"]);
    assert!(matches!(
        conclude(settings(Command::Read), &payload),
        Err(ParsingError::Ignored(lines)) if lines == ["-x y"]
    ));
}

#[test]
fn settings_are_reported_in_order() {
    let parts = settings(Command::Read).print_settings();
    let names: Vec<String> = parts.iter().map(|part| format!("{part:?}")).collect();
    assert!(matches!(
        parts[0],
        SettingsPart::Line("******************** Stress Settings ********************")
    ));
    assert_eq!(
        names[1..11],
        [
            "CommandParams", "Rate", "Mode", "Node", "Schema", "Column", "Population", "Log",
            "Transport", "Errors",
        ]
    );
    assert!(matches!(parts[11], SettingsPart::Line("")));
    assert_eq!(parts.len(), 12);
}

fn is_query(step: &SchemaStep, text: &str, note: Option<&str>) -> bool {
    matches!(step, SchemaStep::Query { statement, context } if statement == text && *context == note)
}

fn is_use(step: &SchemaStep, name: &str) -> bool {
    matches!(step, SchemaStep::UseKeyspace { keyspace, case_sensitive: true } if keyspace == name)
}

#[test]
fn write_creates_the_standard_table() {
    let steps = settings(Command::Write).create_schema();
    assert_eq!(steps.len(), 3);
    assert!(is_query(&steps[0], "CREATE KEYSPACE ks", None));
    assert!(is_use(&steps[1], "ks"));
    assert!(is_query(
        &steps[2],
        "CREATE TABLE ks.standard1 c0",
        Some("Failed to create standard table")
    ));
}

#[test]
fn counter_write_creates_the_counter_table() {
    let steps = settings(Command::CounterWrite).create_schema();
    assert_eq!(steps.len(), 3);
    assert!(is_query(&steps[0], "CREATE KEYSPACE ks", None));
    assert!(is_use(&steps[1], "ks"));
    assert!(is_query(
        &steps[2],
        "CREATE TABLE ks.counter1 c0",
        Some("Failed to create counter table")
    ));
}

#[test]
fn other_commands_use_the_keyspace_that_is_there() {
    for command in [Command::Read, Command::CounterRead, Command::Mixed] {
        let steps = settings(command).create_schema();
        assert_eq!(steps.len(), 1);
        assert!(is_use(&steps[0], "ks"));
    }
}

#[test]
fn user_profile_creates_its_own_schema() {
    let mut settings = settings(Command::Write);
    settings.command_params.user = Some(());
    let steps = settings.create_schema();
    assert_eq!(steps.len(), 1);
    assert!(matches!(steps[0], SchemaStep::FromUserProfile));
}

#[test]
fn commands_write_or_not() {
    for command in [Command::Write, Command::CounterWrite, Command::Mixed] {
        assert_eq!(settings(command).issues_writes(), Some(true));
    }
    for command in [
        Command::Read,
        Command::CounterRead,
        Command::Help,
        Command::Version,
        Command::VersionJson,
    ] {
        assert_eq!(settings(command).issues_writes(), Some(false));
    }
    assert_eq!(settings(Command::User).issues_writes(), None);
}

fn summary(settings: &CassandraStressSettings<Plain>) -> String {
    format!(
        "{:?} {:?} {:?} {:?} {:?} {:?}",
        settings.command,
        settings.command_params.details,
        settings.node.nodes,
        settings.rate,
        settings.log,
        settings.population
    )
}

#[test]
fn program_name_does_not_matter() {
    let args = |name: &str| vec![name.to_string(), "read".to_string(), "n=3".to_string()];
    let some = workload(parse_cassandra_stress_args::<Plain>(&args("cassandra-stress")));
    let other = workload(parse_cassandra_stress_args::<Plain>(&args("-node bad = (")));
    assert_eq!(summary(&some), summary(&other));
    assert_eq!(some.command_params.details, ["n=3"]);
}

#[test]
fn equal_repaired_words_are_parsed_alike() {
    let some = workload(parse(&["read", "-rate", "threads=80 throttle=8000/s"]));
    let other = workload(parse(&["read -rate", "threads", "= 80", "throttle=8000/s"]));
    assert_eq!(summary(&some), summary(&other));
    assert_eq!(some.rate, ["threads=80", "throttle=8000/s"]);
}

#[test]
fn option_order_and_case_do_not_matter() {
    let some = workload(parse(&["read", "n=3", "-node", "a", "-rate", "r", "-log", "l"]));
    let other = workload(parse(&["read", "n=3", "-LOG", "l", "-Rate", "r", "-node", "a"]));
    assert_eq!(summary(&some), summary(&other));
    assert!(parse(&["read", "-log", "bad", "-node", "a"]).is_err());
    assert!(parse(&["read", "-Node", "a", "-LOG", "bad"]).is_err());
}
