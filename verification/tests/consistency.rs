use cql_stress_settings::consistency::{
    explain_probe, ConsistencyError, ConsistencyMode, Diagnosis, ModeDecision,
};
use cql_stress_settings::datacenters::distinct_datacenters;
use cql_stress_settings::payload::ParsePayload;
use cql_stress_settings::settings::{
    CassandraStressSettings, ColumnOption, Command, CommandParams, CommonParams, Consistency,
    NodeOption, OptionModules, SchemaOption, TransportOption,
};

/// Modules that read nothing: the settings are built by hand.
struct Unread;

impl OptionModules for Unread {
    type Error = ();
    type UserParams = ();
    type CommandDetails = ();
    type NodeDetails = ();
    type Rate = ();
    type Mode = ();
    type SchemaDetails = ();
    type Columns = ();
    type ColumnDetails = ();
    type Population = ();
    type Log = ();
    type TransportDetails = ();
    type Errors = ();

    fn parse_command<'a>(
        _: &str,
        _: ParsePayload<'a>,
    ) -> (Result<(Command, Option<CommandParams<(), ()>>), ()>, ParsePayload<'a>) {
        unreachable!()
    }

    fn parse_node<'a>(_: ParsePayload<'a>) -> (Result<NodeOption<()>, ()>, ParsePayload<'a>) {
        unreachable!()
    }

    fn parse_rate<'a>(_: ParsePayload<'a>) -> (Result<(), ()>, ParsePayload<'a>) {
        unreachable!()
    }

    fn parse_mode<'a>(_: ParsePayload<'a>) -> (Result<(), ()>, ParsePayload<'a>) {
        unreachable!()
    }

    fn parse_schema<'a>(_: ParsePayload<'a>) -> (Result<SchemaOption<()>, ()>, ParsePayload<'a>) {
        unreachable!()
    }

    fn parse_column<'a>(
        _: ParsePayload<'a>,
    ) -> (Result<ColumnOption<(), ()>, ()>, ParsePayload<'a>) {
        unreachable!()
    }

    fn parse_log<'a>(_: ParsePayload<'a>) -> (Result<(), ()>, ParsePayload<'a>) {
        unreachable!()
    }

    fn parse_transport<'a>(
        _: ParsePayload<'a>,
    ) -> (Result<TransportOption<()>, ()>, ParsePayload<'a>) {
        unreachable!()
    }

    fn parse_errors<'a>(_: ParsePayload<'a>) -> (Result<(), ()>, ParsePayload<'a>) {
        unreachable!()
    }

    fn parse_population<'a>(
        _: ParsePayload<'a>,
        _: &str,
    ) -> (Result<(), ()>, ParsePayload<'a>) {
        unreachable!()
    }

    fn construct_keyspace_creation_query(schema: &SchemaOption<()>) -> String {
        format!("CREATE KEYSPACE IF NOT EXISTS {}", schema.keyspace)
    }

    fn construct_table_creation_query(_: &SchemaOption<()>, _: &()) -> String {
        unreachable!()
    }

    fn construct_counter_table_creation_query(_: &SchemaOption<()>, _: &()) -> String {
        unreachable!()
    }
}

fn settings(command: Command, level: Consistency) -> CassandraStressSettings<Unread> {
    CassandraStressSettings {
        command,
        command_params: CommandParams {
            common: CommonParams { consistency_level: level, operation_count: None },
            user: None,
            details: (),
        },
        node: NodeOption {
            nodes: vec!["10.0.0.1".to_string(), "10.0.0.2".to_string()],
            datacenter: None,
            details: (),
        },
        rate: (),
        mode: (),
        schema: SchemaOption {
            keyspace: "ks".to_string(),
            strong_consistency: true,
            details: (),
        },
        column: ColumnOption { columns: (), details: () },
        population: (),
        log: (),
        transport: TransportOption { truststore: None, keystore: None, details: () },
        errors: (),
    }
}

fn nodes(datacenters: &[&str]) -> Vec<Option<String>> {
    datacenters
        .iter()
        .map(|name| if name.is_empty() { None } else { Some(name.to_string()) })
        .collect()
}

const READS_WARNING: &str = "WARNING: keyspace 'ks' is strongly consistent, but cl=LocalOne \
    disables leader-aware routing: at ONE and LOCAL_ONE any replica may serve the read, so the \
    driver keeps normal spread routing and requests are forwarded to the leader by whichever \
    replica received them. Note that local_one is the default cl. Use cl=QUORUM to measure strong \
    consistency.";

const DATACENTER_WARNING: &str = "WARNING: keyspace 'ks' is strongly consistent and this run \
    prefers datacenter 'dc1', but the cluster spans 3 datacenters (dc1, dc10, dc2). A tablet's \
    Raft leader can be in any of them, and cql-stress does not enable datacenter failover, so the \
    driver will never send a request to a leader outside 'dc1' - those requests go to a local \
    replica and are forwarded to the leader, which is exactly the hop leader-aware routing is \
    meant to remove. Only tablets whose leader already sits in 'dc1' are leader-routed, so this \
    run measures a mixture. Drop datacenter= to measure leader-aware routing across the whole \
    cluster. A preferred rack is fine - the leader outranks rack.";

const ROUTING: &str = "Leader-aware routing: enabled (the driver negotiated TABLETS_ROUTING_V2 \
    with this cluster and keyspace 'ks' is strongly consistent)";

#[test]
fn quorum_levels_pass() {
    for command in [Command::Read, Command::Write, Command::Mixed, Command::User] {
        for level in [Consistency::Quorum, Consistency::LocalQuorum] {
            assert!(matches!(settings(command, level).verify_consistency_level(), Ok(None)));
        }
    }
}

#[test]
fn other_levels_are_not_accepted() {
    let names = [
        (Consistency::Any, "Any"),
        (Consistency::Two, "Two"),
        (Consistency::Three, "Three"),
        (Consistency::All, "All"),
        (Consistency::EachQuorum, "EachQuorum"),
        (Consistency::Serial, "Serial"),
        (Consistency::LocalSerial, "LocalSerial"),
    ];
    for (level, name) in names {
        for command in [Command::Read, Command::Write, Command::User] {
            let error = settings(command, level).verify_consistency_level().unwrap_err();
            assert!(matches!(error, ConsistencyError::LevelNotAccepted { .. }));
            assert_eq!(
                error.message(),
                format!(
                    "Keyspace 'ks' is strongly consistent, but cl={name} is not a consistency \
                     level it accepts: strongly consistent writes take QUORUM or LOCAL_QUORUM, \
                     and strongly consistent reads take QUORUM, LOCAL_QUORUM, ONE or LOCAL_ONE. \
                     The server would reject every operation in this run. Use cl=QUORUM."
                )
            );
        }
    }
}

#[test]
fn all_level_names_are_written() {
    let names = [
        (Consistency::One, "One"),
        (Consistency::Quorum, "Quorum"),
        (Consistency::LocalQuorum, "LocalQuorum"),
        (Consistency::LocalOne, "LocalOne"),
    ];
    for (level, name) in names {
        let error = ConsistencyError::LevelCannotWrite { keyspace: "k".to_string(), level };
        assert!(error
            .message()
            .starts_with(&format!("Keyspace 'k' is strongly consistent, but cl={name} cannot")));
    }
}

#[test]
fn one_cannot_write() {
    for command in [Command::Write, Command::CounterWrite, Command::Mixed] {
        let error = settings(command, Consistency::One).verify_consistency_level().unwrap_err();
        assert!(matches!(error, ConsistencyError::LevelCannotWrite { .. }));
        assert_eq!(
            error.message(),
            "Keyspace 'ks' is strongly consistent, but cl=One cannot be used to write to it: the \
             server accepts only QUORUM and LOCAL_QUORUM for strongly consistent writes and would \
             reject every operation in this run. Use cl=QUORUM."
        );
    }
}

#[test]
fn local_one_reads_with_a_warning() {
    for command in [Command::Read, Command::CounterRead] {
        let warning = settings(command, Consistency::LocalOne).verify_consistency_level().unwrap();
        assert_eq!(warning.as_deref(), Some(READS_WARNING));
    }
}

#[test]
fn profile_is_warned_of_both() {
    let warning = settings(Command::User, Consistency::One).verify_consistency_level().unwrap();
    assert_eq!(
        warning.as_deref(),
        Some(
            "WARNING: keyspace 'ks' is strongly consistent and cl=One. Any write in this profile \
             will be rejected - the server accepts only QUORUM and LOCAL_QUORUM for strongly \
             consistent writes - and the reads that do go through are not leader-routed, because \
             at ONE and LOCAL_ONE any replica may serve them. Use cl=QUORUM to measure strong \
             consistency."
        )
    );
}

#[test]
fn datacenters_are_sorted_and_distinct() {
    assert_eq!(
        distinct_datacenters(&nodes(&["dc2", "", "dc1", "dc2", "dc10", "Dc"])),
        ["Dc", "dc1", "dc10", "dc2"]
    );
    let names = ["é", "z", "\u{10000}", "\u{ffff}", "a", "", "aa"];
    let mut sorted: Vec<&str> = names.iter().copied().filter(|name| !name.is_empty()).collect();
    sorted.sort_unstable();
    assert_eq!(distinct_datacenters(&nodes(&names)), sorted);
}

#[test]
fn preferred_datacenter_is_warned_of() {
    let mut settings = settings(Command::Read, Consistency::Quorum);
    let cluster = nodes(&["dc2", "dc1", "", "dc10", "dc1"]);
    assert_eq!(settings.warn_on_datacenter_preference(&cluster), None);
    settings.node.datacenter = Some("dc1".to_string());
    assert_eq!(
        settings.warn_on_datacenter_preference(&cluster).as_deref(),
        Some(DATACENTER_WARNING)
    );
}

#[test]
fn one_datacenter_is_silent() {
    let mut settings = settings(Command::Read, Consistency::Quorum);
    settings.node.datacenter = Some("dc1".to_string());
    assert_eq!(settings.warn_on_datacenter_preference(&nodes(&["dc1", "", "dc1"])), None);
    assert_eq!(settings.warn_on_datacenter_preference(&nodes(&["dc2"])), None);
    assert_eq!(settings.warn_on_datacenter_preference(&nodes(&[])), None);
}

#[test]
fn strong_keyspace_is_accepted() {
    let check = settings(Command::Write, Consistency::Quorum)
        .verify_consistency_mode(&Some(ConsistencyMode::Global), &nodes(&["dc1"]));
    assert!(matches!(check.decision, ModeDecision::Accepted));
    assert_eq!(check.lines, ["Keyspace 'ks' consistency mode: Global", ROUTING]);
}

#[test]
fn strong_keyspace_is_strict_without_a_request() {
    let mut settings = settings(Command::Write, Consistency::One);
    settings.schema.strong_consistency = false;
    let check =
        settings.verify_consistency_mode(&Some(ConsistencyMode::Global), &nodes(&["dc1"]));
    assert!(matches!(
        check.decision,
        ModeDecision::Rejected(ConsistencyError::LevelCannotWrite { .. })
    ));
    assert_eq!(check.lines, ["Keyspace 'ks' consistency mode: Global", ROUTING]);
}

#[test]
fn warnings_of_a_strong_keyspace_follow_in_order() {
    let mut settings = settings(Command::Read, Consistency::LocalOne);
    settings.node.datacenter = Some("dc1".to_string());
    let check = settings.verify_consistency_mode(
        &Some(ConsistencyMode::Global),
        &nodes(&["dc10", "dc1", "dc2"]),
    );
    assert!(matches!(check.decision, ModeDecision::Accepted));
    assert_eq!(
        check.lines,
        [
            "Keyspace 'ks' consistency mode: Global",
            ROUTING,
            "",
            READS_WARNING,
            "",
            "",
            DATACENTER_WARNING,
            "",
        ]
    );
}

#[test]
fn weak_keyspace_is_only_reported_without_a_request() {
    let mut settings = settings(Command::Write, Consistency::One);
    settings.schema.strong_consistency = false;
    let modes = [
        (Some(ConsistencyMode::Eventual), "Eventual"),
        (Some(ConsistencyMode::Other("Local".to_string())), "Local"),
        (None, "unknown (keyspace not found in cluster metadata)"),
    ];
    for (mode, name) in modes {
        let check = settings.verify_consistency_mode(&mode, &nodes(&["dc1", "dc2"]));
        assert!(matches!(check.decision, ModeDecision::Accepted));
        assert_eq!(check.lines, [format!("Keyspace 'ks' consistency mode: {name}")]);
    }
}

const MISSING: &str = "Requested consistency=global, but the driver does not see keyspace 'ks' as \
    strongly consistent (mode: Eventual). This run would not measure strong consistency. The \
    driver reports Global only once it has both negotiated TABLETS_ROUTING_V2 with this cluster \
    and read consistency='global' for the keyspace, so any of these breaks it:\n\
    - the server does not run with --experimental-features=strongly-consistent-tables;\n\
    - the cluster feature gating strongly consistent tables is not enabled yet - it turns on only \
    once every node carries that flag, so a partially upgraded cluster lands here;\n\
    - the server does not advertise TABLETS_ROUTING_V2_EXPERIMENTAL, which is a capability \
    separate from accepting consistency='global' (ScyllaDB 2026.2.x has the second without the \
    first);\n\
    - keyspace 'ks' already exists as an eventually consistent keyspace (CREATE KEYSPACE IF NOT \
    EXISTS will not upgrade it - drop it first);\n\
    - the keyspace is not tablet-based (non-tablet keyspaces reject the consistency option; \
    SimpleStrategy may not get tablets).\n\
    DDL used: CREATE KEYSPACE IF NOT EXISTS ks";

#[test]
fn weak_keyspace_is_probed_on_request() {
    let settings = settings(Command::Write, Consistency::Quorum);
    let mode = Some(ConsistencyMode::Eventual);
    let check = settings.verify_consistency_mode(&mode, &nodes(&["dc1"]));
    assert!(matches!(&check.decision, ModeDecision::Probe(node) if node == "10.0.0.1"));
    assert_eq!(check.lines, ["Keyspace 'ks' consistency mode: Eventual"]);
    assert_eq!(
        settings.reject_after_probe(&mode, "10.0.0.1", &Ok(true)).message(),
        format!(
            "{MISSING}\nNode '10.0.0.1' does advertise TABLETS_ROUTING_V2_EXPERIMENTAL, so this \
             server can route to tablet leaders - the keyspace itself is what is not strongly \
             consistent."
        )
    );
}

#[test]
fn weak_keyspace_is_rejected_without_a_probe_over_tls() {
    for keystore in [false, true] {
        let mut settings = settings(Command::Read, Consistency::Quorum);
        if keystore {
            settings.transport.keystore = Some("k".to_string());
        } else {
            settings.transport.truststore = Some("t".to_string());
        }
        let check = settings
            .verify_consistency_mode(&Some(ConsistencyMode::Eventual), &nodes(&["dc1"]));
        match check.decision {
            ModeDecision::Rejected(error) => assert_eq!(
                error.message(),
                format!(
                    "{MISSING}\nNode '10.0.0.1' was not asked whether it advertises \
                     TABLETS_ROUTING_V2_EXPERIMENTAL: the probe speaks plaintext CQL and this run \
                     uses TLS."
                )
            ),
            other => panic!("{other:?}"),
        }
    }
}

#[test]
fn weak_keyspace_is_rejected_without_a_probe_without_nodes() {
    let mut settings = settings(Command::Read, Consistency::Quorum);
    settings.node.nodes.clear();
    settings.transport.keystore = Some("k".to_string());
    assert!(matches!(
        settings.diagnose_missing_strong_consistency(),
        Diagnosis::Known(sentence) if sentence.is_empty()
    ));
    let check =
        settings.verify_consistency_mode(&Some(ConsistencyMode::Eventual), &nodes(&["dc1"]));
    match check.decision {
        ModeDecision::Rejected(error) => assert_eq!(error.message(), MISSING),
        other => panic!("{other:?}"),
    }
}

#[test]
fn probes_are_explained() {
    assert_eq!(
        explain_probe("n", &Ok(false)),
        "\nNode 'n' does NOT advertise TABLETS_ROUTING_V2_EXPERIMENTAL, so it cannot hand the \
         driver a leader-ordered replica list at all. This is a capability separate from \
         accepting consistency='global': ScyllaDB 2026.2.x stores 'global' in \
         system_schema.scylla_keyspaces while advertising only TABLETS_ROUTING_V1, which is \
         exactly why the mode above reads as eventual."
    );
    assert_eq!(
        explain_probe("n", &Err("connection refused".to_string())),
        "\nNode 'n' could not be asked whether it advertises TABLETS_ROUTING_V2_EXPERIMENTAL: \
         connection refused"
    );
}
