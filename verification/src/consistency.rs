//! Whether a run measures the consistency that it claims to measure.

use vstd::prelude::*;

use crate::datacenters::{
    distinct_datacenters, is_datacenter_of, lemma_irreflexive, lists_datacenters, precedes,
};
use crate::settings::{
    command_writes, CassandraStressSettings, Command, Consistency, OptionModules,
};
use crate::text::{decimal, decimal_text, join_strings, joined, views};

verus! {

/// The consistency mode of a keyspace, as the driver sees it.
#[derive(Debug)]
pub enum ConsistencyMode {
    Eventual,
    /// Strong consistency. The driver reports it only where it can also route
    /// requests to the leaders of tablets.
    Global,
    /// A mode of this name, none of the above.
    Other(String),
}

/// Why a run must not start.
#[derive(Debug)]
pub enum ConsistencyError {
    /// Strong consistency was requested, and the keyspace does not have it.
    NotStronglyConsistent {
        keyspace: String,
        reported_mode: String,
        ddl: String,
        diagnosis: String,
    },
    /// A strongly consistent keyspace takes no request at this level.
    LevelNotAccepted { keyspace: String, level: Consistency },
    /// A strongly consistent keyspace takes no write at this level.
    LevelCannotWrite { keyspace: String, level: Consistency },
}

/// What there is to say of a keyspace that is not strongly consistent.
#[derive(Debug)]
pub enum Diagnosis {
    /// This sentence, or nothing.
    Known(String),
    /// Whatever asking this node for its protocol features gives.
    Probe(String),
}

/// What is to become of a run.
#[derive(Debug)]
pub enum ModeDecision {
    /// The run may start.
    Accepted,
    /// The run must not start.
    Rejected(ConsistencyError),
    /// The run must not start; ask this node for its protocol features to say why.
    Probe(String),
}

/// The outcome of checking the consistency mode: lines to print, and what follows.
#[derive(Debug)]
pub struct ModeCheck {
    pub lines: Vec<String>,
    pub decision: ModeDecision,
}

/// The name of a consistency level.
pub open spec fn level_name(level: Consistency) -> Seq<char> {
    match level {
        Consistency::Any => "Any"@,
        Consistency::One => "One"@,
        Consistency::Two => "Two"@,
        Consistency::Three => "Three"@,
        Consistency::Quorum => "Quorum"@,
        Consistency::All => "All"@,
        Consistency::LocalQuorum => "LocalQuorum"@,
        Consistency::EachQuorum => "EachQuorum"@,
        Consistency::LocalOne => "LocalOne"@,
        Consistency::Serial => "Serial"@,
        Consistency::LocalSerial => "LocalSerial"@,
    }
}

/// Calls `to_string` on `scylla::statement::Consistency`, whose `Display` writes the
/// name of the variant.
#[verifier::external_body]
fn level_text(level: Consistency) -> (text: String)
    ensures
        text@ == level_name(level),
{
    let level = match level {
        Consistency::Any => scylla::statement::Consistency::Any,
        Consistency::One => scylla::statement::Consistency::One,
        Consistency::Two => scylla::statement::Consistency::Two,
        Consistency::Three => scylla::statement::Consistency::Three,
        Consistency::Quorum => scylla::statement::Consistency::Quorum,
        Consistency::All => scylla::statement::Consistency::All,
        Consistency::LocalQuorum => scylla::statement::Consistency::LocalQuorum,
        Consistency::EachQuorum => scylla::statement::Consistency::EachQuorum,
        Consistency::LocalOne => scylla::statement::Consistency::LocalOne,
        Consistency::Serial => scylla::statement::Consistency::Serial,
        Consistency::LocalSerial => scylla::statement::Consistency::LocalSerial,
    };
    level.to_string()
}

/// The levels at which a strongly consistent keyspace takes writes.
pub open spec fn takes_writes(level: Consistency) -> bool {
    level == Consistency::Quorum || level == Consistency::LocalQuorum
}

/// The levels at which a strongly consistent keyspace takes reads.
pub open spec fn takes_reads(level: Consistency) -> bool {
    takes_writes(level) || level == Consistency::One || level == Consistency::LocalOne
}

/// What a consistency level means for a run on a strongly consistent keyspace.
pub enum LevelDecision {
    /// The run measures strong consistency.
    Passes,
    /// The run works, but does not measure what it set out to.
    Warns(Seq<char>),
    /// No operation of the run would be accepted.
    NotAccepted,
    /// No write of the run would be accepted, and it writes.
    CannotWrite,
}

// The parts of the texts on consistency levels.

pub const STRONG_BUT_CL: &'static str = "' is strongly consistent, but cl=";

pub const KEYSPACE: &'static str = "Keyspace '";

pub const WARNING_KEYSPACE: &'static str = "WARNING: keyspace '";

pub const NOT_ACCEPTED: &'static str =
    " is not a consistency level it accepts: strongly consistent writes take QUORUM or \
     LOCAL_QUORUM, and strongly consistent reads take QUORUM, LOCAL_QUORUM, ONE or LOCAL_ONE. \
     The server would reject every operation in this run. Use cl=QUORUM.";

pub const CANNOT_WRITE: &'static str =
    " cannot be used to write to it: the server accepts only QUORUM and LOCAL_QUORUM for strongly \
     consistent writes and would reject every operation in this run. Use cl=QUORUM.";

pub const READS_NOT_ROUTED: &'static str =
    " disables leader-aware routing: at ONE and LOCAL_ONE any replica may serve the read, so the \
     driver keeps normal spread routing and requests are forwarded to the leader by whichever \
     replica received them. Note that local_one is the default cl. Use cl=QUORUM to measure \
     strong consistency.";

pub const STRONG_AND_CL: &'static str = "' is strongly consistent and cl=";

pub const PROFILE_NOT_ROUTED: &'static str =
    ". Any write in this profile will be rejected - the server accepts only QUORUM and \
     LOCAL_QUORUM for strongly consistent writes - and the reads that do go through are not \
     leader-routed, because at ONE and LOCAL_ONE any replica may serve them. Use cl=QUORUM to \
     measure strong consistency.";

/// The warning that reads at `level` are not routed to leaders.
pub open spec fn read_warning(keyspace: Seq<char>, level: Consistency) -> Seq<char> {
    WARNING_KEYSPACE@ + keyspace + STRONG_BUT_CL@ + level_name(level) + READS_NOT_ROUTED@
}

/// The warning about a profile, whose operations are not known.
pub open spec fn profile_warning(keyspace: Seq<char>, level: Consistency) -> Seq<char> {
    WARNING_KEYSPACE@ + keyspace + STRONG_AND_CL@ + level_name(level) + PROFILE_NOT_ROUTED@
}

/// What `level` means for a run of `command` on a strongly consistent keyspace.
pub open spec fn level_decision(
    command: Command,
    keyspace: Seq<char>,
    level: Consistency,
) -> LevelDecision {
    if takes_writes(level) {
        LevelDecision::Passes
    } else if !takes_reads(level) {
        LevelDecision::NotAccepted
    } else {
        match command_writes(command) {
            Some(true) => LevelDecision::CannotWrite,
            Some(false) => LevelDecision::Warns(read_warning(keyspace, level)),
            None => LevelDecision::Warns(profile_warning(keyspace, level)),
        }
    }
}

/// A run that writes may start exactly at the levels that take writes, and then
/// without a warning.
pub proof fn law_writing_needs_a_quorum(command: Command, keyspace: Seq<char>, level: Consistency)
    requires
        command_writes(command) == Some(true),
    ensures
        level_decision(command, keyspace, level) is Passes <==> takes_writes(level),
        level_decision(command, keyspace, level) !is Warns,
{
}

/// A run that is not known to write may start exactly at the levels that take reads;
/// at those that take no writes it warns.
pub proof fn law_reading_takes_more_levels(
    command: Command,
    keyspace: Seq<char>,
    level: Consistency,
)
    requires
        command_writes(command) != Some(true),
    ensures
        level_decision(command, keyspace, level) is NotAccepted <==> !takes_reads(level),
        level_decision(command, keyspace, level) !is CannotWrite,
        level_decision(command, keyspace, level) is Warns <==> takes_reads(level) && !takes_writes(
            level,
        ),
{
}

// The parts of the lines on the consistency mode.

pub const CONSISTENCY_MODE: &'static str = "' consistency mode: ";

/// Stands for the mode of a keyspace that does not exist.
pub const UNKNOWN_MODE: &'static str = "unknown (keyspace not found in cluster metadata)";

pub const LEADER_ROUTING: &'static str =
    "Leader-aware routing: enabled (the driver negotiated TABLETS_ROUTING_V2 with this cluster \
     and keyspace '";

pub const LEADER_ROUTING_END: &'static str = "' is strongly consistent)";

/// How the mode of a keyspace is reported; `None` where there is no such keyspace.
pub open spec fn mode_name(mode: Option<ConsistencyMode>) -> Seq<char> {
    match mode {
        Some(ConsistencyMode::Eventual) => "Eventual"@,
        Some(ConsistencyMode::Global) => "Global"@,
        Some(ConsistencyMode::Other(name)) => name@,
        None => UNKNOWN_MODE@,
    }
}

/// The line that reports the mode of a keyspace.
pub open spec fn mode_line(keyspace: Seq<char>, mode: Option<ConsistencyMode>) -> Seq<char> {
    KEYSPACE@ + keyspace + CONSISTENCY_MODE@ + mode_name(mode)
}

/// The line that reports leader-aware routing.
pub open spec fn routing_line(keyspace: Seq<char>) -> Seq<char> {
    LEADER_ROUTING@ + keyspace + LEADER_ROUTING_END@
}

fn mode_text(mode: &Option<ConsistencyMode>) -> (text: String)
    ensures
        text@ == mode_name(*mode),
{
    match mode {
        Some(ConsistencyMode::Eventual) => "Eventual".to_owned(),
        Some(ConsistencyMode::Global) => "Global".to_owned(),
        Some(ConsistencyMode::Other(name)) => name.clone(),
        None => UNKNOWN_MODE.to_owned(),
    }
}

// The parts of the text on a keyspace that is not strongly consistent.

pub const REQUESTED_GLOBAL: &'static str =
    "Requested consistency=global, but the driver does not see keyspace '";

pub const AS_STRONG: &'static str = "' as strongly consistent (mode: ";

pub const CAUSES: &'static str =
    "). This run would not measure strong consistency. The driver reports Global only once it has \
     both negotiated TABLETS_ROUTING_V2 with this cluster and read consistency='global' for the \
     keyspace, so any of these breaks it:\n\
     - the server does not run with --experimental-features=strongly-consistent-tables;\n\
     - the cluster feature gating strongly consistent tables is not enabled yet - it turns on \
     only once every node carries that flag, so a partially upgraded cluster lands here;\n\
     - the server does not advertise TABLETS_ROUTING_V2_EXPERIMENTAL, which is a capability \
     separate from accepting consistency='global' (ScyllaDB 2026.2.x has the second without the \
     first);\n\
     - keyspace '";

pub const MORE_CAUSES: &'static str =
    "' already exists as an eventually consistent keyspace (CREATE KEYSPACE IF NOT EXISTS will \
     not upgrade it - drop it first);\n\
     - the keyspace is not tablet-based (non-tablet keyspaces reject the consistency option; \
     SimpleStrategy may not get tablets).\n\
     DDL used: ";

impl ConsistencyError {
    /// The text of the error.
    pub open spec fn text(self) -> Seq<char> {
        match self {
            ConsistencyError::NotStronglyConsistent {
                keyspace,
                reported_mode,
                ddl,
                diagnosis,
            } => REQUESTED_GLOBAL@ + keyspace@ + AS_STRONG@ + reported_mode@ + CAUSES@ + keyspace@
                + MORE_CAUSES@ + ddl@ + diagnosis@,
            ConsistencyError::LevelNotAccepted { keyspace, level } => KEYSPACE@ + keyspace@
                + STRONG_BUT_CL@ + level_name(level) + NOT_ACCEPTED@,
            ConsistencyError::LevelCannotWrite { keyspace, level } => KEYSPACE@ + keyspace@
                + STRONG_BUT_CL@ + level_name(level) + CANNOT_WRITE@,
        }
    }

    /// Writes the error out.
    pub fn message(&self) -> (message: String)
        ensures
            message@ == self.text(),
    {
        match self {
            ConsistencyError::NotStronglyConsistent {
                keyspace,
                reported_mode,
                ddl,
                diagnosis,
            } => {
                let mut message = REQUESTED_GLOBAL.to_owned();
                message.append(keyspace.as_str());
                message.append(AS_STRONG);
                message.append(reported_mode.as_str());
                message.append(CAUSES);
                message.append(keyspace.as_str());
                message.append(MORE_CAUSES);
                message.append(ddl.as_str());
                message.append(diagnosis.as_str());
                message
            },
            ConsistencyError::LevelNotAccepted { keyspace, level } => {
                let mut message = KEYSPACE.to_owned();
                message.append(keyspace.as_str());
                message.append(STRONG_BUT_CL);
                message.append(level_text(*level).as_str());
                message.append(NOT_ACCEPTED);
                message
            },
            ConsistencyError::LevelCannotWrite { keyspace, level } => {
                let mut message = KEYSPACE.to_owned();
                message.append(keyspace.as_str());
                message.append(STRONG_BUT_CL);
                message.append(level_text(*level).as_str());
                message.append(CANNOT_WRITE);
                message
            },
        }
    }
}

// The parts of the sentences on a node.

pub const NODE: &'static str = "\nNode '";

pub const NOT_ASKED: &'static str =
    "' was not asked whether it advertises TABLETS_ROUTING_V2_EXPERIMENTAL: the probe speaks \
     plaintext CQL and this run uses TLS.";

pub const ADVERTISES: &'static str =
    "' does advertise TABLETS_ROUTING_V2_EXPERIMENTAL, so this server can route to tablet leaders \
     - the keyspace itself is what is not strongly consistent.";

pub const DOES_NOT_ADVERTISE: &'static str =
    "' does NOT advertise TABLETS_ROUTING_V2_EXPERIMENTAL, so it cannot hand the driver a \
     leader-ordered replica list at all. This is a capability separate from accepting \
     consistency='global': ScyllaDB 2026.2.x stores 'global' in system_schema.scylla_keyspaces \
     while advertising only TABLETS_ROUTING_V1, which is exactly why the mode above reads as \
     eventual.";

pub const COULD_NOT_ASK: &'static str =
    "' could not be asked whether it advertises TABLETS_ROUTING_V2_EXPERIMENTAL: ";

/// The sentence on a node that a probe cannot reach.
pub open spec fn tls_text(node: Seq<char>) -> Seq<char> {
    NODE@ + node + NOT_ASKED@
}

/// The sentence on what asking a node gave: whether it advertises the extension, or
/// why it could not be asked.
pub open spec fn probe_text(node: Seq<char>, outcome: Result<bool, String>) -> Seq<char> {
    match outcome {
        Ok(true) => NODE@ + node + ADVERTISES@,
        Ok(false) => NODE@ + node + DOES_NOT_ADVERTISE@,
        Err(error) => NODE@ + node + COULD_NOT_ASK@ + error@,
    }
}

/// Explains, from the outcome of asking a node whether it advertises
/// `TABLETS_ROUTING_V2_EXPERIMENTAL`, why a keyspace is not strongly consistent.
pub fn explain_probe(node: &str, outcome: &Result<bool, String>) -> (sentence: String)
    ensures
        sentence@ == probe_text(node@, *outcome),
{
    let mut sentence = NODE.to_owned();
    sentence.append(node);
    match outcome {
        Ok(supported) => {
            if *supported {
                sentence.append(ADVERTISES);
            } else {
                sentence.append(DOES_NOT_ADVERTISE);
            }
        },
        Err(error) => {
            sentence.append(COULD_NOT_ASK);
            sentence.append(error.as_str());
        },
    }
    sentence
}

// The parts of the warning about a preferred datacenter.

pub const PREFERS: &'static str =
    "' is strongly consistent and this run prefers datacenter '";

pub const SPANS: &'static str = "', but the cluster spans ";

pub const DATACENTERS: &'static str = " datacenters (";

pub const ANY_LEADER: &'static str =
    "). A tablet's Raft leader can be in any of them, and cql-stress does not enable datacenter \
     failover, so the driver will never send a request to a leader outside '";

pub const FORWARDED: &'static str =
    "' - those requests go to a local replica and are forwarded to the leader, which is exactly \
     the hop leader-aware routing is meant to remove. Only tablets whose leader already sits in '";

pub const MIXTURE: &'static str =
    "' are leader-routed, so this run measures a mixture. Drop datacenter= to measure leader-aware \
     routing across the whole cluster. A preferred rack is fine - the leader outranks rack.";

/// Stands between two datacenters.
pub const COMMA: &'static str = ", ";

/// The warning that a preferred datacenter narrows leader-aware routing.
pub open spec fn datacenter_warning(
    keyspace: Seq<char>,
    preferred: Seq<char>,
    names: Seq<Seq<char>>,
) -> Seq<char> {
    WARNING_KEYSPACE@ + keyspace + PREFERS@ + preferred + SPANS@ + decimal(names.len())
        + DATACENTERS@ + joined(names, COMMA@) + ANY_LEADER@ + preferred + FORWARDED@ + preferred
        + MIXTURE@
}

/// Whether `warning` is what there is to warn of when a run prefers a datacenter: a
/// warning, if the nodes of the cluster are in more than one.
pub open spec fn warns_of_datacenters(
    keyspace: Seq<char>,
    preferred: Option<String>,
    nodes: Seq<Option<String>>,
    warning: Option<Seq<char>>,
) -> bool {
    match preferred {
        None => warning is None,
        Some(preferred) => exists|names: Seq<Seq<char>>|
            #![trigger lists_datacenters(nodes, names)]
            lists_datacenters(nodes, names) && warning == if names.len() < 2 {
                None
            } else {
                Some(datacenter_warning(keyspace, preferred@, names))
            },
    }
}

/// The lines that print a warning, if there is one.
pub open spec fn warning_lines(warning: Option<Seq<char>>) -> Seq<Seq<char>> {
    match warning {
        None => Seq::empty(),
        Some(text) => seq![""@, text, ""@],
    }
}

/// The view of an optional text.
pub open spec fn optional_text(text: Option<String>) -> Option<Seq<char>> {
    match text {
        Some(text) => Some(text@),
        None => None,
    }
}

fn push_warning(lines: &mut Vec<String>, warning: Option<String>)
    ensures
        views(final(lines)@) == views(old(lines)@) + warning_lines(optional_text(warning)),
{
    let ghost had = views(lines@);
    let ghost text = optional_text(warning);
    if let Some(warning) = warning {
        lines.push("".to_owned());
        lines.push(warning);
        lines.push("".to_owned());
    }
    assert(views(lines@) =~= had + warning_lines(text));
}

impl<M: OptionModules> CassandraStressSettings<M> {
    /// Whether the outcome of checking the level is what `level_decision` says.
    pub open spec fn is_level_outcome(
        &self,
        outcome: Result<Option<Seq<char>>, ConsistencyError>,
    ) -> bool {
        let level = self.command_params.common.consistency_level;
        match level_decision(self.command, self.schema.keyspace@, level) {
            LevelDecision::Passes => outcome == Ok::<Option<Seq<char>>, ConsistencyError>(None),
            LevelDecision::Warns(text) => outcome == Ok::<Option<Seq<char>>, ConsistencyError>(
                Some(text),
            ),
            LevelDecision::NotAccepted => outcome matches Err(
                ConsistencyError::LevelNotAccepted { keyspace, level: refused },
            ) && keyspace@ == self.schema.keyspace@ && refused == level,
            LevelDecision::CannotWrite => outcome matches Err(
                ConsistencyError::LevelCannotWrite { keyspace, level: refused },
            ) && keyspace@ == self.schema.keyspace@ && refused == level,
        }
    }

    /// Checks `cl=` against what a strongly consistent keyspace actually accepts:
    /// writes take `QUORUM` and `LOCAL_QUORUM`, and reads take `ONE` and `LOCAL_ONE`
    /// too.
    ///
    /// `ONE` and `LOCAL_ONE` turn leader-aware routing off. For a run that does not
    /// write, that is a warning rather than an error: the run works, it just does not
    /// measure what it set out to.
    pub fn verify_consistency_level(&self) -> (outcome: Result<Option<String>, ConsistencyError>)
        ensures
            self.is_level_outcome(
                match outcome {
                    Ok(warning) => Ok(optional_text(warning)),
                    Err(error) => Err(error),
                },
            ),
    {
        let level = self.command_params.common.consistency_level;
        if matches!(level, Consistency::Quorum | Consistency::LocalQuorum) {
            return Ok(None);
        }
        if !matches!(level, Consistency::One | Consistency::LocalOne) {
            return Err(
                ConsistencyError::LevelNotAccepted {
                    keyspace: self.schema.keyspace.clone(),
                    level,
                },
            );
        }
        // Accepted for reads, rejected for writes.
        let mut warning = WARNING_KEYSPACE.to_owned();
        warning.append(self.schema.keyspace.as_str());
        match self.issues_writes() {
            Some(writes) => {
                if writes {
                    return Err(
                        ConsistencyError::LevelCannotWrite {
                            keyspace: self.schema.keyspace.clone(),
                            level,
                        },
                    );
                }
                warning.append(STRONG_BUT_CL);
                warning.append(level_text(level).as_str());
                warning.append(READS_NOT_ROUTED);
            },
            // A profile may write or not, so warn of both.
            None => {
                warning.append(STRONG_AND_CL);
                warning.append(level_text(level).as_str());
                warning.append(PROFILE_NOT_ROUTED);
            },
        }
        Ok(Some(warning))
    }

    /// Warns when a preferred datacenter quietly narrows leader-aware routing to a
    /// fraction of the tablets.
    ///
    /// The leader of a tablet can be in any datacenter, and one outside the preferred
    /// datacenter is never contacted. In a cluster of one datacenter that costs
    /// nothing. `nodes` holds the datacenter of each node, `None` for a node without one.
    pub fn warn_on_datacenter_preference(&self, nodes: &Vec<Option<String>>) -> (warning: Option<
        String,
    >)
        ensures
            warns_of_datacenters(
                self.schema.keyspace@,
                self.node.datacenter,
                nodes@,
                optional_text(warning),
            ),
    {
        match &self.node.datacenter {
            None => None,
            Some(preferred) => {
                let names = distinct_datacenters(nodes);
                assert(lists_datacenters(nodes@, views(names@)));
                if names.len() < 2 {
                    return None;
                }
                let mut warning = WARNING_KEYSPACE.to_owned();
                warning.append(self.schema.keyspace.as_str());
                warning.append(PREFERS);
                warning.append(preferred.as_str());
                warning.append(SPANS);
                warning.append(decimal_text(names.len() as u64).as_str());
                warning.append(DATACENTERS);
                warning.append(join_strings(&names, COMMA).as_str());
                warning.append(ANY_LEADER);
                warning.append(preferred.as_str());
                warning.append(FORWARDED);
                warning.append(preferred.as_str());
                warning.append(MIXTURE);
                Some(warning)
            },
        }
    }

    /// Whether the connections to the nodes use TLS.
    pub open spec fn uses_tls(&self) -> bool {
        self.transport.truststore is Some || self.transport.keystore is Some
    }

    /// Explains, as far as it can be established from outside, why the driver does
    /// not see the keyspace as strongly consistent: asks the first node whether it
    /// could route to leaders at all, unless there is none or it speaks TLS only.
    pub fn diagnose_missing_strong_consistency(&self) -> (diagnosis: Diagnosis)
        ensures
            match diagnosis {
                Diagnosis::Known(sentence) => sentence@ == if self.node.nodes@.len() == 0 {
                    ""@
                } else {
                    tls_text(self.node.nodes@[0]@)
                } && (self.node.nodes@.len() == 0 || self.uses_tls()),
                Diagnosis::Probe(node) => self.node.nodes@.len() > 0 && !self.uses_tls() && node@
                    == self.node.nodes@[0]@,
            },
    {
        if self.node.nodes.len() == 0 {
            return Diagnosis::Known("".to_owned());
        }
        let node = &self.node.nodes[0];
        // The probe speaks plaintext CQL and cannot reach a TLS-only node.
        if self.transport.truststore.is_some() || self.transport.keystore.is_some() {
            let mut sentence = NODE.to_owned();
            sentence.append(node.as_str());
            sentence.append(NOT_ASKED);
            return Diagnosis::Known(sentence);
        }
        Diagnosis::Probe(node.clone())
    }

    /// Whether `error` says that the keyspace is not strongly consistent but `mode`,
    /// with this diagnosis.
    pub open spec fn is_missing(
        &self,
        error: ConsistencyError,
        mode: Option<ConsistencyMode>,
        diagnosis: Seq<char>,
    ) -> bool {
        error matches ConsistencyError::NotStronglyConsistent {
            keyspace,
            reported_mode,
            ddl,
            diagnosis: given,
        } && keyspace@ == self.schema.keyspace@ && reported_mode@ == mode_name(mode) && given@
            == diagnosis && call_ensures(
            M::construct_keyspace_creation_query,
            (&self.schema,),
            ddl,
        )
    }

    fn missing(&self, mode: &Option<ConsistencyMode>, diagnosis: String) -> (error:
        ConsistencyError)
        ensures
            self.is_missing(error, *mode, diagnosis@),
    {
        ConsistencyError::NotStronglyConsistent {
            keyspace: self.schema.keyspace.clone(),
            reported_mode: mode_text(mode),
            ddl: M::construct_keyspace_creation_query(&self.schema),
            diagnosis,
        }
    }

    /// The error of a run that was not accepted for want of strong consistency, once
    /// `node` was asked for its protocol features.
    pub fn reject_after_probe(
        &self,
        mode: &Option<ConsistencyMode>,
        node: &str,
        outcome: &Result<bool, String>,
    ) -> (error: ConsistencyError)
        ensures
            self.is_missing(error, *mode, probe_text(node@, *outcome)),
    {
        self.missing(mode, explain_probe(node, outcome))
    }

    /// Whether `check` is the outcome for a keyspace that is not strongly consistent.
    pub open spec fn is_check_of_weak(
        &self,
        mode: Option<ConsistencyMode>,
        check: ModeCheck,
    ) -> bool {
        &&& views(check.lines@) == seq![mode_line(self.schema.keyspace@, mode)]
        &&& match check.decision {
            ModeDecision::Accepted => !self.schema.strong_consistency,
            ModeDecision::Rejected(error) => {
                &&& self.schema.strong_consistency
                &&& if self.node.nodes@.len() == 0 {
                    self.is_missing(error, mode, ""@)
                } else {
                    self.uses_tls() && self.is_missing(
                        error,
                        mode,
                        tls_text(self.node.nodes@[0]@),
                    )
                }
            },
            ModeDecision::Probe(node) => {
                &&& self.schema.strong_consistency
                &&& self.node.nodes@.len() > 0
                &&& !self.uses_tls()
                &&& node@ == self.node.nodes@[0]@
            },
        }
    }

    /// Whether `check` is the outcome for a keyspace that is strongly consistent.
    pub open spec fn is_check_of_strong(
        &self,
        mode: Option<ConsistencyMode>,
        nodes: Seq<Option<String>>,
        check: ModeCheck,
    ) -> bool {
        let keyspace = self.schema.keyspace@;
        let head = seq![mode_line(keyspace, mode), routing_line(keyspace)];
        match check.decision {
            ModeDecision::Accepted => exists|level: Option<Seq<char>>, datacenter: Option<Seq<char>>|
                #![trigger warning_lines(level), warning_lines(datacenter)]
                self.is_level_outcome(Ok(level)) && warns_of_datacenters(
                    keyspace,
                    self.node.datacenter,
                    nodes,
                    datacenter,
                ) && views(check.lines@) == head + warning_lines(level) + warning_lines(datacenter),
            ModeDecision::Rejected(error) => self.is_level_outcome(Err(error)) && views(
                check.lines@,
            ) == head,
            ModeDecision::Probe(_) => false,
        }
    }

    /// Whether `check` is the outcome for a keyspace with this mode.
    pub open spec fn is_mode_check(
        &self,
        mode: Option<ConsistencyMode>,
        nodes: Seq<Option<String>>,
        check: ModeCheck,
    ) -> bool {
        if mode == Some(ConsistencyMode::Global) {
            self.is_check_of_strong(mode, nodes, check)
        } else {
            self.is_check_of_weak(mode, check)
        }
    }

    /// Reports the keyspace's consistency mode, so the mode a run actually measured is
    /// recorded alongside its numbers, and refuses to start a run that would not
    /// measure what it claims to.
    ///
    /// `mode` is the mode in the driver's metadata, `None` where the keyspace does not
    /// exist; `nodes` holds the datacenter of each node, `None` for a node without one.
    /// Where `consistency=global` was requested, any mode but `Global` is a failure;
    /// where it was not, the mode is only reported. A keyspace with the mode `Global`
    /// is strict about `cl=`, whether or not it was requested.
    pub fn verify_consistency_mode(
        &self,
        mode: &Option<ConsistencyMode>,
        nodes: &Vec<Option<String>>,
    ) -> (check: ModeCheck)
        ensures
            self.is_mode_check(*mode, nodes@, check),
    {
        let mut lines: Vec<String> = Vec::new();
        let mut line = KEYSPACE.to_owned();
        line.append(self.schema.keyspace.as_str());
        line.append(CONSISTENCY_MODE);
        line.append(mode_text(mode).as_str());
        lines.push(line);
        assert(views(lines@) =~= seq![mode_line(self.schema.keyspace@, *mode)]);
        // Only this mode means strong consistency; whatever else comes does not.
        if !matches!(mode, Some(ConsistencyMode::Global)) {
            if !self.schema.strong_consistency {
                return ModeCheck { lines, decision: ModeDecision::Accepted };
            }
            let decision = match self.diagnose_missing_strong_consistency() {
                Diagnosis::Known(sentence) => ModeDecision::Rejected(self.missing(mode, sentence)),
                Diagnosis::Probe(node) => ModeDecision::Probe(node),
            };
            return ModeCheck { lines, decision };
        }
        let mut line = LEADER_ROUTING.to_owned();
        line.append(self.schema.keyspace.as_str());
        line.append(LEADER_ROUTING_END);
        lines.push(line);
        assert(views(lines@) =~= seq![
            mode_line(self.schema.keyspace@, *mode),
            routing_line(self.schema.keyspace@),
        ]);
        // The level first: when it is wrong the run cannot start at all, and advice on
        // routing is just noise.
        match self.verify_consistency_level() {
            Err(error) => ModeCheck { lines, decision: ModeDecision::Rejected(error) },
            Ok(warning) => {
                push_warning(&mut lines, warning);
                let datacenter = self.warn_on_datacenter_preference(nodes);
                push_warning(&mut lines, datacenter);
                ModeCheck { lines, decision: ModeDecision::Accepted }
            },
        }
    }
}

/// Where strong consistency was requested, a run on a keyspace without it does not
/// start.
pub proof fn law_requested_mode_is_required<M: OptionModules>(
    settings: CassandraStressSettings<M>,
    mode: Option<ConsistencyMode>,
    nodes: Seq<Option<String>>,
    check: ModeCheck,
)
    requires
        settings.is_mode_check(mode, nodes, check),
        settings.schema.strong_consistency,
        mode != Some(ConsistencyMode::Global),
    ensures
        check.decision !is Accepted,
{
}

/// Where strong consistency was not requested, a run on a keyspace without it starts,
/// and the mode is all that is reported.
pub proof fn law_unrequested_mode_is_only_reported<M: OptionModules>(
    settings: CassandraStressSettings<M>,
    mode: Option<ConsistencyMode>,
    nodes: Seq<Option<String>>,
    check: ModeCheck,
)
    requires
        settings.is_mode_check(mode, nodes, check),
        !settings.schema.strong_consistency,
        mode != Some(ConsistencyMode::Global),
    ensures
        check.decision is Accepted,
        views(check.lines@) == seq![mode_line(settings.schema.keyspace@, mode)],
{
}

/// What a strongly consistent keyspace asks for does not depend on whether strong
/// consistency was requested.
pub proof fn law_strong_keyspace_ignores_the_request<M: OptionModules>(
    settings: CassandraStressSettings<M>,
    other: CassandraStressSettings<M>,
    nodes: Seq<Option<String>>,
    check: ModeCheck,
)
    requires
        settings.is_mode_check(Some(ConsistencyMode::Global), nodes, check),
        other.command == settings.command,
        other.command_params == settings.command_params,
        other.node == settings.node,
        other.schema.keyspace == settings.schema.keyspace,
    ensures
        other.is_mode_check(Some(ConsistencyMode::Global), nodes, check),
{
    if check.decision is Accepted {
        let (level, datacenter) = choose|
            level: Option<Seq<char>>,
            datacenter: Option<Seq<char>>,
        |
            #![trigger warning_lines(level), warning_lines(datacenter)]
            settings.is_level_outcome(Ok(level)) && warns_of_datacenters(
                settings.schema.keyspace@,
                settings.node.datacenter,
                nodes,
                datacenter,
            ) && views(check.lines@) == seq![
                mode_line(settings.schema.keyspace@, Some(ConsistencyMode::Global)),
                routing_line(settings.schema.keyspace@),
            ] + warning_lines(level) + warning_lines(datacenter);
        assert(other.is_level_outcome(Ok(level)));
    }
}

/// Preferring a datacenter costs nothing, and is not warned of, where the cluster has
/// no other.
pub proof fn law_one_datacenter_is_silent(
    keyspace: Seq<char>,
    preferred: Option<String>,
    nodes: Seq<Option<String>>,
    name: Seq<char>,
    warning: Option<Seq<char>>,
)
    requires
        warns_of_datacenters(keyspace, preferred, nodes, warning),
        forall|i: int|
            0 <= i < nodes.len() && (#[trigger] nodes[i]) is Some ==> nodes[i]->0@ == name,
    ensures
        warning is None,
{
    if preferred is Some {
        let names = choose|names: Seq<Seq<char>>|
            #![trigger lists_datacenters(nodes, names)]
            lists_datacenters(nodes, names) && warning == if names.len() < 2 {
                None
            } else {
                Some(datacenter_warning(keyspace, preferred->0@, names))
            };
        if names.len() >= 2 {
            assert(names.contains(names[0]));
            assert(names.contains(names[1]));
            assert(is_datacenter_of(nodes, names[0]));
            assert(is_datacenter_of(nodes, names[1]));
            lemma_irreflexive(name);
            assert(precedes(names[0], names[1]));
        }
    }
}

} // verus!
