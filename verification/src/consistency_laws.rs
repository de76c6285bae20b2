//! What holds of every check of a run's consistency.

use vstd::prelude::*;

use crate::consistency::{
    datacenter_warning, level_name, mode_line, mode_name, optional_text, probe_text,
    profile_warning, read_warning, routing_line, tls_text, warning_lines, warns_of_datacenters,
    ConsistencyError, ConsistencyMode, ModeCheck, ModeDecision,
};
use crate::datacenters::{is_datacenter_of, lemma_irreflexive, lists_datacenters, precedes};
use crate::settings::{CassandraStressSettings, Command, Consistency, OptionModules};
use crate::text::{decimal, joined, views};

verus! {

/// On a strongly consistent keyspace a run starts exactly at the levels that take its
/// operations. A run of a command that writes starts at `QUORUM` and `LOCAL_QUORUM`; any
/// other run starts at `ONE` and `LOCAL_ONE` too. At every other level it is rejected:
/// as writing where reads would be taken, and as not accepted where nothing is.
pub proof fn law_run_starts_where_its_operations_are_taken<M: OptionModules>(
    settings: CassandraStressSettings<M>,
    nodes: Seq<Option<String>>,
    check: ModeCheck,
)
    requires
        settings.is_mode_check(Some(ConsistencyMode::Global), nodes, check),
    ensures
        ({
            let level = settings.command_params.common.consistency_level;
            let quorum = level == Consistency::Quorum || level == Consistency::LocalQuorum;
            let one = level == Consistency::One || level == Consistency::LocalOne;
            let writes = settings.command == Command::Write || settings.command
                == Command::CounterWrite || settings.command == Command::Mixed;
            &&& writes ==> (check.decision is Accepted <==> quorum)
            &&& !writes ==> (check.decision is Accepted <==> quorum || one)
            &&& check.decision is Accepted || check.decision is Rejected
            &&& !quorum && !one ==> (check.decision matches ModeDecision::Rejected(error)
                && error matches ConsistencyError::LevelNotAccepted { keyspace, level: refused }
                && keyspace@ == settings.schema.keyspace@ && refused == level)
            &&& one && writes ==> (check.decision matches ModeDecision::Rejected(error)
                && error matches ConsistencyError::LevelCannotWrite { keyspace, level: refused }
                && keyspace@ == settings.schema.keyspace@ && refused == level)
        }),
{
}

/// What is reported of a run on a strongly consistent keyspace: the mode, that requests
/// are routed to leaders, and, if the run starts, a warning exactly at `ONE` and
/// `LOCAL_ONE` and a warning exactly if a datacenter is preferred in a cluster of two or
/// more, each between empty lines.
pub proof fn law_report_on_a_strong_keyspace<M: OptionModules>(
    settings: CassandraStressSettings<M>,
    nodes: Seq<Option<String>>,
    check: ModeCheck,
) -> (datacenter: Option<Seq<char>>)
    requires
        settings.is_mode_check(Some(ConsistencyMode::Global), nodes, check),
    ensures
        ({
            let keyspace = settings.schema.keyspace@;
            let level = settings.command_params.common.consistency_level;
            let one = level == Consistency::One || level == Consistency::LocalOne;
            let lines = views(check.lines@);
            let warned: int = if one {
                3
            } else {
                0
            };
            &&& lines.len() >= 2
            &&& lines[0] == mode_line(keyspace, Some(ConsistencyMode::Global))
            &&& lines[1] == routing_line(keyspace)
            &&& check.decision !is Accepted ==> lines.len() == 2
            &&& check.decision is Accepted ==> {
                &&& warns_of_datacenters(keyspace, settings.node.datacenter, nodes, datacenter)
                &&& lines.len() == 2 + warned + if datacenter is Some {
                    3int
                } else {
                    0int
                }
                &&& one ==> {
                    &&& lines[2] == Seq::<char>::empty()
                    &&& lines[3] == if settings.command == Command::User {
                        profile_warning(keyspace, level)
                    } else {
                        read_warning(keyspace, level)
                    }
                    &&& lines[4] == Seq::<char>::empty()
                }
                &&& datacenter matches Some(text) ==> {
                    &&& lines[2 + warned] == Seq::<char>::empty()
                    &&& lines[3 + warned] == text
                    &&& lines[4 + warned] == Seq::<char>::empty()
                }
            }
        }),
{
    reveal_strlit("");
    assert(""@ =~= Seq::<char>::empty());
    if check.decision is Accepted {
        let (level, datacenter) = choose|
            level: Option<Seq<char>>,
            datacenter: Option<Seq<char>>,
        |
            #![trigger warning_lines(level), warning_lines(datacenter)]
            settings.is_level_outcome(Ok(level)) && warns_of_datacenters(
                settings.schema.keyspace@,
                settings.node.datacenter,
                nodes,
                datacenter,
            ) && views(check.lines@) == seq![
                mode_line(settings.schema.keyspace@, Some(ConsistencyMode::Global)),
                routing_line(settings.schema.keyspace@),
            ] + warning_lines(level) + warning_lines(datacenter);
        datacenter
    } else {
        None
    }
}

/// On any other keyspace the mode is all that is reported. The run starts exactly if
/// strong consistency was not requested. Else the first node is asked for its features,
/// unless there is none or the connections use TLS; then the run is rejected at once,
/// with the keyspace, its mode and the statement that creates it.
pub proof fn law_run_on_a_weak_keyspace<M: OptionModules>(
    settings: CassandraStressSettings<M>,
    mode: Option<ConsistencyMode>,
    nodes: Seq<Option<String>>,
    check: ModeCheck,
)
    requires
        settings.is_mode_check(mode, nodes, check),
        mode != Some(ConsistencyMode::Global),
    ensures
        ({
            let requested = settings.schema.strong_consistency;
            let known = settings.node.nodes@;
            let tls = settings.transport.truststore is Some || settings.transport.keystore is Some;
            &&& views(check.lines@) == seq![mode_line(settings.schema.keyspace@, mode)]
            &&& check.decision is Accepted <==> !requested
            &&& check.decision is Probe <==> requested && known.len() > 0 && !tls
            &&& check.decision matches ModeDecision::Probe(node) ==> node@ == known[0]@
            &&& check.decision matches ModeDecision::Rejected(error) ==> {
                &&& error matches ConsistencyError::NotStronglyConsistent {
                    keyspace,
                    reported_mode,
                    ddl,
                    diagnosis,
                }
                &&& keyspace@ == settings.schema.keyspace@
                &&& reported_mode@ == mode_name(mode)
                &&& diagnosis@ == if known.len() == 0 {
                    Seq::empty()
                } else {
                    tls_text(known[0]@)
                }
                &&& call_ensures(
                    M::construct_keyspace_creation_query,
                    (&settings.schema,),
                    ddl,
                )
            }
        }),
{
    reveal_strlit("");
    assert(""@ =~= Seq::<char>::empty());
}

/// A run that is rejected after a node was asked names the keyspace, its mode, the
/// statement that creates it, and what asking the node gave.
pub proof fn law_rejection_after_a_probe<M: OptionModules>(
    settings: CassandraStressSettings<M>,
    mode: Option<ConsistencyMode>,
    diagnosis: Seq<char>,
    error: ConsistencyError,
)
    requires
        settings.is_missing(error, mode, diagnosis),
    ensures
        error matches ConsistencyError::NotStronglyConsistent {
            keyspace,
            reported_mode,
            ddl,
            diagnosis: given,
        } && keyspace@ == settings.schema.keyspace@ && reported_mode@ == mode_name(mode) && given@
            == diagnosis && call_ensures(
            M::construct_keyspace_creation_query,
            (&settings.schema,),
            ddl,
        ),
{
}

/// The outcome of checking the level: none at `QUORUM` and `LOCAL_QUORUM`; at `ONE` and
/// `LOCAL_ONE` an error if the command writes, and a warning if not; at every other level
/// an error.
pub proof fn law_level_outcome<M: OptionModules>(
    settings: CassandraStressSettings<M>,
    outcome: Result<Option<Seq<char>>, ConsistencyError>,
)
    requires
        settings.is_level_outcome(outcome),
    ensures
        ({
            let name = settings.schema.keyspace@;
            let level = settings.command_params.common.consistency_level;
            let quorum = level == Consistency::Quorum || level == Consistency::LocalQuorum;
            let one = level == Consistency::One || level == Consistency::LocalOne;
            let writes = settings.command == Command::Write || settings.command
                == Command::CounterWrite || settings.command == Command::Mixed;
            &&& quorum ==> (outcome matches Ok(warning) && warning is None)
            &&& one && !writes ==> (outcome matches Ok(warning) && warning == Some(
                if settings.command == Command::User {
                    profile_warning(name, level)
                } else {
                    read_warning(name, level)
                },
            ))
            &&& one && writes ==> (outcome matches Err(error)
                && error matches ConsistencyError::LevelCannotWrite { keyspace, level: refused }
                && keyspace@ == name && refused == level)
            &&& !one && !quorum ==> (outcome matches Err(error)
                && error matches ConsistencyError::LevelNotAccepted { keyspace, level: refused }
                && keyspace@ == name && refused == level)
        }),
{
}

/// There is a warning about datacenters exactly if one is preferred and two nodes are in
/// different ones. It lists the datacenters of the nodes, and no others, in the order of
/// their characters, each once.
pub proof fn law_two_datacenters_are_warned_of(
    keyspace: Seq<char>,
    preferred: Option<String>,
    nodes: Seq<Option<String>>,
    warning: Option<Seq<char>>,
) -> (names: Seq<Seq<char>>)
    requires
        warns_of_datacenters(keyspace, preferred, nodes, warning),
    ensures
        warning is Some <==> preferred is Some && exists|i: int, j: int|
            0 <= i < nodes.len() && 0 <= j < nodes.len() && (#[trigger] nodes[i]) is Some && (
            #[trigger] nodes[j]) is Some && nodes[i]->0@ != nodes[j]->0@,
        warning matches Some(text) ==> {
            &&& text == datacenter_warning(keyspace, preferred->0@, names)
            &&& forall|i: int|
                0 <= i < nodes.len() && (#[trigger] nodes[i]) is Some ==> names.contains(
                    nodes[i]->0@,
                )
            &&& forall|name: Seq<char>| #[trigger]
                names.contains(name) ==> exists|i: int|
                    0 <= i < nodes.len() && (#[trigger] nodes[i]) is Some && nodes[i]->0@ == name
            &&& forall|k: int, l: int|
                #![trigger names[k], names[l]]
                0 <= k < l < names.len() ==> names[k] != names[l] && precedes(names[k], names[l])
        },
{
    let names = choose|names: Seq<Seq<char>>|
        #![trigger lists_datacenters(nodes, names)]
        lists_datacenters(nodes, names) && warning == if names.len() < 2 {
            None
        } else {
            Some(datacenter_warning(keyspace, preferred->0@, names))
        };
    if preferred is Some {
        law_datacenters_are_listed(nodes, names);
        if names.len() >= 2 {
            assert(names[0] != names[1]);
            assert(names.contains(names[0]) && names.contains(names[1]));
            let i = choose|i: int|
                0 <= i < nodes.len() && (#[trigger] nodes[i]) is Some && nodes[i]->0@ == names[0];
            let j = choose|j: int|
                0 <= j < nodes.len() && (#[trigger] nodes[j]) is Some && nodes[j]->0@ == names[1];
            assert(nodes[i]->0@ != nodes[j]->0@);
        }
        if exists|i: int, j: int|
            0 <= i < nodes.len() && 0 <= j < nodes.len() && (#[trigger] nodes[i]) is Some && (
            #[trigger] nodes[j]) is Some && nodes[i]->0@ != nodes[j]->0@ {
            let (i, j) = choose|i: int, j: int|
                0 <= i < nodes.len() && 0 <= j < nodes.len() && (#[trigger] nodes[i]) is Some && (
                #[trigger] nodes[j]) is Some && nodes[i]->0@ != nodes[j]->0@;
            let k = choose|k: int| 0 <= k < names.len() && names[k] == nodes[i]->0@;
            let l = choose|l: int| 0 <= l < names.len() && names[l] == nodes[j]->0@;
            assert(k != l);
        }
    }
    names
}

/// The list of datacenters holds the datacenters of the nodes, and no others, in order,
/// each once.
pub proof fn law_datacenters_are_listed(nodes: Seq<Option<String>>, names: Seq<Seq<char>>)
    requires
        lists_datacenters(nodes, names),
    ensures
        forall|i: int|
            0 <= i < nodes.len() && (#[trigger] nodes[i]) is Some ==> names.contains(nodes[i]->0@),
        forall|name: Seq<char>| #[trigger]
            names.contains(name) ==> exists|i: int|
                0 <= i < nodes.len() && (#[trigger] nodes[i]) is Some && nodes[i]->0@ == name,
        forall|k: int, l: int|
            #![trigger names[k], names[l]]
            0 <= k < l < names.len() ==> names[k] != names[l] && precedes(names[k], names[l]),
{
    assert forall|i: int|
        0 <= i < nodes.len() && (#[trigger] nodes[i]) is Some implies names.contains(
        nodes[i]->0@,
    ) by {
        assert(is_datacenter_of(nodes, nodes[i]->0@));
    }
    assert forall|name: Seq<char>| #[trigger] names.contains(name) implies exists|i: int|
        0 <= i < nodes.len() && (#[trigger] nodes[i]) is Some && nodes[i]->0@ == name by {
        assert(is_datacenter_of(nodes, name));
    }
    assert forall|k: int, l: int|
        #![trigger names[k], names[l]]
        0 <= k < l < names.len() implies names[k] != names[l] && precedes(
        names[k],
        names[l],
    ) by {
        lemma_irreflexive(names[k]);
    }
}

/// The text of an optional text is that text, and none only where there is none.
pub proof fn law_optional_text(text: Option<String>)
    ensures
        optional_text(text) is Some <==> text is Some,
        text matches Some(given) ==> optional_text(text) == Some(given@),
{
}

/// One text comes before another exactly if it is a proper beginning of it, or has the
/// smaller character where the two first differ.
pub proof fn law_order_of_texts(a: Seq<char>, b: Seq<char>)
    ensures
        precedes(a, b) <==> exists|k: int|
            #![trigger a.take(k)]
            0 <= k <= a.len() && k < b.len() && a.take(k) == b.take(k) && (k == a.len() || a[k]
                < b[k]),
    decreases a.len(),
{
    if a.len() > 0 && b.len() > 0 && a[0] == b[0] {
        let c = a.drop_first();
        let d = b.drop_first();
        law_order_of_texts(c, d);
        if precedes(a, b) {
            let k = choose|k: int|
                #![trigger c.take(k)]
                0 <= k <= c.len() && k < d.len() && c.take(k) == d.take(k) && (k == c.len() || c[k]
                    < d[k]);
            assert(a.take(k + 1) =~= seq![a[0]] + c.take(k));
            assert(b.take(k + 1) =~= seq![b[0]] + d.take(k));
        }
        if exists|k: int|
            #![trigger a.take(k)]
            0 <= k <= a.len() && k < b.len() && a.take(k) == b.take(k) && (k == a.len() || a[k]
                < b[k]) {
            let k = choose|k: int|
                #![trigger a.take(k)]
                0 <= k <= a.len() && k < b.len() && a.take(k) == b.take(k) && (k == a.len() || a[k]
                    < b[k]);
            assert(k > 0);
            assert(c.take(k - 1) =~= a.take(k).drop_first());
            assert(d.take(k - 1) =~= b.take(k).drop_first());
        }
    } else {
        if precedes(a, b) {
            assert(a.take(0) =~= b.take(0));
        }
        if exists|k: int|
            #![trigger a.take(k)]
            0 <= k <= a.len() && k < b.len() && a.take(k) == b.take(k) && (k == a.len() || a[k]
                < b[k]) {
            let k = choose|k: int|
                #![trigger a.take(k)]
                0 <= k <= a.len() && k < b.len() && a.take(k) == b.take(k) && (k == a.len() || a[k]
                    < b[k]);
            if k > 0 {
                assert(a.take(k)[0] == a[0] && b.take(k)[0] == b[0]);
            }
        }
    }
}

/// The warnings about levels are each the same text for all keyspaces and levels, but for
/// the name of the keyspace and the name of the level, which stand in it as they are.
pub proof fn law_level_warnings_name_keyspace_and_level() -> (pieces: Seq<Seq<char>>)
    ensures
        pieces.len() == 6,
        forall|keyspace: Seq<char>, level: Consistency| #[trigger]
            read_warning(keyspace, level) == pieces[0] + keyspace + pieces[1] + level_name(level)
                + pieces[2],
        forall|keyspace: Seq<char>, level: Consistency| #[trigger]
            profile_warning(keyspace, level) == pieces[3] + keyspace + pieces[4] + level_name(level)
                + pieces[5],
{
    seq![
        crate::consistency::WARNING_KEYSPACE@,
        crate::consistency::STRONG_BUT_CL@,
        crate::consistency::READS_NOT_ROUTED@,
        crate::consistency::WARNING_KEYSPACE@,
        crate::consistency::STRONG_AND_CL@,
        crate::consistency::PROFILE_NOT_ROUTED@,
    ]
}

/// The lines on the mode are each the same text for all keyspaces and modes, but for the
/// name of the keyspace and the mode. A mode that is neither `Eventual` nor `Global` is
/// reported by its name.
pub proof fn law_mode_lines_name_keyspace_and_mode() -> (pieces: Seq<Seq<char>>)
    ensures
        pieces.len() == 4,
        forall|keyspace: Seq<char>, mode: Option<ConsistencyMode>| #[trigger]
            mode_line(keyspace, mode) == pieces[0] + keyspace + pieces[1] + mode_name(mode),
        forall|keyspace: Seq<char>| #[trigger]
            routing_line(keyspace) == pieces[2] + keyspace + pieces[3],
        forall|name: String| #[trigger]
            mode_name(Some(ConsistencyMode::Other(name))) == name@,
{
    seq![
        crate::consistency::KEYSPACE@,
        crate::consistency::CONSISTENCY_MODE@,
        crate::consistency::LEADER_ROUTING@,
        crate::consistency::LEADER_ROUTING_END@,
    ]
}

/// The errors are each the same text for all runs, but for the names in it, which stand
/// there as they are.
pub proof fn law_errors_name_what_they_hold() -> (pieces: Seq<Seq<char>>)
    ensures
        pieces.len() == 10,
        forall|keyspace: String, reported_mode: String, ddl: String, diagnosis: String|
            #![trigger (ConsistencyError::NotStronglyConsistent {
                keyspace,
                reported_mode,
                ddl,
                diagnosis,
            }).text()]
            (ConsistencyError::NotStronglyConsistent {
                keyspace,
                reported_mode,
                ddl,
                diagnosis,
            }).text() == pieces[0] + keyspace@ + pieces[1] + reported_mode@ + pieces[2] + keyspace@
                + pieces[3] + ddl@ + diagnosis@,
        forall|keyspace: String, level: Consistency|
            #![trigger (ConsistencyError::LevelNotAccepted { keyspace, level }).text()]
            (ConsistencyError::LevelNotAccepted { keyspace, level }).text() == pieces[4] + keyspace@
                + pieces[5] + level_name(level) + pieces[6],
        forall|keyspace: String, level: Consistency|
            #![trigger (ConsistencyError::LevelCannotWrite { keyspace, level }).text()]
            (ConsistencyError::LevelCannotWrite { keyspace, level }).text() == pieces[7] + keyspace@
                + pieces[8] + level_name(level) + pieces[9],
{
    seq![
        crate::consistency::REQUESTED_GLOBAL@,
        crate::consistency::AS_STRONG@,
        crate::consistency::CAUSES@,
        crate::consistency::MORE_CAUSES@,
        crate::consistency::KEYSPACE@,
        crate::consistency::STRONG_BUT_CL@,
        crate::consistency::NOT_ACCEPTED@,
        crate::consistency::KEYSPACE@,
        crate::consistency::STRONG_BUT_CL@,
        crate::consistency::CANNOT_WRITE@,
    ]
}

/// The sentences on a node are each the same text for all nodes, but for the name of the
/// node and the reason why it could not be asked.
pub proof fn law_sentences_name_the_node() -> (pieces: Seq<Seq<char>>)
    ensures
        pieces.len() == 5,
        forall|node: Seq<char>| #[trigger] tls_text(node) == pieces[0] + node + pieces[1],
        forall|node: Seq<char>| #[trigger]
            probe_text(node, Ok(true)) == pieces[0] + node + pieces[2],
        forall|node: Seq<char>| #[trigger]
            probe_text(node, Ok(false)) == pieces[0] + node + pieces[3],
        forall|node: Seq<char>, error: String| #[trigger]
            probe_text(node, Err(error)) == pieces[0] + node + pieces[4] + error@,
{
    seq![
        crate::consistency::NODE@,
        crate::consistency::NOT_ASKED@,
        crate::consistency::ADVERTISES@,
        crate::consistency::DOES_NOT_ADVERTISE@,
        crate::consistency::COULD_NOT_ASK@,
    ]
}

/// The warning about datacenters is the same text for all runs, but for the name of the
/// keyspace, the preferred datacenter, and the number and the names of all datacenters,
/// which are listed with `, ` between them.
pub proof fn law_datacenter_warning_names_them() -> (pieces: Seq<Seq<char>>)
    ensures
        pieces.len() == 7,
        forall|keyspace: Seq<char>, preferred: Seq<char>, names: Seq<Seq<char>>| #[trigger]
            datacenter_warning(keyspace, preferred, names) == pieces[0] + keyspace + pieces[1]
                + preferred + pieces[2] + decimal(names.len()) + pieces[3] + joined(names, ", "@)
                + pieces[4] + preferred + pieces[5] + preferred + pieces[6],
{
    seq![
        crate::consistency::WARNING_KEYSPACE@,
        crate::consistency::PREFERS@,
        crate::consistency::SPANS@,
        crate::consistency::DATACENTERS@,
        crate::consistency::ANY_LEADER@,
        crate::consistency::FORWARDED@,
        crate::consistency::MIXTURE@,
    ]
}

} // verus!
