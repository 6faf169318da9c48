//! The cluster of proxies: membership, elections, consensus and partitions.
use vstd::prelude::*;

use crate::clock::{span_in, whole_units, NANOS_PER_MILLI, NANOS_PER_SECOND};
use crate::config::{ClusterConfig, ConsensusAlgorithm};
use crate::errors::{AtlasError, Result};
use crate::ids::{is_uuid_text, new_uuid_text};
use crate::json::opt_text;
use crate::scalar::Scalar;
use crate::search::lemma_filter_keeps_the_wanted;
use crate::table::{lemma_push_contains, referents, texts, Table};
use crate::text::{list_contains, str_eq};
use crate::types::{ClusterNode, NodeRole, NodeStatus, RegionId};

verus! {

/// The identifiers in a list, as a set.
pub open spec fn id_set(list: Seq<String>) -> Set<Seq<char>> {
    texts(list).to_set()
}

/// Puts an identifier into a list that holds each one once.
fn add_id(list: &mut Vec<String>, id: &str)
    requires
        texts(old(list)@).no_duplicates(),
    ensures
        texts(final(list)@).no_duplicates(),
        id_set(final(list)@) == id_set(old(list)@).insert(id@),
        old(list)@.len() <= final(list)@.len(),
{
    if !has_id(list, id) {
        let ghost before = texts(list@);
        list.push(id.to_owned());
        proof {
            assert(texts(list@) =~= before.push(id@));
            lemma_push_contains(before, id@);
            assert(id_set(list@) =~= id_set(old(list)@).insert(id@));
        }
    } else {
        assert(id_set(list@) =~= id_set(old(list)@).insert(id@));
    }
}

/// Whether a list holds an identifier.
fn has_id(list: &Vec<String>, id: &str) -> (result: bool)
    ensures
        result == id_set(list@).contains(id@),
{
    let found = list_contains(list, id);
    proof {
        if found {
            let i = choose|i: int| 0 <= i < list@.len() && #[trigger] list@[i]@ == id@;
            assert(texts(list@)[i] == id@);
        }
        if texts(list@).contains(id@) {
            let i = texts(list@).index_of(id@);
            assert(list@[i]@ == id@);
        }
    }
    found
}

/// A value that the nodes are to agree on.
#[derive(Debug)]
pub struct ConsensusProposal {
    pub id: String,
    pub proposer: String,
    pub term: u64,
    pub proposal_type: ProposalType,
    pub data: Vec<u8>,
    pub timestamp: i64,
}

/// What a proposal is about.
#[derive(Debug, PartialEq, Eq)]
pub enum ProposalType {
    NodeJoin(String, String),
    NodeLeave(String),
    RegionAssignment(RegionId, String),
    ConfigUpdate(String),
    LeaderElection,
}

/// A message between nodes.
#[derive(Debug)]
pub struct ConsensusMessage {
    pub id: String,
    pub from: String,
    pub to: String,
    pub message_type: MessageType,
    pub term: u64,
    pub data: Vec<u8>,
    pub timestamp: i64,
}

/// What a message between nodes is for.
#[derive(Clone, Copy, Debug, PartialEq, Eq, Structural)]
pub enum MessageType {
    RequestVote,
    RequestVoteResponse,
    AppendEntries,
    AppendEntriesResponse,
    Heartbeat,
    HeartbeatResponse,
    ProposeValue,
    PreparePhase1,
    PreparePhase2,
    AcceptPhase1,
    AcceptPhase2,
}

/// What became of a proposal.
#[derive(Debug, PartialEq, Eq)]
pub struct ConsensusResult {
    pub accepted: bool,
    pub term: u64,
    pub committed: bool,
    pub error: Option<String>,
}

/// Where an engine stands.
#[derive(Debug, PartialEq, Eq)]
pub struct ConsensusState {
    pub term: u64,
    pub role: NodeRole,
    pub leader: Option<String>,
    pub committed_index: u64,
    pub last_applied: u64,
}

/// Whether `message` goes from `node` to all others at `now`, without data.
pub open spec fn is_broadcast(
    message: ConsensusMessage,
    node: Seq<char>,
    message_type: MessageType,
    term: u64,
    now: i64,
) -> bool {
    &&& is_uuid_text(message.id@)
    &&& message.from@ == node
    &&& message.to@ == "all"@
    &&& message.message_type == message_type
    &&& message.term == term
    &&& message.data@.len() == 0
    &&& message.timestamp == now
}

fn broadcast_message(node: &str, message_type: MessageType, term: u64, now: i64) -> (result:
    ConsensusMessage)
    ensures
        is_broadcast(result, node@, message_type, term, now),
{
    ConsensusMessage {
        id: new_uuid_text(),
        from: node.to_owned(),
        to: "all".to_owned(),
        message_type,
        term,
        data: Vec::new(),
        timestamp: now,
    }
}

/// An entry of the replicated log.
#[derive(Debug)]
pub struct LogEntry {
    pub term: u64,
    pub index: u64,
    pub proposal: ConsensusProposal,
    pub committed: bool,
}

/// What a node remembers between elections.
#[derive(Debug)]
pub struct RaftState {
    pub current_term: u64,
    pub voted_for: Option<String>,
    pub role: NodeRole,
}

/// Agreement by a leader that keeps a log.
#[derive(Debug)]
pub struct RaftConsensus {
    pub state: RaftState,
    pub log: Vec<LogEntry>,
    pub commit_index: u64,
    pub last_applied: u64,
}

impl RaftConsensus {
    /// Whether the node is a follower in no term, with an empty log.
    pub open spec fn is_new(self) -> bool {
        &&& self.state.current_term == 0
        &&& self.state.voted_for is None
        &&& self.state.role is Follower
        &&& self.log@.len() == 0
        &&& self.commit_index == 0
        &&& self.last_applied == 0
    }

    /// A follower with an empty log.
    pub fn new() -> (result: Self)
        ensures
            result.is_new(),
    {
        RaftConsensus {
            state: RaftState { current_term: 0, voted_for: None, role: NodeRole::Follower },
            log: Vec::new(),
            commit_index: 0,
            last_applied: 0,
        }
    }

    /// A leader appends the proposal to its log; any other node refuses it.
    pub fn propose(&mut self, proposal: ConsensusProposal) -> (result: ConsensusResult)
        ensures
            final(self).state == old(self).state,
            final(self).commit_index == old(self).commit_index,
            final(self).last_applied == old(self).last_applied,
            result.term == old(self).state.current_term,
            if old(self).state.role is Leader {
                &&& result.accepted && result.committed && result.error is None
                &&& final(self).log@ == old(self).log@.push(
                    LogEntry {
                        term: old(self).state.current_term,
                        index: old(self).log@.len() as u64,
                        proposal,
                        committed: false,
                    },
                )
            } else {
                &&& !result.accepted && !result.committed
                &&& opt_text(result.error) == Some("Not leader"@)
                &&& final(self).log == old(self).log
            },
    {
        let term: u64 = self.state.current_term;
        if !matches!(self.state.role, NodeRole::Leader) {
            return ConsensusResult {
                accepted: false,
                term,
                committed: false,
                error: Some("Not leader".to_owned()),
            };
        }
        let index: u64 = self.log.len() as u64;
        self.log.push(LogEntry { term, index, proposal, committed: false });
        ConsensusResult { accepted: true, term, committed: true, error: None }
    }

    /// Where the engine stands.
    pub fn get_current_state(&self) -> (result: ConsensusState)
        ensures
            result == (ConsensusState {
                term: self.state.current_term,
                role: self.state.role,
                leader: None,
                committed_index: self.commit_index,
                last_applied: self.last_applied,
            }),
    {
        ConsensusState {
            term: self.state.current_term,
            role: self.state.role,
            leader: None,
            committed_index: self.commit_index,
            last_applied: self.last_applied,
        }
    }
}

/// The phase of an agreement among nodes that may be faulty.
#[derive(Clone, Copy, Debug, PartialEq, Eq, Structural)]
pub enum PbftPhase {
    PrePrepare,
    Prepare,
    Commit,
}

/// What is being agreed on, and who has voted.
#[derive(Debug)]
pub struct PbftState {
    pub phase: PbftPhase,
    pub proposal: Option<ConsensusProposal>,
    pub prepare_votes: Vec<(String, bool)>,
    pub commit_votes: Vec<(String, bool)>,
}

/// Agreement among nodes that may be faulty.
#[derive(Debug)]
pub struct PbftConsensus {
    pub state: PbftState,
    pub message_log: Vec<ConsensusMessage>,
    pub view: u64,
}

impl PbftConsensus {
    /// Whether nothing has been proposed, voted or told yet.
    pub open spec fn is_new(self) -> bool {
        &&& self.state.phase is PrePrepare
        &&& self.state.proposal is None
        &&& self.state.prepare_votes@.len() == 0
        &&& self.state.commit_votes@.len() == 0
        &&& self.message_log@.len() == 0
        &&& self.view == 0
    }

    /// Nothing proposed yet.
    pub fn new() -> (result: Self)
        ensures
            result.is_new(),
    {
        PbftConsensus {
            state: PbftState {
                phase: PbftPhase::PrePrepare,
                proposal: None,
                prepare_votes: Vec::new(),
                commit_votes: Vec::new(),
            },
            message_log: Vec::new(),
            view: 0,
        }
    }

    /// Takes up a proposal in place of the one before. It is accepted, but not yet
    /// committed.
    pub fn propose(&mut self, proposal: ConsensusProposal) -> (result: ConsensusResult)
        ensures
            *final(self) == (PbftConsensus {
                state: PbftState {
                    phase: PbftPhase::PrePrepare,
                    proposal: Some(proposal),
                    ..old(self).state
                },
                ..*old(self)
            }),
            result == (ConsensusResult {
                accepted: true,
                term: old(self).view,
                committed: false,
                error: None,
            }),
    {
        self.state.proposal = Some(proposal);
        self.state.phase = PbftPhase::PrePrepare;
        ConsensusResult { accepted: true, term: self.view, committed: false, error: None }
    }

    /// Keeps a message.
    pub fn handle_message(&mut self, message: ConsensusMessage)
        ensures
            final(self).state == old(self).state,
            final(self).view == old(self).view,
            final(self).message_log@ == old(self).message_log@.push(message),
    {
        self.message_log.push(message);
    }

    /// Where the engine stands.
    pub fn get_current_state(&self) -> (result: ConsensusState)
        ensures
            result == (ConsensusState {
                term: self.view,
                role: NodeRole::Follower,
                leader: None,
                committed_index: 0,
                last_applied: 0,
            }),
    {
        ConsensusState {
            term: self.view,
            role: NodeRole::Follower,
            leader: None,
            committed_index: 0,
            last_applied: 0,
        }
    }
}

/// The engine by which the nodes of a cluster agree.
#[derive(Debug)]
pub enum ConsensusEngine {
    Raft(RaftConsensus),
    Pbft(PbftConsensus),
}

/// What an engine makes of a proposal.
pub open spec fn proposed(
    before: ConsensusEngine,
    after: ConsensusEngine,
    proposal: ConsensusProposal,
    result: ConsensusResult,
) -> bool {
    match (before, after) {
        (ConsensusEngine::Raft(b), ConsensusEngine::Raft(a)) => {
            &&& a.state == b.state
            &&& a.commit_index == b.commit_index
            &&& a.last_applied == b.last_applied
            &&& result.term == b.state.current_term
            &&& if b.state.role is Leader {
                &&& result.accepted && result.committed && result.error is None
                &&& a.log@ == b.log@.push(
                    LogEntry {
                        term: b.state.current_term,
                        index: b.log@.len() as u64,
                        proposal,
                        committed: false,
                    },
                )
            } else {
                &&& !result.accepted && !result.committed
                &&& opt_text(result.error) == Some("Not leader"@)
                &&& a.log == b.log
            }
        },
        (ConsensusEngine::Pbft(b), ConsensusEngine::Pbft(a)) => {
            &&& a == (PbftConsensus {
                state: PbftState {
                    phase: PbftPhase::PrePrepare,
                    proposal: Some(proposal),
                    ..b.state
                },
                ..b
            })
            &&& result == (ConsensusResult {
                accepted: true,
                term: b.view,
                committed: false,
                error: None,
            })
        },
        _ => false,
    }
}

impl ConsensusEngine {
    /// Whether this is a new engine of the given kind.
    pub open spec fn is_new(self, algorithm: ConsensusAlgorithm) -> bool {
        match (algorithm, self) {
            (ConsensusAlgorithm::Raft, ConsensusEngine::Raft(engine)) => engine.is_new(),
            (ConsensusAlgorithm::Pbft, ConsensusEngine::Pbft(engine)) => engine.is_new(),
            _ => false,
        }
    }

    /// The engine that a configuration calls for.
    pub fn create(algorithm: ConsensusAlgorithm) -> (result: Self)
        ensures
            result.is_new(algorithm),
    {
        match algorithm {
            ConsensusAlgorithm::Raft => ConsensusEngine::Raft(RaftConsensus::new()),
            ConsensusAlgorithm::Pbft => ConsensusEngine::Pbft(PbftConsensus::new()),
        }
    }

    /// Puts a proposal to the nodes.
    pub fn propose(&mut self, proposal: ConsensusProposal) -> (result: ConsensusResult)
        ensures
            proposed(*old(self), *final(self), proposal, result),
    {
        match self {
            ConsensusEngine::Raft(engine) => engine.propose(proposal),
            ConsensusEngine::Pbft(engine) => engine.propose(proposal),
        }
    }

    /// Takes in a message. An engine with a leader has no use for it.
    pub fn handle_message(&mut self, message: ConsensusMessage)
        ensures
            match (*old(self), *final(self)) {
                (ConsensusEngine::Raft(b), ConsensusEngine::Raft(a)) => a == b,
                (ConsensusEngine::Pbft(b), ConsensusEngine::Pbft(a)) => {
                    &&& a.state == b.state
                    &&& a.view == b.view
                    &&& a.message_log@ == b.message_log@.push(message)
                },
                _ => false,
            },
    {
        match self {
            ConsensusEngine::Raft(_) => {},
            ConsensusEngine::Pbft(engine) => engine.handle_message(message),
        }
    }

    /// Where the engine stands.
    pub fn get_current_state(&self) -> (result: ConsensusState)
        ensures
            result == (match *self {
                ConsensusEngine::Raft(engine) => ConsensusState {
                    term: engine.state.current_term,
                    role: engine.state.role,
                    leader: None,
                    committed_index: engine.commit_index,
                    last_applied: engine.last_applied,
                },
                ConsensusEngine::Pbft(engine) => ConsensusState {
                    term: engine.view,
                    role: NodeRole::Follower,
                    leader: None,
                    committed_index: 0,
                    last_applied: 0,
                },
            }),
    {
        match self {
            ConsensusEngine::Raft(engine) => engine.get_current_state(),
            ConsensusEngine::Pbft(engine) => engine.get_current_state(),
        }
    }

    /// How the engine agrees.
    pub fn get_algorithm(&self) -> (result: ConsensusAlgorithm)
        ensures
            result == (match *self {
                ConsensusEngine::Raft(_) => ConsensusAlgorithm::Raft,
                ConsensusEngine::Pbft(_) => ConsensusAlgorithm::Pbft,
            }),
    {
        match self {
            ConsensusEngine::Raft(_) => ConsensusAlgorithm::Raft,
            ConsensusEngine::Pbft(_) => ConsensusAlgorithm::Pbft,
        }
    }
}

/// The identifiers of the active nodes.
pub open spec fn active_ids(nodes: Seq<ClusterNode>) -> Set<Seq<char>> {
    Set::new(
        |id: Seq<char>|
            exists|i: int|
                0 <= i < nodes.len() && (#[trigger] nodes[i]).status is Active && nodes[i].id@ == id,
    )
}

/// The identifiers of all nodes.
pub open spec fn all_ids(nodes: Seq<ClusterNode>) -> Set<Seq<char>> {
    Set::new(|id: Seq<char>| exists|i: int| 0 <= i < nodes.len() && (#[trigger] nodes[i]).id@ == id)
}

proof fn lemma_ids_finite(nodes: Seq<ClusterNode>)
    ensures
        all_ids(nodes).finite(),
        active_ids(nodes).finite(),
        active_ids(nodes).subset_of(all_ids(nodes)),
{
    let listed = nodes.map_values(|n: ClusterNode| n.id@);
    assert(all_ids(nodes) =~= listed.to_set()) by {
        assert forall|id: Seq<char>| all_ids(nodes).contains(id) implies listed.to_set().contains(
            id,
        ) by {
            let i = choose|i: int| 0 <= i < nodes.len() && (#[trigger] nodes[i]).id@ == id;
            assert(listed[i] == id);
        }
        assert forall|id: Seq<char>| listed.to_set().contains(id) implies all_ids(nodes).contains(
            id,
        ) by {
            let i = listed.index_of(id);
            assert(nodes[i].id@ == id);
        }
    }
    assert forall|id: Seq<char>| active_ids(nodes).contains(id) implies all_ids(nodes).contains(
        id,
    ) by {
        let i = choose|i: int|
            0 <= i < nodes.len() && (#[trigger] nodes[i]).status is Active && nodes[i].id@ == id;
        assert(nodes[i].id@ == id);
    }
    vstd::set_lib::lemma_set_subset_finite(all_ids(nodes), active_ids(nodes));
}

/// Finds the groups of nodes that can reach each other.
#[derive(Clone, Copy, Debug)]
pub struct PartitionDetector {}

impl PartitionDetector {
    /// A detector.
    pub fn new() -> (result: Self) {
        PartitionDetector {}
    }

    /// The groups of active nodes that can reach each other. Active nodes count as
    /// connected, so they form a single group; where no node is active, all nodes form
    /// one.
    pub fn detect_partitions(&self, nodes: &Vec<ClusterNode>) -> (result: Vec<Vec<String>>)
        ensures
            result@.len() == 1,
            texts(result@[0]@).no_duplicates(),
            id_set(result@[0]@) == (if active_ids(nodes@) == Set::<Seq<char>>::empty() {
                all_ids(nodes@)
            } else {
                active_ids(nodes@)
            }),
    {
        let mut partitions: Vec<Vec<String>> = Vec::new();
        let mut visited: Vec<String> = Vec::new();
        proof {
            assert(id_set(visited@) =~= Set::<Seq<char>>::empty());
        }
        let mut i: usize = 0;
        while i < nodes.len()
            invariant
                i <= nodes@.len(),
                texts(visited@).no_duplicates(),
                if partitions@.len() == 0 {
                    &&& id_set(visited@) == Set::<Seq<char>>::empty()
                    &&& forall|j: int| 0 <= j < i ==> !((#[trigger] nodes@[j]).status is Active)
                } else {
                    &&& partitions@.len() == 1
                    &&& texts(partitions@[0]@).no_duplicates()
                    &&& id_set(partitions@[0]@) == active_ids(nodes@)
                    &&& id_set(visited@) == active_ids(nodes@)
                    &&& active_ids(nodes@) != Set::<Seq<char>>::empty()
                },
            decreases nodes@.len() - i,
        {
            if matches!(nodes[i].status, NodeStatus::Active) && !has_id(
                &visited,
                nodes[i].id.as_str(),
            ) {
                proof {
                    assert(active_ids(nodes@).contains(nodes@[i as int].id@));
                    assert(all_ids(nodes@).contains(nodes@[i as int].id@));
                }
                let mut partition: Vec<String> = Vec::new();
                assert(id_set(partition@) =~= Set::<Seq<char>>::empty());
                self.find_connected_nodes(
                    nodes[i].id.as_str(),
                    nodes,
                    &mut partition,
                    &mut visited,
                );
                proof {
                    let active = active_ids(nodes@);
                    assert(active.insert(nodes@[i as int].id@) =~= active);
                    assert(id_set(visited@) =~= active);
                    assert(id_set(partition@) =~= active);
                    if partition@.len() == 0 {
                        assert(!texts(partition@).contains(nodes@[i as int].id@));
                    }
                }
                if partition.len() > 0 {
                    partitions.push(partition);
                }
            }
            i += 1;
        }
        if partitions.len() == 0 {
            let mut all: Vec<String> = Vec::new();
            proof {
                assert(id_set(all@) =~= all_ids(nodes@.take(0)));
                assert(active_ids(nodes@) =~= Set::<Seq<char>>::empty());
            }
            let mut k: usize = 0;
            while k < nodes.len()
                invariant
                    k <= nodes@.len(),
                    texts(all@).no_duplicates(),
                    id_set(all@) == all_ids(nodes@.take(k as int)),
                decreases nodes@.len() - k,
            {
                add_id(&mut all, nodes[k].id.as_str());
                proof {
                    lemma_all_ids_grow(nodes@, k as int);
                }
                k += 1;
            }
            assert(nodes@.take(k as int) =~= nodes@);
            partitions.push(all);
        }
        partitions
    }

    /// Visits a node and, from it, every active node that has not been visited.
    fn find_connected_nodes(
        &self,
        node_id: &str,
        all_nodes: &Vec<ClusterNode>,
        partition: &mut Vec<String>,
        visited: &mut Vec<String>,
    )
        requires
            all_ids(all_nodes@).contains(node_id@),
            texts(old(partition)@).no_duplicates(),
            texts(old(visited)@).no_duplicates(),
        ensures
            texts(final(partition)@).no_duplicates(),
            texts(final(visited)@).no_duplicates(),
            ({
                let seen = id_set(old(visited)@);
                let active = active_ids(all_nodes@);
                if seen.contains(node_id@) {
                    &&& id_set(final(visited)@) == seen
                    &&& id_set(final(partition)@) == id_set(old(partition)@)
                } else {
                    &&& id_set(final(visited)@) == seen.union(active).insert(node_id@)
                    &&& id_set(final(partition)@) == id_set(old(partition)@).union(
                        active.difference(seen),
                    ).insert(node_id@)
                }
            }),
        decreases all_ids(all_nodes@).difference(id_set(old(visited)@)).len(),
    {
        if has_id(visited, node_id) {
            return;
        }
        let ghost seen = id_set(visited@);
        let ghost taken = id_set(partition@);
        let ghost active = active_ids(all_nodes@);
        let ghost all = all_ids(all_nodes@);
        add_id(visited, node_id);
        add_id(partition, node_id);
        let mut i: usize = 0;
        while i < all_nodes.len()
            invariant
                i <= all_nodes@.len(),
                texts(partition@).no_duplicates(),
                texts(visited@).no_duplicates(),
                seen == id_set(old(visited)@),
                taken == id_set(old(partition)@),
                active == active_ids(all_nodes@),
                all == all_ids(all_nodes@),
                all.contains(node_id@),
                !seen.contains(node_id@),
                id_set(visited@) == seen.insert(node_id@) || id_set(visited@) == seen.union(
                    active,
                ).insert(node_id@),
                id_set(partition@) == taken.union(id_set(visited@).difference(seen)),
                forall|j: int|
                    0 <= j < i && (#[trigger] all_nodes@[j]).status is Active ==> id_set(
                        visited@,
                    ).contains(all_nodes@[j].id@),
            decreases all_nodes@.len() - i,
        {
            if matches!(all_nodes[i].status, NodeStatus::Active) && !has_id(
                visited,
                all_nodes[i].id.as_str(),
            ) {
                let ghost before = id_set(visited@);
                let ghost held = id_set(partition@);
                proof {
                    let id = all_nodes@[i as int].id@;
                    assert(active.contains(id));
                    assert(all.contains(id));
                    lemma_ids_finite(all_nodes@);
                    assert(all.difference(before).subset_of(all.difference(seen).remove(node_id@)));
                    vstd::set_lib::lemma_len_subset(
                        all.difference(before),
                        all.difference(seen).remove(node_id@),
                    );
                    assert(all.difference(seen).contains(node_id@));
                }
                self.find_connected_nodes(
                    all_nodes[i].id.as_str(),
                    all_nodes,
                    partition,
                    visited,
                );
                proof {
                    let id = all_nodes@[i as int].id@;
                    assert(id_set(visited@) =~= seen.union(active).insert(node_id@));
                    assert(id_set(partition@) =~= taken.union(id_set(visited@).difference(seen)));
                }
            }
            i += 1;
        }
        proof {
            assert forall|id: Seq<char>| active.contains(id) implies id_set(visited@).contains(id) by {
                let j = choose|j: int|
                    0 <= j < all_nodes@.len() && (#[trigger] all_nodes@[j]).status is Active
                        && all_nodes@[j].id@ == id;
                assert(id_set(visited@).contains(all_nodes@[j].id@));
            }
            assert(id_set(visited@) =~= seen.union(active).insert(node_id@));
            assert(id_set(partition@) =~= taken.union(active.difference(seen)).insert(node_id@));
        }
    }
}

proof fn lemma_all_ids_grow(nodes: Seq<ClusterNode>, k: int)
    requires
        0 <= k < nodes.len(),
    ensures
        all_ids(nodes.take(k + 1)) == all_ids(nodes.take(k)).insert(nodes[k].id@),
{
    let before = nodes.take(k);
    let after = nodes.take(k + 1);
    assert forall|id: Seq<char>| all_ids(after).contains(id) <==> all_ids(before).insert(
        nodes[k].id@,
    ).contains(id) by {
        if all_ids(after).contains(id) {
            let i = choose|i: int| 0 <= i < after.len() && (#[trigger] after[i]).id@ == id;
            if i < k {
                assert(before[i].id@ == id);
            }
        }
        if all_ids(before).contains(id) {
            let i = choose|i: int| 0 <= i < before.len() && (#[trigger] before[i]).id@ == id;
            assert(after[i].id@ == id);
        }
        if id == nodes[k].id@ {
            assert(after[k].id@ == id);
        }
    }
    assert(all_ids(after) =~= all_ids(before).insert(nodes[k].id@));
}

/// The nodes that have joined.
pub struct MembershipManager {
    pub known_nodes: Table<ClusterNode>,
}

impl MembershipManager {
    /// Every node is filed under its own identifier.
    pub open spec fn wf(&self) -> bool {
        &&& self.known_nodes.wf()
        &&& forall|k: Seq<char>| #[trigger]
            self.known_nodes@.dom().contains(k) ==> self.known_nodes@[k].id@ == k
    }

    /// No nodes have joined yet.
    pub fn new() -> (result: Self)
        ensures
            result.wf(),
            result.known_nodes@ == Map::<Seq<char>, ClusterNode>::empty(),
    {
        MembershipManager { known_nodes: Table::new() }
    }

    /// Takes a node in.
    pub fn join_cluster(&mut self, node: ClusterNode)
        requires
            old(self).wf(),
        ensures
            final(self).wf(),
            final(self).known_nodes@ == old(self).known_nodes@.insert(node.id@, node),
    {
        let key: String = node.id.clone();
        let _ = self.known_nodes.insert(key, node);
    }

    /// Lets a node go.
    pub fn leave_cluster(&mut self, node_id: &str)
        requires
            old(self).wf(),
        ensures
            final(self).wf(),
            final(self).known_nodes@ == old(self).known_nodes@.remove(node_id@),
    {
        let _ = self.known_nodes.remove(node_id);
    }

    /// Notes the status of a node that has joined.
    pub fn update_node_status(&mut self, node_id: &str, status: NodeStatus)
        requires
            old(self).wf(),
        ensures
            final(self).wf(),
            final(self).known_nodes@ == (if old(self).known_nodes@.dom().contains(node_id@) {
                old(self).known_nodes@.insert(
                    node_id@,
                    ClusterNode { status, ..old(self).known_nodes@[node_id@] },
                )
            } else {
                old(self).known_nodes@
            }),
    {
        if let Some(i) = self.known_nodes.find(node_id) {
            let node = self.known_nodes.value_at_mut(i);
            node.status = status;
        }
    }

    /// Copies of the nodes that have joined.
    pub fn get_cluster_members(&self) -> (result: Vec<ClusterNode>)
        requires
            self.wf(),
        ensures
            result@.len() == self.known_nodes.values().len(),
            forall|i: int|
                0 <= i < result@.len() ==> (#[trigger] result@[i]).same_as(
                    self.known_nodes.values()[i],
                ),
    {
        copy_nodes(&self.known_nodes)
    }
}

fn copy_nodes(nodes: &Table<ClusterNode>) -> (result: Vec<ClusterNode>)
    requires
        nodes.wf(),
    ensures
        result@.len() == nodes.values().len(),
        forall|i: int|
            0 <= i < result@.len() ==> (#[trigger] result@[i]).same_as(nodes.values()[i]),
{
    let mut out: Vec<ClusterNode> = Vec::new();
    let mut i: usize = 0;
    while i < nodes.len()
        invariant
            nodes.wf(),
            i <= nodes.values().len(),
            out@.len() == i,
            forall|j: int| 0 <= j < i ==> (#[trigger] out@[j]).same_as(nodes.values()[j]),
        decreases nodes.values().len() - i,
    {
        out.push(nodes.value_at(i).clone());
        i += 1;
    }
    out
}

/// A protocol that spreads membership by rumour. It keeps nothing of its own.
#[derive(Clone, Copy, Debug)]
pub struct GossipProtocol {}

impl GossipProtocol {
    /// The protocol.
    pub fn new() -> (result: Self)
        ensures
            result == (GossipProtocol {  }),
    {
        GossipProtocol {  }
    }

    /// The protocol knows of no members.
    pub fn get_cluster_members(&self) -> (result: Vec<ClusterNode>)
        ensures
            result@.len() == 0,
    {
        Vec::new()
    }
}

/// How a connection to a node stands.
#[derive(Clone, Copy, Debug, PartialEq, Eq, Structural)]
pub enum ConnectionState {
    Connecting,
    Connected,
    Disconnected,
    Failed,
}

/// A connection to a node.
#[derive(Debug, PartialEq, Eq)]
pub struct NetworkConnection {
    pub node_id: String,
    pub address: String,
    pub last_activity: i64,
    pub connection_state: ConnectionState,
}

/// The connections to other nodes. What is sent goes through channels kept elsewhere.
pub struct ClusterNetwork {
    pub local_address: String,
    pub connections: Table<NetworkConnection>,
}

impl ClusterNetwork {
    /// No connections yet.
    pub fn new(local_address: String) -> (result: Self)
        ensures
            result.connections.wf(),
            result.local_address == local_address,
            result.connections@ == Map::<Seq<char>, NetworkConnection>::empty(),
    {
        ClusterNetwork { local_address, connections: Table::new() }
    }

    /// Notes a connection to a node, in place of an earlier one.
    pub fn connect_to_node(&mut self, node_id: String, address: String, now: i64)
        requires
            old(self).connections.wf(),
        ensures
            final(self).connections.wf(),
            final(self).local_address == old(self).local_address,
            final(self).connections@ == old(self).connections@.insert(
                node_id@,
                NetworkConnection {
                    node_id,
                    address,
                    last_activity: now,
                    connection_state: ConnectionState::Connected,
                },
            ),
    {
        let key: String = node_id.clone();
        let connection = NetworkConnection {
            node_id,
            address,
            last_activity: now,
            connection_state: ConnectionState::Connected,
        };
        let _ = self.connections.insert(key, connection);
    }

    /// What comes of sending to a node. A message to a node without a connection is
    /// dropped; `delivered` says whether the channel of a connection took it.
    pub fn send_message(&self, node_id: &str, delivered: bool) -> (result: Result<()>)
        requires
            self.connections.wf(),
        ensures
            match result {
                Ok(_) => delivered || !self.connections@.dom().contains(node_id@),
                Err(error) => {
                    &&& !delivered && self.connections@.dom().contains(node_id@)
                    &&& error matches AtlasError::Cluster(text) && text@ == "Failed to send message"@
                },
            },
    {
        if self.connections.contains_key(node_id) && !delivered {
            Err(AtlasError::Cluster("Failed to send message".to_owned()))
        } else {
            Ok(())
        }
    }
}

/// What the cluster has agreed on, as this node sees it.
pub struct ClusterState {
    pub term: u64,
    pub leader_id: Option<String>,
    pub nodes: Table<ClusterNode>,
    /// The nodes in charge of each region
    pub regions: Table<Vec<String>>,
    pub partition_groups: Vec<Vec<String>>,
    pub last_heartbeat: Table<i64>,
    pub split_brain_detected: bool,
}

/// This node's part in elections. The timeout is in milliseconds.
pub struct LeadershipState {
    pub current_role: NodeRole,
    pub current_term: u64,
    pub voted_for: Option<String>,
    pub votes_received: Vec<String>,
    pub last_heartbeat_sent: i64,
    pub last_heartbeat_received: Table<i64>,
    pub election_timeout: u64,
    pub is_candidate: bool,
}

/// The cluster at a glance.
#[derive(Debug, PartialEq, Eq)]
pub struct ClusterStatus {
    pub node_id: String,
    pub role: NodeRole,
    pub term: u64,
    pub leader_id: Option<String>,
    pub cluster_size: usize,
    pub healthy_nodes: usize,
    pub regions_managed: usize,
    pub split_brain_detected: bool,
    pub partition_groups: usize,
}

/// This node of the cluster.
pub struct ClusterManager {
    pub config: ClusterConfig,
    pub node_id: String,
    pub local_node: ClusterNode,
    pub cluster_nodes: Table<ClusterNode>,
    pub consensus_engine: ConsensusEngine,
    pub leadership_state: LeadershipState,
    pub cluster_state: ClusterState,
    pub network_layer: ClusterNetwork,
    pub membership_manager: MembershipManager,
    pub partition_detector: PartitionDetector,
    pub is_running: bool,
}

/// The number of votes that is more than half of the nodes.
pub open spec fn majority(nodes: nat) -> nat {
    (nodes / 2 + 1) as nat
}

/// Whether `after` is what becomes of a node's part in elections when it gives up
/// leadership: it is a follower without votes.
pub open spec fn stepped_down(before: LeadershipState, after: LeadershipState) -> bool {
    &&& after == (LeadershipState {
        current_role: NodeRole::Follower,
        votes_received: after.votes_received,
        is_candidate: false,
        ..before
    })
    &&& after.votes_received@.len() == 0
}

/// The milliseconds of a timeout as a signed number; those past the range wrap around.
pub open spec fn signed_millis(timeout: u64) -> int {
    if timeout <= i64::MAX {
        timeout as int
    } else {
        timeout - 0x1_0000_0000_0000_0000
    }
}

/// The node after a look at when it was last seen: failed after more than 30 whole
/// seconds, and active again where it was seen less than 10 whole seconds ago.
pub open spec fn node_inspected(node: ClusterNode, now: i64) -> ClusterNode {
    let seconds = whole_units(now - node.last_seen, NANOS_PER_SECOND as int);
    if seconds > 30 {
        ClusterNode { status: NodeStatus::Failed, ..node }
    } else if node.status is Failed && seconds < 10 {
        ClusterNode { status: NodeStatus::Active, ..node }
    } else {
        node
    }
}

/// Whether a look at the node finds that it has newly failed.
pub open spec fn newly_failed(node: ClusterNode, now: i64) -> bool {
    whole_units(now - node.last_seen, NANOS_PER_SECOND as int) > 30 && !(node.status is Failed)
}

/// The identifiers of the nodes that have newly failed, in order.
pub open spec fn failed_ids(nodes: Seq<ClusterNode>, now: i64) -> Seq<Seq<char>>
    decreases nodes.len(),
{
    if nodes.len() == 0 {
        Seq::empty()
    } else {
        let front = failed_ids(nodes.drop_last(), now);
        if newly_failed(nodes.last(), now) {
            front.push(nodes.last().id@)
        } else {
            front
        }
    }
}

/// The table of nodes that results from filing `members` one after the other.
pub open spec fn filed_nodes(members: Seq<ClusterNode>) -> Map<Seq<char>, ClusterNode>
    decreases members.len(),
{
    if members.len() == 0 {
        Map::empty()
    } else {
        filed_nodes(members.drop_last()).insert(members.last().id@, members.last())
    }
}

/// The keys other than `own`, in order.
pub open spec fn other_keys(keys: Seq<Seq<char>>, own: Seq<char>) -> Seq<Seq<char>>
    decreases keys.len(),
{
    if keys.len() == 0 {
        Seq::empty()
    } else {
        let front = other_keys(keys.drop_last(), own);
        if keys.last() != own {
            front.push(keys.last())
        } else {
            front
        }
    }
}

/// Whether `error` is a cluster error with the given text.
pub open spec fn is_cluster_error(error: AtlasError, text: Seq<char>) -> bool {
    error matches AtlasError::Cluster(detail) && detail@ == text
}

/// Whether a proposal to put a node in charge of a region comes from `proposer`.
pub open spec fn is_assignment(
    proposal: ConsensusProposal,
    proposer: Seq<char>,
    term: u64,
    region: RegionId,
    node: String,
    now: i64,
) -> bool {
    &&& is_uuid_text(proposal.id@)
    &&& proposal.proposer@ == proposer
    &&& proposal.term == term
    &&& proposal.proposal_type == ProposalType::RegionAssignment(region, node)
    &&& proposal.data@.len() == 0
    &&& proposal.timestamp == now
}

impl ClusterState {
    /// The tables are in order, and each region's nodes are listed once.
    pub open spec fn wf(&self) -> bool {
        &&& self.nodes.wf()
        &&& self.regions.wf()
        &&& self.last_heartbeat.wf()
        &&& forall|k: Seq<char>| #[trigger]
            self.regions@.dom().contains(k) ==> texts(self.regions@[k]@).no_duplicates()
    }

    /// The nodes in charge of a region.
    pub open spec fn in_charge(&self, region: Seq<char>) -> Set<Seq<char>> {
        if self.regions@.dom().contains(region) {
            id_set(self.regions@[region]@)
        } else {
            Set::empty()
        }
    }
}

impl ClusterManager {
    /// All tables are in order, and every node is filed under its own identifier.
    pub open spec fn wf(&self) -> bool {
        &&& self.cluster_nodes.wf()
        &&& forall|k: Seq<char>| #[trigger]
            self.cluster_nodes@.dom().contains(k) ==> self.cluster_nodes@[k].id@ == k
        &&& self.cluster_state.wf()
        &&& self.leadership_state.last_heartbeat_received.wf()
        &&& texts(self.leadership_state.votes_received@).no_duplicates()
        &&& self.network_layer.connections.wf()
        &&& self.membership_manager.wf()
    }

    /// A follower that has not joined yet. The first seed node is its own address.
    pub fn new(config: ClusterConfig, now: i64) -> (result: Result<Self>)
        ensures
            match result {
                Err(error) => config.seed_nodes@.len() == 0 && is_cluster_error(
                    error,
                    "No seed nodes configured"@,
                ),
                Ok(manager) => {
                    &&& config.seed_nodes@.len() > 0
                    &&& manager.wf()
                    &&& manager.config == config
                    &&& manager.node_id == config.node_id
                    &&& manager.local_node.id == config.node_id
                    &&& manager.local_node.address == config.seed_nodes@[0]
                    &&& manager.local_node.role is Follower
                    &&& manager.local_node.status is Starting
                    &&& manager.local_node.last_seen == now
                    &&& manager.local_node.load == Scalar::Number(0)
                    &&& manager.local_node.regions_managed@.len() == 0
                    &&& manager.cluster_nodes@ == Map::<Seq<char>, ClusterNode>::empty()
                    &&& manager.consensus_engine.is_new(config.consensus_algorithm)
                    &&& manager.leadership_state.current_role is Follower
                    &&& manager.leadership_state.current_term == 0
                    &&& manager.leadership_state.voted_for is None
                    &&& manager.leadership_state.votes_received@.len() == 0
                    &&& manager.leadership_state.last_heartbeat_sent == now
                    &&& manager.leadership_state.last_heartbeat_received@ == Map::<
                        Seq<char>,
                        i64,
                    >::empty()
                    &&& manager.leadership_state.election_timeout == config.election_timeout
                    &&& !manager.leadership_state.is_candidate
                    &&& manager.cluster_state.term == 0
                    &&& manager.cluster_state.leader_id is None
                    &&& manager.cluster_state.nodes@ == Map::<Seq<char>, ClusterNode>::empty()
                    &&& manager.cluster_state.regions@ == Map::<Seq<char>, Vec<String>>::empty()
                    &&& manager.cluster_state.partition_groups@.len() == 0
                    &&& manager.cluster_state.last_heartbeat@ == Map::<Seq<char>, i64>::empty()
                    &&& !manager.cluster_state.split_brain_detected
                    &&& manager.network_layer.local_address == config.seed_nodes@[0]
                    &&& manager.network_layer.connections@ == Map::<
                        Seq<char>,
                        NetworkConnection,
                    >::empty()
                    &&& manager.membership_manager.known_nodes@ == Map::<
                        Seq<char>,
                        ClusterNode,
                    >::empty()
                    &&& !manager.is_running
                },
            },
    {
        if config.seed_nodes.len() == 0 {
            return Err(AtlasError::Cluster("No seed nodes configured".to_owned()));
        }
        let local_address: String = config.seed_nodes[0].clone();
        let node_id: String = config.node_id.clone();
        let local_node = ClusterNode {
            id: node_id.clone(),
            address: local_address.clone(),
            role: NodeRole::Follower,
            status: NodeStatus::Starting,
            last_seen: now,
            load: Scalar::Number(0),
            regions_managed: Vec::new(),
        };
        let votes: Vec<String> = Vec::new();
        assert(texts(votes@) =~= Seq::<Seq<char>>::empty());
        let leadership_state = LeadershipState {
            current_role: NodeRole::Follower,
            current_term: 0,
            voted_for: None,
            votes_received: votes,
            last_heartbeat_sent: now,
            last_heartbeat_received: Table::new(),
            election_timeout: config.election_timeout,
            is_candidate: false,
        };
        let cluster_state = ClusterState {
            term: 0,
            leader_id: None,
            nodes: Table::new(),
            regions: Table::new(),
            partition_groups: Vec::new(),
            last_heartbeat: Table::new(),
            split_brain_detected: false,
        };
        let consensus_engine = ConsensusEngine::create(config.consensus_algorithm);
        Ok(
            ClusterManager {
                config,
                node_id,
                local_node,
                cluster_nodes: Table::new(),
                consensus_engine,
                leadership_state,
                cluster_state,
                network_layer: ClusterNetwork::new(local_address),
                membership_manager: MembershipManager::new(),
                partition_detector: PartitionDetector::new(),
                is_running: false,
            },
        )
    }

    /// Joins the cluster: the node is running, has joined, holds a connection to the
    /// seed nodes, and is active.
    pub fn start(&mut self, now: i64)
        requires
            old(self).wf(),
        ensures
            final(self).wf(),
            *final(self) == (ClusterManager {
                is_running: true,
                local_node: ClusterNode { status: NodeStatus::Active, ..old(self).local_node },
                membership_manager: final(self).membership_manager,
                network_layer: final(self).network_layer,
                ..*old(self)
            }),
            final(self).network_layer.local_address == old(self).network_layer.local_address,
            ({
                let joined = final(self).membership_manager.known_nodes@[old(self).local_node.id@];
                &&& final(self).membership_manager.known_nodes@ == old(
                    self,
                ).membership_manager.known_nodes@.insert(old(self).local_node.id@, joined)
                &&& joined.same_as(
                    ClusterNode { status: NodeStatus::Starting, ..old(self).local_node },
                )
            }),
            ({
                let seeds = old(self).config.seed_nodes@;
                let link = final(self).network_layer.connections@["seed"@];
                if seeds.len() > 0 {
                    &&& final(self).network_layer.connections@ == old(
                        self,
                    ).network_layer.connections@.insert("seed"@, link)
                    &&& link.node_id@ == "seed"@
                    &&& link.address == seeds.last()
                    &&& link.last_activity == now
                    &&& link.connection_state is Connected
                } else {
                    final(self).network_layer.connections@ == old(self).network_layer.connections@
                }
            }),
    {
        self.is_running = true;
        self.local_node.status = NodeStatus::Starting;
        self.membership_manager.join_cluster(self.local_node.clone());
        let mut i: usize = 0;
        while i < self.config.seed_nodes.len()
            invariant
                i <= self.config.seed_nodes@.len(),
                self.wf(),
                *self == (ClusterManager {
                    is_running: true,
                    local_node: ClusterNode { status: NodeStatus::Starting, ..old(self).local_node },
                    membership_manager: self.membership_manager,
                    network_layer: self.network_layer,
                    ..*old(self)
                }),
                self.network_layer.local_address == old(self).network_layer.local_address,
                self.membership_manager.known_nodes@ == old(
                    self,
                ).membership_manager.known_nodes@.insert(
                    old(self).local_node.id@,
                    self.membership_manager.known_nodes@[old(self).local_node.id@],
                ),
                self.membership_manager.known_nodes@[old(self).local_node.id@].same_as(
                    ClusterNode { status: NodeStatus::Starting, ..old(self).local_node },
                ),
                if i > 0 {
                    let link = self.network_layer.connections@["seed"@];
                    &&& self.network_layer.connections@ == old(
                        self,
                    ).network_layer.connections@.insert("seed"@, link)
                    &&& link.node_id@ == "seed"@
                    &&& link.address == self.config.seed_nodes@[i - 1]
                    &&& link.last_activity == now
                    &&& link.connection_state is Connected
                } else {
                    self.network_layer.connections@ == old(self).network_layer.connections@
                },
            decreases self.config.seed_nodes@.len() - i,
        {
            let address: String = self.config.seed_nodes[i].clone();
            self.network_layer.connect_to_node("seed".to_owned(), address, now);
            proof {
                let link = self.network_layer.connections@["seed"@];
                assert(self.network_layer.connections@ =~= old(
                    self,
                ).network_layer.connections@.insert("seed"@, link));
            }
            i += 1;
        }
        self.local_node.status = NodeStatus::Active;
    }

    /// Leaves the cluster: a leader steps down first, and the node is stopping.
    pub fn stop(&mut self)
        requires
            old(self).wf(),
        ensures
            final(self).wf(),
            *final(self) == (ClusterManager {
                is_running: false,
                local_node: ClusterNode { status: NodeStatus::Stopping, ..old(self).local_node },
                membership_manager: final(self).membership_manager,
                leadership_state: final(self).leadership_state,
                cluster_state: final(self).cluster_state,
                ..*old(self)
            }),
            final(self).membership_manager.known_nodes@ == old(
                self,
            ).membership_manager.known_nodes@.remove(old(self).node_id@),
            if old(self).leadership_state.current_role is Leader {
                &&& stepped_down(old(self).leadership_state, final(self).leadership_state)
                &&& final(self).cluster_state == (ClusterState {
                    leader_id: None,
                    ..old(self).cluster_state
                })
            } else {
                &&& final(self).leadership_state == old(self).leadership_state
                &&& final(self).cluster_state == old(self).cluster_state
            },
    {
        self.is_running = false;
        if self.is_leader() {
            self.step_down_as_leader();
        }
        self.membership_manager.leave_cluster(self.node_id.as_str());
        self.local_node.status = NodeStatus::Stopping;
    }

    /// The cluster at a glance.
    pub fn get_cluster_status(&self) -> (result: ClusterStatus)
        requires
            self.wf(),
        ensures
            result.node_id == self.node_id,
            result.role == self.leadership_state.current_role,
            result.term == self.leadership_state.current_term,
            result.leader_id == self.cluster_state.leader_id,
            result.cluster_size == self.cluster_state.nodes@.dom().len(),
            result.healthy_nodes == self.cluster_state.nodes.values().filter(
                |n: ClusterNode| n.status is Active,
            ).len(),
            result.regions_managed == self.local_node.regions_managed@.len(),
            result.split_brain_detected == self.cluster_state.split_brain_detected,
            result.partition_groups == self.cluster_state.partition_groups@.len(),
    {
        let test = |node: &ClusterNode| -> (yes: bool)
            ensures
                yes == (node.status is Active),
        {
            matches!(node.status, NodeStatus::Active)
        };
        let ghost wanted = |n: ClusterNode| n.status is Active;
        let healthy = self.cluster_state.nodes.values_where(test, Ghost(wanted));
        assert(referents(healthy@).len() == healthy@.len());
        ClusterStatus {
            node_id: self.node_id.clone(),
            role: self.leadership_state.current_role,
            term: self.leadership_state.current_term,
            leader_id: self.cluster_state.leader_id.clone(),
            cluster_size: self.cluster_state.nodes.len(),
            healthy_nodes: healthy.len(),
            regions_managed: self.local_node.regions_managed.len(),
            split_brain_detected: self.cluster_state.split_brain_detected,
            partition_groups: self.cluster_state.partition_groups.len(),
        }
    }

    /// Puts a proposal to the nodes; only a leader may.
    pub fn propose_consensus(&mut self, proposal: ConsensusProposal) -> (result: Result<
        ConsensusResult,
    >)
        requires
            old(self).wf(),
        ensures
            final(self).wf(),
            *final(self) == (ClusterManager {
                consensus_engine: final(self).consensus_engine,
                ..*old(self)
            }),
            match result {
                Ok(outcome) => old(self).leadership_state.current_role is Leader && proposed(
                    old(self).consensus_engine,
                    final(self).consensus_engine,
                    proposal,
                    outcome,
                ),
                Err(error) => {
                    &&& !(old(self).leadership_state.current_role is Leader)
                    &&& is_cluster_error(error, "Only leader can propose consensus"@)
                    &&& final(self).consensus_engine == old(self).consensus_engine
                },
            },
    {
        if !self.is_leader() {
            return Err(AtlasError::Cluster("Only leader can propose consensus".to_owned()));
        }
        Ok(self.consensus_engine.propose(proposal))
    }

    /// Puts a node in charge of a region, beside those that already are, once the nodes
    /// have agreed.
    pub fn assign_region(&mut self, region_id: RegionId, node_id: String, now: i64) -> (result: Result<
        (),
    >)
        requires
            old(self).wf(),
        ensures
            final(self).wf(),
            *final(self) == (ClusterManager {
                consensus_engine: final(self).consensus_engine,
                cluster_state: final(self).cluster_state,
                ..*old(self)
            }),
            ({
                let leads = old(self).leadership_state.current_role is Leader;
                let decided = exists|proposal: ConsensusProposal, outcome: ConsensusResult|
                    {
                        &&& is_assignment(
                            proposal,
                            old(self).node_id@,
                            old(self).leadership_state.current_term,
                            region_id,
                            node_id,
                            now,
                        )
                        &&& #[trigger] proposed(
                            old(self).consensus_engine,
                            final(self).consensus_engine,
                            proposal,
                            outcome,
                        )
                        &&& outcome.accepted && outcome.committed == (result is Ok)
                            || !outcome.accepted && result is Err
                    };
                match result {
                    Ok(_) => {
                        &&& leads && decided
                        &&& final(self).cluster_state.in_charge(region_id.0@) == old(
                            self,
                        ).cluster_state.in_charge(region_id.0@).insert(node_id@)
                        &&& final(self).cluster_state.regions@ == old(
                            self,
                        ).cluster_state.regions@.insert(
                            region_id.0@,
                            final(self).cluster_state.regions@[region_id.0@],
                        )
                        &&& final(self).cluster_state == (ClusterState {
                            regions: final(self).cluster_state.regions,
                            ..old(self).cluster_state
                        })
                    },
                    Err(error) => {
                        &&& final(self).cluster_state == old(self).cluster_state
                        &&& if leads {
                            decided && is_cluster_error(
                                error,
                                "Failed to commit region assignment"@,
                            )
                        } else {
                            &&& is_cluster_error(error, "Only leader can propose consensus"@)
                            &&& final(self).consensus_engine == old(self).consensus_engine
                        }
                    },
                }
            }),
    {
        let proposal = ConsensusProposal {
            id: new_uuid_text(),
            proposer: self.node_id.clone(),
            term: self.leadership_state.current_term,
            proposal_type: ProposalType::RegionAssignment(region_id.clone(), node_id.clone()),
            data: Vec::new(),
            timestamp: now,
        };
        let ghost asked = proposal;
        let outcome = match self.propose_consensus(proposal) {
            Ok(outcome) => outcome,
            Err(error) => {
                return Err(error);
            },
        };
        let ghost told = outcome;
        assert(proposed(old(self).consensus_engine, self.consensus_engine, asked, told));
        if !(outcome.accepted && outcome.committed) {
            return Err(AtlasError::Cluster("Failed to commit region assignment".to_owned()));
        }
        let key: String = region_id.0.clone();
        match self.cluster_state.regions.find(region_id.0.as_str()) {
            Some(i) => {
                let nodes = self.cluster_state.regions.value_at_mut(i);
                add_id(nodes, node_id.as_str());
            },
            None => {
                let mut nodes: Vec<String> = Vec::new();
                assert(texts(nodes@) =~= Seq::<Seq<char>>::empty());
                assert(id_set(nodes@) =~= Set::<Seq<char>>::empty());
                add_id(&mut nodes, node_id.as_str());
                let _ = self.cluster_state.regions.insert(key, nodes);
            },
        }
        Ok(())
    }

    /// The nodes in charge of each region.
    pub fn get_region_assignments(&self) -> (result: &Table<Vec<String>>)
        ensures
            *result == self.cluster_state.regions,
    {
        &self.cluster_state.regions
    }

    /// Whether this node leads the cluster.
    pub fn is_leader(&self) -> (result: bool)
        ensures
            result == (self.leadership_state.current_role is Leader),
    {
        matches!(self.leadership_state.current_role, NodeRole::Leader)
    }

    /// The leader, as far as it is known.
    pub fn get_leader_id(&self) -> (result: Option<String>)
        ensures
            result == self.cluster_state.leader_id,
    {
        self.cluster_state.leader_id.clone()
    }

    /// Copies of the nodes of the cluster.
    pub fn get_cluster_nodes(&self) -> (result: Vec<ClusterNode>)
        requires
            self.wf(),
        ensures
            result@.len() == self.cluster_nodes.values().len(),
            forall|i: int|
                0 <= i < result@.len() ==> (#[trigger] result@[i]).same_as(
                    self.cluster_nodes.values()[i],
                ),
    {
        copy_nodes(&self.cluster_nodes)
    }

    /// Gives up leadership: a follower again, without votes, in a cluster without leader.
    pub fn step_down_as_leader(&mut self)
        requires
            old(self).wf(),
        ensures
            final(self).wf(),
            *final(self) == (ClusterManager {
                leadership_state: final(self).leadership_state,
                cluster_state: ClusterState { leader_id: None, ..old(self).cluster_state },
                ..*old(self)
            }),
            stepped_down(old(self).leadership_state, final(self).leadership_state),
    {
        self.leadership_state.current_role = NodeRole::Follower;
        self.leadership_state.votes_received.clear();
        self.leadership_state.is_candidate = false;
        self.cluster_state.leader_id = None;
    }

    /// The heartbeat that a leader sends, and the nodes that it sends it to; nothing
    /// where this node does not lead.
    pub fn heartbeat(&self, now: i64) -> (result: Option<(ConsensusMessage, Vec<String>)>)
        requires
            self.wf(),
        ensures
            match result {
                Some((message, targets)) => {
                    &&& self.leadership_state.current_role is Leader
                    &&& is_broadcast(
                        message,
                        self.node_id@,
                        MessageType::Heartbeat,
                        self.leadership_state.current_term,
                        now,
                    )
                    &&& texts(targets@) == other_keys(self.cluster_nodes.keys(), self.node_id@)
                },
                None => !(self.leadership_state.current_role is Leader),
            },
    {
        if !self.is_leader() {
            return None;
        }
        let message = broadcast_message(
            self.node_id.as_str(),
            MessageType::Heartbeat,
            self.leadership_state.current_term,
            now,
        );
        Some((message, self.other_nodes()))
    }

    fn other_nodes(&self) -> (result: Vec<String>)
        requires
            self.wf(),
        ensures
            texts(result@) == other_keys(self.cluster_nodes.keys(), self.node_id@),
    {
        let mut out: Vec<String> = Vec::new();
        let ghost keys = self.cluster_nodes.keys();
        assert(texts(out@) =~= Seq::<Seq<char>>::empty());
        assert(keys.take(0) =~= Seq::<Seq<char>>::empty());
        let mut i: usize = 0;
        while i < self.cluster_nodes.len()
            invariant
                self.wf(),
                keys == self.cluster_nodes.keys(),
                i <= keys.len(),
                texts(out@) == other_keys(keys.take(i as int), self.node_id@),
            decreases keys.len() - i,
        {
            assert(keys.take(i + 1).drop_last() =~= keys.take(i as int));
            let ghost before = out@;
            let key = self.cluster_nodes.key_at(i);
            if !str_eq(key.as_str(), self.node_id.as_str()) {
                out.push(key.clone());
                assert(texts(out@) =~= texts(before).push(key@));
            }
            i += 1;
        }
        assert(keys.take(i as int) =~= keys);
        out
    }

    /// Whether it is time to stand for election: a follower in a cluster without leader
    /// whose last heartbeat lies more whole milliseconds back than the timeout.
    pub fn should_start_election(&self, now: i64) -> (result: bool)
        ensures
            result == (self.leadership_state.current_role is Follower
                && self.cluster_state.leader_id is None && whole_units(
                now - self.leadership_state.last_heartbeat_sent,
                NANOS_PER_MILLI as int,
            ) > signed_millis(self.config.election_timeout)),
    {
        let waited: i64 = span_in(
            self.leadership_state.last_heartbeat_sent,
            now,
            NANOS_PER_MILLI,
        );
        let timeout: u64 = self.config.election_timeout;
        let limit: i128 = if timeout <= 0x7fff_ffff_ffff_ffff {
            timeout as i128
        } else {
            (timeout as i128) - 0x1_0000_0000_0000_0000
        };
        matches!(self.leadership_state.current_role, NodeRole::Follower)
            && self.cluster_state.leader_id.is_none() && (waited as i128) > limit
    }

    /// Stands for election in the next term, with this node's own vote. The request for
    /// the votes of the others comes back, and whom it goes to. The node leads at once
    /// where its own vote is a majority.
    pub fn start_leader_election(&mut self, now: i64) -> (result: (ConsensusMessage, Vec<String>))
        requires
            old(self).wf(),
            old(self).leadership_state.current_term < u64::MAX,
        ensures
            final(self).wf(),
            is_broadcast(
                result.0,
                old(self).node_id@,
                MessageType::RequestVote,
                (old(self).leadership_state.current_term + 1) as u64,
                now,
            ),
            texts(result.1@) == other_keys(old(self).cluster_nodes.keys(), old(self).node_id@),
            ({
                let wins = 1 >= majority(old(self).cluster_nodes@.dom().len());
                let before = old(self).leadership_state;
                let after = final(self).leadership_state;
                &&& after == (LeadershipState {
                    current_role: if wins {
                        NodeRole::Leader
                    } else {
                        NodeRole::Candidate
                    },
                    current_term: (before.current_term + 1) as u64,
                    voted_for: Some(old(self).node_id),
                    votes_received: after.votes_received,
                    is_candidate: !wins,
                    ..before
                })
                &&& texts(after.votes_received@) == seq![old(self).node_id@]
                &&& final(self).cluster_state == (if wins {
                    ClusterState {
                        leader_id: Some(old(self).node_id),
                        term: (before.current_term + 1) as u64,
                        ..old(self).cluster_state
                    }
                } else {
                    old(self).cluster_state
                })
                &&& *final(self) == (ClusterManager {
                    leadership_state: after,
                    cluster_state: final(self).cluster_state,
                    ..*old(self)
                })
            }),
    {
        self.leadership_state.current_role = NodeRole::Candidate;
        self.leadership_state.current_term = self.leadership_state.current_term + 1;
        self.leadership_state.voted_for = Some(self.node_id.clone());
        self.leadership_state.votes_received.clear();
        self.leadership_state.votes_received.push(self.node_id.clone());
        self.leadership_state.is_candidate = true;
        proof {
            assert(texts(self.leadership_state.votes_received@) =~= seq![old(self).node_id@]);
        }
        let term: u64 = self.leadership_state.current_term;
        let request = broadcast_message(
            self.node_id.as_str(),
            MessageType::RequestVote,
            term,
            now,
        );
        let targets = self.other_nodes();
        let needed: usize = self.cluster_nodes.len() / 2 + 1;
        if self.leadership_state.votes_received.len() >= needed {
            self.leadership_state.current_role = NodeRole::Leader;
            self.leadership_state.is_candidate = false;
            self.cluster_state.leader_id = Some(self.node_id.clone());
            self.cluster_state.term = term;
        }
        (request, targets)
    }

    /// Replaces what is known of the nodes by the members.
    pub fn refresh_members(&mut self, members: Vec<ClusterNode>)
        requires
            old(self).wf(),
        ensures
            final(self).wf(),
            *final(self) == (ClusterManager {
                cluster_nodes: final(self).cluster_nodes,
                cluster_state: ClusterState {
                    nodes: final(self).cluster_state.nodes,
                    ..old(self).cluster_state
                },
                ..*old(self)
            }),
            final(self).cluster_nodes@.dom() == filed_nodes(members@).dom(),
            forall|k: Seq<char>| #[trigger]
                final(self).cluster_nodes@.dom().contains(k) ==> final(self).cluster_nodes@[k].same_as(
                    filed_nodes(members@)[k],
                ),
            final(self).cluster_state.nodes@ == filed_nodes(members@),
    {
        self.cluster_nodes.clear();
        self.cluster_state.nodes.clear();
        assert(members@.take(0) =~= Seq::<ClusterNode>::empty());
        for member in iter: members
            invariant
                iter.seq() == members@,
                self.wf(),
                *self == (ClusterManager {
                    cluster_nodes: self.cluster_nodes,
                    cluster_state: ClusterState {
                        nodes: self.cluster_state.nodes,
                        ..old(self).cluster_state
                    },
                    ..*old(self)
                }),
                self.cluster_nodes@.dom() == filed_nodes(members@.take(iter.index() as int)).dom(),
                forall|k: Seq<char>| #[trigger]
                    self.cluster_nodes@.dom().contains(k) ==> self.cluster_nodes@[k].same_as(
                        filed_nodes(members@.take(iter.index() as int))[k],
                    ),
                self.cluster_state.nodes@ == filed_nodes(members@.take(iter.index() as int)),
        {
            proof {
                let i = iter.index() as int;
                assert(members@.take(i + 1).drop_last() =~= members@.take(i));
                assert(members@.take(i + 1).last() == member);
            }
            let key: String = member.id.clone();
            let _ = self.cluster_nodes.insert(key.clone(), member.clone());
            let _ = self.cluster_state.nodes.insert(key, member);
            proof {
                let i = iter.index() as int;
                assert(self.cluster_nodes@.dom() =~= filed_nodes(members@.take(i + 1)).dom());
            }
        }
        assert(members@.take(members@.len() as int) =~= members@);
    }

    /// Looks for partitions: more than one group is split brain, and one group ends it.
    pub fn check_partitions(&mut self)
        requires
            old(self).wf(),
        ensures
            final(self).wf(),
            *final(self) == (ClusterManager {
                cluster_state: final(self).cluster_state,
                ..*old(self)
            }),
            !final(self).cluster_state.split_brain_detected,
            final(self).cluster_state == (ClusterState {
                split_brain_detected: false,
                partition_groups: final(self).cluster_state.partition_groups,
                ..old(self).cluster_state
            }),
            if old(self).cluster_state.split_brain_detected {
                final(self).cluster_state.partition_groups@.len() == 0
            } else {
                final(self).cluster_state.partition_groups == old(
                    self,
                ).cluster_state.partition_groups
            },
    {
        let nodes = self.get_cluster_nodes();
        let partitions = self.partition_detector.detect_partitions(&nodes);
        self.note_partitions(partitions);
    }

    /// Notes the groups that were found: more than one is split brain, and one ends it.
    pub fn note_partitions(&mut self, partitions: Vec<Vec<String>>)
        requires
            old(self).wf(),
        ensures
            final(self).wf(),
            *final(self) == (ClusterManager {
                cluster_state: final(self).cluster_state,
                ..*old(self)
            }),
            ({
                let before = old(self).cluster_state;
                let after = final(self).cluster_state;
                if partitions@.len() > 1 {
                    after == (ClusterState {
                        partition_groups: partitions,
                        split_brain_detected: true,
                        ..before
                    })
                } else if before.split_brain_detected {
                    &&& after == (ClusterState {
                        partition_groups: after.partition_groups,
                        split_brain_detected: false,
                        ..before
                    })
                    &&& after.partition_groups@.len() == 0
                } else {
                    after == before
                }
            }),
    {
        if partitions.len() > 1 {
            self.cluster_state.partition_groups = partitions;
            self.cluster_state.split_brain_detected = true;
        } else if self.cluster_state.split_brain_detected {
            self.cluster_state.split_brain_detected = false;
            self.cluster_state.partition_groups.clear();
        }
    }

    /// Looks at when each node was last seen, and gives the nodes that have newly failed.
    pub fn check_node_health(&mut self, now: i64) -> (result: Vec<String>)
        requires
            old(self).wf(),
        ensures
            final(self).wf(),
            *final(self) == (ClusterManager {
                cluster_nodes: final(self).cluster_nodes,
                ..*old(self)
            }),
            final(self).cluster_nodes@ == old(self).cluster_nodes@.map_values(
                |n: ClusterNode| node_inspected(n, now),
            ),
            texts(result@) == failed_ids(old(self).cluster_nodes.values(), now),
            forall|k: Seq<char>| #[trigger]
                old(self).cluster_nodes@.dom().contains(k) && now
                    - old(self).cluster_nodes@[k].last_seen <= 30_000_000_000 && old(
                    self,
                ).cluster_nodes@[k].status != NodeStatus::Failed ==> final(self).cluster_nodes@[k]
                    == old(self).cluster_nodes@[k],
    {
        proof {
            self.cluster_nodes.lemma_wf();
        }
        let mut unhealthy: Vec<String> = Vec::new();
        let ghost nodes = self.cluster_nodes.values();
        let count: usize = self.cluster_nodes.len();
        assert(texts(unhealthy@) =~= Seq::<Seq<char>>::empty());
        assert(nodes.take(0) =~= Seq::<ClusterNode>::empty());
        let mut i: usize = 0;
        while i < count
            invariant
                i <= count,
                self.wf(),
                old(self).wf(),
                *self == (ClusterManager { cluster_nodes: self.cluster_nodes, ..*old(self) }),
                nodes == old(self).cluster_nodes.values(),
                count == nodes.len(),
                count == self.cluster_nodes.values().len(),
                count == self.cluster_nodes.keys().len(),
                self.cluster_nodes.keys() == old(self).cluster_nodes.keys(),
                texts(unhealthy@) == failed_ids(nodes.take(i as int), now),
                forall|j: int|
                    0 <= j < count ==> #[trigger] self.cluster_nodes.values()[j] == (if j < i {
                        node_inspected(nodes[j], now)
                    } else {
                        nodes[j]
                    }),
            decreases count - i,
        {
            proof {
                self.cluster_nodes.lemma_wf();
                assert(self.cluster_nodes@.dom().contains(self.cluster_nodes.keys()[i as int]));
                assert(nodes.take(i + 1).drop_last() =~= nodes.take(i as int));
                assert(self.cluster_nodes.values()[i as int] == nodes[i as int]);
            }
            let ghost before = unhealthy@;
            let node = self.cluster_nodes.value_at(i);
            let seconds: i64 = span_in(node.last_seen, now, NANOS_PER_SECOND);
            let failed = matches!(node.status, NodeStatus::Failed);
            if seconds > 30 {
                if !failed {
                    unhealthy.push(node.id.clone());
                    assert(texts(unhealthy@) =~= texts(before).push(nodes[i as int].id@));
                }
                let node = self.cluster_nodes.value_at_mut(i);
                node.status = NodeStatus::Failed;
            } else if failed && seconds < 10 {
                let node = self.cluster_nodes.value_at_mut(i);
                node.status = NodeStatus::Active;
            }
            i += 1;
        }
        proof {
            assert(nodes.take(i as int) =~= nodes);
            self.cluster_nodes.lemma_wf();
            old(self).cluster_nodes.lemma_wf();
            assert(self.cluster_nodes@ =~= old(self).cluster_nodes@.map_values(
                |n: ClusterNode| node_inspected(n, now),
            ));
        }
        unhealthy
    }
}

/// A single vote is a majority only where there is at most one node, so a node never
/// elects itself over another.
pub proof fn lemma_own_vote_wins_only_alone(nodes: nat)
    ensures
        1 >= majority(nodes) <==> nodes <= 1,
{
}

/// Two majorities of the same nodes have a node in common: there is never room for two
/// leaders in one term.
pub proof fn lemma_majorities_overlap(
    nodes: Set<Seq<char>>,
    votes: Set<Seq<char>>,
    other_votes: Set<Seq<char>>,
)
    requires
        nodes.finite(),
        votes.subset_of(nodes),
        other_votes.subset_of(nodes),
        votes.len() >= majority(nodes.len()),
        other_votes.len() >= majority(nodes.len()),
    ensures
        !votes.disjoint(other_votes),
{
    if votes.disjoint(other_votes) {
        vstd::set_lib::lemma_set_subset_finite(nodes, votes);
        vstd::set_lib::lemma_set_subset_finite(nodes, other_votes);
        vstd::set_lib::lemma_set_disjoint_lens(votes, other_votes);
        assert((votes + other_votes).subset_of(nodes));
        vstd::set_lib::lemma_len_subset(votes + other_votes, nodes);
    }
}

/// A look at a node that was just seen leaves it alone or brings it back, and looking
/// again at the same time changes nothing.
pub proof fn lemma_node_inspection_settles(node: ClusterNode, now: i64)
    ensures
        node_inspected(node_inspected(node, now), now) == node_inspected(node, now),
        !newly_failed(node_inspected(node, now), now),
        node.last_seen == now && node.status is Failed ==> node_inspected(node, now).status is Active,
{
}

/// An inspection calls a node failed that was not seen for more than half a minute, counted
/// in whole seconds. Of a node that was seen since, only a failed one changes: it is active
/// again where it was seen less than ten seconds ago. Whatever else is known of a node
/// stays.
pub proof fn lemma_inspection_fails_and_revives(node: ClusterNode, now: i64)
    ensures
        ({
            let after = node_inspected(node, now);
            let unseen = now - node.last_seen;
            &&& unseen >= 31_000_000_000 ==> after.status == NodeStatus::Failed
            &&& unseen < 31_000_000_000 && node.status != NodeStatus::Failed ==> after == node
            &&& 10_000_000_000 <= unseen < 31_000_000_000 ==> after == node
            &&& unseen < 10_000_000_000 && node.status == NodeStatus::Failed ==> after.status
                == NodeStatus::Active
            &&& after == ClusterNode { status: after.status, ..node }
        }),
{
}

/// A node that was seen within half a minute keeps its status unless it was failed: nodes
/// that start, stop or rest are left alone.
pub proof fn lemma_only_failed_nodes_change_when_seen(node: ClusterNode, now: i64)
    requires
        now - node.last_seen <= 30_000_000_000,
    ensures
        node_inspected(node, now).status != node.status ==> node.status == NodeStatus::Failed
            && node_inspected(node, now).status == NodeStatus::Active,
        node.status == NodeStatus::Starting ==> node_inspected(node, now) == node,
        node.status == NodeStatus::Stopping ==> node_inspected(node, now) == node,
        node.status == NodeStatus::Inactive ==> node_inspected(node, now) == node,
        node.status == NodeStatus::Active ==> node_inspected(node, now) == node,
{
}

/// A node is told of as failed exactly where the inspection makes it so.
pub proof fn lemma_failures_told_are_those_made(node: ClusterNode, now: i64)
    ensures
        newly_failed(node, now) <==> node.status != NodeStatus::Failed && node_inspected(
            node,
            now,
        ).status == NodeStatus::Failed,
        newly_failed(node, now) <==> node.status != NodeStatus::Failed && now - node.last_seen
            >= 31_000_000_000,
{
}

/// An inspection tells of the nodes that it found failed, in their order, and of no other.
pub proof fn lemma_failed_ids_are_those_of_failed_nodes(nodes: Seq<ClusterNode>, now: i64)
    ensures
        failed_ids(nodes, now) == nodes.filter(
            |n: ClusterNode|
                n.status != NodeStatus::Failed && now - n.last_seen >= 31_000_000_000,
        ).map_values(|n: ClusterNode| n.id@),
    decreases nodes.len(),
{
    reveal(Seq::filter);
    let wanted = |n: ClusterNode|
        n.status != NodeStatus::Failed && now - n.last_seen >= 31_000_000_000;
    let ids = |n: ClusterNode| n.id@;
    if nodes.len() > 0 {
        lemma_failed_ids_are_those_of_failed_nodes(nodes.drop_last(), now);
    }
    assert(failed_ids(nodes, now) =~= nodes.filter(wanted).map_values(ids));
}

/// The other nodes are all but the node itself, in their order.
pub proof fn lemma_others_are_all_but_own(keys: Seq<Seq<char>>, own: Seq<char>)
    ensures
        other_keys(keys, own) == keys.filter(|k: Seq<char>| k != own),
        !other_keys(keys, own).contains(own),
        forall|k: Seq<char>| k != own && #[trigger] keys.contains(k) ==> other_keys(
            keys,
            own,
        ).contains(k),
    decreases keys.len(),
{
    reveal(Seq::filter);
    let wanted = |k: Seq<char>| k != own;
    if keys.len() > 0 {
        lemma_others_are_all_but_own(keys.drop_last(), own);
    }
    assert(other_keys(keys, own) =~= keys.filter(wanted));
    lemma_filter_keeps_the_wanted(keys, wanted, own);
    assert forall|k: Seq<char>| k != own && #[trigger] keys.contains(k) implies other_keys(
        keys,
        own,
    ).contains(k) by {
        lemma_filter_keeps_the_wanted(keys, wanted, k);
    }
}

/// A majority is more than half of the nodes, and one vote less is not.
pub proof fn lemma_majority_is_more_than_half(nodes: nat)
    ensures
        2 * majority(nodes) > nodes,
        2 * (majority(nodes) - 1) <= nodes,
{
}

/// Members are filed under their identifiers, each with what was said of it last.
pub proof fn lemma_members_are_filed_by_id(members: Seq<ClusterNode>, id: Seq<char>)
    ensures
        filed_nodes(members).dom().contains(id) <==> exists|i: int|
            0 <= i < members.len() && (#[trigger] members[i]).id@ == id,
        filed_nodes(members).dom().contains(id) ==> exists|i: int|
            {
                &&& 0 <= i < members.len()
                &&& (#[trigger] members[i]).id@ == id
                &&& filed_nodes(members)[id] == members[i]
                &&& forall|j: int| i < j < members.len() ==> (#[trigger] members[j]).id@ != id
            },
    decreases members.len(),
{
    if members.len() > 0 {
        let front = members.drop_last();
        let last = members.len() - 1;
        lemma_members_are_filed_by_id(front, id);
        if members[last].id@ == id {
            assert(members.last() == members[last]);
        } else if filed_nodes(front).dom().contains(id) {
            let i = choose|i: int|
                {
                    &&& 0 <= i < front.len()
                    &&& (#[trigger] front[i]).id@ == id
                    &&& filed_nodes(front)[id] == front[i]
                    &&& forall|j: int| i < j < front.len() ==> (#[trigger] front[j]).id@ != id
                };
            assert(members[i].id@ == id);
            assert forall|j: int| i < j < members.len() implies (#[trigger] members[j]).id@
                != id by {
                if j < last {
                    assert(front[j].id@ != id);
                }
            }
        } else {
            assert forall|i: int| 0 <= i < members.len() implies (#[trigger] members[i]).id@
                != id by {
                if i < last {
                    assert(front[i].id@ != id);
                }
            }
        }
    }
}

/// Only a leader takes a proposal into its log, at the end and in its own term. Elsewhere
/// nothing changes and the answer says why.
pub proof fn lemma_only_a_leader_logs(
    before: RaftConsensus,
    after: RaftConsensus,
    proposal: ConsensusProposal,
    result: ConsensusResult,
)
    requires
        proposed(ConsensusEngine::Raft(before), ConsensusEngine::Raft(after), proposal, result),
    ensures
        result.accepted <==> before.state.role == NodeRole::Leader,
        result.committed <==> result.accepted,
        result.error is None <==> result.accepted,
        result.term == before.state.current_term,
        result.accepted ==> {
            &&& after.log@.len() == before.log@.len() + 1
            &&& after.log@.drop_last() == before.log@
            &&& after.log@.last().proposal == proposal
            &&& after.log@.last().term == before.state.current_term
            &&& !after.log@.last().committed
            &&& before.log@.len() <= u64::MAX ==> after.log@.last().index == before.log@.len()
        },
        !result.accepted ==> after.log@ == before.log@,
        after.state == before.state,
        after.commit_index == before.commit_index,
        after.last_applied == before.last_applied,
{
    if result.accepted {
        assert(after.log@.drop_last() =~= before.log@);
    }
}

/// Agreement among nodes that may be faulty takes every proposal up, commits none at once,
/// and throws away no vote and no message.
pub proof fn lemma_faulty_nodes_commit_nothing_at_once(
    before: PbftConsensus,
    after: PbftConsensus,
    proposal: ConsensusProposal,
    result: ConsensusResult,
)
    requires
        proposed(ConsensusEngine::Pbft(before), ConsensusEngine::Pbft(after), proposal, result),
    ensures
        result.accepted,
        !result.committed,
        result.error is None,
        result.term == before.view,
        after.view == before.view,
        after.state.proposal == Some(proposal),
        after.state.phase is PrePrepare,
        after.state.prepare_votes == before.state.prepare_votes,
        after.state.commit_votes == before.state.commit_votes,
        after.message_log == before.message_log,
{
}

/// An engine stays of its kind.
pub proof fn lemma_engine_stays_of_its_kind(
    before: ConsensusEngine,
    after: ConsensusEngine,
    proposal: ConsensusProposal,
    result: ConsensusResult,
)
    requires
        proposed(before, after, proposal, result),
    ensures
        before is Raft <==> after is Raft,
        before is Pbft <==> after is Pbft,
{
}

/// A node that steps down follows, without votes, and keeps its term and its own vote.
pub proof fn lemma_stepping_down_keeps_the_term(before: LeadershipState, after: LeadershipState)
    requires
        stepped_down(before, after),
    ensures
        after.current_role == NodeRole::Follower,
        !after.is_candidate,
        after.votes_received@.len() == 0,
        after.current_term == before.current_term,
        after.voted_for == before.voted_for,
        after.election_timeout == before.election_timeout,
        after.last_heartbeat_sent == before.last_heartbeat_sent,
        after.last_heartbeat_received == before.last_heartbeat_received,
{
}

/// A timeout counts as it is while it fits into a signed number, and is negative beyond.
pub proof fn lemma_timeout_wraps_around(timeout: u64)
    ensures
        timeout <= i64::MAX ==> signed_millis(timeout) == timeout,
        timeout > i64::MAX ==> i64::MIN <= signed_millis(timeout) < 0,
        (timeout - signed_millis(timeout)) % 0x1_0000_0000_0000_0000 == 0,
{
}

/// The nodes at work are those of all nodes that are active, and no node at work is left
/// out.
pub proof fn lemma_active_nodes_are_among_all(nodes: Seq<ClusterNode>, i: int)
    requires
        0 <= i < nodes.len(),
    ensures
        all_ids(nodes).contains(nodes[i].id@),
        nodes[i].status == NodeStatus::Active ==> active_ids(nodes).contains(nodes[i].id@),
        active_ids(nodes).subset_of(all_ids(nodes)),
        forall|id: Seq<char>| #[trigger]
            all_ids(nodes).contains(id) ==> exists|j: int|
                0 <= j < nodes.len() && (#[trigger] nodes[j]).id@ == id,
        (forall|j: int|
            0 <= j < nodes.len() && (#[trigger] nodes[j]).id@ == nodes[i].id@ ==> nodes[j].status
                != NodeStatus::Active) ==> !active_ids(nodes).contains(nodes[i].id@),
{
}

/// A broadcast comes from the node that sends it, in its term, and goes to all.
pub proof fn lemma_broadcast_comes_from_its_node(
    message: ConsensusMessage,
    node: Seq<char>,
    message_type: MessageType,
    term: u64,
    now: i64,
)
    requires
        is_broadcast(message, node, message_type, term, now),
    ensures
        message.from@ == node,
        message.to@ == "all"@,
        message.message_type == message_type,
        message.term == term,
        message.timestamp == now,
        message.data@.len() == 0,
        is_uuid_text(message.id@),
{
}

/// An assignment proposes the region for the node, by the proposer in its term.
pub proof fn lemma_assignment_names_region_and_node(
    proposal: ConsensusProposal,
    proposer: Seq<char>,
    term: u64,
    region: RegionId,
    node: String,
    now: i64,
)
    requires
        is_assignment(proposal, proposer, term, region, node, now),
    ensures
        proposal.proposal_type matches ProposalType::RegionAssignment(r, n) && r == region && n
            == node,
        proposal.proposer@ == proposer,
        proposal.term == term,
        proposal.timestamp == now,
        proposal.data@.len() == 0,
{
}

/// A node is in charge of a region exactly where it is on the region's list, and a region
/// without a list has none in charge.
pub proof fn lemma_nodes_in_charge_are_listed(
    state: ClusterState,
    region: Seq<char>,
    node: Seq<char>,
)
    ensures
        state.in_charge(region).contains(node) <==> state.regions@.dom().contains(region)
            && exists|i: int|
            0 <= i < state.regions@[region]@.len() && (#[trigger] state.regions@[region]@[i])@
                == node,
{
    if state.regions@.dom().contains(region) {
        let list = state.regions@[region]@;
        let names = texts(list);
        assert(names.to_set().contains(node) <==> names.contains(node));
        if names.contains(node) {
            let i = choose|i: int| 0 <= i < names.len() && names[i] == node;
            assert(list[i]@ == node);
        }
        if exists|i: int| 0 <= i < list.len() && (#[trigger] list[i])@ == node {
            let i = choose|i: int| 0 <= i < list.len() && (#[trigger] list[i])@ == node;
            assert(names[i] == node);
        }
    }
}

/// A new engine of either kind has agreed on nothing yet.
pub proof fn lemma_new_engine_has_agreed_on_nothing(
    engine: ConsensusEngine,
    algorithm: ConsensusAlgorithm,
)
    requires
        engine.is_new(algorithm),
    ensures
        algorithm is Raft <==> engine is Raft,
        algorithm is Pbft <==> engine is Pbft,
        engine matches ConsensusEngine::Raft(raft) ==> raft.state.role == NodeRole::Follower
            && raft.state.current_term == 0 && raft.state.voted_for is None && raft.log@.len() == 0
            && raft.commit_index == 0 && raft.last_applied == 0,
        engine matches ConsensusEngine::Pbft(pbft) ==> pbft.state.proposal is None && pbft.view == 0
            && pbft.state.prepare_votes@.len() == 0 && pbft.state.commit_votes@.len() == 0
            && pbft.message_log@.len() == 0,
{
}

} // verus!
