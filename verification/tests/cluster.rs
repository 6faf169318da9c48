use horizon_atlas::cluster::{
    ClusterManager, ClusterNetwork, ConnectionState, ConsensusEngine, ConsensusMessage, ConsensusProposal,
    GossipProtocol, MembershipManager, MessageType, PartitionDetector, PbftConsensus, PbftPhase, ProposalType,
    RaftConsensus,
};
use horizon_atlas::config::{ClusterConfig, ConsensusAlgorithm};
use horizon_atlas::errors::AtlasError;
use horizon_atlas::scalar::Scalar;
use horizon_atlas::types::{ClusterNode, NodeRole, NodeStatus, RegionId};

const SECOND: i64 = 1_000_000_000;
const MILLI: i64 = 1_000_000;

fn node(id: &str, status: NodeStatus) -> ClusterNode {
    ClusterNode {
        id: id.to_string(),
        address: "127.0.0.1:1".to_string(),
        role: NodeRole::Follower,
        status,
        last_seen: 0,
        load: Scalar::Number(0),
        regions_managed: vec![],
    }
}

fn config(algorithm: ConsensusAlgorithm, seeds: &[&str]) -> ClusterConfig {
    ClusterConfig {
        node_id: "n1".to_string(),
        seed_nodes: seeds.iter().map(|s| s.to_string()).collect(),
        heartbeat_interval: 100,
        election_timeout: 1000,
        consensus_algorithm: algorithm,
    }
}

fn manager(algorithm: ConsensusAlgorithm) -> ClusterManager {
    match ClusterManager::new(config(algorithm, &["a:1", "b:2"]), 0) {
        Ok(manager) => manager,
        Err(_) => panic!("seed nodes are configured"),
    }
}

fn proposal() -> ConsensusProposal {
    ConsensusProposal {
        id: "p".to_string(),
        proposer: "n1".to_string(),
        term: 0,
        proposal_type: ProposalType::LeaderElection,
        data: vec![],
        timestamp: 0,
    }
}

fn message() -> ConsensusMessage {
    ConsensusMessage {
        id: "m".to_string(),
        from: "n1".to_string(),
        to: "n2".to_string(),
        message_type: MessageType::Heartbeat,
        term: 0,
        data: vec![],
        timestamp: 0,
    }
}

fn cluster_error(text: &str) -> AtlasError {
    AtlasError::Cluster(text.to_string())
}

fn sorted(mut list: Vec<String>) -> Vec<String> {
    list.sort();
    list
}

#[test]
fn nodes_need_a_seed() {
    let error = ClusterManager::new(config(ConsensusAlgorithm::Raft, &[]), 0).err();
    assert_eq!(error, Some(cluster_error("No seed nodes configured")));
    let manager = manager(ConsensusAlgorithm::Raft);
    assert_eq!(manager.local_node.address, "a:1");
    assert_eq!(manager.local_node.status, NodeStatus::Starting);
    assert!(!manager.is_leader());
    assert_eq!(manager.get_leader_id(), None);
    assert_eq!(manager.consensus_engine.get_algorithm(), ConsensusAlgorithm::Raft);
}

#[test]
fn nodes_join_and_leave() {
    let mut manager = manager(ConsensusAlgorithm::Pbft);
    manager.start(7);
    assert!(manager.is_running);
    assert_eq!(manager.local_node.status, NodeStatus::Active);
    let members = manager.membership_manager.get_cluster_members();
    assert_eq!((members.len(), members[0].id.as_str()), (1, "n1"));
    assert_eq!(members[0].status, NodeStatus::Starting);
    let link = manager.network_layer.connections.get("seed").unwrap();
    assert_eq!((link.address.as_str(), link.last_activity), ("b:2", 7));
    assert_eq!(link.connection_state, ConnectionState::Connected);
    manager.refresh_members(members);
    let _ = manager.start_leader_election(8);
    assert!(manager.is_leader());
    manager.stop();
    assert!(!manager.is_running);
    assert!(!manager.is_leader());
    assert_eq!(manager.get_leader_id(), None);
    assert_eq!(manager.local_node.status, NodeStatus::Stopping);
    assert!(manager.membership_manager.get_cluster_members().is_empty());
    assert_eq!(manager.leadership_state.current_term, 1);
}

#[test]
fn a_node_wins_alone_only() {
    for (members, wins) in [(0usize, true), (1, true), (2, false), (3, false)] {
        let mut manager = manager(ConsensusAlgorithm::Raft);
        let names = ["n1", "n2", "n3"];
        manager.refresh_members(names[..members].iter().map(|n| node(n, NodeStatus::Active)).collect());
        let (request, targets) = manager.start_leader_election(5);
        assert_eq!(request.message_type, MessageType::RequestVote);
        assert_eq!((request.from.as_str(), request.to.as_str(), request.term), ("n1", "all", 1));
        assert_eq!(targets, names[..members].iter().skip(1).map(|n| n.to_string()).collect::<Vec<_>>());
        assert_eq!(manager.is_leader(), wins);
        assert_eq!(manager.get_leader_id().is_some(), wins);
        assert_eq!(manager.leadership_state.is_candidate, !wins);
        assert_eq!(manager.leadership_state.votes_received, vec!["n1"]);
        assert_eq!(manager.cluster_state.term, if wins { 1 } else { 0 });
    }
}

#[test]
fn followers_without_leader_stand_for_election_in_time() {
    let mut manager = manager(ConsensusAlgorithm::Raft);
    assert!(!manager.should_start_election(1000 * MILLI));
    assert!(!manager.should_start_election(1001 * MILLI - 1));
    assert!(manager.should_start_election(1001 * MILLI));
    manager.config.election_timeout = u64::MAX;
    assert!(manager.should_start_election(0));
    manager.cluster_state.leader_id = Some("n2".to_string());
    assert!(!manager.should_start_election(5000 * MILLI));
    manager.cluster_state.leader_id = None;
    manager.leadership_state.current_role = NodeRole::Candidate;
    assert!(!manager.should_start_election(5000 * MILLI));
}

#[test]
fn leaders_send_heartbeats_to_the_others() {
    let mut manager = manager(ConsensusAlgorithm::Raft);
    assert!(manager.heartbeat(0).is_none());
    let _ = manager.start_leader_election(0);
    let members = ["n1", "n2", "n3"].iter().map(|n| node(n, NodeStatus::Active)).collect();
    manager.refresh_members(members);
    let (beat, targets) = manager.heartbeat(9).unwrap();
    assert_eq!(beat.message_type, MessageType::Heartbeat);
    assert_eq!((beat.term, beat.timestamp, beat.data.len()), (1, 9, 0));
    assert_eq!(targets, vec!["n2", "n3"]);
    manager.step_down_as_leader();
    assert!(manager.heartbeat(9).is_none());
    assert!(manager.leadership_state.votes_received.is_empty());
}

#[test]
fn only_leaders_propose() {
    let mut manager = manager(ConsensusAlgorithm::Pbft);
    let refused = cluster_error("Only leader can propose consensus");
    assert_eq!(manager.propose_consensus(proposal()).unwrap_err(), refused);
    assert_eq!(
        manager.assign_region(RegionId("r".to_string()), "n1".to_string(), 0),
        Err(cluster_error("Only leader can propose consensus"))
    );
    let _ = manager.start_leader_election(0);
    let outcome = manager.propose_consensus(proposal()).unwrap();
    assert!(outcome.accepted && !outcome.committed && outcome.error.is_none());
    assert_eq!(
        manager.assign_region(RegionId("r".to_string()), "n1".to_string(), 0),
        Err(cluster_error("Failed to commit region assignment"))
    );
    assert_eq!(manager.get_region_assignments().len(), 0);
}

#[test]
fn regions_are_assigned_by_a_leading_engine() {
    let mut manager = manager(ConsensusAlgorithm::Raft);
    let _ = manager.start_leader_election(0);
    let assign = |manager: &mut ClusterManager, node: &str| {
        manager.assign_region(RegionId("r".to_string()), node.to_string(), 0)
    };
    assert_eq!(assign(&mut manager, "n1"), Err(cluster_error("Failed to commit region assignment")));
    if let ConsensusEngine::Raft(engine) = &mut manager.consensus_engine {
        engine.state.role = NodeRole::Leader;
    }
    assert_eq!(assign(&mut manager, "n1"), Ok(()));
    assert_eq!(assign(&mut manager, "n2"), Ok(()));
    assert_eq!(assign(&mut manager, "n1"), Ok(()));
    assert_eq!(manager.get_region_assignments().get("r"), Some(&vec!["n1".to_string(), "n2".to_string()]));
    if let ConsensusEngine::Raft(engine) = &manager.consensus_engine {
        assert_eq!(engine.log.len(), 3);
        assert_eq!(engine.log[2].index, 2);
        assert_eq!(
            engine.log[1].proposal.proposal_type,
            ProposalType::RegionAssignment(RegionId("r".to_string()), "n2".to_string())
        );
    }
}

#[test]
fn engines_with_a_leader() {
    let mut engine = RaftConsensus::new();
    let outcome = engine.propose(proposal());
    assert!(!outcome.accepted && !outcome.committed);
    assert_eq!(outcome.error, Some("Not leader".to_string()));
    engine.state.role = NodeRole::Leader;
    engine.state.current_term = 4;
    let outcome = engine.propose(proposal());
    assert!(outcome.accepted && outcome.committed);
    assert_eq!((outcome.term, engine.log.len(), engine.log[0].committed), (4, 1, false));
    let state = engine.get_current_state();
    assert_eq!((state.term, state.role, state.committed_index), (4, NodeRole::Leader, 0));
    let mut wrapped = ConsensusEngine::Raft(engine);
    wrapped.handle_message(message());
    assert_eq!(wrapped.get_current_state().term, 4);
}

#[test]
fn engines_for_faulty_nodes() {
    let mut engine = PbftConsensus::new();
    engine.state.phase = PbftPhase::Commit;
    let outcome = engine.propose(proposal());
    assert!(outcome.accepted && !outcome.committed);
    assert_eq!(engine.state.phase, PbftPhase::PrePrepare);
    assert!(engine.state.proposal.is_some());
    let mut wrapped = ConsensusEngine::Pbft(engine);
    wrapped.handle_message(message());
    assert!(matches!(&wrapped, ConsensusEngine::Pbft(engine) if engine.message_log.len() == 1));
    assert_eq!(wrapped.get_algorithm(), ConsensusAlgorithm::Pbft);
    assert_eq!(wrapped.get_current_state().role, NodeRole::Follower);
}

#[test]
fn active_nodes_form_one_group() {
    let detector = PartitionDetector::new();
    let nodes = vec![
        node("a", NodeStatus::Failed),
        node("b", NodeStatus::Active),
        node("c", NodeStatus::Active),
        node("b", NodeStatus::Active),
    ];
    let groups = detector.detect_partitions(&nodes);
    assert_eq!(groups.len(), 1);
    assert_eq!(sorted(groups[0].clone()), vec!["b", "c"]);
    let idle = vec![node("a", NodeStatus::Failed), node("b", NodeStatus::Starting)];
    let groups = detector.detect_partitions(&idle);
    assert_eq!(groups.len(), 1);
    assert_eq!(sorted(groups[0].clone()), vec!["a", "b"]);
    assert_eq!(detector.detect_partitions(&vec![]), vec![Vec::<String>::new()]);
}

#[test]
fn more_than_one_group_is_split_brain() {
    let mut manager = manager(ConsensusAlgorithm::Raft);
    let group = |name: &str| vec![name.to_string()];
    manager.note_partitions(vec![group("a"), group("b")]);
    assert!(manager.cluster_state.split_brain_detected);
    assert_eq!(manager.get_cluster_status().partition_groups, 2);
    manager.check_partitions();
    assert!(!manager.cluster_state.split_brain_detected);
    assert_eq!(manager.get_cluster_status().partition_groups, 0);
}

#[test]
fn nodes_fail_and_come_back() {
    let mut manager = manager(ConsensusAlgorithm::Raft);
    manager.refresh_members(vec![node("n1", NodeStatus::Active), node("n2", NodeStatus::Failed)]);
    assert!(manager.check_node_health(31 * SECOND - 1).is_empty());
    assert_eq!(manager.check_node_health(31 * SECOND), vec!["n1"]);
    assert!(manager.check_node_health(31 * SECOND).is_empty());
    assert!(manager.get_cluster_nodes().iter().all(|n| n.status == NodeStatus::Failed));
    assert!(manager.check_node_health(10 * SECOND).is_empty());
    assert!(manager.get_cluster_nodes().iter().all(|n| n.status == NodeStatus::Failed));
    assert!(manager.check_node_health(10 * SECOND - 1).is_empty());
    assert!(manager.get_cluster_nodes().iter().all(|n| n.status == NodeStatus::Active));
}

#[test]
fn the_cluster_at_a_glance() {
    let mut manager = manager(ConsensusAlgorithm::Raft);
    manager.refresh_members(vec![
        node("n1", NodeStatus::Active),
        node("n2", NodeStatus::Failed),
        node("n1", NodeStatus::Active),
    ]);
    let status = manager.get_cluster_status();
    assert_eq!((status.cluster_size, status.healthy_nodes, status.regions_managed), (2, 1, 0));
    assert_eq!((status.node_id.as_str(), status.role, status.term), ("n1", NodeRole::Follower, 0));
}

#[test]
fn members_are_kept() {
    let mut members = MembershipManager::new();
    members.join_cluster(node("a", NodeStatus::Active));
    members.update_node_status("a", NodeStatus::Stopping);
    members.update_node_status("x", NodeStatus::Stopping);
    assert_eq!(members.get_cluster_members()[0].status, NodeStatus::Stopping);
    members.leave_cluster("a");
    assert!(members.get_cluster_members().is_empty());
    assert!(GossipProtocol::new().get_cluster_members().is_empty());
}

#[test]
fn messages_to_connected_nodes() {
    let mut network = ClusterNetwork::new("a:1".to_string());
    assert_eq!(network.send_message("n2", false), Ok(()));
    network.connect_to_node("n2".to_string(), "b:2".to_string(), 0);
    assert_eq!(network.send_message("n2", true), Ok(()));
    assert_eq!(network.send_message("n2", false), Err(cluster_error("Failed to send message")));
}
