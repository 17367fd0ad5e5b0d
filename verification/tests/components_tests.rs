use protocol::block_dag::BlockDAG;
use protocol::block_factory::BlockFactory;
use protocol::committee_selection::{fixed_committee, CommitteeSelection};
use protocol::config::{Config, ValidatorConfigParams};
use protocol::inbox::Inbox;
use protocol::networking::{Networking, WorkerAction};
use protocol::outbox::Outbox;
use protocol::sim;
use protocol::simulator;
use protocol::tip_selection::TipSelection;
use protocol::types::{Block, Committee, Member, NetworkBlock};
use protocol::validator::Validator;
use protocol::virtual_voting::{VirtualVoting, VoteDecision};
use protocol::vote::{Issuer, Milestone, Vote, VoteStore, VotingError};

fn network_block(id: u64, parents: Vec<u64>, issuer: u64) -> Block {
    Block::NetworkBlock(id, NetworkBlock { parents, issuer_id: issuer })
}

fn committee() -> Committee {
    Committee::new(vec![Member::new(1, 1), Member::new(2, 1)], 1)
}

fn vote(source: u64, round: u64) -> Vote {
    Vote {
        source,
        issuer: Issuer::User(source),
        round,
        leader_weight: 0,
        committee: committee(),
        milestone: Some(Milestone { height: round, prev: 0, accepted: 0 }),
        referenced_milestones: vec![],
    }
}

fn sorted(mut v: Vec<u64>) -> Vec<u64> {
    v.sort();
    v
}

fn sample_dag() -> BlockDAG {
    let mut dag = BlockDAG::new();
    dag.insert_block(Block::GenesisBlock(0));
    dag.insert_block(network_block(1, vec![0], 1));
    dag.insert_block(network_block(2, vec![0], 2));
    dag.insert_block(network_block(3, vec![1, 2, 1], 1));
    dag
}

#[test]
fn virtual_voting_gathers_parent_votes_once_each() {
    let dag = sample_dag();
    let mut store = VoteStore::new();
    store.insert(vote(1, 1));
    store.insert(vote(2, 1));
    let votes = VirtualVoting::referenced_votes(&dag, &store, 3).unwrap();
    let sources: Vec<u64> = votes.iter().map(|v| v.source).collect();
    assert_eq!(sources, vec![1, 2]);
}

#[test]
fn virtual_voting_errors() {
    let mut dag = sample_dag();
    let mut store = VoteStore::new();
    store.insert(vote(1, 1));
    assert_eq!(VirtualVoting::referenced_votes(&dag, &store, 9).err(), Some(VotingError::MetadataNotFound));
    assert_eq!(VirtualVoting::referenced_votes(&dag, &store, 3).err(), Some(VotingError::VoteNotFound));
    dag.insert_block(network_block(5, vec![1, 4], 2));
    assert_eq!(VirtualVoting::referenced_votes(&dag, &store, 5).err(), Some(VotingError::BlockNotFound));
}

#[test]
fn virtual_voting_decisions() {
    let dag = sample_dag();
    let mut store = VoteStore::new();
    store.insert(vote(0, 0));
    assert!(matches!(
        VirtualVoting::on_block_available(&dag, &store, &Block::GenesisBlock(0)),
        VoteDecision::Genesis
    ));
    match VirtualVoting::on_block_available(&dag, &store, &network_block(1, vec![0], 1)) {
        VoteDecision::Build(issuer, votes) => {
            assert_eq!(issuer, 1);
            assert_eq!(votes.len(), 1);
            assert_eq!(votes[0].source, 0);
        },
        _ => panic!("expected a vote to build"),
    }
    assert!(matches!(
        VirtualVoting::on_block_available(&dag, &store, &network_block(3, vec![1, 2], 1)),
        VoteDecision::Failed(VotingError::VoteNotFound)
    ));
}

#[test]
fn simulator_network_routes_and_gossips() {
    let mut net = simulator::Network::new();
    let a = net.new_endpoint();
    let b = net.new_endpoint();
    let c = net.new_endpoint();
    assert_eq!((a.network_id, b.network_id, c.network_id), (0, 1, 2));
    assert!(net.send(1));
    assert!(!net.send(7));
    assert_eq!(sorted(net.gossip(0)), vec![1, 2]);
    assert_eq!(sorted(net.gossip(9)), vec![0, 1, 2]);
    net.drop_endpoint(b);
    assert!(!net.send(1));
    assert_eq!(sorted(net.gossip(0)), vec![2]);
    let d = net.new_endpoint();
    assert_eq!(d.network_id, 3);
}

#[test]
fn sim_network_forwards_to_peers_in_joining_order() {
    let mut net = sim::Network::new();
    let ids: Vec<usize> = (0..4).map(|_| net.endpoint()).collect();
    assert_eq!(ids, vec![0, 1, 2, 3]);
    assert_eq!(net.peers(2), vec![0, 1, 3]);
    assert_eq!(net.peers(8), vec![0, 1, 2, 3]);
}

#[test]
fn block_factory_approves_current_tips() {
    let dag = sample_dag();
    let mut tips = TipSelection::new();
    tips.init(0);
    tips.process_block(&dag, 1).unwrap();
    tips.process_block(&dag, 2).unwrap();
    let factory = BlockFactory::new();
    let block = factory.create_block(&tips, 10, 4);
    assert_eq!(block.id(), 10);
    assert_eq!(sorted(block.parents()), vec![1, 2]);
    match block {
        Block::NetworkBlock(_, nb) => assert_eq!(nb.issuer_id, 4),
        _ => panic!("expected a network block"),
    }
    assert_eq!(sorted(factory.new_block(&tips, 11, 4).parents()), vec![1, 2]);
}

#[test]
fn validator_issues_blocks_into_the_inbox() {
    let config = Config::<fn(Option<ValidatorConfigParams>, protocol::plugins::Plugins) -> protocol::plugins::Plugins>::new().with_params(ValidatorConfigParams { validator_id: 3 });
    let validator = Validator::new(&config);
    assert_eq!(validator.validator_id(), 3);
    let mut tips = TipSelection::new();
    tips.init(0);
    let factory = BlockFactory::new();
    let mut inbox = Inbox::new();
    assert!(validator.on_round_completed(&factory, &tips, &mut inbox, 12).is_ok());
    let b = inbox.receive().unwrap();
    assert_eq!(b.id(), 12);
    assert_eq!(b.parents(), vec![0]);
    inbox.shutdown();
    let refused = validator.on_round_completed(&factory, &tips, &mut inbox, 13);
    assert_eq!(refused.err().unwrap().id(), 13);
    assert!(inbox.receive().is_none());
}

#[test]
fn inbox_is_first_in_first_out_and_closes() {
    let mut inbox = Inbox::new();
    assert!(inbox.send(Block::GenesisBlock(1)).is_ok());
    assert!(inbox.send(Block::GenesisBlock(2)).is_ok());
    assert_eq!(inbox.receive().unwrap().id(), 1);
    inbox.shutdown();
    let back = inbox.send(Block::GenesisBlock(3));
    assert_eq!(back.err().unwrap().id(), 3);
    assert_eq!(inbox.receive().unwrap().id(), 2);
    assert!(inbox.receive().is_none());
}

#[test]
fn outbox_forwards_until_shutdown() {
    let mut outbox = Outbox::new();
    assert!(outbox.forward(Block::GenesisBlock(4)));
    assert!(outbox.forward(Block::GenesisBlock(5)));
    outbox.shutdown();
    assert!(!outbox.forward(Block::GenesisBlock(6)));
    assert_eq!(outbox.receive().unwrap().id(), 4);
    assert_eq!(outbox.receive().unwrap().id(), 5);
    assert!(outbox.receive().is_none());
}

#[test]
fn networking_restarts_workers_on_reconnect() {
    let mut n = Networking::new();
    assert!(!n.disconnect());
    assert_eq!(n.connect(), vec![WorkerAction::StartWorkers]);
    assert_eq!(n.connect(), vec![WorkerAction::StopWorkers, WorkerAction::StartWorkers]);
    assert!(n.shutdown());
    assert!(!n.disconnect());
}

fn first_only(_vote: Option<&Vote>) -> Committee {
    Committee::new(vec![Member::new(1, 1)], 0)
}

fn vote_committee(vote: Option<&Vote>) -> Committee {
    match vote {
        Some(v) => Committee::new(vec![Member::new(v.source, 7)], 3),
        None => Committee::new(vec![], 0),
    }
}

#[test]
fn committee_selection_fixed_and_custom() {
    let fixed = committee();
    assert_eq!(fixed_committee(&fixed, None).members.len(), 2);
    let mut v = vote(1, 1);
    v.committee = Committee::new(vec![Member::new(5, 2)], 1);
    assert_eq!(fixed_committee(&fixed, Some(&v)).members, vec![Member::new(5, 2)]);
    let selection: CommitteeSelection<fn(Option<&Vote>) -> Committee> = CommitteeSelection::FixedCommittee(committee());
    assert_eq!(selection.dispatch(None).members.len(), 2);
    let custom: CommitteeSelection<fn(Option<&Vote>) -> Committee> = CommitteeSelection::Custom(first_only);
    assert_eq!(custom.dispatch(Some(&v)).members, vec![Member::new(1, 1)]);
    let by_vote: CommitteeSelection<fn(Option<&Vote>) -> Committee> = CommitteeSelection::Custom(vote_committee);
    assert_eq!(by_vote.dispatch(Some(&v)).members, vec![Member::new(1, 7)]);
    assert!(by_vote.dispatch(None).members.is_empty());
    let default: CommitteeSelection<fn(Option<&Vote>) -> Committee> = Default::default();
    let c = default.dispatch(None);
    assert_eq!(c.members.iter().map(|m| m.id).collect::<Vec<_>>(), vec![1, 2, 3, 4]);
    assert_eq!(c.consensus_threshold(), 2);
}

fn round_zero_vote(source: u64, issuer: u64, round: u64, referenced: Vec<Vote>) -> Result<Vote, VotingError> {
    if referenced.is_empty() {
        return Err(VotingError::NoMilestone);
    }
    Ok(Vote {
        source,
        issuer: Issuer::User(issuer),
        round,
        leader_weight: referenced.len() as u64,
        committee: committee(),
        milestone: None,
        referenced_milestones: referenced.iter().map(|v| v.source).collect(),
    })
}

fn genesis_vote(source: u64) -> Vote {
    Vote {
        source,
        issuer: Issuer::Genesis,
        round: 0,
        leader_weight: 0,
        committee: committee(),
        milestone: Some(Milestone { height: 0, prev: source, accepted: source }),
        referenced_milestones: vec![],
    }
}

#[test]
fn virtual_voting_builds_and_attaches_votes() {
    let mut dag = sample_dag();
    let mut store = VoteStore::new();
    let g = VirtualVoting::attach_vote(&dag, &mut store, &Block::GenesisBlock(0), round_zero_vote, genesis_vote).unwrap();
    assert!(matches!(g.issuer, Issuer::Genesis));
    assert!(matches!(store.get(0).unwrap().issuer, Issuer::Genesis));
    let v1 = VirtualVoting::attach_vote(&dag, &mut store, &network_block(1, vec![0], 1), round_zero_vote, genesis_vote)
        .unwrap();
    assert_eq!((v1.source, v1.round, v1.referenced_milestones.clone()), (1, 0, vec![0]));
    let stored = store.get(1).unwrap();
    assert!(matches!(stored.issuer, Issuer::User(1)));
    assert_eq!(stored.referenced_milestones, vec![0]);
    assert_eq!(
        VirtualVoting::attach_vote(&dag, &mut store, &network_block(3, vec![1, 2], 1), round_zero_vote, genesis_vote)
            .err(),
        Some(VotingError::VoteNotFound)
    );
    assert!(store.get(3).is_err());
    dag.insert_block(network_block(8, vec![], 4));
    assert_eq!(
        VirtualVoting::attach_vote(&dag, &mut store, &network_block(8, vec![], 4), round_zero_vote, genesis_vote)
            .err(),
        Some(VotingError::NoMilestone)
    );
    assert!(store.get(8).is_err());
}

#[test]
fn outbox_forwards_once_tip_selection_processed_the_block() {
    let dag = sample_dag();
    let mut tips = TipSelection::new();
    let mut outbox = Outbox::new();
    let (tips_result, queued) = outbox.on_block_available(&mut tips, &dag, Block::GenesisBlock(0));
    assert!(tips_result.is_ok() && queued);
    let (tips_result, queued) = outbox.on_block_available(&mut tips, &dag, network_block(9, vec![0], 1));
    assert_eq!(tips_result, Err(protocol::block_dag::DagError::MetadataNotFound));
    assert!(!queued);
    assert_eq!(tips.get(), vec![0]);
    outbox.shutdown();
    let (tips_result, queued) = outbox.on_block_available(&mut tips, &dag, network_block(1, vec![0], 1));
    assert!(tips_result.is_ok() && !queued);
    assert_eq!(tips.get(), vec![1]);
    assert_eq!(outbox.receive().unwrap().id(), 0);
    assert!(outbox.receive().is_none());
}

#[test]
fn validator_issues_only_when_the_completed_round_changes() {
    let config = Config::<fn(Option<ValidatorConfigParams>, protocol::plugins::Plugins) -> protocol::plugins::Plugins>::new().with_params(ValidatorConfigParams { validator_id: 5 });
    let validator = Validator::new(&config);
    let mut tips = TipSelection::new();
    tips.init(0);
    let factory = BlockFactory::new();
    let mut inbox = Inbox::new();
    assert!(validator.on_round_update(false, &factory, &tips, &mut inbox, 20).is_none());
    assert!(inbox.receive().is_none());
    assert!(matches!(validator.on_round_update(true, &factory, &tips, &mut inbox, 21), Some(Ok(()))));
    assert_eq!(inbox.receive().unwrap().id(), 21);
}

#[test]
fn simulator_ids_are_not_reused() {
    let mut net = simulator::Network::new();
    let a = net.new_endpoint();
    let b = net.new_endpoint();
    let a_id = a.network_id;
    net.drop_endpoint(a);
    let c = net.new_endpoint();
    assert_ne!(c.network_id, a_id);
    assert_ne!(c.network_id, b.network_id);
    assert!(!net.send(a_id));
}

#[test]
fn validator_without_parameters_is_built_and_waits() {
    let config = Config::<fn(Option<ValidatorConfigParams>, protocol::plugins::Plugins) -> protocol::plugins::Plugins>::new();
    let validator = Validator::new(&config);
    assert!(validator.params.is_none());
    let tips = TipSelection::new();
    let mut inbox = Inbox::new();
    assert!(validator.on_round_update(false, &BlockFactory::new(), &tips, &mut inbox, 1).is_none());
    assert!(inbox.receive().is_none());
}

#[test]
fn sim_peers_are_distinct_and_exclude_the_sender() {
    let mut net = sim::Network::new();
    for _ in 0..5 {
        net.endpoint();
    }
    let peers = net.peers(3);
    assert_eq!(peers, vec![0, 1, 2, 4]);
    let mut dedup = peers.clone();
    dedup.dedup();
    assert_eq!(dedup, peers);
}
