use protocol::block_dag::BlockDAG;
use protocol::consensus::{AcceptanceState, Consensus, ConsensusMetadata};
use protocol::consensus_feed::{ConsensusFeed, ConsensusFeedEvent};
use protocol::consensus_round::ConsensusRound;
use protocol::index_set::index_set_to_vec;
use protocol::types::{Block, Committee, Member, NetworkBlock};
use protocol::vote::{Issuer, Milestone, Vote, VoteStore, VotingError};

fn committee() -> Committee {
    Committee::new(
        vec![Member::new(1, 1), Member::new(2, 1), Member::new(3, 1), Member::new(4, 1)],
        2,
    )
}

fn vote(source: u64, issuer: Issuer, round: u64, milestone: Option<Milestone>) -> Vote {
    Vote {
        source,
        issuer,
        round,
        leader_weight: 0,
        committee: committee(),
        milestone,
        referenced_milestones: vec![],
    }
}

fn milestone(height: u64, prev: u64, accepted: u64) -> Option<Milestone> {
    Some(Milestone { height, prev, accepted })
}

fn network_block(id: u64, parents: Vec<u64>, issuer: u64) -> Block {
    Block::NetworkBlock(id, NetworkBlock { parents, issuer_id: issuer })
}

/// Genesis 0, then 1 on 0, then 2 on 1; each block carries a milestone vote
/// that accepts itself.
fn chain() -> (BlockDAG, VoteStore, Consensus, Vec<Vote>) {
    let mut dag = BlockDAG::new();
    dag.insert_block(Block::GenesisBlock(0));
    dag.insert_block(network_block(1, vec![0], 1));
    dag.insert_block(network_block(2, vec![1], 2));
    let votes = vec![
        vote(0, Issuer::Genesis, 0, milestone(0, 0, 0)),
        vote(1, Issuer::User(1), 1, milestone(1, 0, 1)),
        vote(2, Issuer::User(2), 2, milestone(2, 1, 2)),
    ];
    let mut store = VoteStore::new();
    for v in &votes {
        store.insert(v.duplicate());
    }
    let mut consensus = Consensus::new();
    for b in 0..3u64 {
        consensus.register_block(b);
    }
    (dag, store, consensus, votes)
}

fn state(height: u64, round_index: u64) -> Option<ConsensusMetadata> {
    Some(ConsensusMetadata { accepted: Some(AcceptanceState { chain_id: 0, height, round_index }) })
}

#[test]
fn consensus_first_milestone_is_taken_as_is() {
    let (dag, store, mut consensus, votes) = chain();
    let update = consensus.process_vote(&dag, &store, &votes[0]);
    assert!(update.heaviest_updated && update.committee_updated && update.latest_updated);
    assert!(update.accepted.is_none() && update.error.is_none());
    assert_eq!(consensus.heaviest_milestone_vote().unwrap().source, 0);
    assert_eq!(consensus.latest_accepted_milestone().unwrap().source, 0);
    assert_eq!(consensus.committee().unwrap().members.len(), 4);
    assert_eq!(consensus.metadata(0), Some(ConsensusMetadata { accepted: None }));
}

#[test]
fn consensus_advancing_accepts_past_cones_oldest_first() {
    let (dag, store, mut consensus, votes) = chain();
    consensus.process_vote(&dag, &store, &votes[0]);
    let update = consensus.process_vote(&dag, &store, &votes[2]);
    assert!(update.heaviest_updated && update.latest_updated);
    assert!(!update.committee_updated);
    assert!(update.error.is_none());
    let accepted = update.accepted.unwrap();
    assert_eq!(accepted.height, 0);
    let rounds: Vec<Vec<u64>> = accepted.rounds.iter().map(index_set_to_vec).collect();
    assert_eq!(rounds, vec![vec![1, 0], vec![2]]);
    assert_eq!(consensus.metadata(1), state(1, 1));
    assert_eq!(consensus.metadata(0), state(1, 0));
    assert_eq!(consensus.metadata(2), state(2, 0));
    assert!(consensus.metadata(0).unwrap().is_accepted(0));
    assert!(!consensus.metadata(0).unwrap().is_accepted(1));
    assert_eq!(consensus.latest_accepted_milestone().unwrap().source, 2);
}

#[test]
fn consensus_lighter_votes_change_nothing() {
    let (dag, store, mut consensus, votes) = chain();
    consensus.process_vote(&dag, &store, &votes[0]);
    consensus.process_vote(&dag, &store, &votes[2]);
    let update = consensus.process_vote(&dag, &store, &votes[1]);
    assert!(!update.heaviest_updated && !update.latest_updated && !update.committee_updated);
    assert!(update.accepted.is_none() && update.error.is_none());
    assert_eq!(consensus.heaviest_milestone_vote().unwrap().source, 2);
    assert_eq!(consensus.latest_accepted_milestone().unwrap().source, 2);
    assert_eq!(consensus.metadata(0), state(1, 0));
}

#[test]
fn consensus_accepted_blocks_stay_accepted() {
    let (dag, store, mut consensus, votes) = chain();
    consensus.process_vote(&dag, &store, &votes[0]);
    consensus.process_vote(&dag, &store, &votes[1]);
    assert_eq!(consensus.metadata(0), state(1, 0));
    assert_eq!(consensus.metadata(1), state(1, 1));
    consensus.process_vote(&dag, &store, &votes[2]);
    assert_eq!(consensus.metadata(0), state(1, 0));
    assert_eq!(consensus.metadata(1), state(1, 1));
    assert_eq!(consensus.metadata(2), state(2, 0));
}

#[test]
fn consensus_vote_without_milestone_is_ignored() {
    let (dag, store, mut consensus, _) = chain();
    let update = consensus.process_vote(&dag, &store, &vote(1, Issuer::User(1), 5, None));
    assert!(!update.heaviest_updated && !update.latest_updated && !update.committee_updated);
    assert!(consensus.heaviest_milestone_vote().is_none());
}

#[test]
fn consensus_unknown_accepted_vote_is_an_error() {
    let (dag, store, mut consensus, votes) = chain();
    consensus.process_vote(&dag, &store, &votes[0]);
    let update = consensus.process_vote(&dag, &store, &vote(2, Issuer::User(2), 3, milestone(2, 1, 99)));
    assert_eq!(update.error, Some(VotingError::VoteNotFound));
    assert!(update.heaviest_updated);
    assert!(!update.latest_updated);
    assert_eq!(consensus.latest_accepted_milestone().unwrap().source, 0);
}

#[test]
fn consensus_missing_past_cone_block_is_an_error() {
    let (dag, mut store, mut consensus, votes) = chain();
    consensus.process_vote(&dag, &store, &votes[0]);
    store.insert(vote(7, Issuer::User(3), 1, milestone(1, 0, 7)));
    let update = consensus.process_vote(&dag, &store, &vote(7, Issuer::User(3), 1, milestone(1, 0, 7)));
    assert_eq!(update.error, Some(VotingError::BlockNotFound));
    assert_eq!(consensus.latest_accepted_milestone().unwrap().source, 0);
}

#[test]
fn consensus_heavier_vote_with_new_committee_updates_it() {
    let (dag, store, mut consensus, votes) = chain();
    consensus.process_vote(&dag, &store, &votes[0]);
    let mut v = votes[1].duplicate();
    v.committee = Committee::new(vec![Member::new(9, 5)], 3);
    let update = consensus.process_vote(&dag, &store, &v);
    assert!(update.committee_updated && update.heaviest_updated);
    assert_eq!(consensus.committee().unwrap().threshold, 3);
}

#[test]
fn feed_reports_changes_in_order() {
    let (dag, store, mut consensus, votes) = chain();
    let feed = ConsensusFeed::new();
    let (_, events) = feed.process_vote(&mut consensus, &dag, &store, &votes[0]);
    let names: Vec<&str> = events.iter().map(|e| e.name()).collect();
    assert_eq!(
        names,
        vec!["CommitteeUpdated", "HeaviestMilestoneVoteUpdated", "LatestAcceptedMilestoneUpdated"]
    );
    match &events[1] {
        ConsensusFeedEvent::HeaviestMilestoneVote(old, new) => {
            assert!(old.is_none());
            assert_eq!(new.as_ref().unwrap().source, 0);
        },
        _ => panic!("unexpected event"),
    }
    let (_, events) = feed.process_vote(&mut consensus, &dag, &store, &votes[2]);
    let names: Vec<&str> = events.iter().map(|e| e.name()).collect();
    assert_eq!(names, vec!["HeaviestMilestoneVoteUpdated", "LatestAcceptedMilestoneUpdated"]);
    let (_, events) = feed.process_vote(&mut consensus, &dag, &store, &votes[1]);
    assert!(events.is_empty());
    assert_eq!(ConsensusFeedEvent::ChainIndex(None, Some(1)).name(), "ChainIndexUpdated");
}

fn round_vote(round: u64, issuer: Issuer) -> Vote {
    vote(5, issuer, round, milestone(1, 0, 0))
}

#[test]
fn round_completes_when_weight_exceeds_threshold() {
    let c = committee();
    let mut r = ConsensusRound::new();
    assert!(r.on_heaviest_milestone(Some(&round_vote(2, Issuer::User(1)))));
    assert_eq!(r.started(), Some(2));
    r.process_vote(&round_vote(2, Issuer::User(1)), Some(&c));
    r.process_vote(&round_vote(2, Issuer::User(1)), Some(&c));
    assert!(r.has_seen(1));
    assert_eq!(r.seen_weight(), 1);
    assert!(!r.process_vote(&round_vote(2, Issuer::User(2)), Some(&c)));
    assert_eq!(r.seen_weight(), 2);
    assert_eq!(r.completed(), None);
    r.process_vote(&round_vote(2, Issuer::User(9)), Some(&c));
    assert_eq!(r.seen_weight(), 2);
    assert!(r.process_vote(&round_vote(2, Issuer::User(3)), Some(&c)));
    assert_eq!(r.seen_weight(), 3);
    assert_eq!(r.completed(), Some(2));
    assert!(!r.process_vote(&round_vote(2, Issuer::User(4)), Some(&c)));
    assert_eq!(r.seen_weight(), 4);
}

#[test]
fn round_ignores_other_rounds_and_lower_starts() {
    let c = committee();
    let mut r = ConsensusRound::new();
    assert!(!r.on_heaviest_milestone(None));
    assert_eq!(r.started(), None);
    r.update_started(3);
    r.process_vote(&round_vote(2, Issuer::User(1)), Some(&c));
    assert_eq!(r.seen_weight(), 0);
    assert!(!r.update_started(2));
    assert!(!r.update_started(3));
    assert_eq!(r.started(), Some(3));
    r.process_vote(&round_vote(3, Issuer::User(1)), Some(&c));
    assert_eq!(r.seen_weight(), 1);
    assert!(r.update_started(4));
    assert_eq!(r.seen_weight(), 0);
    assert!(!r.has_seen(1));
}

#[test]
fn round_genesis_vote_counts_referenced_issuers() {
    let c = committee();
    let mut r = ConsensusRound::new();
    r.update_started(0);
    let mut v = round_vote(0, Issuer::Genesis);
    v.referenced_milestones = vec![1, 2, 2, 3, 7];
    r.process_vote(&v, Some(&c));
    assert_eq!(r.seen_weight(), 3);
    assert_eq!(r.completed(), Some(0));
}

#[test]
fn round_completed_never_decreases() {
    let mut r = ConsensusRound::new();
    r.update_started(5);
    r.update_seen_weight(5, 3, 2);
    assert_eq!(r.completed(), Some(5));
    r.update_started(6);
    r.update_seen_weight(4, 3, 2);
    assert_eq!(r.completed(), Some(5));
    r.update_seen_weight(6, 1, 2);
    assert_eq!(r.completed(), Some(6));
}

#[test]
fn feed_reports_chain_index_changes() {
    let mut consensus = Consensus::new();
    let feed = ConsensusFeed::new();
    let events = feed.set_chain_index(&mut consensus, 4);
    assert_eq!(events.len(), 1);
    assert!(matches!(events[0], ConsensusFeedEvent::ChainIndex(None, Some(4))));
    let events = feed.set_chain_index(&mut consensus, 9);
    assert_eq!(events.len(), 1);
    assert!(matches!(events[0], ConsensusFeedEvent::ChainIndex(Some(4), Some(9))));
    assert_eq!(events[0].name(), "ChainIndexUpdated");
    assert!(feed.set_chain_index(&mut consensus, 9).is_empty());
    assert_eq!(consensus.chain_index(), Some(9));
}

#[test]
fn consensus_registers_the_block_of_a_processed_vote() {
    let (dag, store, _, votes) = chain();
    let mut consensus = Consensus::new();
    assert_eq!(consensus.metadata(0), None);
    consensus.on_block_vote(&dag, &store, &votes[0]);
    assert_eq!(consensus.metadata(0), Some(ConsensusMetadata { accepted: None }));
    let feed = ConsensusFeed::new();
    let mut fresh = Consensus::new();
    feed.process_vote(&mut fresh, &dag, &store, &votes[0]);
    assert_eq!(fresh.metadata(0), Some(ConsensusMetadata { accepted: None }));
}

#[test]
fn round_without_start_or_committee_counts_nothing() {
    let c = committee();
    let mut r = ConsensusRound::new();
    assert!(!r.process_vote(&round_vote(2, Issuer::User(1)), Some(&c)));
    assert_eq!(r.seen_weight(), 0);
    r.update_started(2);
    assert!(!r.process_vote(&round_vote(2, Issuer::User(1)), None));
    assert_eq!(r.seen_weight(), 0);
    assert!(!r.has_seen(1));
}
