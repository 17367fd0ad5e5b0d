//! The consensus feed: turns the changes that processing a vote makes to the
//! consensus state into events, in the order the changes happen.
use crate::block_dag::BlockDAG;
use crate::consensus::{opt_committee, opt_vote, Consensus, ConsensusUpdate, accepted_vote, advance_needs_reorg, block_registered, vote_processed};
use crate::types::{BlockId, Committee, Member};
use crate::vote::{law_vote_order, vote_ge, Vote, VoteStore, VoteView};
use vstd::prelude::*;

verus! {

/// A change of a consensus value: the value before and after.
pub enum ConsensusFeedEvent {
    ChainIndex(Option<u64>, Option<u64>),
    HeaviestMilestoneVote(Option<Vote>, Option<Vote>),
    LatestAcceptedMilestone(Option<Vote>, Option<Vote>),
    Committee(Option<Committee>, Option<Committee>),
}

/// The mathematical value of a feed event.
pub enum FeedEventView {
    ChainIndex(Option<u64>, Option<u64>),
    HeaviestMilestoneVote(Option<VoteView>, Option<VoteView>),
    LatestAcceptedMilestone(Option<VoteView>, Option<VoteView>),
    Committee(Option<(Seq<Member>, u64)>, Option<(Seq<Member>, u64)>),
}

impl View for ConsensusFeedEvent {
    type V = FeedEventView;

    open spec fn view(&self) -> FeedEventView {
        match self {
            ConsensusFeedEvent::ChainIndex(a, b) => FeedEventView::ChainIndex(*a, *b),
            ConsensusFeedEvent::HeaviestMilestoneVote(a, b) => FeedEventView::HeaviestMilestoneVote(opt_vote(*a), opt_vote(*b)),
            ConsensusFeedEvent::LatestAcceptedMilestone(a, b) => FeedEventView::LatestAcceptedMilestone(opt_vote(*a), opt_vote(*b)),
            ConsensusFeedEvent::Committee(a, b) => FeedEventView::Committee(opt_committee(*a), opt_committee(*b)),
        }
    }
}

impl ConsensusFeedEvent {
    /// The name of the event.
    pub fn name(&self) -> (res: &'static str)
        ensures
            self is ChainIndex ==> res@ == "ChainIndexUpdated"@,
            self is HeaviestMilestoneVote ==> res@ == "HeaviestMilestoneVoteUpdated"@,
            self is LatestAcceptedMilestone ==> res@ == "LatestAcceptedMilestoneUpdated"@,
            self is Committee ==> res@ == "CommitteeUpdated"@,
    {
        match self {
            ConsensusFeedEvent::ChainIndex(_, _) => "ChainIndexUpdated",
            ConsensusFeedEvent::HeaviestMilestoneVote(_, _) => "HeaviestMilestoneVoteUpdated",
            ConsensusFeedEvent::LatestAcceptedMilestone(_, _) => "LatestAcceptedMilestoneUpdated",
            ConsensusFeedEvent::Committee(_, _) => "CommitteeUpdated",
        }
    }
}

/// The events for a change of consensus state from `before` to `after`, as
/// reported by `update`: the committee, then the heaviest milestone vote, then
/// the latest accepted milestone, each only when it changed.
pub open spec fn feed_events(before: Consensus, after: Consensus, update: ConsensusUpdate) -> Seq<FeedEventView> {
    (if update.committee_updated {
        seq![FeedEventView::Committee(before.committee_view(), after.committee_view())]
    } else {
        Seq::empty()
    }) + (if update.heaviest_updated {
        seq![FeedEventView::HeaviestMilestoneVote(before.heaviest(), after.heaviest())]
    } else {
        Seq::empty()
    }) + (if update.latest_updated {
        seq![FeedEventView::LatestAcceptedMilestone(before.latest(), after.latest())]
    } else {
        Seq::empty()
    })
}

/// Every event in `events` carries the value before as its first field and
/// the value after as its second: `before` and `after` are the consensus
/// states around the change.
pub open spec fn carries_old_then_new(events: Seq<FeedEventView>, before: Consensus, after: Consensus) -> bool {
    forall|i: int|
        0 <= i < events.len() ==> match #[trigger] events[i] {
            FeedEventView::ChainIndex(a, b) => a == before.chain_index_view() && b == after.chain_index_view(),
            FeedEventView::HeaviestMilestoneVote(a, b) => a == before.heaviest() && b == after.heaviest(),
            FeedEventView::LatestAcceptedMilestone(a, b) => a == before.latest() && b == after.latest(),
            FeedEventView::Committee(a, b) => a == before.committee_view() && b == after.committee_view(),
        }
}

/// `events` holds an event of the committee.
pub open spec fn has_committee_event(events: Seq<FeedEventView>) -> bool {
    exists|i: int| 0 <= i < events.len() && #[trigger] events[i] is Committee
}

/// `events` holds an event of the heaviest milestone vote.
pub open spec fn has_heaviest_event(events: Seq<FeedEventView>) -> bool {
    exists|i: int| 0 <= i < events.len() && #[trigger] events[i] is HeaviestMilestoneVote
}

/// `events` holds an event of the latest accepted milestone.
pub open spec fn has_latest_event(events: Seq<FeedEventView>) -> bool {
    exists|i: int| 0 <= i < events.len() && #[trigger] events[i] is LatestAcceptedMilestone
}

/// `events` holds an event of the chain index.
pub open spec fn has_chain_index_event(events: Seq<FeedEventView>) -> bool {
    exists|i: int| 0 <= i < events.len() && #[trigger] events[i] is ChainIndex
}

/// Law: the events reported for a change carry the value before the change
/// first and the value after it second.
pub proof fn law_feed_events_carry_old_then_new(before: Consensus, after: Consensus, update: ConsensusUpdate)
    ensures
        carries_old_then_new(feed_events(before, after, update), before, after),
{
    let es = feed_events(before, after, update);
    assert forall|i: int| 0 <= i < es.len() implies match #[trigger] es[i] {
        FeedEventView::ChainIndex(a, b) => a == before.chain_index_view() && b == after.chain_index_view(),
        FeedEventView::HeaviestMilestoneVote(a, b) => a == before.heaviest() && b == after.heaviest(),
        FeedEventView::LatestAcceptedMilestone(a, b) => a == before.latest() && b == after.latest(),
        FeedEventView::Committee(a, b) => a == before.committee_view() && b == after.committee_view(),
    } by {
        let c = if update.committee_updated {
            seq![FeedEventView::Committee(before.committee_view(), after.committee_view())]
        } else {
            Seq::empty()
        };
        let h = if update.heaviest_updated {
            seq![FeedEventView::HeaviestMilestoneVote(before.heaviest(), after.heaviest())]
        } else {
            Seq::empty()
        };
        let l = if update.latest_updated {
            seq![FeedEventView::LatestAcceptedMilestone(before.latest(), after.latest())]
        } else {
            Seq::empty()
        };
        assert(es == c + h + l);
        if i < c.len() {
            assert(es[i] == c[i]);
        } else if i < c.len() + h.len() {
            assert(es[i] == h[i - c.len()]);
        } else {
            assert(es[i] == l[i - c.len() - h.len()]);
        }
    }
}

/// Which kinds of event `feed_events` holds: one for each value the update
/// reports as changed, and never one of the chain index.
proof fn lemma_feed_event_kinds(before: Consensus, after: Consensus, update: ConsensusUpdate)
    ensures
        has_committee_event(feed_events(before, after, update)) == update.committee_updated,
        has_heaviest_event(feed_events(before, after, update)) == update.heaviest_updated,
        has_latest_event(feed_events(before, after, update)) == update.latest_updated,
        !has_chain_index_event(feed_events(before, after, update)),
{
    let es = feed_events(before, after, update);
    let c = if update.committee_updated {
        seq![FeedEventView::Committee(before.committee_view(), after.committee_view())]
    } else {
        Seq::empty()
    };
    let h = if update.heaviest_updated {
        seq![FeedEventView::HeaviestMilestoneVote(before.heaviest(), after.heaviest())]
    } else {
        Seq::empty()
    };
    let l = if update.latest_updated {
        seq![FeedEventView::LatestAcceptedMilestone(before.latest(), after.latest())]
    } else {
        Seq::empty()
    };
    assert(es == c + h + l);
    assert forall|i: int| 0 <= i < es.len() implies (#[trigger] es[i] is Committee ==> update.committee_updated)
        && (es[i] is HeaviestMilestoneVote ==> update.heaviest_updated) && (es[i] is LatestAcceptedMilestone
        ==> update.latest_updated) && !(es[i] is ChainIndex) by {
        if i < c.len() {
            assert(es[i] == c[i]);
        } else if i < c.len() + h.len() {
            assert(es[i] == h[i - c.len()]);
        } else {
            assert(es[i] == l[i - c.len() - h.len()]);
        }
    }
    if update.committee_updated {
        assert(es[0] is Committee);
    }
    if update.heaviest_updated {
        assert(es[c.len() as int] is HeaviestMilestoneVote);
    }
    if update.latest_updated {
        assert(es[(c.len() + h.len()) as int] is LatestAcceptedMilestone);
    }
}

/// What processing a vote reports as changed is what changed.
proof fn lemma_update_flags(
    before: Consensus,
    mid: Consensus,
    after: Consensus,
    dag: BlockDAG,
    store: Map<BlockId, VoteView>,
    vote: VoteView,
    update: ConsensusUpdate,
)
    requires
        block_registered(before, mid, vote.source),
        vote_processed(mid, after, dag, store, vote, update),
    ensures
        update.committee_updated <==> before.committee_view() != after.committee_view(),
        update.heaviest_updated <==> before.heaviest() != after.heaviest(),
        update.latest_updated <==> before.latest() != after.latest(),
        before.chain_index_view() == after.chain_index_view(),
{
    law_vote_order(vote, vote, vote);
    match accepted_vote(store, vote) {
        Some(new) => {
            law_vote_order(new, new, new);
        },
        None => {},
    }
}

/// Law: setting the chain index reports the index before first and the new
/// index second, and reports it exactly when it changes.
pub proof fn law_chain_index_event(old_index: Option<u64>, index: u64)
    ensures
        forall|i: int|
            0 <= i < chain_index_events(old_index, index).len() ==> #[trigger] chain_index_events(old_index, index)[i]
                == FeedEventView::ChainIndex(old_index, Some(index)),
        has_chain_index_event(chain_index_events(old_index, index)) <==> old_index != Some(index),
{
    if old_index != Some(index) {
        assert(chain_index_events(old_index, index)[0] is ChainIndex);
    }
}

/// The events for setting the chain index from `old_index` to `index`: one
/// `ChainIndex` event when the value changes, none when it stays.
pub open spec fn chain_index_events(old_index: Option<u64>, index: u64) -> Seq<FeedEventView> {
    if old_index == Some(index) {
        Seq::empty()
    } else {
        seq![FeedEventView::ChainIndex(old_index, Some(index))]
    }
}

/// The consensus feed: reports each change of the consensus state as an event.
pub struct ConsensusFeed {}

impl ConsensusFeed {
    pub fn new() -> (res: ConsensusFeed) {
        ConsensusFeed {}
    }

    /// Sets the chain index of `consensus` to `index` and reports the change.
    pub fn set_chain_index(&self, consensus: &mut Consensus, index: u64) -> (res: Vec<ConsensusFeedEvent>)
        requires
            old(consensus).wf(),
        ensures
            final(consensus).wf(),
            final(consensus).chain_index_view() == Some(index),
            final(consensus).heaviest() == old(consensus).heaviest(),
            final(consensus).latest() == old(consensus).latest(),
            final(consensus).committee_view() == old(consensus).committee_view(),
            final(consensus).acceptance() == old(consensus).acceptance(),
            res@.map_values(|e: ConsensusFeedEvent| e@) == chain_index_events(old(consensus).chain_index_view(), index),
            carries_old_then_new(res@.map_values(|e: ConsensusFeedEvent| e@), *old(consensus), *final(consensus)),
            has_chain_index_event(res@.map_values(|e: ConsensusFeedEvent| e@)) <==> old(consensus).chain_index_view()
                != Some(index),
    {
        let previous = consensus.set_chain_index(index);
        let mut events: Vec<ConsensusFeedEvent> = Vec::new();
        let changed = match previous {
            Some(p) => p != index,
            None => true,
        };
        if changed {
            events.push(ConsensusFeedEvent::ChainIndex(previous, Some(index)));
        }
        assert(events@.map_values(|e: ConsensusFeedEvent| e@) =~= chain_index_events(old(consensus).chain_index_view(), index));
        proof {
            law_chain_index_event(old(consensus).chain_index_view(), index);
        }
        events
    }

    /// Processes the vote of a block with `consensus` (see `Consensus::on_block_vote`)
    /// and reports the changes as feed events.
    pub fn process_vote(&self, consensus: &mut Consensus, dag: &BlockDAG, store: &VoteStore, vote: &Vote) -> (res: (ConsensusUpdate, Vec<ConsensusFeedEvent>))
        requires
            old(consensus).wf(),
            dag.wf(),
            vote@.milestone is Some ==> (accepted_vote(store@, vote@) matches Some(new) ==> (old(consensus).latest() matches Some(o) ==> (vote_ge(o, new) || !advance_needs_reorg(store@, o, new)))),
        ensures
            final(consensus).wf(),
            exists|mid: Consensus|
                block_registered(*old(consensus), mid, vote@.source) && vote_processed(
                    mid,
                    *final(consensus),
                    *dag,
                    store@,
                    vote@,
                    res.0,
                ),
            res.1@.map_values(|e: ConsensusFeedEvent| e@) == feed_events(*old(consensus), *final(consensus), res.0),
            carries_old_then_new(res.1@.map_values(|e: ConsensusFeedEvent| e@), *old(consensus), *final(consensus)),
            has_committee_event(res.1@.map_values(|e: ConsensusFeedEvent| e@)) <==> old(consensus).committee_view()
                != final(consensus).committee_view(),
            has_heaviest_event(res.1@.map_values(|e: ConsensusFeedEvent| e@)) <==> old(consensus).heaviest()
                != final(consensus).heaviest(),
            has_latest_event(res.1@.map_values(|e: ConsensusFeedEvent| e@)) <==> old(consensus).latest()
                != final(consensus).latest(),
            !has_chain_index_event(res.1@.map_values(|e: ConsensusFeedEvent| e@)),
    {
        let committee_before = consensus.committee();
        let heaviest_before = consensus.heaviest_milestone_vote();
        let latest_before = consensus.latest_accepted_milestone();
        let update = consensus.on_block_vote(dag, store, vote);
        let mut events: Vec<ConsensusFeedEvent> = Vec::new();
        if update.committee_updated {
            events.push(ConsensusFeedEvent::Committee(committee_before, consensus.committee()));
        }
        if update.heaviest_updated {
            events.push(ConsensusFeedEvent::HeaviestMilestoneVote(heaviest_before, consensus.heaviest_milestone_vote()));
        }
        if update.latest_updated {
            events.push(ConsensusFeedEvent::LatestAcceptedMilestone(latest_before, consensus.latest_accepted_milestone()));
        }
        assert(events@.map_values(|e: ConsensusFeedEvent| e@) =~= feed_events(*old(consensus), *consensus, update));
        proof {
            let mid = choose|m: Consensus|
                block_registered(*old(consensus), m, vote@.source) && vote_processed(
                    m,
                    *consensus,
                    *dag,
                    store@,
                    vote@,
                    update,
                );
            lemma_update_flags(*old(consensus), mid, *consensus, *dag, store@, vote@, update);
            lemma_feed_event_kinds(*old(consensus), *consensus, update);
            law_feed_events_carry_old_then_new(*old(consensus), *consensus, update);
        }
        (update, events)
    }
}

} // verus!
