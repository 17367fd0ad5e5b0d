//! Milestone consensus: tracks the heaviest milestone vote, the committee it
//! names and the latest accepted milestone, and orders the blocks that each
//! newly accepted milestone confirms.
use crate::block_dag::{BlockDAG, DagError};
use crate::index_set::{index_set_items, index_set_to_vec};
use crate::types::{BlockId, Committee, Member};
use crate::vote::{law_vote_order, lemma_chain_len, milestone_chain, vote_ge, Vote, VoteStore, VoteView, VotingError};
use indexmap::IndexSet;
use std::collections::HashMap;
use vstd::prelude::*;

verus! {

broadcast use vstd::std_specs::hash::group_hash_axioms;

/// Where an accepted block stands: the chain, the height of the milestone that
/// accepted it and its position among the blocks that milestone accepted.
#[derive(Clone, Copy, PartialEq, Eq, Structural, Debug)]
pub struct AcceptanceState {
    pub chain_id: u64,
    pub height: u64,
    pub round_index: u64,
}

/// The consensus data of one block.
#[derive(Clone, Copy, PartialEq, Eq, Structural, Debug)]
pub struct ConsensusMetadata {
    pub accepted: Option<AcceptanceState>,
}

/// The block is accepted in chain `chain_id`.
pub open spec fn accepted_in(a: Option<AcceptanceState>, chain_id: u64) -> bool {
    a is Some && a->0.chain_id == chain_id
}

impl ConsensusMetadata {
    /// Whether the block is accepted in chain `chain_id`.
    pub fn is_accepted(&self, chain_id: u64) -> (res: bool)
        ensures
            res == accepted_in(self.accepted, chain_id),
    {
        match self.accepted {
            Some(a) => a.chain_id == chain_id,
            None => false,
        }
    }
}

/// The blocks that newly accepted milestones confirm: for each milestone, oldest
/// first, the blocks of its past cone not accepted before.
pub struct AcceptedBlocks {
    pub height: u64,
    pub rounds: Vec<IndexSet<u64>>,
}

/// The visit table for past cones: a block with consensus metadata is visited
/// while it is not accepted in chain 0.
pub open spec fn visit_table(acceptance: Map<BlockId, Option<AcceptanceState>>) -> Map<BlockId, bool> {
    Map::new(|b: BlockId| acceptance.contains_key(b), |b: BlockId| !accepted_in(acceptance[b], 0))
}

/// `visit` after the blocks of `cone` are accepted.
pub open spec fn mark_accepted(visit: Map<BlockId, bool>, cone: Set<BlockId>) -> Map<BlockId, bool> {
    Map::new(|b: BlockId| visit.contains_key(b), |b: BlockId| visit[b] && !cone.contains(b))
}

/// Taking the past cone of `s` fails.
pub open spec fn cone_fails(dag: BlockDAG, visit: Map<BlockId, bool>, s: BlockId) -> bool {
    !dag.is_stored(s) || !visit.contains_key(s) || (visit[s] && dag.cone_has_gap(visit, s))
}

/// The past cone of `s`, as a set.
pub open spec fn cone_set(dag: BlockDAG, visit: Map<BlockId, bool>, s: BlockId) -> Set<BlockId> {
    Set::new(|x: BlockId| dag.in_cone(visit, s, x))
}

/// The cones of the blocks `srcs` taken one after the other, each block of a
/// cone accepted before the next cone is taken; `None` when one of them fails.
pub open spec fn cone_rounds(dag: BlockDAG, visit: Map<BlockId, bool>, srcs: Seq<BlockId>) -> Option<
    Seq<Set<BlockId>>,
>
    decreases srcs.len(),
{
    if srcs.len() == 0 {
        Some(Seq::empty())
    } else if cone_fails(dag, visit, srcs[0]) {
        None
    } else {
        let c = cone_set(dag, visit, srcs[0]);
        match cone_rounds(dag, mark_accepted(visit, c), srcs.drop_first()) {
            Some(rest) => Some(seq![c] + rest),
            None => None,
        }
    }
}

/// The cones of the blocks `srcs` in walk order, taken one after the other, each
/// block of a cone accepted before the next cone is taken; or the error of the
/// first walk that fails.
pub open spec fn cone_walks(dag: BlockDAG, visit: Map<BlockId, bool>, srcs: Seq<BlockId>) -> Result<
    Seq<Seq<BlockId>>,
    DagError,
>
    decreases srcs.len(),
{
    if srcs.len() == 0 {
        Ok(Seq::empty())
    } else {
        match dag.past_cone_walk(visit, srcs[0]) {
            Ok(items) => match cone_walks(dag, mark_accepted(visit, items.to_set()), srcs.drop_first()) {
                Ok(rest) => Ok(seq![items] + rest),
                Err(e) => Err(e),
            },
            Err(e) => Err(e),
        }
    }
}

/// The walks of `cone_walks` that succeed before the first one that fails; all
/// of them when none fails.
pub open spec fn cone_walks_done(dag: BlockDAG, visit: Map<BlockId, bool>, srcs: Seq<BlockId>) -> Seq<Seq<BlockId>>
    decreases srcs.len(),
{
    if srcs.len() == 0 {
        Seq::empty()
    } else {
        match dag.past_cone_walk(visit, srcs[0]) {
            Ok(items) => seq![items] + cone_walks_done(dag, mark_accepted(visit, items.to_set()), srcs.drop_first()),
            Err(_) => Seq::empty(),
        }
    }
}

/// `after` is `before` with the blocks of `rounds` accepted: the block at
/// position `p` of round `k` at height `height + k + 1`, with its round index
/// counted from the end of the round; every other block keeps its data.
pub open spec fn records_rounds(
    before: Map<BlockId, Option<AcceptanceState>>,
    after: Map<BlockId, Option<AcceptanceState>>,
    height: u64,
    rounds: Seq<Seq<BlockId>>,
) -> bool {
    &&& after.dom() == before.dom()
    &&& forall|k: int| 0 <= k < rounds.len() ==> (#[trigger] rounds[k]).no_duplicates()
    &&& forall|k: int, p: int|
        0 <= k < rounds.len() && 0 <= p < rounds[k].len() ==> after[#[trigger] rounds[k][p]]
            == Some(
            AcceptanceState {
                chain_id: 0,
                height: (height + k + 1) as u64,
                round_index: (rounds[k].len() - 1 - p) as u64,
            },
        )
    &&& forall|x: BlockId|
        #[trigger] before.contains_key(x) && (forall|k: int|
            0 <= k < rounds.len() ==> !rounds[k].contains(x)) ==> after[x] == before[x]
}

/// The voting error for a failed walk of the DAG.
pub open spec fn walk_error(e: DagError) -> VotingError {
    match e {
        DagError::BlockNotFound => VotingError::BlockNotFound,
        DagError::MetadataNotFound => VotingError::MetadataNotFound,
    }
}

/// The blocks carrying the milestones `ms`, oldest (last) first.
pub open spec fn sources_oldest_first(ms: Seq<VoteView>) -> Seq<BlockId> {
    Seq::new(ms.len(), |k: int| ms[ms.len() - 1 - k].source)
}

/// An optional vote, as a mathematical value.
pub open spec fn opt_vote(v: Option<Vote>) -> Option<VoteView> {
    match v {
        Some(x) => Some(x@),
        None => None,
    }
}

/// An optional committee, as its members and threshold.
pub open spec fn opt_committee(c: Option<Committee>) -> Option<(Seq<Member>, u64)> {
    match c {
        Some(x) => Some((x.members@, x.threshold)),
        None => None,
    }
}

/// The items of each round, in order.
pub open spec fn round_items(rounds: Seq<IndexSet<u64>>) -> Seq<Seq<BlockId>> {
    rounds.map_values(|r: IndexSet<u64>| index_set_items(r))
}

/// Taking the cones of the milestones `ms` from the acceptance `before` fails.
pub open spec fn acceptance_fails(dag: BlockDAG, before: Map<BlockId, Option<AcceptanceState>>, ms: Seq<VoteView>) -> bool {
    cone_rounds(dag, visit_table(before), sources_oldest_first(ms)) is None
}

/// `rounds` are the cones of the milestones `ms`, oldest first, each block of
/// round `k` at position `p` recorded in `after` at height `height + k + 1` with
/// round index counted from the end of the round; other blocks keep their data.
pub open spec fn records_acceptance(
    dag: BlockDAG,
    before: Map<BlockId, Option<AcceptanceState>>,
    after: Map<BlockId, Option<AcceptanceState>>,
    height: u64,
    ms: Seq<VoteView>,
    rounds: Seq<Seq<BlockId>>,
) -> bool {
    let sets = cone_rounds(dag, visit_table(before), sources_oldest_first(ms))->0;
    &&& after.dom() == before.dom()
    &&& rounds.len() == ms.len()
    &&& forall|k: int|
        0 <= k < rounds.len() ==> (#[trigger] rounds[k]).no_duplicates() && rounds[k].to_set()
            == sets[k]
    &&& forall|k: int, p: int|
        0 <= k < rounds.len() && 0 <= p < rounds[k].len() ==> after[#[trigger] rounds[k][p]]
            == Some(
            AcceptanceState {
                chain_id: 0,
                height: (height + k + 1) as u64,
                round_index: (rounds[k].len() - 1 - p) as u64,
            },
        )
    &&& forall|x: BlockId|
        #[trigger] before.contains_key(x) && (forall|k: int|
            0 <= k < rounds.len() ==> !rounds[k].contains(x)) ==> after[x] == before[x]
}

/// Advancing acceptance from `old` to `new` would need a reorganisation of the
/// milestone chain, which is not supported: `new` is not higher than `old`, or
/// the chain below `new` does not lead back to `old`.
pub open spec fn advance_needs_reorg(store: Map<BlockId, VoteView>, old: VoteView, new: VoteView) -> bool {
    &&& old.milestone is Some
    &&& new.milestone is Some
    &&& (new.milestone->0.height <= old.milestone->0.height || match milestone_chain(
        store,
        new,
        (new.milestone->0.height - old.milestone->0.height) as nat,
    ) {
        Some(ms) => ms.last().milestone is Some && store.contains_key(ms.last().milestone->0.prev)
            && store[ms.last().milestone->0.prev].source != old.source,
        None => false,
    })
}

/// The milestones from `new` down to just above `old`, when they can be read.
pub open spec fn advance_chain(store: Map<BlockId, VoteView>, old: VoteView, new: VoteView) -> Option<Seq<VoteView>> {
    if old.milestone is Some && new.milestone is Some {
        match milestone_chain(
            store,
            new,
            (new.milestone->0.height - old.milestone->0.height) as nat,
        ) {
            Some(ms) => if ms.last().milestone is Some && store.contains_key(ms.last().milestone->0.prev) {
                Some(ms)
            } else {
                None
            },
            None => None,
        }
    } else {
        None
    }
}

/// The vote that `vote`'s milestone accepts, if it can be read.
pub open spec fn accepted_vote(store: Map<BlockId, VoteView>, vote: VoteView) -> Option<VoteView> {
    match vote.milestone {
        Some(m) => if store.contains_key(m.accepted) {
            Some(store[m.accepted])
        } else {
            None
        },
        None => None,
    }
}

/// Once `visit` marks `x` as not to be visited, no cone taken from it holds `x`.
proof fn lemma_cones_skip(dag: BlockDAG, visit: Map<BlockId, bool>, srcs: Seq<BlockId>, x: BlockId)
    requires
        cone_rounds(dag, visit, srcs) is Some,
        visit.contains_key(x),
        !visit[x],
    ensures
        cone_rounds(dag, visit, srcs)->0.len() == srcs.len(),
        forall|k: int|
            0 <= k < srcs.len() ==> !(#[trigger] cone_rounds(dag, visit, srcs)->0[k]).contains(x),
    decreases srcs.len(),
{
    if srcs.len() > 0 {
        let c = cone_set(dag, visit, srcs[0]);
        if c.contains(x) {
            let path = choose|path: Seq<BlockId>|
                #[trigger] dag.is_visit_path(visit, path) && path[0] == srcs[0] && path.last() == x;
            assert(visit[path[path.len() - 1]]);
        }
        let next = mark_accepted(visit, c);
        lemma_cones_skip(dag, next, srcs.drop_first(), x);
        let sets = cone_rounds(dag, visit, srcs)->0;
        let rest = cone_rounds(dag, next, srcs.drop_first())->0;
        assert(sets == seq![c] + rest);
        assert forall|k: int| 0 <= k < srcs.len() implies !(#[trigger] sets[k]).contains(x) by {
            if k > 0 {
                assert(sets[k] == rest[k - 1]);
            }
        }
    }
}

/// Law: acceptance is final. A block that was accepted keeps its acceptance
/// data when further milestones are accepted.
pub proof fn law_acceptance_is_final(
    dag: BlockDAG,
    before: Map<BlockId, Option<AcceptanceState>>,
    after: Map<BlockId, Option<AcceptanceState>>,
    height: u64,
    ms: Seq<VoteView>,
    rounds: Seq<Seq<BlockId>>,
    x: BlockId,
)
    requires
        !acceptance_fails(dag, before, ms),
        records_acceptance(dag, before, after, height, ms, rounds),
        before.contains_key(x),
        accepted_in(before[x], 0),
    ensures
        after[x] == before[x],
{
    let srcs = sources_oldest_first(ms);
    let visit = visit_table(before);
    lemma_cones_skip(dag, visit, srcs, x);
    let sets = cone_rounds(dag, visit, srcs)->0;
    assert forall|k: int| 0 <= k < rounds.len() implies !(#[trigger] rounds[k]).contains(x) by {
        assert(srcs.len() == ms.len());
        if rounds[k].contains(x) {
            assert(rounds[k].to_set().contains(x));
            assert(sets[k].contains(x));
        }
    }
}

/// Law: acceptance orders blocks totally. Two different places in the accepted
/// rounds hold different blocks; blocks of different rounds are recorded at
/// different heights.
pub proof fn law_acceptance_positions_unique(
    dag: BlockDAG,
    before: Map<BlockId, Option<AcceptanceState>>,
    after: Map<BlockId, Option<AcceptanceState>>,
    height: u64,
    ms: Seq<VoteView>,
    rounds: Seq<Seq<BlockId>>,
    k1: int,
    p1: int,
    k2: int,
    p2: int,
)
    requires
        records_acceptance(dag, before, after, height, ms, rounds),
        height + ms.len() <= u64::MAX,
        0 <= k1 < rounds.len(),
        0 <= p1 < rounds[k1].len(),
        0 <= k2 < rounds.len(),
        0 <= p2 < rounds[k2].len(),
        k1 != k2 || p1 != p2,
    ensures
        rounds[k1][p1] != rounds[k2][p2],
        k1 != k2 ==> after[rounds[k1][p1]] != after[rounds[k2][p2]],
{
    if k1 != k2 {
        assert(after[rounds[k1][p1]]->0.height == (height + k1 + 1) as u64);
        assert(after[rounds[k2][p2]]->0.height == (height + k2 + 1) as u64);
    } else {
        assert(rounds[k1].no_duplicates());
    }
}

/// What processing a vote changed, and the error that stopped it, if any.
/// Changes made before an error stay.
pub struct ConsensusUpdate {
    pub committee_updated: bool,
    pub heaviest_updated: bool,
    pub latest_updated: bool,
    pub accepted: Option<AcceptedBlocks>,
    pub error: Option<VotingError>,
}

/// `after` and `res` are what processing the vote `vote` on `before` gives:
/// the heaviest milestone vote (and committee) first, then the latest accepted
/// milestone and the blocks it accepts.
pub open spec fn vote_processed(
    before: Consensus,
    after: Consensus,
    dag: BlockDAG,
    store: Map<BlockId, VoteView>,
    vote: VoteView,
    res: ConsensusUpdate,
) -> bool {
    &&& (after.chain_index_view() == before.chain_index_view())
    &&& (after.acceptance().dom() == before.acceptance().dom())
    &&& (before.heaviest() matches Some(h) ==> (after.heaviest() matches Some(n) && vote_ge(n, h)))
    &&& (before.latest() matches Some(l) ==> (after.latest() matches Some(n) && vote_ge(n, l)))
    &&& (vote.milestone is Some ==> (after.heaviest() matches Some(n) && vote_ge(n, vote)))
    &&& (vote.milestone is Some && accepted_vote(store, vote) is None ==> res.error == Some(VotingError::VoteNotFound))
    &&& (vote.milestone is Some ==> (accepted_vote(store, vote) matches Some(new) ==> (before.latest() matches Some(o)
        ==> (!vote_ge(o, new) ==> (advance_chain(store, o, new) matches Some(ms) ==> match cone_walks(
        dag,
        visit_table(before.acceptance()),
        sources_oldest_first(ms),
    ) {
        Ok(rs) => (res.accepted matches Some(ab) && round_items(ab.rounds@) == rs),
        Err(e) => res.error == Some(walk_error(e)),
    })))))
    &&& (vote.milestone is None ==> !res.committee_updated && !res.heaviest_updated && !res.latest_updated
        && res.accepted is None && res.error is None && after.heaviest() == before.heaviest()
        && after.latest() == before.latest() && after.committee_view() == before.committee_view()
        && after.acceptance() == before.acceptance())
    &&& (vote.milestone is Some ==> {
        let heavier = !(before.heaviest() is Some && vote_ge(before.heaviest()->0, vote));
        let committee_changes = heavier && !(before.committee_view() is Some
            && before.committee_view()->0 == (vote.members, vote.threshold));
        &&& res.heaviest_updated == heavier
        &&& res.committee_updated == committee_changes
        &&& after.heaviest() == if heavier { Some(vote) } else { before.heaviest() }
        &&& after.committee_view() == if committee_changes {
            Some((vote.members, vote.threshold))
        } else {
            before.committee_view()
        }
        &&& accepted_vote(store, vote) is None ==> res.error is Some && !res.latest_updated
            && res.accepted is None && after.latest() == before.latest()
            && after.acceptance() == before.acceptance()
        &&& accepted_vote(store, vote) matches Some(new) ==> match before.latest() {
            None => res.error is None && res.latest_updated && res.accepted is None
                && after.latest() == Some(new) && after.acceptance() == before.acceptance(),
            Some(o) => if vote_ge(o, new) {
                res.error is None && !res.latest_updated && res.accepted is None
                    && after.latest() == before.latest() && after.acceptance() == before.acceptance()
            } else {
                &&& res.error is Some <==> (advance_chain(store, o, new) is None || acceptance_fails(
                    dag,
                    before.acceptance(),
                    advance_chain(store, o, new)->0,
                ))
                &&& res.error is Some ==> !res.latest_updated && res.accepted is None
                    && after.latest() == before.latest()
                &&& res.error is Some ==> (advance_chain(store, o, new) is None ==> after.acceptance()
                    == before.acceptance())
                &&& res.error is Some ==> (advance_chain(store, o, new) matches Some(ms) ==> records_rounds(
                    before.acceptance(),
                    after.acceptance(),
                    o.milestone->0.height,
                    cone_walks_done(dag, visit_table(before.acceptance()), sources_oldest_first(ms)),
                ))
                &&& res.error is None ==> res.latest_updated && after.latest() == Some(new)
                    && (res.accepted matches Some(blocks) && blocks.height == o.milestone->0.height
                    && records_acceptance(
                    dag,
                    before.acceptance(),
                    after.acceptance(),
                    o.milestone->0.height,
                    advance_chain(store, o, new)->0,
                    round_items(blocks.rounds@),
                ))
            },
        }
    })
}

/// `acceptance` with block `b` registered: given empty metadata unless it has some.
pub open spec fn registered(acceptance: Map<BlockId, Option<AcceptanceState>>, b: BlockId) -> Map<
    BlockId,
    Option<AcceptanceState>,
> {
    if acceptance.contains_key(b) {
        acceptance
    } else {
        acceptance.insert(b, None)
    }
}

/// `mid` is `before` with block `b` registered and nothing else changed.
pub open spec fn block_registered(before: Consensus, mid: Consensus, b: BlockId) -> bool {
    &&& mid.wf()
    &&& mid.heaviest() == before.heaviest()
    &&& mid.latest() == before.latest()
    &&& mid.committee_view() == before.committee_view()
    &&& mid.chain_index_view() == before.chain_index_view()
    &&& mid.acceptance() == registered(before.acceptance(), b)
}

/// The consensus state.
pub struct Consensus {
    chain_index: Option<u64>,
    heaviest_milestone_vote: Option<Vote>,
    latest_accepted_milestone: Option<Vote>,
    committee: Option<Committee>,
    metadata: HashMap<BlockId, Option<AcceptanceState>>,
    visit: HashMap<BlockId, bool>,
}

impl Consensus {
    pub closed spec fn heaviest(&self) -> Option<VoteView> {
        opt_vote(self.heaviest_milestone_vote)
    }

    pub closed spec fn latest(&self) -> Option<VoteView> {
        opt_vote(self.latest_accepted_milestone)
    }

    pub closed spec fn committee_view(&self) -> Option<(Seq<Member>, u64)> {
        opt_committee(self.committee)
    }

    pub closed spec fn chain_index_view(&self) -> Option<u64> {
        self.chain_index
    }

    /// The consensus metadata of the blocks that have it.
    pub closed spec fn acceptance(&self) -> Map<BlockId, Option<AcceptanceState>> {
        self.metadata@
    }

    /// The visit table kept in step with the metadata.
    pub closed spec fn wf(&self) -> bool {
        self.visit@ == visit_table(self.metadata@)
    }

    pub fn new() -> (res: Consensus)
        ensures
            res.wf(),
            res.heaviest() is None,
            res.latest() is None,
            res.committee_view() is None,
            res.chain_index_view() is None,
            res.acceptance() == Map::<BlockId, Option<AcceptanceState>>::empty(),
    {
        let res = Consensus {
            chain_index: None,
            heaviest_milestone_vote: None,
            latest_accepted_milestone: None,
            committee: None,
            metadata: HashMap::new(),
            visit: HashMap::new(),
        };
        assert(res.visit@ =~= visit_table(res.metadata@));
        res
    }

    /// The heaviest milestone vote seen.
    pub fn heaviest_milestone_vote(&self) -> (res: Option<Vote>)
        ensures
            opt_vote(res) == self.heaviest(),
    {
        match &self.heaviest_milestone_vote {
            Some(v) => Some(v.duplicate()),
            None => None,
        }
    }

    /// The latest accepted milestone.
    pub fn latest_accepted_milestone(&self) -> (res: Option<Vote>)
        ensures
            opt_vote(res) == self.latest(),
    {
        match &self.latest_accepted_milestone {
            Some(v) => Some(v.duplicate()),
            None => None,
        }
    }

    /// The committee named by the heaviest milestone vote.
    pub fn committee(&self) -> (res: Option<Committee>)
        ensures
            opt_committee(res) == self.committee_view(),
    {
        match &self.committee {
            Some(c) => Some(c.duplicate()),
            None => None,
        }
    }

    /// The chain index.
    pub fn chain_index(&self) -> (res: Option<u64>)
        ensures
            res == self.chain_index_view(),
    {
        self.chain_index
    }

    /// Sets the chain index to `index`; returns the value it had.
    pub fn set_chain_index(&mut self, index: u64) -> (res: Option<u64>)
        requires
            old(self).wf(),
        ensures
            final(self).wf(),
            res == old(self).chain_index_view(),
            final(self).chain_index_view() == Some(index),
            final(self).heaviest() == old(self).heaviest(),
            final(self).latest() == old(self).latest(),
            final(self).committee_view() == old(self).committee_view(),
            final(self).acceptance() == old(self).acceptance(),
    {
        let previous = self.chain_index;
        self.chain_index = Some(index);
        previous
    }

    /// The consensus metadata of block `b`, if it has any.
    pub fn metadata(&self, b: BlockId) -> (res: Option<ConsensusMetadata>)
        ensures
            self.acceptance().contains_key(b) ==> res == Some(
                ConsensusMetadata { accepted: self.acceptance()[b] },
            ),
            !self.acceptance().contains_key(b) ==> res is None,
    {
        match self.metadata.get(&b) {
            Some(a) => Some(ConsensusMetadata { accepted: *a }),
            None => None,
        }
    }

    /// Gives block `b` empty consensus metadata unless it has some.
    pub fn register_block(&mut self, b: BlockId)
        requires
            old(self).wf(),
        ensures
            final(self).wf(),
            final(self).heaviest() == old(self).heaviest(),
            final(self).latest() == old(self).latest(),
            final(self).committee_view() == old(self).committee_view(),
            final(self).chain_index_view() == old(self).chain_index_view(),
            old(self).acceptance().contains_key(b) ==> final(self).acceptance() == old(self).acceptance(),
            !old(self).acceptance().contains_key(b) ==> final(self).acceptance() == old(self).acceptance().insert(b, None),
    {
        if !self.metadata.contains_key(&b) {
            self.metadata.insert(b, None);
            self.visit.insert(b, true);
            assert(self.visit@ =~= visit_table(self.metadata@));
        }
    }

    /// Records that block `b` is accepted with `state`.
    fn set_accepted(&mut self, b: BlockId, state: AcceptanceState)
        requires
            old(self).wf(),
            old(self).metadata@.contains_key(b),
            state.chain_id == 0,
        ensures
            final(self).wf(),
            final(self).metadata@ == old(self).metadata@.insert(b, Some(state)),
            final(self).visit@ == old(self).visit@.insert(b, false),
            final(self).heaviest_milestone_vote == old(self).heaviest_milestone_vote,
            final(self).latest_accepted_milestone == old(self).latest_accepted_milestone,
            final(self).committee == old(self).committee,
            final(self).chain_index == old(self).chain_index,
    {
        self.metadata.insert(b, Some(state));
        self.visit.insert(b, false);
        assert(self.visit@ =~= visit_table(self.metadata@));
    }

    /// Makes `vote` the heaviest milestone vote unless the current one is at
    /// least as heavy. When it does, the committee becomes the vote's committee
    /// unless the current committee has the same commitment. Returns whether the
    /// committee changed and whether the heaviest milestone vote changed.
    pub fn update_heaviest_milestone_vote(&mut self, vote: &Vote) -> (res: (bool, bool))
        requires
            old(self).wf(),
        ensures
            final(self).wf(),
            final(self).latest() == old(self).latest(),
            final(self).chain_index_view() == old(self).chain_index_view(),
            final(self).acceptance() == old(self).acceptance(),
            res.1 == !(old(self).heaviest() is Some && vote_ge(old(self).heaviest()->0, vote@)),
            final(self).heaviest() == if res.1 {
                Some(vote@)
            } else {
                old(self).heaviest()
            },
            res.0 == (res.1 && !(old(self).committee_view() is Some && old(self).committee_view()->0 == (vote@.members, vote@.threshold))),
            final(self).committee_view() == if res.0 {
                Some((vote@.members, vote@.threshold))
            } else {
                old(self).committee_view()
            },
    {
        let retain = match &self.heaviest_milestone_vote {
            Some(old) => old.ge(vote),
            None => false,
        };
        if retain {
            return (false, false);
        }
        self.heaviest_milestone_vote = Some(vote.duplicate());
        let same = match &self.committee {
            Some(current) => vote.committee.commitment_eq(current),
            None => false,
        };
        if same {
            proof {
                let c = self.committee->0;
                assert(c.members@ == vote.committee.members@);
            }
            (false, true)
        } else {
            self.committee = Some(vote.committee.duplicate());
            (true, true)
        }
    }
    /// Accepts the blocks that the milestones `milestones` confirm, oldest
    /// milestone (the last) first: for each, the blocks of its past cone that
    /// are not accepted yet, each recorded at height `height + k + 1` for the
    /// `k`-th milestone taken, in reverse walk order.
    pub fn accepted_blocks(&mut self, dag: &BlockDAG, height: u64, milestones: &Vec<Vote>) -> (res: Result<AcceptedBlocks, VotingError>)
        requires
            old(self).wf(),
            dag.wf(),
            height + milestones@.len() <= u64::MAX,
        ensures
            final(self).wf(),
            final(self).heaviest() == old(self).heaviest(),
            final(self).latest() == old(self).latest(),
            final(self).committee_view() == old(self).committee_view(),
            final(self).chain_index_view() == old(self).chain_index_view(),
            final(self).acceptance().dom() == old(self).acceptance().dom(),
            res is Err <==> acceptance_fails(*dag, old(self).acceptance(), milestones@.map_values(|v: Vote| v@)),
            res matches Err(e) ==> e == VotingError::BlockNotFound || e == VotingError::MetadataNotFound,
            match cone_walks(*dag, visit_table(old(self).acceptance()), sources_oldest_first(milestones@.map_values(|v: Vote| v@))) {
                Ok(rs) => res matches Ok(ab) && round_items(ab.rounds@) == rs,
                Err(e) => res matches Err(f) && f == walk_error(e),
            },
            res is Err ==> records_rounds(
                old(self).acceptance(),
                final(self).acceptance(),
                height,
                cone_walks_done(*dag, visit_table(old(self).acceptance()), sources_oldest_first(milestones@.map_values(|v: Vote| v@))),
            ),
            res matches Ok(ab) ==> ab.height == height && records_acceptance(
                *dag,
                old(self).acceptance(),
                final(self).acceptance(),
                height,
                milestones@.map_values(|v: Vote| v@),
                round_items(ab.rounds@),
            ),
    {
        let ghost srcs = sources_oldest_first(milestones@.map_values(|v: Vote| v@));
        let ghost v0 = visit_table(old(self).acceptance());
        let n = milestones.len();
        let mut rounds: Vec<IndexSet<u64>> = Vec::new();
        let mut k: usize = 0;
        proof {
            assert(srcs.skip(0) =~= srcs);
            assert(self.visit@ == v0);
            match cone_rounds(*dag, v0, srcs) {
                Some(rest) => {
                    assert(Seq::new(0, |j: int| index_set_items(rounds@[j]).to_set()) + rest =~= rest);
                },
                None => {},
            }
            match cone_walks(*dag, v0, srcs) {
                Ok(rest) => {
                    assert(round_items(rounds@) + rest =~= rest);
                },
                Err(_) => {},
            }
            assert(round_items(rounds@) + cone_walks_done(*dag, v0, srcs) =~= cone_walks_done(*dag, v0, srcs));
        }
        while k < n
            invariant
                n == milestones@.len(),
                height + n <= u64::MAX,
                dag.wf(),
                srcs == sources_oldest_first(milestones@.map_values(|v: Vote| v@)),
                v0 == visit_table(old(self).acceptance()),
                k <= n,
                rounds@.len() == k,
                self.wf(),
                self.heaviest_milestone_vote == old(self).heaviest_milestone_vote,
                self.latest_accepted_milestone == old(self).latest_accepted_milestone,
                self.committee == old(self).committee,
                self.chain_index == old(self).chain_index,
                self.metadata@.dom() == old(self).metadata@.dom(),
                cone_walks_done(*dag, v0, srcs) == round_items(rounds@) + cone_walks_done(*dag, self.visit@, srcs.skip(k as int)),
                cone_walks(*dag, v0, srcs) == match cone_walks(*dag, self.visit@, srcs.skip(k as int)) {
                    Ok(rest) => Ok(round_items(rounds@) + rest),
                    Err(e) => Err(e),
                },
                cone_rounds(*dag, v0, srcs) == match cone_rounds(*dag, self.visit@, srcs.skip(k as int)) {
                    Some(rest) => Some(Seq::new(k as nat, |j: int| index_set_items(rounds@[j]).to_set()) + rest),
                    None => None,
                },
                forall|j: int| 0 <= j < k ==> index_set_items(#[trigger] rounds@[j]).no_duplicates(),
                forall|j: int, p: int|
                    0 <= j < k && 0 <= p < index_set_items(rounds@[j]).len()
                        ==> self.metadata@.contains_key(#[trigger] index_set_items(rounds@[j])[p]),
                forall|j: int, p: int|
                    0 <= j < k && 0 <= p < index_set_items(rounds@[j]).len()
                        ==> self.metadata@[#[trigger] index_set_items(rounds@[j])[p]]
                        == Some(
                        AcceptanceState {
                            chain_id: 0,
                            height: (height + j + 1) as u64,
                            round_index: (index_set_items(rounds@[j]).len() - 1 - p) as u64,
                        },
                    ),
                forall|x: BlockId|
                    #[trigger] old(self).metadata@.contains_key(x) && (forall|j: int|
                        0 <= j < k ==> !index_set_items(rounds@[j]).contains(x))
                        ==> self.metadata@[x] == old(self).metadata@[x],
            decreases n - k,
        {
            let m = &milestones[n - 1 - k];
            let s = m.source;
            proof {
                assert(srcs[k as int] == s);
                assert(srcs.skip(k as int)[0] == s);
            }
            let cone = match dag.past_cone(s, &self.visit) {
                Ok(c) => c,
                Err(e) => {
                    proof {
                        assert(cone_fails(*dag, self.visit@, s));
                        assert(cone_rounds(*dag, self.visit@, srcs.skip(k as int)) is None);
                        assert(cone_walks(*dag, self.visit@, srcs.skip(k as int)) == Err::<Seq<Seq<BlockId>>, DagError>(e));
                        assert(cone_walks_done(*dag, self.visit@, srcs.skip(k as int)) == Seq::<Seq<BlockId>>::empty());
                        let ri = round_items(rounds@);
                        assert(ri + Seq::<Seq<BlockId>>::empty() =~= ri);
                        assert forall|k2: int| 0 <= k2 < ri.len() implies (#[trigger] ri[k2]).no_duplicates() by {
                            assert(ri[k2] == index_set_items(rounds@[k2]));
                        }
                        assert forall|k2: int, p: int|
                            0 <= k2 < ri.len() && 0 <= p < ri[k2].len() implies self.metadata@[#[trigger] ri[k2][p]]
                                == Some(
                                AcceptanceState {
                                    chain_id: 0,
                                    height: (height + k2 + 1) as u64,
                                    round_index: (ri[k2].len() - 1 - p) as u64,
                                },
                            ) by {
                            assert(ri[k2] == index_set_items(rounds@[k2]));
                        }
                        assert forall|x: BlockId|
                            #[trigger] old(self).metadata@.contains_key(x) && (forall|k2: int|
                                0 <= k2 < ri.len() ==> !ri[k2].contains(x)) implies self.metadata@[x] == old(self).metadata@[x] by {
                            assert forall|j: int| 0 <= j < k implies !index_set_items(rounds@[j]).contains(x) by {
                                assert(ri[j] == index_set_items(rounds@[j]));
                            }
                        }
                        assert(self.metadata@.dom() =~= old(self).metadata@.dom());
                    }
                    return Err(match e {
                        DagError::BlockNotFound => VotingError::BlockNotFound,
                        DagError::MetadataNotFound => VotingError::MetadataNotFound,
                    });
                },
            };
            let ghost cur_visit = self.visit@;
            let ghost meta_before = self.metadata@;
            let ghost items_s = index_set_items(cone);
            let items = index_set_to_vec(&cone);
            let len = items.len();
            proof {
                assert forall|x: BlockId| #[trigger] items_s.contains(x) implies self.metadata@.contains_key(x)
                    && !accepted_in(self.metadata@[x], 0) by {
                    assert(dag.in_cone(cur_visit, s, x));
                    let path = choose|path: Seq<BlockId>|
                        #[trigger] dag.is_visit_path(cur_visit, path) && path[0] == s && path.last() == x;
                    assert(cur_visit.contains_key(path[path.len() - 1]) && cur_visit[path[path.len() - 1]]);
                }
            }
            let mut i: usize = 0;
            while i < len
                invariant
                    len == items_s.len(),
                    items@ == items_s,
                    items_s.no_duplicates(),
                    i <= len,
                    k < n,
                    height + n <= u64::MAX,
                    self.wf(),
                    self.heaviest_milestone_vote == old(self).heaviest_milestone_vote,
                    self.latest_accepted_milestone == old(self).latest_accepted_milestone,
                    self.committee == old(self).committee,
                    self.chain_index == old(self).chain_index,
                    self.metadata@.dom() == meta_before.dom(),
                    forall|x: BlockId| #[trigger] items_s.contains(x) ==> meta_before.contains_key(x),
                    forall|p: int|
                        len - i <= p < len ==> self.metadata@[#[trigger] items_s[p]] == Some(
                            AcceptanceState {
                                chain_id: 0,
                                height: (height + k + 1) as u64,
                                round_index: (len - 1 - p) as u64,
                            },
                        ),
                    forall|x: BlockId|
                        #[trigger] meta_before.contains_key(x) && !items_s.subrange(len - i, len as int).contains(x)
                            ==> self.metadata@[x] == meta_before[x],
                decreases len - i,
            {
                let b = items[len - 1 - i];
                let ghost pos: int = len - 1 - i;
                proof {
                    assert(items_s.contains(items_s[pos]));
                }
                let ghost before = self.metadata@;
                self.set_accepted(b, AcceptanceState { chain_id: 0, height: height + (k as u64) + 1, round_index: i as u64 });
                i = i + 1;
                proof {
                    assert forall|p: int|
                        len - i <= p < len implies self.metadata@[#[trigger] items_s[p]] == Some(
                            AcceptanceState {
                                chain_id: 0,
                                height: (height + k + 1) as u64,
                                round_index: (len - 1 - p) as u64,
                            },
                        ) by {
                        if p != pos {
                            assert(items_s[p] != items_s[pos]);
                        }
                    }
                    assert forall|x: BlockId|
                        #[trigger] meta_before.contains_key(x) && !items_s.subrange(len - i, len as int).contains(x)
                            implies self.metadata@[x] == meta_before[x] by {
                        assert(x != b) by {
                            assert(items_s.subrange(len - i, len as int)[0] == b);
                        }
                        let prev_sub = items_s.subrange(len - i + 1, len as int);
                        let cur_sub = items_s.subrange(len - i, len as int);
                        if prev_sub.contains(x) {
                            let q = choose|q: int| 0 <= q < prev_sub.len() && prev_sub[q] == x;
                            assert(cur_sub[q + 1] == x);
                        }
                    }
                }
            }
            proof {
                assert(items_s.subrange(0, len as int) =~= items_s);
                let c = cone_set(*dag, cur_visit, s);
                assert(c =~= items_s.to_set());
                assert(self.visit@ =~= mark_accepted(cur_visit, c)) by {
                    assert forall|x: BlockId| #[trigger] self.visit@.contains_key(x) == mark_accepted(cur_visit, c).contains_key(x) by {}
                    assert forall|x: BlockId| self.visit@.contains_key(x) implies #[trigger] self.visit@[x] == mark_accepted(cur_visit, c)[x] by {
                        if items_s.contains(x) {
                            let p = choose|p: int| 0 <= p < items_s.len() && items_s[p] == x;
                            assert(self.metadata@[items_s[p]] is Some);
                        } else {
                            assert(self.metadata@[x] == meta_before[x]);
                        }
                    }
                }
                assert(srcs.skip(k as int).drop_first() =~= srcs.skip(k + 1));
                assert(!cone_fails(*dag, cur_visit, s));
            }
            let ghost rounds_before = rounds@;
            rounds.push(cone);
            k = k + 1;
            proof {
                let done_before = Seq::new((k - 1) as nat, |j: int| index_set_items(rounds_before[j]).to_set());
                let done = Seq::new(k as nat, |j: int| index_set_items(rounds@[j]).to_set());
                assert(done =~= done_before + seq![items_s.to_set()]);
                match cone_rounds(*dag, self.visit@, srcs.skip(k as int)) {
                    Some(rest) => {
                        assert(done_before + (seq![items_s.to_set()] + rest) =~= done + rest);
                    },
                    None => {},
                }
                assert(round_items(rounds@) =~= round_items(rounds_before) + seq![items_s]);
                assert(round_items(rounds_before) + (seq![items_s] + cone_walks_done(*dag, self.visit@, srcs.skip(k as int)))
                    =~= round_items(rounds@) + cone_walks_done(*dag, self.visit@, srcs.skip(k as int)));
                match cone_walks(*dag, self.visit@, srcs.skip(k as int)) {
                    Ok(rest) => {
                        assert(round_items(rounds_before) + (seq![items_s] + rest) =~= round_items(rounds@) + rest);
                    },
                    Err(_) => {},
                }
                assert forall|j: int, p: int|
                    0 <= j < k && 0 <= p < index_set_items(rounds@[j]).len()
                        implies self.metadata@[#[trigger] index_set_items(rounds@[j])[p]]
                        == Some(
                        AcceptanceState {
                            chain_id: 0,
                            height: (height + j + 1) as u64,
                            round_index: (index_set_items(rounds@[j]).len() - 1 - p) as u64,
                        },
                    ) by {
                    if j < k - 1 {
                        let x = index_set_items(rounds@[j])[p];
                        assert(rounds@[j] == rounds_before[j]);
                        assert(index_set_items(rounds_before[j])[p] == x);
                        assert(meta_before[x] is Some && accepted_in(meta_before[x], 0));
                        assert(!items_s.contains(x)) by {
                            if items_s.contains(x) {
                                assert(!accepted_in(meta_before[x], 0));
                            }
                        }
                        assert(meta_before.contains_key(x));
                        assert(!items_s.subrange(0, len as int).contains(x));
                    } else {
                        assert(rounds@[j] == cone);
                    }
                }
                assert forall|j: int, p: int|
                    0 <= j < k && 0 <= p < index_set_items(rounds@[j]).len()
                        implies self.metadata@.contains_key(#[trigger] index_set_items(rounds@[j])[p]) by {
                    if j < k - 1 {
                        assert(rounds@[j] == rounds_before[j]);
                        assert(index_set_items(rounds_before[j])[p] == index_set_items(rounds@[j])[p]);
                    } else {
                        assert(rounds@[j] == cone);
                        assert(items_s.contains(items_s[p]));
                    }
                }
                assert forall|x: BlockId|
                    #[trigger] old(self).metadata@.contains_key(x) && (forall|j: int|
                        0 <= j < k ==> !index_set_items(rounds@[j]).contains(x))
                        implies self.metadata@[x] == old(self).metadata@[x] by {
                    assert forall|j: int| 0 <= j < k - 1 implies !index_set_items(rounds_before[j]).contains(x) by {
                        assert(rounds@[j] == rounds_before[j]);
                    }
                    assert(rounds@[k - 1] == cone);
                    assert(!items_s.subrange(0, len as int).contains(x));
                }
            }
        }
        proof {
            assert(srcs.skip(n as int) =~= Seq::<BlockId>::empty());
            assert(round_items(rounds@) + Seq::<Seq<BlockId>>::empty() =~= round_items(rounds@));
            let done = Seq::new(n as nat, |j: int| index_set_items(rounds@[j]).to_set());
            assert(done + Seq::<Set<BlockId>>::empty() =~= done);
            assert(self.metadata@.dom() =~= old(self).metadata@.dom());
            let ri = round_items(rounds@);
            assert forall|k2: int| 0 <= k2 < ri.len() implies (#[trigger] ri[k2]).no_duplicates() && ri[k2].to_set()
                == cone_rounds(*dag, v0, srcs)->0[k2] by {
                assert(ri[k2] == index_set_items(rounds@[k2]));
            }
            assert forall|k2: int, p: int|
                0 <= k2 < ri.len() && 0 <= p < ri[k2].len() implies self.metadata@[#[trigger] ri[k2][p]]
                    == Some(
                    AcceptanceState {
                        chain_id: 0,
                        height: (height + k2 + 1) as u64,
                        round_index: (ri[k2].len() - 1 - p) as u64,
                    },
                ) by {
                assert(ri[k2] == index_set_items(rounds@[k2]));
            }
            assert forall|x: BlockId|
                #[trigger] old(self).metadata@.contains_key(x) && (forall|k2: int|
                    0 <= k2 < ri.len() ==> !ri[k2].contains(x)) implies self.metadata@[x] == old(self).metadata@[x] by {
                assert forall|j: int| 0 <= j < n implies !index_set_items(rounds@[j]).contains(x) by {
                    assert(ri[j] == index_set_items(rounds@[j]));
                }
            }
        }
        Ok(AcceptedBlocks { height, rounds })
    }
    /// Accepts the blocks between the accepted milestone `old` and the newly
    /// accepted milestone `new`: the milestones from `new` down to just above
    /// `old`, whose cones are accepted from height `old`'s height on.
    pub fn advance_acceptance(&mut self, dag: &BlockDAG, store: &VoteStore, accepted: &Vote, candidate: &Vote) -> (res: Result<AcceptedBlocks, VotingError>)
        requires
            old(self).wf(),
            dag.wf(),
            !advance_needs_reorg(store@, accepted@, candidate@),
        ensures
            final(self).wf(),
            final(self).heaviest() == old(self).heaviest(),
            final(self).latest() == old(self).latest(),
            final(self).committee_view() == old(self).committee_view(),
            final(self).chain_index_view() == old(self).chain_index_view(),
            final(self).acceptance().dom() == old(self).acceptance().dom(),
            res is Err <==> (advance_chain(store@, accepted@, candidate@) is None || acceptance_fails(
                *dag,
                old(self).acceptance(),
                advance_chain(store@, accepted@, candidate@)->0,
            )),
            res matches Ok(ab) ==> ab.height == accepted@.milestone->0.height && records_acceptance(
                *dag,
                old(self).acceptance(),
                final(self).acceptance(),
                accepted@.milestone->0.height,
                advance_chain(store@, accepted@, candidate@)->0,
                round_items(ab.rounds@),
            ),
            advance_chain(store@, accepted@, candidate@) is None ==> final(self).acceptance() == old(self).acceptance()
                && (res matches Err(e) && (e == VotingError::NoMilestone || e == VotingError::VoteNotFound)),
            res is Err ==> (advance_chain(store@, accepted@, candidate@) matches Some(ms) ==> records_rounds(
                old(self).acceptance(),
                final(self).acceptance(),
                accepted@.milestone->0.height,
                cone_walks_done(*dag, visit_table(old(self).acceptance()), sources_oldest_first(ms)),
            )),
            advance_chain(store@, accepted@, candidate@) matches Some(ms) ==> match cone_walks(
                *dag,
                visit_table(old(self).acceptance()),
                sources_oldest_first(ms),
            ) {
                Ok(rs) => res matches Ok(ab) && round_items(ab.rounds@) == rs,
                Err(e) => res matches Err(f) && f == walk_error(e),
            },
    {
        let height = match accepted.height() {
            Ok(h) => h,
            Err(e) => {
                return Err(e);
            },
        };
        let new_height = match candidate.height() {
            Ok(h) => h,
            Err(e) => {
                return Err(e);
            },
        };
        let range = new_height - height;
        let milestones = match store.milestone_range(candidate, range) {
            Ok(ms) => ms,
            Err(e) => {
                return Err(e);
            },
        };
        let ghost ms = milestones@.map_values(|v: Vote| v@);
        proof {
            crate::vote::lemma_chain_len(store@, candidate@, range as nat);
        }
        assert(ms.len() == range);
        let last = &milestones[milestones.len() - 1];
        assert(last@ == ms.last());
        let prev = match last.milestone() {
            Ok(m) => m.prev,
            Err(e) => {
                return Err(e);
            },
        };
        let _last_prev = match store.get(prev) {
            Ok(v) => v,
            Err(e) => {
                return Err(e);
            },
        };
        assert(advance_chain(store@, accepted@, candidate@) == Some(ms));
        self.accepted_blocks(dag, height, &milestones)
    }

    /// Makes the milestone that `vote`'s milestone accepts the latest accepted
    /// milestone unless the current one is at least as heavy; moving past an
    /// accepted milestone accepts the blocks in between. Returns whether the
    /// latest accepted milestone changed and the blocks accepted.
    pub fn update_latest_accepted_milestone(&mut self, dag: &BlockDAG, store: &VoteStore, vote: &Vote) -> (res: Result<(bool, Option<AcceptedBlocks>), VotingError>)
        requires
            old(self).wf(),
            dag.wf(),
            accepted_vote(store@, vote@) matches Some(new) ==> (old(self).latest() matches Some(o)
                ==> (vote_ge(o, new) || !advance_needs_reorg(store@, o, new))),
        ensures
            final(self).wf(),
            final(self).heaviest() == old(self).heaviest(),
            final(self).committee_view() == old(self).committee_view(),
            final(self).chain_index_view() == old(self).chain_index_view(),
            final(self).acceptance().dom() == old(self).acceptance().dom(),
            accepted_vote(store@, vote@) is None ==> res is Err && final(self).acceptance() == old(self).acceptance()
                && final(self).latest() == old(self).latest(),
            vote@.milestone is None ==> res == Err::<(bool, Option<AcceptedBlocks>), VotingError>(VotingError::NoMilestone),
            vote@.milestone is Some && accepted_vote(store@, vote@) is None ==> res == Err::<
                (bool, Option<AcceptedBlocks>),
                VotingError,
            >(VotingError::VoteNotFound),
            accepted_vote(store@, vote@) matches Some(new) ==> (old(self).latest() matches Some(o) ==> (!vote_ge(o, new)
                ==> (advance_chain(store@, o, new) matches Some(ms) ==> match cone_walks(
                *dag,
                visit_table(old(self).acceptance()),
                sources_oldest_first(ms),
            ) {
                Ok(rs) => (res matches Ok((_, Some(ab))) && round_items(ab.rounds@) == rs),
                Err(e) => (res matches Err(f) && f == walk_error(e)),
            }))),
            accepted_vote(store@, vote@) matches Some(new) ==> match old(self).latest() {
                None => res matches Ok((changed, ab)) && changed && ab is None && final(self).latest() == Some(new)
                    && final(self).acceptance() == old(self).acceptance(),
                Some(o) => if vote_ge(o, new) {
                    res matches Ok((changed, ab)) && !changed && ab is None && final(self).latest() == old(self).latest()
                        && final(self).acceptance() == old(self).acceptance()
                } else {
                    &&& res is Err <==> (advance_chain(store@, o, new) is None || acceptance_fails(
                        *dag,
                        old(self).acceptance(),
                        advance_chain(store@, o, new)->0,
                    ))
                    &&& res is Err ==> final(self).latest() == old(self).latest()
                    &&& res is Err ==> (advance_chain(store@, o, new) is None ==> final(self).acceptance()
                        == old(self).acceptance())
                    &&& res is Err ==> (advance_chain(store@, o, new) matches Some(ms) ==> records_rounds(
                        old(self).acceptance(),
                        final(self).acceptance(),
                        o.milestone->0.height,
                        cone_walks_done(*dag, visit_table(old(self).acceptance()), sources_oldest_first(ms)),
                    ))
                    &&& res matches Ok((changed, ab)) ==> changed && final(self).latest() == Some(new) && (ab matches Some(
                        blocks) && blocks.height == o.milestone->0.height && records_acceptance(
                        *dag,
                        old(self).acceptance(),
                        final(self).acceptance(),
                        o.milestone->0.height,
                        advance_chain(store@, o, new)->0,
                        round_items(blocks.rounds@),
                    ))
                },
            },
    {
        let m = match vote.milestone() {
            Ok(m) => m,
            Err(e) => {
                return Err(e);
            },
        };
        let new = match store.get(m.accepted) {
            Ok(v) => v,
            Err(e) => {
                return Err(e);
            },
        };
        let current = match &self.latest_accepted_milestone {
            Some(o) => Some(o.duplicate()),
            None => None,
        };
        match current {
            None => {
                self.latest_accepted_milestone = Some(new);
                Ok((true, None))
            },
            Some(o) => {
                if o.ge(&new) {
                    Ok((false, None))
                } else {
                    match self.advance_acceptance(dag, store, &o, &new) {
                        Err(e) => Err(e),
                        Ok(ab) => {
                            self.latest_accepted_milestone = Some(new);
                            Ok((true, Some(ab)))
                        },
                    }
                }
            },
        }
    }

    /// Whether processing `vote` would have to reorganise the milestone chain,
    /// which is not supported: its accepted milestone is heavier than the latest
    /// accepted one but does not extend it.
    pub fn requires_reorg(&self, store: &VoteStore, vote: &Vote) -> (res: bool)
        ensures
            res == (vote@.milestone is Some && accepted_vote(store@, vote@) is Some
                && self.latest() is Some && !vote_ge(self.latest()->0, accepted_vote(store@, vote@)->0)
                && advance_needs_reorg(store@, self.latest()->0, accepted_vote(store@, vote@)->0)),
    {
        let m = match vote.milestone {
            Some(m) => m,
            None => {
                return false;
            },
        };
        let new = match store.get(m.accepted) {
            Ok(v) => v,
            Err(_) => {
                return false;
            },
        };
        let o = match &self.latest_accepted_milestone {
            Some(o) => o,
            None => {
                return false;
            },
        };
        if o.ge(&new) {
            return false;
        }
        let (old_height, new_height) = match (o.milestone, new.milestone) {
            (Some(a), Some(b)) => (a.height, b.height),
            _ => {
                return false;
            },
        };
        if new_height <= old_height {
            return true;
        }
        proof {
            lemma_chain_len(store@, new@, (new_height - old_height) as nat);
        }
        match store.milestone_range(&new, new_height - old_height) {
            Ok(ms) => {
                let last = &ms[ms.len() - 1];
                proof {
                    assert(ms@.map_values(|x: Vote| x@).last() == last@);
                }
                match last.milestone {
                    Some(lm) => match store.get(lm.prev) {
                        Ok(p) => p.source != o.source,
                        Err(_) => false,
                    },
                    None => false,
                }
            },
            Err(_) => false,
        }
    }

    /// Processes the vote of its block: the block first gets empty consensus
    /// metadata unless it has some, then the vote is processed.
    pub fn on_block_vote(&mut self, dag: &BlockDAG, store: &VoteStore, vote: &Vote) -> (res: ConsensusUpdate)
        requires
            old(self).wf(),
            dag.wf(),
            vote@.milestone is Some ==> (accepted_vote(store@, vote@) matches Some(new) ==> (old(self).latest() matches Some(o) ==> (vote_ge(o, new) || !advance_needs_reorg(store@, o, new)))),
        ensures
            final(self).wf(),
            exists|mid: Consensus|
                block_registered(*old(self), mid, vote@.source) && vote_processed(
                    mid,
                    *final(self),
                    *dag,
                    store@,
                    vote@,
                    res,
                ),
    {
        self.register_block(vote.source);
        let ghost mid = *self;
        let res = self.process_vote(dag, store, vote);
        assert(block_registered(*old(self), mid, vote@.source));
        assert(vote_processed(mid, *self, *dag, store@, vote@, res));
        res
    }

    /// Processes the vote of a block: a vote that carries a milestone updates
    /// the heaviest milestone vote (and committee), then the latest accepted
    /// milestone.
    pub fn process_vote(&mut self, dag: &BlockDAG, store: &VoteStore, vote: &Vote) -> (res: ConsensusUpdate)
        requires
            old(self).wf(),
            dag.wf(),
            vote@.milestone is Some ==> (accepted_vote(store@, vote@) matches Some(new) ==> (old(self).latest() matches Some(o) ==> (vote_ge(o, new) || !advance_needs_reorg(store@, o, new)))),
        ensures
            final(self).wf(),
            vote_processed(*old(self), *final(self), *dag, store@, vote@, res),
            final(self).chain_index_view() == old(self).chain_index_view(),
            final(self).acceptance().dom() == old(self).acceptance().dom(),
            old(self).heaviest() matches Some(h) ==> (final(self).heaviest() matches Some(n) && vote_ge(n, h)),
            old(self).latest() matches Some(l) ==> (final(self).latest() matches Some(n) && vote_ge(n, l)),
            vote@.milestone is Some ==> (final(self).heaviest() matches Some(n) && vote_ge(n, vote@)),
            vote@.milestone is Some && accepted_vote(store@, vote@) is None ==> res.error == Some(VotingError::VoteNotFound),
            vote@.milestone is Some ==> (accepted_vote(store@, vote@) matches Some(new) ==> (old(self).latest() matches Some(o)
                ==> (!vote_ge(o, new) ==> (advance_chain(store@, o, new) matches Some(ms) ==> match cone_walks(
                *dag,
                visit_table(old(self).acceptance()),
                sources_oldest_first(ms),
            ) {
                Ok(rs) => (res.accepted matches Some(ab) && round_items(ab.rounds@) == rs),
                Err(e) => res.error == Some(walk_error(e)),
            })))),
            vote@.milestone is None ==> !res.committee_updated && !res.heaviest_updated && !res.latest_updated
                && res.accepted is None && res.error is None && final(self).heaviest() == old(self).heaviest()
                && final(self).latest() == old(self).latest() && final(self).committee_view() == old(self).committee_view()
                && final(self).acceptance() == old(self).acceptance(),
            vote@.milestone is Some ==> {
                let heavier = !(old(self).heaviest() is Some && vote_ge(old(self).heaviest()->0, vote@));
                let committee_changes = heavier && !(old(self).committee_view() is Some
                    && old(self).committee_view()->0 == (vote@.members, vote@.threshold));
                &&& res.heaviest_updated == heavier
                &&& res.committee_updated == committee_changes
                &&& final(self).heaviest() == if heavier { Some(vote@) } else { old(self).heaviest() }
                &&& final(self).committee_view() == if committee_changes {
                    Some((vote@.members, vote@.threshold))
                } else {
                    old(self).committee_view()
                }
                &&& accepted_vote(store@, vote@) is None ==> res.error is Some && !res.latest_updated
                    && res.accepted is None && final(self).latest() == old(self).latest()
                    && final(self).acceptance() == old(self).acceptance()
                &&& accepted_vote(store@, vote@) matches Some(new) ==> match old(self).latest() {
                    None => res.error is None && res.latest_updated && res.accepted is None
                        && final(self).latest() == Some(new) && final(self).acceptance() == old(self).acceptance(),
                    Some(o) => if vote_ge(o, new) {
                        res.error is None && !res.latest_updated && res.accepted is None
                            && final(self).latest() == old(self).latest() && final(self).acceptance() == old(self).acceptance()
                    } else {
                        &&& res.error is Some <==> (advance_chain(store@, o, new) is None || acceptance_fails(
                            *dag,
                            old(self).acceptance(),
                            advance_chain(store@, o, new)->0,
                        ))
                        &&& res.error is Some ==> !res.latest_updated && res.accepted is None
                            && final(self).latest() == old(self).latest()
                        &&& res.error is Some ==> (advance_chain(store@, o, new) is None ==> final(self).acceptance()
                            == old(self).acceptance())
                        &&& res.error is Some ==> (advance_chain(store@, o, new) matches Some(ms) ==> records_rounds(
                            old(self).acceptance(),
                            final(self).acceptance(),
                            o.milestone->0.height,
                            cone_walks_done(*dag, visit_table(old(self).acceptance()), sources_oldest_first(ms)),
                        ))
                        &&& res.error is None ==> res.latest_updated && final(self).latest() == Some(new)
                            && (res.accepted matches Some(blocks) && blocks.height == o.milestone->0.height
                            && records_acceptance(
                            *dag,
                            old(self).acceptance(),
                            final(self).acceptance(),
                            o.milestone->0.height,
                            advance_chain(store@, o, new)->0,
                            round_items(blocks.rounds@),
                        ))
                    },
                }
            },
    {
        proof {
            if self.heaviest() is Some {
                law_vote_order(self.heaviest()->0, vote@, vote@);
            }
            if self.latest() is Some && accepted_vote(store@, vote@) is Some {
                law_vote_order(self.latest()->0, accepted_vote(store@, vote@)->0, vote@);
            }
        }
        if vote.milestone.is_none() {
            return ConsensusUpdate {
                committee_updated: false,
                heaviest_updated: false,
                latest_updated: false,
                accepted: None,
                error: None,
            };
        }
        let (committee_updated, heaviest_updated) = self.update_heaviest_milestone_vote(vote);
        match self.update_latest_accepted_milestone(dag, store, vote) {
            Err(e) => ConsensusUpdate {
                committee_updated,
                heaviest_updated,
                latest_updated: false,
                accepted: None,
                error: Some(e),
            },
            Ok((latest_updated, accepted)) => ConsensusUpdate {
                committee_updated,
                heaviest_updated,
                latest_updated,
                accepted,
                error: None,
            },
        }
    }
}

} // verus!
