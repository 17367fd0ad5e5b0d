//! Votes: what a block says about consensus, and the store of votes by block.
use crate::types::{BlockId, Committee, IssuerId, Member};
use std::collections::HashMap;
use vstd::prelude::*;

verus! {

broadcast use vstd::std_specs::hash::group_hash_axioms;

/// Why a vote could not be read or consensus could not advance.
#[derive(Clone, Copy, PartialEq, Eq, Structural, Debug)]
pub enum VotingError {
    /// The vote carries no milestone.
    NoMilestone,
    /// A vote that a milestone refers to is not known.
    VoteNotFound,
    /// A block is not stored.
    BlockNotFound,
    /// A block carries no consensus metadata.
    MetadataNotFound,
    /// No milestone in the past cone reached the consensus threshold.
    NoConfirmedMilestoneInPastCone,
}

/// Who issued a vote.
#[derive(Clone, Copy, PartialEq, Eq, Structural, Debug)]
pub enum Issuer {
    Genesis,
    User(IssuerId),
}

/// The milestone part of a vote: its height in the milestone chain, the
/// previous milestone and the milestone it accepts, each by the block that
/// carries the vote.
#[derive(Clone, Copy, PartialEq, Eq, Structural, Debug)]
pub struct Milestone {
    pub height: u64,
    pub prev: BlockId,
    pub accepted: BlockId,
}

/// A vote, carried by block `source`.
pub struct Vote {
    pub source: BlockId,
    pub issuer: Issuer,
    pub round: u64,
    pub leader_weight: u64,
    pub committee: Committee,
    pub milestone: Option<Milestone>,
    pub referenced_milestones: Vec<IssuerId>,
}

/// The mathematical value of a vote.
pub struct VoteView {
    pub source: BlockId,
    pub issuer: Issuer,
    pub round: u64,
    pub leader_weight: u64,
    pub members: Seq<Member>,
    pub threshold: u64,
    pub milestone: Option<Milestone>,
    pub referenced_milestones: Seq<IssuerId>,
}

impl View for Vote {
    type V = VoteView;

    open spec fn view(&self) -> VoteView {
        VoteView {
            source: self.source,
            issuer: self.issuer,
            round: self.round,
            leader_weight: self.leader_weight,
            members: self.committee.members@,
            threshold: self.committee.threshold,
            milestone: self.milestone,
            referenced_milestones: self.referenced_milestones@,
        }
    }
}

/// Votes are ordered by round, then leader weight, then carrying block.
/// `vote_ge(a, b)`: `a` is at least as heavy as `b`.
pub open spec fn vote_ge(a: VoteView, b: VoteView) -> bool {
    a.round > b.round || (a.round == b.round && (a.leader_weight > b.leader_weight || (
    a.leader_weight == b.leader_weight && a.source >= b.source)))
}

/// Law: votes are totally ordered by weight. The order is reflexive, total and
/// transitive, and two votes each at least as heavy as the other agree in round,
/// leader weight and carrying block.
pub proof fn law_vote_order(a: VoteView, b: VoteView, c: VoteView)
    ensures
        vote_ge(a, a),
        vote_ge(a, b) || vote_ge(b, a),
        vote_ge(a, b) && vote_ge(b, c) ==> vote_ge(a, c),
        vote_ge(a, b) && vote_ge(b, a) ==> a.round == b.round && a.leader_weight == b.leader_weight
            && a.source == b.source,
{
}

/// Two committees given by members and threshold have the same commitment.
pub open spec fn same_committee(a: VoteView, members: Seq<Member>, threshold: u64) -> bool {
    a.members == members && a.threshold == threshold
}

impl Vote {
    /// A copy of this vote.
    pub fn duplicate(&self) -> (res: Vote)
        ensures
            res@ == self@,
    {
        Vote {
            source: self.source,
            issuer: self.issuer,
            round: self.round,
            leader_weight: self.leader_weight,
            committee: self.committee.duplicate(),
            milestone: self.milestone,
            referenced_milestones: crate::types::copy_ids(&self.referenced_milestones),
        }
    }

    /// Whether this vote is at least as heavy as `other`.
    pub fn ge(&self, other: &Vote) -> (res: bool)
        ensures
            res == vote_ge(self@, other@),
    {
        self.round > other.round || (self.round == other.round && (self.leader_weight
            > other.leader_weight || (self.leader_weight == other.leader_weight && self.source
            >= other.source)))
    }

    /// The milestone of the vote.
    pub fn milestone(&self) -> (res: Result<Milestone, VotingError>)
        ensures
            match self.milestone {
                Some(m) => res == Ok::<Milestone, VotingError>(m),
                None => res == Err::<Milestone, VotingError>(VotingError::NoMilestone),
            },
    {
        match self.milestone {
            Some(m) => Ok(m),
            None => Err(VotingError::NoMilestone),
        }
    }

    /// The height of the vote's milestone.
    pub fn height(&self) -> (res: Result<u64, VotingError>)
        ensures
            match self.milestone {
                Some(m) => res == Ok::<u64, VotingError>(m.height),
                None => res == Err::<u64, VotingError>(VotingError::NoMilestone),
            },
    {
        match self.milestone {
            Some(m) => Ok(m.height),
            None => Err(VotingError::NoMilestone),
        }
    }
}

/// The votes of the blocks, by block.
pub struct VoteStore {
    votes: HashMap<BlockId, Vote>,
}

impl View for VoteStore {
    type V = Map<BlockId, VoteView>;

    closed spec fn view(&self) -> Map<BlockId, VoteView> {
        Map::new(|b: BlockId| self.votes@.contains_key(b), |b: BlockId| self.votes@[b]@)
    }
}

/// The `n` milestones that end in `v`: `v`, its previous milestone, and so on;
/// `None` when the chain breaks first.
pub open spec fn milestone_chain(store: Map<BlockId, VoteView>, v: VoteView, n: nat) -> Option<
    Seq<VoteView>,
>
    decreases n,
{
    if n == 0 {
        Some(Seq::empty())
    } else if n == 1 {
        Some(seq![v])
    } else {
        match v.milestone {
            None => None,
            Some(m) => if store.contains_key(m.prev) {
                match milestone_chain(store, store[m.prev], (n - 1) as nat) {
                    Some(rest) => Some(seq![v] + rest),
                    None => None,
                }
            } else {
                None
            },
        }
    }
}

/// A milestone chain of `n` milestones has `n` milestones, the first being `v`.
pub proof fn lemma_chain_len(store: Map<BlockId, VoteView>, v: VoteView, n: nat)
    ensures
        milestone_chain(store, v, n) matches Some(c) ==> c.len() == n && (n > 0 ==> c[0] == v),
    decreases n,
{
    if n > 1 {
        match v.milestone {
            Some(m) => if store.contains_key(m.prev) {
                lemma_chain_len(store, store[m.prev], (n - 1) as nat);
            },
            None => {},
        }
    }
}

impl VoteStore {
    pub fn new() -> (res: VoteStore)
        ensures
            res@ == Map::<BlockId, VoteView>::empty(),
    {
        let res = VoteStore { votes: HashMap::new() };
        assert(res@ =~= Map::<BlockId, VoteView>::empty());
        res
    }

    /// Attaches `vote` to its block.
    pub fn insert(&mut self, vote: Vote)
        ensures
            final(self)@ == old(self)@.insert(vote@.source, vote@),
    {
        let ghost v = vote@;
        let ghost before = self.votes@;
        self.votes.insert(vote.source, vote);
        proof {
            assert forall|b: BlockId| #[trigger] self@.contains_key(b) == old(self)@.insert(v.source, v).contains_key(b) by {}
            assert forall|b: BlockId| self@.contains_key(b) implies #[trigger] self@[b] == old(self)@.insert(v.source, v)[b] by {
                if b != v.source {
                    assert(self.votes@[b] == before[b]);
                }
            }
            assert(self@ =~= old(self)@.insert(v.source, v));
        }
    }

    /// Attaches `vote` to block `b`, replacing any vote it had.
    pub fn set(&mut self, b: BlockId, vote: Vote)
        ensures
            final(self)@ == old(self)@.insert(b, vote@),
    {
        let ghost v = vote@;
        let ghost before = self.votes@;
        self.votes.insert(b, vote);
        proof {
            assert forall|k: BlockId| #[trigger] self@.contains_key(k) == old(self)@.insert(b, v).contains_key(k) by {}
            assert forall|k: BlockId| self@.contains_key(k) implies #[trigger] self@[k] == old(self)@.insert(b, v)[k] by {
                if k != b {
                    assert(self.votes@[k] == before[k]);
                }
            }
            assert(self@ =~= old(self)@.insert(b, v));
        }
    }

    /// The vote of block `b`.
    pub fn get(&self, b: BlockId) -> (res: Result<Vote, VotingError>)
        ensures
            self@.contains_key(b) ==> res is Ok && res->Ok_0@ == self@[b],
            !self@.contains_key(b) ==> res == Err::<Vote, VotingError>(VotingError::VoteNotFound),
    {
        match self.votes.get(&b) {
            Some(v) => Ok(v.duplicate()),
            None => Err(VotingError::VoteNotFound),
        }
    }

    /// The `range` milestones that end in `v`, newest first.
    pub fn milestone_range(&self, v: &Vote, range: u64) -> (res: Result<Vec<Vote>, VotingError>)
        ensures
            match milestone_chain(self@, v@, range as nat) {
                Some(chain) => res is Ok && res->Ok_0@.map_values(|x: Vote| x@) == chain,
                None => res is Err,
            },
            res matches Err(e) ==> e == VotingError::NoMilestone || e == VotingError::VoteNotFound,
    {
        if range == 0 {
            let res: Vec<Vote> = Vec::new();
            assert(res@.map_values(|x: Vote| x@) =~= Seq::<VoteView>::empty());
            return Ok(res);
        }
        let mut res: Vec<Vote> = Vec::new();
        let mut cur = v.duplicate();
        res.push(v.duplicate());
        let mut i: u64 = 1;
        while i < range
            invariant
                1 <= i <= range,
                res@.len() == i,
                res@[i - 1]@ == cur@,
                milestone_chain(self@, v@, range as nat) == match milestone_chain(
                    self@,
                    cur@,
                    (range - i + 1) as nat,
                ) {
                    Some(rest) => Some(res@.map_values(|x: Vote| x@).subrange(0, i - 1) + rest),
                    None => None,
                },
            decreases range - i,
        {
            let m = match cur.milestone() {
                Ok(m) => m,
                Err(e) => {
                    return Err(e);
                },
            };
            let next = match self.get(m.prev) {
                Ok(n) => n,
                Err(e) => {
                    return Err(e);
                },
            };
            let ghost old_res = res@.map_values(|x: Vote| x@);
            let ghost old_cur = cur@;
            res.push(next.duplicate());
            cur = next;
            i = i + 1;
            proof {
                let nr = res@.map_values(|x: Vote| x@);
                assert(nr.subrange(0, i - 1) =~= old_res.subrange(0, i - 2) + seq![old_cur]);
                let tail = milestone_chain(self@, cur@, (range - i + 1) as nat);
                match tail {
                    Some(rest) => {
                        assert(seq![old_cur] + rest =~= seq![old_cur] + rest);
                        assert(old_res.subrange(0, i - 2) + (seq![old_cur] + rest) =~= nr.subrange(0, i - 1) + rest);
                    },
                    None => {},
                }
            }
        }
        proof {
            let nr = res@.map_values(|x: Vote| x@);
            assert(milestone_chain(self@, cur@, 1) == Some(seq![cur@]));
            assert(nr.subrange(0, i - 1) + seq![cur@] =~= nr);
        }
        Ok(res)
    }
}

} // verus!
