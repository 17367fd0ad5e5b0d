//! Committee selection: which committee votes, given the vote that was last
//! accepted. A fixed committee is kept until a vote names another one; a
//! custom strategy is the user's own.
use crate::types::{Committee, Member};
use crate::vote::Vote;
use vstd::prelude::*;

verus! {

/// How the committee is chosen: a fixed committee, or a strategy of the
/// user's own that picks the committee for a vote.
pub enum CommitteeSelection<S: Fn(Option<&Vote>) -> Committee> {
    FixedCommittee(Committee),
    Custom(S),
}

/// The committee of `vote` when there is one, else `committee`.
pub fn fixed_committee(committee: &Committee, vote: Option<&Vote>) -> (res: Committee)
    ensures
        match vote {
            Some(v) => res.members@ == v.committee.members@ && res.threshold == v.committee.threshold,
            None => res.members@ == committee.members@ && res.threshold == committee.threshold,
        },
{
    match vote {
        Some(v) => v.committee.duplicate(),
        None => committee.duplicate(),
    }
}

impl<S: Fn(Option<&Vote>) -> Committee> CommitteeSelection<S> {
    /// The committee for `vote`: by `fixed_committee` for a fixed committee; for
    /// a custom one, what the strategy returns when called once on `vote`.
    pub fn dispatch(&self, vote: Option<&Vote>) -> (res: Committee)
        requires
            self matches CommitteeSelection::Custom(strategy) ==> strategy.requires((vote,)),
        ensures
            self matches CommitteeSelection::FixedCommittee(c) ==> match vote {
                Some(v) => res.members@ == v.committee.members@ && res.threshold == v.committee.threshold,
                None => res.members@ == c.members@ && res.threshold == c.threshold,
            },
            self matches CommitteeSelection::Custom(strategy) ==> strategy.ensures((vote,), res),
    {
        match self {
            CommitteeSelection::FixedCommittee(committee) => fixed_committee(committee, vote),
            CommitteeSelection::Custom(strategy) => strategy(vote),
        }
    }
}

/// The members of the default committee: issuers 1 to 4, of weight 1 each.
pub open spec fn default_members() -> Seq<Member> {
    seq![
        Member { id: 1, weight: 1 },
        Member { id: 2, weight: 1 },
        Member { id: 3, weight: 1 },
        Member { id: 4, weight: 1 },
    ]
}

impl<S: Fn(Option<&Vote>) -> Committee> Default for CommitteeSelection<S> {
    /// A fixed committee of four members of weight 1, in which a weight above 2
    /// reaches consensus.
    fn default() -> (res: CommitteeSelection<S>)
        ensures
            res matches CommitteeSelection::FixedCommittee(c) && c.members@ == default_members()
                && c.threshold == 2,
    {
        let members = vec![Member::new(1, 1), Member::new(2, 1), Member::new(3, 1), Member::new(4, 1)];
        assert(members@ =~= default_members());
        CommitteeSelection::FixedCommittee(Committee::new(members, 2))
    }
}

} // verus!
