//! Virtual voting: when a block becomes available, the votes of its parents are
//! gathered, from which the block's own vote is built.
use crate::block_dag::BlockDAG;
use crate::types::{Block, BlockId, IssuerId};
use crate::vote::{Vote, VoteStore, VoteView, VotingError};
use std::collections::HashSet;
use vstd::prelude::*;

verus! {

broadcast use vstd::std_specs::hash::group_hash_axioms;

/// The elements of `s`, each at its first occurrence.
pub open spec fn first_occurrences(s: Seq<BlockId>) -> Seq<BlockId>
    decreases s.len(),
{
    if s.len() == 0 {
        s
    } else {
        let rest = first_occurrences(s.drop_last());
        if s.drop_last().contains(s.last()) {
            rest
        } else {
            rest.push(s.last())
        }
    }
}

/// The first failure met while reading the votes of `parents` in order: a
/// parent that is not stored, or one that carries no vote.
pub open spec fn parent_failure(dag: BlockDAG, votes: Map<BlockId, VoteView>, parents: Seq<BlockId>) -> Option<VotingError>
    decreases parents.len(),
{
    if parents.len() == 0 {
        None
    } else if !dag.is_stored(parents[0]) {
        Some(VotingError::BlockNotFound)
    } else if !votes.contains_key(parents[0]) {
        Some(VotingError::VoteNotFound)
    } else {
        parent_failure(dag, votes, parents.drop_first())
    }
}

/// The votes that block `block` references: those of its parents, each parent
/// once, in the order of the parents; or why they cannot be read.
pub open spec fn referenced(dag: BlockDAG, votes: Map<BlockId, VoteView>, block: BlockId) -> Result<Seq<VoteView>, VotingError> {
    if !dag.is_stored(block) {
        Err(VotingError::MetadataNotFound)
    } else {
        match parent_failure(dag, votes, dag.parents_of(block)) {
            Some(e) => Err(e),
            None => Ok(first_occurrences(dag.parents_of(block)).map_values(|p: BlockId| votes[p])),
        }
    }
}

proof fn lemma_first_occurrences(s: Seq<BlockId>)
    ensures
        forall|x: BlockId| #[trigger] first_occurrences(s).contains(x) <==> s.contains(x),
    decreases s.len(),
{
    if s.len() > 0 {
        lemma_first_occurrences(s.drop_last());
        assert forall|x: BlockId| #[trigger] s.contains(x) <==> (s.drop_last().contains(x) || x == s.last()) by {
            if s.contains(x) {
                let k = choose|k: int| 0 <= k < s.len() && s[k] == x;
                if k < s.len() - 1 {
                    assert(s.drop_last()[k] == x);
                }
            }
            if s.drop_last().contains(x) {
                let k = choose|k: int| 0 <= k < s.drop_last().len() && s.drop_last()[k] == x;
                assert(s[k] == x);
            }
            if x == s.last() {
                assert(s[s.len() - 1] == x);
            }
        }
        let rest = first_occurrences(s.drop_last());
        if !s.drop_last().contains(s.last()) {
            assert forall|x: BlockId| #[trigger] rest.push(s.last()).contains(x) <==> (rest.contains(x) || x == s.last()) by {
                if rest.push(s.last()).contains(x) {
                    let k = choose|k: int| 0 <= k < rest.push(s.last()).len() && rest.push(s.last())[k] == x;
                    if k < rest.len() {
                        assert(rest[k] == x);
                    }
                }
                if rest.contains(x) {
                    let k = choose|k: int| 0 <= k < rest.len() && rest[k] == x;
                    assert(rest.push(s.last())[k] == x);
                }
                if x == s.last() {
                    assert(rest.push(s.last())[rest.len() as int] == x);
                }
            }
        }
    }
}

proof fn lemma_parent_failure_step(dag: BlockDAG, votes: Map<BlockId, VoteView>, parents: Seq<BlockId>, i: int)
    requires
        0 <= i < parents.len(),
    ensures
        parent_failure(dag, votes, parents.subrange(i, parents.len() as int)) == (if !dag.is_stored(
            parents[i],
        ) {
            Some(VotingError::BlockNotFound)
        } else if !votes.contains_key(parents[i]) {
            Some(VotingError::VoteNotFound)
        } else {
            parent_failure(dag, votes, parents.subrange(i + 1, parents.len() as int))
        }),
{
    let rest = parents.subrange(i, parents.len() as int);
    assert(rest[0] == parents[i]);
    assert(rest.drop_first() =~= parents.subrange(i + 1, parents.len() as int));
}

/// The virtual voting component.
pub struct VirtualVoting {}

impl VirtualVoting {
    pub fn new() -> (res: VirtualVoting) {
        VirtualVoting {}
    }

    /// The votes of the parents of `block`, each parent once, in the order of the
    /// parents. Fails with `MetadataNotFound` when the block is not stored, and
    /// otherwise at the first parent that is not stored (`BlockNotFound`) or that
    /// carries no vote (`VoteNotFound`).
    pub fn referenced_votes(dag: &BlockDAG, store: &VoteStore, block: BlockId) -> (res: Result<Vec<Vote>, VotingError>)
        requires
            dag.wf(),
        ensures
            match referenced(*dag, store@, block) {
                Ok(vs) => res is Ok && res->Ok_0@.map_values(|v: Vote| v@) == vs,
                Err(e) => res == Err::<Vec<Vote>, VotingError>(e),
            },
    {
        let b = match dag.get(block) {
            Some(b) => b,
            None => {
                return Err(VotingError::MetadataNotFound);
            },
        };
        let parents = b.parents();
        let ghost ps = dag.parents_of(block);
        assert(parents@ == ps);
        let mut seen: HashSet<BlockId> = HashSet::new();
        let mut res: Vec<Vote> = Vec::new();
        let mut i: usize = 0;
        assert(ps.subrange(0, ps.len() as int) =~= ps);
        while i < parents.len()
            invariant
                dag.wf(),
                dag.is_stored(block),
                ps == dag.parents_of(block),
                parents@ == ps,
                i <= ps.len(),
                parent_failure(*dag, store@, ps) == parent_failure(
                    *dag,
                    store@,
                    ps.subrange(i as int, ps.len() as int),
                ),
                forall|k: int| 0 <= k < i ==> store@.contains_key(#[trigger] ps[k]),
                seen@ == ps.take(i as int).to_set(),
                res@.map_values(|v: Vote| v@) == first_occurrences(ps.take(i as int)).map_values(
                    |p: BlockId| store@[p],
                ),
            decreases ps.len() - i,
        {
            let p = parents[i];
            proof {
                lemma_parent_failure_step(*dag, store@, ps, i as int);
            }
            if !dag.contains(p) {
                return Err(VotingError::BlockNotFound);
            }
            let v = match store.get(p) {
                Ok(v) => v,
                Err(e) => {
                    return Err(e);
                },
            };
            let ghost t = ps.take(i as int);
            let ghost t1 = ps.take(i as int + 1);
            proof {
                assert(t1.drop_last() =~= t);
                assert(t1.last() == p);
                lemma_first_occurrences(t);
                assert forall|x: BlockId| t.to_set().contains(x) <==> t.contains(x) by {}
            }
            let fresh = !seen.contains(&p);
            if fresh {
                let ghost before = res@.map_values(|v: Vote| v@);
                let ghost vv = v@;
                res.push(v);
                proof {
                    assert(!t.contains(p));
                    assert(first_occurrences(t1) == first_occurrences(t).push(p));
                    assert(res@.map_values(|v: Vote| v@) =~= before.push(vv));
                    assert(first_occurrences(t).push(p).map_values(|q: BlockId| store@[q])
                        =~= first_occurrences(t).map_values(|q: BlockId| store@[q]).push(store@[p]));
                    assert(res@.map_values(|v: Vote| v@) =~= first_occurrences(t1).map_values(
                        |q: BlockId| store@[q],
                    ));
                }
            } else {
                proof {
                    assert(t.contains(p));
                    assert(first_occurrences(t1) == first_occurrences(t));
                }
            }
            seen.insert(p);
            proof {
                assert forall|x: BlockId| t1.to_set().contains(x) <==> t.to_set().insert(p).contains(x) by {
                    if t1.contains(x) {
                        let k = choose|k: int| 0 <= k < t1.len() && t1[k] == x;
                        if k < i {
                            assert(t[k] == x);
                        }
                    }
                    if t.contains(x) {
                        let k = choose|k: int| 0 <= k < t.len() && t[k] == x;
                        assert(t1[k] == x);
                    }
                    if x == p {
                        assert(t1[i as int] == x);
                    }
                }
                assert(seen@ =~= t1.to_set());
            }
            i = i + 1;
        }
        proof {
            assert(ps.take(ps.len() as int) =~= ps);
            assert(ps.subrange(ps.len() as int, ps.len() as int) =~= Seq::<BlockId>::empty());
        }
        Ok(res)
    }
}

/// What is done with a block that became available.
pub enum VoteDecision {
    /// The genesis block gets the genesis vote.
    Genesis,
    /// A network block gets a vote built from its issuer and the votes it references.
    Build(IssuerId, Vec<Vote>),
    /// The referenced votes could not be read; the block gets no vote.
    Failed(VotingError),
}

impl VirtualVoting {
    /// Builds the vote of a block that became available and attaches it to the
    /// block: `genesis` builds the vote of the genesis block; for a network
    /// block, `build` is called once with the block, its issuer, round 0 and
    /// the votes the block references. When the references cannot be read or
    /// `build` fails, the block gets no vote and the error comes back; otherwise
    /// the vote attached comes back. `build` and `genesis` are the vote rules of
    /// the configuration, which its user supplies.
    pub fn attach_vote<F, G>(dag: &BlockDAG, store: &mut VoteStore, block: &Block, build: F, genesis: G) -> (res: Result<Vote, VotingError>)
        where
            F: Fn(BlockId, IssuerId, u64, Vec<Vote>) -> Result<Vote, VotingError>,
            G: Fn(BlockId) -> Vote,
        requires
            dag.wf(),
            forall|s: BlockId, i: IssuerId, r: u64, vs: Vec<Vote>| #[trigger] build.requires((s, i, r, vs)),
            forall|s: BlockId| #[trigger] genesis.requires((s,)),
        ensures
            res matches Ok(v) ==> final(store)@ == old(store)@.insert(block@.id(), v@),
            res is Err ==> final(store)@ == old(store)@,
            block@ is Genesis ==> (res matches Ok(v) && genesis.ensures((block@.id(),), v)),
            block@ matches crate::types::BlockView::Network(id, _, issuer) ==> (referenced(*dag, old(store)@, id) matches Err(e)
                ==> res == Err::<Vote, VotingError>(e)),
            block@ matches crate::types::BlockView::Network(id, _, issuer) ==> (referenced(*dag, old(store)@, id) matches Ok(vs)
                ==> exists|refs: Vec<Vote>|
                #[trigger] build.ensures((id, issuer, 0u64, refs), res) && refs@.map_values(|v: Vote| v@) == vs),
    {
        match block {
            Block::GenesisBlock(id) => {
                let vote = genesis(*id);
                store.set(*id, vote.duplicate());
                Ok(vote)
            },
            Block::NetworkBlock(id, nb) => {
                let referenced_votes = match VirtualVoting::referenced_votes(dag, store, *id) {
                    Ok(vs) => vs,
                    Err(e) => {
                        return Err(e);
                    },
                };
                let ghost refs = referenced_votes;
                let built = build(*id, nb.issuer_id, 0, referenced_votes);
                assert(refs@.map_values(|v: Vote| v@) == referenced(*dag, old(store)@, *id)->Ok_0);
                match &built {
                    Ok(vote) => {
                        store.set(*id, vote.duplicate());
                    },
                    Err(_) => {},
                }
                assert(block@->Network_0 == *id && block@->Network_2 == nb.issuer_id);
                assert(exists|rs: Vec<Vote>|
                    #[trigger] build.ensures((block@->Network_0, block@->Network_2, 0u64, rs), built) && rs@.map_values(|v: Vote| v@)
                        == referenced(*dag, old(store)@, block@->Network_0)->Ok_0);
                built
            },
        }
    }

    /// Decides how the vote of a block that became available is made.
    pub fn on_block_available(dag: &BlockDAG, store: &VoteStore, block: &Block) -> (res: VoteDecision)
        requires
            dag.wf(),
        ensures
            match block@ {
                crate::types::BlockView::Genesis(_) => res is Genesis,
                crate::types::BlockView::Network(id, _, issuer) => match referenced(*dag, store@, id) {
                    Ok(vs) => (res matches VoteDecision::Build(i, r) && i == issuer && r@.map_values(|v: Vote| v@) == vs),
                    Err(e) => (res matches VoteDecision::Failed(f) && f == e),
                },
            },
    {
        match block {
            Block::GenesisBlock(_) => VoteDecision::Genesis,
            Block::NetworkBlock(id, nb) => match VirtualVoting::referenced_votes(dag, store, *id) {
                Ok(votes) => VoteDecision::Build(nb.issuer_id, votes),
                Err(e) => VoteDecision::Failed(e),
            },
        }
    }
}

} // verus!
