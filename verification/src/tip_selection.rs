//! Tip selection: the set of blocks that no processed block approves yet.
use crate::block_dag::{BlockDAG, DagError};
use crate::types::BlockId;
use std::collections::HashSet;
use vstd::prelude::*;

verus! {

broadcast use vstd::std_specs::hash::group_hash_axioms;

/// The current tips.
pub struct TipSelection {
    tips: HashSet<BlockId>,
}

/// The tips after processing a block with parents `parents`: the parents stop
/// being tips and the block becomes one.
pub open spec fn tips_after(tips: Set<BlockId>, parents: Seq<BlockId>, block: BlockId) -> Set<BlockId> {
    tips.difference(parents.to_set()).insert(block)
}

/// Law: after a block is processed it is a tip, its parents are not (unless
/// one of them is the block itself), and every other tip stays a tip.
pub proof fn law_tips_after(tips: Set<BlockId>, parents: Seq<BlockId>, block: BlockId)
    ensures
        tips_after(tips, parents, block).contains(block),
        forall|k: int|
            0 <= k < parents.len() && parents[k] != block ==> !tips_after(tips, parents, block).contains(
                #[trigger] parents[k],
            ),
        forall|t: BlockId| #[trigger]
            tips.contains(t) && !parents.contains(t) ==> tips_after(tips, parents, block).contains(t),
{
    assert forall|k: int| 0 <= k < parents.len() && parents[k] != block implies !tips_after(tips, parents, block).contains(#[trigger] parents[k]) by {
        assert(parents.to_set().contains(parents[k]));
    }
}

impl View for TipSelection {
    type V = Set<BlockId>;

    closed spec fn view(&self) -> Set<BlockId> {
        self.tips@
    }
}

impl TipSelection {
    /// No tips.
    pub fn new() -> (res: TipSelection)
        ensures
            res@ == Set::<BlockId>::empty(),
    {
        TipSelection { tips: HashSet::new() }
    }

    /// Makes `genesis` a tip, as tip selection does when it starts.
    pub fn init(&mut self, genesis: BlockId)
        ensures
            final(self)@ == old(self)@.insert(genesis),
    {
        self.tips.insert(genesis);
    }

    /// Processes a block: its parents stop being tips and it becomes one. Fails,
    /// leaving the tips unchanged, when the block or one of its parents is not
    /// stored in `dag`.
    pub fn process_block(&mut self, dag: &BlockDAG, block: BlockId) -> (res: Result<(), DagError>)
        requires
            dag.wf(),
        ensures
            res is Err <==> (!dag.is_stored(block) || exists|k: int|
                0 <= k < dag.parents_of(block).len() && !dag.is_stored(
                    #[trigger] dag.parents_of(block)[k],
                )),
            res is Err ==> final(self)@ == old(self)@,
            !dag.is_stored(block) ==> res matches Err(DagError::MetadataNotFound),
            dag.is_stored(block) && res is Err ==> res matches Err(DagError::BlockNotFound),
            res is Ok ==> final(self)@ == tips_after(old(self)@, dag.parents_of(block), block),
    {
        let parents = match dag.get(block) {
            Some(b) => b.parents(),
            None => {
                return Err(DagError::MetadataNotFound);
            },
        };
        let mut removed: Vec<BlockId> = Vec::new();
        let mut k: usize = 0;
        while k < parents.len()
            invariant
                k <= parents.len(),
                parents@ == dag.parents_of(block),
                dag.is_stored(block),
                forall|j: int| 0 <= j < k ==> dag.is_stored(#[trigger] parents@[j]),
                self.tips@ == old(self)@.difference(parents@.subrange(0, k as int).to_set()),
                removed@.to_set() == old(self)@.intersect(parents@.subrange(0, k as int).to_set()),
            decreases parents.len() - k,
        {
            let p = parents[k];
            let ghost prefix = parents@.subrange(0, k as int);
            let ghost next = parents@.subrange(0, k + 1);
            assert(next =~= prefix.push(p));
            assert(next.to_set() =~= prefix.to_set().insert(p)) by {
                prefix.lemma_push_to_set_commute(p);
            }
            if !dag.contains(p) {
                let mut r: usize = 0;
                while r < removed.len()
                    invariant
                        r <= removed.len(),
                        self.tips@ == old(self)@.difference(prefix.to_set()).union(
                            removed@.subrange(0, r as int).to_set(),
                        ),
                        removed@.to_set() == old(self)@.intersect(prefix.to_set()),
                    decreases removed.len() - r,
                {
                    let ghost sub = removed@.subrange(0, r as int);
                    assert(removed@.subrange(0, r + 1) =~= sub.push(removed@[r as int]));
                    proof { sub.lemma_push_to_set_commute(removed@[r as int]); }
                    self.tips.insert(removed[r]);
                    r = r + 1;
                    assert(self.tips@ =~= old(self)@.difference(prefix.to_set()).union(
                        removed@.subrange(0, r as int).to_set(),
                    ));
                }
                proof {
                    assert(removed@.subrange(0, removed@.len() as int) =~= removed@);
                    assert(self.tips@ =~= old(self)@);
                    assert(dag.parents_of(block)[k as int] == p);
                }
                return Err(DagError::BlockNotFound);
            }
            let was_tip = self.tips.remove(&p);
            if was_tip {
                let ghost before = removed@;
                removed.push(p);
                proof {
                    before.lemma_push_to_set_commute(p);
                    assert(removed@ =~= before.push(p));
                }
            }
            k = k + 1;
            assert(self.tips@ =~= old(self)@.difference(parents@.subrange(0, k as int).to_set()));
            assert(removed@.to_set() =~= old(self)@.intersect(parents@.subrange(0, k as int).to_set()));
        }
        self.tips.insert(block);
        proof {
            assert(parents@.subrange(0, parents@.len() as int) =~= parents@);
            assert(self.tips@ =~= tips_after(old(self)@, dag.parents_of(block), block));
        }
        Ok(())
    }

    /// The identifiers of the tips, each once, in no particular order.
    pub fn get(&self) -> (res: Vec<BlockId>)
        ensures
            res@.no_duplicates(),
            res@.to_set() == self@,
    {
        let mut res: Vec<BlockId> = Vec::new();
        for x in it: self.tips.iter()
            invariant
                res@ == it.seq().take(it.index() as int).map_values(|r: &BlockId| *r),
                it.seq().unref().to_set() == self.tips@,
                it.seq().unref().no_duplicates(),
            ensures
                res@ =~= it.seq().unref(),
        {
            res.push(*x);
            proof {
                assert(it.seq().take(it.index() as int + 1).map_values(|r: &BlockId| *r) =~= res@);
            }
        }
        res
    }
}

} // verus!
