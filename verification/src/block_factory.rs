//! The block factory: a new block approves the current tips.
use crate::tip_selection::TipSelection;
use crate::types::{Block, BlockId, BlockView, IssuerId, NetworkBlock};
use vstd::prelude::*;

verus! {

/// Builds the blocks that a validator issues.
pub struct BlockFactory {}

/// `b` is a block `id` of `issuer` whose parents are the tips `tips`, each once.
pub open spec fn approves_tips(b: BlockView, id: BlockId, issuer: IssuerId, tips: Set<BlockId>) -> bool {
    &&& b matches BlockView::Network(i, parents, iss)
    &&& i == id
    &&& iss == issuer
    &&& parents.no_duplicates()
    &&& parents.to_set() == tips
}

impl BlockFactory {
    pub fn new() -> (res: BlockFactory) {
        BlockFactory {}
    }

    /// A block of `issuer`, stored under `id`, whose parents are the current
    /// tips, each once, in no particular order.
    pub fn create_block(&self, tip_selection: &TipSelection, id: BlockId, issuer: IssuerId) -> (res: Block)
        ensures
            approves_tips(res@, id, issuer, tip_selection@),
    {
        Block::NetworkBlock(id, NetworkBlock { parents: tip_selection.get(), issuer_id: issuer })
    }

    /// The same block as `create_block`.
    pub fn new_block(&self, tip_selection: &TipSelection, id: BlockId, issuer: IssuerId) -> (res: Block)
        ensures
            approves_tips(res@, id, issuer, tip_selection@),
    {
        self.create_block(tip_selection, id, issuer)
    }
}

} // verus!
