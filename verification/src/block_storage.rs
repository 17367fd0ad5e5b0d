//! Block storage: one address per block identifier, filled at most once.
use crate::types::{Block, BlockId, BlockView, GENESIS_ID};
use std::collections::HashMap;
use vstd::prelude::*;

verus! {

broadcast use vstd::std_specs::hash::group_hash_axioms;

/// The blocks known by identifier. An identifier has an address once some
/// component asked for it; the address holds the block once it was stored.
pub struct BlockStorage {
    blocks: HashMap<BlockId, Option<Block>>,
}

/// The block stored under `id` in the addresses `m`, if any.
pub open spec fn stored_in(m: Map<BlockId, Option<BlockView>>, id: BlockId) -> Option<BlockView> {
    if m.contains_key(id) {
        m[id]
    } else {
        None
    }
}

/// The addresses `m` after storing `b`: unchanged when its address already
/// holds a block, else its address holds `b`.
pub open spec fn after_insert(m: Map<BlockId, Option<BlockView>>, b: BlockView) -> Map<BlockId, Option<BlockView>> {
    if stored_in(m, b.id()) is Some {
        m
    } else {
        m.insert(b.id(), Some(b))
    }
}

/// Law: the first block stored under an identifier wins. Storing any block under
/// the same identifier again changes nothing.
pub proof fn law_insert_first_wins(m: Map<BlockId, Option<BlockView>>, a: BlockView, b: BlockView)
    requires
        a.id() == b.id(),
    ensures
        after_insert(after_insert(m, a), b) == after_insert(m, a),
{
}

/// Law: reading after storing. After `b` is stored, a read of its identifier
/// gives the block that was there before, or else `b`; a read of any other
/// identifier gives what it gave before.
pub proof fn law_read_after_insert(m: Map<BlockId, Option<BlockView>>, b: BlockView, x: BlockId)
    ensures
        stored_in(after_insert(m, b), b.id()) == Some(
            match stored_in(m, b.id()) {
                Some(e) => e,
                None => b,
            },
        ),
        x != b.id() ==> stored_in(after_insert(m, b), x) == stored_in(m, x),
{
}

/// The value an address holds, as a mathematical value.
pub open spec fn slot_view(slot: Option<Block>) -> Option<BlockView> {
    match slot {
        Some(b) => Some(b@),
        None => None,
    }
}

impl View for BlockStorage {
    type V = Map<BlockId, Option<BlockView>>;

    closed spec fn view(&self) -> Map<BlockId, Option<BlockView>> {
        Map::new(|id: BlockId| self.blocks@.contains_key(id), |id: BlockId| slot_view(self.blocks@[id]))
    }
}

impl BlockStorage {
    /// Every stored block is stored under its own identifier.
    pub closed spec fn wf(&self) -> bool {
        forall|id: BlockId| #[trigger]
            self.blocks@.contains_key(id) && self.blocks@[id] is Some ==> self.blocks@[id]->0@.id()
                == id
    }

    /// The block stored under `id`, if any.
    pub open spec fn stored(&self, id: BlockId) -> Option<BlockView> {
        stored_in(self@, id)
    }

    /// Law: every stored block is stored under its own identifier.
    pub proof fn law_stored_under_own_id(&self)
        requires
            self.wf(),
        ensures
            forall|id: BlockId| #[trigger]
                self@.contains_key(id) && self@[id] is Some ==> self@[id]->0.id() == id,
    {
    }

    /// Only finitely many identifiers have an address.
    pub proof fn lemma_finite(&self)
        ensures
            self@.dom().finite(),
    {
        assert(self@.dom() =~= self.blocks@.dom());
    }

    /// An empty storage.
    pub fn new() -> (res: BlockStorage)
        ensures
            res.wf(),
            res@ == Map::<BlockId, Option<BlockView>>::empty(),
    {
        let res = BlockStorage { blocks: HashMap::new() };
        assert(res@ =~= Map::<BlockId, Option<BlockView>>::empty());
        res
    }

    /// Allocates the address of `id` if it has none. Returns whether the address
    /// is new (the event announcing a new address fires exactly then).
    pub fn address(&mut self, id: BlockId) -> (is_new: bool)
        requires
            old(self).wf(),
        ensures
            final(self).wf(),
            is_new == !old(self)@.contains_key(id),
            final(self)@ == if is_new {
                old(self)@.insert(id, None)
            } else {
                old(self)@
            },
    {
        if self.blocks.contains_key(&id) {
            false
        } else {
            self.blocks.insert(id, None);
            assert(self@ =~= old(self)@.insert(id, None));
            true
        }
    }

    /// Stores `block` unless its address already holds a block; returns the block
    /// the address holds afterwards and whether the address was new.
    pub fn insert(&mut self, block: Block) -> (res: (Block, bool))
        requires
            old(self).wf(),
        ensures
            final(self).wf(),
            final(self)@ == after_insert(old(self)@, block@),
            res.1 == !old(self)@.contains_key(block@.id()),
            match old(self).stored(block@.id()) {
                Some(existing) => {
                    &&& final(self)@ == old(self)@
                    &&& res.0@ == existing
                },
                None => {
                    &&& final(self)@ == old(self)@.insert(block@.id(), Some(block@))
                    &&& res.0@ == block@
                },
            },
    {
        let id = block.id();
        let is_new = self.address(id);
        assert(self@.contains_key(id));
        assert(self.blocks@.contains_key(id));
        let current = self.blocks.get(&id);
        match current {
            Some(Some(existing)) => {
                let copy = existing.duplicate();
                assert(self.blocks@[id] == Some(*existing));
                assert(self@[id] == Some(existing@));
                (copy, is_new)
            },
            _ => {
                assert(self@[id] is None);
                let copy = block.duplicate();
                let ghost before = self.blocks@;
                let ghost mid = self@;
                assert(forall|k: BlockId| #[trigger] mid.contains_key(k) == before.contains_key(k));
                assert(forall|k: BlockId| before.contains_key(k) ==> #[trigger] mid[k] == slot_view(before[k]));
                self.blocks.insert(id, Some(block));
                assert(self.blocks@ == before.insert(id, Some(block)));
                assert forall|k: BlockId| #[trigger] self@.contains_key(k) == old(self)@.insert(id, Some(copy@)).contains_key(k) by {}
                assert forall|k: BlockId| self@.contains_key(k) implies #[trigger] self@[k] == old(self)@.insert(id, Some(copy@))[k] by {
                    if k != id {
                        assert(self.blocks@[k] == before[k]);
                        assert(mid[k] == slot_view(before[k]));
                    }
                }
                assert(self@ =~= old(self)@.insert(id, Some(copy@)));
                (copy, is_new)
            },
        }
    }

    /// The block stored under `id`, if any.
    pub fn get(&self, id: BlockId) -> (res: Option<Block>)
        ensures
            match self.stored(id) {
                Some(b) => res is Some && res->0@ == b,
                None => res is None,
            },
    {
        match self.blocks.get(&id) {
            Some(Some(b)) => Some(b.duplicate()),
            _ => None,
        }
    }

    /// Whether a block is stored under `id`.
    pub fn contains(&self, id: BlockId) -> (res: bool)
        ensures
            res == (self.stored(id) is Some),
    {
        match self.blocks.get(&id) {
            Some(Some(_)) => true,
            _ => false,
        }
    }

    /// Stores the genesis block, as the storage does when it starts.
    pub fn start(&mut self) -> (res: (Block, bool))
        requires
            old(self).wf(),
        ensures
            final(self).wf(),
            res.1 == !old(self)@.contains_key(GENESIS_ID),
            match old(self).stored(GENESIS_ID) {
                Some(existing) => final(self)@ == old(self)@ && res.0@ == existing,
                None => final(self)@ == old(self)@.insert(
                    GENESIS_ID,
                    Some(BlockView::Genesis(GENESIS_ID)),
                ) && res.0@ == BlockView::Genesis(GENESIS_ID),
            },
    {
        self.insert(Block::GenesisBlock(GENESIS_ID))
    }

    /// Forgets every address, as the storage does when it shuts down.
    pub fn shutdown(&mut self)
        ensures
            final(self).wf(),
            final(self)@ == Map::<BlockId, Option<BlockView>>::empty(),
    {
        self.blocks.clear();
        assert(self@ =~= Map::<BlockId, Option<BlockView>>::empty());
    }
}

} // verus!
