//! The inbox: blocks received from the network wait here, in arrival order,
//! until a worker stores them; once shut down it refuses new blocks.
use crate::types::{Block, BlockView};
use std::collections::VecDeque;
use vstd::prelude::*;

verus! {

/// The inbox queue and whether it still accepts blocks.
pub struct Inbox {
    open: bool,
    queue: VecDeque<Block>,
}

impl Inbox {
    /// Whether the inbox accepts blocks.
    pub closed spec fn is_open(&self) -> bool {
        self.open
    }

    /// The blocks waiting, oldest first.
    pub closed spec fn pending(&self) -> Seq<BlockView> {
        self.queue@.map_values(|b: Block| b@)
    }

    /// An open, empty inbox.
    pub fn new() -> (res: Inbox)
        ensures
            res.is_open(),
            res.pending() == Seq::<BlockView>::empty(),
    {
        let res = Inbox { open: true, queue: VecDeque::new() };
        assert(res.pending() =~= Seq::<BlockView>::empty());
        res
    }

    /// Queues `block`, or hands it back when the inbox is shut down.
    pub fn send(&mut self, block: Block) -> (res: Result<(), Block>)
        ensures
            final(self).is_open() == old(self).is_open(),
            old(self).is_open() ==> res is Ok && final(self).pending() == old(self).pending().push(block@),
            !old(self).is_open() ==> (res matches Err(b) && b@ == block@ && final(self).pending() == old(self).pending()),
    {
        if self.open {
            let ghost v = block@;
            self.queue.push_back(block);
            assert(self.pending() =~= old(self).pending().push(v));
            Ok(())
        } else {
            Err(block)
        }
    }

    /// Takes the oldest waiting block, if any.
    pub fn receive(&mut self) -> (res: Option<Block>)
        ensures
            final(self).is_open() == old(self).is_open(),
            old(self).pending().len() == 0 ==> res is None && final(self).pending() == old(self).pending(),
            old(self).pending().len() > 0 ==> (res matches Some(b) && b@ == old(self).pending()[0]
                && final(self).pending() == old(self).pending().drop_first()),
    {
        let res = self.queue.pop_front();
        assert(self.pending() =~= if old(self).pending().len() == 0 { old(self).pending() } else { old(self).pending().drop_first() });
        res
    }

    /// Stops accepting blocks; the waiting ones can still be taken.
    pub fn shutdown(&mut self)
        ensures
            !final(self).is_open(),
            final(self).pending() == old(self).pending(),
    {
        self.open = false;
    }
}

} // verus!
