//! The outbox: a block goes out once tip selection has processed it, in that
//! order, until the outbox shuts down.
use crate::block_dag::{BlockDAG, DagError};
use crate::tip_selection::{TipSelection, tips_after};
use crate::types::{Block, BlockView};
use std::collections::VecDeque;
use vstd::prelude::*;

verus! {

/// The blocks waiting to be sent and whether the outbox still forwards blocks.
pub struct Outbox {
    forwarding: bool,
    queue: VecDeque<Block>,
}

impl Outbox {
    /// Whether the outbox forwards blocks.
    pub closed spec fn is_forwarding(&self) -> bool {
        self.forwarding
    }

    /// The blocks waiting to be sent, oldest first.
    pub closed spec fn pending(&self) -> Seq<BlockView> {
        self.queue@.map_values(|b: Block| b@)
    }

    /// A forwarding, empty outbox.
    pub fn new() -> (res: Outbox)
        ensures
            res.is_forwarding(),
            res.pending() == Seq::<BlockView>::empty(),
    {
        let res = Outbox { forwarding: true, queue: VecDeque::new() };
        assert(res.pending() =~= Seq::<BlockView>::empty());
        res
    }

    /// A block that tip selection processed: queued to be sent while the outbox
    /// forwards, dropped after it shut down. Returns whether it was queued.
    pub fn forward(&mut self, block: Block) -> (res: bool)
        ensures
            res == old(self).is_forwarding(),
            final(self).is_forwarding() == old(self).is_forwarding(),
            res ==> final(self).pending() == old(self).pending().push(block@),
            !res ==> final(self).pending() == old(self).pending(),
    {
        if self.forwarding {
            let ghost v = block@;
            self.queue.push_back(block);
            assert(self.pending() =~= old(self).pending().push(v));
            true
        } else {
            false
        }
    }

    /// A block became available: tip selection processes it, and once it did,
    /// the outbox forwards the block. A block that tip selection fails on is not
    /// forwarded. Returns the result of tip selection and whether the block was
    /// queued.
    pub fn on_block_available(&mut self, tip_selection: &mut TipSelection, dag: &BlockDAG, block: Block) -> (res: (
        Result<(), DagError>,
        bool,
    ))
        requires
            dag.wf(),
        ensures
            res.0 is Err <==> (!dag.is_stored(block@.id()) || exists|k: int|
                0 <= k < dag.parents_of(block@.id()).len() && !dag.is_stored(
                    #[trigger] dag.parents_of(block@.id())[k],
                )),
            res.0 is Err ==> final(tip_selection)@ == old(tip_selection)@,
            res.0 is Ok ==> final(tip_selection)@ == tips_after(
                old(tip_selection)@,
                dag.parents_of(block@.id()),
                block@.id(),
            ),
            !dag.is_stored(block@.id()) ==> res.0 matches Err(DagError::MetadataNotFound),
            dag.is_stored(block@.id()) && res.0 is Err ==> res.0 matches Err(DagError::BlockNotFound),
            res.1 == (res.0 is Ok && old(self).is_forwarding()),
            final(self).is_forwarding() == old(self).is_forwarding(),
            res.1 ==> final(self).pending() == old(self).pending().push(block@),
            !res.1 ==> final(self).pending() == old(self).pending(),
    {
        let processed = tip_selection.process_block(dag, block.id());
        match processed {
            Ok(()) => {
                let queued = self.forward(block);
                (Ok(()), queued)
            },
            Err(e) => (Err(e), false),
        }
    }

    /// Takes the oldest block waiting to be sent, if any.
    pub fn receive(&mut self) -> (res: Option<Block>)
        ensures
            final(self).is_forwarding() == old(self).is_forwarding(),
            old(self).pending().len() == 0 ==> res is None && final(self).pending() == old(self).pending(),
            old(self).pending().len() > 0 ==> (res matches Some(b) && b@ == old(self).pending()[0]
                && final(self).pending() == old(self).pending().drop_first()),
    {
        let res = self.queue.pop_front();
        assert(self.pending() =~= if old(self).pending().len() == 0 {
            old(self).pending()
        } else {
            old(self).pending().drop_first()
        });
        res
    }

    /// Stops forwarding blocks; the waiting ones can still be taken.
    pub fn shutdown(&mut self)
        ensures
            !final(self).is_forwarding(),
            final(self).pending() == old(self).pending(),
    {
        self.forwarding = false;
    }
}

} // verus!
