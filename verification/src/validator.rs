//! The validator: when a round completes, it issues a block that approves the
//! current tips and hands it to the inbox.
use crate::block_factory::{BlockFactory, approves_tips};
use crate::config::{Config, ValidatorConfigParams};
use crate::inbox::Inbox;
use crate::tip_selection::TipSelection;
use crate::types::{Block, BlockId, IssuerId};
use vstd::prelude::*;

verus! {

/// A validator and the parameters of its configuration, which name the
/// identifier it issues blocks under.
pub struct Validator {
    pub params: Option<ValidatorConfigParams>,
}

impl Validator {
    /// The validator of the configuration. Issuing a block needs the
    /// configuration to name the validator's identifier.
    pub fn new<H>(config: &Config<H>) -> (res: Validator)
        ensures
            res.params == config.protocol_params.validator,
    {
        Validator { params: config.params() }
    }

    /// The identifier the validator issues blocks under, which the
    /// configuration must name.
    pub fn validator_id(&self) -> (res: IssuerId)
        requires
            self.params is Some,
        ensures
            res == self.params->0.validator_id,
    {
        match self.params {
            Some(p) => p.validator_id,
            None => 0,
        }
    }

    /// Reacts to an update of the completed round: when it changed, block `id`
    /// is issued as `on_round_completed` does and its result comes back;
    /// otherwise nothing happens.
    pub fn on_round_update(
        &self,
        completed_changed: bool,
        factory: &BlockFactory,
        tip_selection: &TipSelection,
        inbox: &mut Inbox,
        id: BlockId,
    ) -> (res: Option<Result<(), Block>>)
        requires
            completed_changed ==> self.params is Some,
        ensures
            !completed_changed ==> res is None && final(inbox).pending() == old(inbox).pending()
                && final(inbox).is_open() == old(inbox).is_open(),
            completed_changed ==> res is Some,
            final(inbox).is_open() == old(inbox).is_open(),
            completed_changed && old(inbox).is_open() ==> (res matches Some(Ok(_)))
                && final(inbox).pending().len() == old(inbox).pending().len() + 1
                && final(inbox).pending().drop_last() == old(inbox).pending()
                && approves_tips(final(inbox).pending().last(), id, self.params->0.validator_id, tip_selection@),
            completed_changed && !old(inbox).is_open() ==> (res matches Some(Err(b)) && approves_tips(
                b@,
                id,
                self.params->0.validator_id,
                tip_selection@,
            ) && final(inbox).pending() == old(inbox).pending()),
    {
        if completed_changed {
            Some(self.on_round_completed(factory, tip_selection, inbox, id))
        } else {
            None
        }
    }

    /// Issues block `id` when a round completes: it approves the current tips and
    /// goes to the inbox. A closed inbox hands it back.
    pub fn on_round_completed(
        &self,
        factory: &BlockFactory,
        tip_selection: &TipSelection,
        inbox: &mut Inbox,
        id: BlockId,
    ) -> (res: Result<(), Block>)
        requires
            self.params is Some,
        ensures
            final(inbox).is_open() == old(inbox).is_open(),
            old(inbox).is_open() ==> res is Ok && final(inbox).pending().len() == old(inbox).pending().len() + 1
                && final(inbox).pending().drop_last() == old(inbox).pending()
                && approves_tips(final(inbox).pending().last(), id, self.params->0.validator_id, tip_selection@),
            !old(inbox).is_open() ==> (res matches Err(b) && approves_tips(b@, id, self.params->0.validator_id, tip_selection@)
                && final(inbox).pending() == old(inbox).pending()),
    {
        let block = factory.create_block(tip_selection, id, self.validator_id());
        let ghost v = block@;
        let res = inbox.send(block);
        proof {
            if old(inbox).is_open() {
                assert(inbox.pending().drop_last() =~= old(inbox).pending());
            }
        }
        res
    }
}

} // verus!
