//! The errors of the protocol.
use crate::block_dag::DagError;
use crate::vote::VotingError;
use vstd::prelude::*;

verus! {

/// An error of the block DAG or of virtual voting.
#[derive(Clone, Copy, PartialEq, Eq, Structural, Debug)]
pub enum ProtocolError {
    BlockDagError(DagError),
    VirtualVotingError(VotingError),
}

impl ProtocolError {
    /// The protocol error for a DAG error.
    pub fn from_dag(e: DagError) -> (res: ProtocolError)
        ensures
            res == ProtocolError::BlockDagError(e),
    {
        ProtocolError::BlockDagError(e)
    }

    /// The protocol error for a voting error.
    pub fn from_voting(e: VotingError) -> (res: ProtocolError)
        ensures
            res == ProtocolError::VirtualVotingError(e),
    {
        ProtocolError::VirtualVotingError(e)
    }
}

} // verus!
