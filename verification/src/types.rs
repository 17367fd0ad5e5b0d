//! Plain data shared by the protocol components: block identifiers, blocks,
//! committee members and committees.
use vstd::prelude::*;

verus! {

/// Identifier of a block. Blocks are found again by this number.
pub type BlockId = u64;

/// Identifier of a block issuer (a validator).
pub type IssuerId = u64;

/// The identifier that the genesis block is stored under.
pub const GENESIS_ID: u64 = 0;

/// A block that a validator issued: the blocks it approves and its issuer.
pub struct NetworkBlock {
    pub parents: Vec<BlockId>,
    pub issuer_id: IssuerId,
}

/// A block of the DAG, carrying its identifier.
pub enum Block {
    GenesisBlock(BlockId),
    NetworkBlock(BlockId, NetworkBlock),
}

/// The mathematical value of a block.
pub enum BlockView {
    Genesis(BlockId),
    Network(BlockId, Seq<BlockId>, IssuerId),
}

impl BlockView {
    pub open spec fn id(self) -> BlockId {
        match self {
            BlockView::Genesis(id) => id,
            BlockView::Network(id, _, _) => id,
        }
    }

    pub open spec fn parents(self) -> Seq<BlockId> {
        match self {
            BlockView::Genesis(_) => Seq::empty(),
            BlockView::Network(_, parents, _) => parents,
        }
    }
}

impl View for Block {
    type V = BlockView;

    open spec fn view(&self) -> BlockView {
        match self {
            Block::GenesisBlock(id) => BlockView::Genesis(*id),
            Block::NetworkBlock(id, nb) => BlockView::Network(*id, nb.parents@, nb.issuer_id),
        }
    }
}

impl NetworkBlock {
    /// A copy of this block.
    pub fn duplicate(&self) -> (res: NetworkBlock)
        ensures
            res.parents@ == self.parents@,
            res.issuer_id == self.issuer_id,
    {
        NetworkBlock { parents: copy_ids(&self.parents), issuer_id: self.issuer_id }
    }
}

impl Block {
    pub fn id(&self) -> (res: BlockId)
        ensures
            res == self@.id(),
    {
        match self {
            Block::GenesisBlock(id) => *id,
            Block::NetworkBlock(id, _) => *id,
        }
    }

    /// The parents of the block, in the order the block lists them.
    pub fn parents(&self) -> (res: Vec<BlockId>)
        ensures
            res@ == self@.parents(),
    {
        match self {
            Block::GenesisBlock(_) => Vec::new(),
            Block::NetworkBlock(_, nb) => copy_ids(&nb.parents),
        }
    }

    /// A copy of this block.
    pub fn duplicate(&self) -> (res: Block)
        ensures
            res@ == self@,
    {
        match self {
            Block::GenesisBlock(id) => Block::GenesisBlock(*id),
            Block::NetworkBlock(id, nb) => Block::NetworkBlock(*id, nb.duplicate()),
        }
    }
}

/// A copy of a list of identifiers.
pub fn copy_ids(ids: &Vec<u64>) -> (res: Vec<u64>)
    ensures
        res@ == ids@,
{
    let mut res: Vec<u64> = Vec::new();
    let mut i: usize = 0;
    while i < ids.len()
        invariant
            i <= ids.len(),
            res@ == ids@.subrange(0, i as int),
        decreases ids.len() - i,
    {
        res.push(ids[i]);
        i = i + 1;
        assert(res@ =~= ids@.subrange(0, i as int));
    }
    assert(ids@.subrange(0, ids.len() as int) =~= ids@);
    res
}

/// A committee member: its identifier and its voting weight.
#[derive(Clone, Copy, PartialEq, Eq, Structural, Debug)]
pub struct Member {
    pub id: IssuerId,
    pub weight: u64,
}

impl Member {
    pub fn new(id: IssuerId, weight: u64) -> (res: Member)
        ensures
            res.id == id,
            res.weight == weight,
    {
        Member { id, weight }
    }

    pub fn id(&self) -> (res: IssuerId)
        ensures
            res == self.id,
    {
        self.id
    }

    pub fn weight(&self) -> (res: u64)
        ensures
            res == self.weight,
    {
        self.weight
    }
}

/// A committee: its members and the weight that must be exceeded for consensus.
pub struct Committee {
    pub members: Vec<Member>,
    pub threshold: u64,
}

/// The member of `members` with identifier `id`: the first one listed.
pub open spec fn find_member(members: Seq<Member>, id: IssuerId) -> Option<Member>
    decreases members.len(),
{
    if members.len() == 0 {
        None
    } else if members[0].id == id {
        Some(members[0])
    } else {
        find_member(members.drop_first(), id)
    }
}

impl Committee {
    /// Two committees have the same commitment: same members in the same order, same threshold.
    pub open spec fn same_commitment(&self, other: &Committee) -> bool {
        self.members@ == other.members@ && self.threshold == other.threshold
    }

    pub fn new(members: Vec<Member>, threshold: u64) -> (res: Committee)
        ensures
            res.members@ == members@,
            res.threshold == threshold,
    {
        Committee { members, threshold }
    }

    /// The member with identifier `issuer`, if the committee has one.
    pub fn member(&self, issuer: IssuerId) -> (res: Option<Member>)
        ensures
            res == find_member(self.members@, issuer),
    {
        let mut i: usize = 0;
        assert(self.members@.subrange(0, self.members@.len() as int) =~= self.members@);
        while i < self.members.len()
            invariant
                i <= self.members.len(),
                find_member(self.members@, issuer) == find_member(
                    self.members@.subrange(i as int, self.members@.len() as int),
                    issuer,
                ),
            decreases self.members.len() - i,
        {
            let ghost rest = self.members@.subrange(i as int, self.members@.len() as int);
            if self.members[i].id == issuer {
                return Some(self.members[i]);
            }
            assert(rest.drop_first() =~= self.members@.subrange(
                i + 1,
                self.members@.len() as int,
            ));
            i = i + 1;
        }
        None
    }

    /// The consensus threshold of the committee and its total weight.
    pub fn consensus_threshold(&self) -> (res: u64)
        ensures
            res == self.threshold,
    {
        self.threshold
    }

    /// Whether two committees have the same commitment.
    pub fn commitment_eq(&self, other: &Committee) -> (res: bool)
        ensures
            res == self.same_commitment(other),
    {
        if self.threshold != other.threshold || self.members.len() != other.members.len() {
            return false;
        }
        let mut i: usize = 0;
        while i < self.members.len()
            invariant
                i <= self.members.len(),
                self.members.len() == other.members.len(),
                forall|j: int| 0 <= j < i ==> self.members@[j] == other.members@[j],
            decreases self.members.len() - i,
        {
            if self.members[i] != other.members[i] {
                return false;
            }
            i = i + 1;
        }
        assert(self.members@ =~= other.members@);
        true
    }

    /// A copy of this committee.
    pub fn duplicate(&self) -> (res: Committee)
        ensures
            res.members@ == self.members@,
            res.threshold == self.threshold,
    {
        let mut members: Vec<Member> = Vec::new();
        let mut i: usize = 0;
        while i < self.members.len()
            invariant
                i <= self.members.len(),
                members@ == self.members@.subrange(0, i as int),
            decreases self.members.len() - i,
        {
            members.push(self.members[i]);
            i = i + 1;
            assert(members@ =~= self.members@.subrange(0, i as int));
        }
        assert(self.members@.subrange(0, self.members.len() as int) =~= self.members@);
        Committee { members, threshold: self.threshold }
    }
}

} // verus!
