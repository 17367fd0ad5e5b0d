//! The block DAG: stores blocks and makes a block available once it and all
//! of its parents are available (solidification), and walks the past cone of
//! a block.
use crate::block_storage::BlockStorage;
use crate::index_set::{index_set_get_index, index_set_insert, index_set_items, index_set_len, index_set_new};
use crate::types::{Block, BlockId, BlockView};
use indexmap::IndexSet;
use std::collections::{HashMap, HashSet};
use vstd::prelude::*;

verus! {

broadcast use vstd::std_specs::hash::group_hash_axioms;

/// Why a walk over the DAG failed.
#[derive(Clone, Copy, PartialEq, Eq, Structural, Debug)]
pub enum DagError {
    /// A block that the walk reached is not stored.
    BlockNotFound,
    /// A block that the walk reached carries no metadata to decide on it.
    MetadataNotFound,
}

/// Addresses after allocating one for each identifier in `ids` that has none.
pub open spec fn allocate(m: Map<BlockId, Option<BlockView>>, ids: Seq<BlockId>) -> Map<
    BlockId,
    Option<BlockView>,
> {
    Map::new(
        |k: BlockId| m.contains_key(k) || ids.contains(k),
        |k: BlockId|
            if m.contains_key(k) {
                m[k]
            } else {
                None
            },
    )
}

/// The blocks stored, their availability and who waits on whom.
pub struct BlockDAG {
    storage: BlockStorage,
    available: HashSet<BlockId>,
    children: HashMap<BlockId, Vec<BlockId>>,
    order: Ghost<Seq<BlockId>>,
}

impl BlockDAG {
    /// The addresses of the storage: a block, or `None` while only asked for.
    pub closed spec fn blocks(&self) -> Map<BlockId, Option<BlockView>> {
        self.storage@
    }

    /// The blocks that are available.
    pub closed spec fn available_set(&self) -> Set<BlockId> {
        self.available@
    }

    /// The available blocks, in the order in which they became available.
    pub closed spec fn available_order(&self) -> Seq<BlockId> {
        self.order@
    }

    pub open spec fn is_stored(&self, x: BlockId) -> bool {
        self.blocks().contains_key(x) && self.blocks()[x] is Some
    }

    pub open spec fn parents_of(&self, x: BlockId) -> Seq<BlockId> {
        self.blocks()[x]->0.parents()
    }

    pub open spec fn all_parents_available(&self, x: BlockId) -> bool {
        forall|k: int|
            0 <= k < self.parents_of(x).len() ==> self.available_set().contains(
                #[trigger] self.parents_of(x)[k],
            )
    }

    /// Every available block comes after all of its parents in `available_order`.
    pub open spec fn parents_precede(&self) -> bool {
        forall|i: int, k: int|
            0 <= i < self.available_order().len() && 0 <= k < self.parents_of(
                self.available_order()[i],
            ).len() ==> #[trigger] self.available_order().subrange(0, i).contains(
                self.parents_of(self.available_order()[i])[k],
            )
    }

    /// `x` waits on its parent `w`: when `w` becomes available, `x` is checked again.
    closed spec fn waits_on(&self, x: BlockId, w: BlockId) -> bool {
        &&& self.parents_of(x).contains(w)
        &&& self.children@.contains_key(w)
        &&& self.children@[w]@.contains(x)
    }

    /// The parts of the state that hold at all times, propagation in progress or not.
    closed spec fn core_wf(&self) -> bool {
        &&& self.storage.wf()
        &&& self.order@.no_duplicates()
        &&& forall|x: BlockId| #[trigger]
            self.available@.contains(x) <==> self.order@.contains(x)
        &&& forall|x: BlockId| #[trigger] self.available@.contains(x) ==> self.is_stored(x)
        &&& forall|x: BlockId, k: int|
            self.is_stored(x) && 0 <= k < self.parents_of(x).len() ==> self.blocks().contains_key(
                #[trigger] self.parents_of(x)[k],
            )
        &&& self.parents_precede()
        &&& forall|x: BlockId, k: int|
            self.is_stored(x) && !self.available@.contains(x) && 0 <= k < self.parents_of(
                x,
            ).len() && !self.available@.contains(#[trigger] self.parents_of(x)[k])
                ==> self.waits_on(x, self.parents_of(x)[k])
    }

    /// The DAG is consistent: on top of `core_wf`, every stored block whose
    /// parents are all available is available.
    pub closed spec fn wf(&self) -> bool {
        &&& self.core_wf()
        &&& forall|x: BlockId| #[trigger]
            self.is_stored(x) && self.all_parents_available(x) ==> self.available@.contains(x)
    }

    /// Law: a block is available exactly when it is stored and all of its parents
    /// are available, and the parents of an available block became available before it.
    pub proof fn law_availability(&self)
        requires
            self.wf(),
        ensures
            forall|x: BlockId| #[trigger]
                self.available_set().contains(x) ==> self.is_stored(x)
                    && self.all_parents_available(x),
            forall|x: BlockId| #[trigger]
                self.is_stored(x) && self.all_parents_available(x) ==> self.available_set().contains(
                    x,
                ),
            self.parents_precede(),
            self.available_order().no_duplicates(),
            forall|x: BlockId| #[trigger]
                self.available_set().contains(x) <==> self.available_order().contains(x),
            forall|x: BlockId, k: int|
                self.is_stored(x) && 0 <= k < self.parents_of(x).len() ==> self.blocks().contains_key(
                    #[trigger] self.parents_of(x)[k],
                ),
    {
        assert forall|x: BlockId| #[trigger]
            self.available_set().contains(x) implies self.is_stored(x)
            && self.all_parents_available(x) by {
            assert(self.order@.contains(x));
            let i = choose|i: int| 0 <= i < self.order@.len() && self.order@[i] == x;
            assert forall|k: int| 0 <= k < self.parents_of(x).len() implies self.available_set().contains(
                #[trigger] self.parents_of(x)[k],
            ) by {
                assert(self.available_order().subrange(0, i).contains(
                    self.parents_of(self.available_order()[i])[k],
                ));
                let j = choose|j: int|
                    0 <= j < i && self.order@.subrange(0, i)[j] == self.parents_of(x)[k];
                assert(self.order@.contains(self.order@[j]));
            }
        }
    }

    proof fn lemma_storage_finite(&self)
        ensures
            self.blocks().dom().finite(),
    {
        self.storage.lemma_finite();
    }

    /// An empty DAG.
    pub fn new() -> (res: BlockDAG)
        ensures
            res.wf(),
            res.blocks() == Map::<BlockId, Option<BlockView>>::empty(),
            res.available_set() == Set::<BlockId>::empty(),
            res.available_order() == Seq::<BlockId>::empty(),
    {
        let res = BlockDAG {
            storage: BlockStorage::new(),
            available: HashSet::new(),
            children: HashMap::new(),
            order: Ghost(Seq::empty()),
        };
        res
    }

    /// Whether the block is available.
    pub fn is_available(&self, id: BlockId) -> (res: bool)
        ensures
            res == self.available_set().contains(id),
    {
        self.available.contains(&id)
    }

    /// The block stored under `id`, if any.
    pub fn get(&self, id: BlockId) -> (res: Option<Block>)
        requires
            self.wf(),
        ensures
            self.is_stored(id) ==> res is Some && res->0@ == self.blocks()[id]->0,
            !self.is_stored(id) ==> res is None,
    {
        self.storage.get(id)
    }

    /// Whether a block is stored under `id`.
    pub fn contains(&self, id: BlockId) -> (res: bool)
        ensures
            res == self.is_stored(id),
    {
        self.storage.contains(id)
    }

    /// Whether every parent of the stored block `id` is available.
    fn parents_available(&self, parents: &Vec<BlockId>) -> (res: bool)
        ensures
            res == forall|k: int| 0 <= k < parents@.len() ==> self.available@.contains(#[trigger] parents@[k]),
    {
        let mut i: usize = 0;
        while i < parents.len()
            invariant
                i <= parents.len(),
                forall|k: int| 0 <= k < i ==> self.available@.contains(#[trigger] parents@[k]),
            decreases parents.len() - i,
        {
            if !self.available.contains(&parents[i]) {
                return false;
            }
            i = i + 1;
        }
        true
    }

    /// After marking blocks available, every stored block whose parents are all
    /// available but which is not yet available waits on a block of `newly[head..]`.
    closed spec fn pending_covered(&self, newly: Seq<BlockId>, head: int) -> bool {
        forall|x: BlockId| #[trigger]
            self.is_stored(x) && !self.available@.contains(x) && self.all_parents_available(x)
                ==> exists|j: int| head <= j < newly.len() && #[trigger] self.waits_on(x, newly[j])
    }

    /// Marks the stored block `x`, whose parents are all available, as available.
    fn mark_available(&mut self, x: BlockId, newly: &mut Vec<BlockId>)
        requires
            old(self).core_wf(),
            old(self).is_stored(x),
            !old(self).available@.contains(x),
            old(self).all_parents_available(x),
        ensures
            final(self).core_wf(),
            final(self).storage == old(self).storage,
            final(self).children == old(self).children,
            final(self).available@ == old(self).available@.insert(x),
            final(self).order@ == old(self).order@.push(x),
            final(newly)@ == old(newly)@.push(x),
    {
        let ghost old_order = self.order@;
        self.available.insert(x);
        proof {
            self.order@ = self.order@.push(x);
        }
        newly.push(x);
        proof {
            let n = old_order.len() as int;
            assert(self.order@.subrange(0, n) =~= old_order);
            assert forall|y: BlockId| #[trigger]
                self.available@.contains(y) <==> self.order@.contains(y) by {
                if y == x {
                    assert(self.order@[n] == x);
                } else if old_order.contains(y) {
                    let j = choose|j: int| 0 <= j < old_order.len() && old_order[j] == y;
                    assert(self.order@[j] == y);
                } else if self.order@.contains(y) {
                    let j = choose|j: int| 0 <= j < self.order@.len() && self.order@[j] == y;
                    assert(old_order[j] == y);
                }
            }
            assert forall|i: int, k: int|
                0 <= i < self.available_order().len() && 0 <= k < self.parents_of(
                    self.available_order()[i],
                ).len() implies #[trigger] self.available_order().subrange(0, i).contains(
                self.parents_of(self.available_order()[i])[k],
            ) by {
                if i < n {
                    assert(self.available_order().subrange(0, i) =~= old_order.subrange(0, i));
                    assert(old(self).available_order().subrange(0, i).contains(
                        old(self).parents_of(old(self).available_order()[i])[k],
                    ));
                } else {
                    assert(self.parents_of(x) == old(self).parents_of(x));
                    let p = old(self).parents_of(x)[k];
                    assert(old(self).available_set().contains(p));
                    assert(old(self).available@.contains(p));
                    assert(old_order.contains(p));
                }
            }
            assert forall|y: BlockId, k: int|
                self.is_stored(y) && !self.available@.contains(y) && 0 <= k < self.parents_of(
                    y,
                ).len() && !self.available@.contains(#[trigger] self.parents_of(y)[k])
                    implies self.waits_on(y, self.parents_of(y)[k]) by {
                assert(self.parents_of(y) == old(self).parents_of(y));
                assert(old(self).is_stored(y));
                assert(!old(self).available@.contains(old(self).parents_of(y)[k]));
                assert(old(self).waits_on(y, old(self).parents_of(y)[k]));
            }
            assert forall|y: BlockId| #[trigger] self.available@.contains(y) implies self.is_stored(y) by {
                if y != x {
                    assert(old(self).available@.contains(y));
                }
            }
            assert forall|y: BlockId, k: int|
                self.is_stored(y) && 0 <= k < self.parents_of(y).len() implies self.blocks().contains_key(
                    #[trigger] self.parents_of(y)[k],
                ) by {
                assert(self.parents_of(y) == old(self).parents_of(y));
                assert(old(self).blocks().contains_key(old(self).parents_of(y)[k]));
            }
            assert(self.order@.no_duplicates()) by {
                assert(!old_order.contains(x));
                assert forall|a: int, b: int| 0 <= a < self.order@.len() && 0 <= b < self.order@.len() && a != b implies self.order@[a] != self.order@[b] by {
                    if a < n && b < n {
                    } else if a < n {
                        assert(old_order.contains(old_order[a]));
                    } else if b < n {
                        assert(old_order.contains(old_order[b]));
                    }
                }
            }
        }
    }

    /// Makes available every stored block that waits on a block of `newly[head..]`
    /// and whose parents are all available, until no such block is left.
    fn propagate(&mut self, newly: &mut Vec<BlockId>, head: usize, Ghost(order0): Ghost<Seq<BlockId>>)
        requires
            old(self).core_wf(),
            old(self).pending_covered(old(newly)@, head as int),
            head <= old(newly)@.len(),
            old(self).order@ == order0 + old(newly)@,
        ensures
            final(self).wf(),
            final(self).storage == old(self).storage,
            final(self).order@ == order0 + final(newly)@,
            final(newly)@.subrange(0, old(newly)@.len() as int) == old(newly)@,
    {
        let ghost newly0 = newly@;
        assert(newly@.subrange(0, newly0.len() as int) =~= newly0);
        let ghost bound = self.blocks().dom().len();
        proof {
            self.lemma_storage_finite();
        }
        let mut head = head;
        while head < newly.len()
            invariant
                self.core_wf(),
                self.storage == old(self).storage,
                self.children == old(self).children,
                self.blocks().dom().finite(),
                bound == self.blocks().dom().len(),
                self.pending_covered(newly@, head as int),
                head <= newly@.len(),
                newly0.len() <= newly@.len(),
                self.order@ == order0 + newly@,
                newly@.subrange(0, newly0.len() as int) == newly0,
            decreases bound - head,
        {
            proof {
                assert(newly@.no_duplicates()) by {
                    assert forall|a: int, b: int|
                        0 <= a < newly@.len() && 0 <= b < newly@.len() && a != b implies newly@[a]
                        != newly@[b] by {
                        assert(self.order@[order0.len() + a] == newly@[a]);
                        assert(self.order@[order0.len() + b] == newly@[b]);
                    }
                }
                assert(newly@.to_set().subset_of(self.blocks().dom())) by {
                    assert forall|y: BlockId| newly@.to_set().contains(y) implies self.blocks().dom().contains(y) by {
                        let j = choose|j: int| 0 <= j < newly@.len() && newly@[j] == y;
                        assert(self.order@[order0.len() + j] == y);
                        assert(self.order@.contains(y));
                        assert(self.available@.contains(y));
                    }
                }
                newly@.unique_seq_to_set();
                vstd::set_lib::lemma_len_subset(newly@.to_set(), self.blocks().dom());
            }
            let w = newly[head];
            let kids: Vec<BlockId> = match self.children.get(&w) {
                Some(v) => crate::types::copy_ids(v),
                None => Vec::new(),
            };
            let mut t: usize = 0;
            while t < kids.len()
                invariant
                    self.core_wf(),
                    self.storage == old(self).storage,
                    self.children == old(self).children,
                    self.order@ == order0 + newly@,
                    newly0.len() <= newly@.len(),
                    newly@.subrange(0, newly0.len() as int) == newly0,
                    head < newly@.len(),
                    w == newly@[head as int],
                    t <= kids@.len(),
                    self.children@.contains_key(w) ==> kids@ == self.children@[w]@,
                    !self.children@.contains_key(w) ==> kids@.len() == 0,
                    forall|x: BlockId| #[trigger]
                        self.is_stored(x) && !self.available@.contains(x)
                            && self.all_parents_available(x) ==> (exists|j: int|
                            head < j < newly@.len() && #[trigger] self.waits_on(x, newly@[j])) || (
                        exists|u: int| t <= u < kids@.len() && kids@[u] == x),
                decreases kids@.len() - t,
            {
                let c = kids[t];
                let ghost pre = *self;
                let ghost pre_newly = newly@;
                if self.storage.contains(c) && !self.available.contains(&c) {
                    let cb = self.storage.get(c);
                    match cb {
                        Some(b) => {
                            let ps = b.parents();
                            if self.parents_available(&ps) {
                                self.mark_available(c, newly);
                                proof {
                                    assert(newly@.subrange(0, newly0.len() as int) =~= pre_newly.subrange(0, newly0.len() as int));
                                    assert(self.order@ =~= order0 + newly@);
                                    assert forall|x: BlockId| #[trigger]
                                        self.is_stored(x) && !self.available@.contains(x)
                                            && self.all_parents_available(x) implies (exists|j: int|
                                            head < j < newly@.len() && #[trigger] self.waits_on(x, newly@[j])) || (
                                        exists|u: int| t + 1 <= u < kids@.len() && kids@[u] == x) by {
                                        assert(self.is_stored(x) == pre.is_stored(x));
                                        assert(self.parents_of(x) == pre.parents_of(x));
                                        if pre.all_parents_available(x) {
                                            if exists|j: int| head < j < pre_newly.len() && #[trigger] pre.waits_on(x, pre_newly[j]) {
                                                let j = choose|j: int| head < j < pre_newly.len() && #[trigger] pre.waits_on(x, pre_newly[j]);
                                                assert(newly@[j] == pre_newly[j]);
                                                assert(self.waits_on(x, newly@[j]));
                                            } else {
                                                let u = choose|u: int| t <= u < kids@.len() && kids@[u] == x;
                                                assert(u != t);
                                            }
                                        } else {
                                            let k = choose|k: int| 0 <= k < pre.parents_of(x).len() && !pre.available@.contains(#[trigger] pre.parents_of(x)[k]);
                                            assert(self.available@.contains(pre.parents_of(x)[k]));
                                            assert(pre.parents_of(x)[k] == c);
                                            assert(pre.waits_on(x, c));
                                            let last = newly@.len() - 1;
                                            assert(newly@[last] == c);
                                            assert(self.waits_on(x, newly@[last]));
                                        }
                                    }
                                }
                            }
                        },
                        None => {},
                    }
                }
                t = t + 1;
            }
            head = head + 1;
        }
    }

    /// Stores `block` and makes available every block that becomes available
    /// through it. Returns the block its address holds and the blocks that became
    /// available, in the order in which they did (each after all of its parents).
    /// A block that was stored before changes nothing.
    pub fn insert_block(&mut self, block: Block) -> (res: (Block, Vec<BlockId>))
        requires
            old(self).wf(),
        ensures
            final(self).wf(),
            old(self).is_stored(block@.id()) ==> {
                &&& final(self).blocks() == old(self).blocks()
                &&& res.0@ == old(self).blocks()[block@.id()]->0
                &&& res.1@ == Seq::<BlockId>::empty()
            },
            !old(self).is_stored(block@.id()) ==> {
                &&& final(self).blocks() == allocate(
                    old(self).blocks().insert(block@.id(), Some(block@)),
                    block@.parents(),
                )
                &&& res.0@ == block@
            },
            final(self).available_order() == old(self).available_order() + res.1@,
            final(self).available_set() == old(self).available_set().union(res.1@.to_set()),
    {
        let id = block.id();
        if self.storage.contains(id) {
            let existing = self.storage.get(id);
            match existing {
                Some(b) => {
                    assert(self.available_order() =~= old(self).available_order() + Seq::<BlockId>::empty());
                    assert(self.available_set() =~= old(self).available_set().union(Seq::<BlockId>::empty().to_set()));
                    return (b, Vec::new());
                },
                None => {
                    assert(false);
                    return (block, Vec::new());
                },
            }
        }
        let parents = block.parents();
        let ghost bv = block@;
        let (stored, _) = self.storage.insert(block);
        let ghost after_insert = self.blocks();
        assert(after_insert == old(self).blocks().insert(id, Some(bv)));
        let mut i: usize = 0;
        while i < parents.len()
            invariant
                i <= parents.len(),
                parents@ == bv.parents(),
                bv.id() == id,
                after_insert == old(self).blocks().insert(id, Some(bv)),
                self.storage.wf(),
                self.blocks() == allocate(after_insert, parents@.subrange(0, i as int)),
                self.available == old(self).available,
                self.order == old(self).order,
                forall|k: int| 0 <= k < i && !self.available@.contains(#[trigger] parents@[k])
                    ==> self.children@.contains_key(parents@[k]) && self.children@[parents@[k]]@.contains(id),
                forall|w: BlockId, c: BlockId|
                    old(self).children@.contains_key(w) && #[trigger] old(self).children@[w]@.contains(c)
                        ==> self.children@.contains_key(w) && self.children@[w]@.contains(c),
            decreases parents.len() - i,
        {
            let p = parents[i];
            let ghost before = self.blocks();
            let ghost ch_before = self.children@;
            self.storage.address(p);
            if !self.available.contains(&p) {
                self.add_waiting(p, id);
            }
            i = i + 1;
            proof {
                assert forall|w: BlockId, c: BlockId|
                    ch_before.contains_key(w) && #[trigger] ch_before[w]@.contains(c) implies self.children@.contains_key(w) && self.children@[w]@.contains(c) by {
                    if w == p && !self.available@.contains(p) {
                        let j = choose|j: int| 0 <= j < ch_before[w]@.len() && ch_before[w]@[j] == c;
                        assert(self.children@[w]@[j] == c);
                    }
                }
                assert forall|k: int| 0 <= k < i && !self.available@.contains(#[trigger] parents@[k])
                    implies self.children@.contains_key(parents@[k]) && self.children@[parents@[k]]@.contains(id) by {
                    if k < i - 1 {
                        assert(ch_before.contains_key(parents@[k]) && ch_before[parents@[k]]@.contains(id));
                    }
                }
                assert forall|w: BlockId, c: BlockId|
                    old(self).children@.contains_key(w) && #[trigger] old(self).children@[w]@.contains(c)
                        implies self.children@.contains_key(w) && self.children@[w]@.contains(c) by {
                    assert(ch_before.contains_key(w) && ch_before[w]@.contains(c));
                }
                let prev: int = i - 1;
                let pre_s = parents@.subrange(0, prev);
                let cur_s = parents@.subrange(0, i as int);
                assert(self.blocks() =~= allocate(after_insert, parents@.subrange(0, i as int))) by {
                    assert forall|k: BlockId| #[trigger] cur_s.contains(k) == (pre_s.contains(k) || k == p) by {
                        if cur_s.contains(k) && k != p {
                            let j = choose|j: int| 0 <= j < cur_s.len() && cur_s[j] == k;
                            assert(pre_s[j] == k);
                        }
                        if pre_s.contains(k) {
                            let j = choose|j: int| 0 <= j < pre_s.len() && pre_s[j] == k;
                            assert(cur_s[j] == k);
                        }
                        if k == p {
                            assert(cur_s[prev] == k);
                        }
                    }
                }
            }
        }
        proof {
            assert(parents@.subrange(0, parents@.len() as int) =~= parents@);
            let m = self.blocks();
            assert forall|x: BlockId| #[trigger] old(self).is_stored(x) implies self.is_stored(x)
                && self.parents_of(x) == old(self).parents_of(x) by {
                assert(x != id);
            }
            assert(self.is_stored(id) && self.parents_of(id) == parents@);
            assert forall|x: BlockId| x != id implies #[trigger] self.is_stored(x) == old(self).is_stored(x)
                && (old(self).is_stored(x) ==> self.parents_of(x) == old(self).parents_of(x)) by {
                if m.contains_key(x) {
                    assert(m[x] == (if after_insert.contains_key(x) { after_insert[x] } else { None }));
                }
            }
            assert forall|x: BlockId, k: int|
                self.is_stored(x) && !self.available@.contains(x) && 0 <= k < self.parents_of(
                    x,
                ).len() && !self.available@.contains(#[trigger] self.parents_of(x)[k])
                    implies self.waits_on(x, self.parents_of(x)[k]) by {
                if x == id {
                    assert(self.parents_of(x).contains(parents@[k]));
                } else {
                    assert(old(self).is_stored(x));
                    assert(old(self).waits_on(x, old(self).parents_of(x)[k]));
                }
            }
            assert forall|x: BlockId, k: int|
                self.is_stored(x) && 0 <= k < self.parents_of(x).len() implies self.blocks().contains_key(
                    #[trigger] self.parents_of(x)[k],
                ) by {
                if x == id {
                    assert(parents@.contains(parents@[k]));
                } else {
                    assert(old(self).is_stored(x));
                }
            }
            assert forall|i2: int, k: int|
                0 <= i2 < self.available_order().len() && 0 <= k < self.parents_of(
                    self.available_order()[i2],
                ).len() implies #[trigger] self.available_order().subrange(0, i2).contains(
                self.parents_of(self.available_order()[i2])[k],
            ) by {
                let x = self.available_order()[i2];
                assert(old(self).order@.contains(x));
                assert(old(self).available@.contains(x));
                assert(old(self).is_stored(x));
                assert(old(self).available_order().subrange(0, i2).contains(
                    old(self).parents_of(old(self).available_order()[i2])[k],
                ));
            }
            assert(self.core_wf());
        }
        let mut newly: Vec<BlockId> = Vec::new();
        if self.parents_available(&parents) {
            self.mark_available(id, &mut newly);
            proof {
                assert forall|x: BlockId| #[trigger]
                    self.is_stored(x) && !self.available@.contains(x) && self.all_parents_available(x)
                        implies exists|j: int| 0 <= j < newly@.len() && #[trigger] self.waits_on(x, newly@[j]) by {
                    assert(x != id);
                    assert(old(self).is_stored(x));
                    assert(old(self).parents_of(x) == self.parents_of(x));
                    if old(self).all_parents_available(x) {
                        assert(old(self).available@.contains(x));
                    } else {
                        let k = choose|k: int| 0 <= k < old(self).parents_of(x).len() && !old(self).available@.contains(#[trigger] old(self).parents_of(x)[k]);
                        assert(self.parents_of(x)[k] == id);
                        assert(newly@[0] == id);
                        assert(self.waits_on(x, newly@[0]));
                    }
                }
                assert(self.pending_covered(newly@, 0));
            }
        } else {
            proof {
                assert forall|x: BlockId| #[trigger]
                    self.is_stored(x) && !self.available@.contains(x) && self.all_parents_available(x)
                        implies exists|j: int| 0 <= j < newly@.len() && #[trigger] self.waits_on(x, newly@[j]) by {
                    if x == id {
                        assert(false);
                    } else {
                        assert(old(self).is_stored(x));
                        assert(old(self).parents_of(x) == self.parents_of(x));
                        assert(old(self).all_parents_available(x));
                    }
                }
            }
        }
        assert(self.order@ =~= old(self).order@ + newly@);
        self.propagate(&mut newly, 0, Ghost(old(self).order@));
        proof {
            assert forall|y: BlockId| self.available_set().contains(y) <==> old(self).available_set().union(newly@.to_set()).contains(y) by {
                if self.order@.contains(y) {
                    let j = choose|j: int| 0 <= j < self.order@.len() && self.order@[j] == y;
                    if j >= old(self).order@.len() {
                        assert(newly@[j - old(self).order@.len()] == y);
                    } else {
                        assert(old(self).order@[j] == y);
                    }
                }
                if newly@.to_set().contains(y) {
                    let j = choose|j: int| 0 <= j < newly@.len() && newly@[j] == y;
                    assert(self.order@[old(self).order@.len() + j] == y);
                }
                if old(self).available_set().contains(y) {
                    assert(old(self).order@.contains(y));
                    let j = choose|j: int| 0 <= j < old(self).order@.len() && old(self).order@[j] == y;
                    assert(self.order@[j] == y);
                }
            }
            assert(self.available_set() =~= old(self).available_set().union(newly@.to_set()));
        }
        (stored, newly)
    }

    /// `path` runs from its first block to its last through parent links, and
    /// every block on it is stored and marked to be visited in `visit`.
    pub open spec fn is_visit_path(&self, visit: Map<BlockId, bool>, path: Seq<BlockId>) -> bool {
        &&& path.len() >= 1
        &&& forall|i: int|
            0 <= i < path.len() ==> self.is_stored(#[trigger] path[i]) && visit.contains_key(path[i])
                && visit[path[i]]
        &&& forall|i: int|
            0 <= i < path.len() - 1 ==> #[trigger] self.parents_of(path[i]).contains(path[i + 1])
    }

    /// `x` is in the past cone of `start`: some visit path leads from `start` to `x`.
    pub open spec fn in_cone(&self, visit: Map<BlockId, bool>, start: BlockId, x: BlockId) -> bool {
        exists|path: Seq<BlockId>|
            #[trigger] self.is_visit_path(visit, path) && path[0] == start && path.last() == x
    }

    /// A parent of a block in the cone is not stored, or `visit` has no entry for it.
    pub open spec fn cone_has_gap(&self, visit: Map<BlockId, bool>, start: BlockId) -> bool {
        exists|x: BlockId, k: int|
            self.in_cone(visit, start, x) && 0 <= k < self.parents_of(x).len() && (!self.is_stored(
                #[trigger] self.parents_of(x)[k],
            ) || !visit.contains_key(self.parents_of(x)[k]))
    }

    /// One step of the breadth-first walk: the parents `ps`, in order, are
    /// appended to `items` when `visit` marks them `true` and they are not listed
    /// yet; the walk fails at a parent that is not stored (`BlockNotFound`) or
    /// that has no entry in `visit` (`MetadataNotFound`).
    pub open spec fn cone_expand(&self, visit: Map<BlockId, bool>, items: Seq<BlockId>, ps: Seq<BlockId>) -> Result<Seq<BlockId>, DagError>
        decreases ps.len(),
    {
        if ps.len() == 0 {
            Ok(items)
        } else if !self.is_stored(ps[0]) {
            Err(DagError::BlockNotFound)
        } else if !visit.contains_key(ps[0]) {
            Err(DagError::MetadataNotFound)
        } else if visit[ps[0]] && !items.contains(ps[0]) {
            self.cone_expand(visit, items.push(ps[0]), ps.drop_first())
        } else {
            self.cone_expand(visit, items, ps.drop_first())
        }
    }

    /// The breadth-first walk from `items`, whose blocks before `head` are
    /// expanded already, taking at most `fuel` more steps.
    pub open spec fn cone_walk(&self, visit: Map<BlockId, bool>, items: Seq<BlockId>, head: nat, fuel: nat) -> Result<Seq<BlockId>, DagError>
        decreases fuel,
    {
        if head >= items.len() || fuel == 0 {
            Ok(items)
        } else {
            match self.cone_expand(visit, items, self.parents_of(items[head as int])) {
                Ok(next) => self.cone_walk(visit, next, head + 1, (fuel - 1) as nat),
                Err(e) => Err(e),
            }
        }
    }

    /// The past cone of `start` in the order of a breadth-first walk through
    /// parent links, or the error the walk meets first.
    pub open spec fn past_cone_walk(&self, visit: Map<BlockId, bool>, start: BlockId) -> Result<Seq<BlockId>, DagError> {
        if !self.is_stored(start) {
            Err(DagError::BlockNotFound)
        } else if !visit.contains_key(start) {
            Err(DagError::MetadataNotFound)
        } else if !visit[start] {
            Ok(Seq::empty())
        } else {
            self.cone_walk(visit, seq![start], 0, self.blocks().dom().len())
        }
    }

    /// A parent of a block in the cone is not stored.
    pub open spec fn cone_missing_block(&self, visit: Map<BlockId, bool>, start: BlockId) -> bool {
        exists|x: BlockId, k: int|
            self.in_cone(visit, start, x) && 0 <= k < self.parents_of(x).len() && !self.is_stored(
                #[trigger] self.parents_of(x)[k],
            )
    }

    /// A parent of a block in the cone is stored but `visit` has no entry for it.
    pub open spec fn cone_missing_entry(&self, visit: Map<BlockId, bool>, start: BlockId) -> bool {
        exists|x: BlockId, k: int|
            self.in_cone(visit, start, x) && 0 <= k < self.parents_of(x).len() && self.is_stored(
                #[trigger] self.parents_of(x)[k],
            ) && !visit.contains_key(self.parents_of(x)[k])
    }

    /// Every block of a visit path that starts in `items` is in `items`, when
    /// `items` holds every visited parent of its blocks.
    proof fn lemma_path_in_items(
        &self,
        visit: Map<BlockId, bool>,
        items: Seq<BlockId>,
        path: Seq<BlockId>,
        i: int,
    )
        requires
            self.is_visit_path(visit, path),
            items.contains(path[0]),
            0 <= i < path.len(),
            forall|y: BlockId, k: int|
                items.contains(y) && 0 <= k < self.parents_of(y).len() && self.is_stored(
                    #[trigger] self.parents_of(y)[k],
                ) && visit.contains_key(self.parents_of(y)[k]) && visit[self.parents_of(y)[k]]
                    ==> items.contains(self.parents_of(y)[k]),
        ensures
            items.contains(path[i]),
        decreases i,
    {
        if i > 0 {
            let prev: int = i - 1;
            self.lemma_path_in_items(visit, items, path, prev);
            let q = path[prev];
            assert(self.parents_of(path[prev]).contains(path[prev + 1]));
            assert(prev + 1 == i);
            let k = choose|k: int| 0 <= k < self.parents_of(q).len() && self.parents_of(q)[k] == path[i];
            assert(self.is_stored(path[i]));
        }
    }

    /// The past cone of `start`: `start` and every block reachable from it through
    /// parent links while passing only blocks that `visit` marks `true`, in the
    /// order of a breadth-first walk. Fails when `start` is not stored or has no
    /// entry in `visit`, or when the walk reaches a parent that is not stored or
    /// has no entry in `visit`.
    pub fn past_cone(&self, start: BlockId, visit: &HashMap<BlockId, bool>) -> (res: Result<IndexSet<u64>, DagError>)
        requires
            self.wf(),
        ensures
            res is Err <==> (!self.is_stored(start) || !visit@.contains_key(start) || (
            visit@[start] && self.cone_has_gap(visit@, start))),
            !self.is_stored(start) ==> res matches Err(DagError::BlockNotFound),
            self.is_stored(start) && !visit@.contains_key(start) ==> res matches Err(DagError::MetadataNotFound),
            res matches Err(DagError::BlockNotFound) ==> !self.is_stored(start) || self.cone_missing_block(visit@, start),
            res matches Err(DagError::MetadataNotFound) ==> self.is_stored(start) && (!visit@.contains_key(start)
                || self.cone_missing_entry(visit@, start)),
            match self.past_cone_walk(visit@, start) {
                Ok(items) => res matches Ok(cone) && index_set_items(cone) == items,
                Err(e) => res matches Err(f) && f == e,
            },
            res matches Ok(cone) ==> {
                &&& index_set_items(cone).no_duplicates()
                &&& forall|x: BlockId|
                    #[trigger] index_set_items(cone).contains(x) <==> self.in_cone(visit@, start, x)
                &&& index_set_items(cone).len() > 0 ==> index_set_items(cone)[0] == start
            },
    {
        if !self.storage.contains(start) {
            return Err(DagError::BlockNotFound);
        }
        let visit_start = match visit.get(&start) {
            None => {
                return Err(DagError::MetadataNotFound);
            },
            Some(b) => *b,
        };
        let mut cone = index_set_new();
        if !visit_start {
            proof {
                assert forall|x: BlockId| #[trigger]
                    index_set_items(cone).contains(x) <==> self.in_cone(visit@, start, x) by {
                    if self.in_cone(visit@, start, x) {
                        let path = choose|path: Seq<BlockId>|
                            #[trigger] self.is_visit_path(visit@, path) && path[0] == start
                                && path.last() == x;
                        assert(visit@[path[0]]);
                    }
                }
                assert(!self.cone_has_gap(visit@, start)) by {
                    if self.cone_has_gap(visit@, start) {
                        let (x, k) = choose|x: BlockId, k: int|
                            self.in_cone(visit@, start, x) && 0 <= k < self.parents_of(x).len() && (
                            !self.is_stored(#[trigger] self.parents_of(x)[k]) || !visit@.contains_key(
                                self.parents_of(x)[k],
                            ));
                        let path = choose|path: Seq<BlockId>|
                            #[trigger] self.is_visit_path(visit@, path) && path[0] == start
                                && path.last() == x;
                        assert(visit@[path[0]]);
                    }
                }
            }
            return Ok(cone);
        }
        index_set_insert(&mut cone, start);
        let ghost mut paths: Map<BlockId, Seq<BlockId>> = Map::empty().insert(start, seq![start]);
        proof {
            assert(index_set_items(cone) =~= seq![start]);
            assert(self.is_visit_path(visit@, seq![start]));
            self.lemma_storage_finite();
        }
        let ghost bound = self.blocks().dom().len();
        let mut head: usize = 0;
        while head < index_set_len(&cone)
            invariant
                self.past_cone_walk(visit@, start) == self.cone_walk(
                    visit@,
                    index_set_items(cone),
                    head as nat,
                    (bound - head) as nat,
                ),
                self.wf(),
                self.is_stored(start),
                visit@.contains_key(start),
                visit@[start],
                self.blocks().dom().finite(),
                bound == self.blocks().dom().len(),
                index_set_items(cone).len() >= 1,
                index_set_items(cone)[0] == start,
                index_set_items(cone).no_duplicates(),
                head <= index_set_items(cone).len(),
                forall|i: int|
                    0 <= i < index_set_items(cone).len() ==> paths.contains_key(
                        #[trigger] index_set_items(cone)[i],
                    ) && self.is_visit_path(visit@, paths[index_set_items(cone)[i]])
                        && paths[index_set_items(cone)[i]][0] == start
                        && paths[index_set_items(cone)[i]].last() == index_set_items(cone)[i],
                forall|i: int, k: int|
                    0 <= i < head && 0 <= k < self.parents_of(index_set_items(cone)[i]).len()
                        ==> self.is_stored(#[trigger] self.parents_of(index_set_items(cone)[i])[k])
                        && visit@.contains_key(self.parents_of(index_set_items(cone)[i])[k]) && (
                    visit@[self.parents_of(index_set_items(cone)[i])[k]] ==> index_set_items(
                        cone,
                    ).contains(self.parents_of(index_set_items(cone)[i])[k])),
            decreases bound - head,
        {
            proof {
                let items = index_set_items(cone);
                assert(items.to_set().subset_of(self.blocks().dom())) by {
                    assert forall|y: BlockId| items.to_set().contains(y) implies self.blocks().dom().contains(y) by {
                        let j = choose|j: int| 0 <= j < items.len() && items[j] == y;
                        assert(paths.contains_key(items[j]));
                        let path = paths[items[j]];
                        assert(self.is_stored(path[path.len() - 1]));
                    }
                }
                items.unique_seq_to_set();
                vstd::set_lib::lemma_len_subset(items.to_set(), self.blocks().dom());
            }
            let current = match index_set_get_index(&cone, head) {
                Some(c) => c,
                None => {
                    assert(false);
                    0
                },
            };
            let ghost cur_path = paths[current];
            proof {
                assert(paths.contains_key(index_set_items(cone)[head as int]));
                assert(self.is_stored(cur_path[cur_path.len() - 1]));
            }
            let parents = match self.storage.get(current) {
                Some(b) => b.parents(),
                None => {
                    assert(false);
                    Vec::new()
                },
            };
            let ghost items_before = index_set_items(cone);
            let mut k: usize = 0;
            proof {
                assert(parents@.skip(0) =~= parents@);
                assert(head < bound);
            }
            while k < parents.len()
                invariant
                    self.cone_expand(visit@, items_before, parents@) == self.cone_expand(
                        visit@,
                        index_set_items(cone),
                        parents@.skip(k as int),
                    ),
                    self.past_cone_walk(visit@, start) == self.cone_walk(
                        visit@,
                        items_before,
                        head as nat,
                        (bound - head) as nat,
                    ),
                    head < bound,
                    head < items_before.len(),
                    items_before[head as int] == current,
                    self.wf(),
                    self.is_stored(start),
                    visit@.contains_key(start),
                    visit@[start],
                    head < index_set_items(cone).len(),
                    index_set_items(cone)[head as int] == current,
                    parents@ == self.parents_of(current),
                    self.is_visit_path(visit@, cur_path),
                    cur_path[0] == start,
                    cur_path.last() == current,
                    k <= parents.len(),
                    index_set_items(cone).len() >= items_before.len(),
                    index_set_items(cone).subrange(0, items_before.len() as int) == items_before,
                    index_set_items(cone)[0] == start,
                    index_set_items(cone).no_duplicates(),
                    forall|i: int|
                        0 <= i < index_set_items(cone).len() ==> paths.contains_key(
                            #[trigger] index_set_items(cone)[i],
                        ) && self.is_visit_path(visit@, paths[index_set_items(cone)[i]])
                            && paths[index_set_items(cone)[i]][0] == start
                            && paths[index_set_items(cone)[i]].last() == index_set_items(cone)[i],
                    forall|i: int, k2: int|
                        0 <= i < head && 0 <= k2 < self.parents_of(index_set_items(cone)[i]).len()
                            ==> self.is_stored(#[trigger] self.parents_of(index_set_items(cone)[i])[k2])
                            && visit@.contains_key(self.parents_of(index_set_items(cone)[i])[k2]) && (
                        visit@[self.parents_of(index_set_items(cone)[i])[k2]] ==> index_set_items(
                            cone,
                        ).contains(self.parents_of(index_set_items(cone)[i])[k2])),
                    forall|k2: int|
                        0 <= k2 < k ==> self.is_stored(#[trigger] parents@[k2]) && visit@.contains_key(
                            parents@[k2],
                        ) && (visit@[parents@[k2]] ==> index_set_items(cone).contains(parents@[k2])),
                decreases parents.len() - k,
            {
                let p = parents[k];
                proof {
                    assert(self.parents_of(current).contains(p)) by {
                        assert(self.parents_of(current)[k as int] == p);
                    }
                    assert(parents@.skip(k as int)[0] == p);
                    assert(parents@.skip(k as int).drop_first() =~= parents@.skip(k + 1));
                }
                if !self.storage.contains(p) {
                    proof {
                        assert(self.in_cone(visit@, start, current)) by {
                            assert(self.is_visit_path(visit@, cur_path));
                        }
                        assert(!self.is_stored(self.parents_of(current)[k as int]));
                        assert(self.cone_has_gap(visit@, start));
                        assert(self.cone_missing_block(visit@, start));
                    }
                    return Err(DagError::BlockNotFound);
                }
                let vp = match visit.get(&p) {
                    None => {
                        proof {
                            assert(self.in_cone(visit@, start, current)) by {
                                assert(self.is_visit_path(visit@, cur_path));
                            }
                            assert(!visit@.contains_key(self.parents_of(current)[k as int]));
                            assert(self.cone_has_gap(visit@, start));
                            assert(self.is_stored(self.parents_of(current)[k as int]));
                            assert(self.cone_missing_entry(visit@, start));
                        }
                        return Err(DagError::MetadataNotFound);
                    },
                    Some(b) => *b,
                };
                if vp {
                    let ghost old_items = index_set_items(cone);
                    let inserted = index_set_insert(&mut cone, p);
                    if inserted {
                        proof {
                            let np = cur_path.push(p);
                            assert(self.is_visit_path(visit@, np)) by {
                                assert forall|i: int| 0 <= i < np.len() - 1 implies #[trigger] self.parents_of(np[i]).contains(np[i + 1]) by {
                                    if i < cur_path.len() - 1 {
                                        assert(np[i] == cur_path[i] && np[i + 1] == cur_path[i + 1]);
                                    } else {
                                        assert(np[i] == current);
                                    }
                                }
                            }
                            paths = paths.insert(p, np);
                            let items = index_set_items(cone);
                            assert forall|i: int| 0 <= i < items.len() implies paths.contains_key(
                                #[trigger] items[i],
                            ) && self.is_visit_path(visit@, paths[items[i]]) && paths[items[i]][0] == start
                                && paths[items[i]].last() == items[i] by {
                                if i < old_items.len() {
                                    assert(items[i] == old_items[i]);
                                    assert(paths.contains_key(old_items[i]));
                                    if old_items[i] == p {
                                        assert(old_items.contains(p));
                                    }
                                }
                            }
                            assert(items.no_duplicates()) by {
                                assert forall|a: int, b: int| 0 <= a < items.len() && 0 <= b < items.len() && a != b implies items[a] != items[b] by {
                                    if a < old_items.len() && b < old_items.len() {
                                    } else if a < old_items.len() {
                                        assert(old_items.contains(old_items[a]));
                                    } else if b < old_items.len() {
                                        assert(old_items.contains(old_items[b]));
                                    }
                                }
                            }
                            assert(items[old_items.len() as int] == p);
                            assert(items.contains(p));
                        }
                    }
                    proof {
                        let items = index_set_items(cone);
                        assert(items.contains(p));
                        assert forall|y: BlockId| old_items.contains(y) implies items.contains(y) by {
                            let j = choose|j: int| 0 <= j < old_items.len() && old_items[j] == y;
                            assert(items[j] == y);
                        }
                        assert(items.subrange(0, items_before.len() as int) =~= items_before) by {
                            assert(old_items.subrange(0, items_before.len() as int) == items_before);
                        }
                    }
                }
                k = k + 1;
            }
            proof {
                let items = index_set_items(cone);
                assert forall|i: int, k2: int|
                    0 <= i < head + 1 && 0 <= k2 < self.parents_of(items[i]).len()
                        implies self.is_stored(#[trigger] self.parents_of(items[i])[k2])
                        && visit@.contains_key(self.parents_of(items[i])[k2]) && (
                    visit@[self.parents_of(items[i])[k2]] ==> items.contains(self.parents_of(items[i])[k2])) by {
                    if i == head {
                        assert(items[i] == current);
                        assert(parents@[k2] == self.parents_of(items[i])[k2]);
                    }
                }
            }
            head = head + 1;
        }
        proof {
            let items = index_set_items(cone);
            assert forall|x: BlockId| #[trigger] items.contains(x) <==> self.in_cone(visit@, start, x) by {
                if items.contains(x) {
                    let j = choose|j: int| 0 <= j < items.len() && items[j] == x;
                    assert(paths.contains_key(items[j]));
                    assert(self.is_visit_path(visit@, paths[items[j]]));
                }
                if self.in_cone(visit@, start, x) {
                    let path = choose|path: Seq<BlockId>|
                        #[trigger] self.is_visit_path(visit@, path) && path[0] == start && path.last() == x;
                    assert(items.contains(path[0])) by {
                        assert(items[0] == start);
                    }
                    assert forall|y: BlockId, k: int|
                        items.contains(y) && 0 <= k < self.parents_of(y).len() && self.is_stored(
                            #[trigger] self.parents_of(y)[k],
                        ) && visit@.contains_key(self.parents_of(y)[k]) && visit@[self.parents_of(y)[k]]
                            implies items.contains(self.parents_of(y)[k]) by {
                        let j = choose|j: int| 0 <= j < items.len() && items[j] == y;
                        assert(self.parents_of(items[j])[k] == self.parents_of(y)[k]);
                    }
                    self.lemma_path_in_items(visit@, items, path, path.len() - 1);
                }
            }
            assert(!self.cone_has_gap(visit@, start)) by {
                if self.cone_has_gap(visit@, start) {
                    let (x, k) = choose|x: BlockId, k: int|
                        self.in_cone(visit@, start, x) && 0 <= k < self.parents_of(x).len() && (
                        !self.is_stored(#[trigger] self.parents_of(x)[k]) || !visit@.contains_key(
                            self.parents_of(x)[k],
                        ));
                    assert(items.contains(x));
                    let j = choose|j: int| 0 <= j < items.len() && items[j] == x;
                    assert(self.parents_of(items[j])[k] == self.parents_of(x)[k]);
                }
            }
        }
        Ok(cone)
    }

    /// Records that `child` waits on `parent`.
    fn add_waiting(&mut self, parent: BlockId, child: BlockId)
        ensures
            final(self).storage == old(self).storage,
            final(self).available == old(self).available,
            final(self).order == old(self).order,
            final(self).children@.contains_key(parent),
            final(self).children@[parent]@.contains(child),
            old(self).children@.contains_key(parent) ==> final(self).children@[parent]@
                == old(self).children@[parent]@.push(child),
            forall|w: BlockId|
                w != parent ==> #[trigger] final(self).children@.contains_key(w)
                    == old(self).children@.contains_key(w),
            forall|w: BlockId|
                w != parent && old(self).children@.contains_key(w)
                    ==> #[trigger] final(self).children@[w] == old(self).children@[w],
    {
        let mut kids: Vec<BlockId> = match self.children.remove(&parent) {
            Some(v) => v,
            None => Vec::new(),
        };
        let ghost before = kids@;
        kids.push(child);
        assert(kids@.contains(child)) by {
            assert(kids@[kids@.len() - 1] == child);
        }
        assert forall|c: BlockId| before.contains(c) implies kids@.contains(c) by {
            let j = choose|j: int| 0 <= j < before.len() && before[j] == c;
            assert(kids@[j] == c);
        }
        self.children.insert(parent, kids);
    }
}

/// Law: solidification does not depend on arrival order. Two DAGs that store the
/// same blocks have the same blocks available.
pub proof fn law_availability_order_independent(a: BlockDAG, b: BlockDAG)
    requires
        a.wf(),
        b.wf(),
        a.blocks() == b.blocks(),
    ensures
        a.available_set() == b.available_set(),
{
    lemma_available_included(a, b);
    lemma_available_included(b, a);
    assert(a.available_set() =~= b.available_set());
}

proof fn lemma_available_included(a: BlockDAG, b: BlockDAG)
    requires
        a.wf(),
        b.wf(),
        a.blocks() == b.blocks(),
    ensures
        forall|x: BlockId| #[trigger] a.available_set().contains(x) ==> b.available_set().contains(x),
{
    a.law_availability();
    assert forall|x: BlockId| #[trigger] a.available_set().contains(x) implies b.available_set().contains(x) by {
        let i = choose|i: int| 0 <= i < a.available_order().len() && a.available_order()[i] == x;
        lemma_available_prefix(a, b, i);
    }
}

/// The `i`-th block that became available in `a` is available in `b`.
proof fn lemma_available_prefix(a: BlockDAG, b: BlockDAG, i: int)
    requires
        a.wf(),
        b.wf(),
        a.blocks() == b.blocks(),
        0 <= i < a.available_order().len(),
    ensures
        b.available_set().contains(a.available_order()[i]),
    decreases i,
{
    a.law_availability();
    b.law_availability();
    let x = a.available_order()[i];
    assert(a.available_order().contains(x));
    assert(a.available_set().contains(x));
    assert forall|k: int| 0 <= k < b.parents_of(x).len() implies b.available_set().contains(
        #[trigger] b.parents_of(x)[k],
    ) by {
        assert(a.available_order().subrange(0, i).contains(a.parents_of(a.available_order()[i])[k]));
        let j = choose|j: int| 0 <= j < i && a.available_order().subrange(0, i)[j] == a.parents_of(x)[k];
        assert(a.available_order()[j] == a.parents_of(x)[k]);
        lemma_available_prefix(a, b, j);
    }
    assert(b.is_stored(x) && b.all_parents_available(x));
}

} // verus!
