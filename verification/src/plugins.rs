//! The plugin registry: each plugin once, loaded after the plugins it depends
//! on, started in registry order and shut down in reverse.
use vstd::prelude::*;

verus! {

/// The plugins of the protocol.
#[derive(Clone, Copy, PartialEq, Eq, Structural, Debug)]
pub enum PluginKind {
    Config,
    BlockStorage,
    BlockDAG,
    VirtualVoting,
    Consensus,
    ConsensusRound,
    TipSelection,
    BlockFactory,
    ConsensusFeed,
    Inbox,
    Outbox,
    Networking,
    Validator,
}

/// The plugins that a plugin loads when it is constructed, in that order.
pub open spec fn deps(k: PluginKind) -> Seq<PluginKind> {
    match k {
        PluginKind::Config => seq![],
        PluginKind::BlockStorage => seq![],
        PluginKind::BlockDAG => seq![PluginKind::BlockStorage],
        PluginKind::VirtualVoting => seq![PluginKind::BlockDAG],
        PluginKind::Consensus => seq![PluginKind::BlockDAG],
        PluginKind::ConsensusRound => seq![PluginKind::Consensus, PluginKind::BlockDAG],
        PluginKind::TipSelection => seq![PluginKind::BlockDAG],
        PluginKind::BlockFactory => seq![PluginKind::TipSelection],
        PluginKind::ConsensusFeed => seq![PluginKind::Consensus],
        PluginKind::Inbox => seq![PluginKind::BlockStorage],
        PluginKind::Outbox => seq![PluginKind::BlockDAG],
        PluginKind::Networking => seq![PluginKind::Inbox, PluginKind::Outbox],
        PluginKind::Validator => seq![
            PluginKind::ConsensusRound,
            PluginKind::BlockFactory,
            PluginKind::Inbox,
        ],
    }
}

/// The depth of a plugin in the dependency graph: every dependency is shallower.
pub open spec fn rank(k: PluginKind) -> nat {
    match k {
        PluginKind::Config => 0,
        PluginKind::BlockStorage => 0,
        PluginKind::BlockDAG => 1,
        PluginKind::VirtualVoting => 2,
        PluginKind::Consensus => 2,
        PluginKind::ConsensusRound => 3,
        PluginKind::TipSelection => 2,
        PluginKind::BlockFactory => 3,
        PluginKind::ConsensusFeed => 3,
        PluginKind::Inbox => 1,
        PluginKind::Outbox => 2,
        PluginKind::Networking => 3,
        PluginKind::Validator => 4,
    }
}

/// `x` is a dependency of `k`, directly or through other dependencies.
pub open spec fn needs(k: PluginKind, x: PluginKind) -> bool
    decreases rank(k),
{
    exists|i: int|
        0 <= i < deps(k).len() && (deps(k)[i] == x || (rank(deps(k)[i]) < rank(k) && needs(
            #[trigger] deps(k)[i],
            x,
        )))
}

/// Loading the plugins `ks` registers `x`: it is one of them or a dependency of one.
pub open spec fn loaded_by(ks: Seq<PluginKind>, x: PluginKind) -> bool {
    exists|j: int| 0 <= j < ks.len() && (ks[j] == x || needs(#[trigger] ks[j], x))
}

/// The registry `order` after loading `k`: unchanged when `k` is registered;
/// otherwise the dependencies of `k` are loaded in turn, then `k` is appended.
pub open spec fn after_load(order: Seq<PluginKind>, k: PluginKind) -> Seq<PluginKind>
    decreases rank(k), 1nat, 0nat,
{
    if order.contains(k) {
        order
    } else {
        after_load_deps(order, k, deps(k).len())
            .push(k)
    }
}

/// The registry `order` after loading the first `n` dependencies of `k` in turn.
pub open spec fn after_load_deps(order: Seq<PluginKind>, k: PluginKind, n: nat) -> Seq<PluginKind>
    decreases rank(k), 0nat, n,
{
    if n == 0 || n > deps(k).len() {
        order
    } else {
        proof {
            lemma_deps_rank(k);
        }
        after_load(after_load_deps(order, k, (n - 1) as nat), deps(k)[n - 1])
    }
}

/// The plugins that the constructor of `k` loads are all in `registry`: the
/// validator loads round tracking, the block factory and the inbox; round
/// tracking loads consensus and the DAG; and so on.
pub open spec fn registers_constructor_plugins(k: PluginKind, registry: Seq<PluginKind>) -> bool {
    match k {
        PluginKind::Config => true,
        PluginKind::BlockStorage => true,
        PluginKind::BlockDAG => registry.contains(PluginKind::BlockStorage),
        PluginKind::VirtualVoting => registry.contains(PluginKind::BlockDAG),
        PluginKind::Consensus => registry.contains(PluginKind::BlockDAG),
        PluginKind::ConsensusRound => registry.contains(PluginKind::Consensus) && registry.contains(
            PluginKind::BlockDAG,
        ),
        PluginKind::TipSelection => registry.contains(PluginKind::BlockDAG),
        PluginKind::BlockFactory => registry.contains(PluginKind::TipSelection),
        PluginKind::ConsensusFeed => registry.contains(PluginKind::Consensus),
        PluginKind::Inbox => registry.contains(PluginKind::BlockStorage),
        PluginKind::Outbox => registry.contains(PluginKind::BlockDAG),
        PluginKind::Networking => registry.contains(PluginKind::Inbox) && registry.contains(PluginKind::Outbox),
        PluginKind::Validator => registry.contains(PluginKind::ConsensusRound) && registry.contains(
            PluginKind::BlockFactory,
        ) && registry.contains(PluginKind::Inbox),
    }
}

proof fn lemma_after_load_grows(order: Seq<PluginKind>, k: PluginKind)
    ensures
        forall|x: PluginKind| order.contains(x) ==> #[trigger] after_load(order, k).contains(x),
        after_load(order, k).contains(k),
    decreases rank(k), 1nat, 0nat,
{
    if !order.contains(k) {
        let mid = after_load_deps(order, k, deps(k).len());
        lemma_after_load_deps_grows(order, k, deps(k).len());
        assert(mid.push(k)[mid.len() as int] == k);
        assert forall|x: PluginKind| order.contains(x) implies #[trigger] after_load(order, k).contains(x) by {
            assert(mid.contains(x));
            let j = choose|j: int| 0 <= j < mid.len() && mid[j] == x;
            assert(mid.push(k)[j] == x);
        }
    }
}

proof fn lemma_after_load_deps_grows(order: Seq<PluginKind>, k: PluginKind, n: nat)
    requires
        n <= deps(k).len(),
    ensures
        forall|x: PluginKind| order.contains(x) ==> #[trigger] after_load_deps(order, k, n).contains(x),
        forall|j: int| 0 <= j < n ==> after_load_deps(order, k, n).contains(#[trigger] deps(k)[j]),
    decreases rank(k), 0nat, n,
{
    if n > 0 {
        lemma_deps_rank(k);
        let prev = after_load_deps(order, k, (n - 1) as nat);
        lemma_after_load_deps_grows(order, k, (n - 1) as nat);
        lemma_after_load_grows(prev, deps(k)[n - 1]);
    }
}

/// Law: loading a plugin that is not registered yet registers every plugin
/// its constructor loads.
pub proof fn law_load_registers_constructor_plugins(order: Seq<PluginKind>, k: PluginKind)
    requires
        !order.contains(k),
    ensures
        registers_constructor_plugins(k, after_load(order, k)),
{
    let n = deps(k).len();
    let mid = after_load_deps(order, k, n);
    lemma_after_load_deps_grows(order, k, n);
    assert forall|j: int| 0 <= j < n implies after_load(order, k).contains(#[trigger] deps(k)[j]) by {
        assert(mid.contains(deps(k)[j]));
        let q = choose|q: int| 0 <= q < mid.len() && mid[q] == deps(k)[j];
        assert(mid.push(k)[q] == deps(k)[j]);
    }
    let r = after_load(order, k);
    match k {
        PluginKind::Validator => {
            assert(r.contains(deps(k)[0]) && r.contains(deps(k)[1]) && r.contains(deps(k)[2]));
        },
        PluginKind::ConsensusRound => {
            assert(r.contains(deps(k)[0]) && r.contains(deps(k)[1]));
        },
        PluginKind::Networking => {
            assert(r.contains(deps(k)[0]) && r.contains(deps(k)[1]));
        },
        PluginKind::Config => {},
        PluginKind::BlockStorage => {},
        _ => {
            assert(r.contains(deps(k)[0]));
        },
    }
}

/// Loading `k` when its dependencies are registered and it is not appends it.
pub proof fn lemma_load_step(order: Seq<PluginKind>, k: PluginKind)
    requires
        !order.contains(k),
        forall|j: int| 0 <= j < deps(k).len() ==> order.contains(#[trigger] deps(k)[j]),
    ensures
        after_load(order, k) == order.push(k),
{
    lemma_deps_present(order, k, deps(k).len());
}

proof fn lemma_deps_present(order: Seq<PluginKind>, k: PluginKind, n: nat)
    requires
        n <= deps(k).len(),
        forall|j: int| 0 <= j < deps(k).len() ==> order.contains(#[trigger] deps(k)[j]),
    ensures
        after_load_deps(order, k, n) == order,
    decreases n,
{
    if n > 0 {
        let m: nat = (n - 1) as nat;
        lemma_deps_present(order, k, m);
        let d = deps(k)[m as int];
        assert(order.contains(d));
        assert(after_load(order, d) == order);
        assert(after_load_deps(order, k, n) == after_load(after_load_deps(order, k, m), d));
    }
}

/// The registry `order` after loading the plugins `ks` in turn.
pub open spec fn after_load_all(order: Seq<PluginKind>, ks: Seq<PluginKind>) -> Seq<PluginKind>
    decreases ks.len(),
{
    if ks.len() == 0 {
        order
    } else {
        after_load(after_load_all(order, ks.drop_last()), ks.last())
    }
}

/// Every plugin in `order` comes after all of its dependencies.
pub open spec fn deps_first(order: Seq<PluginKind>) -> bool {
    forall|i: int, j: int|
        0 <= i < order.len() && 0 <= j < deps(order[i]).len() ==> #[trigger] order.take(i).contains(
            deps(order[i])[j],
        )
}

pub proof fn lemma_deps_rank(k: PluginKind)
    ensures
        forall|i: int| 0 <= i < deps(k).len() ==> rank(#[trigger] deps(k)[i]) < rank(k),
{
}

/// The dependencies of a plugin.
pub fn dependencies(k: PluginKind) -> (res: Vec<PluginKind>)
    ensures
        res@ == deps(k),
{
    let res = match k {
        PluginKind::Config => vec![],
        PluginKind::BlockStorage => vec![],
        PluginKind::BlockDAG => vec![PluginKind::BlockStorage],
        PluginKind::VirtualVoting => vec![PluginKind::BlockDAG],
        PluginKind::Consensus => vec![PluginKind::BlockDAG],
        PluginKind::ConsensusRound => vec![PluginKind::Consensus, PluginKind::BlockDAG],
        PluginKind::TipSelection => vec![PluginKind::BlockDAG],
        PluginKind::BlockFactory => vec![PluginKind::TipSelection],
        PluginKind::ConsensusFeed => vec![PluginKind::Consensus],
        PluginKind::Inbox => vec![PluginKind::BlockStorage],
        PluginKind::Outbox => vec![PluginKind::BlockDAG],
        PluginKind::Networking => vec![PluginKind::Inbox, PluginKind::Outbox],
        PluginKind::Validator => vec![
            PluginKind::ConsensusRound,
            PluginKind::BlockFactory,
            PluginKind::Inbox,
        ],
    };
    assert(res@ =~= deps(k));
    res
}

/// The registered plugins, in the order they were registered.
pub struct Plugins {
    order: Vec<PluginKind>,
}

impl View for Plugins {
    type V = Seq<PluginKind>;

    closed spec fn view(&self) -> Seq<PluginKind> {
        self.order@
    }
}

impl Plugins {
    /// Each plugin is registered once.
    pub open spec fn wf(&self) -> bool {
        self@.no_duplicates()
    }

    /// An empty registry.
    pub fn new() -> (res: Plugins)
        ensures
            res.wf(),
            res@ == Seq::<PluginKind>::empty(),
    {
        Plugins { order: Vec::new() }
    }

    /// Whether `k` is registered.
    pub fn get(&self, k: PluginKind) -> (res: bool)
        ensures
            res == self@.contains(k),
    {
        let mut i: usize = 0;
        while i < self.order.len()
            invariant
                i <= self.order.len(),
                forall|j: int| 0 <= j < i ==> self.order@[j] != k,
            decreases self.order.len() - i,
        {
            if self.order[i] == k {
                return true;
            }
            i = i + 1;
        }
        false
    }

    /// Registers the plugin `k` given from outside, unless it is registered.
    /// Returns whether it was new.
    pub fn provide(&mut self, k: PluginKind) -> (res: bool)
        requires
            old(self).wf(),
        ensures
            final(self).wf(),
            res == !old(self)@.contains(k),
            final(self)@ == if res {
                old(self)@.push(k)
            } else {
                old(self)@
            },
    {
        if self.get(k) {
            false
        } else {
            let ghost before = self.order@;
            self.order.push(k);
            proof {
                assert forall|a: int, b: int|
                    0 <= a < self.order@.len() && 0 <= b < self.order@.len() && a != b implies self.order@[a]
                    != self.order@[b] by {
                    if a == before.len() as int {
                        assert(!before.contains(before[b]) || before[b] != k);
                    } else if b == before.len() as int {
                        assert(before.contains(before[a]));
                    }
                }
            }
            true
        }
    }

    /// Loads the plugin `k` unless it is registered: first its dependencies, in
    /// order, then `k` itself.
    pub fn load(&mut self, k: PluginKind)
        requires
            old(self).wf(),
        ensures
            final(self).wf(),
            final(self)@.contains(k),
            final(self)@.len() >= old(self)@.len(),
            final(self)@.take(old(self)@.len() as int) == old(self)@,
            forall|i: int|
                old(self)@.len() <= i < final(self)@.len() ==> #[trigger] final(self)@[i] == k || needs(
                    k,
                    final(self)@[i],
                ),
            deps_first(old(self)@) ==> deps_first(final(self)@),
            final(self)@ == after_load(old(self)@, k),
            !old(self)@.contains(k) ==> registers_constructor_plugins(k, final(self)@),
        decreases rank(k),
    {
        if self.get(k) {
            assert(self@.take(self@.len() as int) =~= self@);
            return;
        }
        let ghost start = self@;
        proof {
            law_load_registers_constructor_plugins(start, k);
        }
        let ds = dependencies(k);
        let mut i: usize = 0;
        proof {
            assert(self@.take(start.len() as int) =~= start);
            lemma_deps_rank(k);
        }
        while i < ds.len()
            invariant
                i <= ds.len(),
                ds@ == deps(k),
                self.wf(),
                !start.contains(k),
                self@ == after_load_deps(start, k, i as nat),
                self@.take(start.len() as int) == start,
                self@.len() >= start.len(),
                forall|j: int| 0 <= j < i ==> self@.contains(#[trigger] ds@[j]),
                forall|q: int| start.len() <= q < self@.len() ==> needs(k, #[trigger] self@[q]),
                deps_first(start) ==> deps_first(self@),
                forall|j: int| 0 <= j < deps(k).len() ==> rank(#[trigger] deps(k)[j]) < rank(k),
            decreases ds.len() - i,
        {
            let d = ds[i];
            let ghost before = self@;
            assert(rank(d) < rank(k));
            self.load(d);
            proof {
                assert(self@.take(start.len() as int) =~= start) by {
                    assert(self@.take(before.len() as int) == before);
                    assert forall|q: int| 0 <= q < start.len() implies self@[q] == start[q] by {
                        assert(self@.take(before.len() as int)[q] == before[q]);
                        assert(before.take(start.len() as int)[q] == start[q]);
                    }
                }
                assert forall|j: int| 0 <= j < i + 1 implies self@.contains(#[trigger] ds@[j]) by {
                    if j < i {
                        let q = choose|q: int| 0 <= q < before.len() && before[q] == ds@[j];
                        assert(self@.take(before.len() as int)[q] == before[q]);
                    }
                }
                assert forall|q: int| start.len() <= q < self@.len() implies needs(k, #[trigger] self@[q]) by {
                    if q < before.len() {
                        assert(self@.take(before.len() as int)[q] == before[q]);
                    } else {
                        assert(deps(k)[i as int] == d);
                        if self@[q] == d {
                            assert(deps(k)[i as int] == self@[q]);
                        } else {
                            assert(needs(d, self@[q]));
                            assert(rank(deps(k)[i as int]) < rank(k) && needs(deps(k)[i as int], self@[q]));
                        }
                    }
                }
            }
            i = i + 1;
        }
        // The dependencies are loaded; `k` itself cannot be among what they loaded.
        proof {
            assert(!self@.contains(k)) by {
                if self@.contains(k) {
                    let q = choose|q: int| 0 <= q < self@.len() && self@[q] == k;
                    if q < start.len() {
                        assert(self@.take(start.len() as int)[q] == start[q]);
                    } else {
                        lemma_needs_rank(k, k);
                    }
                }
            }
        }
        let ghost before = self@;
        self.order.push(k);
        proof {
            assert forall|a: int, b: int|
                0 <= a < self.order@.len() && 0 <= b < self.order@.len() && a != b implies self.order@[a]
                != self.order@[b] by {
                if a == before.len() as int {
                    assert(!before.contains(before[b]) || before[b] != k);
                } else if b == before.len() as int {
                    assert(before.contains(before[a]));
                }
            }
            assert(self@.take(start.len() as int) =~= start) by {
                assert forall|q: int| 0 <= q < start.len() implies self@[q] == start[q] by {
                    assert(before.take(start.len() as int)[q] == start[q]);
                }
            }
            assert(self@[before.len() as int] == k);
            if deps_first(start) {
                assert forall|a: int, j: int|
                    0 <= a < self@.len() && 0 <= j < deps(self@[a]).len() implies #[trigger] self@.take(a).contains(
                    deps(self@[a])[j],
                ) by {
                    if a < before.len() {
                        assert(self@.take(a) =~= before.take(a));
                    } else {
                        assert(self@.take(a) =~= before);
                        assert(before.contains(ds@[j]));
                    }
                }
            }
        }
    }

    /// Loads the plugins `ks`, one after the other.
    pub fn load_all(&mut self, ks: &Vec<PluginKind>)
        requires
            old(self).wf(),
        ensures
            final(self).wf(),
            forall|j: int| 0 <= j < ks@.len() ==> final(self)@.contains(#[trigger] ks@[j]),
            final(self)@.len() >= old(self)@.len(),
            final(self)@.take(old(self)@.len() as int) == old(self)@,
            forall|i: int|
                old(self)@.len() <= i < final(self)@.len() ==> loaded_by(ks@, #[trigger] final(self)@[i]),
            deps_first(old(self)@) ==> deps_first(final(self)@),
            final(self)@ == after_load_all(old(self)@, ks@),
    {
        let ghost start = self@;
        assert(self@.take(start.len() as int) =~= start);
        assert(ks@.take(0) =~= Seq::<PluginKind>::empty());
        let mut i: usize = 0;
        while i < ks.len()
            invariant
                i <= ks.len(),
                self.wf(),
                self@.len() >= start.len(),
                self@.take(start.len() as int) == start,
                forall|j: int| 0 <= j < i ==> self@.contains(#[trigger] ks@[j]),
                forall|q: int| start.len() <= q < self@.len() ==> loaded_by(ks@, #[trigger] self@[q]),
                deps_first(start) ==> deps_first(self@),
                self@ == after_load_all(start, ks@.take(i as int)),
            decreases ks.len() - i,
        {
            let ghost before = self@;
            self.load(ks[i]);
            proof {
                assert(ks@.take(i + 1).drop_last() =~= ks@.take(i as int));
                assert(ks@.take(i + 1).last() == ks@[i as int]);
                assert forall|q: int| 0 <= q < start.len() implies self@[q] == start[q] by {
                    assert(self@.take(before.len() as int)[q] == before[q]);
                    assert(before.take(start.len() as int)[q] == start[q]);
                }
                assert(self@.take(start.len() as int) =~= start);
                assert forall|j: int| 0 <= j < i + 1 implies self@.contains(#[trigger] ks@[j]) by {
                    if j < i {
                        let q = choose|q: int| 0 <= q < before.len() && before[q] == ks@[j];
                        assert(self@.take(before.len() as int)[q] == before[q]);
                    }
                }
                assert forall|q: int| start.len() <= q < self@.len() implies loaded_by(ks@, #[trigger] self@[q]) by {
                    if q < before.len() {
                        assert(self@.take(before.len() as int)[q] == before[q]);
                        assert(loaded_by(ks@, before[q]));
                    } else {
                        assert(self@[q] == ks@[i as int] || needs(ks@[i as int], self@[q]));
                    }
                }
            }
            i = i + 1;
        }
        assert(ks@.take(ks@.len() as int) =~= ks@);
    }

    /// The plugins in the order they start: registry order.
    pub fn start_order(&self) -> (res: Vec<PluginKind>)
        ensures
            res@ == self@,
    {
        let mut res: Vec<PluginKind> = Vec::new();
        let mut i: usize = 0;
        while i < self.order.len()
            invariant
                i <= self.order.len(),
                res@ == self.order@.take(i as int),
            decreases self.order.len() - i,
        {
            res.push(self.order[i]);
            i = i + 1;
            assert(res@ =~= self.order@.take(i as int));
        }
        assert(self.order@.take(self.order@.len() as int) =~= self.order@);
        res
    }

    /// The plugins in the order they shut down: reverse registry order.
    pub fn shutdown_order(&self) -> (res: Vec<PluginKind>)
        ensures
            res@ == self@.reverse(),
    {
        let mut res: Vec<PluginKind> = Vec::new();
        let n = self.order.len();
        let mut i: usize = 0;
        while i < n
            invariant
                n == self.order.len(),
                i <= n,
                res@.len() == i,
                forall|j: int| 0 <= j < i ==> res@[j] == self.order@[n - 1 - j],
            decreases n - i,
        {
            res.push(self.order[n - 1 - i]);
            i = i + 1;
        }
        assert(res@ =~= self@.reverse());
        res
    }
}

/// A plugin never depends on itself, directly or not: its dependencies are shallower.
proof fn lemma_needs_rank(k: PluginKind, x: PluginKind)
    ensures
        needs(k, x) ==> rank(x) < rank(k),
    decreases rank(k),
{
    if needs(k, x) {
        let i = choose|i: int|
            0 <= i < deps(k).len() && (deps(k)[i] == x || (rank(deps(k)[i]) < rank(k) && needs(
                #[trigger] deps(k)[i],
                x,
            )));
        lemma_deps_rank(k);
        if deps(k)[i] != x {
            lemma_needs_rank(deps(k)[i], x);
        }
    }
}

/// Law: in shutdown order (reverse registry order), every plugin shuts down
/// before each plugin it depends on.
pub proof fn law_shutdown_before_dependencies(order: Seq<PluginKind>, i: int, j: int)
    requires
        deps_first(order),
        order.no_duplicates(),
        0 <= i < order.len(),
        0 <= j < deps(order[i]).len(),
    ensures
        exists|q: int|
            0 <= q < order.len() && order.reverse()[q] == deps(order[i])[j] && q > order.len() - 1 - i,
{
    assert(order.take(i).contains(deps(order[i])[j]));
    let p = choose|p: int| 0 <= p < i && order.take(i)[p] == deps(order[i])[j];
    let q = order.len() - 1 - p;
    assert(order.reverse()[q] == order[p]);
}

} // verus!
