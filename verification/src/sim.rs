//! The network of a simulation run: nodes join in turn, and what one node
//! sends is forwarded to every other node, in the order in which they joined.
use vstd::prelude::*;

verus! {

/// The identifiers of the nodes, in joining order, and the next identifier.
pub struct Network {
    next_id: usize,
    nodes: Vec<usize>,
}

/// The identifier after `id`, wrapping around as an atomic counter does.
pub open spec fn next_node_id(id: usize) -> usize {
    if id == usize::MAX {
        0
    } else {
        (id + 1) as usize
    }
}

/// The nodes other than `node_id`, in joining order.
pub open spec fn peers_of(nodes: Seq<usize>, node_id: usize) -> Seq<usize> {
    nodes.filter(|p: usize| p != node_id)
}

impl Network {
    /// The nodes, in joining order.
    pub closed spec fn nodes(&self) -> Seq<usize> {
        self.nodes@
    }

    /// The identifier that the next node gets.
    pub closed spec fn next_id(&self) -> usize {
        self.next_id
    }

    /// No identifier was handed out twice, and every node's identifier is below
    /// the next identifier.
    pub closed spec fn ids_below_next(&self) -> bool {
        &&& self.nodes@.no_duplicates()
        &&& forall|i: int| 0 <= i < self.nodes@.len() ==> #[trigger] self.nodes@[i] < self.next_id
    }

    /// A network with no nodes.
    pub fn new() -> (res: Network)
        ensures
            res.nodes() == Seq::<usize>::empty(),
            res.next_id() == 0,
            res.ids_below_next(),
    {
        Network { next_id: 0, nodes: Vec::new() }
    }

    /// A new node joins under the next identifier, which is returned.
    pub fn endpoint(&mut self) -> (node_id: usize)
        ensures
            node_id == old(self).next_id(),
            final(self).next_id() == next_node_id(old(self).next_id()),
            final(self).nodes() == old(self).nodes().push(node_id),
            old(self).ids_below_next() && old(self).next_id() < usize::MAX ==> final(self).ids_below_next()
                && !old(self).nodes().contains(node_id),
    {
        let node_id = self.next_id;
        self.next_id = if self.next_id == usize::MAX {
            0
        } else {
            self.next_id + 1
        };
        self.nodes.push(node_id);
        node_id
    }

    /// The nodes that a block sent by `node_id` is forwarded to.
    pub fn peers(&self, node_id: usize) -> (res: Vec<usize>)
        ensures
            res@ == peers_of(self.nodes(), node_id),
            !res@.contains(node_id),
            self.ids_below_next() ==> res@.no_duplicates(),
            forall|p: usize| #[trigger] res@.contains(p) <==> self.nodes().contains(p) && p != node_id,
    {
        let mut res: Vec<usize> = Vec::new();
        let mut i: usize = 0;
        while i < self.nodes.len()
            invariant
                i <= self.nodes@.len(),
                res@ == peers_of(self.nodes@.take(i as int), node_id),
                !res@.contains(node_id),
                self.ids_below_next() ==> res@.no_duplicates(),
                forall|p: usize| #[trigger] res@.contains(p) <==> self.nodes@.take(i as int).contains(p) && p != node_id,
            decreases self.nodes@.len() - i,
        {
            let p = self.nodes[i];
            proof {
                let next = self.nodes@.take(i as int + 1);
                assert(next.drop_last() =~= self.nodes@.take(i as int));
                assert(next.last() == p);
                reveal(Seq::filter);
            }
            let ghost before = res@;
            let ghost prev = self.nodes@.take(i as int);
            let ghost next = self.nodes@.take(i as int + 1);
            proof {
                assert(next =~= prev.push(p));
                if self.ids_below_next() && before.contains(p) {
                    let k = choose|k: int| 0 <= k < prev.len() && prev[k] == p;
                    assert(self.nodes@[k] == self.nodes@[i as int]);
                }
            }
            if p != node_id {
                res.push(p);
            }
            proof {
                assert forall|q: usize| #[trigger] res@.contains(q) <==> next.contains(q) && q != node_id by {
                    if before.contains(q) {
                        let k = choose|k: int| 0 <= k < before.len() && before[k] == q;
                        assert(res@[k] == q);
                    }
                    if res@.contains(q) && q != p {
                        let k = choose|k: int| 0 <= k < res@.len() && res@[k] == q;
                        assert(before[k] == q);
                    }
                    if prev.contains(q) {
                        let k = choose|k: int| 0 <= k < prev.len() && prev[k] == q;
                        assert(next[k] == q);
                    }
                    if next.contains(q) && q != p {
                        let k = choose|k: int| 0 <= k < next.len() && next[k] == q;
                        assert(prev[k] == q);
                    }
                    if q == p && q != node_id {
                        assert(res@[res@.len() - 1] == q);
                    }
                    if q == p {
                        assert(next[i as int] == q);
                    }
                }
            }
            i = i + 1;
        }
        assert(self.nodes@.take(self.nodes@.len() as int) =~= self.nodes@);
        res
    }
}

} // verus!
