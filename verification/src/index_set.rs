//! Insertion-ordered sets of block identifiers, held in `indexmap::IndexSet`.
use indexmap::IndexSet;
use vstd::prelude::*;

verus! {

/// The outside type `indexmap::IndexSet`, carried through opaquely.
#[verifier::external_type_specification]
#[verifier::external_body]
#[verifier::reject_recursive_types(T)]
#[verifier::reject_recursive_types(S)]
pub struct ExIndexSet<T, S>(IndexSet<T, S>);

/// The items of an `IndexSet<u64>`, in insertion order.
pub uninterp spec fn index_set_items(s: IndexSet<u64>) -> Seq<u64>;

/// `IndexSet::new`: the returned set holds no item.
#[verifier::external_body]
pub(crate) fn index_set_new() -> (res: IndexSet<u64>)
    ensures
        index_set_items(res) == Seq::<u64>::empty(),
{
    IndexSet::new()
}

/// `IndexSet::insert`: if `value` is not in the set, it is appended at the end
/// and `true` comes back; otherwise the set is left as it was and `false` comes back.
#[verifier::external_body]
pub(crate) fn index_set_insert(set: &mut IndexSet<u64>, value: u64) -> (res: bool)
    ensures
        res == !index_set_items(*old(set)).contains(value),
        index_set_items(*final(set)) == if res {
            index_set_items(*old(set)).push(value)
        } else {
            index_set_items(*old(set))
        },
{
    set.insert(value)
}

/// `IndexSet::len`: the number of items.
#[verifier::external_body]
pub(crate) fn index_set_len(set: &IndexSet<u64>) -> (res: usize)
    ensures
        res == index_set_items(*set).len(),
{
    set.len()
}

/// `IndexSet::get_index`: the item at position `index` in insertion order, if any.
#[verifier::external_body]
pub(crate) fn index_set_get_index(set: &IndexSet<u64>, index: usize) -> (res: Option<u64>)
    ensures
        index < index_set_items(*set).len() ==> res == Some(index_set_items(*set)[index as int]),
        index >= index_set_items(*set).len() ==> res is None,
{
    set.get_index(index).copied()
}

/// The items of the set, in insertion order.
pub fn index_set_to_vec(set: &IndexSet<u64>) -> (res: Vec<u64>)
    ensures
        res@ == index_set_items(*set),
{
    let n = index_set_len(set);
    let mut res: Vec<u64> = Vec::new();
    let mut i: usize = 0;
    while i < n
        invariant
            n == index_set_items(*set).len(),
            i <= n,
            res@ == index_set_items(*set).subrange(0, i as int),
        decreases n - i,
    {
        let item = index_set_get_index(set, i);
        match item {
            Some(v) => {
                res.push(v);
            },
            None => {},
        }
        i = i + 1;
        assert(res@ =~= index_set_items(*set).subrange(0, i as int));
    }
    assert(index_set_items(*set).subrange(0, n as int) =~= index_set_items(*set));
    res
}

} // verus!
