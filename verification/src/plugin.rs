//! The `Plugin` trait that every protocol component implements, and the short
//! name a plugin goes by.
use vstd::prelude::*;
use vstd::string::StrSliceExecFns;

verus! {

/// The position of the first `c` in `s`, or its length when there is none.
pub open spec fn first_pos(s: Seq<char>, c: char) -> nat
    decreases s.len(),
{
    if s.len() == 0 {
        0
    } else if s[0] == c {
        0
    } else {
        1 + first_pos(s.drop_first(), c)
    }
}

/// The position just after the last `::` in `s`, or 0 when there is none.
pub open spec fn sep_end(s: Seq<char>) -> nat
    decreases s.len(),
{
    if s.len() < 2 {
        0
    } else if s[s.len() - 2] == ':' && s[s.len() - 1] == ':' {
        s.len()
    } else {
        sep_end(s.drop_last())
    }
}

/// The short name of a type from its full name: the part before the first `<`
/// (the generic arguments), after its last `::` (the module path).
pub open spec fn short_name(full: Seq<char>) -> Seq<char> {
    let base = full.take(first_pos(full, '<') as int);
    base.subrange(sep_end(base) as int, base.len() as int)
}

/// A `::` ends at position `m` of `t`.
pub open spec fn is_sep_end(t: Seq<char>, m: int) -> bool {
    2 <= m <= t.len() && t[m - 2] == ':' && t[m - 1] == ':'
}

proof fn lemma_first_pos(s: Seq<char>, c: char, i: int)
    requires
        0 <= i <= s.len(),
        forall|k: int| 0 <= k < i ==> s[k] != c,
        i == s.len() || s[i] == c,
    ensures
        first_pos(s, c) == i,
    decreases i,
{
    if i > 0 {
        lemma_first_pos(s.drop_first(), c, i - 1);
    }
}

proof fn lemma_first_pos_bound(s: Seq<char>, c: char)
    ensures
        first_pos(s, c) <= s.len(),
    decreases s.len(),
{
    if s.len() > 0 && s[0] != c {
        lemma_first_pos_bound(s.drop_first(), c);
    }
}

proof fn lemma_sep_end_bound(s: Seq<char>)
    ensures
        sep_end(s) <= s.len(),
    decreases s.len(),
{
    if s.len() >= 2 && !(s[s.len() - 2] == ':' && s[s.len() - 1] == ':') {
        lemma_sep_end_bound(s.drop_last());
    }
}

/// No `::` ends after position `j` in `t`, so the last one ends by `j`.
proof fn lemma_sep_end_prefix(t: Seq<char>, j: int)
    requires
        0 <= j <= t.len(),
        forall|m: int| j < m <= t.len() ==> !#[trigger] is_sep_end(t, m),
    ensures
        sep_end(t) == sep_end(t.take(j)),
    decreases t.len() - j,
{
    if j < t.len() {
        assert(t.drop_last().take(j) =~= t.take(j));
        assert(!is_sep_end(t, t.len() as int));
        assert forall|m: int| j < m <= t.drop_last().len() implies !#[trigger] is_sep_end(t.drop_last(), m) by {
            assert(!is_sep_end(t, m));
        }
        lemma_sep_end_prefix(t.drop_last(), j);
    } else {
        assert(t.take(j) =~= t);
    }
}

proof fn lemma_before_first_pos(s: Seq<char>, c: char)
    ensures
        forall|k: int| 0 <= k < first_pos(s, c) ==> s[k] != c,
    decreases s.len(),
{
    if s.len() > 0 && s[0] != c {
        lemma_before_first_pos(s.drop_first(), c);
        lemma_first_pos_bound(s, c);
        assert forall|k: int| 0 <= k < first_pos(s, c) implies s[k] != c by {
            if k > 0 {
                assert(s[k] == s.drop_first()[k - 1]);
            }
        }
    }
}

proof fn lemma_after_sep_end(s: Seq<char>)
    ensures
        forall|m: int| sep_end(s) < m <= s.len() ==> !#[trigger] is_sep_end(s, m),
    decreases s.len(),
{
    if s.len() >= 2 && !(s[s.len() - 2] == ':' && s[s.len() - 1] == ':') {
        lemma_after_sep_end(s.drop_last());
        assert forall|m: int| sep_end(s) < m <= s.len() implies !#[trigger] is_sep_end(s, m) by {
            if m < s.len() && is_sep_end(s, m) {
                assert(is_sep_end(s.drop_last(), m));
            }
        }
    }
}

/// Law: a short name holds no generic arguments and no module path: no `<` and
/// no `::` occur in it.
pub proof fn law_short_name(full: Seq<char>)
    ensures
        forall|i: int| 0 <= i < short_name(full).len() ==> #[trigger] short_name(full)[i] != '<',
        forall|i: int|
            0 <= i < short_name(full).len() - 1 ==> !(#[trigger] short_name(full)[i] == ':'
                && short_name(full)[i + 1] == ':'),
{
    let base = full.take(first_pos(full, '<') as int);
    lemma_first_pos_bound(full, '<');
    lemma_before_first_pos(full, '<');
    lemma_sep_end_bound(base);
    lemma_after_sep_end(base);
    let e = sep_end(base) as int;
    let sn = short_name(full);
    assert forall|i: int| 0 <= i < sn.len() implies #[trigger] sn[i] != '<' by {
        assert(sn[i] == base[e + i]);
        assert(base[e + i] == full[e + i]);
    }
    assert forall|i: int| 0 <= i < sn.len() - 1 implies !(#[trigger] sn[i] == ':' && sn[i + 1] == ':') by {
        assert(sn[i] == base[e + i] && sn[i + 1] == base[e + i + 1]);
        assert(!is_sep_end(base, e + i + 2));
    }
}

/// The short name of the type named `full`.
pub fn short_type_name(full: &str) -> (res: &str)
    ensures
        res@ == short_name(full@),
{
    let len = full.unicode_len();
    let mut p: usize = 0;
    while p < len && full.get_char(p) != '<'
        invariant
            len == full@.len(),
            p <= len,
            forall|k: int| 0 <= k < p ==> full@[k] != '<',
        decreases len - p,
    {
        p = p + 1;
    }
    proof {
        lemma_first_pos(full@, '<', p as int);
    }
    let ghost base = full@.take(p as int);
    let mut j: usize = p;
    while j >= 2 && !(full.get_char(j - 2) == ':' && full.get_char(j - 1) == ':')
        invariant
            len == full@.len(),
            p <= len,
            j <= p,
            base == full@.take(p as int),
            forall|m: int| j < m <= p ==> !#[trigger] is_sep_end(base, m),
        decreases j,
    {
        proof {
            assert(base[j - 2] == full@[j - 2] && base[j - 1] == full@[j - 1]);
        }
        j = j - 1;
    }
    proof {
        lemma_sep_end_prefix(base, j as int);
        if j >= 2 {
            assert(base.take(j as int)[j - 2] == ':' && base.take(j as int)[j - 1] == ':');
        } else {
            assert(sep_end(base.take(j as int)) == 0);
        }
    }
    let start: usize = if j >= 2 { j } else { 0 };
    proof {
        assert(base.subrange(start as int, p as int) =~= full@.subrange(start as int, p as int));
    }
    full.substring_char(start, p)
}

/// A protocol component.
pub trait Plugin {
    /// The full name of the plugin's type: its module path, its name and its
    /// generic arguments.
    spec fn qualified(&self) -> Seq<char>;

    /// The full name of the plugin's type, as text.
    fn qualified_name(&self) -> (res: &'static str)
        ensures
            res@ == self.qualified(),
    ;

    /// The name of the plugin: the short name of its type.
    fn plugin_name(&self) -> (res: &'static str)
        ensures
            res@ == short_name(self.qualified()),
    {
        short_type_name(self.qualified_name())
    }
}

impl Plugin for crate::block_storage::BlockStorage {
    open spec fn qualified(&self) -> Seq<char> {
        "protocol::block_storage::BlockStorage"@
    }

    fn qualified_name(&self) -> (res: &'static str) {
        "protocol::block_storage::BlockStorage"
    }
}

impl Plugin for crate::block_dag::BlockDAG {
    open spec fn qualified(&self) -> Seq<char> {
        "protocol::block_dag::BlockDAG"@
    }

    fn qualified_name(&self) -> (res: &'static str) {
        "protocol::block_dag::BlockDAG"
    }
}

impl Plugin for crate::tip_selection::TipSelection {
    open spec fn qualified(&self) -> Seq<char> {
        "protocol::tip_selection::TipSelection"@
    }

    fn qualified_name(&self) -> (res: &'static str) {
        "protocol::tip_selection::TipSelection"
    }
}

impl Plugin for crate::consensus::Consensus {
    open spec fn qualified(&self) -> Seq<char> {
        "protocol::consensus::Consensus"@
    }

    fn qualified_name(&self) -> (res: &'static str) {
        "protocol::consensus::Consensus"
    }
}

impl Plugin for crate::consensus_round::ConsensusRound {
    open spec fn qualified(&self) -> Seq<char> {
        "protocol::consensus_round::ConsensusRound"@
    }

    fn qualified_name(&self) -> (res: &'static str) {
        "protocol::consensus_round::ConsensusRound"
    }
}

impl Plugin for crate::consensus_feed::ConsensusFeed {
    open spec fn qualified(&self) -> Seq<char> {
        "protocol::consensus_feed::ConsensusFeed"@
    }

    fn qualified_name(&self) -> (res: &'static str) {
        "protocol::consensus_feed::ConsensusFeed"
    }
}

impl Plugin for crate::virtual_voting::VirtualVoting {
    open spec fn qualified(&self) -> Seq<char> {
        "protocol::virtual_voting::VirtualVoting"@
    }

    fn qualified_name(&self) -> (res: &'static str) {
        "protocol::virtual_voting::VirtualVoting"
    }
}

impl Plugin for crate::block_factory::BlockFactory {
    open spec fn qualified(&self) -> Seq<char> {
        "protocol::block_factory::BlockFactory"@
    }

    fn qualified_name(&self) -> (res: &'static str) {
        "protocol::block_factory::BlockFactory"
    }
}

impl Plugin for crate::validator::Validator {
    open spec fn qualified(&self) -> Seq<char> {
        "protocol::validator::Validator"@
    }

    fn qualified_name(&self) -> (res: &'static str) {
        "protocol::validator::Validator"
    }
}

impl Plugin for crate::inbox::Inbox {
    open spec fn qualified(&self) -> Seq<char> {
        "protocol::inbox::Inbox"@
    }

    fn qualified_name(&self) -> (res: &'static str) {
        "protocol::inbox::Inbox"
    }
}

impl Plugin for crate::outbox::Outbox {
    open spec fn qualified(&self) -> Seq<char> {
        "protocol::outbox::Outbox"@
    }

    fn qualified_name(&self) -> (res: &'static str) {
        "protocol::outbox::Outbox"
    }
}

impl<H> Plugin for crate::config::Config<H> {
    open spec fn qualified(&self) -> Seq<char> {
        "protocol::config::Config"@
    }

    fn qualified_name(&self) -> (res: &'static str) {
        "protocol::config::Config"
    }
}

impl Plugin for crate::networking::Networking {
    open spec fn qualified(&self) -> Seq<char> {
        "protocol::networking::Networking"@
    }

    fn qualified_name(&self) -> (res: &'static str) {
        "protocol::networking::Networking"
    }
}

} // verus!
