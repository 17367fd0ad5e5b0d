//! Consensus rounds: the round the heaviest milestone vote started, the
//! committee members seen voting in it, their weight, and the highest round
//! whose seen weight exceeded the consensus threshold.
use crate::types::{find_member, Committee, IssuerId, Member};
use crate::vote::{Issuer, Vote, VoteView};
use std::collections::HashSet;
use vstd::prelude::*;

verus! {

broadcast use vstd::std_specs::hash::group_hash_axioms;

/// The issuers a vote counts for: its issuer, or for the genesis vote the
/// issuers of the milestones it references.
pub open spec fn counted_issuers(v: VoteView) -> Seq<IssuerId> {
    match v.issuer {
        Issuer::User(i) => seq![i],
        Issuer::Genesis => v.referenced_milestones,
    }
}

/// Seen participants and weight after counting the committee members among
/// `ids`, in order: a member not seen before is added and its weight counted.
pub open spec fn add_participants(parts: Set<IssuerId>, weight: int, ids: Seq<IssuerId>, members: Seq<Member>) -> (Set<IssuerId>, int)
    decreases ids.len(),
{
    if ids.len() == 0 {
        (parts, weight)
    } else {
        match find_member(members, ids[0]) {
            Some(m) => if parts.contains(m.id) {
                add_participants(parts, weight, ids.drop_first(), members)
            } else {
                add_participants(parts.insert(m.id), weight + m.weight, ids.drop_first(), members)
            },
            None => add_participants(parts, weight, ids.drop_first(), members),
        }
    }
}

/// While counting `ids`, a newly seen member brought the weight above `threshold`.
pub open spec fn exceeds_while_adding(parts: Set<IssuerId>, weight: int, ids: Seq<IssuerId>, members: Seq<Member>, threshold: u64) -> bool
    decreases ids.len(),
{
    if ids.len() == 0 {
        false
    } else {
        match find_member(members, ids[0]) {
            Some(m) => if parts.contains(m.id) {
                exceeds_while_adding(parts, weight, ids.drop_first(), members, threshold)
            } else {
                weight + m.weight > threshold || exceeds_while_adding(
                    parts.insert(m.id),
                    weight + m.weight,
                    ids.drop_first(),
                    members,
                    threshold,
                )
            },
            None => exceeds_while_adding(parts, weight, ids.drop_first(), members, threshold),
        }
    }
}

/// The committee members among `ids`, by identifier.
pub open spec fn members_among(ids: Seq<IssuerId>, members: Seq<Member>) -> Set<IssuerId> {
    Set::new(|x: IssuerId| ids.contains(x) && find_member(members, x) is Some)
}

/// Counting changes the weight only by adding members.
proof fn lemma_add_participants_unchanged(parts: Set<IssuerId>, weight: int, ids: Seq<IssuerId>, members: Seq<Member>)
    ensures
        add_participants(parts, weight, ids, members).0 == parts ==> add_participants(parts, weight, ids, members).1
            == weight,
    decreases ids.len(),
{
    if ids.len() > 0 {
        match find_member(members, ids[0]) {
            Some(m) => if parts.contains(m.id) {
                lemma_add_participants_unchanged(parts, weight, ids.drop_first(), members);
            } else {
                lemma_add_participants_monotone(parts.insert(m.id), weight + m.weight, ids.drop_first(), members);
                assert(add_participants(parts, weight, ids, members).0.contains(m.id));
            },
            None => lemma_add_participants_unchanged(parts, weight, ids.drop_first(), members),
        }
    }
}

/// Law: counting a vote's issuers adds to the participants exactly the
/// committee members among them, never lowers the weight, and completes the
/// round exactly when a new member was added and the final weight exceeds
/// the threshold.
pub proof fn law_counting(parts: Set<IssuerId>, weight: int, ids: Seq<IssuerId>, members: Seq<Member>, threshold: u64)
    ensures
        add_participants(parts, weight, ids, members).0 == parts.union(members_among(ids, members)),
        add_participants(parts, weight, ids, members).1 >= weight,
        exceeds_while_adding(parts, weight, ids, members, threshold) == (add_participants(parts, weight, ids, members).0
            != parts && add_participants(parts, weight, ids, members).1 > threshold),
    decreases ids.len(),
{
    lemma_add_participants_monotone(parts, weight, ids, members);
    if ids.len() == 0 {
        assert(parts.union(members_among(ids, members)) =~= parts);
    } else {
        let rest = ids.drop_first();
        lemma_find_member_id(members, ids[0]);
        assert forall|x: IssuerId| #[trigger] ids.contains(x) <==> (x == ids[0] || rest.contains(x)) by {
            if ids.contains(x) {
                let i = choose|i: int| 0 <= i < ids.len() && ids[i] == x;
                if i > 0 {
                    assert(rest[i - 1] == x);
                }
            }
            if rest.contains(x) {
                let i = choose|i: int| 0 <= i < rest.len() && rest[i] == x;
                assert(ids[i + 1] == x);
            }
            if x == ids[0] {
                assert(ids[0] == x);
            }
        }
        match find_member(members, ids[0]) {
            Some(m) => if parts.contains(m.id) {
                law_counting(parts, weight, rest, members, threshold);
                assert(parts.union(members_among(ids, members)) =~= parts.union(members_among(rest, members)));
            } else {
                let p2 = parts.insert(m.id);
                law_counting(p2, weight + m.weight, rest, members, threshold);
                lemma_add_participants_unchanged(p2, weight + m.weight, rest, members);
                lemma_add_participants_monotone(p2, weight + m.weight, rest, members);
                assert(parts.union(members_among(ids, members)) =~= p2.union(members_among(rest, members)));
                assert(add_participants(parts, weight, ids, members).0.contains(m.id));
            },
            None => {
                law_counting(parts, weight, rest, members, threshold);
                assert(parts.union(members_among(ids, members)) =~= parts.union(members_among(rest, members)));
            },
        }
    }
}

/// The state after a vote of the user `i` in round `round` is counted: `i`
/// joins the participants when it is a committee member, adding its weight if
/// it was not seen yet, and the round completes when that weight crosses the
/// threshold. Nothing else of the vote is counted.
pub open spec fn user_vote_counted(
    parts: Set<IssuerId>,
    weight: int,
    completed: Option<u64>,
    i: IssuerId,
    round: u64,
    members: Seq<Member>,
    threshold: u64,
    parts_after: Set<IssuerId>,
    weight_after: int,
    completed_after: Option<u64>,
) -> bool {
    match find_member(members, i) {
        None => parts_after == parts && weight_after == weight && completed_after == completed,
        Some(m) => if parts.contains(i) {
            parts_after == parts && weight_after == weight && completed_after == completed
        } else {
            &&& parts_after == parts.insert(i)
            &&& weight_after == weight + m.weight
            &&& completed_after == if weight + m.weight > threshold {
                Some(
                    match completed {
                        Some(c) => if c >= round {
                            c
                        } else {
                            round
                        },
                        None => round,
                    },
                )
            } else {
                completed
            }
        },
    }
}

/// Law: a vote of a user counts that user alone. Counting the issuers of a
/// vote issued by `i` changes the participants, the weight and the completed
/// round exactly as `user_vote_counted` says: the milestones the vote
/// references are not counted.
pub proof fn law_user_vote_counts_its_issuer(
    parts: Set<IssuerId>,
    weight: int,
    completed: Option<u64>,
    v: VoteView,
    members: Seq<Member>,
    threshold: u64,
)
    requires
        v.issuer is User,
    ensures
        user_vote_counted(
            parts,
            weight,
            completed,
            v.issuer->User_0,
            v.round,
            members,
            threshold,
            add_participants(parts, weight, counted_issuers(v), members).0,
            add_participants(parts, weight, counted_issuers(v), members).1,
            if exceeds_while_adding(parts, weight, counted_issuers(v), members, threshold) {
                track_max(completed, v.round)
            } else {
                completed
            },
        ),
{
    let i = v.issuer->User_0;
    let ids = counted_issuers(v);
    lemma_find_member_id(members, i);
    let empty = Seq::<IssuerId>::empty();
    assert(ids == seq![i]);
    assert(ids.len() == 1 && ids[0] == i);
    assert(ids.drop_first() =~= empty);
    match find_member(members, i) {
        Some(m) => {
            assert(m.id == i);
            if parts.contains(i) {
                assert(add_participants(parts, weight, empty, members) == (parts, weight));
                assert(!exceeds_while_adding(parts, weight, empty, members, threshold));
            } else {
                assert(add_participants(parts.insert(i), weight + m.weight, empty, members) == (
                    parts.insert(i),
                    weight + m.weight,
                ));
                assert(!exceeds_while_adding(parts.insert(i), weight + m.weight, empty, members, threshold));
            }
        },
        None => {
            assert(add_participants(parts, weight, empty, members) == (parts, weight));
            assert(!exceeds_while_adding(parts, weight, empty, members, threshold));
        },
    }
}

/// The summed weight of the committee members with identifiers `ids`.
pub open spec fn weight_of(ids: Seq<IssuerId>, members: Seq<Member>) -> int
    decreases ids.len(),
{
    if ids.len() == 0 {
        0
    } else {
        (match find_member(members, ids[0]) {
            Some(m) => m.weight as int,
            None => 0,
        }) + weight_of(ids.drop_first(), members)
    }
}

/// Law: counting never counts a member twice. The weight grows by exactly the
/// summed weight of the members newly seen, each of them once.
pub proof fn law_counted_weight(parts: Set<IssuerId>, weight: int, ids: Seq<IssuerId>, members: Seq<Member>)
    ensures
        exists|added: Seq<IssuerId>|
            added.no_duplicates() && added.to_set() == add_participants(parts, weight, ids, members).0.difference(
                parts,
            ) && #[trigger] weight_of(added, members) == add_participants(parts, weight, ids, members).1 - weight,
    decreases ids.len(),
{
    let res = add_participants(parts, weight, ids, members);
    if ids.len() == 0 {
        let added = Seq::<IssuerId>::empty();
        assert(added.to_set() =~= res.0.difference(parts));
        assert(weight_of(added, members) == res.1 - weight);
    } else {
        let rest = ids.drop_first();
        lemma_find_member_id(members, ids[0]);
        match find_member(members, ids[0]) {
            Some(m) => if parts.contains(m.id) {
                law_counted_weight(parts, weight, rest, members);
            } else {
                let p2 = parts.insert(m.id);
                let w2 = weight + m.weight;
                law_counted_weight(p2, w2, rest, members);
                lemma_add_participants_monotone(p2, w2, rest, members);
                let ar = choose|a: Seq<IssuerId>|
                    a.no_duplicates() && a.to_set() == add_participants(p2, w2, rest, members).0.difference(p2)
                        && #[trigger] weight_of(a, members) == add_participants(p2, w2, rest, members).1 - w2;
                let added = seq![m.id] + ar;
                assert(added[0] == m.id);
                assert(added.drop_first() =~= ar);
                assert(!ar.contains(m.id)) by {
                    if ar.contains(m.id) {
                        assert(ar.to_set().contains(m.id));
                    }
                }
                assert(added.no_duplicates()) by {
                    assert forall|a: int, b: int| 0 <= a < added.len() && 0 <= b < added.len() && a != b implies added[a] != added[b] by {
                        if a == 0 && b > 0 {
                            assert(added[b] == ar[b - 1]);
                        } else if b == 0 && a > 0 {
                            assert(added[a] == ar[a - 1]);
                        } else if a > 0 && b > 0 {
                            assert(added[a] == ar[a - 1] && added[b] == ar[b - 1]);
                        }
                    }
                }
                assert(added.to_set() =~= res.0.difference(parts)) by {
                    assert forall|x: IssuerId| added.to_set().contains(x) <==> res.0.difference(parts).contains(x) by {
                        if added.contains(x) && x != m.id {
                            let k = choose|k: int| 0 <= k < added.len() && added[k] == x;
                            assert(ar[k - 1] == x);
                            assert(ar.to_set().contains(x));
                        }
                        if x != m.id && res.0.difference(parts).contains(x) {
                            assert(res.0.difference(p2).contains(x));
                            assert(ar.to_set().contains(x));
                            let k = choose|k: int| 0 <= k < ar.len() && ar[k] == x;
                            assert(added[k + 1] == x);
                        }
                        if x == m.id {
                            assert(added[0] == x);
                            assert(p2.contains(m.id));
                        }
                    }
                }
                assert(find_member(members, m.id) == Some(m));
                assert(weight_of(added, members) == m.weight + weight_of(ar, members));
            },
            None => {
                law_counted_weight(parts, weight, rest, members);
            },
        }
    }
}

/// `Some(max(old, round))`, or `Some(round)` when there is no value yet.
pub open spec fn track_max(old: Option<u64>, round: u64) -> Option<u64> {
    match old {
        Some(o) => Some(if o >= round { o } else { round }),
        None => Some(round),
    }
}

/// Counting never lowers the weight.
proof fn lemma_add_participants_monotone(parts: Set<IssuerId>, weight: int, ids: Seq<IssuerId>, members: Seq<Member>)
    ensures
        add_participants(parts, weight, ids, members).1 >= weight,
        parts.subset_of(add_participants(parts, weight, ids, members).0),
    decreases ids.len(),
{
    if ids.len() > 0 {
        match find_member(members, ids[0]) {
            Some(m) => if parts.contains(m.id) {
                lemma_add_participants_monotone(parts, weight, ids.drop_first(), members);
            } else {
                lemma_add_participants_monotone(parts.insert(m.id), weight + m.weight, ids.drop_first(), members);
            },
            None => lemma_add_participants_monotone(parts, weight, ids.drop_first(), members),
        }
    }
}

/// The round-tracking state.
pub struct ConsensusRound {
    started: Option<u64>,
    completed: Option<u64>,
    seen_participants: HashSet<IssuerId>,
    seen_weight: u64,
}

impl ConsensusRound {
    pub closed spec fn started_view(&self) -> Option<u64> {
        self.started
    }

    pub closed spec fn completed_view(&self) -> Option<u64> {
        self.completed
    }

    pub closed spec fn participants(&self) -> Set<IssuerId> {
        self.seen_participants@
    }

    pub closed spec fn weight(&self) -> u64 {
        self.seen_weight
    }

    /// No round started, none completed, nobody seen.
    pub fn new() -> (res: ConsensusRound)
        ensures
            res.started_view() is None,
            res.completed_view() is None,
            res.participants() == Set::<IssuerId>::empty(),
            res.weight() == 0,
    {
        ConsensusRound { started: None, completed: None, seen_participants: HashSet::new(), seen_weight: 0 }
    }

    pub fn started(&self) -> (res: Option<u64>)
        ensures
            res == self.started_view(),
    {
        self.started
    }

    pub fn completed(&self) -> (res: Option<u64>)
        ensures
            res == self.completed_view(),
    {
        self.completed
    }

    pub fn seen_weight(&self) -> (res: u64)
        ensures
            res == self.weight(),
    {
        self.seen_weight
    }

    /// Whether `id` was seen voting in the current round.
    pub fn has_seen(&self, id: IssuerId) -> (res: bool)
        ensures
            res == self.participants().contains(id),
    {
        self.seen_participants.contains(&id)
    }

    /// Starts round `new` unless a round at least as high has started; starting
    /// a round forgets the participants and weight seen. Returns whether it started.
    pub fn update_started(&mut self, new: u64) -> (res: bool)
        ensures
            res == !(old(self).started_view() matches Some(o) && o >= new),
            res ==> final(self).started_view() == Some(new) && final(self).participants() == Set::<
                IssuerId,
            >::empty() && final(self).weight() == 0,
            !res ==> final(self).started_view() == old(self).started_view() && final(self).participants()
                == old(self).participants() && final(self).weight() == old(self).weight(),
            final(self).completed_view() == old(self).completed_view(),
    {
        match self.started {
            Some(o) => {
                if o >= new {
                    return false;
                }
            },
            None => {},
        }
        self.seen_participants = HashSet::new();
        self.seen_weight = 0;
        self.started = Some(new);
        true
    }

    /// Follows the heaviest milestone vote: when there is one, its round starts
    /// (see `update_started`). Returns whether a round started.
    pub fn on_heaviest_milestone(&mut self, new: Option<&Vote>) -> (res: bool)
        ensures
            new is None ==> !res && *final(self) == *old(self),
            new matches Some(v) ==> {
                &&& res == !(old(self).started_view() matches Some(o) && o >= v.round)
                &&& res ==> final(self).started_view() == Some(v.round) && final(self).participants()
                    == Set::<IssuerId>::empty() && final(self).weight() == 0
                &&& !res ==> final(self).started_view() == old(self).started_view()
                    && final(self).participants() == old(self).participants() && final(self).weight()
                    == old(self).weight()
            },
            final(self).completed_view() == old(self).completed_view(),
    {
        match new {
            Some(v) => self.update_started(v.round),
            None => false,
        }
    }

    /// Counts `weight` for round `round`; when the weight seen exceeds
    /// `threshold`, round `round` counts as completed unless a higher one is.
    pub fn update_seen_weight(&mut self, round: u64, weight: u64, threshold: u64)
        requires
            old(self).weight() + weight <= u64::MAX,
        ensures
            final(self).weight() == old(self).weight() + weight,
            final(self).completed_view() == if old(self).weight() + weight > threshold {
                track_max(old(self).completed_view(), round)
            } else {
                old(self).completed_view()
            },
            final(self).started_view() == old(self).started_view(),
            final(self).participants() == old(self).participants(),
    {
        let new = self.seen_weight + weight;
        if new > threshold {
            self.completed = match self.completed {
                Some(o) => Some(if o >= round { o } else { round }),
                None => Some(round),
            };
        }
        self.seen_weight = new;
    }

    /// Marks `member` as seen in round `round`; a member not seen before adds its weight.
    pub fn update_seen_participants(&mut self, round: u64, member: Member, threshold: u64)
        requires
            !old(self).participants().contains(member.id) ==> old(self).weight() + member.weight <= u64::MAX,
        ensures
            final(self).participants() == old(self).participants().insert(member.id),
            old(self).participants().contains(member.id) ==> final(self).weight() == old(self).weight()
                && final(self).completed_view() == old(self).completed_view(),
            !old(self).participants().contains(member.id) ==> final(self).weight() == old(self).weight()
                + member.weight && final(self).completed_view() == if old(self).weight() + member.weight
                > threshold {
                track_max(old(self).completed_view(), round)
            } else {
                old(self).completed_view()
            },
            final(self).started_view() == old(self).started_view(),
    {
        if self.seen_participants.insert(member.id) {
            self.update_seen_weight(round, member.weight, threshold);
        } else {
            assert(self.seen_participants@ =~= old(self).seen_participants@.insert(member.id));
        }
    }

    /// Counts the members among `ids`, in order.
    fn count_issuers(&mut self, round: u64, ids: &Vec<IssuerId>, committee: &Committee)
        requires
            add_participants(old(self).participants(), old(self).weight() as int, ids@, committee.members@).1 <= u64::MAX,
        ensures
            (final(self).participants(), final(self).weight() as int) == add_participants(
                old(self).participants(),
                old(self).weight() as int,
                ids@,
                committee.members@,
            ),
            final(self).completed_view() == if exceeds_while_adding(
                old(self).participants(),
                old(self).weight() as int,
                ids@,
                committee.members@,
                committee.threshold,
            ) {
                track_max(old(self).completed_view(), round)
            } else {
                old(self).completed_view()
            },
            final(self).started_view() == old(self).started_view(),
    {
        let threshold = committee.consensus_threshold();
        let mut i: usize = 0;
        assert(ids@.skip(0) =~= ids@);
        while i < ids.len()
            invariant
                i <= ids.len(),
                threshold == committee.threshold,
                self.started == old(self).started,
                add_participants(self.participants(), self.weight() as int, ids@.skip(i as int), committee.members@)
                    == add_participants(old(self).participants(), old(self).weight() as int, ids@, committee.members@),
                add_participants(old(self).participants(), old(self).weight() as int, ids@, committee.members@).1 <= u64::MAX,
                (if exceeds_while_adding(old(self).participants(), old(self).weight() as int, ids@, committee.members@, threshold) {
                    track_max(old(self).completed, round)
                } else {
                    old(self).completed
                }) == (if exceeds_while_adding(self.participants(), self.weight() as int, ids@.skip(i as int), committee.members@, threshold) {
                    track_max(self.completed, round)
                } else {
                    self.completed
                }),
            decreases ids.len() - i,
        {
            let ghost rest = ids@.skip(i as int);
            assert(rest[0] == ids@[i as int]);
            assert(rest.drop_first() =~= ids@.skip(i + 1));
            let ghost pre = *self;
            match committee.member(ids[i]) {
                Some(m) => {
                    proof {
                        lemma_find_member_id(committee.members@, ids@[i as int]);
                        if !pre.participants().contains(m.id) {
                            lemma_add_participants_monotone(
                                pre.participants().insert(m.id),
                                pre.weight() + m.weight,
                                rest.drop_first(),
                                committee.members@,
                            );
                        }
                    }
                    self.update_seen_participants(round, m, threshold);
                    proof {
                        if !pre.participants().contains(m.id) {
                            if pre.weight() + m.weight > threshold {
                                lemma_track_max_idem(pre.completed, round);
                                lemma_exceeds_keeps(self.participants(), self.weight() as int, ids@.skip(i + 1), committee.members@, threshold, self.completed, round);
                            }
                        } else {
                            assert(self.participants() =~= pre.participants());
                        }
                    }
                },
                None => {},
            }
            i = i + 1;
        }
        assert(ids@.skip(ids@.len() as int) =~= Seq::<IssuerId>::empty());
    }

    /// Processes the vote of a block: a milestone vote of the started round
    /// counts its issuers that are committee members.
    pub fn process_vote(&mut self, vote: &Vote, committee: Option<&Committee>) -> (completed_changed: bool)
        requires
            vote@.milestone is Some && old(self).started_view() == Some(vote@.round) ==> (committee matches Some(c)
                ==> add_participants(
                old(self).participants(),
                old(self).weight() as int,
                counted_issuers(vote@),
                c.members@,
            ).1 <= u64::MAX),
        ensures
            completed_changed == (final(self).completed_view() != old(self).completed_view()),
            final(self).started_view() == old(self).started_view(),
            vote@.milestone is Some && old(self).started_view() == Some(vote@.round) && committee is Some ==> (
            vote@.issuer matches Issuer::User(i) ==> user_vote_counted(
                old(self).participants(),
                old(self).weight() as int,
                old(self).completed_view(),
                i,
                vote@.round,
                committee->0.members@,
                committee->0.threshold,
                final(self).participants(),
                final(self).weight() as int,
                final(self).completed_view(),
            )),
            old(self).completed_view() matches Some(c) ==> (final(self).completed_view() matches Some(d) && d >= c),
            old(self).participants().subset_of(final(self).participants()),
            !(vote@.milestone is Some && old(self).started_view() == Some(vote@.round) && committee is Some)
                ==> final(self).participants() == old(self).participants() && final(self).weight()
                == old(self).weight() && final(self).completed_view() == old(self).completed_view(),
            vote@.milestone is Some && old(self).started_view() == Some(vote@.round) && committee is Some ==> {
                let c = committee->0;
                &&& (final(self).participants(), final(self).weight() as int) == add_participants(
                    old(self).participants(),
                    old(self).weight() as int,
                    counted_issuers(vote@),
                    c.members@,
                )
                &&& final(self).completed_view() == if exceeds_while_adding(
                    old(self).participants(),
                    old(self).weight() as int,
                    counted_issuers(vote@),
                    c.members@,
                    c.threshold,
                ) {
                    track_max(old(self).completed_view(), vote@.round)
                } else {
                    old(self).completed_view()
                }
            },
    {
        proof {
            if vote@.milestone is Some && old(self).started_view() == Some(vote@.round) && committee is Some {
                lemma_add_participants_monotone(
                    self.participants(),
                    self.weight() as int,
                    counted_issuers(vote@),
                    committee->0.members@,
                );
            }
        }
        if vote.milestone.is_none() {
            return false;
        }
        let round = match self.started {
            Some(r) => r,
            None => {
                return false;
            },
        };
        if vote.round != round {
            return false;
        }
        let c = match committee {
            Some(c) => c,
            None => {
                return false;
            },
        };
        let before = self.completed;
        match vote.issuer {
            Issuer::User(issuer) => {
                let ids = vec![issuer];
                assert(ids@ =~= seq![issuer]);
                let ghost before = *self;
                self.count_issuers(vote.round, &ids, c);
                proof {
                    law_user_vote_counts_its_issuer(
                        before.participants(),
                        before.weight() as int,
                        before.completed_view(),
                        vote@,
                        c.members@,
                        c.threshold,
                    );
                }
            },
            Issuer::Genesis => {
                self.count_issuers(vote.round, &vote.referenced_milestones, c);
            },
        }
        self.completed != before
    }
}

/// The member found for `id` has identifier `id`.
proof fn lemma_find_member_id(members: Seq<Member>, id: IssuerId)
    ensures
        find_member(members, id) matches Some(m) ==> m.id == id,
    decreases members.len(),
{
    if members.len() > 0 && members[0].id != id {
        lemma_find_member_id(members.drop_first(), id);
    }
}

proof fn lemma_track_max_idem(c: Option<u64>, round: u64)
    ensures
        track_max(track_max(c, round), round) == track_max(c, round),
{
}

/// Once `completed` already holds `round` at least, a later excess changes nothing.
proof fn lemma_exceeds_keeps(parts: Set<IssuerId>, weight: int, ids: Seq<IssuerId>, members: Seq<Member>, threshold: u64, completed: Option<u64>, round: u64)
    requires
        completed is Some && completed->0 >= round,
    ensures
        (if exceeds_while_adding(parts, weight, ids, members, threshold) {
            track_max(completed, round)
        } else {
            completed
        }) == completed,
{
}

} // verus!
