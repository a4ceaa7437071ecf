//! Validator committees and the round-resolution rules.
//!
//! Committees are immutable once formed, totally ordered by
//! `starting_round`, and rotate only on even rounds.  The applicable
//! committee for a round `r` is the stored committee with the greatest
//! `starting_round <= r`; a round at or past the current committee's
//! `starting_round` optimistically falls back to the current committee.

use vstd::prelude::*;

verus! {

/// A validator identity together with its stake weight.
#[derive(Clone, Copy, PartialEq, Eq, Structural, Debug)]
pub struct CommitteeMember {
    /// The validator's content-addressed identity.
    pub address: u64,
    /// The validator's stake weight.
    pub stake: u64,
}

/// An ordered set of validators with stake weights, effective from
/// `starting_round` onward.
#[derive(Clone, PartialEq, Eq, Debug)]
pub struct Committee {
    /// The first round this committee is responsible for.
    pub starting_round: u64,
    /// The validators of this committee, in their canonical order.
    pub members: Vec<CommitteeMember>,
}

/// The mathematical model of a [`Committee`].
#[verifier::ext_equal]
pub ghost struct CommitteeModel {
    pub starting_round: u64,
    pub members: Seq<CommitteeMember>,
}

impl View for Committee {
    type V = CommitteeModel;

    open spec fn view(&self) -> CommitteeModel {
        CommitteeModel { starting_round: self.starting_round, members: self.members@ }
    }
}

impl Committee {
    /// Returns a fresh committee with the same content.
    pub fn duplicate(&self) -> (r: Committee)
        ensures
            r@ == self@,
    {
        let mut members: Vec<CommitteeMember> = Vec::new();
        let mut i: usize = 0;
        proof {
            assert(members@ =~= self.members@.take(0));
        }
        while i < self.members.len()
            invariant
                i <= self.members@.len(),
                members@ == self.members@.take(i as int),
            decreases self.members@.len() - i,
        {
            members.push(self.members[i]);
            proof {
                assert(members@ =~= self.members@.take(i as int + 1));
            }
            i = i + 1;
        }
        proof {
            assert(self.members@.take(self.members@.len() as int) =~= self.members@);
        }
        Committee { starting_round: self.starting_round, members }
    }
}

/// Whether a sequence of committees is sorted strictly by
/// `starting_round`: the storage order of the committee history.
pub open spec fn committees_sorted(cs: Seq<Committee>) -> bool {
    forall|i: int, j: int|
        0 <= i < j < cs.len() ==> #[trigger] cs[i].starting_round < #[trigger] cs[j].starting_round
}

/// The index of the stored committee with the greatest
/// `starting_round <= r`, or `-1` if every stored committee starts after
/// `r`.  Over a sorted history this is the applicable committee for `r`.
pub open spec fn applicable_index(cs: Seq<Committee>, r: u64) -> int
    decreases cs.len(),
{
    if cs.len() == 0 {
        -1
    } else if cs.last().starting_round <= r {
        cs.len() - 1
    } else {
        applicable_index(cs.drop_last(), r)
    }
}

/// The applicable index is in range and its committee starts at or
/// before `r`, while every later committee starts after `r`.
pub proof fn lemma_applicable_index_correct(cs: Seq<Committee>, r: u64)
    ensures
        -1 <= applicable_index(cs, r) < cs.len(),
        applicable_index(cs, r) >= 0 ==> cs[applicable_index(cs, r)].starting_round <= r,
        forall|j: int|
            applicable_index(cs, r) < j < cs.len() ==> #[trigger] cs[j].starting_round > r,
    decreases cs.len(),
{
    if cs.len() > 0 && cs.last().starting_round > r {
        lemma_applicable_index_correct(cs.drop_last(), r);
        assert forall|j: int| 0 <= j < cs.len() - 1 implies #[trigger] cs[j] == cs.drop_last()[j]
        by {
            assert(cs.drop_last()[j] == cs[j]);
        }
    }
}

/// Future-round fallback: for any round at or past the current (latest)
/// committee's starting round, the applicable committee is the current
/// committee itself.
pub proof fn lemma_future_round_uses_current(cs: Seq<Committee>, r: u64)
    requires
        cs.len() > 0,
        r >= cs.last().starting_round,
    ensures
        applicable_index(cs, r) == cs.len() - 1,
{
}

/// Stale-round failure: for any round strictly below the earliest stored
/// committee's starting round, no committee is applicable.
pub proof fn lemma_round_too_old(cs: Seq<Committee>, r: u64)
    requires
        committees_sorted(cs),
        cs.len() > 0,
        r < cs[0].starting_round,
    ensures
        applicable_index(cs, r) == -1,
    decreases cs.len(),
{
    if cs.len() > 1 {
        assert(cs[0].starting_round < cs[cs.len() - 1].starting_round);
        assert(cs.last() == cs[cs.len() - 1]);
        assert forall|i: int, j: int| 0 <= i < j < cs.len() - 1 implies #[trigger] cs.drop_last()[i].starting_round
            < #[trigger] cs.drop_last()[j].starting_round by {
            assert(cs.drop_last()[i] == cs[i]);
            assert(cs.drop_last()[j] == cs[j]);
        }
        assert(cs.drop_last()[0] == cs[0]);
        lemma_round_too_old(cs.drop_last(), r);
        assert(applicable_index(cs.drop_last(), r) == -1);
    } else {
        assert(cs.last() == cs[0]);
        assert(applicable_index(cs.drop_last(), r) == -1);
    }
}

/// The reference round whose committee certified round `r`: committees
/// change only on even rounds, so an even `r` looks one round back and an
/// odd `r` looks two rounds back, saturating at zero.
pub open spec fn previous_round(r: u64) -> u64 {
    if r % 2 == 0 {
        if r == 0 {
            0
        } else {
            (r - 1) as u64
        }
    } else {
        if r < 2 {
            0
        } else {
            (r - 2) as u64
        }
    }
}

} // verus!
