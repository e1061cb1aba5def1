use vstd::prelude::*;
use vstd::set_lib::{
    lemma_int_range, lemma_len_intersect, lemma_len_subset, lemma_set_intersect_union_lens,
    set_int_range,
};

verus! {

/// The fault assumption of a deployment: how many participants each
/// tolerated fault costs.
#[derive(Clone, Copy, Debug, PartialEq, Eq, Structural)]
pub enum FaultModel {
    /// `f` faults need `3f + 1` participants.
    OneInThree,
    /// `f` faults need `5f + 1` participants.
    OneInFive,
}

impl FaultModel {
    /// The participants that one fault costs, beyond the first participant.
    pub open spec fn spec_ratio(self) -> nat {
        match self {
            FaultModel::OneInThree => 3,
            FaultModel::OneInFive => 5,
        }
    }

    /// The largest number of faults that `participants` members tolerate.
    pub open spec fn spec_max_faults(self, participants: nat) -> nat {
        if participants == 0 {
            0
        } else {
            ((participants - 1) / (self.spec_ratio() as int)) as nat
        }
    }

    /// The number of distinct signers that makes a certificate: all
    /// participants but the tolerated faults. No set of signers is a quorum
    /// of an empty participant set.
    pub open spec fn spec_quorum_threshold(self, participants: nat) -> nat {
        if participants == 0 {
            1
        } else {
            (participants - self.spec_max_faults(participants)) as nat
        }
    }

    pub fn ratio(self) -> (ratio: u32)
        ensures
            ratio == self.spec_ratio(),
    {
        match self {
            FaultModel::OneInThree => 3,
            FaultModel::OneInFive => 5,
        }
    }

    pub fn max_faults(self, participants: u32) -> (faults: u32)
        ensures
            faults == self.spec_max_faults(participants as nat),
            participants > 0 ==> self.spec_ratio() * faults < participants,
    {
        if participants == 0 {
            0
        } else {
            let ratio: u32 = self.ratio();
            let faults: u32 = (participants - 1) / ratio;
            proof {
                lemma_faults_bound(self, participants as nat);
            }
            faults
        }
    }

    /// The quorum threshold for `participants` members. Any two quorums
    /// share a member.
    pub fn quorum_threshold(self, participants: u32) -> (quorum: u32)
        ensures
            quorum == self.spec_quorum_threshold(participants as nat),
            quorum + quorum > participants,
            1 <= quorum,
            participants > 0 ==> quorum <= participants,
    {
        proof {
            lemma_quorum_majority(self, participants as nat);
        }
        if participants == 0 {
            1
        } else {
            participants - self.max_faults(participants)
        }
    }
}

/// The tolerated faults, times what each costs, stay below the number of
/// participants.
pub proof fn lemma_faults_bound(model: FaultModel, participants: nat)
    requires
        participants > 0,
    ensures
        model.spec_ratio() * model.spec_max_faults(participants) < participants,
{
    let ratio = model.spec_ratio() as int;
    let top = participants - 1;
    assert(ratio * (top / ratio) <= top) by (nonlinear_arith)
        requires
            ratio > 0,
            top >= 0,
    ;
    assert(top / ratio >= 0) by (nonlinear_arith)
        requires
            ratio > 0,
            top >= 0,
    ;
}

/// Two quorums together outnumber the participants, whatever their number
/// and the fault model.
pub proof fn lemma_quorum_majority(model: FaultModel, participants: nat)
    ensures
        2 * model.spec_quorum_threshold(participants) > participants,
        1 <= model.spec_quorum_threshold(participants),
        participants > 0 ==> model.spec_quorum_threshold(participants) <= participants,
        participants > 0 ==> model.spec_quorum_threshold(participants) + model.spec_max_faults(
            participants,
        ) == participants,
        3 * model.spec_max_faults(participants) < participants || participants == 0,
{
    if participants > 0 {
        lemma_faults_bound(model, participants);
        let faults = model.spec_max_faults(participants);
        assert(3 * faults <= model.spec_ratio() * faults) by (nonlinear_arith)
            requires
                model.spec_ratio() >= 3,
                faults >= 0,
        ;
    }
}

/// Two sets of participant indices whose sizes together exceed the number
/// of participants share an index.
pub proof fn lemma_quorums_intersect(participants: nat, first: Set<int>, second: Set<int>)
    requires
        first.subset_of(set_int_range(0, participants as int)),
        second.subset_of(set_int_range(0, participants as int)),
        first.len() + second.len() > participants,
    ensures
        first.intersect(second).len() >= first.len() + second.len() - participants,
        exists|signer: int| first.contains(signer) && second.contains(signer),
{
    let all = set_int_range(0, participants as int);
    lemma_int_range(0, participants as int);
    lemma_len_subset(first, all);
    lemma_len_subset(second, all);
    lemma_len_subset(first.union(second), all);
    lemma_set_intersect_union_lens(first, second);
    lemma_len_intersect(first, second);
    let common = first.intersect(second);
    assert(common.len() > 0);
    vstd::set::axiom_set_intersect_finite(first, second);
    vstd::set::axiom_set_choose_len(common);
    let signer = common.choose();
    assert(first.contains(signer) && second.contains(signer));
}

/// Two quorums share a participant outside any set of faulty participants
/// that the fault model tolerates.
pub proof fn lemma_quorums_share_correct_signer(
    model: FaultModel,
    participants: nat,
    first: Set<int>,
    second: Set<int>,
    faulty: Set<int>,
)
    requires
        first.subset_of(set_int_range(0, participants as int)),
        second.subset_of(set_int_range(0, participants as int)),
        first.len() >= model.spec_quorum_threshold(participants),
        second.len() >= model.spec_quorum_threshold(participants),
        faulty.finite(),
        faulty.len() <= model.spec_max_faults(participants),
    ensures
        exists|signer: int|
            first.contains(signer) && second.contains(signer) && !faulty.contains(signer),
{
    lemma_quorum_majority(model, participants);
    lemma_quorums_intersect(participants, first, second);
    let all = set_int_range(0, participants as int);
    lemma_int_range(0, participants as int);
    lemma_len_subset(first, all);
    lemma_len_intersect(first, second);
    let common = first.intersect(second);
    // More participants are common to both quorums than may be faulty.
    assert(common.len() > faulty.len());
    lemma_len_intersect(common, faulty);
    vstd::set_lib::lemma_set_difference_len(common, faulty);
    let correct = common.difference(faulty);
    assert(common.intersect(faulty).len() <= faulty.len()) by {
        lemma_len_intersect(faulty, common);
        assert(faulty.intersect(common) == common.intersect(faulty));
    }
    assert(correct.len() > 0);
    vstd::set::axiom_set_intersect_finite(first, second);
    vstd::set::axiom_set_difference_finite(common, faulty);
    vstd::set::axiom_set_choose_len(correct);
    let signer = correct.choose();
    assert(first.contains(signer) && second.contains(signer) && !faulty.contains(signer));
}

} // verus!
