use crate::types::{
    Notarization, NotarizationView, Notarize, Nullification, NullificationView, Nullify, Proposal,
    Round,
};
use vstd::prelude::*;

verus! {

/// How a round ended: with a certificate for a proposal, or with a
/// certificate for skipping the round.
#[derive(Clone, Debug, PartialEq)]
pub enum Outcome {
    Notarized(Notarization),
    Nullified(Nullification),
}

pub enum OutcomeView {
    Notarized(NotarizationView),
    Nullified(NullificationView),
}

impl OutcomeView {
    /// The round that the outcome ends.
    pub open spec fn round(self) -> Round {
        match self {
            OutcomeView::Notarized(notarization) => notarization.proposal.round,
            OutcomeView::Nullified(nullification) => nullification.round,
        }
    }

    /// The proposal that the outcome accepts, if it accepts one.
    pub open spec fn proposal(self) -> Option<Proposal> {
        match self {
            OutcomeView::Notarized(notarization) => Some(notarization.proposal),
            OutcomeView::Nullified(_) => None,
        }
    }

    /// Whether two outcomes decide the same: both accept the same proposal,
    /// or both skip the same round. The certificates may differ.
    pub open spec fn agrees(self, other: OutcomeView) -> bool {
        self.round() == other.round() && self.proposal() == other.proposal()
    }
}

impl View for Outcome {
    type V = OutcomeView;

    open spec fn view(&self) -> OutcomeView {
        match *self {
            Outcome::Notarized(notarization) => OutcomeView::Notarized(notarization@),
            Outcome::Nullified(nullification) => OutcomeView::Nullified(nullification@),
        }
    }
}

impl Outcome {
    pub fn round(&self) -> (round: Round)
        ensures
            round == self@.round(),
    {
        match self {
            Outcome::Notarized(notarization) => notarization.proposal.round,
            Outcome::Nullified(nullification) => nullification.round,
        }
    }

    pub fn agrees(&self, other: &Outcome) -> (same: bool)
        ensures
            same == self@.agrees(other@),
    {
        match self {
            Outcome::Notarized(mine) => match other {
                Outcome::Notarized(theirs) => mine.proposal.same(&theirs.proposal),
                Outcome::Nullified(_) => false,
            },
            Outcome::Nullified(mine) => match other {
                Outcome::Notarized(_) => false,
                Outcome::Nullified(theirs) => mine.round == theirs.round,
            },
        }
    }

    pub fn duplicate(&self) -> (copy: Self)
        ensures
            copy@ == self@,
    {
        match self {
            Outcome::Notarized(notarization) => Outcome::Notarized(notarization.duplicate()),
            Outcome::Nullified(nullification) => Outcome::Nullified(nullification.duplicate()),
        }
    }
}

/// A provable record of misbehaviour in one round.
#[derive(Clone, Debug, PartialEq)]
pub enum Evidence {
    /// One signer notarized two proposals.
    ConflictingNotarize { first: Notarize, second: Notarize },
    /// One signer notarized a proposal and nullified its round.
    NotarizeAndNullify { notarize: Notarize, nullify: Nullify },
    /// Two certificates decide the round differently.
    ConflictingOutcome { recorded: Outcome, conflicting: Outcome },
}

pub enum EvidenceView {
    ConflictingNotarize { first: Notarize, second: Notarize },
    NotarizeAndNullify { notarize: Notarize, nullify: Nullify },
    ConflictingOutcome { recorded: OutcomeView, conflicting: OutcomeView },
}

impl EvidenceView {
    /// The signer whom the evidence convicts, where it convicts one.
    pub open spec fn signer(self) -> Option<u32> {
        match self {
            EvidenceView::ConflictingNotarize { second, .. } => Some(second.vote.signer),
            EvidenceView::NotarizeAndNullify { notarize, .. } => Some(notarize.vote.signer),
            EvidenceView::ConflictingOutcome { .. } => None,
        }
    }
}

impl View for Evidence {
    type V = EvidenceView;

    open spec fn view(&self) -> EvidenceView {
        match *self {
            Evidence::ConflictingNotarize { first, second } => EvidenceView::ConflictingNotarize {
                first,
                second,
            },
            Evidence::NotarizeAndNullify { notarize, nullify } => EvidenceView::NotarizeAndNullify {
                notarize,
                nullify,
            },
            Evidence::ConflictingOutcome {
                recorded,
                conflicting,
            } => EvidenceView::ConflictingOutcome {
                recorded: recorded@,
                conflicting: conflicting@,
            },
        }
    }
}

impl Evidence {
    pub fn signer(&self) -> (signer: Option<u32>)
        ensures
            signer == self@.signer(),
    {
        match self {
            Evidence::ConflictingNotarize { second, .. } => Some(second.vote.signer),
            Evidence::NotarizeAndNullify { notarize, .. } => Some(notarize.vote.signer),
            Evidence::ConflictingOutcome { .. } => None,
        }
    }
}

/// The view of an optional value that has a view.
pub open spec fn option_view<T: View>(value: Option<T>) -> Option<T::V> {
    match value {
        Some(inner) => Some(inner@),
        None => None,
    }
}

} // verus!
