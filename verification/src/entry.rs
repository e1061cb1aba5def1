use crate::evidence::{option_view, Evidence, EvidenceView, Outcome, OutcomeView};
use crate::signers::{lemma_set_indices, lemma_set_indices_step, lemma_set_one_more, set_indices};
use crate::types::{Notarize, Nullify, Proposal, Round, Vote};
use vstd::prelude::*;

verus! {

/// What recording a vote did.
#[derive(Clone, Debug, PartialEq)]
pub struct Receipt {
    /// Whether the vote joined the recorded votes.
    pub inserted: bool,
    /// The misbehaviour of the signer that the vote brought to light.
    pub evidence: Option<Evidence>,
    /// Whether the vote was the one with which an open round reached the
    /// quorum threshold.
    pub quorum: bool,
}

pub struct ReceiptView {
    pub inserted: bool,
    pub evidence: Option<EvidenceView>,
    pub quorum: bool,
}

impl View for Receipt {
    type V = ReceiptView;

    open spec fn view(&self) -> ReceiptView {
        ReceiptView {
            inserted: self.inserted,
            evidence: option_view(self.evidence),
            quorum: self.quorum,
        }
    }
}

impl ReceiptView {
    /// The receipt for a vote that changed nothing and showed nothing.
    pub open spec fn ignored() -> ReceiptView {
        ReceiptView { inserted: false, evidence: None, quorum: false }
    }
}

/// What closing a round did.
#[derive(Clone, Debug, PartialEq)]
pub enum Closure {
    /// The outcome is now the round's outcome.
    Closed,
    /// The round already had an outcome that decides the same.
    Unchanged,
    /// The round already had an outcome that decides otherwise; it stands.
    Conflict(Evidence),
    /// The outcome is for a round that the ledger does not keep.
    Foreign,
}

pub enum ClosureView {
    Closed,
    Unchanged,
    Conflict(EvidenceView),
    Foreign,
}

impl View for Closure {
    type V = ClosureView;

    open spec fn view(&self) -> ClosureView {
        match *self {
            Closure::Closed => ClosureView::Closed,
            Closure::Unchanged => ClosureView::Unchanged,
            Closure::Conflict(evidence) => ClosureView::Conflict(evidence@),
            Closure::Foreign => ClosureView::Foreign,
        }
    }
}

/// The bookkeeping of one round: the notarize and nullify votes recorded
/// for each participant index, and the round's outcome once it has one.
pub struct RoundEntry {
    round: Round,
    notarizes: Vec<Option<Notarize>>,
    nullifies: Vec<Option<Nullify>>,
    outcome: Option<Outcome>,
}

pub struct EntryView {
    pub round: Round,
    pub notarizes: Seq<Option<Notarize>>,
    pub nullifies: Seq<Option<Nullify>>,
    pub outcome: Option<OutcomeView>,
}

impl EntryView {
    /// The entry of a round of which nothing was observed.
    pub open spec fn empty(round: Round, participants: nat) -> EntryView {
        EntryView {
            round,
            notarizes: Seq::new(participants, |i: int| None),
            nullifies: Seq::new(participants, |i: int| None),
            outcome: None,
        }
    }

    /// Each vote stands at its signer's index and is for the entry's round,
    /// and so is the outcome.
    pub open spec fn wf(self, participants: nat) -> bool {
        &&& self.notarizes.len() == participants
        &&& self.nullifies.len() == participants
        &&& forall|i: int|
            0 <= i < participants ==> (#[trigger] self.notarizes[i] matches Some(notarize)
                ==> notarize.vote.signer == i && notarize.proposal.round == self.round)
        &&& forall|i: int|
            0 <= i < participants ==> (#[trigger] self.nullifies[i] matches Some(nullify)
                ==> nullify.vote.signer == i && nullify.round == self.round)
        &&& self.outcome matches Some(outcome) ==> outcome.round() == self.round
    }

    /// For each participant index, whether it notarized `proposal`.
    pub open spec fn notarize_flags(self, proposal: Proposal) -> Seq<bool> {
        Seq::new(
            self.notarizes.len(),
            |i: int| self.notarizes[i] is Some && self.notarizes[i].unwrap().proposal == proposal,
        )
    }

    /// The number of participants that notarized `proposal`.
    pub open spec fn notarize_count(self, proposal: Proposal) -> nat {
        set_indices(self.notarize_flags(proposal)).len()
    }

    /// The votes of the participants that notarized `proposal`, in index
    /// order.
    pub open spec fn notarize_votes(self, proposal: Proposal) -> Seq<Vote> {
        set_indices(self.notarize_flags(proposal)).map_values(
            |i: int| self.notarizes[i].unwrap().vote,
        )
    }

    /// For each participant index, whether it nullified the round.
    pub open spec fn nullify_flags(self) -> Seq<bool> {
        Seq::new(self.nullifies.len(), |i: int| self.nullifies[i] is Some)
    }

    /// The number of participants that nullified the round.
    pub open spec fn nullify_count(self) -> nat {
        set_indices(self.nullify_flags()).len()
    }

    /// The votes of the participants that nullified the round, in index
    /// order.
    pub open spec fn nullify_votes(self) -> Seq<Vote> {
        set_indices(self.nullify_flags()).map_values(|i: int| self.nullifies[i].unwrap().vote)
    }

    /// Recording a notarize vote. A vote of an unknown signer, or one that
    /// repeats the signer's recorded vote, changes nothing. A vote for
    /// another proposal than the signer's recorded one is not inserted and
    /// is evidence together with the recorded one. Any other vote is
    /// inserted; it is evidence if the signer also nullified the round; and
    /// it reaches quorum if the round is open and the votes for its proposal
    /// now number exactly `quorum`.
    pub open spec fn record_notarize(self, notarize: Notarize, closed: bool, quorum: nat) -> (
        EntryView,
        ReceiptView,
    ) {
        let signer = notarize.vote.signer as int;
        if signer >= self.notarizes.len() || notarize.proposal.round != self.round {
            (self, ReceiptView::ignored())
        } else if self.notarizes[signer] is Some {
            let recorded = self.notarizes[signer].unwrap();
            if recorded.proposal == notarize.proposal {
                (self, ReceiptView::ignored())
            } else {
                (
                    self,
                    ReceiptView {
                        inserted: false,
                        evidence: Some(
                            EvidenceView::ConflictingNotarize { first: recorded, second: notarize },
                        ),
                        quorum: false,
                    },
                )
            }
        } else {
            let after = EntryView {
                notarizes: self.notarizes.update(signer, Some(notarize)),
                ..self
            };
            (
                after,
                ReceiptView {
                    inserted: true,
                    evidence: match self.nullifies[signer] {
                        Some(nullify) => Some(
                            EvidenceView::NotarizeAndNullify { notarize, nullify },
                        ),
                        None => None,
                    },
                    quorum: !closed && after.notarize_count(notarize.proposal) == quorum,
                },
            )
        }
    }

    /// Recording a nullify vote. A vote of an unknown signer, or of a
    /// signer whose nullify vote is recorded, changes nothing. Any other
    /// vote is inserted; it is evidence if the signer also notarized a
    /// proposal of the round; and it reaches quorum if the round is open
    /// and the nullify votes now number exactly `quorum`.
    pub open spec fn record_nullify(self, nullify: Nullify, closed: bool, quorum: nat) -> (
        EntryView,
        ReceiptView,
    ) {
        let signer = nullify.vote.signer as int;
        if signer >= self.nullifies.len() || nullify.round != self.round {
            (self, ReceiptView::ignored())
        } else if self.nullifies[signer] is Some {
            (self, ReceiptView::ignored())
        } else {
            let after = EntryView {
                nullifies: self.nullifies.update(signer, Some(nullify)),
                ..self
            };
            (
                after,
                ReceiptView {
                    inserted: true,
                    evidence: match self.notarizes[signer] {
                        Some(notarize) => Some(
                            EvidenceView::NotarizeAndNullify { notarize, nullify },
                        ),
                        None => None,
                    },
                    quorum: !closed && after.nullify_count() == quorum,
                },
            )
        }
    }

    /// Closing the round with an outcome. The first outcome stays: one
    /// that decides the same changes nothing, and one that decides
    /// otherwise changes nothing and is evidence together with the first.
    pub open spec fn close(self, outcome: OutcomeView) -> (EntryView, ClosureView) {
        if outcome.round() != self.round {
            (self, ClosureView::Foreign)
        } else {
            match self.outcome {
                None => (EntryView { outcome: Some(outcome), ..self }, ClosureView::Closed),
                Some(recorded) => if recorded.agrees(outcome) {
                    (self, ClosureView::Unchanged)
                } else {
                    (
                        self,
                        ClosureView::Conflict(
                            EvidenceView::ConflictingOutcome { recorded, conflicting: outcome },
                        ),
                    )
                },
            }
        }
    }
}

impl View for RoundEntry {
    type V = EntryView;

    closed spec fn view(&self) -> EntryView {
        EntryView {
            round: self.round,
            notarizes: self.notarizes@,
            nullifies: self.nullifies@,
            outcome: option_view(self.outcome),
        }
    }
}

impl RoundEntry {
    /// The entry of `round` among `participants` members, with nothing
    /// recorded.
    pub fn new(round: Round, participants: u32) -> (entry: Self)
        ensures
            entry@ == EntryView::empty(round, participants as nat),
            entry@.wf(participants as nat),
    {
        let mut notarizes: Vec<Option<Notarize>> = Vec::new();
        let mut nullifies: Vec<Option<Nullify>> = Vec::new();
        let mut i: u32 = 0;
        while i < participants
            invariant
                i <= participants,
                notarizes@ == Seq::new(i as nat, |j: int| None::<Notarize>),
                nullifies@ == Seq::new(i as nat, |j: int| None::<Nullify>),
            decreases participants - i,
        {
            notarizes.push(None);
            nullifies.push(None);
            i += 1;
        }
        RoundEntry { round, notarizes, nullifies, outcome: None }
    }

    pub fn round(&self) -> (round: Round)
        ensures
            round == self@.round,
    {
        self.round
    }

    /// Whether the round has an outcome.
    pub fn decided(&self) -> (decided: bool)
        ensures
            decided == self@.outcome is Some,
    {
        self.outcome.is_some()
    }

    /// The round's outcome, if it has one.
    pub fn outcome(&self) -> (outcome: Option<Outcome>)
        ensures
            option_view(outcome) == self@.outcome,
    {
        match &self.outcome {
            Some(outcome) => Some(outcome.duplicate()),
            None => None,
        }
    }

    /// The notarize vote recorded for `signer`, if there is one.
    pub fn notarize_of(&self, signer: u32) -> (vote: Option<Notarize>)
        ensures
            vote == if signer < self@.notarizes.len() {
                self@.notarizes[signer as int]
            } else {
                None
            },
    {
        if (signer as usize) < self.notarizes.len() {
            match &self.notarizes[signer as usize] {
                Some(notarize) => Some(notarize.duplicate()),
                None => None,
            }
        } else {
            None
        }
    }

    /// The nullify vote recorded for `signer`, if there is one.
    pub fn nullify_of(&self, signer: u32) -> (vote: Option<Nullify>)
        ensures
            vote == if signer < self@.nullifies.len() {
                self@.nullifies[signer as int]
            } else {
                None
            },
    {
        if (signer as usize) < self.nullifies.len() {
            match &self.nullifies[signer as usize] {
                Some(nullify) => Some(nullify.duplicate()),
                None => None,
            }
        } else {
            None
        }
    }

    /// The number of participants that notarized `proposal`.
    pub fn notarize_count(&self, proposal: &Proposal) -> (count: usize)
        ensures
            count == self@.notarize_count(*proposal),
    {
        let ghost flags = self@.notarize_flags(*proposal);
        let mut count: usize = 0;
        let mut i: usize = 0;
        while i < self.notarizes.len()
            invariant
                i <= self.notarizes.len(),
                flags == self@.notarize_flags(*proposal),
                count == set_indices(flags.take(i as int)).len(),
                count <= i,
            decreases self.notarizes.len() - i,
        {
            proof {
                lemma_set_indices_step(flags, i as int);
            }
            let voted: bool = match &self.notarizes[i] {
                Some(notarize) => notarize.proposal.same(proposal),
                None => false,
            };
            if voted {
                count += 1;
            }
            i += 1;
        }
        assert(flags.take(i as int) == flags);
        count
    }

    /// The votes of the participants that notarized `proposal`, in index
    /// order.
    pub fn notarize_votes(&self, proposal: &Proposal) -> (votes: Vec<Vote>)
        ensures
            votes@ == self@.notarize_votes(*proposal),
    {
        let ghost flags = self@.notarize_flags(*proposal);
        let mut votes: Vec<Vote> = Vec::new();
        let mut i: usize = 0;
        while i < self.notarizes.len()
            invariant
                i <= self.notarizes.len(),
                flags == self@.notarize_flags(*proposal),
                votes@ == set_indices(flags.take(i as int)).map_values(
                    |j: int| self@.notarizes[j].unwrap().vote,
                ),
            decreases self.notarizes.len() - i,
        {
            proof {
                lemma_set_indices_step(flags, i as int);
            }
            match &self.notarizes[i] {
                Some(notarize) => {
                    if notarize.proposal.same(proposal) {
                        votes.push(notarize.vote.duplicate());
                    }
                },
                None => {},
            }
            i += 1;
        }
        assert(flags.take(i as int) == flags);
        votes
    }

    /// The number of participants that nullified the round.
    pub fn nullify_count(&self) -> (count: usize)
        ensures
            count == self@.nullify_count(),
    {
        let ghost flags = self@.nullify_flags();
        let mut count: usize = 0;
        let mut i: usize = 0;
        while i < self.nullifies.len()
            invariant
                i <= self.nullifies.len(),
                flags == self@.nullify_flags(),
                count == set_indices(flags.take(i as int)).len(),
                count <= i,
            decreases self.nullifies.len() - i,
        {
            proof {
                lemma_set_indices_step(flags, i as int);
            }
            if self.nullifies[i].is_some() {
                count += 1;
            }
            i += 1;
        }
        assert(flags.take(i as int) == flags);
        count
    }

    /// The votes of the participants that nullified the round, in index
    /// order.
    pub fn nullify_votes(&self) -> (votes: Vec<Vote>)
        ensures
            votes@ == self@.nullify_votes(),
    {
        let ghost flags = self@.nullify_flags();
        let mut votes: Vec<Vote> = Vec::new();
        let mut i: usize = 0;
        while i < self.nullifies.len()
            invariant
                i <= self.nullifies.len(),
                flags == self@.nullify_flags(),
                votes@ == set_indices(flags.take(i as int)).map_values(
                    |j: int| self@.nullifies[j].unwrap().vote,
                ),
            decreases self.nullifies.len() - i,
        {
            proof {
                lemma_set_indices_step(flags, i as int);
            }
            match &self.nullifies[i] {
                Some(nullify) => {
                    votes.push(nullify.vote.duplicate());
                },
                None => {},
            }
            i += 1;
        }
        assert(flags.take(i as int) == flags);
        votes
    }

    /// Records a notarize vote; `closed` says whether the round is closed.
    pub fn record_notarize(&mut self, notarize: Notarize, closed: bool, quorum: u32) -> (receipt:
        Receipt)
        requires
            old(self)@.wf(old(self)@.notarizes.len()),
        ensures
            (final(self)@, receipt@) == old(self)@.record_notarize(notarize, closed, quorum as nat),
            final(self)@.wf(old(self)@.notarizes.len()),
    {
        let signer: usize = notarize.vote.signer as usize;
        if signer >= self.notarizes.len() || notarize.proposal.round != self.round {
            return Receipt { inserted: false, evidence: None, quorum: false };
        }
        match &self.notarizes[signer] {
            Some(recorded) => {
                if recorded.proposal.same(&notarize.proposal) {
                    return Receipt { inserted: false, evidence: None, quorum: false };
                }
                let first: Notarize = recorded.duplicate();
                return Receipt {
                    inserted: false,
                    evidence: Some(Evidence::ConflictingNotarize { first, second: notarize }),
                    quorum: false,
                };
            },
            None => {},
        }
        let evidence: Option<Evidence> = match &self.nullifies[signer] {
            Some(nullify) => Some(
                Evidence::NotarizeAndNullify {
                    notarize: notarize.duplicate(),
                    nullify: nullify.duplicate(),
                },
            ),
            None => None,
        };
        let proposal: Proposal = notarize.proposal;
        self.notarizes.set(signer, Some(notarize));
        let count: usize = self.notarize_count(&proposal);
        Receipt { inserted: true, evidence, quorum: !closed && count == quorum as usize }
    }

    /// Records a nullify vote; `closed` says whether the round is closed.
    pub fn record_nullify(&mut self, nullify: Nullify, closed: bool, quorum: u32) -> (receipt:
        Receipt)
        requires
            old(self)@.wf(old(self)@.notarizes.len()),
        ensures
            (final(self)@, receipt@) == old(self)@.record_nullify(nullify, closed, quorum as nat),
            final(self)@.wf(old(self)@.notarizes.len()),
    {
        let signer: usize = nullify.vote.signer as usize;
        if signer >= self.nullifies.len() || nullify.round != self.round {
            return Receipt { inserted: false, evidence: None, quorum: false };
        }
        if self.nullifies[signer].is_some() {
            return Receipt { inserted: false, evidence: None, quorum: false };
        }
        let evidence: Option<Evidence> = match &self.notarizes[signer] {
            Some(notarize) => Some(
                Evidence::NotarizeAndNullify {
                    notarize: notarize.duplicate(),
                    nullify: nullify.duplicate(),
                },
            ),
            None => None,
        };
        self.nullifies.set(signer, Some(nullify));
        let count: usize = self.nullify_count();
        Receipt { inserted: true, evidence, quorum: !closed && count == quorum as usize }
    }

    /// Closes the round with `outcome`, unless it has an outcome already.
    pub fn close(&mut self, outcome: Outcome) -> (closure: Closure)
        requires
            old(self)@.wf(old(self)@.notarizes.len()),
        ensures
            (final(self)@, closure@) == old(self)@.close(outcome@),
            final(self)@.wf(old(self)@.notarizes.len()),
    {
        if outcome.round() != self.round {
            return Closure::Foreign;
        }
        match &self.outcome {
            Some(recorded) => {
                if recorded.agrees(&outcome) {
                    Closure::Unchanged
                } else {
                    Closure::Conflict(
                        Evidence::ConflictingOutcome {
                            recorded: recorded.duplicate(),
                            conflicting: outcome,
                        },
                    )
                }
            },
            None => {
                self.outcome = Some(outcome);
                Closure::Closed
            },
        }
    }
}

/// The recorded votes for a proposal are as many as were counted, and each
/// is that of the signer at whose index it stands.
pub proof fn lemma_notarize_votes(entry: EntryView, proposal: Proposal, participants: nat)
    requires
        entry.wf(participants),
    ensures
        entry.notarize_votes(proposal).len() == entry.notarize_count(proposal),
        forall|k: int|
            0 <= k < entry.notarize_votes(proposal).len() ==> {
                let signer = set_indices(entry.notarize_flags(proposal))[k];
                &&& 0 <= signer < participants
                &&& entry.notarizes[signer] == Some(
                    Notarize { proposal, vote: #[trigger] entry.notarize_votes(proposal)[k] },
                )
                &&& entry.notarize_votes(proposal)[k].signer == signer
            },
        forall|j: int, k: int|
            0 <= j < k < entry.notarize_votes(proposal).len() ==> entry.notarize_votes(proposal)[j].signer
                < entry.notarize_votes(proposal)[k].signer,
{
    let flags = entry.notarize_flags(proposal);
    lemma_set_indices(flags);
    let votes = entry.notarize_votes(proposal);
    assert forall|k: int| 0 <= k < votes.len() implies {
        let signer = set_indices(flags)[k];
        &&& 0 <= signer < participants
        &&& entry.notarizes[signer] == Some(Notarize { proposal, vote: #[trigger] votes[k] })
        &&& votes[k].signer == signer
    } by {
        let signer = set_indices(flags)[k];
        assert(flags[signer]);
    }
}

/// The recorded nullify votes are as many as were counted, and each is that
/// of the signer at whose index it stands.
pub proof fn lemma_nullify_votes(entry: EntryView, participants: nat)
    requires
        entry.wf(participants),
    ensures
        entry.nullify_votes().len() == entry.nullify_count(),
        forall|k: int|
            0 <= k < entry.nullify_votes().len() ==> {
                let signer = set_indices(entry.nullify_flags())[k];
                &&& 0 <= signer < participants
                &&& entry.nullifies[signer] == Some(
                    Nullify { round: entry.round, vote: #[trigger] entry.nullify_votes()[k] },
                )
                &&& entry.nullify_votes()[k].signer == signer
            },
        forall|j: int, k: int|
            0 <= j < k < entry.nullify_votes().len() ==> entry.nullify_votes()[j].signer
                < entry.nullify_votes()[k].signer,
{
    let flags = entry.nullify_flags();
    lemma_set_indices(flags);
    let votes = entry.nullify_votes();
    assert forall|k: int| 0 <= k < votes.len() implies {
        let signer = set_indices(flags)[k];
        &&& 0 <= signer < participants
        &&& entry.nullifies[signer] == Some(Nullify { round: entry.round, vote: #[trigger] votes[k] })
        &&& votes[k].signer == signer
    } by {
        let signer = set_indices(flags)[k];
        assert(flags[signer]);
    }
}

/// A notarize vote that is inserted adds one to the votes for its
/// proposal.
pub proof fn lemma_inserted_vote_counts(entry: EntryView, notarize: Notarize, closed: bool, quorum: nat)
    requires
        entry.record_notarize(notarize, closed, quorum).1.inserted,
    ensures
        entry.record_notarize(notarize, closed, quorum).0.notarize_count(notarize.proposal)
            == entry.notarize_count(notarize.proposal) + 1,
{
    let after = entry.record_notarize(notarize, closed, quorum).0;
    let signer = notarize.vote.signer as int;
    let flags = entry.notarize_flags(notarize.proposal);
    assert(after.notarize_flags(notarize.proposal) =~= flags.update(signer, true));
    lemma_set_one_more(flags, signer);
}

} // verus!
