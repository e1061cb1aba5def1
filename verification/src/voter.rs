use crate::ed25519::signature_of;
use crate::evidence::{Evidence, EvidenceView, Outcome, OutcomeView};
use crate::entry::{lemma_notarize_votes, lemma_nullify_votes, Closure, ClosureView, Receipt};
use crate::ledger::{Ledger, LedgerView};
use crate::scheme::{has_duplicate_signer, has_unknown_signer, spec_assemble, Scheme};
use crate::statement::{
    notarize_statement, nullify_statement, spec_notarize_statement, spec_nullify_statement,
};
use crate::types::{
    Digest, Epoch, Notarization, NotarizationView, Notarize, Nullification, NullificationView,
    Nullify, Proposal, Round, ViewNumber, Vote, Voter, VoterView,
};
use vstd::prelude::*;

verus! {

/// What the reporter is told.
#[derive(Clone, Debug, PartialEq)]
pub enum Activity {
    Notarization(Notarization),
    Nullification(Nullification),
    ConflictingVoteEvidence(Evidence),
}

pub enum ActivityView {
    Notarization(NotarizationView),
    Nullification(NullificationView),
    ConflictingVoteEvidence(EvidenceView),
}

impl View for Activity {
    type V = ActivityView;

    open spec fn view(&self) -> ActivityView {
        match *self {
            Activity::Notarization(notarization) => ActivityView::Notarization(notarization@),
            Activity::Nullification(nullification) => ActivityView::Nullification(nullification@),
            Activity::ConflictingVoteEvidence(evidence) => ActivityView::ConflictingVoteEvidence(
                evidence@,
            ),
        }
    }
}

/// What the voter asks of its surroundings.
#[derive(Clone, Debug, PartialEq)]
pub enum Action {
    /// Send the message to every participant.
    Broadcast(Voter),
    /// Hand the notarized payload to the relay.
    Relay(Digest),
    /// Hand the activity to the reporter.
    Report(Activity),
    /// Have the blocker sanction the participant with this index.
    Block(u32),
    /// The round was entered: start both timers anew.
    Enter(Round),
    /// Ask the automaton for a payload to propose in the round, on top of
    /// the proposal of the parent view.
    Propose { round: Round, parent: ViewNumber },
    /// Ask the automaton whether the designated proposer's proposal is
    /// valid.
    Verify(Proposal),
}

pub enum ActionView {
    Broadcast(VoterView),
    Relay(Digest),
    Report(ActivityView),
    Block(u32),
    Enter(Round),
    Propose { round: Round, parent: ViewNumber },
    Verify(Proposal),
}

impl View for Action {
    type V = ActionView;

    open spec fn view(&self) -> ActionView {
        match *self {
            Action::Broadcast(message) => ActionView::Broadcast(message@),
            Action::Relay(payload) => ActionView::Relay(payload),
            Action::Report(activity) => ActionView::Report(activity@),
            Action::Block(signer) => ActionView::Block(signer),
            Action::Enter(round) => ActionView::Enter(round),
            Action::Propose { round, parent } => ActionView::Propose { round, parent },
            Action::Verify(proposal) => ActionView::Verify(proposal),
        }
    }
}

/// The actions, each by its view.
pub open spec fn actions_view(actions: Seq<Action>) -> Seq<ActionView> {
    actions.map_values(|action: Action| action@)
}

/// What happens to the voter.
#[derive(Clone, Debug, PartialEq)]
pub enum Event {
    /// The automaton produced this proposal for the voter to make as the
    /// designated proposer, or found valid this proposal of the designated
    /// proposer.
    Proposal(Proposal),
    /// The participant with the index `sender` sent a message.
    Message { sender: u32, message: Voter },
    /// The participant with the index `sender` sent what is no message.
    Malformed { sender: u32 },
    /// The leader timeout of the round ran out.
    LeaderTimeout(Round),
    /// The notarization timeout of the round ran out.
    NotarizationTimeout(Round),
}

pub enum EventView {
    Proposal(Proposal),
    Message { sender: u32, message: VoterView },
    Malformed { sender: u32 },
    LeaderTimeout(Round),
    NotarizationTimeout(Round),
}

impl View for Event {
    type V = EventView;

    open spec fn view(&self) -> EventView {
        match *self {
            Event::Proposal(proposal) => EventView::Proposal(proposal),
            Event::Message { sender, message } => EventView::Message { sender, message: message@ },
            Event::Malformed { sender } => EventView::Malformed { sender },
            Event::LeaderTimeout(round) => EventView::LeaderTimeout(round),
            Event::NotarizationTimeout(round) => EventView::NotarizationTimeout(round),
        }
    }
}

/// A failure after which the voter cannot go on.
#[derive(Clone, Copy, Debug, PartialEq, Eq, Structural)]
pub enum Fault {
    /// The voter has to vote and holds no signing key.
    KeyUnavailable,
}

/// Where the voter stands in the current round.
#[derive(Clone, Copy, Debug, PartialEq, Eq, Structural)]
pub enum Phase {
    /// It has cast no vote.
    AwaitingProposal,
    /// It has notarized a proposal, and has not nullified the round.
    VotedNotarize,
    /// It has nullified the round.
    VotedNullify,
}

/// One participant's part in the protocol: its signing scheme, its ledger,
/// how many rounds behind the current one it still attends to, and the
/// latest view that it knows to be notarized.
pub struct Machine {
    scheme: Scheme,
    ledger: Ledger,
    retention: u64,
    parent: ViewNumber,
}

pub struct MachineView {
    pub scheme: Scheme,
    pub ledger: LedgerView,
    pub retention: u64,
    pub parent: ViewNumber,
}

/// What a step gives: the next state and the actions, in order.
pub type Step = (MachineView, Seq<ActionView>);

impl MachineView {
    pub open spec fn wf(self) -> bool {
        &&& self.scheme.wf()
        &&& self.ledger.wf()
        &&& self.ledger.participants == self.scheme.spec_participants().len()
        &&& self.ledger.quorum == self.scheme.spec_quorum()
        &&& self.parent.0 < self.ledger.current
    }

    /// The current round.
    pub open spec fn current(self) -> Round {
        self.ledger.round(self.ledger.current)
    }

    /// The voter's own index, if it can sign.
    pub open spec fn me(self) -> Option<u32> {
        match self.scheme.spec_signer() {
            Some(own) => Some(own.0),
            None => None,
        }
    }

    /// The designated proposer of a round: the participants take turns.
    pub open spec fn leader(self, round: Round) -> Option<u32> {
        let count = self.ledger.participants as int;
        if count == 0 {
            None
        } else {
            Some((((round.epoch.0 as int % count) + (round.view.0 as int % count)) % count) as u32)
        }
    }

    /// The voter's own notarize vote in the current round.
    pub open spec fn own_notarize(self) -> Option<Notarize> {
        match self.me() {
            Some(me) => self.ledger.entry(self.ledger.current).notarizes[me as int],
            None => None,
        }
    }

    /// The voter's own nullify vote in the current round.
    pub open spec fn own_nullify(self) -> Option<Nullify> {
        match self.me() {
            Some(me) => self.ledger.entry(self.ledger.current).nullifies[me as int],
            None => None,
        }
    }

    pub open spec fn phase(self) -> Phase {
        if self.own_nullify() is Some {
            Phase::VotedNullify
        } else if self.own_notarize() is Some {
            Phase::VotedNotarize
        } else {
            Phase::AwaitingProposal
        }
    }

    /// Whether the voter attends to a round: the ledger keeps it, and it
    /// lies no more than `retention` rounds before the current one or the
    /// ledger still holds an entry for it. The retention decides what may
    /// be forgotten, not what is looked at.
    pub open spec fn attends(self, round: Round) -> bool {
        self.ledger.accepts(round) && (round.view.0 + self.retention >= self.ledger.current
            || self.ledger.rounds.dom().contains(round.view.0))
    }

    /// Whether a message is well formed and bears out what it says: a vote
    /// its signer's signature, a certificate the signatures of a quorum,
    /// under the scheme's namespace.
    pub open spec fn verifies(self, message: VoterView) -> bool {
        match message {
            VoterView::Notarize(notarize) => Self::well_formed(notarize.proposal)
                && self.scheme.spec_verify(
                notarize.vote.signer as int,
                spec_notarize_statement(notarize.proposal),
                notarize.vote.signature,
            ),
            VoterView::Notarization(notarization) => Self::well_formed(notarization.proposal)
                && self.scheme.spec_verify_certificate(
                notarization.certificate,
                spec_notarize_statement(notarization.proposal),
            ),
            VoterView::Nullify(nullify) => self.scheme.spec_verify(
                nullify.vote.signer as int,
                spec_nullify_statement(nullify.round),
                nullify.vote.signature,
            ),
            VoterView::Nullification(nullification) => self.scheme.spec_verify_certificate(
                nullification.certificate,
                spec_nullify_statement(nullification.round),
            ),
        }
    }

    /// Evidence goes to the reporter, and the signer whom it convicts to
    /// the blocker.
    pub open spec fn evidence_actions(evidence: Option<EvidenceView>) -> Seq<ActionView> {
        match evidence {
            Some(found) => match found.signer() {
                Some(signer) => seq![
                    ActionView::Report(ActivityView::ConflictingVoteEvidence(found)),
                    ActionView::Block(signer),
                ],
                None => seq![ActionView::Report(ActivityView::ConflictingVoteEvidence(found))],
            },
            None => Seq::empty(),
        }
    }

    /// What entering the current round asks for: new timers; a payload, if
    /// the voter is the designated proposer; else a check of the designated
    /// proposer's proposal, if its vote is already recorded.
    pub open spec fn enter_actions(self) -> Seq<ActionView> {
        let round = self.current();
        let entered = seq![ActionView::Enter(round)];
        if !self.ledger.accepts(round) {
            entered
        } else if self.me() is Some && self.leader(round) == self.me() {
            entered.push(ActionView::Propose { round, parent: self.parent })
        } else if self.leader(round) is Some && self.phase() is AwaitingProposal
            && self.ledger.entry(round.view.0).notarizes[self.leader(round).unwrap() as int] is Some {
            entered.push(
                ActionView::Verify(
                    self.ledger.entry(round.view.0).notarizes[self.leader(
                        round,
                    ).unwrap() as int].unwrap().proposal,
                ),
            )
        } else {
            entered
        }
    }

    /// What a new outcome asks for: a notarized payload goes to the relay,
    /// and the certificate to the reporter.
    pub open spec fn outcome_actions(outcome: OutcomeView) -> Seq<ActionView> {
        match outcome {
            OutcomeView::Notarized(notarization) => seq![
                ActionView::Relay(notarization.proposal.payload),
                ActionView::Report(ActivityView::Notarization(notarization)),
            ],
            OutcomeView::Nullified(nullification) => seq![
                ActionView::Report(ActivityView::Nullification(nullification)),
            ],
        }
    }

    /// Closing a round with a verified outcome. The first outcome of a
    /// round is relayed and reported; where it closes the current round or
    /// a later one, the voter enters the successor and prunes the ledger.
    /// An outcome that decides as the recorded one changes nothing; one
    /// that decides otherwise is reported as evidence and changes nothing.
    pub open spec fn conclude(self, outcome: OutcomeView) -> Step {
        let (ledger, closure) = self.ledger.close(outcome);
        match closure {
            ClosureView::Closed => {
                let view = outcome.round().view;
                let parent = if outcome is Notarized && view.0 > self.parent.0 {
                    view
                } else {
                    self.parent
                };
                if ledger.current != self.ledger.current {
                    let next = MachineView {
                        ledger: ledger.prune(self.retention),
                        parent,
                        ..self
                    };
                    (next, Self::outcome_actions(outcome) + next.enter_actions())
                } else {
                    (MachineView { ledger, parent, ..self }, Self::outcome_actions(outcome))
                }
            },
            ClosureView::Conflict(evidence) => (self, Self::evidence_actions(Some(evidence))),
            ClosureView::Unchanged => (self, Seq::empty()),
            ClosureView::Foreign => (self, Seq::empty()),
        }
    }

    /// The certificate that the recorded votes for a proposal make.
    pub open spec fn notarization(self, proposal: Proposal) -> NotarizationView {
        NotarizationView {
            proposal,
            certificate: spec_assemble(
                self.ledger.notarize_votes(proposal),
                self.ledger.participants,
            ),
        }
    }

    /// The certificate that the recorded nullify votes of a round make.
    pub open spec fn nullification(self, round: Round) -> NullificationView {
        NullificationView {
            round,
            certificate: spec_assemble(self.ledger.nullify_votes(round), self.ledger.participants),
        }
    }

    /// What follows a recorded notarize vote: with the quorum reached, the
    /// certificate is formed and broadcast, and the round is closed with it.
    pub open spec fn after_notarize(self, proposal: Proposal, quorum: bool) -> Step {
        if quorum {
            let notarization = self.notarization(proposal);
            let (next, actions) = self.conclude(OutcomeView::Notarized(notarization));
            (next, seq![ActionView::Broadcast(VoterView::Notarization(notarization))] + actions)
        } else {
            (self, Seq::empty())
        }
    }

    /// What follows a recorded nullify vote: with the quorum reached, the
    /// certificate is formed and broadcast, and the round is closed with it.
    pub open spec fn after_nullify(self, round: Round, quorum: bool) -> Step {
        if quorum {
            let nullification = self.nullification(round);
            let (next, actions) = self.conclude(OutcomeView::Nullified(nullification));
            (next, seq![ActionView::Broadcast(VoterView::Nullification(nullification))] + actions)
        } else {
            (self, Seq::empty())
        }
    }

    /// Whether a proposal is one that a round can hold: it builds on an
    /// earlier view.
    pub open spec fn well_formed(proposal: Proposal) -> bool {
        proposal.parent.0 < proposal.round.view.0
    }

    /// A notarize vote from the network. One that is malformed or does not
    /// verify is dropped and its sender blocked, whatever its round. One
    /// that verifies, for a round that the voter does not attend to, is
    /// dropped. Any other is recorded: evidence is reported and the signer
    /// blocked; a quorum closes the round; and the first vote of the
    /// current round's designated proposer, while the voter awaits a
    /// proposal, has the proposal checked.
    pub open spec fn receive_notarize(self, sender: u32, notarize: Notarize) -> Step {
        let round = notarize.proposal.round;
        if !self.verifies(VoterView::Notarize(notarize)) {
            (self, seq![ActionView::Block(sender)])
        } else if !self.attends(round) {
            (self, Seq::empty())
        } else {
            let (ledger, receipt) = self.ledger.record_notarize(notarize);
            let recorded = MachineView { ledger, ..self };
            let reported = Self::evidence_actions(receipt.evidence);
            if receipt.quorum {
                let (next, actions) = recorded.after_notarize(notarize.proposal, true);
                (next, reported + actions)
            } else if receipt.inserted && round == self.current() && self.leader(round) == Some(
                notarize.vote.signer,
            ) && self.phase() is AwaitingProposal {
                (recorded, reported.push(ActionView::Verify(notarize.proposal)))
            } else {
                (recorded, reported)
            }
        }
    }

    /// A nullify vote from the network: as a notarize vote, but that no
    /// proposal is to be checked.
    pub open spec fn receive_nullify(self, sender: u32, nullify: Nullify) -> Step {
        if !self.verifies(VoterView::Nullify(nullify)) {
            (self, seq![ActionView::Block(sender)])
        } else if !self.attends(nullify.round) {
            (self, Seq::empty())
        } else {
            let (ledger, receipt) = self.ledger.record_nullify(nullify);
            let recorded = MachineView { ledger, ..self };
            let (next, actions) = recorded.after_nullify(nullify.round, receipt.quorum);
            (next, Self::evidence_actions(receipt.evidence) + actions)
        }
    }

    /// A notarization from the network. One that is malformed or does not
    /// verify is dropped and its sender blocked, whatever its round. One
    /// that verifies, for a round that the voter does not attend to, is
    /// dropped. Any other closes its round.
    pub open spec fn receive_notarization(self, sender: u32, notarization: NotarizationView) -> Step {
        if !self.verifies(VoterView::Notarization(notarization)) {
            (self, seq![ActionView::Block(sender)])
        } else if !self.attends(notarization.proposal.round) {
            (self, Seq::empty())
        } else {
            self.conclude(OutcomeView::Notarized(notarization))
        }
    }

    /// A nullification from the network: as a notarization.
    pub open spec fn receive_nullification(self, sender: u32, nullification: NullificationView) -> Step {
        if !self.verifies(VoterView::Nullification(nullification)) {
            (self, seq![ActionView::Block(sender)])
        } else if !self.attends(nullification.round) {
            (self, Seq::empty())
        } else {
            self.conclude(OutcomeView::Nullified(nullification))
        }
    }

    pub open spec fn receive(self, sender: u32, message: VoterView) -> Step {
        match message {
            VoterView::Notarize(notarize) => self.receive_notarize(sender, notarize),
            VoterView::Notarization(notarization) => self.receive_notarization(
                sender,
                notarization,
            ),
            VoterView::Nullify(nullify) => self.receive_nullify(sender, nullify),
            VoterView::Nullification(nullification) => self.receive_nullification(
                sender,
                nullification,
            ),
        }
    }

    /// The notarize vote that the voter casts for a proposal.
    pub open spec fn sign_notarize(self, proposal: Proposal) -> Notarize {
        let own = self.scheme.spec_signer().unwrap();
        Notarize {
            proposal,
            vote: Vote {
                signer: own.0,
                signature: signature_of(
                    own.1,
                    self.scheme.spec_namespace(),
                    spec_notarize_statement(proposal),
                ),
            },
        }
    }

    /// The nullify vote that the voter casts for a round.
    pub open spec fn sign_nullify(self, round: Round) -> Nullify {
        let own = self.scheme.spec_signer().unwrap();
        Nullify {
            round,
            vote: Vote {
                signer: own.0,
                signature: signature_of(
                    own.1,
                    self.scheme.spec_namespace(),
                    spec_nullify_statement(round),
                ),
            },
        }
    }

    /// Whether a proposal is the designated proposer's: the voter is the
    /// designated proposer of its round, or the designated proposer's
    /// recorded vote is for it.
    pub open spec fn proposed_by_leader(self, proposal: Proposal) -> bool {
        match self.leader(proposal.round) {
            Some(leader) => {
                let recorded = self.ledger.entry(proposal.round.view.0).notarizes[leader as int];
                self.me() == Some(leader) || (recorded is Some && recorded.unwrap().proposal
                    == proposal)
            },
            None => false,
        }
    }

    /// Whether the voter votes on a proposal: it is the designated
    /// proposer's proposal for the current round, and the voter has cast no
    /// vote in the round.
    pub open spec fn votes_on(self, proposal: Proposal) -> bool {
        &&& proposal.round == self.current()
        &&& self.ledger.accepts(proposal.round)
        &&& Self::well_formed(proposal)
        &&& self.phase() is AwaitingProposal
        &&& self.proposed_by_leader(proposal)
    }

    /// A valid proposal of the designated proposer: the voter notarizes it,
    /// once, broadcasts the vote and records it. Where its own vote
    /// completes the quorum, it closes the round as any such vote does.
    pub open spec fn propose(self, proposal: Proposal) -> Result<Step, Fault> {
        if !self.votes_on(proposal) {
            Ok((self, Seq::empty()))
        } else if self.scheme.spec_signer() is None {
            Err(Fault::KeyUnavailable)
        } else {
            let notarize = self.sign_notarize(proposal);
            let (ledger, receipt) = self.ledger.record_notarize(notarize);
            let (next, actions) = MachineView { ledger, ..self }.after_notarize(
                proposal,
                receipt.quorum,
            );
            Ok((next, seq![ActionView::Broadcast(VoterView::Notarize(notarize))] + actions))
        }
    }

    /// The voter nullifies the current round, broadcasts the vote and
    /// records it. The round stays open unless its own vote completes the
    /// quorum, in which case it closes the round as any such vote does.
    pub open spec fn nullify(self) -> Result<Step, Fault> {
        if !self.ledger.accepts(self.current()) {
            Ok((self, Seq::empty()))
        } else if self.scheme.spec_signer() is None {
            Err(Fault::KeyUnavailable)
        } else {
            let nullify = self.sign_nullify(self.current());
            let (ledger, receipt) = self.ledger.record_nullify(nullify);
            let (next, actions) = MachineView { ledger, ..self }.after_nullify(
                nullify.round,
                receipt.quorum,
            );
            Ok((next, seq![ActionView::Broadcast(VoterView::Nullify(nullify))] + actions))
        }
    }

    /// One step of the voter. A proposal is notarized. A message is
    /// received. What is no message is dropped and its sender blocked.
    /// When the leader timeout of the current round runs out and
    /// the voter has cast no vote, it nullifies the round. When the
    /// notarization timeout of the current round runs out and the voter
    /// has not nullified the round, it nullifies it. The timeout of a
    /// round that is over does nothing.
    pub open spec fn handle(self, event: EventView) -> Result<Step, Fault> {
        match event {
            EventView::Proposal(proposal) => self.propose(proposal),
            EventView::Message { sender, message } => Ok(self.receive(sender, message)),
            EventView::Malformed { sender } => Ok((self, seq![ActionView::Block(sender)])),
            EventView::LeaderTimeout(round) => if round == self.current() && self.phase()
                is AwaitingProposal {
                self.nullify()
            } else {
                Ok((self, Seq::empty()))
            },
            EventView::NotarizationTimeout(round) => if round == self.current() && !(self.phase()
                is VotedNullify) {
                self.nullify()
            } else {
                Ok((self, Seq::empty()))
            },
        }
    }
}

impl View for Machine {
    type V = MachineView;

    closed spec fn view(&self) -> MachineView {
        MachineView {
            scheme: self.scheme,
            ledger: self.ledger@,
            retention: self.retention,
            parent: self.parent,
        }
    }
}

/// Adds an action to those of a step.
fn emit(actions: &mut Vec<Action>, action: Action)
    ensures
        actions_view(final(actions)@) == actions_view(old(actions)@).push(action@),
{
    actions.push(action);
    assert(actions_view(actions@) =~= actions_view(old(actions)@).push(action@));
}

/// Adds the actions that evidence asks for.
fn report(evidence: Option<Evidence>, actions: &mut Vec<Action>)
    ensures
        actions_view(final(actions)@) == actions_view(old(actions)@) + MachineView::evidence_actions(
            crate::evidence::option_view(evidence),
        ),
{
    match evidence {
        Some(found) => {
            let signer: Option<u32> = found.signer();
            emit(actions, Action::Report(Activity::ConflictingVoteEvidence(found)));
            match signer {
                Some(convicted) => {
                    emit(actions, Action::Block(convicted));
                },
                None => {},
            }
        },
        None => {},
    }
    assert(actions_view(actions@) =~= actions_view(old(actions)@) + MachineView::evidence_actions(
        crate::evidence::option_view(evidence),
    ));
}

impl Machine {
    /// The ledger holds each round once.
    pub closed spec fn sound(&self) -> bool {
        self.ledger.distinct()
    }

    pub open spec fn wf(&self) -> bool {
        self.sound() && self@.wf()
    }

    /// A voter for the rounds of `epoch`, from the first view on, with
    /// nothing recorded. It may forget what it holds of a round that has
    /// an outcome and lies more than `retention` rounds before the current
    /// one.
    pub fn new(scheme: Scheme, epoch: Epoch, retention: u64) -> (machine: Self)
        requires
            scheme.wf(),
        ensures
            machine.wf(),
            machine@ == (MachineView {
                scheme,
                ledger: LedgerView::empty(
                    epoch,
                    scheme.spec_participants().len(),
                    scheme.spec_quorum(),
                    1,
                ),
                retention,
                parent: ViewNumber(0),
            }),
    {
        let participants: u32 = scheme.participant_count();
        let quorum: u32 = scheme.quorum();
        let ledger: Ledger = Ledger::new(epoch, participants, quorum, ViewNumber(1));
        Machine { scheme, ledger, retention, parent: ViewNumber(0) }
    }

    /// The current round.
    pub fn current(&self) -> (round: Round)
        ensures
            round == self@.current(),
    {
        Round { epoch: self.ledger.epoch(), view: self.ledger.current() }
    }

    /// The latest view that the voter knows to be notarized.
    pub fn parent(&self) -> (parent: ViewNumber)
        ensures
            parent == self@.parent,
    {
        self.parent
    }

    /// The designated proposer of a round.
    pub fn leader(&self, round: Round) -> (leader: Option<u32>)
        ensures
            leader == self@.leader(round),
    {
        let count: u64 = self.ledger.participants() as u64;
        if count == 0 {
            None
        } else {
            let turn: u64 = ((round.epoch.0 % count) + (round.view.0 % count)) % count;
            Some(turn as u32)
        }
    }

    /// Where the voter stands in the current round.
    pub fn phase(&self) -> (phase: Phase)
        requires
            self.wf(),
        ensures
            phase == self@.phase(),
    {
        match self.scheme.me() {
            Some(me) => {
                let view: ViewNumber = self.ledger.current();
                if self.ledger.nullify_of(view, me).is_some() {
                    Phase::VotedNullify
                } else if self.ledger.notarize_of(view, me).is_some() {
                    Phase::VotedNotarize
                } else {
                    Phase::AwaitingProposal
                }
            },
            None => Phase::AwaitingProposal,
        }
    }

    /// The outcome of the round with the given view, if the voter holds
    /// one.
    pub fn outcome(&self, view: ViewNumber) -> (outcome: Option<Outcome>)
        requires
            self.wf(),
        ensures
            crate::evidence::option_view(outcome) == self@.ledger.entry(view.0).outcome,
    {
        self.ledger.outcome(view)
    }

    /// What entering the current round asks for. The first round is
    /// entered when the voter starts.
    pub fn start(&self) -> (actions: Vec<Action>)
        requires
            self.wf(),
        ensures
            actions_view(actions@) == self@.enter_actions(),
    {
        let mut actions: Vec<Action> = Vec::new();
        self.enter(&mut actions);
        assert(actions_view(actions@) =~= self@.enter_actions());
        actions
    }

    fn enter(&self, actions: &mut Vec<Action>)
        requires
            self.wf(),
        ensures
            actions_view(final(actions)@) == actions_view(old(actions)@) + self@.enter_actions(),
    {
        let round: Round = self.current();
        emit(actions, Action::Enter(round));
        if self.ledger.accepts(round) {
            let me: Option<u32> = self.scheme.me();
            match self.leader(round) {
                Some(leader) => {
                    let mine: bool = match me {
                        Some(own) => own == leader,
                        None => false,
                    };
                    if mine {
                        emit(actions, Action::Propose { round, parent: self.parent });
                    } else if self.phase() == Phase::AwaitingProposal {
                        match self.ledger.notarize_of(round.view, leader) {
                            Some(notarize) => {
                                emit(actions, Action::Verify(notarize.proposal));
                            },
                            None => {},
                        }
                    }
                },
                None => {},
            }
        }
        assert(actions_view(actions@) =~= actions_view(old(actions)@) + self@.enter_actions());
    }

    /// Whether a proposal is the designated proposer's.
    fn proposed_by_leader(&self, proposal: &Proposal) -> (known: bool)
        requires
            self.wf(),
        ensures
            known == self@.proposed_by_leader(*proposal),
    {
        match self.leader(proposal.round) {
            Some(leader) => {
                let mine: bool = match self.scheme.me() {
                    Some(own) => own == leader,
                    None => false,
                };
                if mine {
                    true
                } else {
                    match self.ledger.notarize_of(proposal.round.view, leader) {
                        Some(recorded) => recorded.proposal.same(proposal),
                        None => false,
                    }
                }
            },
            None => false,
        }
    }

    /// Whether the voter attends to a round.
    fn attends(&self, round: Round) -> (attended: bool)
        requires
            self.wf(),
        ensures
            attended == self@.attends(round),
    {
        let current: u64 = self.ledger.current().0;
        self.ledger.accepts(round) && (round.view.0 >= current || current - round.view.0
            <= self.retention || self.ledger.holds(round.view))
    }

    fn conclude(&mut self, outcome: Outcome, actions: &mut Vec<Action>)
        requires
            old(self).wf(),
        ensures
            final(self).wf(),
            final(self)@ == old(self)@.conclude(outcome@).0,
            actions_view(final(actions)@) == actions_view(old(actions)@) + old(self)@.conclude(
                outcome@,
            ).1,
    {
        let before: u64 = self.ledger.current().0;
        let copy: Outcome = outcome.duplicate();
        let closure: Closure = self.ledger.close(outcome);
        match closure {
            Closure::Closed => {
                match copy {
                    Outcome::Notarized(notarization) => {
                        if notarization.proposal.round.view.0 > self.parent.0 {
                            self.parent = notarization.proposal.round.view;
                        }
                        emit(actions, Action::Relay(notarization.proposal.payload));
                        emit(actions, Action::Report(Activity::Notarization(notarization)));
                    },
                    Outcome::Nullified(nullification) => {
                        emit(actions, Action::Report(Activity::Nullification(nullification)));
                    },
                }
                assert(actions_view(actions@) =~= actions_view(old(actions)@)
                    + MachineView::outcome_actions(outcome@));
                if self.ledger.current().0 != before {
                    self.ledger.prune(self.retention);
                    self.enter(actions);
                }
                assert(actions_view(actions@) =~= actions_view(old(actions)@) + old(self)@.conclude(outcome@).1);
            },
            Closure::Conflict(evidence) => {
                report(Some(evidence), actions);
            },
            Closure::Unchanged => {
                assert(actions_view(actions@) =~= actions_view(old(actions)@) + Seq::empty());
            },
            Closure::Foreign => {
                assert(actions_view(actions@) =~= actions_view(old(actions)@) + Seq::empty());
            },
        }
    }

    fn after_notarize(&mut self, proposal: Proposal, quorum: bool, actions: &mut Vec<Action>)
        requires
            old(self).wf(),
            quorum ==> old(self)@.ledger.accepts(proposal.round) && old(self)@.ledger.entry(
                proposal.round.view.0,
            ).wf(old(self)@.ledger.participants) && old(self)@.ledger.entry(
                proposal.round.view.0,
            ).notarize_count(proposal) == old(self)@.ledger.quorum,
        ensures
            final(self).wf(),
            final(self)@ == old(self)@.after_notarize(proposal, quorum).0,
            actions_view(final(actions)@) == actions_view(old(actions)@) + old(self)@.after_notarize(proposal, quorum).1,
    {
        if quorum {
            let votes: Vec<Vote> = self.ledger.notarize_votes(&proposal);
            let statement: Vec<u8> = notarize_statement(&proposal);
            proof {
                let entry = self@.ledger.entry(proposal.round.view.0);
                lemma_notarize_votes(entry, proposal, self@.ledger.participants);
                assert(!has_duplicate_signer(votes@));
                assert(!has_unknown_signer(votes@, self@.ledger.participants));
            }
            match self.scheme.aggregate(&votes, statement.as_slice()) {
                Ok(certificate) => {
                    let notarization: Notarization = Notarization { proposal, certificate };
                    emit(actions, Action::Broadcast(Voter::Notarization(notarization.duplicate())));
                    self.conclude(Outcome::Notarized(notarization), actions);
                    assert(actions_view(actions@) =~= actions_view(old(actions)@) + old(self)@.after_notarize(proposal, quorum).1);
                },
                Err(_) => {
                    assert(false);
                },
            }
        } else {
            assert(actions_view(actions@) =~= actions_view(old(actions)@) + Seq::empty());
        }
    }

    fn after_nullify(&mut self, round: Round, quorum: bool, actions: &mut Vec<Action>)
        requires
            old(self).wf(),
            quorum ==> old(self)@.ledger.accepts(round) && old(self)@.ledger.entry(
                round.view.0,
            ).wf(old(self)@.ledger.participants) && old(self)@.ledger.entry(
                round.view.0,
            ).nullify_count() == old(self)@.ledger.quorum && old(self)@.ledger.entry(
                round.view.0,
            ).round == round,
        ensures
            final(self).wf(),
            final(self)@ == old(self)@.after_nullify(round, quorum).0,
            actions_view(final(actions)@) == actions_view(old(actions)@) + old(self)@.after_nullify(round, quorum).1,
    {
        if quorum {
            let votes: Vec<Vote> = self.ledger.nullify_votes(round);
            let statement: Vec<u8> = nullify_statement(round);
            proof {
                let entry = self@.ledger.entry(round.view.0);
                lemma_nullify_votes(entry, self@.ledger.participants);
                assert(!has_duplicate_signer(votes@));
                assert(!has_unknown_signer(votes@, self@.ledger.participants));
            }
            match self.scheme.aggregate(&votes, statement.as_slice()) {
                Ok(certificate) => {
                    let nullification: Nullification = Nullification { round, certificate };
                    emit(
                        actions,
                        Action::Broadcast(Voter::Nullification(nullification.duplicate())),
                    );
                    self.conclude(Outcome::Nullified(nullification), actions);
                    assert(actions_view(actions@) =~= actions_view(old(actions)@) + old(self)@.after_nullify(round, quorum).1);
                },
                Err(_) => {
                    assert(false);
                },
            }
        } else {
            assert(actions_view(actions@) =~= actions_view(old(actions)@) + Seq::empty());
        }
    }

    fn receive_notarize(&mut self, sender: u32, notarize: Notarize, actions: &mut Vec<Action>)
        requires
            old(self).wf(),
        ensures
            final(self).wf(),
            final(self)@ == old(self)@.receive_notarize(sender, notarize).0,
            actions_view(final(actions)@) == actions_view(old(actions)@) + old(self)@.receive_notarize(sender, notarize).1,
    {
        let proposal: Proposal = notarize.proposal;
        let round: Round = proposal.round;
        let statement: Vec<u8> = notarize_statement(&proposal);
        if !(proposal.parent.0 < round.view.0) || !self.scheme.verify(
            notarize.vote.signer,
            statement.as_slice(),
            &notarize.vote.signature,
        ) {
            emit(actions, Action::Block(sender));
            assert(actions_view(actions@) =~= actions_view(old(actions)@) + seq![
                ActionView::Block(sender),
            ]);
            return ;
        }
        if !self.attends(round) {
            assert(actions_view(actions@) =~= actions_view(old(actions)@) + Seq::empty());
            return ;
        }
        let leads: bool = match self.leader(round) {
            Some(leader) => leader == notarize.vote.signer,
            None => false,
        };
        let awaited: bool = round == self.current() && leads && self.phase()
            == Phase::AwaitingProposal;
        let receipt: Receipt = self.ledger.record_notarize(notarize);
        report(receipt.evidence, actions);
        if receipt.quorum {
            self.after_notarize(proposal, true, actions);
        } else if receipt.inserted && awaited {
            emit(actions, Action::Verify(proposal));
        }
        assert(actions_view(actions@) =~= actions_view(old(actions)@) + old(self)@.receive_notarize(sender, notarize).1);
    }

    fn receive_nullify(&mut self, sender: u32, nullify: Nullify, actions: &mut Vec<Action>)
        requires
            old(self).wf(),
        ensures
            final(self).wf(),
            final(self)@ == old(self)@.receive_nullify(sender, nullify).0,
            actions_view(final(actions)@) == actions_view(old(actions)@) + old(self)@.receive_nullify(sender, nullify).1,
    {
        let round: Round = nullify.round;
        let statement: Vec<u8> = nullify_statement(round);
        if !self.scheme.verify(nullify.vote.signer, statement.as_slice(), &nullify.vote.signature) {
            emit(actions, Action::Block(sender));
            assert(actions_view(actions@) =~= actions_view(old(actions)@) + seq![
                ActionView::Block(sender),
            ]);
            return ;
        }
        if !self.attends(round) {
            assert(actions_view(actions@) =~= actions_view(old(actions)@) + Seq::empty());
            return ;
        }
        let receipt: Receipt = self.ledger.record_nullify(nullify);
        report(receipt.evidence, actions);
        self.after_nullify(round, receipt.quorum, actions);
        assert(actions_view(actions@) =~= actions_view(old(actions)@) + old(self)@.receive_nullify(sender, nullify).1);
    }

    fn receive_notarization(
        &mut self,
        sender: u32,
        notarization: Notarization,
        actions: &mut Vec<Action>,
    )
        requires
            old(self).wf(),
        ensures
            final(self).wf(),
            final(self)@ == old(self)@.receive_notarization(sender, notarization@).0,
            actions_view(final(actions)@) == actions_view(old(actions)@) + old(self)@.receive_notarization(sender, notarization@).1,
    {
        let proposal: Proposal = notarization.proposal;
        let statement: Vec<u8> = notarize_statement(&proposal);
        if !(proposal.parent.0 < proposal.round.view.0) || !self.scheme.verify_certificate(
            &notarization.certificate,
            statement.as_slice(),
        ) {
            emit(actions, Action::Block(sender));
            assert(actions_view(actions@) =~= actions_view(old(actions)@) + seq![
                ActionView::Block(sender),
            ]);
            return ;
        }
        if !self.attends(proposal.round) {
            assert(actions_view(actions@) =~= actions_view(old(actions)@) + Seq::empty());
            return ;
        }
        self.conclude(Outcome::Notarized(notarization), actions);
    }

    fn receive_nullification(
        &mut self,
        sender: u32,
        nullification: Nullification,
        actions: &mut Vec<Action>,
    )
        requires
            old(self).wf(),
        ensures
            final(self).wf(),
            final(self)@ == old(self)@.receive_nullification(sender, nullification@).0,
            actions_view(final(actions)@) == actions_view(old(actions)@) + old(self)@.receive_nullification(sender, nullification@).1,
    {
        let round: Round = nullification.round;
        let statement: Vec<u8> = nullify_statement(round);
        if !self.scheme.verify_certificate(&nullification.certificate, statement.as_slice()) {
            emit(actions, Action::Block(sender));
            assert(actions_view(actions@) =~= actions_view(old(actions)@) + seq![
                ActionView::Block(sender),
            ]);
            return ;
        }
        if !self.attends(round) {
            assert(actions_view(actions@) =~= actions_view(old(actions)@) + Seq::empty());
            return ;
        }
        self.conclude(Outcome::Nullified(nullification), actions);
    }

    fn propose(&mut self, proposal: Proposal, actions: &mut Vec<Action>) -> (done: Result<(), Fault>)
        requires
            old(self).wf(),
        ensures
            final(self).wf(),
            match done {
                Ok(_) => old(self)@.propose(proposal) == Ok::<Step, Fault>(
                    (
                        final(self)@,
                        old(self)@.propose(proposal).unwrap().1,
                    ),
                ) && actions_view(final(actions)@) == actions_view(old(actions)@) + old(self)@.propose(proposal).unwrap().1,
                Err(fault) => old(self)@.propose(proposal) == Err::<Step, Fault>(fault) && final(self)@ == old(self)@ && final(actions)@ == old(actions)@,
            },
    {
        let voting: bool = proposal.round == self.current() && self.ledger.accepts(proposal.round)
            && proposal.parent.0 < proposal.round.view.0 && self.phase()
            == Phase::AwaitingProposal && self.proposed_by_leader(&proposal);
        if !voting {
            assert(actions_view(actions@) =~= actions_view(old(actions)@) + Seq::empty());
            return Ok(());
        }
        let statement: Vec<u8> = notarize_statement(&proposal);
        match self.scheme.sign(statement.as_slice()) {
            Ok(vote) => {
                let notarize: Notarize = Notarize { proposal, vote };
                emit(actions, Action::Broadcast(Voter::Notarize(notarize.duplicate())));
                let receipt: Receipt = self.ledger.record_notarize(notarize);
                self.after_notarize(proposal, receipt.quorum, actions);
                assert(actions_view(actions@) =~= actions_view(old(actions)@) + old(self)@.propose(proposal).unwrap().1);
                Ok(())
            },
            Err(_) => Err(Fault::KeyUnavailable),
        }
    }

    fn nullify(&mut self, actions: &mut Vec<Action>) -> (done: Result<(), Fault>)
        requires
            old(self).wf(),
        ensures
            final(self).wf(),
            match done {
                Ok(_) => old(self)@.nullify() == Ok::<Step, Fault>(
                    (final(self)@, old(self)@.nullify().unwrap().1),
                ) && actions_view(final(actions)@) == actions_view(old(actions)@) + old(self)@.nullify().unwrap().1,
                Err(fault) => old(self)@.nullify() == Err::<Step, Fault>(fault) && final(self)@
                    == old(self)@ && final(actions)@ == old(actions)@,
            },
    {
        let round: Round = self.current();
        if !self.ledger.accepts(round) {
            assert(actions_view(actions@) =~= actions_view(old(actions)@) + Seq::empty());
            return Ok(());
        }
        let statement: Vec<u8> = nullify_statement(round);
        match self.scheme.sign(statement.as_slice()) {
            Ok(vote) => {
                let nullify: Nullify = Nullify { round, vote };
                emit(actions, Action::Broadcast(Voter::Nullify(nullify.duplicate())));
                let receipt: Receipt = self.ledger.record_nullify(nullify);
                self.after_nullify(round, receipt.quorum, actions);
                assert(actions_view(actions@) =~= actions_view(old(actions)@) + old(self)@.nullify().unwrap().1);
                Ok(())
            },
            Err(_) => Err(Fault::KeyUnavailable),
        }
    }

    /// Takes one step: the state becomes, and the actions are, what
    /// `MachineView::handle` gives for the event. A fault leaves the state
    /// as it was.
    pub fn handle(&mut self, event: Event) -> (actions: Result<Vec<Action>, Fault>)
        requires
            old(self).wf(),
        ensures
            final(self).wf(),
            match actions {
                Ok(asked) => old(self)@.handle(event@) == Ok::<Step, Fault>(
                    (final(self)@, actions_view(asked@)),
                ),
                Err(fault) => old(self)@.handle(event@) == Err::<Step, Fault>(fault) && final(self)@ == old(self)@,
            },
    {
        let mut asked: Vec<Action> = Vec::new();
        assert(actions_view(asked@) =~= Seq::empty());
        let done: Result<(), Fault> = match event {
            Event::Proposal(proposal) => self.propose(proposal, &mut asked),
            Event::Message { sender, message } => {
                match message {
                    Voter::Notarize(notarize) => {
                        self.receive_notarize(sender, notarize, &mut asked);
                    },
                    Voter::Notarization(notarization) => {
                        self.receive_notarization(sender, notarization, &mut asked);
                    },
                    Voter::Nullify(nullify) => {
                        self.receive_nullify(sender, nullify, &mut asked);
                    },
                    Voter::Nullification(nullification) => {
                        self.receive_nullification(sender, nullification, &mut asked);
                    },
                }
                Ok(())
            },
            Event::Malformed { sender } => {
                emit(&mut asked, Action::Block(sender));
                Ok(())
            },
            Event::LeaderTimeout(round) => {
                if round == self.current() && self.phase() == Phase::AwaitingProposal {
                    self.nullify(&mut asked)
                } else {
                    Ok(())
                }
            },
            Event::NotarizationTimeout(round) => {
                if round == self.current() && self.phase() != Phase::VotedNullify {
                    self.nullify(&mut asked)
                } else {
                    Ok(())
                }
            },
        };
        match done {
            Ok(_) => {
                assert(actions_view(asked@) =~= old(self)@.handle(event@).unwrap().1);
                Ok(asked)
            },
            Err(fault) => Err(fault),
        }
    }
}

} // verus!
