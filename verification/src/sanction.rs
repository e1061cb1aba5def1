use crate::evidence::{EvidenceView, OutcomeView};
use crate::ledger::{lemma_close, lemma_prune};
use crate::types::{Notarize, Proposal, Round, VoterView};
use crate::voter::{ActionView, ActivityView, EventView, Fault, MachineView, Step};
use vstd::prelude::*;

verus! {

/// Whether a message is well formed and bears out what it says, to the
/// voter in the given state.
pub open spec fn verifies(state: MachineView, message: VoterView) -> bool {
    state.verifies(message)
}

/// Whether none of the actions asks to block anybody.
pub open spec fn blocks_nobody(actions: Seq<ActionView>) -> bool {
    forall|k: int| 0 <= k < actions.len() ==> !(#[trigger] actions[k] is Block)
}

/// Whether an action reports evidence that convicts the participant.
pub open spec fn convicts(action: ActionView, peer: u32) -> bool {
    action matches ActionView::Report(ActivityView::ConflictingVoteEvidence(evidence))
        && evidence.signer() == Some(peer)
}

proof fn lemma_conclude_blocks_nobody(state: MachineView, outcome: OutcomeView)
    ensures
        blocks_nobody(state.conclude(outcome).1),
{
    let (ledger, closure) = state.ledger.close(outcome);
    let (next, actions) = state.conclude(outcome);
    assert forall|k: int| 0 <= k < actions.len() implies !(#[trigger] actions[k] is Block) by {
        if closure is Closed {
            let reported = MachineView::outcome_actions(outcome);
            if k < reported.len() {
                assert(actions[k] == reported[k]);
            } else if ledger.current != state.ledger.current {
                assert(actions[k] == next.enter_actions()[k - reported.len()]);
            }
        }
    }
}

proof fn lemma_after_vote_blocks_nobody(state: MachineView, proposal: Proposal, round: Round, quorum: bool)
    ensures
        blocks_nobody(state.after_notarize(proposal, quorum).1),
        blocks_nobody(state.after_nullify(round, quorum).1),
{
    if quorum {
        let notarized = OutcomeView::Notarized(state.notarization(proposal));
        let nullified = OutcomeView::Nullified(state.nullification(round));
        lemma_conclude_blocks_nobody(state, notarized);
        lemma_conclude_blocks_nobody(state, nullified);
        let first = state.after_notarize(proposal, quorum).1;
        let second = state.after_nullify(round, quorum).1;
        assert forall|k: int| 0 <= k < first.len() implies !(#[trigger] first[k] is Block) by {
            if k > 0 {
                assert(first[k] == state.conclude(notarized).1[k - 1]);
            }
        }
        assert forall|k: int| 0 <= k < second.len() implies !(#[trigger] second[k] is Block) by {
            if k > 0 {
                assert(second[k] == state.conclude(nullified).1[k - 1]);
            }
        }
    }
}

/// The voter asks to block nobody but the sender of what is no message or
/// of a message that does not verify, and the signer whom the evidence
/// that it reports just before convicts.
pub proof fn lemma_blocks_are_earned(state: MachineView, event: EventView, k: int, peer: u32)
    requires
        state.wf(),
        state.handle(event) is Ok,
        0 <= k < state.handle(event).unwrap().1.len(),
        state.handle(event).unwrap().1[k] == ActionView::Block(peer),
    ensures
        ({
            let actions = state.handle(event).unwrap().1;
            ||| event == (EventView::Malformed { sender: peer })
            ||| event matches EventView::Message { sender, message } && sender == peer && !verifies(
                state,
                message,
            )
            ||| k > 0 && convicts(actions[k - 1], peer)
        }),
{
    let actions = state.handle(event).unwrap().1;
    match event {
        EventView::Proposal(proposal) => {
            if state.votes_on(proposal) {
                let notarize = state.sign_notarize(proposal);
                let (ledger, receipt) = state.ledger.record_notarize(notarize);
                let recorded = MachineView { ledger, ..state };
                lemma_after_vote_blocks_nobody(recorded, proposal, proposal.round, receipt.quorum);
                let rest = recorded.after_notarize(proposal, receipt.quorum).1;
                if k > 0 {
                    assert(actions[k] == rest[k - 1]);
                }
            }
        },
        EventView::Message { sender, message } => {
            match message {
                VoterView::Notarize(notarize) => {
                    if verifies(state, message) && state.attends(notarize.proposal.round) {
                        let (ledger, receipt) = state.ledger.record_notarize(notarize);
                        let recorded = MachineView { ledger, ..state };
                        let reported = MachineView::evidence_actions(receipt.evidence);
                        lemma_after_vote_blocks_nobody(
                            recorded,
                            notarize.proposal,
                            notarize.proposal.round,
                            true,
                        );
                        let rest = recorded.after_notarize(notarize.proposal, true).1;
                        if k < reported.len() {
                            assert(actions[k] == reported[k]);
                            assert(actions[k - 1] == reported[k - 1]);
                        } else if receipt.quorum {
                            assert(actions[k] == rest[k - reported.len()]);
                        }
                    }
                },
                VoterView::Nullify(nullify) => {
                    if verifies(state, message) && state.attends(nullify.round) {
                        let (ledger, receipt) = state.ledger.record_nullify(nullify);
                        let recorded = MachineView { ledger, ..state };
                        let reported = MachineView::evidence_actions(receipt.evidence);
                        lemma_after_vote_blocks_nobody(
                            recorded,
                            arbitrary(),
                            nullify.round,
                            receipt.quorum,
                        );
                        let rest = recorded.after_nullify(nullify.round, receipt.quorum).1;
                        if k < reported.len() {
                            assert(actions[k] == reported[k]);
                            assert(actions[k - 1] == reported[k - 1]);
                        } else {
                            assert(actions[k] == rest[k - reported.len()]);
                        }
                    }
                },
                VoterView::Notarization(notarization) => {
                    lemma_conclude_blocks_nobody(state, OutcomeView::Notarized(notarization));
                },
                VoterView::Nullification(nullification) => {
                    lemma_conclude_blocks_nobody(state, OutcomeView::Nullified(nullification));
                },
            }
        },
        EventView::Malformed { sender } => {},
        EventView::LeaderTimeout(round) => {
            lemma_timeout_blocks_nobody(state, k);
        },
        EventView::NotarizationTimeout(round) => {
            lemma_timeout_blocks_nobody(state, k);
        },
    }
}

proof fn lemma_timeout_blocks_nobody(state: MachineView, k: int)
    requires
        state.nullify() is Ok,
    ensures
        0 <= k < state.nullify().unwrap().1.len() ==> !(state.nullify().unwrap().1[k] is Block),
{
    if state.ledger.accepts(state.current()) && 0 <= k < state.nullify().unwrap().1.len() {
        let nullify = state.sign_nullify(state.current());
        let (ledger, receipt) = state.ledger.record_nullify(nullify);
        let recorded = MachineView { ledger, ..state };
        lemma_after_vote_blocks_nobody(recorded, arbitrary(), nullify.round, receipt.quorum);
        let rest = recorded.after_nullify(nullify.round, receipt.quorum).1;
        if k > 0 {
            assert(state.nullify().unwrap().1[k] == rest[k - 1]);
        }
    }
}

/// What is malformed or does not verify under the scheme's namespace is
/// dropped and its sender blocked, whatever round it is for: the state
/// stays as it was, and nothing else is asked.
pub proof fn lemma_unverifiable_is_blocked(state: MachineView, sender: u32, message: VoterView)
    requires
        !state.verifies(message),
    ensures
        state.handle(EventView::Message { sender, message }) == Ok::<Step, Fault>(
            (state, seq![ActionView::Block(sender)]),
        ),
{
}

/// The voter attends to every round of which its ledger holds an entry,
/// however far back it lies.
pub proof fn lemma_held_round_is_attended(state: MachineView, view: u64)
    requires
        state.wf(),
        state.ledger.rounds.dom().contains(view),
    ensures
        state.attends(state.ledger.round(view)),
{
}

/// A verified notarize vote of a signer whose recorded vote in the round
/// is for another proposal changes nothing in the voter, however far back
/// the round lies: the two votes are reported as evidence, the signer is
/// blocked and nobody else, and the voter goes on.
pub proof fn lemma_second_notarize_is_evidence(
    state: MachineView,
    sender: u32,
    first: Notarize,
    second: Notarize,
)
    requires
        state.wf(),
        state.verifies(VoterView::Notarize(second)),
        first.proposal.round == second.proposal.round,
        first.proposal != second.proposal,
        state.ledger.entry(second.proposal.round.view.0).notarizes[second.vote.signer as int]
            == Some(first),
    ensures
        state.handle(EventView::Message { sender, message: VoterView::Notarize(second) }) == Ok::<
            Step,
            Fault,
        >(
            (
                state,
                seq![
                    ActionView::Report(
                        ActivityView::ConflictingVoteEvidence(
                            EvidenceView::ConflictingNotarize { first, second },
                        ),
                    ),
                    ActionView::Block(second.vote.signer),
                ],
            ),
        ),
{
    let view = second.proposal.round.view.0;
    let signer = second.vote.signer as int;
    assert(state.ledger.rounds.dom().contains(view)) by {
        if !state.ledger.rounds.dom().contains(view) {
            assert(state.ledger.entry(view).notarizes[signer] is None);
        }
    }
    assert(state.ledger.rounds[view].notarizes[signer] == Some(first));
    assert(first.proposal.round == state.ledger.round(view));
    assert(state.attends(second.proposal.round));
    let (ledger, receipt) = state.ledger.record_notarize(second);
    assert(receipt.evidence == Some(EvidenceView::ConflictingNotarize { first, second }));
    assert(ledger == state.ledger);
    let recorded = MachineView { ledger, ..state };
    assert(recorded == state);
    assert(MachineView::evidence_actions(receipt.evidence) =~= seq![
        ActionView::Report(
            ActivityView::ConflictingVoteEvidence(
                EvidenceView::ConflictingNotarize { first, second },
            ),
        ),
        ActionView::Block(second.vote.signer),
    ]);
}

/// A round that the voter attends to and that has no outcome closes with
/// whatever verified certificate arrives for it, whatever evidence was
/// found in it: the certificate becomes the round's outcome, is reported,
/// and the current round lies beyond it.
pub proof fn lemma_round_without_outcome_closes(state: MachineView, sender: u32, message: VoterView)
    requires
        state.wf(),
        message is Notarization || message is Nullification,
        verifies(state, message),
        ({
            let round = match message {
                VoterView::Notarization(notarization) => notarization.proposal.round,
                VoterView::Nullification(nullification) => nullification.round,
                _ => arbitrary(),
            };
            state.attends(round) && state.ledger.entry(round.view.0).outcome is None
        }),
    ensures
        ({
            let outcome = match message {
                VoterView::Notarization(notarization) => OutcomeView::Notarized(notarization),
                VoterView::Nullification(nullification) => OutcomeView::Nullified(nullification),
                _ => arbitrary(),
            };
            let (next, actions) = state.receive(sender, message);
            &&& state.ledger.close(outcome).0.entry(outcome.round().view.0).outcome == Some(outcome)
            &&& next.ledger.current > outcome.round().view.0
            &&& actions.len() >= MachineView::outcome_actions(outcome).len()
            &&& actions.subrange(0, MachineView::outcome_actions(outcome).len() as int)
                == MachineView::outcome_actions(outcome)
        }),
{
    let outcome = match message {
        VoterView::Notarization(notarization) => OutcomeView::Notarized(notarization),
        VoterView::Nullification(nullification) => OutcomeView::Nullified(nullification),
        _ => arbitrary(),
    };
    lemma_close(state.ledger, outcome);
    lemma_prune(state.ledger.close(outcome).0, state.retention);
    let (next, actions) = state.receive(sender, message);
    assert(actions.subrange(0, MachineView::outcome_actions(outcome).len() as int)
        =~= MachineView::outcome_actions(outcome));
}

} // verus!
