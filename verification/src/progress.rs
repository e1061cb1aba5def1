use crate::driver::DriverView;
use crate::ed25519::signature_of;
use crate::entry::{lemma_inserted_vote_counts, lemma_notarize_votes, lemma_nullify_votes};
use crate::evidence::OutcomeView;
use crate::ledger::{
    lemma_close, lemma_prune, lemma_record_notarize, lemma_record_nullify, same_setting,
};
use crate::sanction::verifies;
use crate::timers::started;
use crate::trace::{follows, lemma_after_notarize};
use crate::scheme::{lemma_assembled_certificate_verifies, Scheme};
use crate::statement::{spec_notarize_statement, spec_nullify_statement};
use crate::types::{Notarize, Proposal, Round, VoterView};
use crate::voter::{ActionView, ActivityView, EventView, MachineView};
use vstd::prelude::*;

verus! {

/// Whether the scheme's own key signs for its own index: what it signs
/// verifies as the vote of the participant that the scheme says it is.
pub open spec fn signs_validly(scheme: Scheme) -> bool {
    scheme.spec_signer() matches Some(own) ==> forall|statement: Seq<u8>|
        scheme.spec_verify(
            own.0 as int,
            statement,
            #[trigger] signature_of(own.1, scheme.spec_namespace(), statement),
        )
}

/// Whether every recorded vote is its signer's signature on what it votes
/// for.
pub open spec fn votes_verify(state: MachineView) -> bool {
    &&& forall|view: u64, signer: int|
        0 <= signer < state.ledger.participants && (#[trigger] state.ledger.entry(
            view,
        ).notarizes[signer]) is Some ==> state.scheme.spec_verify(
            signer,
            spec_notarize_statement(state.ledger.entry(view).notarizes[signer].unwrap().proposal),
            state.ledger.entry(view).notarizes[signer].unwrap().vote.signature,
        )
    &&& forall|view: u64, signer: int|
        0 <= signer < state.ledger.participants && (#[trigger] state.ledger.entry(
            view,
        ).nullifies[signer]) is Some ==> state.scheme.spec_verify(
            signer,
            spec_nullify_statement(state.ledger.entry(view).nullifies[signer].unwrap().round),
            state.ledger.entry(view).nullifies[signer].unwrap().vote.signature,
        )
}

proof fn lemma_conclude_keeps_verified(state: MachineView, outcome: OutcomeView)
    requires
        state.wf(),
        votes_verify(state),
    ensures
        votes_verify(state.conclude(outcome).0),
{
    lemma_close(state.ledger, outcome);
    let (ledger, closure) = state.ledger.close(outcome);
    lemma_prune(ledger, state.retention);
    let next = state.conclude(outcome).0;
    assert forall|view: u64, signer: int|
        0 <= signer < next.ledger.participants && (#[trigger] next.ledger.entry(
            view,
        ).notarizes[signer]) is Some implies next.scheme.spec_verify(
        signer,
        spec_notarize_statement(next.ledger.entry(view).notarizes[signer].unwrap().proposal),
        next.ledger.entry(view).notarizes[signer].unwrap().vote.signature,
    ) by {
        assert(ledger.entry(view).notarizes == state.ledger.entry(view).notarizes);
        if next.ledger != ledger {
            if ledger.prunable(view, state.retention) {
                assert(next.ledger.entry(view).notarizes[signer] is None);
            } else {
                assert(next.ledger.entry(view) == ledger.entry(view));
            }
        }
        assert(state.ledger.entry(view).notarizes[signer] is Some);
    }
    assert forall|view: u64, signer: int|
        0 <= signer < next.ledger.participants && (#[trigger] next.ledger.entry(
            view,
        ).nullifies[signer]) is Some implies next.scheme.spec_verify(
        signer,
        spec_nullify_statement(next.ledger.entry(view).nullifies[signer].unwrap().round),
        next.ledger.entry(view).nullifies[signer].unwrap().vote.signature,
    ) by {
        assert(ledger.entry(view).nullifies == state.ledger.entry(view).nullifies);
        if next.ledger != ledger {
            if ledger.prunable(view, state.retention) {
                assert(next.ledger.entry(view).nullifies[signer] is None);
            } else {
                assert(next.ledger.entry(view) == ledger.entry(view));
            }
        }
        assert(state.ledger.entry(view).nullifies[signer] is Some);
    }
}

proof fn lemma_notarize_keeps_verified(state: MachineView, notarize: Notarize)
    requires
        state.wf(),
        votes_verify(state),
        state.scheme.spec_verify(
            notarize.vote.signer as int,
            spec_notarize_statement(notarize.proposal),
            notarize.vote.signature,
        ),
    ensures
        votes_verify(MachineView { ledger: state.ledger.record_notarize(notarize).0, ..state }),
{
    lemma_record_notarize(state.ledger, notarize);
    let (ledger, receipt) = state.ledger.record_notarize(notarize);
    let next = MachineView { ledger, ..state };
    let at = notarize.proposal.round.view.0;
    assert forall|view: u64, signer: int|
        0 <= signer < next.ledger.participants && (#[trigger] next.ledger.entry(
            view,
        ).notarizes[signer]) is Some implies next.scheme.spec_verify(
        signer,
        spec_notarize_statement(next.ledger.entry(view).notarizes[signer].unwrap().proposal),
        next.ledger.entry(view).notarizes[signer].unwrap().vote.signature,
    ) by {
        if view != at {
            assert(next.ledger.entry(view) == state.ledger.entry(view));
            assert(state.ledger.entry(view).notarizes[signer] is Some);
        } else if receipt.inserted && signer == notarize.vote.signer {
        } else {
            assert(state.ledger.entry(view).notarizes[signer] is Some);
        }
    }
    assert forall|view: u64, signer: int|
        0 <= signer < next.ledger.participants && (#[trigger] next.ledger.entry(
            view,
        ).nullifies[signer]) is Some implies next.scheme.spec_verify(
        signer,
        spec_nullify_statement(next.ledger.entry(view).nullifies[signer].unwrap().round),
        next.ledger.entry(view).nullifies[signer].unwrap().vote.signature,
    ) by {
        if view != at {
            assert(next.ledger.entry(view) == state.ledger.entry(view));
        }
        assert(state.ledger.entry(view).nullifies[signer] is Some);
    }
}

proof fn lemma_nullify_keeps_verified(state: MachineView, nullify: crate::types::Nullify)
    requires
        state.wf(),
        votes_verify(state),
        state.scheme.spec_verify(
            nullify.vote.signer as int,
            spec_nullify_statement(nullify.round),
            nullify.vote.signature,
        ),
    ensures
        votes_verify(MachineView { ledger: state.ledger.record_nullify(nullify).0, ..state }),
{
    lemma_record_nullify(state.ledger, nullify);
    let (ledger, receipt) = state.ledger.record_nullify(nullify);
    let next = MachineView { ledger, ..state };
    let at = nullify.round.view.0;
    assert forall|view: u64, signer: int|
        0 <= signer < next.ledger.participants && (#[trigger] next.ledger.entry(
            view,
        ).notarizes[signer]) is Some implies next.scheme.spec_verify(
        signer,
        spec_notarize_statement(next.ledger.entry(view).notarizes[signer].unwrap().proposal),
        next.ledger.entry(view).notarizes[signer].unwrap().vote.signature,
    ) by {
        if view != at {
            assert(next.ledger.entry(view) == state.ledger.entry(view));
        }
        assert(state.ledger.entry(view).notarizes[signer] is Some);
    }
    assert forall|view: u64, signer: int|
        0 <= signer < next.ledger.participants && (#[trigger] next.ledger.entry(
            view,
        ).nullifies[signer]) is Some implies next.scheme.spec_verify(
        signer,
        spec_nullify_statement(next.ledger.entry(view).nullifies[signer].unwrap().round),
        next.ledger.entry(view).nullifies[signer].unwrap().vote.signature,
    ) by {
        if view != at {
            assert(next.ledger.entry(view) == state.ledger.entry(view));
            assert(state.ledger.entry(view).nullifies[signer] is Some);
        } else if receipt.inserted && signer == nullify.vote.signer {
        } else {
            assert(state.ledger.entry(view).nullifies[signer] is Some);
        }
    }
}

/// A voter whose key signs for its own index records verified votes
/// alone, whatever reaches it: votes from the network are verified before
/// they are recorded.
pub proof fn lemma_votes_stay_verified(state: MachineView, event: EventView)
    requires
        state.wf(),
        votes_verify(state),
        signs_validly(state.scheme),
    ensures
        state.handle(event) matches Ok((next, actions)) ==> votes_verify(next),
{
    match event {
        EventView::Proposal(proposal) => {
            if state.votes_on(proposal) && state.scheme.spec_signer() is Some {
                let notarize = state.sign_notarize(proposal);
                lemma_after_recorded_notarize(state, notarize);
            }
        },
        EventView::Message { sender, message } => {
            match message {
                VoterView::Notarize(notarize) => {
                    if state.scheme.spec_verify(
                        notarize.vote.signer as int,
                        spec_notarize_statement(notarize.proposal),
                        notarize.vote.signature,
                    ) {
                        lemma_after_recorded_notarize(state, notarize);
                    }
                },
                VoterView::Nullify(nullify) => {
                    if state.scheme.spec_verify(
                        nullify.vote.signer as int,
                        spec_nullify_statement(nullify.round),
                        nullify.vote.signature,
                    ) {
                        lemma_after_recorded_nullify(state, nullify);
                    }
                },
                VoterView::Notarization(notarization) => {
                    lemma_conclude_keeps_verified(state, OutcomeView::Notarized(notarization));
                },
                VoterView::Nullification(nullification) => {
                    lemma_conclude_keeps_verified(state, OutcomeView::Nullified(nullification));
                },
            }
        },
        EventView::Malformed { sender } => {},
        EventView::LeaderTimeout(round) => {
            if state.ledger.accepts(state.current()) && state.scheme.spec_signer() is Some {
                lemma_after_recorded_nullify(state, state.sign_nullify(state.current()));
            }
        },
        EventView::NotarizationTimeout(round) => {
            if state.ledger.accepts(state.current()) && state.scheme.spec_signer() is Some {
                lemma_after_recorded_nullify(state, state.sign_nullify(state.current()));
            }
        },
    }
}

proof fn lemma_after_recorded_notarize(state: MachineView, notarize: Notarize)
    requires
        state.wf(),
        votes_verify(state),
        state.scheme.spec_verify(
            notarize.vote.signer as int,
            spec_notarize_statement(notarize.proposal),
            notarize.vote.signature,
        ),
    ensures
        ({
            let (ledger, receipt) = state.ledger.record_notarize(notarize);
            let recorded = MachineView { ledger, ..state };
            &&& recorded.wf()
            &&& votes_verify(recorded)
            &&& votes_verify(recorded.after_notarize(notarize.proposal, true).0)
            &&& votes_verify(recorded.after_notarize(notarize.proposal, false).0)
        }),
{
    lemma_record_notarize(state.ledger, notarize);
    lemma_notarize_keeps_verified(state, notarize);
    let (ledger, receipt) = state.ledger.record_notarize(notarize);
    let recorded = MachineView { ledger, ..state };
    lemma_conclude_keeps_verified(
        recorded,
        OutcomeView::Notarized(recorded.notarization(notarize.proposal)),
    );
}

proof fn lemma_after_recorded_nullify(state: MachineView, nullify: crate::types::Nullify)
    requires
        state.wf(),
        votes_verify(state),
        state.scheme.spec_verify(
            nullify.vote.signer as int,
            spec_nullify_statement(nullify.round),
            nullify.vote.signature,
        ),
    ensures
        ({
            let (ledger, receipt) = state.ledger.record_nullify(nullify);
            let recorded = MachineView { ledger, ..state };
            &&& recorded.wf()
            &&& votes_verify(recorded)
            &&& votes_verify(recorded.after_nullify(nullify.round, true).0)
            &&& votes_verify(recorded.after_nullify(nullify.round, false).0)
        }),
{
    lemma_record_nullify(state.ledger, nullify);
    lemma_nullify_keeps_verified(state, nullify);
    let (ledger, receipt) = state.ledger.record_nullify(nullify);
    let recorded = MachineView { ledger, ..state };
    lemma_conclude_keeps_verified(
        recorded,
        OutcomeView::Nullified(recorded.nullification(nullify.round)),
    );
}

/// The notarization that a voter forms from a quorum of recorded votes
/// verifies, if the recorded votes do.
pub proof fn lemma_formed_notarization_verifies(state: MachineView, proposal: Proposal)
    requires
        state.wf(),
        votes_verify(state),
        state.ledger.accepts(proposal.round),
        state.ledger.entry(proposal.round.view.0).notarize_count(proposal) >= state.ledger.quorum,
    ensures
        state.scheme.spec_verify_certificate(
            state.notarization(proposal).certificate,
            spec_notarize_statement(proposal),
        ),
{
    let entry = state.ledger.entry(proposal.round.view.0);
    let votes = entry.notarize_votes(proposal);
    lemma_notarize_votes(entry, proposal, state.ledger.participants);
    assert forall|i: int| 0 <= i < votes.len() implies state.scheme.spec_verify(
        #[trigger] votes[i].signer as int,
        spec_notarize_statement(proposal),
        votes[i].signature,
    ) by {
        let signer = votes[i].signer as int;
        assert(entry.notarizes[signer] == Some(Notarize { proposal, vote: votes[i] }));
    }
    lemma_assembled_certificate_verifies(state.scheme, votes, spec_notarize_statement(proposal));
}

/// The nullification that a voter forms from a quorum of recorded votes
/// verifies, if the recorded votes do.
pub proof fn lemma_formed_nullification_verifies(state: MachineView, round: Round)
    requires
        state.wf(),
        votes_verify(state),
        state.ledger.accepts(round),
        state.ledger.entry(round.view.0).nullify_count() >= state.ledger.quorum,
    ensures
        state.scheme.spec_verify_certificate(
            state.nullification(round).certificate,
            spec_nullify_statement(round),
        ),
{
    let entry = state.ledger.entry(round.view.0);
    let votes = entry.nullify_votes();
    lemma_nullify_votes(entry, state.ledger.participants);
    assert forall|i: int| 0 <= i < votes.len() implies state.scheme.spec_verify(
        #[trigger] votes[i].signer as int,
        spec_nullify_statement(round),
        votes[i].signature,
    ) by {
        let signer = votes[i].signer as int;
        assert(entry.nullifies[signer] is Some);
    }
    lemma_assembled_certificate_verifies(state.scheme, votes, spec_nullify_statement(round));
}

/// The verified vote with which the votes for a proposal of the current
/// round reach the quorum threshold notarizes the proposal: the voter
/// forms a notarization that verifies, broadcasts it, hands the payload to
/// the relay and the notarization to the reporter, and enters the next
/// round.
pub proof fn lemma_quorum_notarizes(state: MachineView, sender: u32, notarize: Notarize)
    requires
        state.wf(),
        votes_verify(state),
        notarize.proposal.round == state.current(),
        state.ledger.accepts(notarize.proposal.round),
        MachineView::well_formed(notarize.proposal),
        state.scheme.spec_verify(
            notarize.vote.signer as int,
            spec_notarize_statement(notarize.proposal),
            notarize.vote.signature,
        ),
        state.ledger.record_notarize(notarize).1.quorum,
    ensures
        ({
            let (next, actions) = state.receive_notarize(sender, notarize);
            let recorded = MachineView { ledger: state.ledger.record_notarize(notarize).0, ..state };
            let formed = recorded.notarization(notarize.proposal);
            let reported = MachineView::evidence_actions(
                state.ledger.record_notarize(notarize).1.evidence,
            );
            let at = reported.len() as int;
            &&& state.scheme.spec_verify_certificate(
                formed.certificate,
                spec_notarize_statement(notarize.proposal),
            )
            &&& next.ledger.current == state.ledger.current + 1
            &&& next.parent == state.current().view
            &&& actions.len() >= at + 4
            &&& actions[at] == ActionView::Broadcast(
                VoterView::Notarization(formed),
            )
            &&& actions[at + 1] == ActionView::Relay(notarize.proposal.payload)
            &&& actions[at + 2] == ActionView::Report(
                ActivityView::Notarization(formed),
            )
            &&& actions[at + 3] == ActionView::Enter(next.current())
        }),
{
    lemma_record_notarize(state.ledger, notarize);
    lemma_notarize_keeps_verified(state, notarize);
    let (ledger, receipt) = state.ledger.record_notarize(notarize);
    let recorded = MachineView { ledger, ..state };
    lemma_formed_notarization_verifies(recorded, notarize.proposal);
    let formed = recorded.notarization(notarize.proposal);
    lemma_close(ledger, OutcomeView::Notarized(formed));
}

/// Whether the action hands a notarization of the proposal to the
/// reporter.
pub open spec fn is_report_of(action: ActionView, proposal: Proposal) -> bool {
    action matches ActionView::Report(ActivityView::Notarization(formed)) && formed.proposal
        == proposal
}

/// Whether one of the actions hands a notarization of the proposal to the
/// reporter.
pub open spec fn reports_notarization(actions: Seq<ActionView>, proposal: Proposal) -> bool {
    exists|k: int| 0 <= k < actions.len() && is_report_of(#[trigger] actions[k], proposal)
}

/// What the vote that completes the quorum for a proposal of the current
/// round brings about: the voter forms a notarization, which verifies if
/// the recorded votes do, broadcasts it, hands the payload to the relay
/// and the notarization to the reporter, keeps it as the round's outcome,
/// knows the round's view as notarized, and enters the next round.
pub proof fn lemma_quorum_closes(recorded: MachineView, proposal: Proposal)
    requires
        recorded.wf(),
        proposal.round == recorded.current(),
        recorded.ledger.accepts(proposal.round),
        recorded.ledger.entry(proposal.round.view.0).notarize_count(proposal)
            == recorded.ledger.quorum,
    ensures
        ({
            let (next, actions) = recorded.after_notarize(proposal, true);
            let formed = recorded.notarization(proposal);
            &&& votes_verify(recorded) ==> votes_verify(next)
                && recorded.scheme.spec_verify_certificate(
                formed.certificate,
                spec_notarize_statement(proposal),
            )
            &&& follows(recorded, next)
            &&& reports_notarization(actions, proposal)
            &&& next.ledger.current == recorded.ledger.current + 1
            &&& next.parent == proposal.round.view
            &&& recorded.retention > 0 ==> next.ledger.entry(proposal.round.view.0).outcome == Some(
                OutcomeView::Notarized(formed),
            )
            &&& actions.len() >= 4
            &&& actions[0] == ActionView::Broadcast(VoterView::Notarization(formed))
            &&& actions[1] == ActionView::Relay(proposal.payload)
            &&& actions[2] == ActionView::Report(ActivityView::Notarization(formed))
            &&& actions[3] == ActionView::Enter(next.current())
        }),
{
    let formed = recorded.notarization(proposal);
    let outcome = OutcomeView::Notarized(formed);
    if votes_verify(recorded) {
        lemma_formed_notarization_verifies(recorded, proposal);
        lemma_conclude_keeps_verified(recorded, outcome);
    }
    lemma_after_notarize(recorded, proposal, true);
    lemma_close(recorded.ledger, outcome);
    lemma_prune(recorded.ledger.close(outcome).0, recorded.retention);
    let actions = recorded.after_notarize(proposal, true).1;
    assert(is_report_of(actions[2], proposal));
}

/// Whether the event brings the voter a vote for the proposal that its
/// ledger lacks: a notarize vote that verifies, of a signer with no
/// recorded vote in the round; or the proposal itself, on which the voter
/// votes with the key that it holds.
pub open spec fn brings_vote(state: MachineView, event: EventView, proposal: Proposal) -> bool {
    match event {
        EventView::Message { sender, message } => message matches VoterView::Notarize(notarize)
            && notarize.proposal == proposal && verifies(state, message) && state.ledger.entry(
            proposal.round.view.0,
        ).notarizes[notarize.vote.signer as int] is None,
        EventView::Proposal(proposed) => proposed == proposal && state.votes_on(proposal)
            && state.scheme.spec_signer() is Some,
        _ => false,
    }
}

/// An event that brings a vote for a proposal of the current round adds
/// one to the votes for it; and if that makes the quorum, the round is
/// notarized with the proposal, the notarization is reported, and the
/// voter enters the next round.
pub proof fn lemma_vote_counts(state: MachineView, event: EventView, proposal: Proposal)
    requires
        state.wf(),
        proposal.round == state.current(),
        state.ledger.accepts(proposal.round),
        brings_vote(state, event, proposal),
        state.ledger.entry(proposal.round.view.0).notarize_count(proposal) < state.ledger.quorum,
    ensures
        state.handle(event) is Ok,
        ({
            let (next, actions) = state.handle(event).unwrap();
            let view = proposal.round.view.0;
            let count = state.ledger.entry(view).notarize_count(proposal);
            &&& follows(state, next)
            &&& votes_verify(state) && signs_validly(state.scheme) ==> votes_verify(next)
            &&& if count + 1 == state.ledger.quorum {
                &&& reports_notarization(actions, proposal)
                &&& next.ledger.current == state.ledger.current + 1
                &&& next.parent == proposal.round.view
                &&& state.retention > 0 ==> next.ledger.entry(view).outcome is Some
                    && next.ledger.entry(view).outcome.unwrap().proposal() == Some(proposal)
            } else {
                &&& next.ledger.current == state.ledger.current
                &&& next.ledger.entry(view).notarize_count(proposal) == count + 1
            }
        }),
{
    let view = proposal.round.view.0;
    let notarize = match event {
        EventView::Message { sender, message } => message->Notarize_0,
        _ => state.sign_notarize(proposal),
    };
    if state.ledger.rounds.dom().contains(view) {
    }
    lemma_record_notarize(state.ledger, notarize);
    if votes_verify(state) && signs_validly(state.scheme) {
        assert(state.scheme.spec_verify(
            notarize.vote.signer as int,
            spec_notarize_statement(proposal),
            notarize.vote.signature,
        ));
        lemma_notarize_keeps_verified(state, notarize);
    }
    let (ledger, receipt) = state.ledger.record_notarize(notarize);
    let recorded = MachineView { ledger, ..state };
    assert(receipt.inserted);
    lemma_inserted_vote_counts(
        state.ledger.entry(view),
        notarize,
        state.ledger.is_closed(view),
        state.ledger.quorum,
    );
    assert(!state.ledger.is_closed(view));
    assert(follows(state, recorded));
    if receipt.quorum {
        lemma_quorum_closes(recorded, proposal);
        let (next, closing) = recorded.after_notarize(proposal, true);
        assert(follows(state, next));
        let actions = state.handle(event).unwrap().1;
        let k = choose|k: int| 0 <= k < closing.len() && is_report_of(#[trigger] closing[k], proposal);
        let ahead = actions.len() - closing.len();
        assert(actions[k + ahead] == closing[k]);
    }
}

/// The driver after it was woken time after time, each time by an event.
pub open spec fn drive(driver: DriverView, steps: Seq<(u64, EventView)>) -> DriverView
    decreases steps.len(),
{
    if steps.len() == 0 {
        driver
    } else {
        drive(driver, steps.drop_last()).step(steps.last().0, Some(steps.last().1))
    }
}

/// The time that passes over all the steps.
pub open spec fn total(steps: Seq<(u64, EventView)>) -> int
    decreases steps.len(),
{
    if steps.len() == 0 {
        0
    } else {
        total(steps.drop_last()) + steps.last().0
    }
}

/// Whether each step brings the voter, as it then stands, a vote for the
/// proposal.
pub open spec fn all_bring_votes(
    driver: DriverView,
    steps: Seq<(u64, EventView)>,
    proposal: Proposal,
) -> bool {
    forall|j: int|
        0 <= j < steps.len() ==> brings_vote(
            drive(driver, steps.take(j)).machine,
            (#[trigger] steps[j]).1,
            proposal,
        )
}

proof fn lemma_total_prefix(steps: Seq<(u64, EventView)>, j: int)
    requires
        0 <= j <= steps.len(),
    ensures
        0 <= total(steps.take(j)) <= total(steps),
        j < steps.len() ==> total(steps.take(j + 1)) == total(steps.take(j)) + steps[j].0,
    decreases steps.len() - j,
{
    if j == steps.len() {
        assert(steps.take(j) == steps);
        lemma_total_nonnegative(steps);
    } else {
        assert(steps.take(j + 1).drop_last() == steps.take(j));
        lemma_total_prefix(steps, j + 1);
        lemma_total_nonnegative(steps.take(j));
    }
}

proof fn lemma_total_nonnegative(steps: Seq<(u64, EventView)>)
    ensures
        0 <= total(steps),
    decreases steps.len(),
{
    if steps.len() > 0 {
        lemma_total_nonnegative(steps.drop_last());
    }
}

/// A driver that is woken before either timer runs out, by an event that
/// brings a vote, gives no timeout: the voter handles the event alone,
/// and the timers have that much less left unless a round was entered.
proof fn lemma_timely_step(before: DriverView, passed: u64, event: EventView, proposal: Proposal)
    requires
        before.wf(),
        proposal.round == before.machine.current(),
        before.machine.ledger.accepts(proposal.round),
        before.timers.leader is Some,
        before.timers.notarization is Some,
        passed < before.timers.leader.unwrap(),
        passed < before.timers.notarization.unwrap(),
        brings_vote(before.machine, event, proposal),
        before.machine.ledger.entry(proposal.round.view.0).notarize_count(proposal)
            < before.machine.ledger.quorum,
    ensures
        before.machine.handle(event) is Ok,
        ({
            let after = before.step(passed, Some(event));
            let next = before.machine.handle(event).unwrap().0;
            &&& after.machine == next
            &&& before.course(passed, Some(event)).2 is None
            &&& before.course(passed, Some(event)).1 == before.machine.handle(event).unwrap().1
            &&& after.wf()
            &&& after.timers.leader_timeout == before.timers.leader_timeout
            &&& after.timers.notarization_timeout == before.timers.notarization_timeout
            &&& next.ledger.current == before.machine.ledger.current ==> {
                &&& after.timers.leader == Some((before.timers.leader.unwrap() - passed) as u64)
                &&& after.timers.notarization == Some(
                    (before.timers.notarization.unwrap() - passed) as u64,
                )
            }
            &&& next.ledger.current != before.machine.ledger.current ==> after.timers == started(
                before.timers.leader_timeout,
                before.timers.notarization_timeout,
                next.current(),
            )
        }),
{
    lemma_vote_counts(before.machine, event, proposal);
    assert(before.leader_timeout(passed) is None);
    assert(before.notarization_timeout(passed) is None);
    assert(before.course(passed, Some(event)).1 =~= before.machine.handle(event).unwrap().1);
}

/// Whether the driver `reached` is where `votes` more votes for the
/// proposal and `elapsed` milliseconds lead from `driver`, short of the
/// quorum and of both timeouts: the voter is in the same round, and the
/// timers have that much less left.
#[verifier::opaque]
pub open spec fn on_course(
    driver: DriverView,
    reached: DriverView,
    proposal: Proposal,
    votes: int,
    elapsed: int,
) -> bool {
    let view = proposal.round.view.0;
    &&& reached.wf()
    &&& follows(driver.machine, reached.machine)
    &&& reached.machine.ledger.current == driver.machine.ledger.current
    &&& reached.machine.ledger.entry(view).notarize_count(proposal)
        == driver.machine.ledger.entry(view).notarize_count(proposal) + votes
    &&& reached.timers.leader_timeout == driver.timers.leader_timeout
    &&& reached.timers.notarization_timeout == driver.timers.notarization_timeout
    &&& reached.timers.leader is Some
    &&& reached.timers.notarization is Some
    &&& driver.timers.leader is Some
    &&& driver.timers.notarization is Some
    &&& reached.timers.leader.unwrap() == driver.timers.leader.unwrap() - elapsed
    &&& reached.timers.notarization.unwrap() == driver.timers.notarization.unwrap() - elapsed
}

proof fn lemma_stays_on_course(
    driver: DriverView,
    before: DriverView,
    passed: u64,
    event: EventView,
    proposal: Proposal,
    votes: int,
    elapsed: int,
)
    requires
        driver.machine.wf(),
        proposal.round == driver.machine.current(),
        driver.machine.ledger.accepts(proposal.round),
        on_course(driver, before, proposal, votes, elapsed),
        brings_vote(before.machine, event, proposal),
        driver.machine.ledger.entry(proposal.round.view.0).notarize_count(proposal) + votes + 1
            < driver.machine.ledger.quorum,
        driver.timers.leader is Some ==> elapsed + passed < driver.timers.leader.unwrap(),
        driver.timers.notarization is Some ==> elapsed + passed
            < driver.timers.notarization.unwrap(),
        elapsed >= 0,
    ensures
        on_course(driver, before.step(passed, Some(event)), proposal, votes + 1, elapsed + passed),
{
    reveal(on_course);
    lemma_timely_step(before, passed, event, proposal);
    lemma_vote_counts(before.machine, event, proposal);
    let next = before.machine.handle(event).unwrap().0;
    lemma_follows_twice(driver.machine, before.machine, next);
}

/// Where the first `j` of the steps lead, while the quorum is not reached.
proof fn lemma_timely_prefix(
    driver: DriverView,
    steps: Seq<(u64, EventView)>,
    proposal: Proposal,
    j: int,
)
    requires
        driver.wf(),
        proposal.round == driver.machine.current(),
        driver.machine.ledger.accepts(proposal.round),
        driver.timers.leader is Some,
        driver.timers.notarization is Some,
        total(steps) < driver.timers.leader.unwrap(),
        total(steps) < driver.timers.notarization.unwrap(),
        all_bring_votes(driver, steps, proposal),
        0 <= j < steps.len(),
        driver.machine.ledger.entry(proposal.round.view.0).notarize_count(proposal) + steps.len()
            == driver.machine.ledger.quorum,
    ensures
        on_course(driver, drive(driver, steps.take(j)), proposal, j, total(steps.take(j))),
    decreases j,
{
    lemma_total_prefix(steps, j);
    if j == 0 {
        assert(steps.take(0).len() == 0);
        lemma_starts_on_course(driver, proposal);
    } else {
        lemma_timely_prefix(driver, steps, proposal, j - 1);
        lemma_total_prefix(steps, j - 1);
        assert(steps.take(j).drop_last() == steps.take(j - 1));
        assert(steps.take(j).last() == steps[j - 1]);
        let before = drive(driver, steps.take(j - 1));
        assert(brings_vote(before.machine, steps[j - 1].1, proposal));
        lemma_stays_on_course(
            driver,
            before,
            steps[j - 1].0,
            steps[j - 1].1,
            proposal,
            j - 1,
            total(steps.take(j - 1)),
        );
    }
}

proof fn lemma_starts_on_course(driver: DriverView, proposal: Proposal)
    requires
        driver.wf(),
        driver.timers.leader is Some,
        driver.timers.notarization is Some,
    ensures
        on_course(driver, driver, proposal, 0, 0),
{
    reveal(on_course);
    assert(crate::ledger::keeps_votes(
        driver.machine.ledger,
        driver.machine.ledger,
        driver.machine.ledger.current,
    ));
}

proof fn lemma_follows_twice(first: MachineView, second: MachineView, third: MachineView)
    requires
        first.wf(),
        follows(first, second),
        follows(second, third),
        second.ledger.current == first.ledger.current,
    ensures
        follows(first, third),
{
    if third.ledger.current == first.ledger.current {
        let view = first.ledger.current;
        assert forall|signer: int|
            0 <= signer < first.ledger.participants && (#[trigger] first.ledger.entry(
                view,
            ).notarizes[signer]) is Some implies third.ledger.entry(view).notarizes[signer]
            == first.ledger.entry(view).notarizes[signer] by {
            assert(second.ledger.entry(view).notarizes[signer] is Some);
        }
        assert forall|signer: int|
            0 <= signer < first.ledger.participants && (#[trigger] first.ledger.entry(
                view,
            ).nullifies[signer]) is Some implies third.ledger.entry(view).nullifies[signer]
            == first.ledger.entry(view).nullifies[signer] by {
            assert(second.ledger.entry(view).nullifies[signer] is Some);
        }
    }
}

/// A round is notarized in time: if, from the moment a voter enters a
/// round, the votes that its ledger lacks for a quorum on a proposal of
/// the round all reach it, verified, before the leader timer and the
/// notarization timer would run out, then no timeout is given in the
/// round, the voter forms the notarization of the proposal and hands it
/// to the reporter with the last of them, knows the round's view as
/// notarized, is in the next round, and both timers have started anew.
/// The ledger holds the notarization as the round's outcome for as long
/// as the retention lets it: with none, it is forgotten as soon as it is
/// reported.
pub proof fn lemma_timely_votes_notarize(
    driver: DriverView,
    steps: Seq<(u64, EventView)>,
    proposal: Proposal,
)
    requires
        driver.wf(),
        proposal.round == driver.machine.current(),
        driver.machine.ledger.accepts(proposal.round),
        driver.timers.leader is Some,
        driver.timers.notarization is Some,
        total(steps) < driver.timers.leader.unwrap(),
        total(steps) < driver.timers.notarization.unwrap(),
        all_bring_votes(driver, steps, proposal),
        steps.len() >= 1,
        driver.machine.ledger.entry(proposal.round.view.0).notarize_count(proposal) + steps.len()
            == driver.machine.ledger.quorum,
    ensures
        ({
            let end = drive(driver, steps);
            let view = proposal.round.view.0;
            let before = drive(driver, steps.drop_last());
            let closing = before.course(steps.last().0, Some(steps.last().1));
            &&& end.wf()
            &&& closing.2 is None
            &&& reports_notarization(closing.1, proposal)
            &&& end.machine.ledger.current == view + 1
            &&& end.machine.parent == proposal.round.view
            &&& driver.machine.retention > 0 ==> end.machine.ledger.entry(view).outcome is Some
                && end.machine.ledger.entry(view).outcome.unwrap().proposal() == Some(proposal)
            &&& end.timers == started(
                driver.timers.leader_timeout,
                driver.timers.notarization_timeout,
                end.machine.current(),
            )
        }),
{
    let last = steps.len() - 1;
    lemma_timely_prefix(driver, steps, proposal, last);
    reveal(on_course);
    lemma_total_prefix(steps, last);
    assert(steps.take(last + 1) == steps);
    assert(steps.drop_last() == steps.take(last));
    let before = drive(driver, steps.take(last));
    let (passed, event) = steps[last];
    assert(brings_vote(before.machine, steps[last].1, proposal));
    assert(drive(driver, steps) == before.step(passed, Some(event)));
    lemma_timely_step(before, passed, event, proposal);
    lemma_vote_counts(before.machine, event, proposal);
}

} // verus!
