use crate::entry::{lemma_inserted_vote_counts, EntryView};
use crate::evidence::OutcomeView;
use crate::ledger::{lemma_close, lemma_notarize_order, lemma_prune, lemma_record_notarize};
use crate::types::{Notarize, VoterView};
use crate::voter::MachineView;
use vstd::prelude::*;

verus! {

/// The votes for a proposal are as many after a vote for another proposal
/// or another round has been recorded as before.
proof fn lemma_other_vote_counts_not(state: MachineView, other: Notarize, counted: Notarize)
    requires
        state.wf(),
        other.proposal != counted.proposal,
    ensures
        ({
            let after = state.ledger.record_notarize(other).0;
            let view = counted.proposal.round.view.0;
            after.entry(view).notarize_count(counted.proposal) == state.ledger.entry(
                view,
            ).notarize_count(counted.proposal)
        }),
{
    lemma_record_notarize(state.ledger, other);
    let after = state.ledger.record_notarize(other).0;
    let view = counted.proposal.round.view.0;
    if state.ledger.rounds.dom().contains(other.proposal.round.view.0) {
    }
    assert(after.entry(view).notarize_flags(counted.proposal) =~= state.ledger.entry(
        view,
    ).notarize_flags(counted.proposal));
}

/// A vote reaches the quorum after a vote of another signer for another
/// proposal was recorded exactly if it reaches it before.
proof fn lemma_other_vote_decides_not(state: MachineView, other: Notarize, counted: Notarize)
    requires
        state.wf(),
        other.proposal != counted.proposal,
        other.vote.signer != counted.vote.signer,
    ensures
        state.ledger.record_notarize(other).0.record_notarize(counted).1.quorum
            == state.ledger.record_notarize(counted).1.quorum,
{
    lemma_record_notarize(state.ledger, other);
    lemma_other_vote_counts_not(state, other, counted);
    let after = state.ledger.record_notarize(other).0;
    let view = counted.proposal.round.view.0;
    let signer = counted.vote.signer as int;
    if state.ledger.rounds.dom().contains(other.proposal.round.view.0) {
    }
    if state.ledger.rounds.dom().contains(view) {
    }
    if state.ledger.accepts(counted.proposal.round) {
        if signer < state.ledger.participants {
            assert(after.entry(view).notarizes[signer] == state.ledger.entry(
                view,
            ).notarizes[signer]);
        }
        assert(after.entry(view).round == state.ledger.entry(view).round);
        assert(after.is_closed(view) == state.ledger.is_closed(view));
        if state.ledger.record_notarize(counted).1.inserted {
            lemma_inserted_vote_counts(
                state.ledger.entry(view),
                counted,
                state.ledger.is_closed(view),
                state.ledger.quorum,
            );
        }
        if after.record_notarize(counted).1.inserted {
            lemma_inserted_vote_counts(
                after.entry(view),
                counted,
                after.is_closed(view),
                after.quorum,
            );
        }
    }
}

/// The order in which the notarize votes of two signers reach the voter
/// does not matter to where it stands, as long as neither of them alone
/// completes a quorum: the voter is in the same round and holds the same
/// votes and outcomes after both, and where the two together complete a
/// quorum, the certificate is the same.
pub proof fn lemma_notarize_votes_commute(
    state: MachineView,
    first_sender: u32,
    first: Notarize,
    second_sender: u32,
    second: Notarize,
)
    requires
        state.wf(),
        first.vote.signer != second.vote.signer,
        !state.ledger.record_notarize(first).1.quorum,
        !state.ledger.record_notarize(second).1.quorum,
    ensures
        state.receive_notarize(first_sender, first).0.receive_notarize(second_sender, second).0
            == state.receive_notarize(second_sender, second).0.receive_notarize(
            first_sender,
            first,
        ).0,
{
    let taken_first = state.verifies(VoterView::Notarize(first)) && state.attends(
        first.proposal.round,
    );
    let taken_second = state.verifies(VoterView::Notarize(second)) && state.attends(
        second.proposal.round,
    );
    lemma_record_notarize(state.ledger, first);
    lemma_record_notarize(state.ledger, second);
    let one = MachineView { ledger: state.ledger.record_notarize(first).0, ..state };
    let other = MachineView { ledger: state.ledger.record_notarize(second).0, ..state };
    if state.ledger.rounds.dom().contains(first.proposal.round.view.0) {
    }
    if state.ledger.rounds.dom().contains(second.proposal.round.view.0) {
    }
    if taken_first && taken_second {
        assert(state.receive_notarize(first_sender, first).0 == one);
        assert(state.receive_notarize(second_sender, second).0 == other);
        lemma_record_notarize(one.ledger, second);
        lemma_record_notarize(other.ledger, first);
        lemma_notarize_order(state.ledger, first, second);
        assert(one.attends(second.proposal.round));
        assert(other.attends(first.proposal.round));
        if first.proposal != second.proposal {
            lemma_other_vote_decides_not(state, first, second);
            lemma_other_vote_decides_not(state, second, first);
            assert(!one.ledger.record_notarize(second).1.quorum);
            assert(!other.ledger.record_notarize(first).1.quorum);
        } else {
            let (left, left_receipt) = one.ledger.record_notarize(second);
            let (right, right_receipt) = other.ledger.record_notarize(first);
            assert(left == right);
            if left_receipt.inserted && !state.ledger.record_notarize(first).1.inserted {
                assert(one == state);
            }
            if right_receipt.inserted && !state.ledger.record_notarize(second).1.inserted {
                assert(other == state);
            }
            assert(left_receipt.quorum == right_receipt.quorum);
        }
    } else if taken_first {
        assert(state.receive_notarize(second_sender, second).0 == state);
        assert(state.receive_notarize(first_sender, first).0 == one);
        assert(!one.attends(second.proposal.round) || !one.verifies(VoterView::Notarize(second)));
    } else if taken_second {
        assert(state.receive_notarize(first_sender, first).0 == state);
        assert(state.receive_notarize(second_sender, second).0 == other);
        assert(!other.attends(first.proposal.round) || !other.verifies(VoterView::Notarize(first)));
    }
}

/// What a round holds after the vote that completed the quorum for a
/// proposal and a later vote for it: both votes beside those that were
/// there, and the proposal's notarization as its outcome; or nothing, if
/// the voter retains no round that is over.
pub open spec fn held_after(
    state: MachineView,
    completing: Notarize,
    late: Notarize,
    reached: MachineView,
) -> bool {
    let view = completing.proposal.round.view.0;
    let before = state.ledger.entry(view);
    let after = reached.ledger.entry(view);
    &&& reached.ledger.current == view + 1
    &&& reached.parent == completing.proposal.round.view
    &&& if state.retention > 0 {
        &&& after.notarizes == before.notarizes.update(
            completing.vote.signer as int,
            Some(completing),
        ).update(late.vote.signer as int, Some(late))
        &&& after.nullifies == before.nullifies
        &&& after.outcome is Some
        &&& after.outcome.unwrap().proposal() == Some(completing.proposal)
    } else {
        after == EntryView::empty(completing.proposal.round, state.ledger.participants)
    }
}

proof fn lemma_completing_then_late(
    state: MachineView,
    completing_sender: u32,
    completing: Notarize,
    late_sender: u32,
    late: Notarize,
)
    requires
        state.wf(),
        completing.proposal == late.proposal,
        completing.proposal.round == state.current(),
        state.ledger.accepts(completing.proposal.round),
        completing.vote.signer != late.vote.signer,
        state.verifies(VoterView::Notarize(completing)),
        state.verifies(VoterView::Notarize(late)),
        state.ledger.entry(completing.proposal.round.view.0).notarizes[completing.vote.signer as int]
            is None,
        state.ledger.entry(completing.proposal.round.view.0).notarizes[late.vote.signer as int]
            is None,
        state.ledger.entry(completing.proposal.round.view.0).notarize_count(completing.proposal)
            + 1 == state.ledger.quorum,
    ensures
        held_after(
            state,
            completing,
            late,
            state.receive_notarize(completing_sender, completing).0.receive_notarize(
                late_sender,
                late,
            ).0,
        ),
{
    let proposal = completing.proposal;
    let view = proposal.round.view.0;
    if state.ledger.rounds.dom().contains(view) {
    }
    lemma_record_notarize(state.ledger, completing);
    lemma_inserted_vote_counts(
        state.ledger.entry(view),
        completing,
        state.ledger.is_closed(view),
        state.ledger.quorum,
    );
    let (ledger, receipt) = state.ledger.record_notarize(completing);
    assert(receipt.quorum);
    let recorded = MachineView { ledger, ..state };
    let outcome = OutcomeView::Notarized(recorded.notarization(proposal));
    lemma_close(ledger, outcome);
    let closed = ledger.close(outcome).0;
    lemma_prune(closed, state.retention);
    let middle = state.receive_notarize(completing_sender, completing).0;
    assert(middle == recorded.conclude(outcome).0);
    assert(middle.ledger == closed.prune(state.retention));
    assert(middle.wf()) by {
        crate::trace::lemma_conclude(recorded, outcome);
    }
    if state.retention > 0 {
        assert(!closed.prunable(view, state.retention));
        assert(middle.ledger.rounds.dom().contains(view));
        assert(middle.attends(late.proposal.round));
        lemma_record_notarize(middle.ledger, late);
        let (last, late_receipt) = middle.ledger.record_notarize(late);
        assert(late_receipt.inserted);
        assert(!late_receipt.quorum);
    } else {
        assert(closed.prunable(view, state.retention));
        assert(!middle.ledger.rounds.dom().contains(view));
        assert(!middle.attends(late.proposal.round));
    }
}

/// Whichever of two notarize votes for a proposal of the current round
/// arrives first, where one more vote completes the quorum: the voter
/// leaves the round with the proposal notarized, holds the same votes of
/// the round, and is in the next round. The certificate is made of the
/// votes that were there when the quorum was complete, so that it names
/// the signer of the vote that came first and not the other.
pub proof fn lemma_completing_votes_decide_alike(
    state: MachineView,
    first_sender: u32,
    first: Notarize,
    second_sender: u32,
    second: Notarize,
)
    requires
        state.wf(),
        first.proposal == second.proposal,
        first.proposal.round == state.current(),
        state.ledger.accepts(first.proposal.round),
        first.vote.signer != second.vote.signer,
        state.verifies(VoterView::Notarize(first)),
        state.verifies(VoterView::Notarize(second)),
        state.ledger.entry(first.proposal.round.view.0).notarizes[first.vote.signer as int]
            is None,
        state.ledger.entry(first.proposal.round.view.0).notarizes[second.vote.signer as int]
            is None,
        state.ledger.entry(first.proposal.round.view.0).notarize_count(first.proposal) + 1
            == state.ledger.quorum,
    ensures
        ({
            let view = first.proposal.round.view.0;
            let one = state.receive_notarize(first_sender, first).0.receive_notarize(
                second_sender,
                second,
            ).0;
            let other = state.receive_notarize(second_sender, second).0.receive_notarize(
                first_sender,
                first,
            ).0;
            &&& one.ledger.current == other.ledger.current
            &&& one.parent == other.parent
            &&& one.ledger.entry(view).notarizes == other.ledger.entry(view).notarizes
            &&& one.ledger.entry(view).nullifies == other.ledger.entry(view).nullifies
            &&& one.ledger.entry(view).outcome is Some <==> other.ledger.entry(view).outcome
                is Some
            &&& one.ledger.entry(view).outcome is Some ==> one.ledger.entry(
                view,
            ).outcome.unwrap().agrees(other.ledger.entry(view).outcome.unwrap())
        }),
{
    lemma_completing_then_late(state, first_sender, first, second_sender, second);
    lemma_completing_then_late(state, second_sender, second, first_sender, first);
    let view = first.proposal.round.view.0;
    let before = state.ledger.entry(view).notarizes;
    let a = first.vote.signer as int;
    let b = second.vote.signer as int;
    assert(before.update(a, Some(first)).update(b, Some(second)) =~= before.update(
        b,
        Some(second),
    ).update(a, Some(first)));
    let one = state.receive_notarize(first_sender, first).0.receive_notarize(
        second_sender,
        second,
    ).0;
    let other = state.receive_notarize(second_sender, second).0.receive_notarize(
        first_sender,
        first,
    ).0;
    if state.retention > 0 {
        let left = one.ledger.entry(view).outcome.unwrap();
        let right = other.ledger.entry(view).outcome.unwrap();
        assert(one.wf() && other.wf()) by {
            crate::trace::lemma_receive(state, first_sender, VoterView::Notarize(first));
            crate::trace::lemma_receive(state, second_sender, VoterView::Notarize(second));
            crate::trace::lemma_receive(
                state.receive_notarize(first_sender, first).0,
                second_sender,
                VoterView::Notarize(second),
            );
            crate::trace::lemma_receive(
                state.receive_notarize(second_sender, second).0,
                first_sender,
                VoterView::Notarize(first),
            );
        }
        assert(one.ledger.rounds.dom().contains(view));
        assert(other.ledger.rounds.dom().contains(view));
        assert(left.round() == right.round());
    }
}

} // verus!
