use crate::evidence::OutcomeView;
use crate::ledger::{
    keeps_votes, lemma_close, lemma_prune, lemma_record_notarize, lemma_record_nullify,
    same_setting,
};
use crate::types::{Notarize, Nullify, Proposal, Round, VoterView};
use crate::voter::{ActionView, EventView, Fault, MachineView, Step};
use vstd::prelude::*;

verus! {

/// Whether an action broadcasts a vote of the voter's own.
pub open spec fn is_vote(action: ActionView) -> bool {
    action matches ActionView::Broadcast(message) && (message is Notarize || message is Nullify)
}

/// Whether none of the actions broadcasts a vote.
pub open spec fn casts_no_vote(actions: Seq<ActionView>) -> bool {
    forall|k: int| 0 <= k < actions.len() ==> !is_vote(#[trigger] actions[k])
}

/// Whether `after` is a later state of the voter in the state `before`: it
/// is well formed, of the same scheme and setting, in the same round or a
/// later one, and, while in the same round, it holds every vote recorded
/// for that round.
pub open spec fn follows(before: MachineView, after: MachineView) -> bool {
    &&& after.wf()
    &&& after.scheme == before.scheme
    &&& after.retention == before.retention
    &&& same_setting(before.ledger, after.ledger)
    &&& after.ledger.current >= before.ledger.current
    &&& after.ledger.current == before.ledger.current ==> keeps_votes(
        before.ledger,
        after.ledger,
        before.ledger.current,
    )
}

proof fn lemma_follows_chain(first: MachineView, second: MachineView, third: MachineView)
    requires
        first.wf(),
        follows(first, second),
        follows(second, third),
    ensures
        follows(first, third),
{
    if third.ledger.current == first.ledger.current {
        let view = first.ledger.current;
        assert forall|signer: int|
            0 <= signer < first.ledger.participants && (#[trigger] first.ledger.entry(
                view,
            ).notarizes[signer]) is Some implies third.ledger.entry(view).notarizes[signer]
            == first.ledger.entry(view).notarizes[signer] by {
            assert(second.ledger.entry(view).notarizes[signer] is Some);
        }
        assert forall|signer: int|
            0 <= signer < first.ledger.participants && (#[trigger] first.ledger.entry(
                view,
            ).nullifies[signer]) is Some implies third.ledger.entry(view).nullifies[signer]
            == first.ledger.entry(view).nullifies[signer] by {
            assert(second.ledger.entry(view).nullifies[signer] is Some);
        }
    }
}

/// To close a round leads to a later state and casts no vote.
pub proof fn lemma_conclude(state: MachineView, outcome: OutcomeView)
    requires
        state.wf(),
    ensures
        follows(state, state.conclude(outcome).0),
        casts_no_vote(state.conclude(outcome).1),
{
    lemma_close(state.ledger, outcome);
    let (ledger, closure) = state.ledger.close(outcome);
    lemma_prune(ledger, state.retention);
    let (next, actions) = state.conclude(outcome);
    assert(keeps_votes(state.ledger, ledger, state.ledger.current));
    assert forall|k: int| 0 <= k < actions.len() implies !is_vote(#[trigger] actions[k]) by {
        if closure is Closed {
            let reported = MachineView::outcome_actions(outcome);
            if k < reported.len() {
                assert(actions[k] == reported[k]);
            } else if ledger.current != state.ledger.current {
                assert(actions[k] == next.enter_actions()[k - reported.len()]);
            }
        }
    }
}

/// What follows a recorded notarize vote leads to a later state and casts
/// no vote.
pub proof fn lemma_after_notarize(state: MachineView, proposal: Proposal, quorum: bool)
    requires
        state.wf(),
    ensures
        follows(state, state.after_notarize(proposal, quorum).0),
        casts_no_vote(state.after_notarize(proposal, quorum).1),
{
    if quorum {
        let outcome = OutcomeView::Notarized(state.notarization(proposal));
        lemma_conclude(state, outcome);
        let actions = state.after_notarize(proposal, quorum).1;
        let closing = state.conclude(outcome).1;
        assert forall|k: int| 0 <= k < actions.len() implies !is_vote(#[trigger] actions[k]) by {
            if k > 0 {
                assert(actions[k] == closing[k - 1]);
            }
        }
    }
}

/// What follows a recorded nullify vote leads to a later state and casts
/// no vote.
pub proof fn lemma_after_nullify(state: MachineView, round: Round, quorum: bool)
    requires
        state.wf(),
    ensures
        follows(state, state.after_nullify(round, quorum).0),
        casts_no_vote(state.after_nullify(round, quorum).1),
{
    if quorum {
        let outcome = OutcomeView::Nullified(state.nullification(round));
        lemma_conclude(state, outcome);
        let actions = state.after_nullify(round, quorum).1;
        let closing = state.conclude(outcome).1;
        assert forall|k: int| 0 <= k < actions.len() implies !is_vote(#[trigger] actions[k]) by {
            if k > 0 {
                assert(actions[k] == closing[k - 1]);
            }
        }
    }
}

proof fn lemma_joined_cast_no_vote(first: Seq<ActionView>, second: Seq<ActionView>)
    requires
        casts_no_vote(first),
        casts_no_vote(second),
    ensures
        casts_no_vote(first + second),
{
    let all = first + second;
    assert forall|k: int| 0 <= k < all.len() implies !is_vote(#[trigger] all[k]) by {
        if k < first.len() {
            assert(all[k] == first[k]);
        } else {
            assert(all[k] == second[k - first.len()]);
        }
    }
}

/// To receive a message leads to a later state and casts no vote: the voter
/// votes on proposals and timeouts alone.
pub proof fn lemma_receive(state: MachineView, sender: u32, message: VoterView)
    requires
        state.wf(),
    ensures
        follows(state, state.receive(sender, message).0),
        casts_no_vote(state.receive(sender, message).1),
{
    match message {
        VoterView::Notarize(notarize) => {
            lemma_record_notarize(state.ledger, notarize);
            let (ledger, receipt) = state.ledger.record_notarize(notarize);
            let recorded = MachineView { ledger, ..state };
            let reported = MachineView::evidence_actions(receipt.evidence);
            assert(casts_no_vote(reported));
            assert(follows(state, recorded));
            lemma_after_notarize(recorded, notarize.proposal, true);
            lemma_follows_chain(state, recorded, recorded.after_notarize(notarize.proposal, true).0);
            lemma_joined_cast_no_vote(
                reported,
                recorded.after_notarize(notarize.proposal, true).1,
            );
            lemma_joined_cast_no_vote(reported, seq![ActionView::Verify(notarize.proposal)]);
            assert(reported.push(ActionView::Verify(notarize.proposal)) =~= reported + seq![
                ActionView::Verify(notarize.proposal),
            ]);
        },
        VoterView::Nullify(nullify) => {
            lemma_record_nullify(state.ledger, nullify);
            let (ledger, receipt) = state.ledger.record_nullify(nullify);
            let recorded = MachineView { ledger, ..state };
            let reported = MachineView::evidence_actions(receipt.evidence);
            assert(casts_no_vote(reported));
            assert(follows(state, recorded));
            lemma_after_nullify(recorded, nullify.round, receipt.quorum);
            lemma_follows_chain(
                state,
                recorded,
                recorded.after_nullify(nullify.round, receipt.quorum).0,
            );
            lemma_joined_cast_no_vote(
                reported,
                recorded.after_nullify(nullify.round, receipt.quorum).1,
            );
        },
        VoterView::Notarization(notarization) => {
            lemma_conclude(state, OutcomeView::Notarized(notarization));
        },
        VoterView::Nullification(nullification) => {
            lemma_conclude(state, OutcomeView::Nullified(nullification));
        },
    }
}

/// Whether a step cast exactly the vote `message`, as its first action,
/// and no other.
pub open spec fn casts_only(actions: Seq<ActionView>, message: VoterView) -> bool {
    &&& actions.len() > 0
    &&& actions[0] == ActionView::Broadcast(message)
    &&& casts_no_vote(actions.subrange(1, actions.len() as int))
}

/// A proposal on which the voter votes has it cast exactly one notarize
/// vote, its own for that proposal in the current round, which it cast
/// when it had cast no vote in the round; afterwards the vote is recorded,
/// or the round is over. A proposal on which it does not vote changes
/// nothing.
pub proof fn lemma_propose(state: MachineView, proposal: Proposal)
    requires
        state.wf(),
    ensures
        match state.propose(proposal) {
            Ok((next, actions)) => {
                &&& follows(state, next)
                &&& if state.votes_on(proposal) {
                    &&& casts_only(actions, VoterView::Notarize(state.sign_notarize(proposal)))
                    &&& next.ledger.current > state.ledger.current || next.own_notarize() == Some(
                        state.sign_notarize(proposal),
                    )
                } else {
                    next == state && actions.len() == 0
                }
            },
            Err(fault) => state.votes_on(proposal) && state.scheme.spec_signer() is None,
        },
{
    if state.votes_on(proposal) && state.scheme.spec_signer() is Some {
        let notarize = state.sign_notarize(proposal);
        lemma_record_notarize(state.ledger, notarize);
        let (ledger, receipt) = state.ledger.record_notarize(notarize);
        let recorded = MachineView { ledger, ..state };
        assert(receipt.inserted);
        assert(follows(state, recorded));
        lemma_after_notarize(recorded, proposal, receipt.quorum);
        let (next, closing) = recorded.after_notarize(proposal, receipt.quorum);
        lemma_follows_chain(state, recorded, next);
        let actions = state.propose(proposal).unwrap().1;
        assert(actions.subrange(1, actions.len() as int) =~= closing);
        if next.ledger.current == state.ledger.current {
            assert(recorded.own_notarize() == Some(notarize));
            assert(recorded.ledger.entry(state.ledger.current).notarizes[notarize.vote.signer as int]
                is Some);
        }
    }
}

/// When the voter nullifies the current round it casts exactly one nullify
/// vote, its own for that round; afterwards the vote is recorded, or the
/// round is over. Where the ledger does not keep the current round,
/// nothing changes.
pub proof fn lemma_nullify(state: MachineView)
    requires
        state.wf(),
        state.own_nullify() is None,
    ensures
        match state.nullify() {
            Ok((next, actions)) => {
                &&& follows(state, next)
                &&& if state.ledger.accepts(state.current()) {
                    &&& casts_only(
                        actions,
                        VoterView::Nullify(state.sign_nullify(state.current())),
                    )
                    &&& next.ledger.current > state.ledger.current || next.own_nullify() == Some(
                        state.sign_nullify(state.current()),
                    )
                } else {
                    next == state && actions.len() == 0
                }
            },
            Err(fault) => state.ledger.accepts(state.current()) && state.scheme.spec_signer()
                is None,
        },
{
    if state.ledger.accepts(state.current()) && state.scheme.spec_signer() is Some {
        let nullify = state.sign_nullify(state.current());
        lemma_record_nullify(state.ledger, nullify);
        let (ledger, receipt) = state.ledger.record_nullify(nullify);
        let recorded = MachineView { ledger, ..state };
        assert(receipt.inserted);
        assert(follows(state, recorded));
        lemma_after_nullify(recorded, nullify.round, receipt.quorum);
        let (next, closing) = recorded.after_nullify(nullify.round, receipt.quorum);
        lemma_follows_chain(state, recorded, next);
        let actions = state.nullify().unwrap().1;
        assert(actions.subrange(1, actions.len() as int) =~= closing);
        if next.ledger.current == state.ledger.current {
            assert(recorded.own_nullify() == Some(nullify));
            assert(recorded.ledger.entry(state.ledger.current).nullifies[nullify.vote.signer as int]
                is Some);
        }
    }
}

/// What a step may cast: nothing; or one notarize vote, for a proposal of
/// the current round, while the voter had cast no vote in the round; or
/// one nullify vote, for the current round, while the voter had not
/// nullified it. A cast vote is the step's first action, and is recorded
/// afterwards unless the round is over.
pub open spec fn casts_lawfully(state: MachineView, next: MachineView, actions: Seq<ActionView>) -> bool {
    ||| casts_no_vote(actions)
    ||| exists|proposal: Proposal|
        {
            &&& state.votes_on(proposal)
            &&& #[trigger] casts_only(actions, VoterView::Notarize(state.sign_notarize(proposal)))
            &&& next.ledger.current > state.ledger.current || next.own_notarize() == Some(
                state.sign_notarize(proposal),
            )
        }
    ||| {
        &&& state.own_nullify() is None
        &&& state.ledger.accepts(state.current())
        &&& casts_only(actions, VoterView::Nullify(state.sign_nullify(state.current())))
        &&& next.ledger.current > state.ledger.current || next.own_nullify() == Some(
            state.sign_nullify(state.current()),
        )
    }
}

/// Every step leads to a later state and casts lawfully.
pub proof fn lemma_handle(state: MachineView, event: EventView)
    requires
        state.wf(),
    ensures
        state.handle(event) matches Ok((next, actions)) ==> follows(state, next) && casts_lawfully(
            state,
            next,
            actions,
        ),
{
    match event {
        EventView::Proposal(proposal) => {
            lemma_propose(state, proposal);
        },
        EventView::Message { sender, message } => {
            lemma_receive(state, sender, message);
        },
        EventView::Malformed { sender } => {},
        EventView::LeaderTimeout(round) => {
            if state.phase() is AwaitingProposal {
                lemma_nullify(state);
            }
        },
        EventView::NotarizationTimeout(round) => {
            if !(state.phase() is VotedNullify) {
                lemma_nullify(state);
            }
        },
    }
    if state.handle(event) is Ok {
        let (next, actions) = state.handle(event).unwrap();
        if next == state {
            assert(keeps_votes(state.ledger, next.ledger, state.ledger.current));
        }
    }
}

/// The state that a sequence of events leads to, and the actions of all
/// its steps in order. A step that ends in a fault changes nothing.
pub open spec fn run(state: MachineView, events: Seq<EventView>) -> Step
    decreases events.len(),
{
    if events.len() == 0 {
        (state, Seq::empty())
    } else {
        let (reached, asked) = run(state, events.drop_last());
        match reached.handle(events.last()) {
            Ok((next, actions)) => (next, asked + actions),
            Err(_) => (reached, asked),
        }
    }
}

/// The round of a vote that an action casts.
pub open spec fn cast_round(action: ActionView) -> Round {
    match action {
        ActionView::Broadcast(VoterView::Notarize(notarize)) => notarize.proposal.round,
        ActionView::Broadcast(VoterView::Nullify(nullify)) => nullify.round,
        _ => arbitrary(),
    }
}

/// Whether an action casts a notarize vote.
pub open spec fn is_notarize(action: ActionView) -> bool {
    action matches ActionView::Broadcast(message) && message is Notarize
}

/// Whether an action casts a nullify vote.
pub open spec fn is_nullify(action: ActionView) -> bool {
    action matches ActionView::Broadcast(message) && message is Nullify
}

/// Whether the votes cast so far are accounted for in the state reached:
/// each is for a round of the voter's epoch that is over, or for the
/// current round and recorded as the voter's own.
pub open spec fn accounted(reached: MachineView, asked: Seq<ActionView>) -> bool {
    &&& forall|k: int|
        0 <= k < asked.len() && is_notarize(#[trigger] asked[k]) ==> {
            let round = cast_round(asked[k]);
            &&& round.epoch == reached.ledger.epoch
            &&& round.view.0 <= reached.ledger.current
            &&& round.view.0 == reached.ledger.current ==> reached.own_notarize() is Some
        }
    &&& forall|k: int|
        0 <= k < asked.len() && is_nullify(#[trigger] asked[k]) ==> {
            let round = cast_round(asked[k]);
            &&& round.epoch == reached.ledger.epoch
            &&& round.view.0 <= reached.ledger.current
            &&& round.view.0 == reached.ledger.current ==> reached.own_nullify() is Some
        }
}

/// Whether no two of the actions cast a vote of the same kind for the same
/// round.
pub open spec fn one_vote_per_round(asked: Seq<ActionView>) -> bool {
    &&& forall|j: int, k: int|
        0 <= j < k < asked.len() && is_notarize(#[trigger] asked[j]) && is_notarize(
            #[trigger] asked[k],
        ) ==> cast_round(asked[j]) != cast_round(asked[k])
    &&& forall|j: int, k: int|
        0 <= j < k < asked.len() && is_nullify(#[trigger] asked[j]) && is_nullify(
            #[trigger] asked[k],
        ) ==> cast_round(asked[j]) != cast_round(asked[k])
}

proof fn lemma_run_step(
    state: MachineView,
    asked: Seq<ActionView>,
    next: MachineView,
    actions: Seq<ActionView>,
)
    requires
        state.wf(),
        accounted(state, asked),
        one_vote_per_round(asked),
        follows(state, next),
        casts_lawfully(state, next, actions),
    ensures
        accounted(next, asked + actions),
        one_vote_per_round(asked + actions),
{
    let all = asked + actions;
    let current = state.ledger.current;
    let tail = actions.subrange(1, actions.len() as int);
    // The votes cast before are still accounted for.
    assert forall|k: int| 0 <= k < asked.len() && is_vote(asked[k]) implies {
        let round = cast_round(asked[k]);
        &&& round.epoch == next.ledger.epoch
        &&& round.view.0 <= next.ledger.current
        &&& round.view.0 == next.ledger.current && is_notarize(asked[k]) ==> next.own_notarize()
            is Some
        &&& round.view.0 == next.ledger.current && is_nullify(asked[k]) ==> next.own_nullify()
            is Some
    } by {
        let round = cast_round(asked[k]);
        if next.ledger.current == current && round.view.0 == current {
            let me = state.me().unwrap() as int;
            if is_notarize(asked[k]) {
                assert(state.ledger.entry(current).notarizes[me] is Some);
            }
            if is_nullify(asked[k]) {
                assert(state.ledger.entry(current).nullifies[me] is Some);
            }
        }
    }
    // Of the new actions the first alone may cast a vote.
    assert forall|k: int| 1 <= k < actions.len() implies !is_vote(#[trigger] actions[k]) by {
        if !casts_no_vote(actions) {
            assert(actions[k] == tail[k - 1]);
        }
    }
    assert forall|k: int| 0 <= k < all.len() && is_notarize(#[trigger] all[k]) implies {
        let round = cast_round(all[k]);
        &&& round.epoch == next.ledger.epoch
        &&& round.view.0 <= next.ledger.current
        &&& round.view.0 == next.ledger.current ==> next.own_notarize() is Some
    } by {
        if k < asked.len() {
            assert(all[k] == asked[k]);
            assert(is_vote(asked[k]));
        } else {
            assert(all[k] == actions[k - asked.len()]);
            assert(is_vote(actions[k - asked.len()]));
        }
    }
    assert forall|k: int| 0 <= k < all.len() && is_nullify(#[trigger] all[k]) implies {
        let round = cast_round(all[k]);
        &&& round.epoch == next.ledger.epoch
        &&& round.view.0 <= next.ledger.current
        &&& round.view.0 == next.ledger.current ==> next.own_nullify() is Some
    } by {
        if k < asked.len() {
            assert(all[k] == asked[k]);
            assert(is_vote(asked[k]));
        } else {
            assert(all[k] == actions[k - asked.len()]);
            assert(is_vote(actions[k - asked.len()]));
        }
    }
    assert forall|j: int, k: int|
        0 <= j < k < all.len() && is_notarize(#[trigger] all[j]) && is_notarize(
            #[trigger] all[k],
        ) implies cast_round(all[j]) != cast_round(all[k]) by {
        if k < asked.len() {
            assert(all[j] == asked[j] && all[k] == asked[k]);
        } else {
            assert(all[k] == actions[k - asked.len()]);
            assert(is_vote(actions[k - asked.len()]));
            assert(k == asked.len());
            assert(all[j] == asked[j]);
        }
    }
    assert forall|j: int, k: int|
        0 <= j < k < all.len() && is_nullify(#[trigger] all[j]) && is_nullify(
            #[trigger] all[k],
        ) implies cast_round(all[j]) != cast_round(all[k]) by {
        if k < asked.len() {
            assert(all[j] == asked[j] && all[k] == asked[k]);
        } else {
            assert(all[k] == actions[k - asked.len()]);
            assert(is_vote(actions[k - asked.len()]));
            assert(k == asked.len());
            assert(all[j] == asked[j]);
        }
    }
}

/// Whatever events reach a voter, in whatever order: it stays well formed,
/// and it casts at most one notarize vote and at most one nullify vote for
/// each round.
pub proof fn lemma_run(state: MachineView, events: Seq<EventView>)
    requires
        state.wf(),
    ensures
        follows(state, run(state, events).0),
        accounted(run(state, events).0, run(state, events).1),
        one_vote_per_round(run(state, events).1),
    decreases events.len(),
{
    if events.len() == 0 {
        assert(keeps_votes(state.ledger, state.ledger, state.ledger.current));
    } else {
        lemma_run(state, events.drop_last());
        let (reached, asked) = run(state, events.drop_last());
        lemma_handle(reached, events.last());
        match reached.handle(events.last()) {
            Ok((next, actions)) => {
                lemma_run_step(reached, asked, next, actions);
                lemma_follows_chain(state, reached, next);
            },
            Err(_) => {},
        }
    }
}

/// A voter never notarizes two proposals of one round, whatever events
/// reach it: two notarize votes that it casts are for different rounds.
pub proof fn lemma_never_notarizes_twice(
    state: MachineView,
    events: Seq<EventView>,
    j: int,
    k: int,
    first: Notarize,
    second: Notarize,
)
    requires
        state.wf(),
        0 <= j < k < run(state, events).1.len(),
        run(state, events).1[j] == ActionView::Broadcast(VoterView::Notarize(first)),
        run(state, events).1[k] == ActionView::Broadcast(VoterView::Notarize(second)),
    ensures
        first.proposal.round != second.proposal.round,
{
    lemma_run(state, events);
    let asked = run(state, events).1;
    assert(is_notarize(asked[j]) && is_notarize(asked[k]));
}

/// A voter never nullifies a round twice, whatever events reach it and
/// whichever timeouts run out: two nullify votes that it casts are for
/// different rounds.
pub proof fn lemma_never_nullifies_twice(
    state: MachineView,
    events: Seq<EventView>,
    j: int,
    k: int,
    first: Nullify,
    second: Nullify,
)
    requires
        state.wf(),
        0 <= j < k < run(state, events).1.len(),
        run(state, events).1[j] == ActionView::Broadcast(VoterView::Nullify(first)),
        run(state, events).1[k] == ActionView::Broadcast(VoterView::Nullify(second)),
    ensures
        first.round != second.round,
{
    lemma_run(state, events);
    let asked = run(state, events).1;
    assert(is_nullify(asked[j]) && is_nullify(asked[k]));
}

/// When the leader timeout of the current round runs out on a voter that
/// has cast no vote in the round, it casts its nullify vote for the round,
/// once; and whichever timeout of the round runs out next, it casts
/// nothing more.
pub proof fn lemma_timeouts_nullify_once(state: MachineView, later: EventView)
    requires
        state.wf(),
        state.phase() is AwaitingProposal,
        state.scheme.spec_signer() is Some,
        state.ledger.accepts(state.current()),
        later == EventView::LeaderTimeout(state.current()) || later
            == EventView::NotarizationTimeout(state.current()),
    ensures
        state.handle(EventView::LeaderTimeout(state.current())) is Ok,
        ({
            let (next, actions) = state.handle(EventView::LeaderTimeout(state.current())).unwrap();
            &&& casts_only(actions, VoterView::Nullify(state.sign_nullify(state.current())))
            &&& next.handle(later) == Ok::<Step, Fault>((next, Seq::empty()))
        }),
{
    lemma_nullify(state);
}

} // verus!
