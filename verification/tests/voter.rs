use commonware_cryptography::ed25519::PrivateKey;
use commonware_cryptography::Signer;
use minimmit::evidence::{Evidence, Outcome};
use minimmit::quorum::FaultModel;
use minimmit::scheme::Scheme;
use minimmit::driver::Driver;
use minimmit::statement::{notarize_statement, nullify_statement};
use minimmit::timers::Timers;
use minimmit::types::{
    Epoch, Notarization, Notarize, Nullification, Nullify, Proposal, Round, ViewNumber, Vote, Voter,
};
use minimmit::voter::{Action, Activity, Event, Fault, Machine, Phase};

const NAMESPACE: &[u8] = b"minimmit";

fn keys() -> Vec<PrivateKey> {
    (0..6).map(PrivateKey::from_seed).collect()
}

fn scheme(me: Option<u32>) -> Scheme {
    let keys = keys();
    let participants = keys.iter().map(|key| key.public_key()).collect();
    let signer = me.map(|index| (index, keys[index as usize].clone()));
    Scheme::new(participants, signer, NAMESPACE.to_vec(), FaultModel::OneInFive).unwrap()
}

fn machine(me: Option<u32>) -> Machine {
    Machine::new(scheme(me), Epoch::new(0), 10)
}

fn round(view: u64) -> Round {
    Round::new(Epoch::new(0), ViewNumber::new(view))
}

fn proposal(view: u64, fill: u8) -> Proposal {
    Proposal { round: round(view), parent: ViewNumber::new(view - 1), payload: [fill; 32] }
}

fn notarize(signer: u32, proposal: Proposal) -> Notarize {
    let signature = keys()[signer as usize].sign(NAMESPACE, &notarize_statement(&proposal));
    Notarize { proposal, vote: Vote { signer, signature } }
}

fn nullify(signer: u32, round: Round) -> Nullify {
    let signature = keys()[signer as usize].sign(NAMESPACE, &nullify_statement(round));
    Nullify { round, vote: Vote { signer, signature } }
}

fn notarization(proposal: Proposal, signers: &[u32]) -> Notarization {
    let votes: Vec<Vote> = signers.iter().map(|signer| notarize(*signer, proposal).vote).collect();
    let certificate = scheme(None).aggregate(&votes, &notarize_statement(&proposal)).unwrap();
    Notarization { proposal, certificate }
}

fn nullification(round: Round, signers: &[u32]) -> Nullification {
    let votes: Vec<Vote> = signers.iter().map(|signer| nullify(*signer, round).vote).collect();
    let certificate = scheme(None).aggregate(&votes, &nullify_statement(round)).unwrap();
    Nullification { round, certificate }
}

fn message(sender: u32, message: Voter) -> Event {
    Event::Message { sender, message }
}

/// A voter in round 3, having learnt that round 2 was skipped.
fn machine_in_round_three(me: Option<u32>) -> Machine {
    let mut machine = machine(me);
    let skipped = nullification(round(2), &[1, 2, 3, 4, 5]);
    let actions = machine.handle(message(1, Voter::Nullification(skipped.duplicate()))).unwrap();
    assert_eq!(
        actions,
        vec![Action::Report(Activity::Nullification(skipped)), Action::Enter(round(3))]
    );
    assert_eq!(machine.current(), round(3));
    machine
}

fn notarize_broadcasts(actions: &[Action]) -> Vec<Notarize> {
    let mut found = Vec::new();
    for action in actions {
        if let Action::Broadcast(Voter::Notarize(notarize)) = action {
            found.push(notarize.duplicate());
        }
    }
    found
}

fn nullify_broadcasts(actions: &[Action]) -> Vec<Nullify> {
    let mut found = Vec::new();
    for action in actions {
        if let Action::Broadcast(Voter::Nullify(nullify)) = action {
            found.push(nullify.duplicate());
        }
    }
    found
}

fn reported_notarizations(actions: &[Action]) -> Vec<Notarization> {
    let mut found = Vec::new();
    for action in actions {
        if let Action::Report(Activity::Notarization(notarization)) = action {
            found.push(notarization.duplicate());
        }
    }
    found
}

#[test]
fn a_timeout_that_ends_the_round_voids_the_other() {
    // With a quorum of one, the voter's own nullify vote ends the round.
    let keys = keys();
    let scheme = Scheme::new(
        vec![keys[0].public_key()],
        Some((0, keys[0].clone())),
        NAMESPACE.to_vec(),
        FaultModel::OneInFive,
    )
    .unwrap();
    let mut machine = Machine::new(scheme, Epoch::new(0), 10);
    let mut timers = Timers::start(5, 5, machine.current());
    let timeouts = timers.elapse(5);
    assert_eq!(
        timeouts,
        vec![Event::LeaderTimeout(round(1)), Event::NotarizationTimeout(round(1))]
    );
    let mut all = Vec::new();
    for timeout in timeouts {
        all.extend(machine.handle(timeout).unwrap());
    }
    assert_eq!(machine.current(), round(2));
    assert_eq!(machine.phase(), Phase::AwaitingProposal);
    assert_eq!(nullify_broadcasts(&all).len(), 1);
    assert_eq!(nullify_broadcasts(&all)[0].round, round(1));
}

#[test]
fn new_voter_awaits_a_proposal_in_the_first_round() {
    let machine = machine(Some(0));
    assert_eq!(machine.current(), round(1));
    assert_eq!(machine.parent(), ViewNumber::new(0));
    assert_eq!(machine.phase(), Phase::AwaitingProposal);
    assert_eq!(machine.outcome(ViewNumber::new(1)), None);
    assert_eq!(machine.start(), vec![Action::Enter(round(1))]);
}

#[test]
fn leaders_take_turns() {
    let machine = machine(Some(0));
    assert_eq!(machine.leader(round(1)), Some(1));
    assert_eq!(machine.leader(round(5)), Some(5));
    assert_eq!(machine.leader(round(6)), Some(0));
    assert_eq!(machine.leader(round(u64::MAX)), Some(3));
    assert_eq!(machine.leader(Round::new(Epoch::new(4), ViewNumber::new(3))), Some(1));
    assert_eq!(machine.leader(Round::new(Epoch::new(u64::MAX), ViewNumber::new(u64::MAX))), Some(0));
    let nobody = Scheme::new(Vec::new(), None, NAMESPACE.to_vec(), FaultModel::OneInFive).unwrap();
    assert_eq!(Machine::new(nobody, Epoch::new(0), 10).leader(round(1)), None);
}

#[test]
fn the_leader_is_asked_to_propose() {
    let machine = machine(Some(1));
    assert_eq!(
        machine.start(),
        vec![
            Action::Enter(round(1)),
            Action::Propose { round: round(1), parent: ViewNumber::new(0) },
        ]
    );
}

#[test]
fn proposal_is_notarized_once() {
    let mut machine = machine(Some(1));
    let first = proposal(1, 7);
    let actions = machine.handle(Event::Proposal(first)).unwrap();
    assert_eq!(actions, vec![Action::Broadcast(Voter::Notarize(notarize(1, first)))]);
    assert_eq!(machine.phase(), Phase::VotedNotarize);
    // Neither the same proposal nor another one is notarized again.
    assert_eq!(machine.handle(Event::Proposal(first)).unwrap(), Vec::new());
    assert_eq!(machine.handle(Event::Proposal(proposal(1, 8))).unwrap(), Vec::new());
    assert_eq!(machine.current(), round(1));
}

#[test]
fn only_the_designated_proposers_proposal_is_notarized() {
    let mut machine = machine(Some(0));
    // The voter is not the designated proposer of the first round, and
    // knows of no proposal of the one who is.
    assert_eq!(machine.handle(Event::Proposal(proposal(1, 7))).unwrap(), Vec::new());
    assert_eq!(
        machine.handle(message(2, Voter::Notarize(notarize(2, proposal(1, 7))))).unwrap(),
        Vec::new()
    );
    assert_eq!(machine.handle(Event::Proposal(proposal(1, 7))).unwrap(), Vec::new());
    assert_eq!(machine.phase(), Phase::AwaitingProposal);
    assert_eq!(
        machine.handle(message(1, Voter::Notarize(notarize(1, proposal(1, 8))))).unwrap(),
        vec![Action::Verify(proposal(1, 8))]
    );
    assert_eq!(machine.handle(Event::Proposal(proposal(1, 7))).unwrap(), Vec::new());
    assert_eq!(
        machine.handle(Event::Proposal(proposal(1, 8))).unwrap(),
        vec![Action::Broadcast(Voter::Notarize(notarize(0, proposal(1, 8))))]
    );
    assert_eq!(machine.phase(), Phase::VotedNotarize);
}

#[test]
fn proposals_for_other_rounds_or_without_parent_are_not_notarized() {
    let mut machine = machine(Some(1));
    assert_eq!(machine.handle(Event::Proposal(proposal(2, 7))).unwrap(), Vec::new());
    let mut orphan = proposal(1, 7);
    orphan.parent = ViewNumber::new(1);
    assert_eq!(machine.handle(Event::Proposal(orphan)).unwrap(), Vec::new());
    let mut foreign = proposal(1, 7);
    foreign.round = Round::new(Epoch::new(1), ViewNumber::new(1));
    assert_eq!(machine.handle(Event::Proposal(foreign)).unwrap(), Vec::new());
    assert_eq!(machine.phase(), Phase::AwaitingProposal);
}

#[test]
fn voter_without_key_faults_when_it_has_to_vote() {
    let mut machine = machine(None);
    assert_eq!(
        machine.handle(message(1, Voter::Notarize(notarize(1, proposal(1, 7))))).unwrap(),
        vec![Action::Verify(proposal(1, 7))]
    );
    assert_eq!(machine.handle(Event::Proposal(proposal(1, 7))), Err(Fault::KeyUnavailable));
    assert_eq!(machine.handle(Event::LeaderTimeout(round(1))), Err(Fault::KeyUnavailable));
    assert_eq!(machine.handle(Event::NotarizationTimeout(round(1))), Err(Fault::KeyUnavailable));
    // The timeout of another round asks for no vote.
    assert_eq!(machine.handle(Event::LeaderTimeout(round(2))).unwrap(), Vec::new());
    assert_eq!(machine.current(), round(1));
    assert_eq!(machine.phase(), Phase::AwaitingProposal);
    // It still follows the votes of the others.
    let vote = notarize(2, proposal(1, 7));
    assert_eq!(machine.handle(message(2, Voter::Notarize(vote))).unwrap(), Vec::new());
    let skipped = nullification(round(1), &[1, 2, 3, 4, 5]);
    machine.handle(message(2, Voter::Nullification(skipped))).unwrap();
    assert_eq!(machine.current(), round(2));
}

#[test]
fn five_notarize_votes_notarize_round_three() {
    let mut machine = machine_in_round_three(Some(0));
    let proposal = proposal(3, 7);
    // The designated proposer of round 3 is participant 3.
    let mut all = machine.handle(message(3, Voter::Notarize(notarize(3, proposal)))).unwrap();
    assert_eq!(all, vec![Action::Verify(proposal)]);
    all.extend(machine.handle(Event::Proposal(proposal)).unwrap());
    assert_eq!(notarize_broadcasts(&all), vec![notarize(0, proposal)]);
    for signer in 1..3 {
        let actions = machine.handle(message(signer, Voter::Notarize(notarize(signer, proposal)))).unwrap();
        assert_eq!(actions, Vec::new());
        all.extend(actions);
    }
    assert_eq!(machine.current(), round(3));
    assert_eq!(reported_notarizations(&all).len(), 0);
    let closing = machine.handle(message(4, Voter::Notarize(notarize(4, proposal)))).unwrap();
    let formed = notarization(proposal, &[0, 1, 2, 3, 4]);
    assert_eq!(
        closing,
        vec![
            Action::Broadcast(Voter::Notarization(formed.duplicate())),
            Action::Relay([7; 32]),
            Action::Report(Activity::Notarization(formed.duplicate())),
            Action::Enter(round(4)),
        ]
    );
    assert!(scheme(None).verify_certificate(&formed.certificate, &notarize_statement(&proposal)));
    assert_eq!(machine.current(), round(4));
    assert_eq!(machine.parent(), ViewNumber::new(3));
    assert_eq!(machine.phase(), Phase::AwaitingProposal);
    assert_eq!(machine.outcome(ViewNumber::new(3)), Some(Outcome::Notarized(formed.duplicate())));
    all.extend(closing);
    // A late vote and a late certificate for the round change nothing.
    all.extend(machine.handle(message(5, Voter::Notarize(notarize(5, proposal)))).unwrap());
    let late = notarization(proposal, &[1, 2, 3, 4, 5]);
    all.extend(machine.handle(message(5, Voter::Notarization(late))).unwrap());
    assert_eq!(reported_notarizations(&all), vec![formed]);
    assert_eq!(machine.current(), round(4));
}

#[test]
fn four_notarize_votes_then_timeout_nullifies_round_three() {
    let mut machine = machine_in_round_three(Some(0));
    let proposal = proposal(3, 7);
    for signer in [3, 1, 2] {
        machine.handle(message(signer, Voter::Notarize(notarize(signer, proposal)))).unwrap();
    }
    assert_eq!(machine.phase(), Phase::AwaitingProposal);
    machine.handle(Event::Proposal(proposal)).unwrap();
    assert_eq!(machine.phase(), Phase::VotedNotarize);
    // The leader timeout does nothing: a proposal was notarized.
    assert_eq!(machine.handle(Event::LeaderTimeout(round(3))).unwrap(), Vec::new());
    // Nor does the notarization timeout of a round that is over.
    assert_eq!(machine.handle(Event::NotarizationTimeout(round(2))).unwrap(), Vec::new());
    let actions = machine.handle(Event::NotarizationTimeout(round(3))).unwrap();
    assert_eq!(actions, vec![Action::Broadcast(Voter::Nullify(nullify(0, round(3))))]);
    assert_eq!(machine.phase(), Phase::VotedNullify);
    assert_eq!(machine.handle(Event::NotarizationTimeout(round(3))).unwrap(), Vec::new());
    for signer in 1..4 {
        let vote = nullify(signer, round(3));
        let actions = machine.handle(message(signer, Voter::Nullify(vote.duplicate()))).unwrap();
        // Each of them notarized before: that is reported, not fatal.
        assert_eq!(
            actions,
            vec![
                Action::Report(Activity::ConflictingVoteEvidence(Evidence::NotarizeAndNullify {
                    notarize: notarize(signer, proposal),
                    nullify: vote,
                })),
                Action::Block(signer),
            ]
        );
        assert_eq!(machine.current(), round(3));
    }
    let closing = machine.handle(message(4, Voter::Nullify(nullify(4, round(3))))).unwrap();
    let formed = nullification(round(3), &[0, 1, 2, 3, 4]);
    assert_eq!(
        closing,
        vec![
            Action::Broadcast(Voter::Nullification(formed.duplicate())),
            Action::Report(Activity::Nullification(formed.duplicate())),
            Action::Enter(round(4)),
        ]
    );
    assert!(scheme(None).verify_certificate(&formed.certificate, &nullify_statement(round(3))));
    assert_eq!(machine.current(), round(4));
    assert_eq!(machine.parent(), ViewNumber::new(0));
    assert_eq!(machine.outcome(ViewNumber::new(3)), Some(Outcome::Nullified(formed)));
}

#[test]
fn second_notarize_of_a_signer_is_evidence_and_blocks_it() {
    let mut machine = machine_in_round_three(Some(0));
    let first = notarize(2, proposal(3, 7));
    let second = notarize(2, proposal(3, 8));
    assert_eq!(machine.handle(message(2, Voter::Notarize(first.duplicate()))).unwrap(), Vec::new());
    let actions = machine.handle(message(5, Voter::Notarize(second.duplicate()))).unwrap();
    assert_eq!(
        actions,
        vec![
            Action::Report(Activity::ConflictingVoteEvidence(Evidence::ConflictingNotarize {
                first,
                second,
            })),
            Action::Block(2),
        ]
    );
    // The second vote counts for nothing: four more votes for its proposal
    // do not make a quorum.
    for signer in [1, 3, 4, 5] {
        machine.handle(message(signer, Voter::Notarize(notarize(signer, proposal(3, 8))))).unwrap();
    }
    assert_eq!(machine.current(), round(3));
    assert_eq!(machine.outcome(ViewNumber::new(3)), None);
}

#[test]
fn leader_timeout_nullifies_once_whichever_timeout_follows() {
    let mut machine = machine(Some(0));
    assert_eq!(machine.handle(Event::LeaderTimeout(round(2))).unwrap(), Vec::new());
    assert_eq!(machine.handle(Event::LeaderTimeout(round(0))).unwrap(), Vec::new());
    assert_eq!(machine.phase(), Phase::AwaitingProposal);
    let actions = machine.handle(Event::LeaderTimeout(round(1))).unwrap();
    assert_eq!(actions, vec![Action::Broadcast(Voter::Nullify(nullify(0, round(1))))]);
    assert_eq!(machine.phase(), Phase::VotedNullify);
    assert_eq!(machine.handle(Event::NotarizationTimeout(round(1))).unwrap(), Vec::new());
    assert_eq!(machine.handle(Event::LeaderTimeout(round(1))).unwrap(), Vec::new());
    // A proposal that arrives after the timeout is not notarized.
    assert_eq!(machine.handle(Event::Proposal(proposal(1, 7))).unwrap(), Vec::new());
    assert_eq!(machine.current(), round(1));
}

#[test]
fn a_voter_casts_one_vote_of_each_kind_in_a_round() {
    let mut machine = machine(Some(1));
    let events = vec![
        Event::Proposal(proposal(1, 7)),
        Event::LeaderTimeout(round(1)),
        Event::Proposal(proposal(1, 8)),
        message(2, Voter::Notarize(notarize(2, proposal(1, 8)))),
        Event::NotarizationTimeout(round(1)),
        Event::Proposal(proposal(1, 9)),
        Event::NotarizationTimeout(round(1)),
        Event::LeaderTimeout(round(1)),
        message(1, Voter::Notarize(notarize(1, proposal(1, 7)))),
    ];
    let mut all = Vec::new();
    for event in events {
        all.extend(machine.handle(event).unwrap());
    }
    assert_eq!(notarize_broadcasts(&all), vec![notarize(1, proposal(1, 7))]);
    assert_eq!(nullify_broadcasts(&all), vec![nullify(1, round(1))]);
}

#[test]
fn unverifiable_messages_are_dropped_and_their_sender_blocked() {
    let mut machine = machine(Some(0));
    let mut forged = notarize(2, proposal(1, 7));
    forged.vote.signer = 3;
    assert_eq!(machine.handle(message(4, Voter::Notarize(forged))).unwrap(), vec![Action::Block(4)]);
    let mut stranger = nullify(2, round(1));
    stranger.vote.signer = 6;
    assert_eq!(machine.handle(message(5, Voter::Nullify(stranger))).unwrap(), vec![Action::Block(5)]);
    let mut orphan = proposal(1, 7);
    orphan.parent = ViewNumber::new(1);
    assert_eq!(
        machine.handle(message(2, Voter::Notarize(notarize(2, orphan)))).unwrap(),
        vec![Action::Block(2)]
    );
    let mut other = notarization(proposal(1, 7), &[0, 1, 2, 3, 4]);
    other.proposal = proposal(1, 8);
    assert_eq!(machine.handle(message(3, Voter::Notarization(other))).unwrap(), vec![Action::Block(3)]);
    let mut moved = nullification(round(1), &[0, 1, 2, 3, 4]);
    moved.round = round(2);
    assert_eq!(machine.handle(message(1, Voter::Nullification(moved))).unwrap(), vec![Action::Block(1)]);
    assert_eq!(machine.current(), round(1));
    assert_eq!(machine.phase(), Phase::AwaitingProposal);
    // Nothing of it was recorded: the true votes are still taken.
    assert_eq!(
        machine.handle(message(2, Voter::Notarize(notarize(2, proposal(1, 7))))).unwrap(),
        Vec::new()
    );
}

#[test]
fn what_is_no_message_has_its_sender_blocked() {
    let mut machine = machine(Some(0));
    assert_eq!(machine.handle(Event::Malformed { sender: 4 }).unwrap(), vec![Action::Block(4)]);
    assert_eq!(machine.handle(Event::Malformed { sender: 9 }).unwrap(), vec![Action::Block(9)]);
    assert_eq!(machine.current(), round(1));
    assert_eq!(machine.phase(), Phase::AwaitingProposal);
}

#[test]
fn verified_messages_of_rounds_that_are_not_kept_are_dropped() {
    let mut machine = Machine::new(scheme(Some(0)), Epoch::new(0), 1);
    // A vote of another epoch verifies, and the ledger does not keep it.
    let foreign = nullify(2, Round::new(Epoch::new(1), ViewNumber::new(1)));
    assert_eq!(machine.handle(message(2, Voter::Nullify(foreign))).unwrap(), Vec::new());
    let skipped = nullification(round(5), &[1, 2, 3, 4, 5]);
    machine.handle(message(1, Voter::Nullification(skipped))).unwrap();
    assert_eq!(machine.current(), round(6));
    // Round 4 lies two rounds back, beyond the retention of one round, and
    // the ledger holds nothing of it: what verifies for it is forgotten.
    assert_eq!(
        machine.handle(message(2, Voter::Nullify(nullify(2, round(4))))).unwrap(),
        Vec::new()
    );
    assert_eq!(
        machine.handle(message(2, Voter::Notarize(notarize(2, proposal(4, 7))))).unwrap(),
        Vec::new()
    );
    let old = notarization(proposal(4, 7), &[0, 1, 2, 3, 4]);
    assert_eq!(machine.handle(message(2, Voter::Notarization(old))).unwrap(), Vec::new());
    assert_eq!(machine.outcome(ViewNumber::new(4)), None);
    // Nothing of it was recorded: a vote for another proposal finds no
    // first one.
    assert_eq!(
        machine.handle(message(2, Voter::Notarize(notarize(2, proposal(4, 8))))).unwrap(),
        Vec::new()
    );
}

#[test]
fn unverifiable_messages_are_blocked_whatever_their_round() {
    let mut machine = Machine::new(scheme(Some(0)), Epoch::new(0), 1);
    let skipped = nullification(round(5), &[1, 2, 3, 4, 5]);
    machine.handle(message(1, Voter::Nullification(skipped))).unwrap();
    assert_eq!(machine.current(), round(6));
    // A forged vote for a round far back.
    let mut forged = nullify(2, round(2));
    forged.vote.signer = 3;
    assert_eq!(machine.handle(message(4, Voter::Nullify(forged))).unwrap(), vec![Action::Block(4)]);
    // A vote signed for one epoch and sent as of another.
    let mut moved = nullify(2, round(1));
    moved.round = Round::new(Epoch::new(1), ViewNumber::new(1));
    assert_eq!(machine.handle(message(2, Voter::Nullify(moved))).unwrap(), vec![Action::Block(2)]);
    // A vote signed under another namespace.
    let elsewhere = Notarize {
        proposal: proposal(2, 7),
        vote: Vote {
            signer: 3,
            signature: keys()[3].sign(b"elsewhere", &notarize_statement(&proposal(2, 7))),
        },
    };
    assert_eq!(
        machine.handle(message(3, Voter::Notarize(elsewhere))).unwrap(),
        vec![Action::Block(3)]
    );
    // Certificates for rounds far back that do not verify.
    let mut other = notarization(proposal(2, 7), &[0, 1, 2, 3, 4]);
    other.proposal = proposal(2, 8);
    assert_eq!(machine.handle(message(5, Voter::Notarization(other))).unwrap(), vec![Action::Block(5)]);
    let mut shifted = nullification(round(2), &[0, 1, 2, 3, 4]);
    shifted.round = round(3);
    assert_eq!(
        machine.handle(message(1, Voter::Nullification(shifted))).unwrap(),
        vec![Action::Block(1)]
    );
    // A vote for the last view, which has no round.
    let mut orphan = proposal(2, 7);
    orphan.round = round(u64::MAX);
    orphan.parent = ViewNumber::new(u64::MAX);
    assert_eq!(
        machine.handle(message(2, Voter::Notarize(notarize(2, orphan)))).unwrap(),
        vec![Action::Block(2)]
    );
    assert_eq!(machine.current(), round(6));
}

#[test]
fn a_second_vote_for_an_old_round_that_is_still_held_is_evidence() {
    let mut machine = Machine::new(scheme(Some(0)), Epoch::new(0), 1);
    let first = notarize(2, proposal(1, 7));
    assert_eq!(machine.handle(message(2, Voter::Notarize(first.duplicate()))).unwrap(), Vec::new());
    // A later round closes: round 1 is superseded without an outcome, and
    // lies far beyond the retention.
    let skipped = nullification(round(7), &[1, 2, 3, 4, 5]);
    machine.handle(message(1, Voter::Nullification(skipped))).unwrap();
    assert_eq!(machine.current(), round(8));
    assert_eq!(machine.outcome(ViewNumber::new(1)), None);
    let second = notarize(2, proposal(1, 8));
    assert_eq!(
        machine.handle(message(4, Voter::Notarize(second.duplicate()))).unwrap(),
        vec![
            Action::Report(Activity::ConflictingVoteEvidence(Evidence::ConflictingNotarize {
                first: first.duplicate(),
                second,
            })),
            Action::Block(2),
        ]
    );
    // A nullify vote of the same signer is evidence too.
    let skip = nullify(2, round(1));
    assert_eq!(
        machine.handle(message(2, Voter::Nullify(skip.duplicate()))).unwrap(),
        vec![
            Action::Report(Activity::ConflictingVoteEvidence(Evidence::NotarizeAndNullify {
                notarize: first,
                nullify: skip,
            })),
            Action::Block(2),
        ]
    );
    // The round can still be given its outcome, after which it may go.
    let late = notarization(proposal(1, 7), &[0, 1, 2, 3, 4]);
    assert_eq!(
        machine.handle(message(3, Voter::Notarization(late.duplicate()))).unwrap(),
        vec![Action::Relay([7; 32]), Action::Report(Activity::Notarization(late.duplicate()))]
    );
    assert_eq!(machine.outcome(ViewNumber::new(1)), Some(Outcome::Notarized(late)));
    assert_eq!(machine.current(), round(8));
}

#[test]
fn the_designated_proposers_vote_has_its_proposal_checked() {
    let mut machine = machine(Some(0));
    // The vote of another participant asks for nothing.
    assert_eq!(
        machine.handle(message(2, Voter::Notarize(notarize(2, proposal(1, 7))))).unwrap(),
        Vec::new()
    );
    assert_eq!(
        machine.handle(message(1, Voter::Notarize(notarize(1, proposal(1, 7))))).unwrap(),
        vec![Action::Verify(proposal(1, 7))]
    );
    // Once only.
    assert_eq!(
        machine.handle(message(1, Voter::Notarize(notarize(1, proposal(1, 7))))).unwrap(),
        Vec::new()
    );
}

#[test]
fn a_recorded_vote_of_the_next_proposer_is_checked_on_entering() {
    let mut machine = machine(Some(0));
    let early = notarize(2, proposal(2, 9));
    assert_eq!(machine.handle(message(2, Voter::Notarize(early))).unwrap(), Vec::new());
    let skipped = nullification(round(1), &[1, 2, 3, 4, 5]);
    let actions = machine.handle(message(1, Voter::Nullification(skipped.duplicate()))).unwrap();
    assert_eq!(
        actions,
        vec![
            Action::Report(Activity::Nullification(skipped)),
            Action::Enter(round(2)),
            Action::Verify(proposal(2, 9)),
        ]
    );
}

#[test]
fn entering_a_round_as_leader_asks_for_a_proposal_on_the_latest_notarized_view() {
    let mut machine = machine(Some(4));
    let decided = notarization(proposal(2, 7), &[0, 1, 2, 3, 5]);
    machine.handle(message(1, Voter::Notarization(decided))).unwrap();
    assert_eq!(machine.parent(), ViewNumber::new(2));
    let skipped = nullification(round(3), &[0, 1, 2, 3, 5]);
    let actions = machine.handle(message(1, Voter::Nullification(skipped.duplicate()))).unwrap();
    assert_eq!(
        actions,
        vec![
            Action::Report(Activity::Nullification(skipped)),
            Action::Enter(round(4)),
            Action::Propose { round: round(4), parent: ViewNumber::new(2) },
        ]
    );
}

#[test]
fn a_certificate_for_a_later_round_supersedes_the_rounds_before_it() {
    let mut machine = machine(Some(1));
    machine.handle(Event::Proposal(proposal(1, 7))).unwrap();
    assert_eq!(machine.phase(), Phase::VotedNotarize);
    let decided = notarization(proposal(4, 9), &[1, 2, 3, 4, 5]);
    let actions = machine.handle(message(3, Voter::Notarization(decided.duplicate()))).unwrap();
    assert_eq!(
        actions,
        vec![
            Action::Relay([9; 32]),
            Action::Report(Activity::Notarization(decided)),
            Action::Enter(round(5)),
        ]
    );
    assert_eq!(machine.current(), round(5));
    assert_eq!(machine.phase(), Phase::AwaitingProposal);
    assert_eq!(machine.parent(), ViewNumber::new(4));
    // Votes for a superseded round are kept for evidence and close nothing.
    for signer in [0, 2, 3, 4, 5] {
        machine.handle(message(signer, Voter::Nullify(nullify(signer, round(2))))).unwrap();
    }
    assert_eq!(machine.outcome(ViewNumber::new(2)), None);
    assert_eq!(machine.current(), round(5));
}

#[test]
fn a_conflicting_certificate_is_reported_and_does_not_replace_the_outcome() {
    let mut machine = machine(Some(0));
    let first = notarization(proposal(1, 7), &[0, 1, 2, 3, 4]);
    let second = nullification(round(1), &[1, 2, 3, 4, 5]);
    machine.handle(message(1, Voter::Notarization(first.duplicate()))).unwrap();
    // The same decision again: nothing.
    let again = notarization(proposal(1, 7), &[1, 2, 3, 4, 5]);
    assert_eq!(machine.handle(message(2, Voter::Notarization(again))).unwrap(), Vec::new());
    let actions = machine.handle(message(2, Voter::Nullification(second.duplicate()))).unwrap();
    assert_eq!(
        actions,
        vec![Action::Report(Activity::ConflictingVoteEvidence(Evidence::ConflictingOutcome {
            recorded: Outcome::Notarized(first.duplicate()),
            conflicting: Outcome::Nullified(second),
        }))]
    );
    assert_eq!(machine.outcome(ViewNumber::new(1)), Some(Outcome::Notarized(first)));
    assert_eq!(machine.current(), round(2));
}

#[test]
fn retention_zero_prunes_a_round_as_soon_as_it_is_over() {
    let mut machine = Machine::new(scheme(Some(0)), Epoch::new(0), 0);
    let skipped = nullification(round(1), &[1, 2, 3, 4, 5]);
    machine.handle(message(1, Voter::Nullification(skipped))).unwrap();
    assert_eq!(machine.current(), round(2));
    assert_eq!(machine.outcome(ViewNumber::new(1)), None);
}

#[test]
fn the_last_view_has_no_round() {
    let mut machine = machine(Some(0));
    let last = nullification(round(u64::MAX - 1), &[1, 2, 3, 4, 5]);
    let actions = machine.handle(message(1, Voter::Nullification(last.duplicate()))).unwrap();
    assert_eq!(
        actions,
        vec![Action::Report(Activity::Nullification(last)), Action::Enter(round(u64::MAX))]
    );
    assert_eq!(machine.current(), round(u64::MAX));
    assert_eq!(machine.handle(Event::LeaderTimeout(round(u64::MAX))).unwrap(), Vec::new());
    assert_eq!(machine.handle(Event::NotarizationTimeout(round(u64::MAX))).unwrap(), Vec::new());
    let mut proposal = proposal(2, 7);
    proposal.round = round(u64::MAX);
    assert_eq!(machine.handle(Event::Proposal(proposal)).unwrap(), Vec::new());
}

fn driver(me: Option<u32>, leader_timeout: u64, notarization_timeout: u64) -> Driver {
    Driver::new(machine(me), leader_timeout, notarization_timeout)
}

#[test]
fn driver_starts_the_timers_of_the_first_round() {
    let driver = driver(Some(1), 1000, 2000);
    assert_eq!(driver.current(), round(1));
    assert_eq!(driver.leader(round(1)), Some(1));
    assert_eq!(driver.wait(), Some(1000));
    assert_eq!(
        driver.start(),
        vec![
            Action::Enter(round(1)),
            Action::Propose { round: round(1), parent: ViewNumber::new(0) },
        ]
    );
}

#[test]
fn driver_gives_each_timeout_when_its_time_has_passed() {
    let mut driver = driver(Some(0), 1000, 2000);
    assert_eq!(driver.step(999, None).unwrap(), Vec::new());
    assert_eq!(driver.wait(), Some(1));
    // The leader timeout nullifies the round.
    assert_eq!(
        driver.step(1, None).unwrap(),
        vec![Action::Broadcast(Voter::Nullify(nullify(0, round(1))))]
    );
    assert_eq!(driver.wait(), Some(1000));
    // The notarization timeout finds the round nullified.
    assert_eq!(driver.step(5000, None).unwrap(), Vec::new());
    assert_eq!(driver.wait(), None);
    assert_eq!(driver.step(5000, None).unwrap(), Vec::new());
    assert_eq!(driver.current(), round(1));
}

#[test]
fn driver_handles_timeouts_before_what_woke_it() {
    let mut driver = driver(Some(0), 1000, 2000);
    // The designated proposer's vote arrives as the leader timer runs out:
    // the voter has nullified the round before it looks at the vote.
    let actions = driver
        .step(1000, Some(message(1, Voter::Notarize(notarize(1, proposal(1, 7))))))
        .unwrap();
    assert_eq!(actions, vec![Action::Broadcast(Voter::Nullify(nullify(0, round(1))))]);
    assert_eq!(driver.step(0, Some(Event::Proposal(proposal(1, 7)))).unwrap(), Vec::new());
}

#[test]
fn driver_starts_the_timers_anew_in_each_round() {
    let mut driver = driver(Some(0), 1000, 2000);
    assert_eq!(driver.step(600, None).unwrap(), Vec::new());
    assert_eq!(driver.wait(), Some(400));
    let skipped = nullification(round(1), &[1, 2, 3, 4, 5]);
    let actions = driver
        .step(300, Some(message(1, Voter::Nullification(skipped.duplicate()))))
        .unwrap();
    assert_eq!(
        actions,
        vec![Action::Report(Activity::Nullification(skipped)), Action::Enter(round(2))]
    );
    assert_eq!(driver.current(), round(2));
    assert_eq!(driver.wait(), Some(1000));
    // A timeout of the round that is over is not given in the new one.
    assert_eq!(driver.step(999, None).unwrap(), Vec::new());
    assert_eq!(
        driver.step(1, None).unwrap(),
        vec![Action::Broadcast(Voter::Nullify(nullify(0, round(2))))]
    );
}

#[test]
fn a_round_whose_votes_arrive_in_time_is_notarized_without_a_timeout() {
    let mut driver = driver(Some(0), 1000, 2000);
    let proposal = proposal(1, 7);
    let mut all = Vec::new();
    all.extend(driver.step(100, Some(message(1, Voter::Notarize(notarize(1, proposal))))).unwrap());
    assert_eq!(all, vec![Action::Verify(proposal)]);
    all.extend(driver.step(200, Some(Event::Proposal(proposal))).unwrap());
    for signer in 2..5 {
        let vote = Voter::Notarize(notarize(signer, proposal));
        all.extend(driver.step(200, Some(message(signer, vote))).unwrap());
    }
    // 900 milliseconds have passed, fewer than the leader timeout.
    let formed = notarization(proposal, &[0, 1, 2, 3, 4]);
    assert_eq!(reported_notarizations(&all), vec![formed]);
    assert_eq!(nullify_broadcasts(&all), Vec::new());
    assert_eq!(notarize_broadcasts(&all), vec![notarize(0, proposal)]);
    assert_eq!(driver.current(), round(2));
    assert_eq!(driver.wait(), Some(1000));
}

#[test]
fn driver_stops_at_a_fault() {
    let mut driver = driver(None, 1000, 2000);
    assert_eq!(driver.step(999, None).unwrap(), Vec::new());
    assert_eq!(driver.step(1, None), Err(Fault::KeyUnavailable));
    assert_eq!(driver.current(), round(1));
}

#[test]
fn the_order_of_votes_does_not_change_the_certificate() {
    let proposal = proposal(1, 7);
    let mut certificates = Vec::new();
    for order in [[1u32, 2, 3, 4, 5], [5, 4, 3, 2, 1], [3, 1, 5, 2, 4]] {
        let mut machine = machine(None);
        let mut all = Vec::new();
        for signer in order {
            let vote = Voter::Notarize(notarize(signer, proposal));
            all.extend(machine.handle(message(signer, vote)).unwrap());
        }
        assert_eq!(machine.current(), round(2));
        certificates.extend(reported_notarizations(&all));
    }
    assert_eq!(certificates.len(), 3);
    assert_eq!(certificates[0], certificates[1]);
    assert_eq!(certificates[0], certificates[2]);
}

#[test]
fn whichever_vote_completes_the_quorum_the_round_is_notarized_alike() {
    let proposal = proposal(1, 7);
    let mut outcomes = Vec::new();
    for order in [[5u32, 0], [0, 5]] {
        let mut machine = machine(None);
        for signer in 1..5 {
            let vote = Voter::Notarize(notarize(signer, proposal));
            machine.handle(message(signer, vote)).unwrap();
        }
        assert_eq!(machine.current(), round(1));
        for signer in order {
            let vote = Voter::Notarize(notarize(signer, proposal));
            machine.handle(message(signer, vote)).unwrap();
        }
        assert_eq!(machine.current(), round(2));
        assert_eq!(machine.parent(), ViewNumber::new(1));
        outcomes.push(machine.outcome(ViewNumber::new(1)).unwrap());
    }
    // Both decide for the proposal; each certificate names the signers
    // that had voted when the quorum was complete.
    assert!(outcomes[0].agrees(&outcomes[1]));
    assert_eq!(outcomes[0], Outcome::Notarized(notarization(proposal, &[1, 2, 3, 4, 5])));
    assert_eq!(outcomes[1], Outcome::Notarized(notarization(proposal, &[0, 1, 2, 3, 4])));
}

#[test]
fn votes_short_of_the_quorum_may_come_in_any_order() {
    let mut one = machine(Some(0));
    let mut other = machine(Some(0));
    let first = notarize(2, proposal(1, 7));
    let second = notarize(3, proposal(1, 8));
    one.handle(message(2, Voter::Notarize(first.duplicate()))).unwrap();
    one.handle(message(3, Voter::Notarize(second.duplicate()))).unwrap();
    other.handle(message(3, Voter::Notarize(second))).unwrap();
    other.handle(message(2, Voter::Notarize(first))).unwrap();
    assert_eq!(one.current(), other.current());
    assert_eq!(one.phase(), other.phase());
    assert_eq!(one.outcome(ViewNumber::new(1)), other.outcome(ViewNumber::new(1)));
    // A second vote of either signer is evidence against it in both.
    for (signer, fill) in [(2u32, 9u8), (3, 9)] {
        let again = Voter::Notarize(notarize(signer, proposal(1, fill)));
        assert_eq!(
            one.handle(message(signer, again.clone())).unwrap(),
            other.handle(message(signer, again)).unwrap()
        );
    }
}
