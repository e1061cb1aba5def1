use commonware_cryptography::ed25519::{PrivateKey, PublicKey};
use commonware_cryptography::{Signer, Verifier};
use commonware_utils::bitmap::BitMap;
use minimmit::quorum::FaultModel;
use minimmit::scheme::{Scheme, SchemeError};
use minimmit::statement::{notarize_statement, nullify_statement, NOTARIZE_TAG, NULLIFY_TAG};
use minimmit::timers::Timers;
use minimmit::voter::Event;
use minimmit::types::{
    digest_eq, Certificate, Epoch, Notarization, Notarize, Nullification, Nullify, Proposal, Round,
    ViewNumber, Vote, Voter,
};

const NAMESPACE: &[u8] = b"minimmit";

fn keys(count: u64) -> Vec<PrivateKey> {
    (0..count).map(PrivateKey::from_seed).collect()
}

fn public_keys(keys: &[PrivateKey]) -> Vec<PublicKey> {
    keys.iter().map(|key| key.public_key()).collect()
}

fn scheme(count: u64, me: Option<u32>, model: FaultModel) -> Scheme {
    let keys = keys(count);
    let signer = me.map(|index| (index, keys[index as usize].clone()));
    Scheme::new(public_keys(&keys), signer, NAMESPACE.to_vec(), model).unwrap()
}

fn proposal(view: u64, parent: u64, fill: u8) -> Proposal {
    Proposal {
        round: Round::new(Epoch::new(0), ViewNumber::new(view)),
        parent: ViewNumber::new(parent),
        payload: [fill; 32],
    }
}

fn vote(keys: &[PrivateKey], signer: u32, statement: &[u8]) -> Vote {
    Vote { signer, signature: keys[signer as usize].sign(NAMESPACE, statement) }
}

fn votes(keys: &[PrivateKey], signers: &[u32], statement: &[u8]) -> Vec<Vote> {
    signers.iter().map(|signer| vote(keys, *signer, statement)).collect()
}

fn set_bits(certificate: &Certificate) -> Vec<u64> {
    (0..certificate.signers.len()).filter(|bit| certificate.signers.get(*bit)).collect()
}

#[test]
fn quorum_of_six_is_five() {
    assert_eq!(FaultModel::OneInFive.max_faults(6), 1);
    assert_eq!(FaultModel::OneInFive.quorum_threshold(6), 5);
    assert_eq!(FaultModel::OneInThree.max_faults(6), 1);
    assert_eq!(FaultModel::OneInThree.quorum_threshold(6), 5);
}

#[test]
fn quorum_threshold_values() {
    assert_eq!(FaultModel::OneInThree.ratio(), 3);
    assert_eq!(FaultModel::OneInFive.ratio(), 5);
    assert_eq!(FaultModel::OneInThree.quorum_threshold(0), 1);
    assert_eq!(FaultModel::OneInFive.quorum_threshold(0), 1);
    assert_eq!(FaultModel::OneInThree.quorum_threshold(1), 1);
    assert_eq!(FaultModel::OneInThree.quorum_threshold(3), 3);
    assert_eq!(FaultModel::OneInThree.quorum_threshold(4), 3);
    assert_eq!(FaultModel::OneInThree.quorum_threshold(7), 5);
    assert_eq!(FaultModel::OneInThree.quorum_threshold(10), 7);
    assert_eq!(FaultModel::OneInFive.quorum_threshold(5), 5);
    assert_eq!(FaultModel::OneInFive.quorum_threshold(11), 9);
    assert_eq!(FaultModel::OneInFive.quorum_threshold(16), 13);
    assert_eq!(FaultModel::OneInThree.max_faults(0), 0);
    assert_eq!(FaultModel::OneInThree.max_faults(u32::MAX), 1431655764);
    assert_eq!(FaultModel::OneInThree.quorum_threshold(u32::MAX), 2863311531);
    assert_eq!(FaultModel::OneInFive.quorum_threshold(u32::MAX), 3435973837);
}

#[test]
fn two_quorums_outnumber_the_participants() {
    for participants in 0u32..2000 {
        for model in [FaultModel::OneInThree, FaultModel::OneInFive] {
            let quorum = model.quorum_threshold(participants) as u64;
            assert!(2 * quorum > participants as u64);
            if participants > 0 {
                assert_eq!(quorum + model.max_faults(participants) as u64, participants as u64);
            }
        }
    }
}

#[test]
fn scheme_quorum_threshold_follows_its_model() {
    let fast = scheme(6, Some(0), FaultModel::OneInFive);
    assert_eq!(fast.quorum_threshold(6), 5);
    assert_eq!(fast.quorum_threshold(11), 9);
    assert_eq!(fast.quorum(), 5);
    assert_eq!(fast.participant_count(), 6);
    assert_eq!(fast.model(), FaultModel::OneInFive);
    let classical = scheme(10, None, FaultModel::OneInThree);
    assert_eq!(classical.quorum_threshold(11), 8);
    assert_eq!(classical.quorum(), 7);
}

#[test]
fn notarize_statement_bytes() {
    let proposal = Proposal {
        round: Round::new(Epoch::new(0x0102), ViewNumber::new(3)),
        parent: ViewNumber::new(2),
        payload: [0xab; 32],
    };
    let mut expected = vec![NOTARIZE_TAG];
    expected.extend_from_slice(&[0x02, 0x01, 0, 0, 0, 0, 0, 0]);
    expected.extend_from_slice(&[3, 0, 0, 0, 0, 0, 0, 0]);
    expected.extend_from_slice(&[2, 0, 0, 0, 0, 0, 0, 0]);
    expected.extend_from_slice(&[0xab; 32]);
    assert_eq!(notarize_statement(&proposal), expected);
    assert_eq!(expected.len(), 57);
    assert_eq!(NOTARIZE_TAG, 0);
}

#[test]
fn nullify_statement_bytes() {
    let round = Round::new(Epoch::new(u64::MAX), ViewNumber::new(0x0100));
    let mut expected = vec![NULLIFY_TAG];
    expected.extend_from_slice(&[0xff; 8]);
    expected.extend_from_slice(&[0, 1, 0, 0, 0, 0, 0, 0]);
    assert_eq!(nullify_statement(round), expected);
    assert_eq!(NULLIFY_TAG, 1);
}

#[test]
fn statements_of_different_proposals_differ() {
    let base = proposal(3, 2, 7);
    assert_ne!(notarize_statement(&base), notarize_statement(&proposal(4, 2, 7)));
    assert_ne!(notarize_statement(&base), notarize_statement(&proposal(3, 1, 7)));
    assert_ne!(notarize_statement(&base), notarize_statement(&proposal(3, 2, 8)));
    assert_ne!(notarize_statement(&base), nullify_statement(base.round));
    let other_epoch = Round::new(Epoch::new(1), ViewNumber::new(3));
    assert_ne!(nullify_statement(base.round), nullify_statement(other_epoch));
}

#[test]
fn digests_and_proposals_compare_by_content() {
    let mut left = [1u8; 32];
    let right = [1u8; 32];
    assert!(digest_eq(&left, &right));
    left[31] = 2;
    assert!(!digest_eq(&left, &right));
    assert!(proposal(3, 2, 7).same(&proposal(3, 2, 7)));
    assert!(!proposal(3, 2, 7).same(&proposal(3, 2, 8)));
    assert!(!proposal(3, 2, 7).same(&proposal(3, 1, 7)));
    assert!(!proposal(3, 2, 7).same(&proposal(4, 2, 7)));
}

#[test]
fn types_hold_what_they_are_given() {
    assert_eq!(Epoch::new(9).get(), 9);
    assert_eq!(ViewNumber::new(4).get(), 4);
    let round = Round::new(Epoch::new(9), ViewNumber::new(4));
    assert_eq!(round.epoch, Epoch::new(9));
    assert_eq!(round.view, ViewNumber::new(4));
}

#[test]
fn scheme_needs_a_signer_among_the_participants() {
    let keys = keys(4);
    let none = Scheme::new(
        public_keys(&keys),
        Some((4, keys[0].clone())),
        NAMESPACE.to_vec(),
        FaultModel::OneInThree,
    );
    assert!(none.is_none());
    let last = Scheme::new(
        public_keys(&keys),
        Some((3, keys[3].clone())),
        NAMESPACE.to_vec(),
        FaultModel::OneInThree,
    );
    assert_eq!(last.unwrap().me(), Some(3));
    let watcher =
        Scheme::new(public_keys(&keys), None, NAMESPACE.to_vec(), FaultModel::OneInThree).unwrap();
    assert_eq!(watcher.me(), None);
    assert_eq!(watcher.participant_count(), 4);
    let nobody = Scheme::new(Vec::new(), None, NAMESPACE.to_vec(), FaultModel::OneInThree).unwrap();
    assert_eq!(nobody.participant_count(), 0);
    assert_eq!(nobody.quorum(), 1);
}

#[test]
fn sign_without_key_is_key_unavailable() {
    let watcher = scheme(6, None, FaultModel::OneInFive);
    assert_eq!(watcher.sign(b"statement"), Err(SchemeError::KeyUnavailable));
}

#[test]
fn sign_gives_the_signers_vote_under_the_namespace() {
    let keys = keys(6);
    let signer = scheme(6, Some(2), FaultModel::OneInFive);
    let vote = signer.sign(b"statement").unwrap();
    assert_eq!(vote.signer, 2);
    assert_eq!(vote.signature, keys[2].sign(NAMESPACE, b"statement"));
    assert!(keys[2].public_key().verify(NAMESPACE, b"statement", &vote.signature));
    assert!(!keys[2].public_key().verify(b"other", b"statement", &vote.signature));
    assert_ne!(vote.signature, signer.sign(b"another").unwrap().signature);
    assert_eq!(vote.duplicate(), vote);
}

#[test]
fn verify_accepts_only_the_signers_signature_on_the_statement() {
    let keys = keys(6);
    let scheme = scheme(6, None, FaultModel::OneInFive);
    let signature = keys[1].sign(NAMESPACE, b"statement");
    assert!(scheme.verify(1, b"statement", &signature));
    assert!(!scheme.verify(2, b"statement", &signature));
    assert!(!scheme.verify(1, b"statemenT", &signature));
    assert!(!scheme.verify(6, b"statement", &signature));
    assert!(!scheme.verify(u32::MAX, b"statement", &signature));
    let elsewhere = keys[1].sign(b"elsewhere", b"statement");
    assert!(!scheme.verify(1, b"statement", &elsewhere));
}

#[test]
fn aggregate_needs_a_quorum() {
    let keys = keys(6);
    let scheme = scheme(6, None, FaultModel::OneInFive);
    let few = votes(&keys, &[0, 1, 2, 3], b"statement");
    assert_eq!(scheme.aggregate(&few, b"statement"), Err(SchemeError::InsufficientSigners));
    assert_eq!(scheme.aggregate(&Vec::new(), b"statement"), Err(SchemeError::InsufficientSigners));
}

#[test]
fn aggregate_refuses_duplicate_signers() {
    let keys = keys(6);
    let scheme = scheme(6, None, FaultModel::OneInFive);
    let repeated = votes(&keys, &[0, 1, 2, 3, 1], b"statement");
    assert_eq!(scheme.aggregate(&repeated, b"statement"), Err(SchemeError::DuplicateSigner));
    let mut with_stranger = votes(&keys, &[0, 1, 2, 3, 4], b"statement");
    with_stranger.push(Vote { signer: 9, signature: keys[0].sign(NAMESPACE, b"statement") });
    with_stranger.push(Vote { signer: 9, signature: keys[1].sign(NAMESPACE, b"statement") });
    assert_eq!(scheme.aggregate(&with_stranger, b"statement"), Err(SchemeError::DuplicateSigner));
    // Too few votes are reported before a repeated signer.
    let short = votes(&keys, &[0, 0, 1], b"statement");
    assert_eq!(scheme.aggregate(&short, b"statement"), Err(SchemeError::InsufficientSigners));
}

#[test]
fn aggregate_refuses_unknown_signers() {
    let keys = keys(6);
    let scheme = scheme(6, None, FaultModel::OneInFive);
    let mut with_stranger = votes(&keys, &[0, 1, 2, 3], b"statement");
    with_stranger.push(Vote { signer: 6, signature: keys[5].sign(NAMESPACE, b"statement") });
    assert_eq!(scheme.aggregate(&with_stranger, b"statement"), Err(SchemeError::UnknownSigner));
}

#[test]
fn aggregate_orders_signatures_by_signer() {
    let keys = keys(6);
    let scheme = scheme(6, None, FaultModel::OneInFive);
    let gathered = votes(&keys, &[5, 0, 3, 1, 4], b"statement");
    let certificate = scheme.aggregate(&gathered, b"statement").unwrap();
    assert_eq!(certificate.signers.len(), 6);
    assert_eq!(set_bits(&certificate), vec![0, 1, 3, 4, 5]);
    assert_eq!(certificate.signers.count_ones(), 5);
    let expected: Vec<_> =
        [0u32, 1, 3, 4, 5].iter().map(|signer| keys[*signer as usize].sign(NAMESPACE, b"statement")).collect();
    assert_eq!(certificate.signatures, expected);
    assert!(scheme.verify_certificate(&certificate, b"statement"));
    let copy = certificate.duplicate();
    assert_eq!(copy, certificate);
}

#[test]
fn aggregate_of_all_participants_verifies() {
    let keys = keys(6);
    let scheme = scheme(6, Some(0), FaultModel::OneInFive);
    let gathered = votes(&keys, &[0, 1, 2, 3, 4, 5], b"statement");
    let certificate = scheme.aggregate(&gathered, b"statement").unwrap();
    assert_eq!(set_bits(&certificate), vec![0, 1, 2, 3, 4, 5]);
    assert!(scheme.verify_certificate(&certificate, b"statement"));
}

#[test]
fn aggregate_does_not_check_signatures() {
    let keys = keys(6);
    let scheme = scheme(6, None, FaultModel::OneInFive);
    let mut gathered = votes(&keys, &[0, 1, 2, 3], b"statement");
    gathered.push(vote(&keys, 4, b"something else"));
    let certificate = scheme.aggregate(&gathered, b"statement").unwrap();
    assert_eq!(set_bits(&certificate), vec![0, 1, 2, 3, 4]);
    assert!(!scheme.verify_certificate(&certificate, b"statement"));
}

#[test]
fn verified_certificate_has_a_quorum_of_distinct_signers() {
    let keys = keys(6);
    let scheme = scheme(6, None, FaultModel::OneInFive);
    let statement = nullify_statement(Round::new(Epoch::new(0), ViewNumber::new(3)));
    let gathered = votes(&keys, &[1, 2, 3, 4, 5], &statement);
    let certificate = scheme.aggregate(&gathered, &statement).unwrap();
    assert!(scheme.verify_certificate(&certificate, &statement));
    let signers = set_bits(&certificate);
    assert!(signers.len() as u32 >= scheme.quorum());
    let mut distinct = signers.clone();
    distinct.dedup();
    assert_eq!(distinct, signers);
}

#[test]
fn verify_certificate_refuses_another_statement() {
    let keys = keys(6);
    let scheme = scheme(6, None, FaultModel::OneInFive);
    let gathered = votes(&keys, &[0, 1, 2, 3, 4], b"statement");
    let certificate = scheme.aggregate(&gathered, b"statement").unwrap();
    assert!(!scheme.verify_certificate(&certificate, b"statemenT"));
}

#[test]
fn verify_certificate_refuses_fewer_signers_than_the_quorum() {
    let keys = keys(6);
    let scheme = scheme(6, None, FaultModel::OneInFive);
    let mut signers = BitMap::<1>::zeroes(6);
    let mut signatures = Vec::new();
    for signer in [0u32, 1, 2, 3] {
        signers.set(signer as u64, true);
        signatures.push(keys[signer as usize].sign(NAMESPACE, b"statement"));
    }
    let certificate = Certificate { signers, signatures };
    assert!(!scheme.verify_certificate(&certificate, b"statement"));
}

#[test]
fn verify_certificate_refuses_misplaced_signatures() {
    let keys = keys(6);
    let scheme = scheme(6, None, FaultModel::OneInFive);
    let gathered = votes(&keys, &[0, 1, 2, 3, 4], b"statement");
    let good = scheme.aggregate(&gathered, b"statement").unwrap();
    let mut swapped = good.duplicate();
    swapped.signatures.swap(0, 1);
    assert!(!scheme.verify_certificate(&swapped, b"statement"));
    let mut short = good.duplicate();
    short.signatures.pop();
    assert!(!scheme.verify_certificate(&short, b"statement"));
    let mut long = good.duplicate();
    long.signatures.push(keys[5].sign(NAMESPACE, b"statement"));
    assert!(!scheme.verify_certificate(&long, b"statement"));
    let mut shifted = good.duplicate();
    shifted.signers.set(4, false);
    shifted.signers.set(5, true);
    assert!(!scheme.verify_certificate(&shifted, b"statement"));
}

#[test]
fn verify_certificate_refuses_a_bitmap_of_another_length() {
    let keys = keys(6);
    let scheme = scheme(6, None, FaultModel::OneInFive);
    let mut signers = BitMap::<1>::zeroes(7);
    let mut signatures = Vec::new();
    for signer in [0u32, 1, 2, 3, 4] {
        signers.set(signer as u64, true);
        signatures.push(keys[signer as usize].sign(NAMESPACE, b"statement"));
    }
    let long = Certificate { signers, signatures: signatures.clone() };
    assert!(!scheme.verify_certificate(&long, b"statement"));
    let mut signers = BitMap::<1>::zeroes(5);
    for signer in [0u64, 1, 2, 3, 4] {
        signers.set(signer, true);
    }
    let short = Certificate { signers, signatures };
    assert!(!scheme.verify_certificate(&short, b"statement"));
}

#[test]
fn five_of_six_notarize_votes_make_a_certificate() {
    let keys = keys(6);
    let scheme = scheme(6, None, FaultModel::OneInFive);
    assert_eq!(scheme.quorum(), 5);
    let proposal = proposal(3, 2, 7);
    let statement = notarize_statement(&proposal);
    let gathered = votes(&keys, &[0, 1, 2, 3, 4], &statement);
    for vote in gathered.iter() {
        assert!(scheme.verify(vote.signer, &statement, &vote.signature));
    }
    let certificate = scheme.aggregate(&gathered, &statement).unwrap();
    assert!(scheme.verify_certificate(&certificate, &statement));
    assert!(!scheme.verify_certificate(&certificate, &nullify_statement(proposal.round)));
}

#[test]
fn messages_copy_and_compare() {
    let keys = keys(6);
    let scheme = scheme(6, None, FaultModel::OneInFive);
    let proposal = proposal(3, 2, 7);
    let statement = notarize_statement(&proposal);
    let notarize = Notarize { proposal, vote: vote(&keys, 1, &statement) };
    assert_eq!(notarize.duplicate(), notarize);
    let round = proposal.round;
    let nullify = Nullify { round, vote: vote(&keys, 1, &nullify_statement(round)) };
    assert_eq!(nullify.duplicate(), nullify);
    let certificate = scheme.aggregate(&votes(&keys, &[0, 1, 2, 3, 4], &statement), &statement).unwrap();
    let notarization = Notarization { proposal, certificate: certificate.duplicate() };
    assert_eq!(notarization.duplicate(), notarization);
    let nullification = Nullification { round, certificate };
    assert_eq!(nullification.duplicate(), nullification);
    assert_ne!(Voter::Notarize(notarize), Voter::Nullify(nullify));
}

fn round(view: u64) -> Round {
    Round::new(Epoch::new(0), ViewNumber::new(view))
}

#[test]
fn timers_start_with_their_full_length() {
    let timers = Timers::start(1000, 2000, round(3));
    assert_eq!(timers.leader_timeout, 1000);
    assert_eq!(timers.notarization_timeout, 2000);
    assert_eq!(timers.round, round(3));
    assert_eq!(timers.leader, Some(1000));
    assert_eq!(timers.notarization, Some(2000));
    assert_eq!(timers.wait(), Some(1000));
    assert_eq!(Timers::start(3000, 2000, round(3)).wait(), Some(2000));
}

#[test]
fn timers_run_out_once_each() {
    let mut timers = Timers::start(1000, 2000, round(3));
    assert_eq!(timers.elapse(999), Vec::new());
    assert_eq!(timers.leader, Some(1));
    assert_eq!(timers.notarization, Some(1001));
    assert_eq!(timers.wait(), Some(1));
    assert_eq!(timers.elapse(1), vec![Event::LeaderTimeout(round(3))]);
    assert_eq!(timers.leader, None);
    assert_eq!(timers.notarization, Some(1000));
    assert_eq!(timers.wait(), Some(1000));
    assert_eq!(timers.elapse(400), Vec::new());
    assert_eq!(timers.elapse(u64::MAX), vec![Event::NotarizationTimeout(round(3))]);
    assert_eq!(timers.wait(), None);
    assert_eq!(timers.elapse(u64::MAX), Vec::new());
    assert_eq!(timers.leader_timeout, 1000);
    assert_eq!(timers.notarization_timeout, 2000);
}

#[test]
fn timers_that_run_out_together_give_the_leader_timeout_first() {
    let mut timers = Timers::start(1000, 2000, round(3));
    assert_eq!(
        timers.elapse(2000),
        vec![Event::LeaderTimeout(round(3)), Event::NotarizationTimeout(round(3))]
    );
    let mut instant = Timers::start(0, 0, round(1));
    assert_eq!(instant.wait(), Some(0));
    assert_eq!(
        instant.elapse(0),
        vec![Event::LeaderTimeout(round(1)), Event::NotarizationTimeout(round(1))]
    );
}

#[test]
fn entering_a_round_starts_both_timers_anew() {
    let mut timers = Timers::start(1000, 2000, round(3));
    timers.elapse(1500);
    timers.enter(round(4));
    assert_eq!(timers, Timers::start(1000, 2000, round(4)));
    assert_eq!(timers.elapse(1000), vec![Event::LeaderTimeout(round(4))]);
}

#[test]
fn two_quorums_of_six_share_a_signer() {
    // Every two sets of five out of six indices have four in common.
    for left_out in 0u32..6 {
        for right_out in 0u32..6 {
            let common = (0u32..6).filter(|index| *index != left_out && *index != right_out).count();
            assert!(common >= 2 * 5 - 6);
            assert!(common > FaultModel::OneInFive.max_faults(6) as usize);
        }
    }
}
