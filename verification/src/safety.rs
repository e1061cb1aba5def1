use crate::quorum::lemma_quorums_share_correct_signer;
use crate::scheme::Scheme;
use crate::signers::{lemma_set_indices, set_indices};
use crate::statement::spec_notarize_statement;
use crate::trace::{lemma_never_notarizes_twice, run};
use crate::types::{CertificateView, NotarizationView, Notarize, Proposal, Vote, VoterView};
use crate::voter::{ActionView, EventView, MachineView};
use commonware_cryptography::ed25519::Signature;
use vstd::prelude::*;
use vstd::set_lib::set_int_range;

verus! {

/// Whether the participant `signer` has put its signature to `statement`:
/// there is a signature of its on it.
pub open spec fn endorsed(scheme: Scheme, signer: int, statement: Seq<u8>) -> bool {
    exists|signature| #[trigger] scheme.spec_verify(signer, statement, signature)
}

/// Whether the participant `signer` has notarized at most one proposal in
/// each round.
pub open spec fn notarizes_once(scheme: Scheme, signer: int) -> bool {
    forall|first: Proposal, second: Proposal|
        first.round == second.round && #[trigger] endorsed(
            scheme,
            signer,
            spec_notarize_statement(first),
        ) && #[trigger] endorsed(scheme, signer, spec_notarize_statement(second)) ==> first
            == second
}

/// The signers that a certificate names are as many participants as it has
/// set bits.
pub proof fn lemma_signer_set(certificate: CertificateView)
    ensures
        set_indices(certificate.signers).to_set().subset_of(
            set_int_range(0, certificate.signers.len() as int),
        ),
        set_indices(certificate.signers).to_set().len() == set_indices(certificate.signers).len(),
{
    let signers = set_indices(certificate.signers);
    lemma_set_indices(certificate.signers);
    assert(signers.no_duplicates());
    signers.unique_seq_to_set();
    assert forall|signer: int| signers.to_set().contains(signer) implies set_int_range(
        0,
        certificate.signers.len() as int,
    ).contains(signer) by {
        let k = choose|k: int| 0 <= k < signers.len() && signers[k] == signer;
        assert(0 <= signers[k] < certificate.signers.len());
    }
}

/// Two verified certificates, on whatever statements, share a signer who
/// is not among the faulty participants, if these are no more than the
/// fault model tolerates: that participant has signed both statements.
pub proof fn lemma_certificates_share_correct_signer(
    scheme: Scheme,
    first: CertificateView,
    first_statement: Seq<u8>,
    second: CertificateView,
    second_statement: Seq<u8>,
    faulty: Set<int>,
)
    requires
        scheme.spec_verify_certificate(first, first_statement),
        scheme.spec_verify_certificate(second, second_statement),
        faulty.finite(),
        faulty.len() <= scheme.spec_model().spec_max_faults(scheme.spec_participants().len()),
    ensures
        exists|signer: int|
            0 <= signer < scheme.spec_participants().len() && !faulty.contains(signer)
                && #[trigger] endorsed(scheme, signer, first_statement) && endorsed(
                scheme,
                signer,
                second_statement,
            ),
{
    let participants = scheme.spec_participants().len();
    let first_signers = set_indices(first.signers);
    let second_signers = set_indices(second.signers);
    lemma_signer_set(first);
    lemma_signer_set(second);
    lemma_quorums_share_correct_signer(
        scheme.spec_model(),
        participants,
        first_signers.to_set(),
        second_signers.to_set(),
        faulty,
    );
    let signer = choose|signer: int|
        first_signers.to_set().contains(signer) && second_signers.to_set().contains(signer)
            && !faulty.contains(signer);
    let j = choose|j: int| 0 <= j < first_signers.len() && first_signers[j] == signer;
    let k = choose|k: int| 0 <= k < second_signers.len() && second_signers[k] == signer;
    assert(scheme.spec_verify(first_signers[j], first_statement, first.signatures[j]));
    assert(scheme.spec_verify(second_signers[k], second_statement, second.signatures[k]));
    assert(endorsed(scheme, signer, first_statement));
    assert(endorsed(scheme, signer, second_statement));
}

/// No two proposals of one round are both notarized: two verified
/// notarizations for the same round are for the same proposal, provided
/// that the faulty participants are no more than the fault model tolerates
/// and every other participant notarizes at most one proposal in a round.
pub proof fn lemma_notarizations_agree(
    scheme: Scheme,
    first: NotarizationView,
    second: NotarizationView,
    faulty: Set<int>,
)
    requires
        scheme.spec_verify_certificate(
            first.certificate,
            spec_notarize_statement(first.proposal),
        ),
        scheme.spec_verify_certificate(
            second.certificate,
            spec_notarize_statement(second.proposal),
        ),
        first.proposal.round == second.proposal.round,
        faulty.finite(),
        faulty.len() <= scheme.spec_model().spec_max_faults(scheme.spec_participants().len()),
        forall|signer: int|
            0 <= signer < scheme.spec_participants().len() && !faulty.contains(signer)
                ==> #[trigger] notarizes_once(scheme, signer),
    ensures
        first.proposal == second.proposal,
{
    let first_statement = spec_notarize_statement(first.proposal);
    let second_statement = spec_notarize_statement(second.proposal);
    lemma_certificates_share_correct_signer(
        scheme,
        first.certificate,
        first_statement,
        second.certificate,
        second_statement,
        faulty,
    );
    let signer = choose|signer: int|
        0 <= signer < scheme.spec_participants().len() && !faulty.contains(signer)
            && #[trigger] endorsed(scheme, signer, first_statement) && endorsed(
            scheme,
            signer,
            second_statement,
        );
    assert(notarizes_once(scheme, signer));
}

/// Whether the voter cast the notarize vote in the course of the events.
pub open spec fn cast_in(state: MachineView, events: Seq<EventView>, notarize: Notarize) -> bool {
    exists|k: int|
        0 <= k < run(state, events).1.len() && #[trigger] run(state, events).1[k]
            == ActionView::Broadcast(VoterView::Notarize(notarize))
}

/// Whether the events are the whole of what a voter did with its key: no
/// notarize vote verifies as the voter's but those that it cast in their
/// course. This is what an unforgeable signature gives of a voter that
/// keeps its key to itself.
pub open spec fn sole_signer(state: MachineView, events: Seq<EventView>) -> bool {
    state.me() matches Some(me) && forall|proposal: Proposal, signature: Signature|
        #[trigger] state.scheme.spec_verify(
            me as int,
            spec_notarize_statement(proposal),
            signature,
        ) ==> cast_in(state, events, Notarize { proposal, vote: Vote { signer: me, signature } })
}

/// Whether two schemes verify alike: they are for the same participants
/// under the same namespace.
pub open spec fn same_participants(first: Scheme, second: Scheme) -> bool {
    first.spec_participants() == second.spec_participants() && first.spec_namespace()
        == second.spec_namespace()
}

/// A voter that is the sole user of its key notarizes at most one proposal
/// in each round, whatever events reach it and whoever verifies its votes.
pub proof fn lemma_voter_notarizes_once(
    verifier: Scheme,
    state: MachineView,
    events: Seq<EventView>,
)
    requires
        state.wf(),
        same_participants(verifier, state.scheme),
        sole_signer(state, events),
    ensures
        notarizes_once(verifier, state.me().unwrap() as int),
{
    let me = state.me().unwrap();
    let asked = run(state, events).1;
    assert forall|first: Proposal, second: Proposal|
        first.round == second.round && #[trigger] endorsed(
            verifier,
            me as int,
            spec_notarize_statement(first),
        ) && #[trigger] endorsed(
            verifier,
            me as int,
            spec_notarize_statement(second),
        ) implies first == second by {
        let first_signature = choose|signature|
            #[trigger] verifier.spec_verify(
                me as int,
                spec_notarize_statement(first),
                signature,
            );
        let second_signature = choose|signature|
            #[trigger] verifier.spec_verify(
                me as int,
                spec_notarize_statement(second),
                signature,
            );
        assert(state.scheme.spec_verify(
            me as int,
            spec_notarize_statement(first),
            first_signature,
        ));
        assert(state.scheme.spec_verify(
            me as int,
            spec_notarize_statement(second),
            second_signature,
        ));
        let first_vote = Notarize {
            proposal: first,
            vote: Vote { signer: me, signature: first_signature },
        };
        let second_vote = Notarize {
            proposal: second,
            vote: Vote { signer: me, signature: second_signature },
        };
        assert(cast_in(state, events, first_vote));
        assert(cast_in(state, events, second_vote));
        let j = choose|k: int|
            0 <= k < asked.len() && #[trigger] asked[k] == ActionView::Broadcast(
                VoterView::Notarize(first_vote),
            );
        let k = choose|k: int|
            0 <= k < asked.len() && #[trigger] asked[k] == ActionView::Broadcast(
                VoterView::Notarize(second_vote),
            );
        if j < k {
            lemma_never_notarizes_twice(state, events, j, k, first_vote, second_vote);
        } else if k < j {
            lemma_never_notarizes_twice(state, events, k, j, second_vote, first_vote);
        }
    }
}

/// No two proposals of one round are both notarized, whatever messages
/// reach the voters and whatever the faulty participants sign: two
/// verified notarizations for the same round are for the same proposal,
/// provided that the faulty participants are no more than the fault model
/// tolerates and that every other participant runs a voter that is the
/// sole user of its key.
pub proof fn lemma_voters_agree(
    scheme: Scheme,
    first: NotarizationView,
    second: NotarizationView,
    faulty: Set<int>,
    voters: Seq<MachineView>,
    histories: Seq<Seq<EventView>>,
)
    requires
        scheme.spec_verify_certificate(
            first.certificate,
            spec_notarize_statement(first.proposal),
        ),
        scheme.spec_verify_certificate(
            second.certificate,
            spec_notarize_statement(second.proposal),
        ),
        first.proposal.round == second.proposal.round,
        faulty.finite(),
        faulty.len() <= scheme.spec_model().spec_max_faults(scheme.spec_participants().len()),
        voters.len() == scheme.spec_participants().len(),
        histories.len() == voters.len(),
        forall|signer: int|
            0 <= signer < voters.len() && !faulty.contains(signer) ==> {
                &&& (#[trigger] voters[signer]).wf()
                &&& voters[signer].me() == Some(signer as u32)
                &&& same_participants(scheme, voters[signer].scheme)
                &&& sole_signer(voters[signer], histories[signer])
            },
    ensures
        first.proposal == second.proposal,
{
    assert forall|signer: int|
        0 <= signer < scheme.spec_participants().len() && !faulty.contains(
            signer,
        ) implies #[trigger] notarizes_once(scheme, signer) by {
        assert(voters[signer].wf());
        lemma_voter_notarizes_once(scheme, voters[signer], histories[signer]);
    }
    lemma_notarizations_agree(scheme, first, second, faulty);
}

} // verus!
