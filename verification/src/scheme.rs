use crate::ed25519::{sign_message, signature_of, signature_verifies, verify_signature};
use crate::quorum::{lemma_quorum_majority, FaultModel};
use crate::signers::{
    bitmap_bits, bitmap_get, bitmap_len, bitmap_set, bitmap_zeroes, lemma_set_indices,
    lemma_set_indices_prefix, set_indices,
};
use crate::types::{Certificate, CertificateView, Vote};
use commonware_cryptography::ed25519::{PrivateKey, PublicKey, Signature};
use commonware_utils::bitmap::BitMap;
use vstd::prelude::*;

verus! {

/// Why the signing scheme refused a request.
#[derive(Clone, Copy, Debug, PartialEq, Eq, Structural)]
pub enum SchemeError {
    /// The scheme holds no signing key.
    KeyUnavailable,
    /// Fewer votes than the quorum threshold.
    InsufficientSigners,
    /// Two votes name the same signer.
    DuplicateSigner,
    /// A vote names a signer outside the participant set.
    UnknownSigner,
}

/// The signing capability of one participant: the public keys of all
/// participants in index order, the participant's own index and key if it
/// has one, the namespace under which every statement is signed, and the
/// fault model from which the quorum threshold follows.
pub struct Scheme {
    participants: Vec<PublicKey>,
    signer: Option<(u32, PrivateKey)>,
    namespace: Vec<u8>,
    model: FaultModel,
}

/// Whether two of the votes name the same signer.
pub open spec fn has_duplicate_signer(votes: Seq<Vote>) -> bool {
    exists|i: int, j: int| 0 <= i < j < votes.len() && votes[i].signer == votes[j].signer
}

/// Whether one of the votes names a signer outside `participants` members.
pub open spec fn has_unknown_signer(votes: Seq<Vote>, participants: nat) -> bool {
    exists|i: int| 0 <= i < votes.len() && votes[i].signer >= participants
}

/// The signature of the last of the votes that names `signer`.
pub open spec fn signature_by(votes: Seq<Vote>, signer: int) -> Option<Signature>
    decreases votes.len(),
{
    if votes.len() == 0 {
        None
    } else if votes.last().signer == signer {
        Some(votes.last().signature)
    } else {
        signature_by(votes.drop_last(), signer)
    }
}

/// The certificate made of the votes: the bit of each signer among
/// `participants` members, and the signers' signatures in index order.
pub open spec fn spec_assemble(votes: Seq<Vote>, participants: nat) -> CertificateView {
    let signers = Seq::new(participants, |signer: int| signature_by(votes, signer) is Some);
    CertificateView {
        signers,
        signatures: set_indices(signers).map_values(
            |signer: int| signature_by(votes, signer).unwrap(),
        ),
    }
}

impl Scheme {
    pub closed spec fn spec_participants(&self) -> Seq<PublicKey> {
        self.participants@
    }

    pub closed spec fn spec_signer(&self) -> Option<(u32, PrivateKey)> {
        self.signer
    }

    pub closed spec fn spec_namespace(&self) -> Seq<u8> {
        self.namespace@
    }

    pub closed spec fn spec_model(&self) -> FaultModel {
        self.model
    }

    /// The participant set fits the index type, the scheme's own index
    /// lies in it, and the namespace is no longer than a signed statement
    /// can say.
    pub open spec fn wf(&self) -> bool {
        &&& self.spec_participants().len() <= u32::MAX
        &&& self.spec_signer() matches Some(own) ==> own.0 < self.spec_participants().len()
        &&& self.spec_namespace().len() <= u32::MAX
    }

    /// The quorum threshold of the scheme's own participant set.
    pub open spec fn spec_quorum(&self) -> nat {
        self.spec_model().spec_quorum_threshold(self.spec_participants().len())
    }

    /// Whether `signature` is the participant `signer`'s on `statement`.
    pub open spec fn spec_verify(&self, signer: int, statement: Seq<u8>, signature: Signature) -> bool {
        &&& 0 <= signer < self.spec_participants().len()
        &&& signature_verifies(
            self.spec_participants()[signer],
            self.spec_namespace(),
            statement,
            signature,
        )
    }

    /// Whether every vote is its signer's signature on `statement`.
    pub open spec fn spec_votes_verify(&self, votes: Seq<Vote>, statement: Seq<u8>) -> bool {
        forall|i: int|
            0 <= i < votes.len() ==> self.spec_verify(
                #[trigger] votes[i].signer as int,
                statement,
                votes[i].signature,
            )
    }

    /// Whether a certificate proves that a quorum signed `statement`: it has
    /// one bit per participant, one signature per set bit, at least a quorum
    /// of them, and each signature is that of the signer in its place.
    pub open spec fn spec_verify_certificate(
        &self,
        certificate: CertificateView,
        statement: Seq<u8>,
    ) -> bool {
        let signers = set_indices(certificate.signers);
        &&& certificate.signers.len() == self.spec_participants().len()
        &&& signers.len() == certificate.signatures.len()
        &&& signers.len() >= self.spec_quorum()
        &&& forall|k: int|
            0 <= k < signers.len() ==> self.spec_verify(
                #[trigger] signers[k],
                statement,
                certificate.signatures[k],
            )
    }

    /// What `aggregate` answers on `votes`.
    pub open spec fn spec_aggregate(&self, votes: Seq<Vote>) -> Result<CertificateView, SchemeError> {
        if votes.len() < self.spec_quorum() {
            Err(SchemeError::InsufficientSigners)
        } else if has_duplicate_signer(votes) {
            Err(SchemeError::DuplicateSigner)
        } else if has_unknown_signer(votes, self.spec_participants().len()) {
            Err(SchemeError::UnknownSigner)
        } else {
            Ok(spec_assemble(votes, self.spec_participants().len()))
        }
    }

    /// A scheme for `participants`, signing as `signer` if given. There is
    /// none where the participants outnumber the index type, the signer's
    /// index is not among them, or the length of the namespace does not fit
    /// the four bytes in which a signed statement carries it.
    pub fn new(
        participants: Vec<PublicKey>,
        signer: Option<(u32, PrivateKey)>,
        namespace: Vec<u8>,
        model: FaultModel,
    ) -> (scheme: Option<Scheme>)
        ensures
            scheme is Some <==> participants.len() <= u32::MAX && namespace.len() <= u32::MAX && (
            signer matches Some(own) ==> own.0 < participants.len()),
            scheme matches Some(made) ==> {
                &&& made.wf()
                &&& made.spec_participants() == participants@
                &&& made.spec_signer() == signer
                &&& made.spec_namespace() == namespace@
                &&& made.spec_model() == model
            },
    {
        if participants.len() > u32::MAX as usize || namespace.len() > u32::MAX as usize {
            return None;
        }
        let known: bool = match &signer {
            Some(own) => (own.0 as usize) < participants.len(),
            None => true,
        };
        if !known {
            return None;
        }
        Some(Scheme { participants, signer, namespace, model })
    }

    pub fn participant_count(&self) -> (count: u32)
        requires
            self.wf(),
        ensures
            count == self.spec_participants().len(),
    {
        self.participants.len() as u32
    }

    /// The scheme's own index, if it can sign.
    pub fn me(&self) -> (index: Option<u32>)
        ensures
            index == match self.spec_signer() {
                Some(own) => Some(own.0),
                None => None,
            },
    {
        match &self.signer {
            Some(own) => Some(own.0),
            None => None,
        }
    }

    pub fn model(&self) -> (model: FaultModel)
        ensures
            model == self.spec_model(),
    {
        self.model
    }

    /// The quorum threshold for `participant_count` members under the
    /// scheme's fault model. Any two quorums share a member.
    pub fn quorum_threshold(&self, participant_count: u32) -> (quorum: u32)
        ensures
            quorum == self.spec_model().spec_quorum_threshold(participant_count as nat),
            quorum + quorum > participant_count,
    {
        self.model.quorum_threshold(participant_count)
    }

    /// The quorum threshold of the scheme's own participant set.
    pub fn quorum(&self) -> (quorum: u32)
        requires
            self.wf(),
        ensures
            quorum == self.spec_quorum(),
            quorum + quorum > self.spec_participants().len(),
    {
        self.model.quorum_threshold(self.participant_count())
    }

    /// Signs `statement` under the scheme's namespace.
    pub fn sign(&self, statement: &[u8]) -> (vote: Result<Vote, SchemeError>)
        requires
            self.wf(),
        ensures
            vote == match self.spec_signer() {
                Some(own) => Ok(
                    Vote {
                        signer: own.0,
                        signature: signature_of(own.1, self.spec_namespace(), statement@),
                    },
                ),
                None => Err(SchemeError::KeyUnavailable),
            },
    {
        match &self.signer {
            Some(own) => Ok(
                Vote {
                    signer: own.0,
                    signature: sign_message(&own.1, self.namespace.as_slice(), statement),
                },
            ),
            None => Err(SchemeError::KeyUnavailable),
        }
    }

    /// Whether `signature` is the participant `signer`'s on `statement`
    /// under the scheme's namespace.
    pub fn verify(&self, signer: u32, statement: &[u8], signature: &Signature) -> (ok: bool)
        requires
            self.wf(),
        ensures
            ok == self.spec_verify(signer as int, statement@, *signature),
    {
        if (signer as usize) < self.participants.len() {
            verify_signature(
                &self.participants[signer as usize],
                self.namespace.as_slice(),
                statement,
                signature,
            )
        } else {
            false
        }
    }

    /// Whether `certificate` proves that a quorum signed `statement`.
    pub fn verify_certificate(&self, certificate: &Certificate, statement: &[u8]) -> (ok: bool)
        requires
            self.wf(),
        ensures
            ok == self.spec_verify_certificate(certificate@, statement@),
            ok ==> set_indices(certificate@.signers).len() >= self.spec_quorum()
                && set_indices(certificate@.signers).no_duplicates(),
    {
        let count: u32 = self.participant_count();
        let quorum: u32 = self.quorum();
        let ghost bits = certificate@.signers;
        let ghost signers = set_indices(bits);
        proof {
            lemma_set_indices(bits);
        }
        if bitmap_len(&certificate.signers) != count as u64 {
            return false;
        }
        let mut signer: u32 = 0;
        let mut found: usize = 0;
        while signer < count
            invariant
                self.wf(),
                bits == certificate@.signers,
                signers == set_indices(bits),
                bits.len() == count,
                count == self.spec_participants().len(),
                signer <= count,
                found == set_indices(bits.take(signer as int)).len(),
                found <= certificate.signatures.len(),
                found <= signer,
                found <= signers.len(),
                forall|k: int|
                    0 <= k < found ==> self.spec_verify(
                        #[trigger] signers[k],
                        statement@,
                        certificate.signatures@[k],
                    ),
            decreases count - signer,
        {
            proof {
                lemma_set_indices_prefix(bits, signer as int);
                lemma_set_indices_prefix(bits, signer + 1);
                assert(bits.take(signer + 1).drop_last() == bits.take(signer as int));
            }
            if bitmap_get(&certificate.signers, signer as u64) {
                proof {
                    let next = set_indices(bits.take(signer + 1));
                    assert(bits.take(signer + 1).last());
                    assert(next == set_indices(bits.take(signer as int)).push(signer as int));
                    assert(next[found as int] == signer);
                    assert(next == signers.take(next.len() as int));
                    assert(signers[found as int] == signer);
                }
                if found >= certificate.signatures.len() {
                    return false;
                }
                if !self.verify(signer, statement, &certificate.signatures[found]) {
                    return false;
                }
                found += 1;
            }
            signer += 1;
        }
        assert(bits.take(count as int) == bits);
        found == certificate.signatures.len() && found >= quorum as usize
    }

    /// Gathers the votes of a quorum into a certificate for `statement`. The
    /// signatures are gathered as they are: the certificate proves the
    /// statement if every vote does.
    pub fn aggregate(&self, votes: &Vec<Vote>, statement: &[u8]) -> (certificate: Result<
        Certificate,
        SchemeError,
    >)
        requires
            self.wf(),
        ensures
            match certificate {
                Ok(made) => self.spec_aggregate(votes@) == Ok::<CertificateView, SchemeError>(made@),
                Err(error) => self.spec_aggregate(votes@) == Err::<CertificateView, SchemeError>(
                    error,
                ),
            },
            certificate matches Ok(made) ==> (self.spec_votes_verify(votes@, statement@)
                ==> self.spec_verify_certificate(made@, statement@)),
    {
        let count: u32 = self.participant_count();
        let quorum: u32 = self.quorum();
        if votes.len() < quorum as usize {
            return Err(SchemeError::InsufficientSigners);
        }
        if duplicate_signer(votes) {
            return Err(SchemeError::DuplicateSigner);
        }
        if unknown_signer(votes, count) {
            return Err(SchemeError::UnknownSigner);
        }
        let ghost target = spec_assemble(votes@, count as nat);
        let mut signers: BitMap<1> = bitmap_zeroes(count as u64);
        let mut signatures: Vec<Signature> = Vec::new();
        let mut signer: u32 = 0;
        while signer < count
            invariant
                signer <= count,
                target == spec_assemble(votes@, count as nat),
                bitmap_bits(signers) == Seq::new(
                    count as nat,
                    |i: int| i < signer && signature_by(votes@, i) is Some,
                ),
                signatures@ == set_indices(target.signers.take(signer as int)).map_values(
                    |i: int| signature_by(votes@, i).unwrap(),
                ),
            decreases count - signer,
        {
            proof {
                assert(target.signers.take(signer + 1).drop_last() == target.signers.take(
                    signer as int,
                ));
            }
            match find_signature(votes, signer) {
                Some(signature) => {
                    bitmap_set(&mut signers, signer as u64, true);
                    signatures.push(signature);
                },
                None => {},
            }
            signer += 1;
        }
        proof {
            assert(target.signers.take(count as int) == target.signers);
            assert(bitmap_bits(signers) == target.signers);
            if self.spec_votes_verify(votes@, statement@) {
                lemma_assembled_certificate_verifies(*self, votes@, statement@);
            }
        }
        Ok(Certificate { signers, signatures })
    }
}

/// Whether two of the votes name the same signer.
fn duplicate_signer(votes: &Vec<Vote>) -> (found: bool)
    ensures
        found == has_duplicate_signer(votes@),
{
    let mut j: usize = 0;
    while j < votes.len()
        invariant
            j <= votes.len(),
            forall|a: int, b: int| 0 <= a < b < j ==> votes[a].signer != votes[b].signer,
        decreases votes.len() - j,
    {
        let mut i: usize = 0;
        while i < j
            invariant
                i <= j < votes.len(),
                forall|a: int| 0 <= a < i ==> votes[a].signer != votes[j as int].signer,
            decreases j - i,
        {
            if votes[i].signer == votes[j].signer {
                return true;
            }
            i += 1;
        }
        j += 1;
    }
    false
}

/// Whether one of the votes names a signer outside `participants` members.
fn unknown_signer(votes: &Vec<Vote>, participants: u32) -> (found: bool)
    ensures
        found == has_unknown_signer(votes@, participants as nat),
{
    let mut i: usize = 0;
    while i < votes.len()
        invariant
            i <= votes.len(),
            forall|a: int| 0 <= a < i ==> votes[a].signer < participants,
        decreases votes.len() - i,
    {
        if votes[i].signer >= participants {
            return true;
        }
        i += 1;
    }
    false
}

/// The signature of the last of the votes that names `signer`.
fn find_signature(votes: &Vec<Vote>, signer: u32) -> (signature: Option<Signature>)
    ensures
        signature == signature_by(votes@, signer as int),
{
    let mut i: usize = votes.len();
    assert(votes@.take(i as int) == votes@);
    while i > 0
        invariant
            i <= votes.len(),
            signature_by(votes@, signer as int) == signature_by(votes@.take(i as int), signer as int),
        decreases i,
    {
        proof {
            assert(votes@.take(i as int).drop_last() == votes@.take(i - 1));
        }
        if votes[i - 1].signer == signer {
            return Some(votes[i - 1].signature.clone());
        }
        i -= 1;
    }
    None
}

/// A signer has a signature among the votes exactly if a vote names it.
pub proof fn lemma_signature_by(votes: Seq<Vote>, signer: int)
    ensures
        signature_by(votes, signer) is Some <==> exists|i: int|
            0 <= i < votes.len() && votes[i].signer == signer,
        signature_by(votes, signer) matches Some(signature) ==> exists|i: int|
            0 <= i < votes.len() && votes[i].signer == signer && votes[i].signature == signature,
    decreases votes.len(),
{
    if votes.len() > 0 {
        let front = votes.drop_last();
        lemma_signature_by(front, signer);
        if votes.last().signer == signer {
            assert(votes[votes.len() - 1].signer == signer);
        } else {
            if signature_by(front, signer) is Some {
                let i = choose|i: int|
                    0 <= i < front.len() && front[i].signer == signer && front[i].signature
                        == signature_by(front, signer).unwrap();
                assert(votes[i].signer == signer);
            }
            if exists|i: int| 0 <= i < votes.len() && votes[i].signer == signer {
                let i = choose|i: int| 0 <= i < votes.len() && votes[i].signer == signer;
                assert(front[i].signer == signer);
            }
        }
    }
}

/// Votes of distinct signers among the participants set as many bits as
/// there are votes.
pub proof fn lemma_assembled_count(votes: Seq<Vote>, participants: nat)
    requires
        !has_duplicate_signer(votes),
        !has_unknown_signer(votes, participants),
    ensures
        set_indices(spec_assemble(votes, participants).signers).len() == votes.len(),
{
    let bits = spec_assemble(votes, participants).signers;
    let indices = set_indices(bits);
    let named = votes.map_values(|vote: Vote| vote.signer as int);
    lemma_set_indices(bits);
    assert(indices.no_duplicates());
    assert(named.no_duplicates());
    indices.unique_seq_to_set();
    named.unique_seq_to_set();
    assert forall|signer: int| indices.to_set().contains(signer) <==> named.to_set().contains(
        signer,
    ) by {
        lemma_signature_by(votes, signer);
        if indices.to_set().contains(signer) {
            let k = choose|k: int| 0 <= k < indices.len() && indices[k] == signer;
            assert(bits[indices[k]]);
            let i = choose|i: int| 0 <= i < votes.len() && votes[i].signer == signer;
            assert(named[i] == signer);
        }
        if named.to_set().contains(signer) {
            let i = choose|i: int| 0 <= i < named.len() && named[i] == signer;
            assert(votes[i].signer == signer);
            assert(bits[signer]);
            assert(indices.contains(signer));
        }
    }
    assert(indices.to_set() =~= named.to_set());
}

/// A certificate assembled from a quorum of votes of distinct participants,
/// each of which verifies on a statement, verifies on that statement.
pub proof fn lemma_assembled_certificate_verifies(scheme: Scheme, votes: Seq<Vote>, statement: Seq<u8>)
    requires
        scheme.wf(),
        scheme.spec_aggregate(votes) is Ok,
        scheme.spec_votes_verify(votes, statement),
    ensures
        scheme.spec_verify_certificate(scheme.spec_aggregate(votes).unwrap(), statement),
{
    let participants = scheme.spec_participants().len();
    let made = spec_assemble(votes, participants);
    let indices = set_indices(made.signers);
    lemma_set_indices(made.signers);
    lemma_assembled_count(votes, participants);
    assert forall|k: int| 0 <= k < indices.len() implies scheme.spec_verify(
        #[trigger] indices[k],
        statement,
        made.signatures[k],
    ) by {
        let signer = indices[k];
        lemma_signature_by(votes, signer);
        assert(made.signers[signer]);
        let i = choose|i: int|
            0 <= i < votes.len() && votes[i].signer == signer && votes[i].signature
                == signature_by(votes, signer).unwrap();
        assert(scheme.spec_verify(votes[i].signer as int, statement, votes[i].signature));
    }
}

/// Whatever certificate has passed verification names at least a quorum of
/// signers, none of them twice.
pub proof fn lemma_verified_certificate_has_quorum(
    scheme: Scheme,
    certificate: CertificateView,
    statement: Seq<u8>,
)
    requires
        scheme.spec_verify_certificate(certificate, statement),
    ensures
        set_indices(certificate.signers).len() >= scheme.spec_quorum(),
        set_indices(certificate.signers).no_duplicates(),
        2 * set_indices(certificate.signers).len() > scheme.spec_participants().len(),
{
    lemma_set_indices(certificate.signers);
    lemma_quorum_majority(scheme.spec_model(), scheme.spec_participants().len());
}

} // verus!
