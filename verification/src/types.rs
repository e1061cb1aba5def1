use crate::signers::bitmap_bits;
use commonware_cryptography::ed25519::Signature;
use commonware_utils::bitmap::BitMap;
use vstd::prelude::*;

verus! {

/// The digest of a proposed payload.
pub type Digest = [u8; 32];

/// The period during which one participant set and its keys are in force.
#[derive(Clone, Copy, Debug, PartialEq, Eq, Structural, PartialOrd, Ord, Hash)]
pub struct Epoch(pub u64);

impl Epoch {
    pub fn new(value: u64) -> (epoch: Self)
        ensures
            epoch.0 == value,
    {
        Epoch(value)
    }

    pub fn get(self) -> (value: u64)
        ensures
            value == self.0,
    {
        self.0
    }
}

/// The number of a round within its epoch. View zero is the genesis, on
/// which the first proposal builds.
#[derive(Clone, Copy, Debug, PartialEq, Eq, Structural, PartialOrd, Ord, Hash)]
pub struct ViewNumber(pub u64);

impl ViewNumber {
    pub fn new(value: u64) -> (view: Self)
        ensures
            view.0 == value,
    {
        ViewNumber(value)
    }

    pub fn get(self) -> (value: u64)
        ensures
            value == self.0,
    {
        self.0
    }
}

/// One unit of agreement: a view of an epoch.
#[derive(Clone, Copy, Debug, PartialEq, Eq, Structural, PartialOrd, Ord, Hash)]
pub struct Round {
    pub epoch: Epoch,
    pub view: ViewNumber,
}

impl Round {
    pub fn new(epoch: Epoch, view: ViewNumber) -> (round: Self)
        ensures
            round.epoch == epoch,
            round.view == view,
    {
        Round { epoch, view }
    }
}

/// Whether two digests hold the same bytes.
pub fn digest_eq(left: &Digest, right: &Digest) -> (same: bool)
    ensures
        same == (*left == *right),
{
    let mut i: usize = 0;
    while i < 32
        invariant
            i <= 32,
            forall|j: int| 0 <= j < i ==> left[j] == right[j],
        decreases 32 - i,
    {
        if left[i] != right[i] {
            return false;
        }
        i += 1;
    }
    assert(*left =~= *right);
    true
}

#[derive(Clone, Debug, PartialEq)]
pub struct Vote {
    /// Index of the signer inside the participant set.
    pub signer: u32,
    /// Signature of the vote.
    pub signature: Signature,
}

impl Vote {
    pub fn duplicate(&self) -> (copy: Self)
        ensures
            copy == *self,
    {
        Vote { signer: self.signer, signature: self.signature.clone() }
    }
}

#[derive(Clone, Copy, Debug, PartialEq, Eq, PartialOrd, Ord, Hash)]
pub struct Proposal {
    /// The round in which this proposal is made
    pub round: Round,
    /// The view of the parent proposal that this one builds upon
    pub parent: ViewNumber,
    /// The digest of the proposed payload
    pub payload: Digest,
}

impl Proposal {
    /// Whether two proposals are the same candidate value.
    pub fn same(&self, other: &Proposal) -> (same: bool)
        ensures
            same == (*self == *other),
    {
        self.round == other.round && self.parent == other.parent && digest_eq(
            &self.payload,
            &other.payload,
        )
    }
}

#[derive(Clone, Debug, PartialEq)]
pub struct Certificate {
    pub signers: BitMap<1>,
    pub signatures: Vec<Signature>,
}

/// What a certificate holds: one bit per participant index, and the
/// signatures of the participants whose bit is set, in index order.
pub struct CertificateView {
    pub signers: Seq<bool>,
    pub signatures: Seq<Signature>,
}

impl View for Certificate {
    type V = CertificateView;

    open spec fn view(&self) -> CertificateView {
        CertificateView { signers: bitmap_bits(self.signers), signatures: self.signatures@ }
    }
}

impl Certificate {
    pub fn duplicate(&self) -> (copy: Self)
        ensures
            copy@ == self@,
    {
        let mut signatures: Vec<Signature> = Vec::new();
        let mut i: usize = 0;
        while i < self.signatures.len()
            invariant
                i <= self.signatures.len(),
                signatures@ == self.signatures@.take(i as int),
            decreases self.signatures.len() - i,
        {
            signatures.push(self.signatures[i].clone());
            i += 1;
        }
        assert(self.signatures@.take(i as int) == self.signatures@);
        Certificate { signers: self.signers.clone(), signatures }
    }
}

#[derive(Clone, Debug, PartialEq)]
pub struct Notarize {
    /// Proposal being notarized.
    pub proposal: Proposal,
    /// Vote material
    pub vote: Vote,
}

impl Notarize {
    pub fn duplicate(&self) -> (copy: Self)
        ensures
            copy == *self,
    {
        Notarize { proposal: self.proposal, vote: self.vote.duplicate() }
    }
}

#[derive(Clone, Debug, PartialEq)]
pub struct Notarization {
    /// Proposal being notarized.
    pub proposal: Proposal,
    /// Certificate
    pub certificate: Certificate,
}

pub struct NotarizationView {
    pub proposal: Proposal,
    pub certificate: CertificateView,
}

impl View for Notarization {
    type V = NotarizationView;

    open spec fn view(&self) -> NotarizationView {
        NotarizationView { proposal: self.proposal, certificate: self.certificate@ }
    }
}

impl Notarization {
    pub fn duplicate(&self) -> (copy: Self)
        ensures
            copy@ == self@,
    {
        Notarization { proposal: self.proposal, certificate: self.certificate.duplicate() }
    }
}

#[derive(Clone, Debug, PartialEq)]
pub struct Nullify {
    pub round: Round,
    pub vote: Vote,
}

impl Nullify {
    pub fn duplicate(&self) -> (copy: Self)
        ensures
            copy == *self,
    {
        Nullify { round: self.round, vote: self.vote.duplicate() }
    }
}

#[derive(Clone, Debug, PartialEq)]
pub struct Nullification {
    pub round: Round,
    pub certificate: Certificate,
}

pub struct NullificationView {
    pub round: Round,
    pub certificate: CertificateView,
}

impl View for Nullification {
    type V = NullificationView;

    open spec fn view(&self) -> NullificationView {
        NullificationView { round: self.round, certificate: self.certificate@ }
    }
}

impl Nullification {
    pub fn duplicate(&self) -> (copy: Self)
        ensures
            copy@ == self@,
    {
        Nullification { round: self.round, certificate: self.certificate.duplicate() }
    }
}

/// The statements that participants exchange.
#[derive(Clone, Debug, PartialEq)]
pub enum Voter {
    Notarize(Notarize),
    Notarization(Notarization),
    Nullify(Nullify),
    Nullification(Nullification),
}

pub enum VoterView {
    Notarize(Notarize),
    Notarization(NotarizationView),
    Nullify(Nullify),
    Nullification(NullificationView),
}

impl View for Voter {
    type V = VoterView;

    open spec fn view(&self) -> VoterView {
        match *self {
            Voter::Notarize(notarize) => VoterView::Notarize(notarize),
            Voter::Notarization(notarization) => VoterView::Notarization(notarization@),
            Voter::Nullify(nullify) => VoterView::Nullify(nullify),
            Voter::Nullification(nullification) => VoterView::Nullification(nullification@),
        }
    }
}

} // verus!
