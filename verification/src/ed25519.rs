use commonware_cryptography::ed25519::{PrivateKey, PublicKey, Signature};
use commonware_cryptography::{Signer, Verifier};
use vstd::prelude::*;

verus! {

/// `ed25519::PrivateKey`, carried as it is.
#[verifier::external_type_specification]
#[verifier::external_body]
pub struct ExPrivateKey(PrivateKey);

/// `ed25519::PublicKey`, carried as it is.
#[verifier::external_type_specification]
#[verifier::external_body]
pub struct ExPublicKey(PublicKey);

/// `ed25519::Signature`, carried as it is.
#[verifier::external_type_specification]
#[verifier::external_body]
pub struct ExSignature(Signature);

/// Whether `key` accepts `signature` for `message` under `namespace`.
pub uninterp spec fn signature_verifies(
    key: PublicKey,
    namespace: Seq<u8>,
    message: Seq<u8>,
    signature: Signature,
) -> bool;

/// The signature that `key` produces for `message` under `namespace`.
pub uninterp spec fn signature_of(key: PrivateKey, namespace: Seq<u8>, message: Seq<u8>) -> Signature;

/// `Verifier::verify` of `ed25519::PublicKey`, which panics on a namespace
/// whose length does not fit the four bytes in which it is written before
/// the message. Trusted: the answer depends on the key, the namespace, the
/// message and the signature alone.
#[verifier::external_body]
pub(crate) fn verify_signature(
    key: &PublicKey,
    namespace: &[u8],
    message: &[u8],
    signature: &Signature,
) -> (ok: bool)
    requires
        namespace@.len() <= u32::MAX,
    ensures
        ok == signature_verifies(*key, namespace@, message@, *signature),
{
    key.verify(namespace, message, signature)
}

/// `Signer::sign` of `ed25519::PrivateKey`, which panics on a namespace
/// whose length does not fit the four bytes in which it is written before
/// the message. Trusted: signing is deterministic, so the signature depends
/// on the key, the namespace and the message alone.
#[verifier::external_body]
pub(crate) fn sign_message(key: &PrivateKey, namespace: &[u8], message: &[u8]) -> (signature:
    Signature)
    requires
        namespace@.len() <= u32::MAX,
    ensures
        signature == signature_of(*key, namespace@, message@),
{
    key.sign(namespace, message)
}

/// `Clone::clone` of `ed25519::Signature`. Trusted: the copy equals the
/// signature copied.
pub assume_specification[ <Signature as Clone>::clone ](signature: &Signature) -> (copy: Signature)
    ensures
        copy == *signature,
;

} // verus!
