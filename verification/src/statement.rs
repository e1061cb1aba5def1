use crate::types::{Proposal, Round};
use vstd::bytes::{
    lemma_auto_spec_u64_to_from_le_bytes, spec_u64_from_le_bytes, spec_u64_to_le_bytes,
    u64_to_le_bytes,
};
use vstd::prelude::*;

verus! {

/// The first byte of a statement that notarizes a proposal.
pub const NOTARIZE_TAG: u8 = 0;

/// The first byte of a statement that nullifies a round.
pub const NULLIFY_TAG: u8 = 1;

/// The bytes that stand for a round: epoch, then view, each as eight
/// little-endian bytes.
pub open spec fn spec_round_bytes(round: Round) -> Seq<u8> {
    spec_u64_to_le_bytes(round.epoch.0) + spec_u64_to_le_bytes(round.view.0)
}

/// The bytes that a participant signs to notarize `proposal`: the tag, the
/// round, the parent view and the payload digest.
pub open spec fn spec_notarize_statement(proposal: Proposal) -> Seq<u8> {
    seq![NOTARIZE_TAG] + spec_round_bytes(proposal.round) + spec_u64_to_le_bytes(proposal.parent.0)
        + proposal.payload@
}

/// The bytes that a participant signs to nullify `round`: the tag and the
/// round.
pub open spec fn spec_nullify_statement(round: Round) -> Seq<u8> {
    seq![NULLIFY_TAG] + spec_round_bytes(round)
}

fn round_bytes(round: Round) -> (bytes: Vec<u8>)
    ensures
        bytes@ == spec_round_bytes(round),
{
    let mut bytes: Vec<u8> = u64_to_le_bytes(round.epoch.0);
    let mut view: Vec<u8> = u64_to_le_bytes(round.view.0);
    bytes.append(&mut view);
    bytes
}

pub fn notarize_statement(proposal: &Proposal) -> (bytes: Vec<u8>)
    ensures
        bytes@ == spec_notarize_statement(*proposal),
{
    let mut bytes: Vec<u8> = Vec::new();
    bytes.push(NOTARIZE_TAG);
    let mut round: Vec<u8> = round_bytes(proposal.round);
    bytes.append(&mut round);
    let mut parent: Vec<u8> = u64_to_le_bytes(proposal.parent.0);
    bytes.append(&mut parent);
    let ghost head = bytes@;
    let mut i: usize = 0;
    while i < 32
        invariant
            i <= 32,
            bytes@ == head + proposal.payload@.take(i as int),
        decreases 32 - i,
    {
        bytes.push(proposal.payload[i]);
        i += 1;
    }
    assert(proposal.payload@.take(32) == proposal.payload@);
    bytes
}

pub fn nullify_statement(round: Round) -> (bytes: Vec<u8>)
    ensures
        bytes@ == spec_nullify_statement(round),
{
    let mut bytes: Vec<u8> = Vec::new();
    bytes.push(NULLIFY_TAG);
    let mut tail: Vec<u8> = round_bytes(round);
    bytes.append(&mut tail);
    bytes
}

/// Two rounds with the same bytes are the same round.
pub proof fn lemma_round_bytes_injective(first: Round, second: Round)
    requires
        spec_round_bytes(first) == spec_round_bytes(second),
    ensures
        first == second,
{
    lemma_auto_spec_u64_to_from_le_bytes();
    let bytes = spec_round_bytes(first);
    assert(bytes.subrange(0, 8) == spec_u64_to_le_bytes(first.epoch.0));
    assert(bytes.subrange(8, 16) == spec_u64_to_le_bytes(first.view.0));
    assert(bytes.subrange(0, 8) == spec_u64_to_le_bytes(second.epoch.0));
    assert(bytes.subrange(8, 16) == spec_u64_to_le_bytes(second.view.0));
    assert(first.epoch.0 == spec_u64_from_le_bytes(spec_u64_to_le_bytes(first.epoch.0)));
    assert(first.view.0 == spec_u64_from_le_bytes(spec_u64_to_le_bytes(first.view.0)));
}

/// Participants who sign the same notarize statement endorse the same
/// proposal.
pub proof fn lemma_notarize_statement_injective(first: Proposal, second: Proposal)
    requires
        spec_notarize_statement(first) == spec_notarize_statement(second),
    ensures
        first == second,
{
    lemma_auto_spec_u64_to_from_le_bytes();
    let bytes = spec_notarize_statement(first);
    assert(bytes.subrange(1, 17) == spec_round_bytes(first.round));
    assert(bytes.subrange(1, 17) == spec_round_bytes(second.round));
    lemma_round_bytes_injective(first.round, second.round);
    assert(bytes.subrange(17, 25) == spec_u64_to_le_bytes(first.parent.0));
    assert(bytes.subrange(17, 25) == spec_u64_to_le_bytes(second.parent.0));
    assert(first.parent.0 == spec_u64_from_le_bytes(spec_u64_to_le_bytes(first.parent.0)));
    assert(bytes.subrange(25, 57) == first.payload@);
    assert(bytes.subrange(25, 57) == second.payload@);
    assert(first.payload =~= second.payload);
}

/// Participants who sign the same nullify statement skip the same round.
pub proof fn lemma_nullify_statement_injective(first: Round, second: Round)
    requires
        spec_nullify_statement(first) == spec_nullify_statement(second),
    ensures
        first == second,
{
    lemma_auto_spec_u64_to_from_le_bytes();
    let bytes = spec_nullify_statement(first);
    assert(bytes.subrange(1, 17) == spec_round_bytes(first));
    assert(bytes.subrange(1, 17) == spec_round_bytes(second));
    lemma_round_bytes_injective(first, second);
}

/// No signature on a notarize statement is one on a nullify statement.
pub proof fn lemma_statements_differ(proposal: Proposal, round: Round)
    ensures
        spec_notarize_statement(proposal) != spec_nullify_statement(round),
{
    assert(spec_notarize_statement(proposal)[0] == NOTARIZE_TAG);
    assert(spec_nullify_statement(round)[0] == NULLIFY_TAG);
}

} // verus!
