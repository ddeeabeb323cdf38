use vstd::prelude::*;

use crate::errors::MyError;
use crate::identity::Identity;

verus! {

/// The derived storage address and bump for an owner identity, or nothing
/// when the owner admits no valid derived address. The derivation hashes the
/// fixed namespace tag `"interactions"`, the owner's 32 bytes, and the
/// program's deployment identity; its outcome is a function of the owner
/// alone, so the same owner always maps to the same location.
pub uninterp spec fn derived_of(owner: Seq<u8>) -> Option<(Seq<u8>, u8)>;

/// The model of a derivation outcome: the address's bytes and the bump.
pub open spec fn derivation_view(r: Option<(Identity, u8)>) -> Option<(Seq<u8>, u8)> {
    match r {
        Some(p) => Some((p.0@, p.1)),
        None => None,
    }
}

/// Relies on `Pubkey::try_find_program_address` of anchor_lang's prelude:
/// given fixed seeds and a fixed program id its result depends on nothing
/// else, and it returns `None` only when no bump yields a valid address.
/// The seeds are the namespace tag `"interactions"` and the owner's bytes;
/// the program id is the fixed deployment identity
/// `9HCQ6AHFBWWDSz82oThQN6P6dNNrvWFqyEpMhq6gXo3a`, decoded to its 32 bytes.
#[verifier::external_body]
fn try_find_derived_address(owner: &Identity) -> (r: Option<(Identity, u8)>)
    ensures
        derivation_view(r) == derived_of(owner@),
{
    let program_id = anchor_lang::prelude::Pubkey::new_from_array([
        123, 3, 173, 28, 67, 84, 12, 175, 131, 141, 241, 18, 209, 230, 40, 11, 177, 175, 109, 66,
        27, 38, 225, 61, 59, 86, 232, 181, 66, 53, 117, 77,
    ]);
    let found = anchor_lang::prelude::Pubkey::try_find_program_address(
        &[b"interactions", &owner.bytes],
        &program_id,
    );
    found.map(|(address, bump)| (Identity::new(address.to_bytes()), bump))
}

/// Derives the unique storage address, plus its bump, where the record store
/// of `owner` lives. Callers never supply this address themselves: it is
/// always rederived here, so a mismatched or spoofed address is never
/// accepted.
pub fn derive_record_address(owner: &Identity) -> (r: Result<(Identity, u8), MyError>)
    ensures
        match r {
            Ok(p) => derived_of(owner@) == Some((p.0@, p.1)),
            Err(e) => e == MyError::AddressDerivation && derived_of(owner@) is None,
        },
{
    match try_find_derived_address(owner) {
        Some(p) => Ok(p),
        None => Err(MyError::AddressDerivation),
    }
}

/// Address derivation is deterministic: the same owner identity always
/// yields the identical derived address and bump — and when an owner admits
/// no valid address, it never does.
pub proof fn lemma_derive_deterministic(o1: Seq<u8>, o2: Seq<u8>)
    requires
        o1 == o2,
    ensures
        derived_of(o1) == derived_of(o2),
{
}

} // verus!
