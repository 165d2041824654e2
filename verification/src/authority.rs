use vstd::prelude::*;
use crate::errors::StakeError;

verus! {

/// The two fixed labels from which the protocol derives its authorities.
#[derive(Clone, Copy, Debug, PartialEq, Eq, Structural)]
pub enum AuthorityLabel {
    /// Authority over further minting of supply.
    MintAuthority,
    /// Authority over the custodial pool token account.
    PoolAuthority,
}

/// The fixed seed value of each authority label.
pub open spec fn spec_label_seed(label: AuthorityLabel) -> u64 {
    match label {
        AuthorityLabel::MintAuthority => 0x6d696e745f617574,
        AuthorityLabel::PoolAuthority => 0x706f6f6c5f617574,
    }
}

/// The derived authority identifier for a label under a protocol identity.
/// Anyone can recompute it (identifiers are public), and no private key
/// corresponds to it: control is exercised only by the protocol's own
/// operations presenting the derivation.
pub open spec fn spec_authority_id(label: AuthorityLabel, protocol_id: u64) -> u64 {
    spec_label_seed(label) ^ protocol_id
}

/// The disambiguation value ("bump") accompanying a derived identifier.
pub open spec fn spec_authority_bump(label: AuthorityLabel, protocol_id: u64) -> u8 {
    ((spec_label_seed(label) ^ protocol_id) & 0xff) as u8
}

/// A derived authority: identifier plus disambiguation value.
#[derive(Clone, Copy, Debug, PartialEq, Eq, Structural)]
pub struct DerivedAuthority {
    pub id: u64,
    pub bump: u8,
}

/// Deterministically derive the authority identifier and disambiguation
/// value for a label under a protocol identity.
pub fn derive_authority(label: AuthorityLabel, protocol_id: u64) -> (r: DerivedAuthority)
    ensures
        r.id == spec_authority_id(label, protocol_id),
        r.bump == spec_authority_bump(label, protocol_id),
{
    let seed: u64 = match label {
        AuthorityLabel::MintAuthority => 0x6d696e745f617574,
        AuthorityLabel::PoolAuthority => 0x706f6f6c5f617574,
    };
    let id: u64 = seed ^ protocol_id;
    let bump: u8 = (id & 0xff) as u8;
    DerivedAuthority { id, bump }
}

/// Check that a caller-supplied identifier and disambiguation value
/// reproduce the expected derivation for `label` under `protocol_id`.
/// This is the sole defense against authority spoofing: any mismatch is
/// rejected with `InvalidAuthority`.
pub fn verify_authority(
    label: AuthorityLabel,
    protocol_id: u64,
    id: u64,
    bump: u8,
) -> (r: Result<(), StakeError>)
    ensures
        r is Ok <==> (id == spec_authority_id(label, protocol_id)
            && bump == spec_authority_bump(label, protocol_id)),
        r is Err ==> r == Result::<(), StakeError>::Err(StakeError::InvalidAuthority),
{
    let expected = derive_authority(label, protocol_id);
    if id == expected.id && bump == expected.bump {
        Ok(())
    } else {
        Err(StakeError::InvalidAuthority)
    }
}

} // verus!
