//! Signature-capability references.
//!
//! The signature algorithm itself (signing, verification, key generation)
//! is an external collaborator: this crate never runs it. A credential
//! only carries a [`SignatureSchemeId`], a stable identifier into a
//! process-wide, read-only registry of algorithm descriptors, and the raw
//! public-key bytes to interpret under that scheme. New algorithms extend
//! the registry without touching the credential types.

use vstd::prelude::*;

verus! {

/// The registered identifier of the Ed25519 signature scheme.
pub const ED25519_SCHEME_ID: u16 = 0x0807;

/// The registered identifier of the ECDSA P-256 / SHA-256 signature scheme.
pub const ECDSA_P256_SHA256_SCHEME_ID: u16 = 0x0403;

/// A stable identifier naming a signature scheme. A credential stores this
/// reference rather than owning any algorithm state: the descriptor it
/// names is registered once, is immutable, and outlives every credential.
#[derive(Clone, Copy, Debug, PartialEq, Eq, Structural)]
pub struct SignatureSchemeId(pub u16);

/// A member's public key, as raw bytes. The bytes are meaningful only
/// together with the [`SignatureSchemeId`] they were issued under.
#[derive(Clone, Debug, PartialEq, Eq)]
pub struct SigPublicKey(pub Vec<u8>);

impl View for SigPublicKey {
    type V = Seq<u8>;

    open spec fn view(&self) -> Seq<u8> {
        self.0@
    }
}

impl SigPublicKey {
    /// The key bytes must fit a 16-bit length prefix on the wire.
    pub open spec fn wf(&self) -> bool {
        self@.len() <= 0xffff
    }
}

/// One entry of the algorithm registry: what this crate knows about a
/// registered signature scheme. The operations of the scheme (verify,
/// key generation) stay with the external collaborator that registered it.
#[derive(Clone, Copy, Debug, PartialEq, Eq, Structural)]
pub struct SignatureCapability {
    /// The stable identifier the descriptor is registered under.
    pub id: u16,
    /// The exact byte length of a well-formed public key for the scheme.
    pub public_key_len: usize,
}

/// The descriptor registered under `id`, if any.
pub open spec fn spec_lookup_capability(id: u16) -> Option<SignatureCapability> {
    if id == ED25519_SCHEME_ID {
        Some(SignatureCapability { id: ED25519_SCHEME_ID, public_key_len: 32 })
    } else if id == ECDSA_P256_SHA256_SCHEME_ID {
        Some(SignatureCapability { id: ECDSA_P256_SHA256_SCHEME_ID, public_key_len: 65 })
    } else {
        None
    }
}

/// Looks a scheme identifier up in the process-wide registry. The registry
/// is read-only: a lookup never registers or removes a descriptor.
pub fn lookup_capability(id: SignatureSchemeId) -> (r: Option<SignatureCapability>)
    ensures
        r == spec_lookup_capability(id.0),
{
    if id.0 == ED25519_SCHEME_ID {
        Some(SignatureCapability { id: ED25519_SCHEME_ID, public_key_len: 32 })
    } else if id.0 == ECDSA_P256_SHA256_SCHEME_ID {
        Some(SignatureCapability { id: ECDSA_P256_SHA256_SCHEME_ID, public_key_len: 65 })
    } else {
        None
    }
}

impl SignatureCapability {
    /// Whether `key` is a well-formed public key for this scheme: the
    /// only structural check this crate can make is the length the
    /// registry declares.
    pub fn is_valid_public_key(&self, key: &SigPublicKey) -> (r: bool)
        ensures
            r == (key@.len() == self.public_key_len),
    {
        key.0.len() == self.public_key_len
    }
}

} // verus!
