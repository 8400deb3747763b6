//! Member credentials: the value that binds a member's identity and public
//! signing key (or an opaque X.509 certificate) for use in a secure group.
//!
//! The X.509 variant is deliberately present in the type, so the tagged
//! union and its wire format stay forward-compatible, and deliberately
//! inert in behaviour: every accessor on it fails with
//! [`MlsError::NotImplemented`], a first-class, catchable outcome rather
//! than an abort.

use vstd::prelude::*;

use crate::error::MlsError;
use crate::sig::SigPublicKey;
use crate::sig::SignatureSchemeId;

verus! {

/// A byte string that should identify a member within a group. Uniqueness
/// across the group, if required, is enforced by the caller, not here.
#[derive(Clone, Debug, PartialEq, Eq)]
pub struct Identity(pub Vec<u8>);

impl View for Identity {
    type V = Seq<u8>;

    open spec fn view(&self) -> Seq<u8> {
        self.0@
    }
}

impl Identity {
    /// The identity bytes must fit a 16-bit length prefix on the wire.
    pub open spec fn wf(&self) -> bool {
        self@.len() <= 0xffff
    }
}

/// The bytes of an X.509 certificate. The certificate is never parsed or
/// introspected by this crate: it is carried opaquely.
#[derive(Clone, Debug, PartialEq, Eq)]
pub struct X509CertData(pub Vec<u8>);

impl View for X509CertData {
    type V = Seq<u8>;

    open spec fn view(&self) -> Seq<u8> {
        self.0@
    }
}

impl X509CertData {
    /// The certificate bytes must be non-empty and fit a 24-bit length
    /// prefix on the wire.
    pub open spec fn wf(&self) -> bool {
        1 <= self@.len() <= 0xffffff
    }
}

/// A simple member credential: an identity, the member's preferred
/// signature scheme (a reference into the process-wide registry), and the
/// member's public key under that scheme. That the key bytes are valid
/// under the scheme is the issuer's concern; it is not verified here.
#[derive(Clone, Debug, PartialEq, Eq)]
pub struct BasicCredential {
    /// The member's identifier.
    pub identity: Identity,
    /// The member's preferred signature scheme.
    pub signature_scheme: SignatureSchemeId,
    /// The member's public key under said signature scheme.
    pub public_key: SigPublicKey,
}

/// The mathematical value of a [`BasicCredential`]: its byte strings as
/// sequences, its scheme reference as the registered identifier.
#[verifier::ext_equal]
pub ghost struct BasicCredentialView {
    pub identity: Seq<u8>,
    pub signature_scheme: u16,
    pub public_key: Seq<u8>,
}

impl View for BasicCredential {
    type V = BasicCredentialView;

    open spec fn view(&self) -> BasicCredentialView {
        BasicCredentialView {
            identity: self.identity@,
            signature_scheme: self.signature_scheme.0,
            public_key: self.public_key@,
        }
    }
}

impl BasicCredentialView {
    /// Both byte strings fit their 16-bit length prefixes.
    pub open spec fn wf(self) -> bool {
        self.identity.len() <= 0xffff && self.public_key.len() <= 0xffff
    }
}

impl BasicCredential {
    /// Both byte strings fit their 16-bit length prefixes.
    pub open spec fn wf(&self) -> bool {
        self@.wf()
    }
}

/// A member credential: exactly one variant is active.
#[derive(Clone, Debug, PartialEq, Eq)]
pub enum Credential {
    Basic(BasicCredential),
    X509(X509CertData),
}

/// The mathematical value of a [`Credential`].
#[verifier::ext_equal]
pub ghost enum CredentialView {
    Basic(BasicCredentialView),
    X509(Seq<u8>),
}

impl View for Credential {
    type V = CredentialView;

    open spec fn view(&self) -> CredentialView {
        match self {
            Credential::Basic(b) => CredentialView::Basic(b@),
            Credential::X509(x) => CredentialView::X509(x@),
        }
    }
}

impl CredentialView {
    /// The payload of the active variant fits its wire bounds.
    pub open spec fn wf(self) -> bool {
        match self {
            CredentialView::Basic(b) => b.wf(),
            CredentialView::X509(x) => 1 <= x.len() <= 0xffffff,
        }
    }
}

impl Credential {
    /// The payload of the active variant fits its wire bounds.
    pub open spec fn wf(&self) -> bool {
        self@.wf()
    }

    /// The member identifier bound by this credential. Deriving an
    /// identity from an X.509 certificate is out of scope, so the X.509
    /// variant fails with `NotImplemented` rather than returning a
    /// default.
    pub fn get_identity(&self) -> (r: Result<&Identity, MlsError>)
        ensures
            (self matches Credential::Basic(b) ==> (r matches Ok(id) && id == &b.identity)),
            (self is X509 ==> (r matches Err(e) && e == MlsError::NotImplemented)),
    {
        match self {
            Credential::Basic(basic) => Ok(&basic.identity),
            Credential::X509(_) => Err(MlsError::NotImplemented),
        }
    }

    /// The public key bound by this credential; `NotImplemented` for the
    /// X.509 variant, whose key would have to come out of the certificate.
    pub fn get_public_key(&self) -> (r: Result<&SigPublicKey, MlsError>)
        ensures
            (self matches Credential::Basic(b) ==> (r matches Ok(pk) && pk == &b.public_key)),
            (self is X509 ==> (r matches Err(e) && e == MlsError::NotImplemented)),
    {
        match self {
            Credential::Basic(basic) => Ok(&basic.public_key),
            Credential::X509(_) => Err(MlsError::NotImplemented),
        }
    }

    /// The signature-scheme reference this credential's key is to be
    /// interpreted under; `NotImplemented` for the X.509 variant.
    pub fn get_signature_scheme(&self) -> (r: Result<SignatureSchemeId, MlsError>)
        ensures
            (self matches Credential::Basic(b) ==> (r matches Ok(s) && s == b.signature_scheme)),
            (self is X509 ==> (r matches Err(e) && e == MlsError::NotImplemented)),
    {
        match self {
            Credential::Basic(basic) => Ok(basic.signature_scheme),
            Credential::X509(_) => Err(MlsError::NotImplemented),
        }
    }
}

} // verus!
