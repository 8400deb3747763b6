//! The wire encoding of the credential types, in the TLS presentation
//! language used by the surrounding MLS-style protocol:
//!
//! - `Identity`: a 16-bit big-endian length prefix, then the bytes
//!   (payload length in 0 ..= 65535);
//! - `X509CertData`: a 24-bit big-endian length prefix, then the bytes
//!   (payload length in 1 ..= 16777215);
//! - `Credential`: an 8-bit discriminant tag, then the active variant's
//!   encoding; a `BasicCredential` is its fields in declared order — the
//!   identity, the scheme identifier as a 16-bit big-endian integer, and
//!   the public key length-prefixed like an identity.
//!
//! Each decoder consumes a prefix of the input starting at a caller-given
//! position and reports how far it read, so encodings compose. A decoder
//! fails with [`MlsError::MalformedEncoding`] exactly when no value is
//! encoded at that position: too few bytes, a length prefix out of its
//! declared bound, or an unknown discriminant tag.

use vstd::arithmetic::div_mod::lemma_div_denominator;
use vstd::arithmetic::div_mod::lemma_div_is_ordered;
use vstd::arithmetic::div_mod::lemma_fundamental_div_mod;
use vstd::arithmetic::div_mod::lemma_fundamental_div_mod_converse;
use vstd::prelude::*;

use crate::credential::BasicCredential;
use crate::credential::BasicCredentialView;
use crate::credential::Credential;
use crate::credential::CredentialView;
use crate::credential::Identity;
use crate::credential::X509CertData;
use crate::error::MlsError;
use crate::sig::SigPublicKey;
use crate::sig::SignatureSchemeId;

verus! {

/// The discriminant tag selecting the Basic credential variant.
pub const BASIC_CREDENTIAL_TAG: u8 = 0;

/// The discriminant tag selecting the X.509 credential variant.
pub const X509_CREDENTIAL_TAG: u8 = 1;

// ------------------------------------------------------------------
// Big-endian integer primitives.
// ------------------------------------------------------------------

/// The two bytes of `n` in big-endian order, for `n` in 0 ..= 0xffff.
pub open spec fn be_u16_bytes(n: int) -> Seq<u8> {
    seq![(n / 0x100) as u8, (n % 0x100) as u8]
}

/// The value of two big-endian bytes.
pub open spec fn be_u16_value(b0: u8, b1: u8) -> int {
    (b0 as int) * 0x100 + (b1 as int)
}

/// The three bytes of `n` in big-endian order, for `n` in 0 ..= 0xffffff.
pub open spec fn be_u24_bytes(n: int) -> Seq<u8> {
    seq![(n / 0x10000) as u8, ((n / 0x100) % 0x100) as u8, (n % 0x100) as u8]
}

/// The value of three big-endian bytes.
pub open spec fn be_u24_value(b0: u8, b1: u8, b2: u8) -> int {
    (b0 as int) * 0x10000 + (b1 as int) * 0x100 + (b2 as int)
}

/// Reading back the two big-endian bytes of a 16-bit value recovers it.
pub proof fn lemma_be_u16_round_trip(n: int)
    requires
        0 <= n <= 0xffff,
    ensures
        be_u16_value(be_u16_bytes(n)[0], be_u16_bytes(n)[1]) == n,
{
    lemma_div_is_ordered(n, 0xffff, 0x100);
    lemma_fundamental_div_mod(n, 0x100);
}

/// Two big-endian bytes are the encoding of their own value: the 16-bit
/// encoding is onto, so a decoded length re-encodes to the same two bytes.
pub proof fn lemma_be_u16_bytes_of_value(b0: u8, b1: u8)
    ensures
        0 <= be_u16_value(b0, b1) <= 0xffff,
        be_u16_bytes(be_u16_value(b0, b1)) == seq![b0, b1],
{
    lemma_fundamental_div_mod_converse(be_u16_value(b0, b1), 0x100, b0 as int, b1 as int);
    assert(be_u16_bytes(be_u16_value(b0, b1)) =~= seq![b0, b1]);
}

/// Reading back the three big-endian bytes of a 24-bit value recovers it.
pub proof fn lemma_be_u24_round_trip(n: int)
    requires
        0 <= n <= 0xffffff,
    ensures
        be_u24_value(be_u24_bytes(n)[0], be_u24_bytes(n)[1], be_u24_bytes(n)[2]) == n,
{
    lemma_div_is_ordered(n, 0xffffff, 0x10000);
    lemma_fundamental_div_mod(n, 0x100);
    lemma_fundamental_div_mod(n / 0x100, 0x100);
    lemma_div_denominator(n, 0x100, 0x100);
}

/// Three big-endian bytes are the encoding of their own value.
pub proof fn lemma_be_u24_bytes_of_value(b0: u8, b1: u8, b2: u8)
    ensures
        0 <= be_u24_value(b0, b1, b2) <= 0xffffff,
        be_u24_bytes(be_u24_value(b0, b1, b2)) == seq![b0, b1, b2],
{
    let v = be_u24_value(b0, b1, b2);
    lemma_fundamental_div_mod_converse(v, 0x10000, b0 as int, (b1 as int) * 0x100 + (b2 as int));
    lemma_fundamental_div_mod_converse(v, 0x100, (b0 as int) * 0x100 + (b1 as int), b2 as int);
    lemma_fundamental_div_mod_converse(
        (b0 as int) * 0x100 + (b1 as int),
        0x100,
        b0 as int,
        b1 as int,
    );
    assert(be_u24_bytes(v) =~= seq![b0, b1, b2]);
}

// ------------------------------------------------------------------
// Length-prefixed opaque byte strings.
// ------------------------------------------------------------------

/// The encoding of an opaque byte string with a 16-bit length prefix, the
/// wire shape of an `Identity` and of a `SigPublicKey`.
pub open spec fn spec_encode_opaque16(bytes: Seq<u8>) -> Seq<u8> {
    be_u16_bytes(bytes.len() as int) + bytes
}

/// The 16-bit-prefixed opaque byte string encoded at the start of `b`,
/// with the number of bytes its encoding occupies; `None` when `b` does
/// not start with one.
pub open spec fn spec_decode_opaque16(b: Seq<u8>) -> Option<(Seq<u8>, int)> {
    if b.len() < 2 {
        None
    } else {
        let n = be_u16_value(b[0], b[1]);
        if b.len() < 2 + n {
            None
        } else {
            Some((b.subrange(2, 2 + n), 2 + n))
        }
    }
}

/// The encoding of an opaque byte string with a 24-bit length prefix, the
/// wire shape of an `X509CertData`.
pub open spec fn spec_encode_x509(bytes: Seq<u8>) -> Seq<u8> {
    be_u24_bytes(bytes.len() as int) + bytes
}

/// The certificate bytes encoded at the start of `b`, with the number of
/// bytes their encoding occupies. `None` when `b` does not start with
/// such an encoding; a declared length of zero is out of the certificate
/// type's declared bound and is refused.
pub open spec fn spec_decode_x509(b: Seq<u8>) -> Option<(Seq<u8>, int)> {
    if b.len() < 3 {
        None
    } else {
        let n = be_u24_value(b[0], b[1], b[2]);
        if n == 0 {
            None
        } else if b.len() < 3 + n {
            None
        } else {
            Some((b.subrange(3, 3 + n), 3 + n))
        }
    }
}

// ------------------------------------------------------------------
// Credentials.
// ------------------------------------------------------------------

/// The encoding of a basic credential: its fields in declared order.
pub open spec fn spec_encode_basic(b: BasicCredentialView) -> Seq<u8> {
    spec_encode_opaque16(b.identity) + be_u16_bytes(b.signature_scheme as int)
        + spec_encode_opaque16(b.public_key)
}

/// The basic credential encoded at the start of `b`, with the number of
/// bytes its encoding occupies.
pub open spec fn spec_decode_basic(b: Seq<u8>) -> Option<(BasicCredentialView, int)> {
    match spec_decode_opaque16(b) {
        None => None,
        Some(idp) => {
            let s1 = b.skip(idp.1);
            if s1.len() < 2 {
                None
            } else {
                let scheme = be_u16_value(s1[0], s1[1]) as u16;
                match spec_decode_opaque16(s1.skip(2)) {
                    None => None,
                    Some(pkp) => Some(
                        (
                            BasicCredentialView {
                                identity: idp.0,
                                signature_scheme: scheme,
                                public_key: pkp.0,
                            },
                            idp.1 + 2 + pkp.1,
                        ),
                    ),
                }
            }
        },
    }
}

/// The encoding of a credential: the variant's tag, then its payload.
pub open spec fn spec_encode_credential(c: CredentialView) -> Seq<u8> {
    match c {
        CredentialView::Basic(b) => seq![BASIC_CREDENTIAL_TAG] + spec_encode_basic(b),
        CredentialView::X509(x) => seq![X509_CREDENTIAL_TAG] + spec_encode_x509(x),
    }
}

/// The credential encoded at the start of `b`, with the number of bytes
/// its encoding occupies; `None` on an unknown discriminant tag.
pub open spec fn spec_decode_credential(b: Seq<u8>) -> Option<(CredentialView, int)> {
    if b.len() < 1 {
        None
    } else if b[0] == BASIC_CREDENTIAL_TAG {
        match spec_decode_basic(b.skip(1)) {
            None => None,
            Some(p) => Some((CredentialView::Basic(p.0), 1 + p.1)),
        }
    } else if b[0] == X509_CREDENTIAL_TAG {
        match spec_decode_x509(b.skip(1)) {
            None => None,
            Some(p) => Some((CredentialView::X509(p.0), 1 + p.1)),
        }
    } else {
        None
    }
}

// ------------------------------------------------------------------
// Executable encoders and decoders.
// ------------------------------------------------------------------

/// `out` extended by the bytes of `data`.
fn append_bytes(out: &mut Vec<u8>, data: &Vec<u8>)
    ensures
        final(out)@ == old(out)@ + data@,
{
    let mut i: usize = 0;
    while i < data.len()
        invariant
            i <= data@.len(),
            out@ == old(out)@ + data@.take(i as int),
        decreases data@.len() - i,
    {
        out.push(data[i]);
        proof {
            assert(old(out)@ + data@.take(i as int) + seq![data@[i as int]] =~= old(out)@
                + data@.take(i + 1));
        }
        i = i + 1;
    }
    proof {
        assert(old(out)@ + data@.take(data@.len() as int) =~= old(out)@ + data@);
    }
}

/// The bytes of `buf` from `start` (inclusive) to `end` (exclusive), as a
/// fresh vector.
fn copy_range(buf: &Vec<u8>, start: usize, end: usize) -> (r: Vec<u8>)
    requires
        start <= end <= buf@.len(),
    ensures
        r@ == buf@.subrange(start as int, end as int),
{
    let mut out: Vec<u8> = Vec::new();
    let mut i: usize = start;
    while i < end
        invariant
            start <= i <= end <= buf@.len(),
            out@ == buf@.subrange(start as int, i as int),
        decreases end - i,
    {
        out.push(buf[i]);
        proof {
            assert(buf@.subrange(start as int, i as int).push(buf@[i as int]) =~= buf@.subrange(
                start as int,
                i + 1,
            ));
        }
        i = i + 1;
    }
    out
}

/// Pushes the 16-bit big-endian encoding of `n` onto `out`.
fn push_be_u16(out: &mut Vec<u8>, n: usize)
    requires
        n <= 0xffff,
    ensures
        final(out)@ == old(out)@ + be_u16_bytes(n as int),
{
    proof {
        lemma_div_is_ordered(n as int, 0xffff, 0x100);
    }
    out.push((n / 0x100) as u8);
    out.push((n % 0x100) as u8);
    proof {
        assert(out@ =~= old(out)@ + be_u16_bytes(n as int));
    }
}

/// Pushes the 24-bit big-endian encoding of `n` onto `out`.
fn push_be_u24(out: &mut Vec<u8>, n: usize)
    requires
        n <= 0xffffff,
    ensures
        final(out)@ == old(out)@ + be_u24_bytes(n as int),
{
    proof {
        lemma_div_is_ordered(n as int, 0xffffff, 0x10000);
    }
    out.push((n / 0x10000) as u8);
    out.push(((n / 0x100) % 0x100) as u8);
    out.push((n % 0x100) as u8);
    proof {
        assert(out@ =~= old(out)@ + be_u24_bytes(n as int));
    }
}

impl Identity {
    /// Encodes this identity as a 16-bit-length-prefixed byte string.
    pub fn encode(&self) -> (r: Vec<u8>)
        requires
            self.wf(),
        ensures
            r@ == spec_encode_opaque16(self@),
    {
        let mut out: Vec<u8> = Vec::new();
        push_be_u16(&mut out, self.0.len());
        append_bytes(&mut out, &self.0);
        out
    }

    /// Decodes the identity encoded in `buf` at `pos`. Returns the decoded
    /// identity and the position just past its encoding; fails with
    /// `MalformedEncoding` exactly when no identity is encoded there.
    pub fn decode(buf: &Vec<u8>, pos: usize) -> (r: Result<(Identity, usize), MlsError>)
        requires
            pos <= buf@.len(),
        ensures
            (r matches Ok(p) ==> {
                &&& spec_decode_opaque16(buf@.skip(pos as int)) == Some((p.0@, p.1 - pos))
                &&& p.0.wf()
                &&& pos < p.1 <= buf@.len()
                &&& buf@.subrange(pos as int, p.1 as int) == spec_encode_opaque16(p.0@)
            }),
            (r matches Err(e) ==> e == MlsError::MalformedEncoding && spec_decode_opaque16(
                buf@.skip(pos as int),
            ) is None),
    {
        match decode_opaque16(buf, pos) {
            Ok((bytes, next)) => Ok((Identity(bytes), next)),
            Err(e) => Err(e),
        }
    }
}

impl SigPublicKey {
    /// Encodes this public key as a 16-bit-length-prefixed byte string.
    pub fn encode(&self) -> (r: Vec<u8>)
        requires
            self.wf(),
        ensures
            r@ == spec_encode_opaque16(self@),
    {
        let mut out: Vec<u8> = Vec::new();
        push_be_u16(&mut out, self.0.len());
        append_bytes(&mut out, &self.0);
        out
    }

    /// Decodes the public key encoded in `buf` at `pos`; fails with
    /// `MalformedEncoding` exactly when no such byte string is encoded
    /// there.
    pub fn decode(buf: &Vec<u8>, pos: usize) -> (r: Result<(SigPublicKey, usize), MlsError>)
        requires
            pos <= buf@.len(),
        ensures
            (r matches Ok(p) ==> {
                &&& spec_decode_opaque16(buf@.skip(pos as int)) == Some((p.0@, p.1 - pos))
                &&& p.0.wf()
                &&& pos < p.1 <= buf@.len()
                &&& buf@.subrange(pos as int, p.1 as int) == spec_encode_opaque16(p.0@)
            }),
            (r matches Err(e) ==> e == MlsError::MalformedEncoding && spec_decode_opaque16(
                buf@.skip(pos as int),
            ) is None),
    {
        match decode_opaque16(buf, pos) {
            Ok((bytes, next)) => Ok((SigPublicKey(bytes), next)),
            Err(e) => Err(e),
        }
    }
}

/// Decodes the 16-bit-length-prefixed byte string in `buf` at `pos`.
fn decode_opaque16(buf: &Vec<u8>, pos: usize) -> (r: Result<(Vec<u8>, usize), MlsError>)
    requires
        pos <= buf@.len(),
    ensures
        (r matches Ok(p) ==> {
            &&& spec_decode_opaque16(buf@.skip(pos as int)) == Some((p.0@, p.1 - pos))
            &&& p.0@.len() <= 0xffff
            &&& pos < p.1 <= buf@.len()
            &&& buf@.subrange(pos as int, p.1 as int) == spec_encode_opaque16(p.0@)
        }),
        (r matches Err(e) ==> e == MlsError::MalformedEncoding && spec_decode_opaque16(
            buf@.skip(pos as int),
        ) is None),
{
    let ghost rest = buf@.skip(pos as int);
    let remaining = buf.len() - pos;
    if remaining < 2 {
        return Err(MlsError::MalformedEncoding);
    }
    let n: usize = (buf[pos] as usize) * 0x100 + (buf[pos + 1] as usize);
    assert(n == be_u16_value(rest[0], rest[1]));
    if remaining - 2 < n {
        assert(rest.len() < 2 + be_u16_value(rest[0], rest[1]));
        return Err(MlsError::MalformedEncoding);
    }
    let next = pos + 2 + n;
    let payload = copy_range(buf, pos + 2, next);
    proof {
        lemma_be_u16_bytes_of_value(rest[0], rest[1]);
        assert(rest.subrange(2, 2 + n) =~= buf@.subrange(pos + 2, next as int));
        assert(buf@.subrange(pos as int, next as int) =~= spec_encode_opaque16(payload@));
    }
    Ok((payload, next))
}

impl X509CertData {
    /// Encodes this certificate as a 24-bit-length-prefixed byte string.
    pub fn encode(&self) -> (r: Vec<u8>)
        requires
            self.wf(),
        ensures
            r@ == spec_encode_x509(self@),
    {
        let mut out: Vec<u8> = Vec::new();
        push_be_u24(&mut out, self.0.len());
        append_bytes(&mut out, &self.0);
        out
    }

    /// Decodes the certificate encoded in `buf` at `pos`. Fails with
    /// `MalformedEncoding` exactly when no certificate is encoded there;
    /// in particular, a declared length of zero is out of the declared
    /// bound of the certificate type and is refused.
    pub fn decode(buf: &Vec<u8>, pos: usize) -> (r: Result<(X509CertData, usize), MlsError>)
        requires
            pos <= buf@.len(),
        ensures
            (r matches Ok(p) ==> {
                &&& spec_decode_x509(buf@.skip(pos as int)) == Some((p.0@, p.1 - pos))
                &&& p.0.wf()
                &&& pos < p.1 <= buf@.len()
                &&& buf@.subrange(pos as int, p.1 as int) == spec_encode_x509(p.0@)
            }),
            (r matches Err(e) ==> e == MlsError::MalformedEncoding && spec_decode_x509(
                buf@.skip(pos as int),
            ) is None),
    {
        let ghost rest = buf@.skip(pos as int);
        let remaining = buf.len() - pos;
        if remaining < 3 {
            return Err(MlsError::MalformedEncoding);
        }
        let n: usize = (buf[pos] as usize) * 0x10000 + (buf[pos + 1] as usize) * 0x100 + (buf[pos
            + 2] as usize);
        assert(n == be_u24_value(rest[0], rest[1], rest[2]));
        if n == 0 {
            return Err(MlsError::MalformedEncoding);
        }
        if remaining - 3 < n {
            assert(rest.len() < 3 + be_u24_value(rest[0], rest[1], rest[2]));
            return Err(MlsError::MalformedEncoding);
        }
        let next = pos + 3 + n;
        let payload = copy_range(buf, pos + 3, next);
        let cert = X509CertData(payload);
        proof {
            lemma_be_u24_bytes_of_value(rest[0], rest[1], rest[2]);
            assert(rest.subrange(3, 3 + n) =~= buf@.subrange(pos + 3, next as int));
            assert(buf@.subrange(pos as int, next as int) =~= spec_encode_x509(cert@));
        }
        Ok((cert, next))
    }
}

impl BasicCredential {
    /// Encodes this basic credential: identity, scheme identifier, public
    /// key, in declared order.
    pub fn encode(&self) -> (r: Vec<u8>)
        requires
            self.wf(),
        ensures
            r@ == spec_encode_basic(self@),
    {
        let mut out: Vec<u8> = Vec::new();
        push_be_u16(&mut out, self.identity.0.len());
        append_bytes(&mut out, &self.identity.0);
        push_be_u16(&mut out, self.signature_scheme.0 as usize);
        push_be_u16(&mut out, self.public_key.0.len());
        append_bytes(&mut out, &self.public_key.0);
        proof {
            assert(out@ =~= spec_encode_basic(self@));
        }
        out
    }

    /// Decodes the basic credential encoded in `buf` at `pos`; fails with
    /// `MalformedEncoding` exactly when no basic credential is encoded
    /// there.
    pub fn decode(buf: &Vec<u8>, pos: usize) -> (r: Result<(BasicCredential, usize), MlsError>)
        requires
            pos <= buf@.len(),
        ensures
            (r matches Ok(p) ==> {
                &&& spec_decode_basic(buf@.skip(pos as int)) == Some((p.0@, p.1 - pos))
                &&& p.0.wf()
                &&& pos < p.1 <= buf@.len()
                &&& buf@.subrange(pos as int, p.1 as int) == spec_encode_basic(p.0@)
            }),
            (r matches Err(e) ==> e == MlsError::MalformedEncoding && spec_decode_basic(
                buf@.skip(pos as int),
            ) is None),
    {
        let ghost rest = buf@.skip(pos as int);
        let identity: Identity;
        let id_end: usize;
        match Identity::decode(buf, pos) {
            Ok(p) => {
                identity = p.0;
                id_end = p.1;
            },
            Err(_) => {
                return Err(MlsError::MalformedEncoding);
            },
        }
        proof {
            assert(rest.skip(id_end - pos) =~= buf@.skip(id_end as int));
        }
        if buf.len() - id_end < 2 {
            return Err(MlsError::MalformedEncoding);
        }
        let scheme_raw: u16 = (buf[id_end] as u16) * 0x100 + (buf[id_end + 1] as u16);
        let ghost s1 = buf@.skip(id_end as int);
        assert(scheme_raw == be_u16_value(s1[0], s1[1]) as u16);
        let pk_start = id_end + 2;
        proof {
            assert(s1.skip(2) =~= buf@.skip(pk_start as int));
        }
        let public_key: SigPublicKey;
        let pk_end: usize;
        match SigPublicKey::decode(buf, pk_start) {
            Ok(p) => {
                public_key = p.0;
                pk_end = p.1;
            },
            Err(_) => {
                return Err(MlsError::MalformedEncoding);
            },
        }
        let cred = BasicCredential {
            identity,
            signature_scheme: SignatureSchemeId(scheme_raw),
            public_key,
        };
        proof {
            assert(spec_decode_basic(rest) == Some((cred@, pk_end - pos as int)));
            lemma_be_u16_bytes_of_value(s1[0], s1[1]);
            assert(buf@.subrange(id_end as int, pk_start as int) =~= seq![s1[0], s1[1]]);
            assert(buf@.subrange(pos as int, pk_end as int) =~= buf@.subrange(
                pos as int,
                id_end as int,
            ) + buf@.subrange(id_end as int, pk_start as int) + buf@.subrange(
                pk_start as int,
                pk_end as int,
            ));
            assert(buf@.subrange(pos as int, pk_end as int) == spec_encode_basic(cred@));
        }
        Ok((cred, pk_end))
    }
}

impl Credential {
    /// Encodes this credential: the variant's tag byte, then the
    /// variant's own encoding.
    pub fn encode(&self) -> (r: Vec<u8>)
        requires
            self.wf(),
        ensures
            r@ == spec_encode_credential(self@),
    {
        let mut out: Vec<u8> = Vec::new();
        match self {
            Credential::Basic(b) => {
                out.push(BASIC_CREDENTIAL_TAG);
                let payload = b.encode();
                append_bytes(&mut out, &payload);
                proof {
                    assert(out@ =~= spec_encode_credential(self@));
                }
            },
            Credential::X509(x) => {
                out.push(X509_CREDENTIAL_TAG);
                let payload = x.encode();
                append_bytes(&mut out, &payload);
                proof {
                    assert(out@ =~= spec_encode_credential(self@));
                }
            },
        }
        out
    }

    /// Decodes the credential encoded in `buf` at `pos`; fails with
    /// `MalformedEncoding` exactly when no credential is encoded there —
    /// among else on an unknown discriminant tag.
    pub fn decode(buf: &Vec<u8>, pos: usize) -> (r: Result<(Credential, usize), MlsError>)
        requires
            pos <= buf@.len(),
        ensures
            (r matches Ok(p) ==> {
                &&& spec_decode_credential(buf@.skip(pos as int)) == Some((p.0@, p.1 - pos))
                &&& p.0.wf()
                &&& pos < p.1 <= buf@.len()
                &&& buf@.subrange(pos as int, p.1 as int) == spec_encode_credential(p.0@)
            }),
            (r matches Err(e) ==> e == MlsError::MalformedEncoding && spec_decode_credential(
                buf@.skip(pos as int),
            ) is None),
    {
        let ghost rest = buf@.skip(pos as int);
        if buf.len() - pos < 1 {
            return Err(MlsError::MalformedEncoding);
        }
        let tag = buf[pos];
        assert(tag == rest[0]);
        proof {
            assert(rest.skip(1) =~= buf@.skip(pos + 1));
        }
        if tag == BASIC_CREDENTIAL_TAG {
            match BasicCredential::decode(buf, pos + 1) {
                Ok(p) => {
                    let cred = Credential::Basic(p.0);
                    proof {
                        assert(buf@.subrange(pos as int, p.1 as int) =~= seq![BASIC_CREDENTIAL_TAG]
                            + buf@.subrange(pos + 1, p.1 as int));
                    }
                    Ok((cred, p.1))
                },
                Err(_) => Err(MlsError::MalformedEncoding),
            }
        } else if tag == X509_CREDENTIAL_TAG {
            match X509CertData::decode(buf, pos + 1) {
                Ok(p) => {
                    let cred = Credential::X509(p.0);
                    proof {
                        assert(buf@.subrange(pos as int, p.1 as int) =~= seq![X509_CREDENTIAL_TAG]
                            + buf@.subrange(pos + 1, p.1 as int));
                    }
                    Ok((cred, p.1))
                },
                Err(_) => Err(MlsError::MalformedEncoding),
            }
        } else {
            Err(MlsError::MalformedEncoding)
        }
    }
}

// ------------------------------------------------------------------
// Round-trip laws: decoding an encoding yields the encoded value, and
// re-encoding a decoded value reproduces the bytes that were read.
// ------------------------------------------------------------------

/// Encode-then-decode for 16-bit-prefixed opaque byte strings: the
/// encoding of any admissible byte string, followed by anything, decodes
/// to exactly that byte string.
pub proof fn lemma_opaque16_encode_decode(bytes: Seq<u8>, rest: Seq<u8>)
    requires
        bytes.len() <= 0xffff,
    ensures
        spec_decode_opaque16(spec_encode_opaque16(bytes) + rest) == Some(
            (bytes, 2 + bytes.len() as int),
        ),
{
    let e = spec_encode_opaque16(bytes) + rest;
    lemma_be_u16_round_trip(bytes.len() as int);
    assert(e[0] == be_u16_bytes(bytes.len() as int)[0]);
    assert(e[1] == be_u16_bytes(bytes.len() as int)[1]);
    assert(e.subrange(2, 2 + bytes.len() as int) =~= bytes);
}

/// Decode-then-encode for 16-bit-prefixed opaque byte strings: whatever a
/// decode read, re-encoding it reproduces exactly the bytes it consumed.
pub proof fn lemma_opaque16_decode_encode(b: Seq<u8>)
    ensures
        spec_decode_opaque16(b) matches Some(p) ==> {
            &&& p.0.len() <= 0xffff
            &&& p.1 == 2 + p.0.len()
            &&& spec_encode_opaque16(p.0) == b.take(p.1)
        },
{
    if b.len() >= 2 {
        lemma_be_u16_bytes_of_value(b[0], b[1]);
        let n = be_u16_value(b[0], b[1]);
        if b.len() >= 2 + n {
            assert(spec_encode_opaque16(b.subrange(2, 2 + n)) =~= b.take(2 + n));
        }
    }
}

/// Encode-then-decode for certificate byte strings.
pub proof fn lemma_x509_encode_decode(bytes: Seq<u8>, rest: Seq<u8>)
    requires
        1 <= bytes.len() <= 0xffffff,
    ensures
        spec_decode_x509(spec_encode_x509(bytes) + rest) == Some((bytes, 3 + bytes.len() as int)),
{
    let e = spec_encode_x509(bytes) + rest;
    lemma_be_u24_round_trip(bytes.len() as int);
    assert(e[0] == be_u24_bytes(bytes.len() as int)[0]);
    assert(e[1] == be_u24_bytes(bytes.len() as int)[1]);
    assert(e[2] == be_u24_bytes(bytes.len() as int)[2]);
    assert(e.subrange(3, 3 + bytes.len() as int) =~= bytes);
}

/// Decode-then-encode for certificate byte strings.
pub proof fn lemma_x509_decode_encode(b: Seq<u8>)
    ensures
        spec_decode_x509(b) matches Some(p) ==> {
            &&& 1 <= p.0.len() <= 0xffffff
            &&& p.1 == 3 + p.0.len()
            &&& spec_encode_x509(p.0) == b.take(p.1)
        },
{
    if b.len() >= 3 {
        lemma_be_u24_bytes_of_value(b[0], b[1], b[2]);
        let n = be_u24_value(b[0], b[1], b[2]);
        if 1 <= n && b.len() >= 3 + n {
            assert(spec_encode_x509(b.subrange(3, 3 + n)) =~= b.take(3 + n));
        }
    }
}

/// Encode-then-decode for basic credentials.
pub proof fn lemma_basic_encode_decode(b: BasicCredentialView, rest: Seq<u8>)
    requires
        b.wf(),
    ensures
        spec_decode_basic(spec_encode_basic(b) + rest) == Some(
            (b, spec_encode_basic(b).len() as int),
        ),
{
    let e = spec_encode_basic(b) + rest;
    let tail1 = be_u16_bytes(b.signature_scheme as int) + spec_encode_opaque16(b.public_key)
        + rest;
    assert(e =~= spec_encode_opaque16(b.identity) + tail1);
    lemma_opaque16_encode_decode(b.identity, tail1);
    let n1 = 2 + b.identity.len() as int;
    assert(e.skip(n1) =~= tail1);
    lemma_be_u16_round_trip(b.signature_scheme as int);
    assert(tail1[0] == be_u16_bytes(b.signature_scheme as int)[0]);
    assert(tail1[1] == be_u16_bytes(b.signature_scheme as int)[1]);
    assert(tail1.skip(2) =~= spec_encode_opaque16(b.public_key) + rest);
    lemma_opaque16_encode_decode(b.public_key, rest);
    let decoded = BasicCredentialView {
        identity: b.identity,
        signature_scheme: (be_u16_value(tail1[0], tail1[1]) as u16),
        public_key: b.public_key,
    };
    assert(decoded =~= b);
}

/// Decode-then-encode for basic credentials.
pub proof fn lemma_basic_decode_encode(b: Seq<u8>)
    ensures
        spec_decode_basic(b) matches Some(p) ==> {
            &&& p.0.wf()
            &&& spec_encode_basic(p.0) == b.take(p.1)
        },
{
    lemma_opaque16_decode_encode(b);
    match spec_decode_opaque16(b) {
        None => {},
        Some(idp) => {
            let s1 = b.skip(idp.1);
            if s1.len() >= 2 {
                let scheme = be_u16_value(s1[0], s1[1]) as u16;
                let s2 = s1.skip(2);
                lemma_opaque16_decode_encode(s2);
                match spec_decode_opaque16(s2) {
                    None => {},
                    Some(pkp) => {
                        lemma_be_u16_bytes_of_value(s1[0], s1[1]);
                        let v = BasicCredentialView {
                            identity: idp.0,
                            signature_scheme: scheme,
                            public_key: pkp.0,
                        };
                        assert(spec_encode_basic(v) =~= b.take(idp.1 + 2 + pkp.1));
                    },
                }
            }
        },
    }
}

/// Encode-then-decode for credentials: P6's first direction at the level
/// of whole credentials.
pub proof fn lemma_credential_encode_decode(c: CredentialView, rest: Seq<u8>)
    requires
        c.wf(),
    ensures
        spec_decode_credential(spec_encode_credential(c) + rest) == Some(
            (c, spec_encode_credential(c).len() as int),
        ),
{
    let e = spec_encode_credential(c) + rest;
    match c {
        CredentialView::Basic(b) => {
            assert(e[0] == BASIC_CREDENTIAL_TAG);
            assert(e.skip(1) =~= spec_encode_basic(b) + rest);
            lemma_basic_encode_decode(b, rest);
        },
        CredentialView::X509(x) => {
            assert(e[0] == X509_CREDENTIAL_TAG);
            assert(e.skip(1) =~= spec_encode_x509(x) + rest);
            lemma_x509_encode_decode(x, rest);
        },
    }
}

/// Decode-then-encode for credentials: whatever bytes a credential decode
/// consumed, re-encoding the decoded credential reproduces them exactly.
pub proof fn lemma_credential_decode_encode(b: Seq<u8>)
    ensures
        spec_decode_credential(b) matches Some(p) ==> {
            &&& p.0.wf()
            &&& spec_encode_credential(p.0) == b.take(p.1)
        },
{
    if b.len() >= 1 {
        let s = b.skip(1);
        if b[0] == BASIC_CREDENTIAL_TAG {
            lemma_basic_decode_encode(s);
            match spec_decode_basic(s) {
                None => {},
                Some(p) => {
                    assert(spec_encode_credential(CredentialView::Basic(p.0)) =~= b.take(1 + p.1));
                },
            }
        } else if b[0] == X509_CREDENTIAL_TAG {
            lemma_x509_decode_encode(s);
            match spec_decode_x509(s) {
                None => {},
                Some(p) => {
                    assert(spec_encode_credential(CredentialView::X509(p.0)) =~= b.take(1 + p.1));
                },
            }
        }
    }
}

} // verus!
