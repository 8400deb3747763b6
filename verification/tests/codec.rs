use mls_roster::credential::BasicCredential;
use mls_roster::credential::Credential;
use mls_roster::credential::Identity;
use mls_roster::credential::X509CertData;
use mls_roster::error::MlsError;
use mls_roster::sig::SigPublicKey;
use mls_roster::sig::SignatureSchemeId;
use mls_roster::sig::ED25519_SCHEME_ID;

#[test]
fn identity_encodes_with_16_bit_length_prefix() {
    assert_eq!(Identity(vec![1, 2, 3]).encode(), vec![0x00, 0x03, 1, 2, 3]);
    assert_eq!(Identity(Vec::new()).encode(), vec![0x00, 0x00]);
    let long = Identity(vec![0xab; 0x0100]);
    let enc = long.encode();
    assert_eq!(enc.len(), 2 + 0x0100);
    assert_eq!(&enc[..2], &[0x01, 0x00]);
}

#[test]
fn identity_round_trips_through_the_wire() {
    let identity = Identity(b"dave".to_vec());
    let enc = identity.encode();
    let (decoded, next) = Identity::decode(&enc, 0).unwrap();
    assert_eq!(decoded, identity);
    assert_eq!(next, enc.len());
    // Re-encoding the decoded value reproduces the original bytes exactly.
    assert_eq!(decoded.encode(), enc);
}

#[test]
fn identity_decode_fails_on_truncated_input() {
    // Declares five payload bytes but carries two.
    let enc = vec![0x00, 0x05, 1, 2];
    assert_eq!(Identity::decode(&enc, 0), Err(MlsError::MalformedEncoding));
    // A lone length-prefix byte.
    assert_eq!(Identity::decode(&vec![0x00], 0), Err(MlsError::MalformedEncoding));
}

#[test]
fn x509_encodes_with_24_bit_length_prefix() {
    assert_eq!(X509CertData(vec![0xde, 0xad]).encode(), vec![0x00, 0x00, 0x02, 0xde, 0xad]);
    let long = X509CertData(vec![0xcd; 0x010000]);
    let enc = long.encode();
    assert_eq!(enc.len(), 3 + 0x010000);
    assert_eq!(&enc[..3], &[0x01, 0x00, 0x00]);
}

#[test]
fn x509_round_trips_through_the_wire() {
    let cert = X509CertData(vec![0x30, 0x82, 0x01, 0x0a]);
    let enc = cert.encode();
    let (decoded, next) = X509CertData::decode(&enc, 0).unwrap();
    assert_eq!(decoded, cert);
    assert_eq!(next, enc.len());
    assert_eq!(decoded.encode(), enc);
}

#[test]
fn x509_decode_fails_on_zero_declared_length() {
    // A declared length of zero is below the certificate bound 1 ..= 0xffffff.
    let enc = vec![0x00, 0x00, 0x00];
    assert_eq!(X509CertData::decode(&enc, 0), Err(MlsError::MalformedEncoding));
}

#[test]
fn x509_decode_fails_on_truncated_input() {
    assert_eq!(X509CertData::decode(&vec![0x00, 0x00], 0), Err(MlsError::MalformedEncoding));
    // Declares three payload bytes but carries one.
    let enc = vec![0x00, 0x00, 0x03, 0x30];
    assert_eq!(X509CertData::decode(&enc, 0), Err(MlsError::MalformedEncoding));
}

fn sample_basic() -> Credential {
    Credential::Basic(BasicCredential {
        identity: Identity(b"erin".to_vec()),
        signature_scheme: SignatureSchemeId(ED25519_SCHEME_ID),
        public_key: SigPublicKey(vec![9; 32]),
    })
}

#[test]
fn basic_credential_encodes_fields_in_declared_order() {
    let cred = Credential::Basic(BasicCredential {
        identity: Identity(vec![0xaa]),
        signature_scheme: SignatureSchemeId(0x0807),
        public_key: SigPublicKey(vec![0xbb, 0xcc]),
    });
    assert_eq!(
        cred.encode(),
        vec![
            0x00, // Basic variant tag
            0x00, 0x01, 0xaa, // identity
            0x08, 0x07, // scheme identifier
            0x00, 0x02, 0xbb, 0xcc, // public key
        ]
    );
}

#[test]
fn x509_credential_encodes_tag_then_certificate() {
    let cred = Credential::X509(X509CertData(vec![0x99]));
    assert_eq!(cred.encode(), vec![0x01, 0x00, 0x00, 0x01, 0x99]);
}

#[test]
fn credential_round_trips_through_the_wire() {
    for cred in [sample_basic(), Credential::X509(X509CertData(vec![0x30, 0x82, 0x01]))] {
        let enc = cred.encode();
        let (decoded, next) = Credential::decode(&enc, 0).unwrap();
        assert_eq!(decoded, cred);
        assert_eq!(next, enc.len());
        assert_eq!(decoded.encode(), enc);
    }
}

#[test]
fn credential_decode_fails_on_unknown_tag() {
    let enc = vec![0x09, 0x00, 0x00];
    assert_eq!(Credential::decode(&enc, 0), Err(MlsError::MalformedEncoding));
}

#[test]
fn credential_decode_fails_on_empty_input() {
    assert_eq!(Credential::decode(&Vec::new(), 0), Err(MlsError::MalformedEncoding));
}

#[test]
fn credential_decode_fails_on_truncated_basic_payload() {
    let mut enc = sample_basic().encode();
    enc.pop();
    assert_eq!(Credential::decode(&enc, 0), Err(MlsError::MalformedEncoding));
}

#[test]
fn decoding_composes_at_an_offset() {
    let first = sample_basic();
    let second = Credential::X509(X509CertData(vec![0x42, 0x43]));
    let mut wire = first.encode();
    wire.extend(second.encode());
    let (d1, mid) = Credential::decode(&wire, 0).unwrap();
    let (d2, end) = Credential::decode(&wire, mid).unwrap();
    assert_eq!(d1, first);
    assert_eq!(d2, second);
    assert_eq!(end, wire.len());
}

#[test]
fn public_key_round_trips_through_the_wire() {
    let key = SigPublicKey(vec![5; 32]);
    let enc = key.encode();
    assert_eq!(&enc[..2], &[0x00, 0x20]);
    let (decoded, next) = SigPublicKey::decode(&enc, 0).unwrap();
    assert_eq!(decoded, key);
    assert_eq!(next, enc.len());
    assert_eq!(decoded.encode(), enc);
}
