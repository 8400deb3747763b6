use mls_roster::credential::BasicCredential;
use mls_roster::credential::Credential;
use mls_roster::credential::Identity;
use mls_roster::credential::X509CertData;
use mls_roster::error::MlsError;
use mls_roster::sig::lookup_capability;
use mls_roster::sig::SigPublicKey;
use mls_roster::sig::SignatureSchemeId;
use mls_roster::sig::ECDSA_P256_SHA256_SCHEME_ID;
use mls_roster::sig::ED25519_SCHEME_ID;

#[test]
fn basic_accessors_return_the_stored_fields() {
    let identity = Identity(b"carol".to_vec());
    let scheme = SignatureSchemeId(ED25519_SCHEME_ID);
    let key = SigPublicKey(vec![7; 32]);
    let cred = Credential::Basic(BasicCredential {
        identity: identity.clone(),
        signature_scheme: scheme,
        public_key: key.clone(),
    });
    assert_eq!(cred.get_identity(), Ok(&identity));
    assert_eq!(cred.get_public_key(), Ok(&key));
    assert_eq!(cred.get_signature_scheme(), Ok(scheme));
}

#[test]
fn x509_accessors_fail_with_not_implemented() {
    let cred = Credential::X509(X509CertData(vec![0x30, 0x82]));
    assert_eq!(cred.get_identity(), Err(MlsError::NotImplemented));
    assert_eq!(cred.get_public_key(), Err(MlsError::NotImplemented));
    assert_eq!(cred.get_signature_scheme(), Err(MlsError::NotImplemented));
}

#[test]
fn registry_knows_the_registered_schemes() {
    let ed = lookup_capability(SignatureSchemeId(ED25519_SCHEME_ID)).unwrap();
    assert_eq!(ed.id, ED25519_SCHEME_ID);
    assert_eq!(ed.public_key_len, 32);

    let p256 = lookup_capability(SignatureSchemeId(ECDSA_P256_SHA256_SCHEME_ID)).unwrap();
    assert_eq!(p256.id, ECDSA_P256_SHA256_SCHEME_ID);
    assert_eq!(p256.public_key_len, 65);

    assert_eq!(lookup_capability(SignatureSchemeId(0x1234)), None);
}

#[test]
fn key_validation_checks_the_declared_length() {
    let ed = lookup_capability(SignatureSchemeId(ED25519_SCHEME_ID)).unwrap();
    assert!(ed.is_valid_public_key(&SigPublicKey(vec![0; 32])));
    assert!(!ed.is_valid_public_key(&SigPublicKey(vec![0; 31])));
    assert!(!ed.is_valid_public_key(&SigPublicKey(Vec::new())));
}
