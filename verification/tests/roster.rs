use mls_roster::credential::BasicCredential;
use mls_roster::credential::Credential;
use mls_roster::credential::Identity;
use mls_roster::roster::Roster;
use mls_roster::sig::SigPublicKey;
use mls_roster::sig::SignatureSchemeId;
use mls_roster::sig::ED25519_SCHEME_ID;

fn basic_credential(id: &[u8], key: &[u8]) -> Credential {
    Credential::Basic(BasicCredential {
        identity: Identity(id.to_vec()),
        signature_scheme: SignatureSchemeId(ED25519_SCHEME_ID),
        public_key: SigPublicKey(key.to_vec()),
    })
}

#[test]
fn compaction_removes_trailing_blank_run() {
    let a = basic_credential(b"alice", &[1; 32]);
    let b = basic_credential(b"bob", &[2; 32]);
    let mut roster = Roster(vec![Some(a.clone()), None, Some(b.clone()), None, None]);
    roster.truncate_to_last_nonblank();
    assert_eq!(roster.len(), 3);
    assert_eq!(roster.0, vec![Some(a), None, Some(b)]);
}

#[test]
fn compaction_is_idempotent() {
    let a = basic_credential(b"alice", &[1; 32]);
    let mut roster = Roster(vec![None, Some(a), None, None]);
    roster.truncate_to_last_nonblank();
    let once = roster.clone();
    roster.truncate_to_last_nonblank();
    assert_eq!(roster, once);
}

#[test]
fn compaction_clears_all_blank_roster() {
    let mut empty = Roster::new();
    empty.truncate_to_last_nonblank();
    assert_eq!(empty.len(), 0);

    let mut blanks = Roster(vec![None, None, None, None]);
    blanks.truncate_to_last_nonblank();
    assert_eq!(blanks.len(), 0);
    assert_eq!(blanks.0, Vec::new());
}

#[test]
fn compaction_leaves_roster_without_trailing_blanks_unchanged() {
    let a = basic_credential(b"alice", &[1; 32]);
    let b = basic_credential(b"bob", &[2; 32]);

    let mut single = Roster(vec![Some(a.clone())]);
    single.truncate_to_last_nonblank();
    assert_eq!(single.len(), 1);
    assert_eq!(single.0, vec![Some(a.clone())]);

    let mut mixed = Roster(vec![Some(a.clone()), None, Some(b.clone())]);
    let before = mixed.clone();
    mixed.truncate_to_last_nonblank();
    assert_eq!(mixed, before);
}

#[test]
fn len_counts_blank_slots_before_and_after_compaction() {
    let a = basic_credential(b"alice", &[1; 32]);
    let mut roster = Roster(vec![None, Some(a), None, None, None]);
    assert_eq!(roster.len(), 5);
    roster.truncate_to_last_nonblank();
    assert_eq!(roster.len(), 2);
}

#[test]
fn slot_mutation_keeps_other_indices() {
    let a = basic_credential(b"alice", &[1; 32]);
    let b = basic_credential(b"bob", &[2; 32]);
    let mut roster = Roster::new();
    roster.push_slot(Some(a.clone()));
    roster.push_slot(None);
    roster.push_slot(None);
    assert_eq!(roster.len(), 3);

    roster.assign_slot(2, b.clone());
    assert_eq!(roster.get_slot(0), &Some(a.clone()));
    assert_eq!(roster.get_slot(1), &None);
    assert_eq!(roster.get_slot(2), &Some(b));

    roster.blank_slot(2);
    assert_eq!(roster.get_slot(2), &None);
    assert_eq!(roster.get_slot(0), &Some(a));
    assert_eq!(roster.len(), 3);
}
