use bitcoin::secp256k1::{Keypair, Message, Secp256k1};
use hoot::id::EventId;
use hoot::profile::ProfileStore;
use hoot::record::Record;
use hoot::router::{ingest, Ingested};
use hoot::store::Store;
use hoot::tag::Tag;
use hoot::unwrap::{unwrap_envelope, Account, AccountManager, UnwrapError};

fn keypair(seed: u8) -> Keypair {
    let secp = Secp256k1::new();
    Keypair::from_seckey_slice(&secp, &[seed; 32]).unwrap()
}

fn public(seed: u8) -> [u8; 32] {
    keypair(seed).x_only_public_key().0.serialize()
}

fn hex(b: &[u8]) -> String {
    b.iter().map(|x| format!("{:02x}", x)).collect()
}

fn tag(values: &[&str]) -> Tag {
    Tag::new_with_values(values.iter().map(|s| s.to_string()).collect())
}

fn signed(seed: u8, created_at: u64, kind: u16, tags: Vec<Tag>, content: &str) -> Record {
    let keys = keypair(seed);
    let mut r = Record {
        id: EventId::default(),
        pubkey: public(seed),
        created_at,
        kind,
        tags,
        content: content.to_string(),
        sig: None,
    };
    r.id = r.compute_id();
    let secp = Secp256k1::new();
    let sig = secp.sign_schnorr_no_aux_rand(&Message::from_digest(r.id.into_bytes()), &keys);
    r.sig = Some(sig.serialize().to_vec());
    r
}

fn tags_json(tags: &[Tag]) -> String {
    let list: Vec<Vec<String>> = tags.iter().map(|t| t.0.clone()).collect();
    serde_json::to_string(&list).unwrap()
}

fn signed_json(r: &Record) -> String {
    format!(
        "{{\"id\":\"{}\",\"pubkey\":\"{}\",\"created_at\":{},\"kind\":{},\"tags\":{},\"content\":{},\"sig\":\"{}\"}}",
        hex(&r.id.into_bytes()),
        hex(&r.pubkey),
        r.created_at,
        r.kind,
        tags_json(&r.tags),
        serde_json::to_string(&r.content).unwrap(),
        hex(r.sig.as_ref().unwrap())
    )
}

fn rumor_json(author: [u8; 32], created_at: u64, kind: u16, tags: &[Tag], content: &str) -> String {
    format!(
        "{{\"pubkey\":\"{}\",\"created_at\":{},\"kind\":{},\"tags\":{},\"content\":{}}}",
        hex(&author),
        created_at,
        kind,
        tags_json(tags),
        serde_json::to_string(content).unwrap()
    )
}

fn encrypt(from_seed: u8, to: [u8; 32], text: &str, nonce: u8) -> String {
    let sk = nostr::key::SecretKey::from_slice(&[from_seed; 32]).unwrap();
    let pk = nostr::key::PublicKey::from_slice(&to).unwrap();
    nostr::nips::nip44::encrypt_with_nonce(&sk, &pk, text, nostr::nips::nip44::Nonce::V2([nonce; 32])).unwrap()
}

/// An envelope from `sender` to `recipient` holding `rumor`, sealed with `seal_kind`.
fn envelope(sender: u8, recipient: [u8; 32], rumor: &str, seal_kind: u16, wrap_time: u64) -> Record {
    let seal = signed(sender, 500, seal_kind, vec![], &encrypt(sender, recipient, rumor, 1));
    let eph: u8 = 200;
    signed(
        eph,
        wrap_time,
        1059,
        vec![tag(&["p", &hex(&recipient)])],
        &encrypt(eph, recipient, &signed_json(&seal), 2),
    )
}

fn account(seed: u8) -> Account {
    Account { public_key: public(seed), secret_key: [seed; 32] }
}

fn mail(seed: u8, at: u64, tags: Vec<Tag>, content: &str) -> Record {
    signed(seed, at, 2024, tags, content)
}

fn ids(records: &[Record]) -> Vec<EventId> {
    records.iter().map(|r| r.id).collect()
}

#[test]
fn inserting_twice_equals_inserting_once() {
    let mut store = Store::new();
    let mut profiles = ProfileStore::new();
    let r = mail(1, 100, vec![tag(&["subject", "Hello"])], "body");
    assert!(matches!(ingest(&mut store, &mut profiles, &vec![], &r, 0), Ingested::Plain(true)));
    assert!(matches!(ingest(&mut store, &mut profiles, &vec![], &r, 0), Ingested::Plain(false)));
    assert_eq!(store.len(), 1);
    assert!(store.has(&r.id));
}

#[test]
fn deleted_record_is_never_reinserted() {
    let mut store = Store::new();
    let mut profiles = ProfileStore::new();
    let r = mail(1, 100, vec![tag(&["subject", "Hello"])], "body");
    ingest(&mut store, &mut profiles, &vec![], &r, 0);
    let del = signed(1, 101, 5, vec![tag(&["e", &hex(&r.id.into_bytes())])], "");
    match ingest(&mut store, &mut profiles, &vec![], &del, 0) {
        Ingested::Deletion(ts) => assert_eq!(ts, vec![r.id]),
        _ => panic!("not a deletion"),
    }
    assert!(store.is_deleted(&r.id));
    assert!(!store.has(&r.id));
    assert!(matches!(ingest(&mut store, &mut profiles, &vec![], &r, 0), Ingested::Plain(false)));
    assert!(!store.has(&r.id));
}

#[test]
fn deletion_by_another_author_is_skipped() {
    let mut store = Store::new();
    let mut profiles = ProfileStore::new();
    let theirs = mail(2, 100, vec![tag(&["subject", "Mine"])], "B's text");
    ingest(&mut store, &mut profiles, &vec![], &theirs, 0);
    let del = signed(1, 101, 5, vec![tag(&["e", &hex(&theirs.id.into_bytes())])], "");
    ingest(&mut store, &mut profiles, &vec![], &del, 0);
    assert!(store.has(&theirs.id));
    assert!(!store.is_deleted(&theirs.id));
    assert_eq!(store.get(&theirs.id).unwrap().content, "B's text");
}

#[test]
fn trash_entry_lasts_until_its_purge_time() {
    let mut store = Store::new();
    let r = mail(1, 100, vec![tag(&["subject", "Hello"])], "body");
    let id = r.id;
    store.insert(r);
    store.move_to_trash(&vec![id], 100, 1000);
    assert_eq!(store.trash_listing(1099).len(), 1);
    assert_eq!(store.trash_listing(1099)[0].purge_after, 1100);
    assert_eq!(store.trash_listing(1100).len(), 0);
    store.purge_expired(1099);
    assert!(store.is_trashed(&id));
    assert!(store.has(&id));
    store.purge_expired(1100);
    assert!(!store.is_trashed(&id));
    assert!(store.is_deleted(&id));
    assert!(!store.has(&id));
}

#[test]
fn trash_retention_saturates_at_the_largest_time() {
    let mut store = Store::new();
    let r = mail(1, 100, vec![], "body");
    let id = r.id;
    store.insert(r);
    store.move_to_trash(&vec![id], u64::MAX, 5);
    assert_eq!(store.trash_entries()[0].purge_after, u64::MAX);
}

#[test]
fn restore_brings_the_record_back_unchanged() {
    let mut store = Store::new();
    let r = mail(1, 100, vec![tag(&["subject", "Hello"])], "body");
    let id = r.id;
    store.insert(r);
    assert_eq!(store.top_level_listing().len(), 1);
    store.move_to_trash(&vec![id], 10, 0);
    assert_eq!(store.top_level_listing().len(), 0);
    assert_eq!(store.thread(&id, false).len(), 0);
    assert_eq!(store.thread(&id, true).len(), 1);
    store.restore(&id);
    let listing = store.top_level_listing();
    assert_eq!(listing.len(), 1);
    assert_eq!(listing[0].id, id);
    assert_eq!(listing[0].snippet, "body");
    assert_eq!(listing[0].subject, "Hello");
}

#[test]
fn thread_of_a_reply_chain() {
    let mut store = Store::new();
    let a = mail(1, 100, vec![tag(&["subject", "Plans"])], "A");
    let b = mail(2, 200, vec![tag(&["e", &hex(&a.id.into_bytes())])], "B");
    let c = mail(1, 300, vec![tag(&["e", &hex(&b.id.into_bytes())])], "C");
    let d = mail(3, 250, vec![tag(&["e", &hex(&a.id.into_bytes())])], "D");
    let (ia, ib, ic, id) = (a.id, b.id, c.id, d.id);
    for r in [c, a, d, b] {
        store.insert(r);
    }
    // The closure runs both ways to a fixed point: from C up to A, then down to D.
    assert_eq!(ids(&store.thread(&ic, false)), vec![ia, ib, id, ic]);
    assert_eq!(ids(&store.thread(&id, false)), vec![ia, ib, id, ic]);
    // A trashed record stops the walk in the filtered view.
    store.move_to_trash(&vec![ia], 10, 0);
    assert_eq!(ids(&store.thread(&ic, false)), vec![ib, ic]);
    assert_eq!(ids(&store.thread(&id, false)), vec![id]);
    assert_eq!(ids(&store.thread(&ic, true)), vec![ia, ib, id, ic]);
}

#[test]
fn equal_times_are_ordered_by_id() {
    let mut store = Store::new();
    let a = mail(1, 100, vec![tag(&["subject", "S"])], "A");
    let b = mail(2, 100, vec![tag(&["e", &hex(&a.id.into_bytes())])], "B");
    let (ia, ib) = (a.id, b.id);
    store.insert(a);
    store.insert(b);
    let mut expected = vec![ia, ib];
    expected.sort_by_key(|i| i.into_bytes());
    assert_eq!(ids(&store.thread(&ia, false)), expected);
}

#[test]
fn listing_shows_roots_newest_first() {
    let mut store = Store::new();
    let a = mail(1, 100, vec![tag(&["subject", "Old"])], "A");
    let b = mail(2, 150, vec![tag(&["e", &hex(&a.id.into_bytes())])], "reply");
    let c = mail(3, 120, vec![tag(&["subject", "New"])], "C");
    let (ia, ic) = (a.id, c.id);
    store.insert(a);
    store.insert(b);
    store.insert(c);
    let listing = store.top_level_listing();
    assert_eq!(listing.len(), 2);
    assert_eq!(listing[0].id, ia);
    assert_eq!(listing[0].latest_at, 150);
    assert_eq!(listing[0].thread_size, 2);
    assert_eq!(listing[0].snippet, "reply");
    assert_eq!(listing[0].sender, public(2));
    assert_eq!(listing[0].subject, "Old");
    assert_eq!(listing[1].id, ic);
    assert_eq!(listing[1].thread_size, 1);
}

#[test]
fn envelope_scenario_unwrap_list_and_delete() {
    let mut store = Store::new();
    let mut profiles = ProfileStore::new();
    let x = account(42);
    let accounts = vec![x];
    let subject = [tag(&["subject", "Hi"])];
    let rumor = rumor_json(public(7), 300, 2024, &subject, "hello there");
    let e1 = envelope(7, x.public_key, &rumor, 13, 400);
    let inner = match ingest(&mut store, &mut profiles, &accounts, &e1, 1000) {
        Ingested::Unwrapped { inner, sender, recipient, stored } => {
            assert_eq!(sender, public(7));
            assert_eq!(recipient, x.public_key);
            assert!(stored);
            inner
        },
        other => panic!("unexpected {:?}", other),
    };
    let listing = store.top_level_listing();
    assert_eq!(listing.len(), 1);
    assert_eq!(listing[0].id, inner);
    assert_eq!(listing[0].subject, "Hi");
    assert!(store.is_envelope(&e1.id));
    assert!(!store.has(&e1.id));

    let del = signed(7, 500, 5, vec![tag(&["e", &hex(&inner.into_bytes())])], "");
    ingest(&mut store, &mut profiles, &accounts, &del, 1001);
    assert_eq!(store.top_level_listing().len(), 0);
    assert_eq!(store.thread(&inner, true).len(), 0);
    // The envelope that carried it is marked deleted too.
    assert!(store.is_deleted(&e1.id));
}

#[test]
fn rumor_id_is_recomputed() {
    let x = account(42);
    let rumor = rumor_json(public(7), 300, 2024, &[tag(&["subject", "Hi"])], "hello");
    let e = envelope(7, x.public_key, &rumor, 13, 400);
    let u = unwrap_envelope(&vec![x], &e).unwrap();
    assert_eq!(u.rumor.id, u.rumor.compute_id());
    assert_ne!(u.rumor.id, EventId::default());
    assert!(u.rumor.sig.is_none());
    assert_eq!(u.rumor.content, "hello");
}

#[test]
fn seal_signer_mismatch_stores_nothing() {
    let mut store = Store::new();
    let mut profiles = ProfileStore::new();
    let x = account(42);
    let rumor = rumor_json(public(8), 300, 2024, &[tag(&["subject", "Hi"])], "forged");
    let e = envelope(7, x.public_key, &rumor, 13, 400);
    let r = ingest(&mut store, &mut profiles, &vec![x], &e, 1000);
    assert!(matches!(r, Ingested::Dropped(UnwrapError::SealSignerMismatch)));
    assert_eq!(store.len(), 0);
    assert!(!store.is_envelope(&e.id));
}

#[test]
fn envelope_for_someone_else_is_ignored() {
    let mut store = Store::new();
    let mut profiles = ProfileStore::new();
    let rumor = rumor_json(public(7), 300, 2024, &[], "x");
    let e = envelope(7, public(43), &rumor, 13, 400);
    let r = ingest(&mut store, &mut profiles, &vec![account(42)], &e, 1000);
    assert!(matches!(r, Ingested::Dropped(UnwrapError::NotForUs)));
    assert_eq!(store.len(), 0);
}

#[test]
fn garbled_envelope_is_dropped() {
    let x = account(42);
    let e = signed(200, 400, 1059, vec![tag(&["p", &hex(&x.public_key)])], "not a payload");
    assert!(matches!(unwrap_envelope(&vec![x], &e), Err(UnwrapError::Undecryptable)));
}

#[test]
fn seal_of_wrong_kind_is_refused() {
    let x = account(42);
    let rumor = rumor_json(public(7), 300, 2024, &[], "x");
    let e = envelope(7, x.public_key, &rumor, 14, 400);
    assert!(matches!(unwrap_envelope(&vec![x], &e), Err(UnwrapError::SealInvalid)));
}

#[test]
fn tampered_record_is_rejected() {
    let mut store = Store::new();
    let mut profiles = ProfileStore::new();
    let mut r = mail(1, 100, vec![], "body");
    r.content = "other".to_string();
    assert!(matches!(ingest(&mut store, &mut profiles, &vec![], &r, 0), Ingested::Rejected(_)));
    assert_eq!(store.len(), 0);
}

#[test]
fn profile_only_strictly_newer_replaces() {
    let mut store = Store::new();
    let mut profiles = ProfileStore::new();
    let m1 = signed(1, 100, 0, vec![], "{\"name\":\"alice\"}");
    let m0 = signed(1, 50, 0, vec![], "{\"name\":\"old\"}");
    let same = signed(1, 100, 0, vec![], "{\"name\":\"tie\"}");
    let m2 = signed(1, 200, 0, vec![], "{\"name\":\"alice2\",\"display_name\":\"Alice\"}");
    assert!(matches!(ingest(&mut store, &mut profiles, &vec![], &m1, 0), Ingested::Profile(true)));
    assert!(matches!(ingest(&mut store, &mut profiles, &vec![], &m0, 0), Ingested::Profile(false)));
    assert!(matches!(ingest(&mut store, &mut profiles, &vec![], &same, 0), Ingested::Profile(false)));
    assert_eq!(profiles.get(&public(1)).unwrap().metadata.name.as_deref(), Some("alice"));
    assert!(matches!(ingest(&mut store, &mut profiles, &vec![], &m2, 0), Ingested::Profile(true)));
    let p = profiles.get(&public(1)).unwrap();
    assert_eq!(p.metadata.display_name.as_deref(), Some("Alice"));
    assert_eq!(p.created_at, 200);
    assert_eq!(store.len(), 0);
}

#[test]
fn deletion_skips_envelope_ids() {
    let mut store = Store::new();
    let mut profiles = ProfileStore::new();
    let x = account(42);
    let rumor = rumor_json(public(7), 300, 2024, &[tag(&["subject", "Hi"])], "hello");
    let e = envelope(7, x.public_key, &rumor, 13, 400);
    ingest(&mut store, &mut profiles, &vec![x], &e, 0);
    let del = signed(200, 500, 5, vec![tag(&["e", &hex(&e.id.into_bytes())])], "");
    match ingest(&mut store, &mut profiles, &vec![x], &del, 0) {
        Ingested::Deletion(ts) => assert!(ts.is_empty()),
        _ => panic!("not a deletion"),
    }
    assert!(!store.is_deleted(&e.id));
}

#[test]
fn unscoped_deletion_marks_unknown_ids() {
    let mut store = Store::new();
    let unknown = EventId::from_bytes([5u8; 32]);
    store.apply_deletion(&vec![unknown], None, None);
    assert!(store.is_deleted(&unknown));
    let scoped = EventId::from_bytes([6u8; 32]);
    store.apply_deletion(&vec![scoped], Some(public(1)), None);
    assert!(!store.is_deleted(&scoped));
}

#[test]
fn mail_ids_are_listed_in_store_order() {
    let mut store = Store::new();
    let a = mail(1, 100, vec![], "a");
    let note = signed(1, 110, 1, vec![], "note");
    let b = mail(2, 120, vec![], "b");
    let (ia, ib) = (a.id, b.id);
    store.insert(a);
    store.insert(note);
    store.insert(b);
    assert_eq!(store.ids_of_kind(2024), vec![ia, ib]);
    assert_eq!(store.ids_of_kind(7), vec![]);
}

#[test]
fn account_manager_adds_and_forgets_keys() {
    let mut manager = AccountManager::new();
    manager.save_keys(account(42));
    manager.save_keys(account(43));
    assert_eq!(manager.loaded_keys.len(), 2);
    assert!(manager.delete_key(&public(42)));
    assert_eq!(manager.loaded_keys.len(), 1);
    assert_eq!(manager.loaded_keys[0].public_key, public(43));
    assert!(!manager.delete_key(&public(42)));
    let rumor = rumor_json(public(7), 300, 2024, &[], "x");
    let e = envelope(7, public(43), &rumor, 13, 400);
    assert!(manager.unwrap_gift_wrap(&e).is_ok());
}
