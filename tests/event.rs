use bitcoin::secp256k1::{Keypair, Message, Secp256k1};
use hoot::id::EventId;
use hoot::kind::EventKind;
use hoot::record::{EventBuilder, Record};
use hoot::tag::Tag;
use hoot::verify::VerifyError;

fn keypair(seed: u8) -> Keypair {
    let secp = Secp256k1::new();
    Keypair::from_seckey_slice(&secp, &[seed; 32]).unwrap()
}

fn create_test_event() -> Record {
    Record {
        id: EventId::default(),
        pubkey: [0u8; 32],
        created_at: 1234567890,
        kind: 1,
        tags: vec![Tag::new_with_values(vec!["tag1".to_string(), "value1".to_string()])],
        content: "Test content".to_string(),
        sig: Some(vec![0u8; 64]),
    }
}

fn sign(record: &mut Record, keys: &Keypair) {
    let secp = Secp256k1::new();
    record.pubkey = keys.x_only_public_key().0.serialize();
    record.id = record.compute_id();
    let sig = secp.sign_schnorr_no_aux_rand(&Message::from_digest(record.id.into_bytes()), keys);
    record.sig = Some(sig.serialize().to_vec());
}

#[test]
fn test_compute_id() {
    let event = create_test_event();
    let id = event.compute_id();
    assert_ne!(id, EventId::default());
}

#[test]
fn test_sign_and_verify() {
    let keys = keypair(7);
    let mut event = create_test_event();
    sign(&mut event, &keys);
    assert!(event.sig.is_some());
    assert!(event.verify());
}

#[test]
fn test_sign_with_seckey() {
    let keys = keypair(9);
    let mut event = create_test_event();
    sign(&mut event, &keys);
    assert_eq!(event.check(), Ok(()));
    assert!(event.verify());
}

#[test]
fn test_verify_invalid_signature() {
    let mut event = create_test_event();
    event.content = "Modified content".to_string();
    assert!(!event.verify());
}

#[test]
fn computed_id_matches_nostr() {
    let keys = keypair(3);
    let mut event = create_test_event();
    event.tags.push(Tag::new_with_values(vec!["subject".to_string(), "quote \" and \\ and é".to_string()]));
    event.content = "line one\nline two \u{1F600}".to_string();
    sign(&mut event, &keys);
    let pk = nostr::key::PublicKey::from_slice(&event.pubkey).unwrap();
    let tags: Vec<nostr::event::Tag> = event
        .tags
        .iter()
        .map(|t| nostr::event::Tag::parse(t.0.clone()).unwrap())
        .collect();
    let expected = nostr::event::EventId::compute(
        &pk,
        &nostr::types::Timestamp::from(event.created_at),
        &nostr::event::Kind::from(event.kind),
        &nostr::event::Tags::from_list(tags),
        &event.content,
    );
    assert_eq!(event.id.into_bytes(), expected.to_bytes());
}

#[test]
fn identity_mismatch_is_reported() {
    let keys = keypair(4);
    let mut event = create_test_event();
    sign(&mut event, &keys);
    event.created_at += 1;
    assert_eq!(event.check(), Err(VerifyError::IdentityMismatch));
}

#[test]
fn signature_by_other_key_is_reported() {
    let mut event = create_test_event();
    sign(&mut event, &keypair(5));
    let other = keypair(6);
    let secp = Secp256k1::new();
    let sig = secp.sign_schnorr_no_aux_rand(&Message::from_digest(event.id.into_bytes()), &other);
    event.sig = Some(sig.serialize().to_vec());
    assert_eq!(event.check(), Err(VerifyError::SignatureInvalid));
    event.sig = None;
    assert_eq!(event.check(), Err(VerifyError::SignatureInvalid));
}

#[test]
fn builder_requires_time_and_kind() {
    let b = EventBuilder::new().content("x");
    assert!(b.build([1u8; 32]).is_err());
    let b = EventBuilder::new().kind(EventKind::MailEvent).created_at(10).tag(Tag::new_with_values(vec![
        "subject".to_string(),
        "Hi".to_string(),
    ]));
    let r = b.build([1u8; 32]).unwrap();
    assert_eq!(r.kind, 2024);
    assert_eq!(r.created_at, 10);
    assert_eq!(r.id, r.compute_id());
    assert!(r.sig.is_none());
}

#[test]
fn tag_accessors() {
    let t = Tag::new_with_values(vec!["e".to_string(), "ab".repeat(32)]);
    assert_eq!(t.kind(), "e");
    assert_eq!(t.content(), Some("ab".repeat(32).as_str()));
    assert_eq!(t.reference().unwrap().into_bytes(), [0xab; 32]);
    assert_eq!(t.len(), 2);
    assert_eq!(Tag::new().len(), 0);
    let short = Tag::new_with_values(vec!["e".to_string(), "abc".to_string()]);
    assert!(short.reference().is_none());
}

#[test]
fn hex_ids_read_both_cases() {
    let id = EventId::from_hex(&"0aF1".repeat(16)).unwrap();
    assert_eq!(&id.as_bytes()[..2], &[0x0a, 0xf1]);
    assert!(EventId::from_hex("0a").is_none());
    assert!(EventId::from_hex(&"zz".repeat(32)).is_none());
}

#[test]
fn record_reads_from_json() {
    let mut event = create_test_event();
    sign(&mut event, &keypair(8));
    let json = format!(
        "{{\"id\":\"{}\",\"pubkey\":\"{}\",\"created_at\":1234567890,\"kind\":1,\"tags\":[[\"tag1\",\"value1\"]],\"content\":\"Test content\",\"sig\":\"{}\"}}",
        hex(&event.id.into_bytes()),
        hex(&event.pubkey),
        hex(event.sig.as_ref().unwrap())
    );
    let parsed = Record::from_json(&json).unwrap();
    assert_eq!(parsed.id, event.id);
    assert_eq!(parsed.content, "Test content");
    assert!(parsed.verify());
    assert!(Record::from_json("{not json").is_none());
}

fn hex(b: &[u8]) -> String {
    b.iter().map(|x| format!("{:02x}", x)).collect()
}
