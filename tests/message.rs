use hoot::message::{MessageError, RelayMessage};
use hoot::unwrap::validate_nsec;
use nostr::nips::nip19::ToBech32;

#[test]
fn reads_each_relay_message_kind() {
    match RelayMessage::from_json("[\"NOTICE\",\"slow down\"]") {
        Ok(RelayMessage::Notice(m)) => assert_eq!(m, "slow down"),
        other => panic!("{:?}", other),
    }
    match RelayMessage::from_json("[\"EOSE\",\"sub1\"]") {
        Ok(RelayMessage::Eose(s)) => assert_eq!(s, "sub1"),
        other => panic!("{:?}", other),
    }
    match RelayMessage::from_json("[\"CLOSED\",\"sub1\",\"auth-required\"]") {
        Ok(RelayMessage::Closed(s, r)) => {
            assert_eq!(s, "sub1");
            assert_eq!(r, "auth-required");
        },
        other => panic!("{:?}", other),
    }
    match RelayMessage::from_json("[\"OK\",\"abcd\",false,\"blocked: spam\"]") {
        Ok(RelayMessage::OK(c)) => {
            assert_eq!(c.event_id, "abcd");
            assert!(!c.status);
            assert_eq!(c.message, "blocked: spam");
        },
        other => panic!("{:?}", other),
    }
}

#[test]
fn reads_an_event_message() {
    let json = r#"["EVENT","sub",{"content":"uRuvYr585B80L6rSJiHocw==?iv=oh6LVqdsYYol3JfFnXTbPA==","created_at":1640839235,"id":"2be17aa3031bdcb006f0fce80c146dea9c1c0268b0af2398bb673365c6444d45","kind":4,"pubkey":"f86c44a2de95d9149b51c6a29afeabba264c18e2fa7c49de93424a0c56947785","sig":"a5d9290ef9659083c490b303eb7ee41356d8778ff19f2f91776c8dc4443388a64ffcf336e61af4c25c05ac3ae952d1ced889ed655b67790891222aaa15b99fdd","tags":[["p","13adc511de7e1cfcf1c6b7f6365fb5a03442d7bcacf565ea57fa7770912c023d"]]}]"#;
    match RelayMessage::from_json(json) {
        Ok(RelayMessage::Event { subscription_id, event }) => {
            assert_eq!(subscription_id, "sub");
            assert_eq!(event.kind, 4);
            assert_eq!(event.created_at, 1640839235);
            assert!(event.verify());
        },
        other => panic!("{:?}", other),
    }
}

#[test]
fn refuses_malformed_messages() {
    assert!(matches!(RelayMessage::from_json(""), Err(MessageError::Empty)));
    assert!(matches!(RelayMessage::from_json("{}"), Err(MessageError::DecodeFailed)));
    assert!(matches!(RelayMessage::from_json("[]"), Err(MessageError::DecodeFailed)));
    assert!(matches!(RelayMessage::from_json("[\"NOTICE\"]"), Err(MessageError::DecodeFailed)));
    assert!(matches!(RelayMessage::from_json("[\"EVENT\",\"s\",{}]"), Err(MessageError::DecodeFailed)));
    assert!(matches!(RelayMessage::from_json("[\"OK\",\"a\",\"yes\",\"m\"]"), Err(MessageError::DecodeFailed)));
    assert!(matches!(RelayMessage::from_json("[\"AUTH\",\"x\"]"), Err(MessageError::DecodeFailed)));
}

#[test]
fn validate_nsec_reads_a_secret_key() {
    assert_eq!(validate_nsec("").unwrap_err(), "Please enter a private key");
    assert_eq!(validate_nsec("nsec1notakey").unwrap_err(), "Invalid nsec format");
    let sk = nostr::key::SecretKey::from_slice(&[1u8; 32]).unwrap();
    let nsec = sk.to_bech32().unwrap();
    let account = validate_nsec(&nsec).unwrap();
    assert_eq!(account.secret_key, [1u8; 32]);
    let expected = nostr::key::Keys::new(sk).public_key().to_bytes();
    assert_eq!(account.public_key, expected);
}
