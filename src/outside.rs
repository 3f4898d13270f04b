//! The calls this library makes into outside crates, each with the contract it relies on.
use bitcoin::hashes::Hash as _;
use bitcoin::secp256k1::{schnorr::Signature, Message, Secp256k1, XOnlyPublicKey};
use nostr::nips::nip19::FromBech32 as _;
use crate::id::EventId;
use crate::record::{Record, RecordModel};
use crate::tag::{opt_text, Tag};
use vstd::prelude::*;

verus! {

/// The bytes of the JSON string literal (quotes and escapes included) that
/// serde_json writes for a text.
pub uninterp spec fn json_text(s: Seq<char>) -> Seq<u8>;

/// The SHA-256 digest of a byte sequence.
pub uninterp spec fn sha256_of(b: Seq<u8>) -> Seq<u8>;

/// Whether a BIP-340 schnorr signature over a 32-byte message checks against
/// an x-only public key.
pub uninterp spec fn schnorr_accepts(sig: Seq<u8>, msg: Seq<u8>, pubkey: Seq<u8>) -> bool;

/// The plaintext of a NIP-44 payload between a secret key and a peer's public key,
/// where it decrypts to UTF-8.
pub uninterp spec fn nip44_plaintext(secret: Seq<u8>, peer: Seq<u8>, payload: Seq<char>) -> Option<
    Seq<char>,
>;

/// The signed record that a JSON text describes, where it describes one.
pub uninterp spec fn signed_record_of(json: Seq<char>) -> Option<RecordModel>;

/// The unsigned record that a JSON text describes, where it describes one.
pub uninterp spec fn unsigned_record_of(json: Seq<char>) -> Option<RecordModel>;

/// The (name, display name, picture) that a profile metadata JSON text holds,
/// where it is one.
pub uninterp spec fn metadata_of(json: Seq<char>) -> Option<
    (Option<Seq<char>>, Option<Seq<char>>, Option<Seq<char>>),
>;

/// The lower-case form of a text, by Unicode's case mapping.
pub uninterp spec fn lower_of(s: Seq<char>) -> Seq<char>;

/// Relies on str::to_lowercase: the result depends on the characters alone.
#[verifier::external_body]
pub(crate) fn lowercase(s: &str) -> (r: String)
    ensures
        r@ == lower_of(s@),
{
    s.to_lowercase()
}

/// Relies on char's `to_string`: the text of one character.
#[verifier::external_body]
pub(crate) fn char_text(c: char) -> (r: String)
    ensures
        r@ == seq![c],
{
    c.to_string()
}

/// The JSON texts of the elements of a JSON array text, where it is one.
pub uninterp spec fn json_array_items(s: Seq<char>) -> Option<Seq<Seq<char>>>;

/// The string that a JSON string literal text stands for, where it is one.
pub uninterp spec fn json_string_of(s: Seq<char>) -> Option<Seq<char>>;

/// The boolean that a JSON text stands for, where it is one.
pub uninterp spec fn json_bool_of(s: Seq<char>) -> Option<bool>;

/// Relies on serde_json::from_str into serde_json::Value and its `as_array`:
/// each element written back as JSON text; None where the text is no JSON array.
#[verifier::external_body]
pub(crate) fn json_items(s: &str) -> (r: Option<Vec<String>>)
    ensures
        match r {
            Some(v) => json_array_items(s@) == Some(v@.map_values(|t: String| t@)),
            None => json_array_items(s@) is None,
        },
{
    let v: serde_json::Value = serde_json::from_str(s).ok()?;
    Some(v.as_array()?.iter().map(|x| x.to_string()).collect())
}

/// Relies on serde_json::from_str into `String`.
#[verifier::external_body]
pub(crate) fn json_string(s: &str) -> (r: Option<String>)
    ensures
        match r {
            Some(t) => json_string_of(s@) == Some(t@),
            None => json_string_of(s@) is None,
        },
{
    serde_json::from_str::<String>(s).ok()
}

/// Relies on serde_json::from_str into `bool`.
#[verifier::external_body]
pub(crate) fn json_bool(s: &str) -> (r: Option<bool>)
    ensures
        r == json_bool_of(s@),
{
    serde_json::from_str::<bool>(s).ok()
}

/// The 32 secret-key bytes that a bech32 `nsec` text encodes, where it is one.
pub uninterp spec fn nsec_bytes_of(s: Seq<char>) -> Option<Seq<u8>>;

/// The x-only public key of a secret key, where the bytes are a valid secret key.
pub uninterp spec fn public_key_of(secret: Seq<u8>) -> Option<Seq<u8>>;

/// Relies on nostr's `SecretKey::from_bech32` (NIP-19): the decoded secret key.
#[verifier::external_body]
pub(crate) fn nsec_decode(s: &str) -> (r: Option<[u8; 32]>)
    ensures
        match r {
            Some(b) => nsec_bytes_of(s@) == Some(b@),
            None => nsec_bytes_of(s@) is None,
        },
{
    nostr::key::SecretKey::from_bech32(s).ok().map(|k| k.to_secret_bytes())
}

/// Relies on nostr's `Keys::new(..).public_key()`, with the secret read by
/// `SecretKey::from_slice`: None where the bytes are not a valid secret key.
#[verifier::external_body]
pub(crate) fn derive_public_key(secret: &[u8; 32]) -> (r: Option<[u8; 32]>)
    ensures
        match r {
            Some(b) => public_key_of(secret@) == Some(b@),
            None => public_key_of(secret@) is None,
        },
{
    let sk = nostr::key::SecretKey::from_slice(secret).ok()?;
    Some(nostr::key::Keys::new(sk).public_key().to_bytes())
}

/// Relies on serde_json::to_vec on a `&str`: the quoted, escaped JSON string.
#[verifier::external_body]
pub(crate) fn json_string_bytes(s: &str) -> (r: Vec<u8>)
    ensures
        r@ == json_text(s@),
{
    serde_json::to_vec(s).unwrap_or_default()
}

/// Relies on bitcoin::hashes::sha256::Hash::hash: the SHA-256 digest.
#[verifier::external_body]
pub(crate) fn sha256_digest(b: &[u8]) -> (r: [u8; 32])
    ensures
        r@ == sha256_of(b@),
{
    bitcoin::hashes::sha256::Hash::hash(b).to_byte_array()
}

/// Relies on bitcoin::secp256k1's `verify_schnorr`, with the signature and the
/// x-only key read by their `from_slice`: false where either does not parse.
#[verifier::external_body]
pub(crate) fn schnorr_verify(sig: &[u8], msg: &[u8; 32], pubkey: &[u8; 32]) -> (r: bool)
    ensures
        r == schnorr_accepts(sig@, msg@, pubkey@),
{
    match (Signature::from_slice(sig), XOnlyPublicKey::from_slice(pubkey)) {
        (Ok(s), Ok(k)) => Secp256k1::verification_only()
            .verify_schnorr(&s, &Message::from_digest(*msg), &k)
            .is_ok(),
        _ => false,
    }
}

/// Relies on nostr::nips::nip44::decrypt, with the keys read by their `from_slice`:
/// None where a key does not parse or the payload does not decrypt.
#[verifier::external_body]
pub(crate) fn nip44_decrypt(secret: &[u8; 32], peer: &[u8; 32], payload: &str) -> (r: Option<String>)
    ensures
        match r {
            Some(t) => nip44_plaintext(secret@, peer@, payload@) == Some(t@),
            None => nip44_plaintext(secret@, peer@, payload@) is None,
        },
{
    let sk = nostr::key::SecretKey::from_slice(secret).ok()?;
    let pk = nostr::key::PublicKey::from_slice(peer).ok()?;
    nostr::nips::nip44::decrypt(&sk, &pk, payload).ok()
}

/// Relies on serde_json::from_str into nostr::Event: the fields as they stand in
/// the text, nothing checked.
#[verifier::external_body]
pub(crate) fn parse_signed(json: &str) -> (r: Option<Record>)
    ensures
        match r {
            Some(rec) => signed_record_of(json@) == Some(rec@),
            None => signed_record_of(json@) is None,
        },
{
    let e: nostr::event::Event = serde_json::from_str(json).ok()?;
    Some(Record {
        id: EventId { inner: e.id.to_bytes() },
        pubkey: e.pubkey.to_bytes(),
        created_at: e.created_at.as_secs(),
        kind: e.kind.as_u16(),
        tags: e.tags.iter().map(|t| Tag(t.as_slice().to_vec())).collect(),
        content: e.content,
        sig: Some(e.sig.to_bytes().to_vec()),
    })
}

/// Relies on serde_json::from_str into nostr::UnsignedEvent: the fields as they
/// stand in the text; a missing id reads as all zeros.
#[verifier::external_body]
pub(crate) fn parse_unsigned(json: &str) -> (r: Option<Record>)
    ensures
        match r {
            Some(rec) => unsigned_record_of(json@) == Some(rec@) && rec.sig is None,
            None => unsigned_record_of(json@) is None,
        },
{
    let e: nostr::event::UnsignedEvent = serde_json::from_str(json).ok()?;
    Some(Record {
        id: EventId { inner: e.id.map(|i| i.to_bytes()).unwrap_or_default() },
        pubkey: e.pubkey.to_bytes(),
        created_at: e.created_at.as_secs(),
        kind: e.kind.as_u16(),
        tags: e.tags.iter().map(|t| Tag(t.as_slice().to_vec())).collect(),
        content: e.content,
        sig: None,
    })
}

/// Relies on serde_json::from_str into nostr's nip01::Metadata: its name, display
/// name and picture fields.
#[verifier::external_body]
pub(crate) fn parse_metadata(json: &str) -> (r: Option<(Option<String>, Option<String>, Option<String>)>)
    ensures
        match r {
            Some((n, d, p)) => metadata_of(json@) == Some(
                (opt_text(n), opt_text(d), opt_text(p)),
            ),
            None => metadata_of(json@) is None,
        },
{
    let m: nostr::nips::nip01::Metadata = serde_json::from_str(json).ok()?;
    Some((m.name, m.display_name, m.picture))
}

} // verus!
