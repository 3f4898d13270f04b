use crate::id::{hex_decode, EventId};
use crate::kind::SEAL_KIND;
use crate::outside::{derive_public_key, nsec_bytes_of, nsec_decode, public_key_of, nip44_decrypt, nip44_plaintext, parse_signed, parse_unsigned, signed_record_of, unsigned_record_of};
use crate::record::{content_address, Record, RecordModel};
use crate::tag::{tag_name, tag_value, Tag};
use crate::verify::verify_outcome;
use vstd::prelude::*;

verus! {

/// A locally held identity: a public key and its secret key.
#[derive(Debug, Clone, Copy)]
pub struct Account {
    pub public_key: [u8; 32],
    pub secret_key: [u8; 32],
}

/// The account that a bech32 `nsec` secret key stands for.
pub open spec fn account_of_nsec(s: Seq<char>) -> Option<(Seq<u8>, Seq<u8>)> {
    match nsec_bytes_of(s) {
        Some(sk) => match public_key_of(sk) {
            Some(pk) => Some((pk, sk)),
            None => None,
        },
        None => None,
    }
}

/// Reads an account from a bech32 `nsec` secret key; an empty input and an
/// unreadable key give the message to show.
pub fn validate_nsec(input: &str) -> (r: Result<Account, String>)
    ensures
        input@.len() == 0 ==> r is Err && r->Err_0@ == "Please enter a private key"@,
        input@.len() > 0 ==> match account_of_nsec(input@) {
            Some((pk, sk)) => r is Ok && r->Ok_0.public_key@ == pk && r->Ok_0.secret_key@ == sk,
            None => r is Err && r->Err_0@ == "Invalid nsec format"@,
        },
{
    if input.unicode_len() == 0 {
        return Err("Please enter a private key".to_owned());
    }
    let invalid = "Invalid nsec format";
    match nsec_decode(input) {
        Some(sk) => match derive_public_key(&sk) {
            Some(pk) => Ok(Account { public_key: pk, secret_key: sk }),
            None => Err(invalid.to_owned()),
        },
        None => Err(invalid.to_owned()),
    }
}

/// The accounts loaded in memory; their secret keys live in the platform's key store.
pub struct AccountManager {
    pub loaded_keys: Vec<Account>,
}

/// The accounts without the first one holding `pk`.
pub open spec fn without_first(accounts: Seq<Account>, pk: Seq<u8>) -> Seq<Account>
    decreases accounts.len(),
{
    if accounts.len() == 0 {
        accounts
    } else if accounts[0].public_key@ == pk {
        accounts.drop_first()
    } else {
        seq![accounts[0]].add(without_first(accounts.drop_first(), pk))
    }
}

impl AccountManager {
    pub fn new() -> (r: AccountManager)
        ensures
            r.loaded_keys@.len() == 0,
    {
        AccountManager { loaded_keys: Vec::new() }
    }

    /// Adds an account that was saved to the key store.
    pub fn save_keys(&mut self, account: Account)
        ensures
            final(self).loaded_keys@ == old(self).loaded_keys@.push(account),
    {
        self.loaded_keys.push(account);
    }

    /// Forgets the first loaded account holding `pk`; true where there was one.
    pub fn delete_key(&mut self, pk: &[u8; 32]) -> (r: bool)
        ensures
            final(self).loaded_keys@ == without_first(old(self).loaded_keys@, pk@),
            r == exists|i: int| 0 <= i < old(self).loaded_keys@.len() && #[trigger] old(self).loaded_keys@[i].public_key@ == pk@,
    {
        let target = EventId::from_bytes(*pk);
        let ghost all = self.loaded_keys@;
        let mut i: usize = 0;
        proof {
            assert(all.subrange(0, 0).add(all.subrange(0, all.len() as int)) =~= all);
            assert(all.subrange(0, all.len() as int) =~= all);
            assert(all.subrange(0, 0).add(without_first(all, pk@)) =~= without_first(all, pk@));
        }
        while i < self.loaded_keys.len()
            invariant
                self.loaded_keys@ == all,
                all == old(self).loaded_keys@,
                i <= all.len(),
                target@ == pk@,
                forall|j: int| 0 <= j < i ==> all[j].public_key@ != pk@,
                without_first(all, pk@) == all.subrange(0, i as int).add(without_first(all.subrange(i as int, all.len() as int), pk@)),
            decreases all.len() - i,
        {
            proof {
                let rest = all.subrange(i as int, all.len() as int);
                assert(rest.drop_first() =~= all.subrange(i + 1, all.len() as int));
                assert(rest[0] == all[i as int]);
            }
            let here = EventId::from_bytes(self.loaded_keys[i].public_key);
            if here.same(&target) {
                self.loaded_keys.remove(i);
                proof {
                    let rest = all.subrange(i as int, all.len() as int);
                    assert(all[i as int].public_key@ == pk@);
                    assert(rest[0].public_key@ == pk@);
                    assert(without_first(rest, pk@) == rest.drop_first());
                    assert(self.loaded_keys@ =~= all.subrange(0, i as int).add(rest.drop_first()));
                }
                return true;
            }
            proof {
                let rest = all.subrange(i as int, all.len() as int);
                assert(all.subrange(0, i + 1) =~= all.subrange(0, i as int).push(all[i as int]));
                assert(without_first(rest, pk@) == seq![all[i as int]].add(without_first(all.subrange(i + 1, all.len() as int), pk@)));
                assert(all.subrange(0, i as int).add(seq![all[i as int]].add(without_first(all.subrange(i + 1, all.len() as int), pk@)))
                    =~= all.subrange(0, i + 1).add(without_first(all.subrange(i + 1, all.len() as int), pk@)));
            }
            i = i + 1;
        }
        proof {
            assert(all.subrange(i as int, all.len() as int) =~= Seq::<Account>::empty());
            assert(all.subrange(0, i as int) =~= all);
            assert(all.add(Seq::<Account>::empty()) =~= all);
        }
        false
    }

    /// Opens an envelope with the loaded accounts.
    pub fn unwrap_gift_wrap(&self, envelope: &Record) -> (r: Result<Unwrapped, UnwrapError>)
        ensures
            match r {
                Ok(u) => unwrap_outcome(self.loaded_keys@, envelope@) == Ok::<(RecordModel, Seq<u8>), UnwrapError>((u.rumor@, u.sender@)),
                Err(e) => unwrap_outcome(self.loaded_keys@, envelope@) == Err::<(RecordModel, Seq<u8>), UnwrapError>(e),
            },
    {
        unwrap_envelope(&self.loaded_keys, envelope)
    }
}

/// Why an envelope could not be opened.
#[derive(Debug, PartialEq, Eq, Structural, Clone, Copy)]
pub enum UnwrapError {
    /// No local account is the envelope's tagged recipient.
    NotForUs,
    /// A layer did not decrypt or did not read as a record.
    Undecryptable,
    /// The seal is not a correctly addressed and signed seal record.
    SealInvalid,
    /// The seal's signer is not the rumor's stated author.
    SealSignerMismatch,
}

/// An opened envelope: the inner record and who sealed it.
#[derive(Debug)]
pub struct Unwrapped {
    pub rumor: Record,
    pub sender: [u8; 32],
}

/// The text of the value of the first `p` tag, where the first `p` tag has one.
pub open spec fn recipient_text(tags: Seq<Seq<Seq<char>>>) -> Option<Seq<char>>
    decreases tags.len(),
{
    if tags.len() == 0 {
        None
    } else if tags[0].len() > 0 && tag_name(tags[0]) == seq!['p'] {
        tag_value(tags[0])
    } else {
        recipient_text(tags.drop_first())
    }
}

/// The public key that an envelope is addressed to, read from its first `p` tag.
pub open spec fn recipient_of(tags: Seq<Seq<Seq<char>>>) -> Option<Seq<u8>> {
    match recipient_text(tags) {
        Some(t) => match hex_decode(t) {
            Some(b) => if b.len() == 32 {
                Some(b)
            } else {
                None
            },
            None => None,
        },
        None => None,
    }
}

/// The secret key of the first account whose public key is `pk`.
pub open spec fn secret_for(accounts: Seq<Account>, pk: Seq<u8>) -> Option<Seq<u8>>
    decreases accounts.len(),
{
    if accounts.len() == 0 {
        None
    } else if accounts[0].public_key@ == pk {
        Some(accounts[0].secret_key@)
    } else {
        secret_for(accounts.drop_first(), pk)
    }
}

/// A record with its id replaced by its content address.
pub open spec fn with_computed_id(r: RecordModel) -> RecordModel {
    RecordModel { id: content_address(r), ..r }
}

/// What opening an envelope gives: the inner record with its recomputed id and
/// the seal's signer, or the first step that failed.
pub open spec fn unwrap_outcome(accounts: Seq<Account>, env: RecordModel) -> Result<
    (RecordModel, Seq<u8>),
    UnwrapError,
> {
    match recipient_of(env.tags) {
        None => Err(UnwrapError::NotForUs),
        Some(pk) => match secret_for(accounts, pk) {
            None => Err(UnwrapError::NotForUs),
            Some(sk) => match nip44_plaintext(sk, env.pubkey, env.content) {
                None => Err(UnwrapError::Undecryptable),
                Some(seal_text) => match signed_record_of(seal_text) {
                    None => Err(UnwrapError::Undecryptable),
                    Some(seal) => if seal.kind != SEAL_KIND || verify_outcome(seal) is Err {
                        Err(UnwrapError::SealInvalid)
                    } else {
                        match nip44_plaintext(sk, seal.pubkey, seal.content) {
                            None => Err(UnwrapError::Undecryptable),
                            Some(rumor_text) => match unsigned_record_of(rumor_text) {
                                None => Err(UnwrapError::Undecryptable),
                                Some(rumor) => if seal.pubkey != rumor.pubkey {
                                    Err(UnwrapError::SealSignerMismatch)
                                } else {
                                    Ok((with_computed_id(rumor), seal.pubkey))
                                },
                            },
                        }
                    },
                },
            },
        },
    }
}

/// The recipient named by the first `p` tag.
pub fn find_recipient(tags: &Vec<Tag>) -> (r: Option<[u8; 32]>)
    ensures
        match r {
            Some(pk) => recipient_of(crate::record::tags_view(tags@)) == Some(pk@),
            None => recipient_of(crate::record::tags_view(tags@)) is None,
        },
{
    let ghost all = crate::record::tags_view(tags@);
    let mut i: usize = 0;
    assert(all.subrange(0, all.len() as int) =~= all);
    while i < tags.len()
        invariant
            i <= tags@.len(),
            all == crate::record::tags_view(tags@),
            recipient_text(all) == recipient_text(all.subrange(i as int, all.len() as int)),
        decreases tags@.len() - i,
    {
        proof {
            reveal_strlit("p");
            assert(all.subrange(i as int, all.len() as int).drop_first() =~= all.subrange(i + 1, all.len() as int));
        }
        let is_p = tags[i].has_name("p");
        proof {
            let sub = all.subrange(i as int, all.len() as int);
            reveal_strlit("p");
            assert("p"@ =~= seq!['p']);
            assert(sub[0] == tags@[i as int]@);
            assert(is_p == (sub[0].len() > 0 && tag_name(sub[0]) == seq!['p']));
            if is_p {
                assert(recipient_text(all) == tag_value(tags@[i as int]@));
            } else {
                assert(recipient_text(all) == recipient_text(all.subrange(i + 1, all.len() as int)));
            }
        }
        if is_p {
            match tags[i].content() {
                Some(v) => {
                    return match EventId::from_hex(v) {
                        Some(id) => Some(id.into_bytes()),
                        None => None,
                    };
                },
                None => {
                    return None;
                },
            }
        }
        i = i + 1;
    }
    assert(all.subrange(i as int, all.len() as int) =~= Seq::<Seq<Seq<char>>>::empty());
    None
}

/// The secret key of the first account holding `pk`.
pub fn find_secret(accounts: &Vec<Account>, pk: &[u8; 32]) -> (r: Option<[u8; 32]>)
    ensures
        match r {
            Some(sk) => secret_for(accounts@, pk@) == Some(sk@),
            None => secret_for(accounts@, pk@) is None,
        },
{
    let target = EventId::from_bytes(*pk);
    let mut i: usize = 0;
    assert(accounts@.subrange(0, accounts@.len() as int) =~= accounts@);
    while i < accounts.len()
        invariant
            i <= accounts@.len(),
            target@ == pk@,
            secret_for(accounts@, pk@) == secret_for(accounts@.subrange(i as int, accounts@.len() as int), pk@),
        decreases accounts@.len() - i,
    {
        proof {
            assert(accounts@.subrange(i as int, accounts@.len() as int).drop_first() =~= accounts@.subrange(
                i + 1,
                accounts@.len() as int,
            ));
        }
        let a = accounts[i];
        if EventId::from_bytes(a.public_key).same(&target) {
            return Some(a.secret_key);
        }
        i = i + 1;
    }
    assert(accounts@.subrange(i as int, accounts@.len() as int) =~= Seq::<Account>::empty());
    None
}

/// Opens an envelope with the local accounts: finds the addressed account,
/// decrypts the seal, checks it, decrypts the rumor, recomputes its id and
/// requires the seal's signer to be the rumor's author.
pub fn unwrap_envelope(accounts: &Vec<Account>, envelope: &Record) -> (r: Result<Unwrapped, UnwrapError>)
    ensures
        match r {
            Ok(u) => unwrap_outcome(accounts@, envelope@) == Ok::<(RecordModel, Seq<u8>), UnwrapError>((u.rumor@, u.sender@)),
            Err(e) => unwrap_outcome(accounts@, envelope@) == Err::<(RecordModel, Seq<u8>), UnwrapError>(e),
        },
{
    let pk = match find_recipient(&envelope.tags) {
        Some(pk) => pk,
        None => return Err(UnwrapError::NotForUs),
    };
    let sk = match find_secret(accounts, &pk) {
        Some(sk) => sk,
        None => return Err(UnwrapError::NotForUs),
    };
    let seal_text = match nip44_decrypt(&sk, &envelope.pubkey, envelope.content.as_str()) {
        Some(t) => t,
        None => return Err(UnwrapError::Undecryptable),
    };
    let seal = match parse_signed(seal_text.as_str()) {
        Some(s) => s,
        None => return Err(UnwrapError::Undecryptable),
    };
    if seal.kind != SEAL_KIND || seal.check().is_err() {
        return Err(UnwrapError::SealInvalid);
    }
    let rumor_text = match nip44_decrypt(&sk, &seal.pubkey, seal.content.as_str()) {
        Some(t) => t,
        None => return Err(UnwrapError::Undecryptable),
    };
    let mut rumor = match parse_unsigned(rumor_text.as_str()) {
        Some(r) => r,
        None => return Err(UnwrapError::Undecryptable),
    };
    if !EventId::from_bytes(seal.pubkey).same(&EventId::from_bytes(rumor.pubkey)) {
        return Err(UnwrapError::SealSignerMismatch);
    }
    let ghost before = rumor@;
    rumor.id = rumor.compute_id();
    assert(rumor@ == with_computed_id(before));
    Ok(Unwrapped { rumor, sender: seal.pubkey })
}

} // verus!
