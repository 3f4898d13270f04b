use crate::id::EventId;
use crate::kind::{kind_of, EventKind};
use crate::profile::{profile_from, upsert_model, ProfileStore};
use crate::record::{tags_view, Record};
use crate::store::{deletions_model, insert_model, map_envelope_model, GiftWrapMapping, Store, StoreModel};
use crate::tag::{tag_ref, Tag};
use crate::unwrap::{recipient_of, unwrap_envelope, unwrap_outcome, Account, UnwrapError};
use crate::verify::{verify_outcome, VerifyError};
use vstd::prelude::*;

verus! {

/// What ingesting one inbound record did.
#[derive(Debug)]
pub enum Ingested {
    /// The record failed the identity or signature check and was dropped.
    Rejected(VerifyError),
    /// A plain record; `true` where it was new and written.
    Plain(bool),
    /// A profile metadata record; `true` where the stored profile was replaced.
    Profile(bool),
    /// A deletion request, with the targets that were handed to the lifecycle.
    Deletion(Vec<EventId>),
    /// An envelope that opened: the inner record's id, the seal's signer, the
    /// recipient, and whether the inner record was new and written.
    Unwrapped { inner: EventId, sender: [u8; 32], recipient: [u8; 32], stored: bool },
    /// An envelope that did not open; nothing was stored.
    Dropped(UnwrapError),
}

/// Whether this id is the id of a recorded envelope.
pub open spec fn is_envelope_id(s: StoreModel, id: Seq<u8>) -> bool {
    exists|i: int| 0 <= i < s.wraps.len() && #[trigger] s.wraps[i].wrap_id@ == id
}

/// The ids a deletion request names in its `e` tags, in order, leaving out envelope ids.
pub open spec fn deletion_targets(s: StoreModel, tags: Seq<Seq<Seq<char>>>) -> Seq<Seq<u8>>
    decreases tags.len(),
{
    if tags.len() == 0 {
        Seq::empty()
    } else {
        let rest = deletion_targets(s, tags.drop_last());
        match tag_ref(tags.last()) {
            Some(id) => if is_envelope_id(s, id) {
                rest
            } else {
                rest.push(id)
            },
            None => rest,
        }
    }
}

pub open spec fn ids_view(ids: Seq<EventId>) -> Seq<Seq<u8>> {
    ids.map_values(|i: EventId| i@)
}

/// The deletion targets of a request's tags.
pub fn collect_targets(store: &Store, tags: &Vec<Tag>) -> (r: Vec<EventId>)
    ensures
        ids_view(r@) == deletion_targets(store@, tags_view(tags@)),
{
    let ghost all = tags_view(tags@);
    let mut out: Vec<EventId> = Vec::new();
    let mut i: usize = 0;
    while i < tags.len()
        invariant
            i <= tags@.len(),
            all == tags_view(tags@),
            ids_view(out@) == deletion_targets(store@, all.subrange(0, i as int)),
        decreases tags@.len() - i,
    {
        proof {
            assert(all.subrange(0, i + 1).drop_last() =~= all.subrange(0, i as int));
            assert(all.subrange(0, i + 1).last() == tags@[i as int]@);
        }
        match tags[i].reference() {
            Some(id) => {
                if !store.is_envelope(&id) {
                    out.push(id);
                    assert(ids_view(out@) =~= ids_view(out@.drop_last()).push(id@));
                }
            },
            None => {},
        }
        i = i + 1;
    }
    assert(all.subrange(0, all.len() as int) =~= all);
    out
}

/// Ingests one inbound record: verifies it, then routes it by kind. Metadata
/// updates the author's profile where strictly newer; a deletion request
/// deletes its non-envelope targets, scoped to its author; an envelope is
/// opened with the local accounts and its inner record inserted, with a
/// mapping from the envelope; any other record is inserted idempotently.
pub fn ingest(
    store: &mut Store,
    profiles: &mut ProfileStore,
    accounts: &Vec<Account>,
    record: &Record,
    now: u64,
) -> (r: Ingested)
    requires
        old(store).wf(),
        old(profiles).wf(),
    ensures
        final(store).wf(),
        final(profiles).wf(),
        match verify_outcome(record@) {
            Err(e) => r == Ingested::Rejected(e) && final(store)@ == old(store)@ && final(profiles).view()
                == old(profiles).view(),
            Ok(_) => match kind_of(record@.kind) {
                EventKind::ProfileMetadata => r is Profile && final(store)@ == old(store)@ && match profile_from(
                    record@.pubkey,
                    record@.created_at,
                    record@.content,
                ) {
                    Some(m) => final(profiles).view() == upsert_model(old(profiles).view(), m),
                    None => final(profiles).view() == old(profiles).view(),
                },
                EventKind::Deletion => match r {
                    Ingested::Deletion(ts) => ids_view(ts@) == deletion_targets(old(store)@, record@.tags)
                        && final(store)@ == deletions_model(
                        old(store)@,
                        ts@,
                        Some(record.pubkey),
                        Some(record.id),
                    ) && final(profiles).view() == old(profiles).view(),
                    _ => false,
                },
                EventKind::GiftWrap => final(profiles).view() == old(profiles).view() && match unwrap_outcome(
                    accounts@,
                    record@,
                ) {
                    Err(e) => r == Ingested::Dropped(e) && final(store)@ == old(store)@,
                    Ok((rumor, sender)) => match r {
                        Ingested::Unwrapped { inner, sender: s, recipient, stored } => inner@ == rumor.id && s@
                            == sender && Some(recipient@) == recipient_of(record@.tags) && final(store)@
                            == map_envelope_model(
                            insert_model(old(store)@, rumor),
                            GiftWrapMapping {
                                wrap_id: record.id,
                                inner_id: inner,
                                recipient: Some(recipient),
                                received_at: now,
                            },
                        ),
                        _ => false,
                    },
                },
                _ => r is Plain && final(store)@ == insert_model(old(store)@, record@) && final(profiles).view()
                    == old(profiles).view(),
            },
        },
{
    match record.check() {
        Err(e) => {
            return Ingested::Rejected(e);
        },
        Ok(()) => {},
    }
    match EventKind::from_u16(record.kind) {
        EventKind::ProfileMetadata => {
            let updated = profiles.update_from_record(record.pubkey, record.created_at, record.content.as_str());
            Ingested::Profile(updated)
        },
        EventKind::Deletion => {
            let targets = collect_targets(store, &record.tags);
            store.apply_deletion(&targets, Some(record.pubkey), Some(record.id));
            Ingested::Deletion(targets)
        },
        EventKind::GiftWrap => {
            match unwrap_envelope(accounts, record) {
                Err(e) => Ingested::Dropped(e),
                Ok(u) => {
                    let recipient = match crate::unwrap::find_recipient(&record.tags) {
                        Some(pk) => pk,
                        None => {
                            return Ingested::Dropped(UnwrapError::NotForUs);
                        },
                    };
                    let inner = u.rumor.id;
                    let sender = u.sender;
                    let stored = store.insert(u.rumor);
                    store.record_mapping(
                        GiftWrapMapping { wrap_id: record.id, inner_id: inner, recipient: Some(recipient), received_at: now },
                    );
                    Ingested::Unwrapped { inner, sender, recipient, stored }
                },
            }
        },
        _ => {
            let copy = record.duplicate();
            let stored = store.insert(copy);
            Ingested::Plain(stored)
        },
    }
}

} // verus!
