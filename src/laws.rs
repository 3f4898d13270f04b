//! Properties of the store's lifecycle that hold for every state and input.
use crate::id::EventId;
use crate::listing::pending_trash;
use crate::record::RecordModel;
use crate::store::{
    deletion_authorized, deletions_model, delete_model, envelope_markers, expired_targets, ids_unique,
    insert_model, is_deleted, is_trashed, map_envelope_model, purge_model, records_without, restore_model, stored, trash_model,
    trash_without, trashes_model, visible, DeletionMarker, GiftWrapMapping, StoreModel, TrashEntry,
};
use vstd::prelude::*;

verus! {

/// Inserting the same record twice leaves the store as inserting it once.
pub proof fn law_insert_idempotent(s: StoreModel, r: RecordModel)
    ensures
        insert_model(insert_model(s, r), r) == insert_model(s, r),
{
    let once = insert_model(s, r);
    if !(is_deleted(s, r.id) || stored(s, r.id)) {
        assert(once.records[s.records.len() as int].id == r.id);
        assert(stored(once, r.id));
    }
}

/// A record whose id carries a deletion marker is never inserted again.
pub proof fn law_deleted_never_reinserted(s: StoreModel, r: RecordModel)
    requires
        is_deleted(s, r.id),
    ensures
        insert_model(s, r) == s,
{
}

proof fn lemma_marker_kept(a: Seq<DeletionMarker>, b: Seq<DeletionMarker>, x: Seq<u8>)
    requires
        exists|i: int| 0 <= i < a.len() && #[trigger] a[i].target@ == x,
        b.len() >= a.len(),
        forall|i: int| 0 <= i < a.len() ==> b[i] == a[i],
    ensures
        exists|i: int| 0 <= i < b.len() && #[trigger] b[i].target@ == x,
{
    let i = choose|i: int| 0 <= i < a.len() && #[trigger] a[i].target@ == x;
    assert(b[i] == a[i]);
}

/// A deletion marker, once recorded, survives every further deletion, trashing,
/// restore, purge sweep, insert and envelope mapping.
pub proof fn law_marker_permanent(
    s: StoreModel,
    x: Seq<u8>,
    targets: Seq<EventId>,
    author: Option<[u8; 32]>,
    source: Option<EventId>,
    purge_after: u64,
    now: u64,
    r: RecordModel,
    m: GiftWrapMapping,
)
    requires
        is_deleted(s, x),
    ensures
        is_deleted(deletions_model(s, targets, author, source), x),
        is_deleted(trashes_model(s, targets, purge_after), x),
        is_deleted(restore_model(s, x), x),
        is_deleted(purge_model(s, now), x),
        is_deleted(insert_model(s, r), x),
        is_deleted(map_envelope_model(s, m), x),
    decreases targets.len(),
{
    if targets.len() > 0 {
        law_marker_permanent(s, x, targets.drop_last(), author, source, purge_after, now, r, m);
        let p = deletions_model(s, targets.drop_last(), author, source);
        let d = delete_model(p, targets.last(), author, source);
        if deletion_authorized(p, targets.last()@, author) {
            lemma_marker_kept(p.deleted, d.deleted, x);
        }
        assert(deletions_model(s, targets, author, source) == d);
        let t = trashes_model(s, targets.drop_last(), purge_after);
        assert(trashes_model(s, targets, purge_after) == trash_model(t, targets.last(), purge_after));
    } else {
        assert(deletions_model(s, targets, author, source) == s);
        assert(trashes_model(s, targets, purge_after) == s);
    }
    lemma_deletions_keep_marker(s, expired_targets(s.trash, now), x);
}

proof fn lemma_deletions_keep_marker(s: StoreModel, targets: Seq<EventId>, x: Seq<u8>)
    requires
        is_deleted(s, x),
    ensures
        is_deleted(deletions_model(s, targets, None, None), x),
    decreases targets.len(),
{
    if targets.len() > 0 {
        lemma_deletions_keep_marker(s, targets.drop_last(), x);
        let p = deletions_model(s, targets.drop_last(), None, None);
        let d = delete_model(p, targets.last(), None, None);
        lemma_marker_kept(p.deleted, d.deleted, x);
        assert(deletions_model(s, targets, None, None) == d);
    } else {
        assert(deletions_model(s, targets, None, None) == s);
    }
}

proof fn lemma_without_member(rs: Seq<RecordModel>, id: Seq<u8>, j: int)
    requires
        0 <= j < records_without(rs, id).len(),
    ensures
        exists|i: int| 0 <= i < rs.len() && rs[i] == #[trigger] records_without(rs, id)[j],
    decreases rs.len(),
{
    let rest = records_without(rs.drop_last(), id);
    if j < rest.len() {
        lemma_without_member(rs.drop_last(), id, j);
        let i = choose|i: int| 0 <= i < rs.drop_last().len() && rs.drop_last()[i] == rest[j];
        assert(rs[i] == records_without(rs, id)[j]);
    } else {
        assert(rs[rs.len() - 1] == records_without(rs, id)[j]);
    }
}

proof fn lemma_without_unique(rs: Seq<RecordModel>, id: Seq<u8>)
    requires
        ids_unique(rs),
    ensures
        ids_unique(records_without(rs, id)),
    decreases rs.len(),
{
    if rs.len() > 0 {
        let d = rs.drop_last();
        assert(ids_unique(d));
        lemma_without_unique(d, id);
        let rest = records_without(d, id);
        if rs.last().id != id {
            let out = rest.push(rs.last());
            assert forall|a: int, b: int| 0 <= a < b < out.len() implies out[a].id != out[b].id by {
                if b == rest.len() {
                    lemma_without_member(d, id, a);
                    let i = choose|i: int| 0 <= i < d.len() && d[i] == #[trigger] records_without(d, id)[a];
                    assert(rs[i] == d[i]);
                }
            }
        }
    }
}

proof fn lemma_without_keeps(rs: Seq<RecordModel>, id: Seq<u8>, i: int)
    requires
        0 <= i < rs.len(),
        rs[i].id != id,
    ensures
        exists|j: int| 0 <= j < records_without(rs, id).len() && records_without(rs, id)[j] == rs[i],
    decreases rs.len(),
{
    let d = rs.drop_last();
    let rest = records_without(d, id);
    if i == rs.len() - 1 {
        assert(records_without(rs, id)[rest.len() as int] == rs[i]);
    } else {
        lemma_without_keeps(d, id, i);
        let j = choose|j: int| 0 <= j < rest.len() && rest[j] == d[i];
        assert(records_without(rs, id)[j] == rs[i]);
    }
}

/// A deletion request scoped to author `a` never removes a record that another author wrote.
pub proof fn law_deletion_scoped_to_author(
    s: StoreModel,
    targets: Seq<EventId>,
    a: [u8; 32],
    source: Option<EventId>,
    i: int,
)
    requires
        ids_unique(s.records),
        0 <= i < s.records.len(),
        s.records[i].pubkey != a@,
    ensures
        exists|j: int|
            0 <= j < deletions_model(s, targets, Some(a), source).records.len() && deletions_model(
                s,
                targets,
                Some(a),
                source,
            ).records[j] == s.records[i],
        ids_unique(deletions_model(s, targets, Some(a), source).records),
    decreases targets.len(),
{
    if targets.len() > 0 {
        law_deletion_scoped_to_author(s, targets.drop_last(), a, source, i);
        let p = deletions_model(s, targets.drop_last(), Some(a), source);
        let t = targets.last();
        let k = choose|j: int| 0 <= j < p.records.len() && p.records[j] == s.records[i];
        assert(deletions_model(s, targets, Some(a), source) == delete_model(p, t, Some(a), source));
        if deletion_authorized(p, t@, Some(a)) {
            if t@ == s.records[i].id {
                let m = choose|m: int| 0 <= m < p.records.len() && #[trigger] p.records[m].id == t@ && p.records[m].pubkey == a@;
                assert(m != k ==> p.records[m].id != p.records[k].id);
                assert(false);
            }
            lemma_without_keeps(p.records, t@, k);
            lemma_without_unique(p.records, t@);
            let rw = records_without(p.records, t@);
            let j = choose|j: int| 0 <= j < rw.len() && rw[j] == p.records[k];
            assert(deletions_model(s, targets, Some(a), source).records == rw);
            assert(deletions_model(s, targets, Some(a), source).records[j] == s.records[i]);
        } else {
            assert(deletions_model(s, targets, Some(a), source).records[k] == s.records[i]);
        }
    } else {
        assert(deletions_model(s, targets, Some(a), source) == s);
        assert(deletions_model(s, targets, Some(a), source).records[i] == s.records[i]);
    }
}

proof fn lemma_trash_without_keeps(t: Seq<TrashEntry>, id: Seq<u8>, k: int)
    requires
        0 <= k < t.len(),
        t[k].target@ != id,
    ensures
        exists|j: int| 0 <= j < trash_without(t, id).len() && trash_without(t, id)[j] == t[k],
    decreases t.len(),
{
    let d = t.drop_last();
    let rest = trash_without(d, id);
    if k == t.len() - 1 {
        assert(trash_without(t, id)[rest.len() as int] == t[k]);
    } else {
        lemma_trash_without_keeps(d, id, k);
        let j = choose|j: int| 0 <= j < rest.len() && rest[j] == d[k];
        assert(trash_without(t, id)[j] == t[k]);
    }
}

proof fn lemma_trash_without_drops(t: Seq<TrashEntry>, id: Seq<u8>)
    ensures
        forall|j: int| 0 <= j < trash_without(t, id).len() ==> (#[trigger] trash_without(t, id)[j]).target@ != id,
    decreases t.len(),
{
    if t.len() > 0 {
        lemma_trash_without_drops(t.drop_last(), id);
        let rest = trash_without(t.drop_last(), id);
        assert forall|j: int| 0 <= j < trash_without(t, id).len() implies (#[trigger] trash_without(t, id)[j]).target@ != id by {
            if j < rest.len() {
                assert(trash_without(t, id)[j] == rest[j]);
            }
        }
    }
}

proof fn lemma_trash_without_subset(t: Seq<TrashEntry>, id: Seq<u8>, x: Seq<u8>)
    requires
        forall|j: int| 0 <= j < t.len() ==> (#[trigger] t[j]).target@ != x,
    ensures
        forall|j: int| 0 <= j < trash_without(t, id).len() ==> (#[trigger] trash_without(t, id)[j]).target@ != x,
    decreases t.len(),
{
    if t.len() > 0 {
        let d = t.drop_last();
        assert forall|j: int| 0 <= j < d.len() implies (#[trigger] d[j]).target@ != x by {
            assert(d[j] == t[j]);
        }
        lemma_trash_without_subset(d, id, x);
        let rest = trash_without(d, id);
        assert(t.last() == t[t.len() - 1]);
        assert forall|j: int| 0 <= j < trash_without(t, id).len() implies (#[trigger] trash_without(t, id)[j]).target@ != x by {
            if j < rest.len() {
                assert(trash_without(t, id)[j] == rest[j]);
            }
        }
    }
}

proof fn lemma_expired_due(t: Seq<TrashEntry>, now: u64, m: int)
    requires
        0 <= m < expired_targets(t, now).len(),
    ensures
        exists|k: int| 0 <= k < t.len() && t[k].target == expired_targets(t, now)[m] && t[k].purge_after <= now,
    decreases t.len(),
{
    let rest = expired_targets(t.drop_last(), now);
    if m < rest.len() {
        lemma_expired_due(t.drop_last(), now, m);
        let k = choose|k: int| 0 <= k < t.drop_last().len() && t.drop_last()[k].target == rest[m] && t.drop_last()[k].purge_after <= now;
        assert(t[k] == t.drop_last()[k]);
    } else {
        assert(t[t.len() - 1].target == expired_targets(t, now)[m]);
    }
}

proof fn lemma_expired_lists(t: Seq<TrashEntry>, now: u64, k: int)
    requires
        0 <= k < t.len(),
        t[k].purge_after <= now,
    ensures
        exists|m: int| 0 <= m < expired_targets(t, now).len() && expired_targets(t, now)[m] == t[k].target,
    decreases t.len(),
{
    let rest = expired_targets(t.drop_last(), now);
    if k == t.len() - 1 {
        assert(expired_targets(t, now)[rest.len() as int] == t[k].target);
    } else {
        lemma_expired_lists(t.drop_last(), now, k);
        let m = choose|m: int| 0 <= m < rest.len() && rest[m] == t.drop_last()[k].target;
        assert(expired_targets(t, now)[m] == t[k].target);
    }
}

proof fn lemma_deletions_keep_entry(s: StoreModel, targets: Seq<EventId>, e: TrashEntry)
    requires
        exists|k: int| 0 <= k < s.trash.len() && s.trash[k] == e,
        forall|m: int| 0 <= m < targets.len() ==> (#[trigger] targets[m])@ != e.target@,
    ensures
        exists|k: int|
            0 <= k < deletions_model(s, targets, None, None).trash.len() && deletions_model(
                s,
                targets,
                None,
                None,
            ).trash[k] == e,
    decreases targets.len(),
{
    if targets.len() > 0 {
        let d = targets.drop_last();
        assert forall|m: int| 0 <= m < d.len() implies (#[trigger] d[m])@ != e.target@ by {
            assert(d[m] == targets[m]);
        }
        lemma_deletions_keep_entry(s, d, e);
        let p = deletions_model(s, d, None, None);
        let k = choose|k: int| 0 <= k < p.trash.len() && p.trash[k] == e;
        assert(targets[targets.len() - 1] == targets.last());
        assert(deletions_model(s, targets, None, None) == delete_model(p, targets.last(), None, None));
        lemma_trash_without_keeps(p.trash, targets.last()@, k);
        let tw = trash_without(p.trash, targets.last()@);
        let j = choose|j: int| 0 <= j < tw.len() && tw[j] == p.trash[k];
        assert(deletions_model(s, targets, None, None).trash == tw);
        assert(deletions_model(s, targets, None, None).trash[j] == e);
    } else {
        assert(deletions_model(s, targets, None, None) == s);
    }
}

proof fn lemma_deletions_remove(s: StoreModel, targets: Seq<EventId>, x: Seq<u8>)
    requires
        exists|m: int| 0 <= m < targets.len() && (#[trigger] targets[m])@ == x,
    ensures
        is_deleted(deletions_model(s, targets, None, None), x),
        !is_trashed(deletions_model(s, targets, None, None), x),
    decreases targets.len(),
{
    let p = deletions_model(s, targets.drop_last(), None, None);
    let r = deletions_model(s, targets, None, None);
    let t = targets.last();
    if t@ == x {
        if is_deleted(p, x) {
            let i = choose|i: int| 0 <= i < p.deleted.len() && #[trigger] p.deleted[i].target@ == x;
            assert(r.deleted[i] == p.deleted[i]);
        } else {
            assert(r.deleted[p.deleted.len() as int].target == t);
        }
        lemma_trash_without_drops(p.trash, x);
    } else {
        let m = choose|m: int| 0 <= m < targets.len() && (#[trigger] targets[m])@ == x;
        assert(targets.drop_last()[m] == targets[m]);
        lemma_deletions_remove(s, targets.drop_last(), x);
        let i = choose|i: int| 0 <= i < p.deleted.len() && #[trigger] p.deleted[i].target@ == x;
        assert(r.deleted[i] == p.deleted[i]);
        lemma_trash_without_subset(p.trash, t@, x);
    }
}

/// A trash entry for `x` due at `t` (the only entry for `x`) survives every purge
/// sweep before `t`, and a sweep at or after `t` turns it into a deletion.
pub proof fn law_trash_retention(s: StoreModel, k: int, now: u64)
    requires
        0 <= k < s.trash.len(),
        forall|j: int| 0 <= j < s.trash.len() && j != k ==> (#[trigger] s.trash[j]).target@ != s.trash[k].target@,
    ensures
        now < s.trash[k].purge_after ==> exists|j: int|
            0 <= j < purge_model(s, now).trash.len() && purge_model(s, now).trash[j] == s.trash[k],
        now >= s.trash[k].purge_after ==> is_deleted(purge_model(s, now), s.trash[k].target@) && !is_trashed(
            purge_model(s, now),
            s.trash[k].target@,
        ),
{
    let e = s.trash[k];
    let due = expired_targets(s.trash, now);
    if now < e.purge_after {
        assert forall|m: int| 0 <= m < due.len() implies (#[trigger] due[m])@ != e.target@ by {
            lemma_expired_due(s.trash, now, m);
        }
        lemma_deletions_keep_entry(s, due, e);
        assert(purge_model(s, now) == deletions_model(s, due, None, None));
    } else {
        lemma_expired_lists(s.trash, now, k);
        lemma_deletions_remove(s, due, e.target@);
    }
}

proof fn lemma_pending_keeps(t: Seq<TrashEntry>, now: u64, k: int)
    requires
        0 <= k < t.len(),
        now < t[k].purge_after,
    ensures
        exists|j: int| 0 <= j < pending_trash(t, now).len() && pending_trash(t, now)[j] == t[k],
    decreases t.len(),
{
    let rest = pending_trash(t.drop_last(), now);
    if k == t.len() - 1 {
        assert(pending_trash(t, now)[rest.len() as int] == t[k]);
    } else {
        lemma_pending_keeps(t.drop_last(), now, k);
        let j = choose|j: int| 0 <= j < rest.len() && rest[j] == t.drop_last()[k];
        assert(pending_trash(t, now)[j] == t[k]);
    }
}

/// A trash entry due at `t` is in the trash listing at every time before `t`.
pub proof fn law_trash_listed_until_due(s: StoreModel, k: int, now: u64)
    requires
        0 <= k < s.trash.len(),
        now < s.trash[k].purge_after,
    ensures
        exists|j: int| 0 <= j < pending_trash(s.trash, now).len() && pending_trash(s.trash, now)[j] == s.trash[k],
{
    lemma_pending_keeps(s.trash, now, k);
}

/// Trashing a live record and then restoring it gives back its records and
/// markers unchanged, with the record shown again.
pub proof fn law_restore_reverses_trash(s: StoreModel, x: EventId, purge_after: u64)
    requires
        stored(s, x@),
        !is_deleted(s, x@),
    ensures
        restore_model(trashes_model(s, seq![x], purge_after), x@).records == s.records,
        restore_model(trashes_model(s, seq![x], purge_after), x@).deleted == s.deleted,
        visible(restore_model(trashes_model(s, seq![x], purge_after), x@), x@, false),
{
    let t = trashes_model(s, seq![x], purge_after);
    assert(seq![x].drop_last() =~= Seq::<EventId>::empty());
    assert(trashes_model(s, Seq::<EventId>::empty(), purge_after) == s);
    assert(seq![x].last() == x);
    assert(t == trash_model(s, x, purge_after));
    lemma_trash_without_drops(t.trash, x@);
}

proof fn lemma_envelope_marker(w: Seq<GiftWrapMapping>, inner: Seq<u8>, source: Option<EventId>, k: int)
    requires
        0 <= k < w.len(),
        w[k].inner_id@ == inner,
    ensures
        exists|j: int| 0 <= j < envelope_markers(w, inner, source).len()
            && envelope_markers(w, inner, source)[j].target == w[k].wrap_id,
    decreases w.len(),
{
    let rest = envelope_markers(w.drop_last(), inner, source);
    if k == w.len() - 1 {
        assert(envelope_markers(w, inner, source)[rest.len() as int].target == w[k].wrap_id);
    } else {
        lemma_envelope_marker(w.drop_last(), inner, source, k);
        let j = choose|j: int| 0 <= j < rest.len() && rest[j].target == w.drop_last()[k].wrap_id;
        assert(envelope_markers(w, inner, source)[j] == rest[j]);
    }
}

/// Deleting an inner record marks every envelope that carried it as deleted, so
/// none of them shows in any listing.
pub proof fn law_envelope_cascade(s: StoreModel, x: EventId, author: Option<[u8; 32]>, source: Option<EventId>, k: int)
    requires
        deletion_authorized(s, x@, author),
        0 <= k < s.wraps.len(),
        s.wraps[k].inner_id@ == x@,
    ensures
        is_deleted(deletions_model(s, seq![x], author, source), s.wraps[k].wrap_id@),
        !visible(deletions_model(s, seq![x], author, source), s.wraps[k].wrap_id@, true),
{
    assert(seq![x].drop_last() =~= Seq::<EventId>::empty());
    assert(deletions_model(s, Seq::<EventId>::empty(), author, source) == s);
    assert(seq![x].last() == x);
    let r = delete_model(s, x, author, source);
    assert(deletions_model(s, seq![x], author, source) == r);
    lemma_envelope_marker(s.wraps, x@, source, k);
    let own = if is_deleted(s, x@) {
        Seq::<DeletionMarker>::empty()
    } else {
        seq![DeletionMarker { target: x, author, source }]
    };
    let j = choose|j: int| 0 <= j < envelope_markers(s.wraps, x@, source).len()
        && envelope_markers(s.wraps, x@, source)[j].target == s.wraps[k].wrap_id;
    assert(r.deleted[s.deleted.len() + own.len() + j].target == s.wraps[k].wrap_id);
}

} // verus!
