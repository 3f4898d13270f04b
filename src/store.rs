use crate::id::EventId;
use crate::record::{Record, RecordModel};
use vstd::prelude::*;

verus! {

/// A permanent deletion of `target`. `author` is the author the deletion was
/// scoped to (none: system initiated); `source` the deletion request it came from.
#[derive(Debug, Clone, Copy)]
pub struct DeletionMarker {
    pub target: EventId,
    pub author: Option<[u8; 32]>,
    pub source: Option<EventId>,
}

/// A reversible hide of `target` until `purge_after`.
#[derive(Debug, Clone, Copy)]
pub struct TrashEntry {
    pub target: EventId,
    pub purge_after: u64,
}

/// Links an envelope's id to the id of the record it carried.
#[derive(Debug, Clone, Copy)]
pub struct GiftWrapMapping {
    pub wrap_id: EventId,
    pub inner_id: EventId,
    pub recipient: Option<[u8; 32]>,
    pub received_at: u64,
}

/// The store as mathematical values.
pub struct StoreModel {
    pub records: Seq<RecordModel>,
    pub deleted: Seq<DeletionMarker>,
    pub trash: Seq<TrashEntry>,
    pub wraps: Seq<GiftWrapMapping>,
}

/// The local record store with its deletion, trash and envelope state.
pub struct Store {
    records: Vec<Record>,
    deleted: Vec<DeletionMarker>,
    trash: Vec<TrashEntry>,
    wraps: Vec<GiftWrapMapping>,
}

pub open spec fn records_view(rs: Seq<Record>) -> Seq<RecordModel> {
    rs.map_values(|r: Record| r@)
}

impl View for Store {
    type V = StoreModel;

    closed spec fn view(&self) -> StoreModel {
        StoreModel {
            records: records_view(self.records@),
            deleted: self.deleted@,
            trash: self.trash@,
            wraps: self.wraps@,
        }
    }
}

/// Whether a record with this id is stored.
pub open spec fn stored(s: StoreModel, id: Seq<u8>) -> bool {
    exists|i: int| 0 <= i < s.records.len() && #[trigger] s.records[i].id == id
}

/// Whether a deletion marker exists for this id.
pub open spec fn is_deleted(s: StoreModel, id: Seq<u8>) -> bool {
    exists|i: int| 0 <= i < s.deleted.len() && #[trigger] s.deleted[i].target@ == id
}

/// Whether a trash entry exists for this id.
pub open spec fn is_trashed(s: StoreModel, id: Seq<u8>) -> bool {
    exists|i: int| 0 <= i < s.trash.len() && #[trigger] s.trash[i].target@ == id
}

/// Whether a stored record with this id was written by `author`.
pub open spec fn authored_by(s: StoreModel, id: Seq<u8>, author: Seq<u8>) -> bool {
    exists|i: int| 0 <= i < s.records.len() && #[trigger] s.records[i].id == id && s.records[i].pubkey == author
}

/// Whether the record with this id shows: stored, not deleted, and not trashed
/// unless trashed records are asked for.
pub open spec fn visible(s: StoreModel, id: Seq<u8>, include_trashed: bool) -> bool {
    stored(s, id) && !is_deleted(s, id) && (include_trashed || !is_trashed(s, id))
}

/// No two stored records share an id.
pub open spec fn ids_unique(rs: Seq<RecordModel>) -> bool {
    forall|i: int, j: int| 0 <= i < j < rs.len() ==> rs[i].id != rs[j].id
}

/// The records other than those with this id, in order.
pub open spec fn records_without(rs: Seq<RecordModel>, id: Seq<u8>) -> Seq<RecordModel>
    decreases rs.len(),
{
    if rs.len() == 0 {
        rs
    } else {
        let rest = records_without(rs.drop_last(), id);
        if rs.last().id == id {
            rest
        } else {
            rest.push(rs.last())
        }
    }
}

/// The trash entries other than those for this id, in order.
pub open spec fn trash_without(t: Seq<TrashEntry>, id: Seq<u8>) -> Seq<TrashEntry>
    decreases t.len(),
{
    if t.len() == 0 {
        t
    } else {
        let rest = trash_without(t.drop_last(), id);
        if t.last().target@ == id {
            rest
        } else {
            rest.push(t.last())
        }
    }
}

/// Markers for the envelopes that carried `inner`, in the order of the mappings.
pub open spec fn envelope_markers(w: Seq<GiftWrapMapping>, inner: Seq<u8>, source: Option<EventId>) -> Seq<
    DeletionMarker,
>
    decreases w.len(),
{
    if w.len() == 0 {
        Seq::empty()
    } else {
        let rest = envelope_markers(w.drop_last(), inner, source);
        if w.last().inner_id@ == inner {
            rest.push(DeletionMarker { target: w.last().wrap_id, author: None, source })
        } else {
            rest
        }
    }
}

/// Inserting a record: ignored where its id is deleted or already stored.
pub open spec fn insert_model(s: StoreModel, r: RecordModel) -> StoreModel {
    if is_deleted(s, r.id) || stored(s, r.id) {
        s
    } else {
        StoreModel { records: s.records.push(r), ..s }
    }
}

/// Whether a deletion of `target`, scoped to `author` where one is given, may proceed.
pub open spec fn deletion_authorized(s: StoreModel, target: Seq<u8>, author: Option<[u8; 32]>) -> bool {
    match author {
        Some(a) => authored_by(s, target, a@),
        None => true,
    }
}

/// Deleting one target: where authorized, its bytes are erased, its trash entry
/// dropped, and markers recorded for it (once) and for every envelope that carried it.
pub open spec fn delete_model(s: StoreModel, target: EventId, author: Option<[u8; 32]>, source: Option<EventId>) -> StoreModel {
    if !deletion_authorized(s, target@, author) {
        s
    } else {
        let own = if is_deleted(s, target@) {
            Seq::empty()
        } else {
            seq![DeletionMarker { target, author, source }]
        };
        StoreModel {
            records: records_without(s.records, target@),
            deleted: s.deleted.add(own).add(envelope_markers(s.wraps, target@, source)),
            trash: trash_without(s.trash, target@),
            wraps: s.wraps,
        }
    }
}

/// Deleting each target in turn.
pub open spec fn deletions_model(s: StoreModel, targets: Seq<EventId>, author: Option<[u8; 32]>, source: Option<EventId>) -> StoreModel
    decreases targets.len(),
{
    if targets.len() == 0 {
        s
    } else {
        delete_model(deletions_model(s, targets.drop_last(), author, source), targets.last(), author, source)
    }
}

/// Trashing one target until `purge_after`: only a stored record that is not
/// deleted and not yet trashed gets an entry.
pub open spec fn trash_model(s: StoreModel, target: EventId, purge_after: u64) -> StoreModel {
    if stored(s, target@) && !is_deleted(s, target@) && !is_trashed(s, target@) {
        StoreModel { trash: s.trash.push(TrashEntry { target, purge_after }), ..s }
    } else {
        s
    }
}

/// Trashing each target in turn.
pub open spec fn trashes_model(s: StoreModel, targets: Seq<EventId>, purge_after: u64) -> StoreModel
    decreases targets.len(),
{
    if targets.len() == 0 {
        s
    } else {
        trash_model(trashes_model(s, targets.drop_last(), purge_after), targets.last(), purge_after)
    }
}

/// Restoring: the trash entries for the id are dropped.
pub open spec fn restore_model(s: StoreModel, target: Seq<u8>) -> StoreModel {
    StoreModel { trash: trash_without(s.trash, target), ..s }
}

/// The targets of the trash entries due at `now`, in order.
pub open spec fn expired_targets(t: Seq<TrashEntry>, now: u64) -> Seq<EventId>
    decreases t.len(),
{
    if t.len() == 0 {
        Seq::empty()
    } else {
        let rest = expired_targets(t.drop_last(), now);
        if t.last().purge_after <= now {
            rest.push(t.last().target)
        } else {
            rest
        }
    }
}

/// The purge sweep: every due trash entry becomes an unscoped deletion.
pub open spec fn purge_model(s: StoreModel, now: u64) -> StoreModel {
    deletions_model(s, expired_targets(s.trash, now), None, None)
}

/// The ids of the records of one kind, in order.
pub open spec fn ids_of_kind(rs: Seq<RecordModel>, kind: u16) -> Seq<Seq<u8>>
    decreases rs.len(),
{
    if rs.len() == 0 {
        Seq::empty()
    } else {
        let rest = ids_of_kind(rs.drop_last(), kind);
        if rs.last().kind == kind {
            rest.push(rs.last().id)
        } else {
            rest
        }
    }
}

/// Recording an envelope mapping.
pub open spec fn map_envelope_model(s: StoreModel, m: GiftWrapMapping) -> StoreModel {
    StoreModel { wraps: s.wraps.push(m), ..s }
}

/// The purge time for a retention window that starts now, capped at the largest time.
pub open spec fn deadline(now: u64, retention: u64) -> u64 {
    if now + retention <= u64::MAX {
        (now + retention) as u64
    } else {
        u64::MAX
    }
}

proof fn lemma_without_absent(rs: Seq<RecordModel>, id: Seq<u8>)
    requires
        forall|i: int| 0 <= i < rs.len() ==> rs[i].id != id,
    ensures
        records_without(rs, id) == rs,
    decreases rs.len(),
{
    if rs.len() > 0 {
        lemma_without_absent(rs.drop_last(), id);
        assert(rs.drop_last().push(rs.last()) =~= rs);
    }
}

proof fn lemma_without_at(rs: Seq<RecordModel>, id: Seq<u8>, idx: int)
    requires
        ids_unique(rs),
        0 <= idx < rs.len(),
        rs[idx].id == id,
    ensures
        records_without(rs, id) == rs.remove(idx),
    decreases rs.len(),
{
    let d = rs.drop_last();
    if idx == rs.len() - 1 {
        lemma_without_absent(d, id);
        assert(rs.remove(idx) =~= d);
    } else {
        lemma_without_at(d, id, idx);
        assert(d.remove(idx).push(rs.last()) =~= rs.remove(idx));
    }
}

proof fn lemma_remove_unique(rs: Seq<RecordModel>, idx: int)
    requires
        ids_unique(rs),
        0 <= idx < rs.len(),
    ensures
        ids_unique(rs.remove(idx)),
{
    let r = rs.remove(idx);
    assert forall|i: int, j: int| 0 <= i < j < r.len() implies r[i].id != r[j].id by {
        let a = if i < idx { i } else { i + 1 };
        let b = if j < idx { j } else { j + 1 };
        assert(r[i] == rs[a]);
        assert(r[j] == rs[b]);
    }
}

impl Store {
    /// The store keeps at most one record per id.
    pub open spec fn wf(&self) -> bool {
        ids_unique(self@.records)
    }

    /// An empty store.
    pub fn new() -> (r: Store)
        ensures
            r.wf(),
            r@.records.len() == 0,
            r@.deleted.len() == 0,
            r@.trash.len() == 0,
            r@.wraps.len() == 0,
    {
        Store { records: Vec::new(), deleted: Vec::new(), trash: Vec::new(), wraps: Vec::new() }
    }

    /// The position of the stored record with this id.
    pub fn find(&self, id: &EventId) -> (r: Option<usize>)
        ensures
            match r {
                Some(i) => i < self@.records.len() && self@.records[i as int].id == id@,
                None => !stored(self@, id@),
            },
    {
        let mut i: usize = 0;
        while i < self.records.len()
            invariant
                i <= self.records@.len(),
                forall|j: int| 0 <= j < i ==> self.records@[j]@.id != id@,
            decreases self.records@.len() - i,
        {
            if self.records[i].id.same(id) {
                return Some(i);
            }
            i = i + 1;
        }
        proof {
            assert forall|j: int| 0 <= j < self@.records.len() implies self@.records[j].id != id@ by {
                assert(self@.records[j] == self.records@[j]@);
            }
        }
        None
    }

    /// How many records are stored.
    pub fn len(&self) -> (r: usize)
        ensures
            r == self@.records.len(),
    {
        self.records.len()
    }

    /// The stored record at a position.
    pub fn record_at(&self, i: usize) -> (r: &Record)
        requires
            i < self@.records.len(),
        ensures
            r@ == self@.records[i as int],
    {
        &self.records[i]
    }

    /// The trash entries, in the order they were made.
    pub fn trash_entries(&self) -> (r: &Vec<TrashEntry>)
        ensures
            r@ == self@.trash,
    {
        &self.trash
    }

    /// The ids of the stored records of one kind, in the order they were stored.
    pub fn ids_of_kind(&self, kind: u16) -> (r: Vec<EventId>)
        ensures
            r@.map_values(|i: EventId| i@) == ids_of_kind(self@.records, kind),
    {
        let mut out: Vec<EventId> = Vec::new();
        let mut i: usize = 0;
        while i < self.records.len()
            invariant
                i <= self.records@.len(),
                out@.map_values(|x: EventId| x@) == ids_of_kind(records_view(self.records@.subrange(0, i as int)), kind),
            decreases self.records@.len() - i,
        {
            proof {
                assert(records_view(self.records@.subrange(0, i + 1)).drop_last() =~= records_view(
                    self.records@.subrange(0, i as int),
                ));
                assert(records_view(self.records@.subrange(0, i + 1)).last() == self.records@[i as int]@);
            }
            if self.records[i].kind == kind {
                out.push(self.records[i].id);
                assert(out@.map_values(|x: EventId| x@) =~= out@.drop_last().map_values(|x: EventId| x@).push(
                    self.records@[i as int].id@,
                ));
            }
            i = i + 1;
        }
        assert(self.records@.subrange(0, self.records@.len() as int) =~= self.records@);
        out
    }

    /// Whether a record with this id is stored.
    pub fn has(&self, id: &EventId) -> (r: bool)
        ensures
            r == stored(self@, id@),
    {
        self.find(id).is_some()
    }

    /// The stored record with this id.
    pub fn get(&self, id: &EventId) -> (r: Option<&Record>)
        ensures
            match r {
                Some(rec) => rec@.id == id@ && exists|i: int| 0 <= i < self@.records.len() && self@.records[i] == rec@,
                None => !stored(self@, id@),
            },
    {
        match self.find(id) {
            Some(i) => {
                assert(self@.records[i as int] == self.records@[i as int]@);
                Some(&self.records[i])
            },
            None => None,
        }
    }

    /// Whether a deletion marker exists for this id.
    pub fn is_deleted(&self, id: &EventId) -> (r: bool)
        ensures
            r == is_deleted(self@, id@),
    {
        let mut i: usize = 0;
        while i < self.deleted.len()
            invariant
                i <= self.deleted@.len(),
                forall|j: int| 0 <= j < i ==> self.deleted@[j].target@ != id@,
            decreases self.deleted@.len() - i,
        {
            if self.deleted[i].target.same(id) {
                return true;
            }
            i = i + 1;
        }
        false
    }

    /// Whether a trash entry exists for this id.
    pub fn is_trashed(&self, id: &EventId) -> (r: bool)
        ensures
            r == is_trashed(self@, id@),
    {
        let mut i: usize = 0;
        while i < self.trash.len()
            invariant
                i <= self.trash@.len(),
                forall|j: int| 0 <= j < i ==> self.trash@[j].target@ != id@,
            decreases self.trash@.len() - i,
        {
            if self.trash[i].target.same(id) {
                assert(self@.trash[i as int].target@ == id@);
                return true;
            }
            i = i + 1;
        }
        false
    }

    /// Whether this id is the id of a recorded envelope.
    pub fn is_envelope(&self, id: &EventId) -> (r: bool)
        ensures
            r == exists|i: int| 0 <= i < self@.wraps.len() && #[trigger] self@.wraps[i].wrap_id@ == id@,
    {
        let mut i: usize = 0;
        while i < self.wraps.len()
            invariant
                i <= self.wraps@.len(),
                forall|j: int| 0 <= j < i ==> self.wraps@[j].wrap_id@ != id@,
            decreases self.wraps@.len() - i,
        {
            if self.wraps[i].wrap_id.same(id) {
                return true;
            }
            i = i + 1;
        }
        false
    }

    /// Inserts a record unless its id is deleted or already stored; true where it was added.
    pub fn insert(&mut self, rec: Record) -> (r: bool)
        requires
            old(self).wf(),
        ensures
            final(self).wf(),
            final(self)@ == insert_model(old(self)@, rec@),
            r == !(is_deleted(old(self)@, rec@.id) || stored(old(self)@, rec@.id)),
    {
        if self.is_deleted(&rec.id) || self.has(&rec.id) {
            return false;
        }
        let ghost before = self@;
        self.records.push(rec);
        proof {
            assert(self@.records =~= before.records.push(rec@));
            assert forall|i: int, j: int| 0 <= i < j < self@.records.len() implies self@.records[i].id
                != self@.records[j].id by {
                if j == before.records.len() {
                    assert(self@.records[i] == before.records[i]);
                }
            }
        }
        true
    }

    /// Records that an envelope carried a record.
    pub fn record_mapping(&mut self, m: GiftWrapMapping)
        requires
            old(self).wf(),
        ensures
            final(self).wf(),
            final(self)@ == map_envelope_model(old(self)@, m),
    {
        self.wraps.push(m);
        assert(self@ =~= map_envelope_model(old(self)@, m));
    }

    /// Whether a stored record with this id was written by `author`.
    fn authorized(&self, target: &EventId, author: &Option<[u8; 32]>) -> (r: bool)
        requires
            self.wf(),
        ensures
            r == deletion_authorized(self@, target@, *author),
    {
        match author {
            None => true,
            Some(a) => match self.find(target) {
                Some(i) => {
                    let same = EventId::from_bytes(self.records[i].pubkey).same(&EventId::from_bytes(*a));
                    proof {
                        assert(self@.records[i as int] == self.records@[i as int]@);
                        if !same {
                            assert forall|j: int| 0 <= j < self@.records.len() && #[trigger] self@.records[j].id == target@
                                implies self@.records[j].pubkey != a@ by {
                                if j != i {
                                    assert(self@.records[j].id != self@.records[i as int].id);
                                }
                            }
                        }
                    }
                    same
                },
                None => false,
            },
        }
    }

    /// Drops the trash entries for an id.
    fn drop_trash(&mut self, target: &EventId)
        ensures
            final(self)@ == (StoreModel { trash: trash_without(old(self)@.trash, target@), ..old(self)@ }),
    {
        let mut kept: Vec<TrashEntry> = Vec::new();
        let mut i: usize = 0;
        while i < self.trash.len()
            invariant
                i <= self.trash@.len(),
                self@ == old(self)@,
                kept@ == trash_without(self.trash@.subrange(0, i as int), target@),
            decreases self.trash@.len() - i,
        {
            let e = self.trash[i];
            proof {
                assert(self.trash@.subrange(0, i + 1).drop_last() =~= self.trash@.subrange(0, i as int));
            }
            if !e.target.same(target) {
                kept.push(e);
            }
            i = i + 1;
        }
        assert(self.trash@.subrange(0, self.trash@.len() as int) =~= self.trash@);
        self.trash = kept;
        assert(self@ =~= (StoreModel { trash: trash_without(old(self)@.trash, target@), ..old(self)@ }));
    }

    /// The markers for the envelopes that carried `inner`.
    fn envelope_markers_for(&self, inner: &EventId, source: Option<EventId>) -> (r: Vec<DeletionMarker>)
        ensures
            r@ == envelope_markers(self@.wraps, inner@, source),
    {
        let mut out: Vec<DeletionMarker> = Vec::new();
        let mut i: usize = 0;
        while i < self.wraps.len()
            invariant
                i <= self.wraps@.len(),
                out@ == envelope_markers(self.wraps@.subrange(0, i as int), inner@, source),
            decreases self.wraps@.len() - i,
        {
            let m = self.wraps[i];
            proof {
                assert(self.wraps@.subrange(0, i + 1).drop_last() =~= self.wraps@.subrange(0, i as int));
            }
            if m.inner_id.same(inner) {
                out.push(DeletionMarker { target: m.wrap_id, author: None, source });
            }
            i = i + 1;
        }
        assert(self.wraps@.subrange(0, self.wraps@.len() as int) =~= self.wraps@);
        out
    }

    /// Deletes one target where authorized.
    fn delete_one(&mut self, target: EventId, author: Option<[u8; 32]>, source: Option<EventId>)
        requires
            old(self).wf(),
        ensures
            final(self).wf(),
            final(self)@ == delete_model(old(self)@, target, author, source),
    {
        if !self.authorized(&target, &author) {
            return;
        }
        let ghost s0 = self@;
        let already = self.is_deleted(&target);
        let mut cascade = self.envelope_markers_for(&target, source);
        match self.find(&target) {
            Some(i) => {
                proof {
                    assert(s0.records[i as int] == self.records@[i as int]@);
                    lemma_without_at(s0.records, target@, i as int);
                    lemma_remove_unique(s0.records, i as int);
                }
                let _ = self.records.remove(i);
                assert(self@.records =~= s0.records.remove(i as int));
            },
            None => {
                proof {
                    lemma_without_absent(s0.records, target@);
                }
            },
        }
        let ghost s1 = self@;
        if !already {
            self.deleted.push(DeletionMarker { target, author, source });
        }
        self.deleted.append(&mut cascade);
        self.drop_trash(&target);
        proof {
            let own = if is_deleted(s0, target@) {
                Seq::<DeletionMarker>::empty()
            } else {
                seq![DeletionMarker { target, author, source }]
            };
            assert(self@.deleted =~= s0.deleted.add(own).add(envelope_markers(s0.wraps, target@, source)));
            assert(self@ =~= delete_model(s0, target, author, source));
        }
    }

    /// Deletes each target in turn: an author-scoped deletion affects only
    /// records that author wrote; unauthorized targets are skipped.
    pub fn apply_deletion(&mut self, targets: &Vec<EventId>, author: Option<[u8; 32]>, source: Option<EventId>)
        requires
            old(self).wf(),
        ensures
            final(self).wf(),
            final(self)@ == deletions_model(old(self)@, targets@, author, source),
    {
        let mut i: usize = 0;
        while i < targets.len()
            invariant
                i <= targets@.len(),
                self.wf(),
                self@ == deletions_model(old(self)@, targets@.subrange(0, i as int), author, source),
            decreases targets@.len() - i,
        {
            proof {
                assert(targets@.subrange(0, i + 1).drop_last() =~= targets@.subrange(0, i as int));
            }
            self.delete_one(targets[i], author, source);
            i = i + 1;
        }
        assert(targets@.subrange(0, targets@.len() as int) =~= targets@);
    }

    /// Trashes each target until `now + retention` (capped at the largest time).
    pub fn move_to_trash(&mut self, targets: &Vec<EventId>, retention: u64, now: u64)
        requires
            old(self).wf(),
        ensures
            final(self).wf(),
            final(self)@ == trashes_model(old(self)@, targets@, deadline(now, retention)),
    {
        let purge_after = now.saturating_add(retention);
        let mut i: usize = 0;
        while i < targets.len()
            invariant
                i <= targets@.len(),
                self.wf(),
                purge_after == deadline(now, retention),
                self@ == trashes_model(old(self)@, targets@.subrange(0, i as int), purge_after),
            decreases targets@.len() - i,
        {
            proof {
                assert(targets@.subrange(0, i + 1).drop_last() =~= targets@.subrange(0, i as int));
            }
            let t = targets[i];
            if self.has(&t) && !self.is_deleted(&t) && !self.is_trashed(&t) {
                self.trash.push(TrashEntry { target: t, purge_after });
                assert(self@ =~= trash_model(trashes_model(old(self)@, targets@.subrange(0, i as int), purge_after), t, purge_after));
            }
            i = i + 1;
        }
        assert(targets@.subrange(0, targets@.len() as int) =~= targets@);
    }

    /// Takes a record out of the trash.
    pub fn restore(&mut self, target: &EventId)
        requires
            old(self).wf(),
        ensures
            final(self).wf(),
            final(self)@ == restore_model(old(self)@, target@),
    {
        self.drop_trash(target);
    }

    /// The targets of the trash entries due at `now`.
    pub fn expired(&self, now: u64) -> (r: Vec<EventId>)
        ensures
            r@ == expired_targets(self@.trash, now),
    {
        let mut out: Vec<EventId> = Vec::new();
        let mut i: usize = 0;
        while i < self.trash.len()
            invariant
                i <= self.trash@.len(),
                out@ == expired_targets(self.trash@.subrange(0, i as int), now),
            decreases self.trash@.len() - i,
        {
            let e = self.trash[i];
            proof {
                assert(self.trash@.subrange(0, i + 1).drop_last() =~= self.trash@.subrange(0, i as int));
            }
            if e.purge_after <= now {
                out.push(e.target);
            }
            i = i + 1;
        }
        assert(self.trash@.subrange(0, self.trash@.len() as int) =~= self.trash@);
        out
    }

    /// The purge sweep: every trash entry due at `now` becomes an unscoped deletion.
    pub fn purge_expired(&mut self, now: u64)
        requires
            old(self).wf(),
        ensures
            final(self).wf(),
            final(self)@ == purge_model(old(self)@, now),
    {
        let due = self.expired(now);
        self.apply_deletion(&due, None, None);
    }
}

} // verus!
