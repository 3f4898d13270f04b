use crate::id::EventId;
use crate::record::{Record, RecordModel};
use crate::store::{Store, StoreModel, TrashEntry};
use crate::tag::{copy_string, is_subject, Tag};
use crate::thread::{closure, in_thread, occurs, record_before, refers, refers_to, shown};
use vstd::prelude::*;

verus! {

/// One line of the top-level listing: a conversation's root, its subject, the
/// size of its thread, and the author, start of text and time of its latest record.
#[derive(Debug)]
pub struct RootSummary {
    pub id: EventId,
    pub subject: String,
    pub sender: [u8; 32],
    pub snippet: String,
    pub latest_at: u64,
    pub thread_size: usize,
}

/// Whether a record carries a `subject` tag.
pub open spec fn has_subject(r: RecordModel) -> bool {
    exists|k: int| 0 <= k < r.tags.len() && is_subject(#[trigger] r.tags[k])
}

/// The value of the first `subject` tag.
pub open spec fn subject_of(tags: Seq<Seq<Seq<char>>>) -> Seq<char>
    decreases tags.len(),
{
    if tags.len() == 0 {
        Seq::empty()
    } else if is_subject(tags[0]) {
        tags[0][1]
    } else {
        subject_of(tags.drop_first())
    }
}

/// Whether the record at `i` starts a conversation: it shows (not deleted, not
/// trashed), has a subject, and refers to no record that shows.
pub open spec fn is_root(s: StoreModel, i: int) -> bool {
    shown(s, i, false) && has_subject(s.records[i]) && !exists|j: int| #[trigger] shown(s, j, false) && refers(s.records[i], s.records[j].id)
}

/// Whether the record at `j` is the latest of the conversation of the record at `i`.
pub open spec fn latest_of(s: StoreModel, i: int, j: int) -> bool {
    in_thread(s, i, false, j) && forall|m: int| #[trigger] in_thread(s, i, false, m) ==> !record_before(s.records[j], s.records[m])
}

/// How many records the conversation of the record at `i` holds.
pub open spec fn thread_size(s: StoreModel, i: int) -> nat {
    Set::new(|j: int| in_thread(s, i, false, j)).len()
}

/// Whether `sum` describes the conversation rooted at `i`.
pub open spec fn describes(s: StoreModel, i: int, sum: RootSummary) -> bool {
    &&& sum.id@ == s.records[i].id
    &&& sum.subject@ == subject_of(s.records[i].tags)
    &&& sum.thread_size == thread_size(s, i)
    &&& exists|j: int|
        #[trigger] latest_of(s, i, j) && sum.sender@ == s.records[j].pubkey && sum.snippet@ == s.records[j].content
            && sum.latest_at == s.records[j].created_at
}

/// Whether `sum` describes some conversation root.
pub open spec fn describes_root(s: StoreModel, sum: RootSummary) -> bool {
    exists|i: int| 0 <= i < s.records.len() && is_root(s, i) && #[trigger] describes(s, i, sum)
}

/// The trash entries not yet due at `now`, in order.
pub open spec fn pending_trash(t: Seq<TrashEntry>, now: u64) -> Seq<TrashEntry>
    decreases t.len(),
{
    if t.len() == 0 {
        t
    } else {
        let rest = pending_trash(t.drop_last(), now);
        if now < t.last().purge_after {
            rest.push(t.last())
        } else {
            rest
        }
    }
}

/// The value of the first `subject` tag of a tag list.
pub fn subject_text(tags: &Vec<Tag>) -> (r: String)
    ensures
        r@ == subject_of(crate::record::tags_view(tags@)),
{
    let ghost all = crate::record::tags_view(tags@);
    let mut i: usize = 0;
    assert(all.subrange(0, all.len() as int) =~= all);
    while i < tags.len()
        invariant
            i <= tags@.len(),
            all == crate::record::tags_view(tags@),
            subject_of(all) == subject_of(all.subrange(i as int, all.len() as int)),
        decreases tags@.len() - i,
    {
        proof {
            assert(all.subrange(i as int, all.len() as int).drop_first() =~= all.subrange(i + 1, all.len() as int));
            assert(all.subrange(i as int, all.len() as int)[0] == tags@[i as int]@);
        }
        if tags[i].is_subject() {
            return copy_string(&tags[i].0[1]);
        }
        i = i + 1;
    }
    assert(all.subrange(i as int, all.len() as int) =~= Seq::<Seq<Seq<char>>>::empty());
    String::new()
}

fn has_subject_tag(r: &Record) -> (b: bool)
    ensures
        b == has_subject(r@),
{
    let mut k: usize = 0;
    while k < r.tags.len()
        invariant
            k <= r.tags@.len(),
            forall|q: int| 0 <= q < k ==> !is_subject(#[trigger] r@.tags[q]),
        decreases r.tags@.len() - k,
    {
        if r.tags[k].is_subject() {
            assert(is_subject(r@.tags[k as int]));
            return true;
        }
        k = k + 1;
    }
    false
}

fn root_at(store: &Store, i: usize) -> (b: bool)
    requires
        i < store@.records.len(),
    ensures
        b == is_root(store@, i as int),
{
    let id = store.record_at(i).id;
    if store.is_deleted(&id) || store.is_trashed(&id) {
        return false;
    }
    if !has_subject_tag(store.record_at(i)) {
        return false;
    }
    let mut j: usize = 0;
    while j < store.len()
        invariant
            i < store@.records.len(),
            j <= store@.records.len(),
            forall|q: int| 0 <= q < j ==> !(#[trigger] shown(store@, q, false) && refers(store@.records[i as int], store@.records[q].id)),
        decreases store@.records.len() - j,
    {
        let jid = store.record_at(j).id;
        if !store.is_deleted(&jid) && !store.is_trashed(&jid) && refers_to(store.record_at(i), &jid) {
            assert(shown(store@, j as int, false));
            return false;
        }
        j = j + 1;
    }
    true
}

proof fn lemma_size(s: StoreModel, i: int, members: Seq<usize>)
    requires
        forall|p: int| 0 <= p < members.len() ==> in_thread(s, i, false, #[trigger] members[p] as int),
        forall|j: int| in_thread(s, i, false, j) ==> exists|p: int| 0 <= p < members.len() && members[p] == j,
        forall|p: int, q: int| 0 <= p < q < members.len() ==> members[p] != members[q],
    ensures
        thread_size(s, i) == members.len(),
{
    let ints = members.map_values(|x: usize| x as int);
    assert forall|p: int, q: int| 0 <= p < q < ints.len() implies ints[p] != ints[q] by {
        assert(members[p] != members[q]);
    }
    assert(ints.no_duplicates());
    ints.unique_seq_to_set();
    assert forall|j: int| ints.to_set().contains(j) <==> Set::new(|j: int| in_thread(s, i, false, j)).contains(j) by {
        if in_thread(s, i, false, j) {
            let p = choose|p: int| 0 <= p < members.len() && members[p] == j;
            assert(ints[p] == j);
        }
        if ints.to_set().contains(j) {
            let p = choose|p: int| 0 <= p < ints.len() && ints[p] == j;
            assert(in_thread(s, i, false, members[p] as int));
        }
    }
    assert(ints.to_set() =~= Set::new(|j: int| in_thread(s, i, false, j)));
}

/// The summary of the conversation rooted at `i`.
fn summarize(store: &Store, i: usize) -> (r: RootSummary)
    requires
        store.wf(),
        i < store@.records.len(),
        shown(store@, i as int, false),
    ensures
        describes(store@, i as int, r),
{
    let ghost s = store@;
    let members = closure(store, i, false);
    proof {
        crate::thread::lemma_start_in_thread(s, i as int, false);
        assert forall|p: int| 0 <= p < members@.len() implies members@[p] < s.records.len() by {
            crate::thread::lemma_in_thread_shown(s, i as int, false, members@[p] as int);
        }
        let p0 = choose|p: int| 0 <= p < members@.len() && members@[p] == i;
    }
    let mut best_pos: usize = members[0];
    proof {
        crate::thread::lemma_before_irrefl(s.records[best_pos as int]);
        assert(members@[0] == best_pos);
    }
    let mut k: usize = 1;
    while k < members.len()
        invariant
            s == store@,
            1 <= k <= members@.len(),
            occurs(members@, best_pos),
            best_pos < s.records.len(),
            forall|p: int| 0 <= p < members@.len() ==> members@[p] < s.records.len(),
            forall|p: int| 0 <= p < k ==> !record_before(s.records[best_pos as int], s.records[#[trigger] members@[p] as int]),
        decreases members@.len() - k,
    {
        let cand = members[k];
        let c = store.record_at(cand);
        let b = store.record_at(best_pos);
        let later = b.created_at < c.created_at || (b.created_at == c.created_at && crate::thread::id_lt(&b.id, &c.id));
        if later {
            proof {
                assert forall|p: int| 0 <= p < k + 1 implies !record_before(s.records[cand as int], s.records[#[trigger] members@[p] as int]) by {
                    if p < k {
                        if record_before(s.records[cand as int], s.records[members@[p] as int]) {
                            crate::thread::lemma_before_trans(s.records[best_pos as int], s.records[cand as int], s.records[members@[p] as int]);
                        }
                    } else {
                        crate::thread::lemma_before_irrefl(s.records[cand as int]);
                    }
                }
                assert(members@[k as int] == cand);
            }
            best_pos = cand;
        }
        k = k + 1;
    }
    let latest = store.record_at(best_pos);
    proof {
        lemma_size(s, i as int, members@);
        let bp = choose|p: int| 0 <= p < members@.len() && members@[p] == best_pos;
        assert(in_thread(s, i as int, false, members@[bp] as int));
        assert forall|m: int| #[trigger] in_thread(s, i as int, false, m) implies !record_before(s.records[best_pos as int], s.records[m]) by {
            let p = choose|p: int| 0 <= p < members@.len() && members@[p] == m;
            assert(!record_before(s.records[best_pos as int], s.records[members@[p] as int]));
        }
        assert(latest_of(s, i as int, best_pos as int));
    }
    RootSummary {
        id: store.record_at(i).id,
        subject: subject_text(&store.record_at(i).tags),
        sender: latest.pubkey,
        snippet: copy_string(&latest.content),
        latest_at: latest.created_at,
        thread_size: members.len(),
    }
}

/// Whether `sum` describes a conversation rooted before position `i`.
pub open spec fn describes_root_before(s: StoreModel, sum: RootSummary, i: int) -> bool {
    exists|j: int| 0 <= j < i && j < s.records.len() && is_root(s, j) && #[trigger] describes(s, j, sum)
}

/// Whether some summary names this root id.
pub open spec fn lists_root(sums: Seq<RootSummary>, id: Seq<u8>) -> bool {
    exists|k: int| 0 <= k < sums.len() && sums[k].id@ == id
}

/// Inserts a summary before the first one with an older latest record.
fn insert_by_latest(out: &mut Vec<RootSummary>, sum: RootSummary)
    requires
        forall|a: int, b: int| 0 <= a < b < old(out)@.len() ==> old(out)@[a].latest_at >= old(out)@[b].latest_at,
    ensures
        exists|pos: int| 0 <= pos <= old(out)@.len() && final(out)@ == old(out)@.insert(pos, sum),
        forall|a: int, b: int| 0 <= a < b < final(out)@.len() ==> final(out)@[a].latest_at >= final(out)@[b].latest_at,
{
    let ghost old_out = out@;
    let mut pos: usize = 0;
    while pos < out.len() && out[pos].latest_at >= sum.latest_at
        invariant
            out@ == old_out,
            pos <= out@.len(),
            forall|k: int| 0 <= k < pos ==> out@[k].latest_at >= sum.latest_at,
        decreases out@.len() - pos,
    {
        pos = pos + 1;
    }
    let ghost t = sum.latest_at;
    out.insert(pos, sum);
    proof {
        assert forall|a: int, b: int| 0 <= a < b < out@.len() implies out@[a].latest_at >= out@[b].latest_at by {
            if b < pos {
                assert(out@[a] == old_out[a] && out@[b] == old_out[b]);
            } else if b == pos {
                assert(out@[a] == old_out[a]);
            } else if a == pos {
                assert(out@[b] == old_out[b - 1]);
                assert(old_out[pos as int].latest_at < t);
            } else if a < pos {
                assert(out@[a] == old_out[a] && out@[b] == old_out[b - 1]);
            } else {
                assert(out@[a] == old_out[a - 1] && out@[b] == old_out[b - 1]);
            }
        }
    }
}

impl Store {
    /// The top-level listing: one summary per conversation root, newest latest
    /// record first.
    pub fn top_level_listing(&self) -> (r: Vec<RootSummary>)
        requires
            self.wf(),
        ensures
            forall|k: int| 0 <= k < r@.len() ==> describes_root(self@, #[trigger] r@[k]),
            forall|i: int| 0 <= i < self@.records.len() && #[trigger] is_root(self@, i) ==> lists_root(r@, self@.records[i].id),
            forall|a: int, b: int| 0 <= a < b < r@.len() ==> r@[a].latest_at >= r@[b].latest_at,
            forall|a: int, b: int| 0 <= a < b < r@.len() ==> r@[a].id@ != r@[b].id@,
    {
        let ghost s = self@;
        let mut out: Vec<RootSummary> = Vec::new();
        let mut i: usize = 0;
        while i < self.len()
            invariant
                s == self@,
                self.wf(),
                i <= s.records.len(),
                forall|k: int| 0 <= k < out@.len() ==> describes_root_before(s, #[trigger] out@[k], i as int),
                forall|j: int| 0 <= j < i && #[trigger] is_root(s, j) ==> lists_root(out@, s.records[j].id),
                forall|a: int, b: int| 0 <= a < b < out@.len() ==> out@[a].id@ != out@[b].id@,
                forall|a: int, b: int| 0 <= a < b < out@.len() ==> out@[a].latest_at >= out@[b].latest_at,
            decreases s.records.len() - i,
        {
            if root_at(self, i) {
                let sum = summarize(self, i);
                let ghost old_out = out@;
                let ghost new_sum = sum;
                insert_by_latest(&mut out, sum);
                proof {
                    let pos = choose|pos: int| 0 <= pos <= old_out.len() && out@ == old_out.insert(pos, new_sum);
                    assert(describes(s, i as int, new_sum));
                    assert(describes_root_before(s, new_sum, i + 1));
                    assert forall|k: int| 0 <= k < old_out.len() implies old_out[k].id@ != new_sum.id@ by {
                        let j = choose|j: int| 0 <= j < i && j < s.records.len() && is_root(s, j) && #[trigger] describes(s, j, old_out[k]);
                        assert(s.records[j].id != s.records[i as int].id);
                    }
                    assert forall|k: int| 0 <= k < out@.len() implies describes_root_before(s, #[trigger] out@[k], i + 1) by {
                        if k < pos {
                            assert(out@[k] == old_out[k]);
                            let j = choose|j: int| 0 <= j < i && j < s.records.len() && is_root(s, j) && #[trigger] describes(s, j, old_out[k]);
                        } else if k > pos {
                            assert(out@[k] == old_out[k - 1]);
                            let j = choose|j: int| 0 <= j < i && j < s.records.len() && is_root(s, j) && #[trigger] describes(s, j, old_out[k - 1]);
                        }
                    }
                    assert forall|a: int, b: int| 0 <= a < b < out@.len() implies out@[a].id@ != out@[b].id@ by {
                        if b < pos {
                            assert(out@[a] == old_out[a] && out@[b] == old_out[b]);
                        } else if b == pos {
                            assert(out@[a] == old_out[a]);
                        } else if a == pos {
                            assert(out@[b] == old_out[b - 1]);
                        } else if a < pos {
                            assert(out@[a] == old_out[a] && out@[b] == old_out[b - 1]);
                        } else {
                            assert(out@[a] == old_out[a - 1] && out@[b] == old_out[b - 1]);
                        }
                    }
                    assert forall|j: int| 0 <= j < i + 1 && #[trigger] is_root(s, j) implies lists_root(out@, s.records[j].id) by {
                        if j == i {
                            assert(out@[pos].id@ == s.records[j].id);
                        } else {
                            let q = choose|q: int| 0 <= q < old_out.len() && old_out[q].id@ == s.records[j].id;
                            if q < pos {
                                assert(out@[q] == old_out[q]);
                            } else {
                                assert(out@[q + 1] == old_out[q]);
                            }
                        }
                    }
                }
            }
            i = i + 1;
        }
        proof {
            assert forall|k: int| 0 <= k < out@.len() implies describes_root(s, #[trigger] out@[k]) by {
                let j = choose|j: int| 0 <= j < i && j < s.records.len() && is_root(s, j) && #[trigger] describes(s, j, out@[k]);
            }
        }
        out
    }

    /// The trash entries whose records are still held back at `now`.
    pub fn trash_listing(&self, now: u64) -> (r: Vec<TrashEntry>)
        ensures
            r@ == pending_trash(self@.trash, now),
    {
        let all = self.trash_entries();
        let mut out: Vec<TrashEntry> = Vec::new();
        let mut i: usize = 0;
        while i < all.len()
            invariant
                i <= all@.len(),
                all@ == self@.trash,
                out@ == pending_trash(all@.subrange(0, i as int), now),
            decreases all@.len() - i,
        {
            let e = all[i];
            proof {
                assert(all@.subrange(0, i + 1).drop_last() =~= all@.subrange(0, i as int));
            }
            if now < e.purge_after {
                out.push(e);
            }
            i = i + 1;
        }
        assert(all@.subrange(0, all@.len() as int) =~= all@);
        out
    }
}

} // verus!
