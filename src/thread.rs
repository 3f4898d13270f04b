use crate::id::EventId;
use crate::record::{Record, RecordModel};
use crate::store::{is_deleted, is_trashed, Store, StoreModel};
use crate::tag::tag_ref;
use vstd::prelude::*;

verus! {

/// Whether a record's `e` tags refer to this id.
pub open spec fn refers(r: RecordModel, id: Seq<u8>) -> bool {
    exists|k: int| 0 <= k < r.tags.len() && tag_ref(#[trigger] r.tags[k]) == Some(id)
}

/// Whether the record at position `i` shows: not deleted, and not trashed
/// unless trashed records are asked for.
pub open spec fn shown(s: StoreModel, i: int, include_trashed: bool) -> bool {
    0 <= i < s.records.len() && !is_deleted(s, s.records[i].id) && (include_trashed || !is_trashed(
        s,
        s.records[i].id,
    ))
}

/// Whether one of two records replies to the other.
pub open spec fn linked(s: StoreModel, i: int, j: int) -> bool {
    refers(s.records[i], s.records[j].id) || refers(s.records[j], s.records[i].id)
}

/// The shown records reachable from `start` in at most `n` reply links, each
/// through shown records only.
pub open spec fn reach(s: StoreModel, start: int, include_trashed: bool, n: nat) -> Set<int>
    decreases n,
{
    if n == 0 {
        if shown(s, start, include_trashed) {
            set![start]
        } else {
            Set::empty()
        }
    } else {
        let prev = reach(s, start, include_trashed, (n - 1) as nat);
        prev.union(
            Set::new(
                |j: int| shown(s, j, include_trashed) && exists|m: int| prev.contains(m) && #[trigger] linked(s, m, j),
            ),
        )
    }
}

/// Whether the record at position `j` belongs to the conversation of the record at `start`.
pub open spec fn in_thread(s: StoreModel, start: int, include_trashed: bool, j: int) -> bool {
    exists|n: nat| #[trigger] reach(s, start, include_trashed, n).contains(j)
}

proof fn lemma_reach_shown(s: StoreModel, start: int, inc: bool, n: nat, j: int)
    requires
        reach(s, start, inc, n).contains(j),
    ensures
        shown(s, j, inc),
    decreases n,
{
    if n > 0 {
        if reach(s, start, inc, (n - 1) as nat).contains(j) {
            lemma_reach_shown(s, start, inc, (n - 1) as nat, j);
        }
    }
}

proof fn lemma_reach_mono(s: StoreModel, start: int, inc: bool, a: nat, b: nat, j: int)
    requires
        a <= b,
        reach(s, start, inc, a).contains(j),
    ensures
        reach(s, start, inc, b).contains(j),
    decreases b - a,
{
    if a < b {
        lemma_reach_mono(s, start, inc, a, (b - 1) as nat, j);
    }
}

/// Whether the record refers to this id.
pub fn refers_to(r: &Record, id: &EventId) -> (b: bool)
    ensures
        b == refers(r@, id@),
{
    let mut k: usize = 0;
    while k < r.tags.len()
        invariant
            k <= r.tags@.len(),
            forall|q: int| 0 <= q < k ==> tag_ref(#[trigger] r@.tags[q]) != Some(id@),
        decreases r.tags@.len() - k,
    {
        match r.tags[k].reference() {
            Some(x) => {
                if x.same(id) {
                    assert(tag_ref(r@.tags[k as int]) == Some(id@));
                    return true;
                }
            },
            None => {},
        }
        k = k + 1;
    }
    false
}

fn linked_at(store: &Store, i: usize, j: usize) -> (b: bool)
    requires
        i < store@.records.len(),
        j < store@.records.len(),
    ensures
        b == linked(store@, i as int, j as int),
{
    let a = store.record_at(i);
    let c = store.record_at(j);
    refers_to(a, &c.id) || refers_to(c, &a.id)
}

fn shown_at(store: &Store, i: usize, include_trashed: bool) -> (b: bool)
    requires
        i < store@.records.len(),
    ensures
        b == shown(store@, i as int, include_trashed),
{
    let id = store.record_at(i).id;
    !store.is_deleted(&id) && (include_trashed || !store.is_trashed(&id))
}

fn linked_to_any(store: &Store, members: &Vec<usize>, j: usize) -> (b: bool)
    requires
        j < store@.records.len(),
        forall|p: int| 0 <= p < members@.len() ==> members@[p] < store@.records.len(),
    ensures
        b == exists|p: int| 0 <= p < members@.len() && linked(store@, members@[p] as int, j as int),
{
    let mut p: usize = 0;
    while p < members.len()
        invariant
            j < store@.records.len(),
            p <= members@.len(),
            forall|q: int| 0 <= q < members@.len() ==> members@[q] < store@.records.len(),
            forall|q: int| 0 <= q < p ==> !linked(store@, members@[q] as int, j as int),
        decreases members@.len() - p,
    {
        if linked_at(store, members[p], j) {
            return true;
        }
        p = p + 1;
    }
    false
}

/// The positions of the records in the conversation of the record at `start`:
/// the shown records reachable from it through reply links in either direction.
pub fn closure(store: &Store, start: usize, include_trashed: bool) -> (r: Vec<usize>)
    requires
        start < store@.records.len(),
    ensures
        forall|p: int| 0 <= p < r@.len() ==> in_thread(store@, start as int, include_trashed, #[trigger] r@[p] as int),
        forall|j: int| in_thread(store@, start as int, include_trashed, j) ==> exists|p: int| 0 <= p < r@.len() && r@[p] == j,
        forall|p: int, q: int| 0 <= p < q < r@.len() ==> r@[p] != r@[q],
{
    let ghost s = store@;
    let n = store.len();
    let mut members: Vec<usize> = Vec::new();
    if !shown_at(store, start, include_trashed) {
        proof {
            assert forall|j: int| in_thread(s, start as int, include_trashed, j) implies exists|p: int| 0 <= p < members@.len() && members@[p] == j by {
                let k = choose|k: nat| #[trigger] reach(s, start as int, include_trashed, k).contains(j);
                lemma_reach_shown(s, start as int, include_trashed, k, j);
                lemma_reach_start(s, start as int, include_trashed, k, j);
            }
        }
        return members;
    }
    let mut flags: Vec<bool> = Vec::new();
    let mut f: usize = 0;
    while f < n
        invariant
            f <= n,
            flags@.len() == f,
            forall|q: int| 0 <= q < f ==> flags@[q] == (q == start),
        decreases n - f,
    {
        flags.push(f == start);
        f = f + 1;
    }
    members.push(start);
    proof {
        assert(reach(s, start as int, include_trashed, 0).contains(start as int));
        assert forall|q: int| 0 <= q < n implies (flags@[q] <==> exists|p: int| 0 <= p < members@.len() && members@[p] == q) by {
            if q == start {
                assert(members@[0] == q);
            }
        }
    }
    let mut done = false;
    while !done
        invariant
            s == store@,
            n == s.records.len(),
            start < n,
            flags@.len() == n,
            members@.len() >= 1,
            members@.len() <= n,
            forall|p: int| 0 <= p < members@.len() ==> members@[p] < n,
            forall|p: int, q: int| 0 <= p < q < members@.len() ==> members@[p] != members@[q],
            forall|q: int| 0 <= q < n ==> (flags@[q] <==> exists|p: int| 0 <= p < members@.len() && members@[p] == q),
            forall|p: int| 0 <= p < members@.len() ==> reach(s, start as int, include_trashed, p as nat).contains(#[trigger] members@[p] as int),
            members@[0] == start,
            done ==> forall|j: int, p: int|
                0 <= j < n && 0 <= p < members@.len() && shown(s, j, include_trashed) && #[trigger] linked(s, members@[p] as int, j)
                    ==> flags@[j],
        decreases n - members@.len(), if done { 0int } else { 1int },
    {
        let ghost before = members@;
        let mut added = false;
        let mut j: usize = 0;
        while j < n
            invariant
                s == store@,
                n == s.records.len(),
                start < n,
                j <= n,
                flags@.len() == n,
                members@.len() >= 1,
                members@.len() <= n,
                members@[0] == start,
                forall|p: int| 0 <= p < members@.len() ==> members@[p] < n,
                forall|p: int, q: int| 0 <= p < q < members@.len() ==> members@[p] != members@[q],
                forall|q: int| 0 <= q < n ==> (flags@[q] <==> exists|p: int| 0 <= p < members@.len() && members@[p] == q),
                forall|p: int| 0 <= p < members@.len() ==> reach(s, start as int, include_trashed, p as nat).contains(#[trigger] members@[p] as int),
                !added ==> members@ == before,
                added ==> members@.len() > before.len(),
                !added ==> forall|jj: int, p: int|
                    0 <= jj < j && 0 <= p < members@.len() && shown(s, jj, include_trashed) && #[trigger] linked(s, members@[p] as int, jj)
                        ==> flags@[jj],
            decreases n - j,
        {
            if !flags[j] && shown_at(store, j, include_trashed) && linked_to_any(store, &members, j) {
                proof {
                    let p = choose|p: int| 0 <= p < members@.len() && linked(s, members@[p] as int, j as int);
                    let m = members@[p] as int;
                    let len = members@.len();
                    lemma_reach_mono(s, start as int, include_trashed, p as nat, (len - 1) as nat, m);
                    let prev = reach(s, start as int, include_trashed, (len - 1) as nat);
                    assert(prev.contains(m) && linked(s, m, j as int));
                    assert(reach(s, start as int, include_trashed, len as nat).contains(j as int));
                    if members@.len() == n {
                        lemma_no_gap(members@, n, j);
                        assert(flags@[j as int]);
                    }
                }
                let ghost old_members = members@;
                members.push(j);
                flags.set(j, true);
                proof {
                    assert forall|q: int| 0 <= q < n implies (flags@[q] <==> exists|p: int| 0 <= p < members@.len() && members@[p] == q) by {
                        if q == j {
                            assert(members@[members@.len() - 1] == q);
                        } else if flags@[q] {
                            let p = choose|p: int| 0 <= p < old_members.len() && old_members[p] == q;
                            assert(members@[p] == q);
                        }
                    }
                }
                added = true;
            }
            j = j + 1;
        }
        if !added {
            done = true;
        }
    }
    proof {
        assert forall|j: int| in_thread(s, start as int, include_trashed, j) implies exists|p: int| 0 <= p < members@.len() && members@[p] == j by {
            let k = choose|k: nat| #[trigger] reach(s, start as int, include_trashed, k).contains(j);
            lemma_closed_contains(s, start as int, include_trashed, members@, flags@, k, j);
        }
        assert forall|p: int| 0 <= p < members@.len() implies in_thread(s, start as int, include_trashed, #[trigger] members@[p] as int) by {
            assert(reach(s, start as int, include_trashed, p as nat).contains(members@[p] as int));
        }
    }
    members
}

proof fn lemma_reach_start(s: StoreModel, start: int, inc: bool, n: nat, j: int)
    requires
        !shown(s, start, inc),
    ensures
        !reach(s, start, inc, n).contains(j),
    decreases n,
{
    if n > 0 {
        lemma_reach_start(s, start, inc, (n - 1) as nat, j);
        let prev = reach(s, start, inc, (n - 1) as nat);
        assert(prev =~= Set::<int>::empty()) by {
            assert forall|x: int| !prev.contains(x) by {
                lemma_reach_start(s, start, inc, (n - 1) as nat, x);
            }
        }
    }
}

proof fn lemma_no_gap(members: Seq<usize>, n: usize, missing: usize)
    requires
        members.len() == n,
        missing < n,
        forall|p: int| 0 <= p < members.len() ==> members[p] < n,
        forall|p: int, q: int| 0 <= p < q < members.len() ==> members[p] != members[q],
    ensures
        exists|p: int| 0 <= p < members.len() && members[p] == missing,
{
    if !(exists|p: int| 0 <= p < members.len() && members[p] == missing) {
        let ms = members.to_set();
        members.unique_seq_to_set();
        let range = Set::<usize>::new(|x: usize| x < n && x != missing);
        assert(ms.subset_of(range));
        lemma_range_len(n, missing);
        vstd::set_lib::lemma_len_subset(ms, range);
    }
}

proof fn lemma_range_len(n: usize, missing: usize)
    requires
        missing < n,
    ensures
        Set::<usize>::new(|x: usize| x < n && x != missing).finite(),
        Set::<usize>::new(|x: usize| x < n && x != missing).len() == n - 1,
{
    let all = Set::<usize>::new(|x: usize| x < n);
    let r = Set::<usize>::new(|x: usize| x < n && x != missing);
    lemma_usize_range(n);
    assert(r =~= all.remove(missing));
}

proof fn lemma_usize_range(n: usize)
    ensures
        Set::<usize>::new(|x: usize| x < n).finite(),
        Set::<usize>::new(|x: usize| x < n).len() == n,
    decreases n,
{
    if n == 0 {
        assert(Set::<usize>::new(|x: usize| x < n) =~= Set::<usize>::empty());
    } else {
        lemma_usize_range((n - 1) as usize);
        assert(Set::<usize>::new(|x: usize| x < n) =~= Set::<usize>::new(|x: usize| x < (n - 1) as usize).insert(
            (n - 1) as usize,
        ));
    }
}

proof fn lemma_closed_contains(s: StoreModel, start: int, inc: bool, members: Seq<usize>, flags: Seq<bool>, k: nat, j: int)
    requires
        flags.len() == s.records.len(),
        members.len() >= 1,
        members[0] == start,
        forall|q: int| 0 <= q < s.records.len() ==> (flags[q] <==> exists|p: int| 0 <= p < members.len() && members[p] == q),
        forall|jj: int, p: int|
            0 <= jj < s.records.len() && 0 <= p < members.len() && shown(s, jj, inc) && #[trigger] linked(s, members[p] as int, jj)
                ==> flags[jj],
        reach(s, start, inc, k).contains(j),
    ensures
        exists|p: int| 0 <= p < members.len() && members[p] == j,
    decreases k,
{
    if k == 0 {
        assert(members[0] == j);
    } else {
        let prev = reach(s, start, inc, (k - 1) as nat);
        if prev.contains(j) {
            lemma_closed_contains(s, start, inc, members, flags, (k - 1) as nat, j);
        } else {
            let m = choose|m: int| prev.contains(m) && #[trigger] linked(s, m, j);
            lemma_closed_contains(s, start, inc, members, flags, (k - 1) as nat, m);
            let p = choose|p: int| 0 <= p < members.len() && members[p] == m;
            assert(linked(s, members[p] as int, j));
            assert(flags[j]);
        }
    }
}

/// Lexicographic order of byte strings.
pub open spec fn bytes_lt(a: Seq<u8>, b: Seq<u8>) -> bool
    decreases a.len(),
{
    if a.len() == 0 {
        b.len() > 0
    } else if b.len() == 0 {
        false
    } else if a[0] != b[0] {
        a[0] < b[0]
    } else {
        bytes_lt(a.drop_first(), b.drop_first())
    }
}

/// Chronological order of records, ties broken by id.
pub open spec fn record_before(x: RecordModel, y: RecordModel) -> bool {
    x.created_at < y.created_at || (x.created_at == y.created_at && bytes_lt(x.id, y.id))
}

proof fn lemma_lt_trans(a: Seq<u8>, b: Seq<u8>, c: Seq<u8>)
    requires
        bytes_lt(a, b),
        bytes_lt(b, c),
    ensures
        bytes_lt(a, c),
    decreases a.len(),
{
    if a.len() > 0 && b.len() > 0 && c.len() > 0 && a[0] == b[0] && b[0] == c[0] {
        lemma_lt_trans(a.drop_first(), b.drop_first(), c.drop_first());
    }
}

proof fn lemma_lt_asym(a: Seq<u8>, b: Seq<u8>)
    requires
        bytes_lt(a, b),
    ensures
        !bytes_lt(b, a),
    decreases a.len(),
{
    if a.len() > 0 && b.len() > 0 && a[0] == b[0] {
        lemma_lt_asym(a.drop_first(), b.drop_first());
    }
}

proof fn lemma_lt_total(a: Seq<u8>, b: Seq<u8>)
    requires
        a != b,
    ensures
        bytes_lt(a, b) || bytes_lt(b, a),
    decreases a.len(),
{
    if a.len() > 0 && b.len() > 0 && a[0] == b[0] {
        if a.drop_first() == b.drop_first() {
            assert(a =~= seq![a[0]].add(a.drop_first()));
            assert(b =~= seq![b[0]].add(b.drop_first()));
        }
        lemma_lt_total(a.drop_first(), b.drop_first());
    } else if a.len() == 0 && b.len() == 0 {
        assert(a =~= b);
    }
}

pub proof fn lemma_before_trans(x: RecordModel, y: RecordModel, z: RecordModel)
    requires
        record_before(x, y),
        record_before(y, z),
    ensures
        record_before(x, z),
{
    if x.created_at == y.created_at && y.created_at == z.created_at {
        lemma_lt_trans(x.id, y.id, z.id);
    }
}

pub proof fn lemma_before_irrefl(x: RecordModel)
    ensures
        !record_before(x, x),
{
    if bytes_lt(x.id, x.id) {
        lemma_lt_asym(x.id, x.id);
    }
}

/// A shown record belongs to its own conversation.
pub proof fn lemma_start_in_thread(s: StoreModel, start: int, inc: bool)
    requires
        shown(s, start, inc),
    ensures
        in_thread(s, start, inc, start),
{
    assert(reach(s, start, inc, 0).contains(start));
}

/// Every member of a conversation shows.
pub proof fn lemma_in_thread_shown(s: StoreModel, start: int, inc: bool, j: int)
    requires
        in_thread(s, start, inc, j),
    ensures
        shown(s, j, inc),
{
    let n = choose|n: nat| #[trigger] reach(s, start, inc, n).contains(j);
    lemma_reach_shown(s, start, inc, n, j);
}

proof fn lemma_before_total(x: RecordModel, y: RecordModel)
    requires
        x.id != y.id,
        !record_before(x, y),
    ensures
        record_before(y, x),
{
    if x.created_at == y.created_at {
        lemma_lt_total(x.id, y.id);
    }
}

/// Whether one id sorts before another, byte by byte.
pub fn id_lt(a: &EventId, b: &EventId) -> (r: bool)
    ensures
        r == bytes_lt(a@, b@),
{
    let x = a.as_bytes();
    let y = b.as_bytes();
    let mut i: usize = 0;
    assert(x@.subrange(0, 32) =~= x@);
    assert(y@.subrange(0, 32) =~= y@);
    while i < 32
        invariant
            i <= 32,
            x@.len() == 32,
            y@.len() == 32,
            x@ == a@,
            y@ == b@,
            bytes_lt(a@, b@) == bytes_lt(x@.subrange(i as int, 32), y@.subrange(i as int, 32)),
        decreases 32 - i,
    {
        assert(x@.subrange(i as int, 32).drop_first() =~= x@.subrange(i + 1, 32));
        assert(y@.subrange(i as int, 32).drop_first() =~= y@.subrange(i + 1, 32));
        if x[i] != y[i] {
            return x[i] < y[i];
        }
        i = i + 1;
    }
    false
}

fn before_at(store: &Store, i: usize, j: usize) -> (r: bool)
    requires
        i < store@.records.len(),
        j < store@.records.len(),
    ensures
        r == record_before(store@.records[i as int], store@.records[j as int]),
{
    let a = store.record_at(i);
    let b = store.record_at(j);
    a.created_at < b.created_at || (a.created_at == b.created_at && id_lt(&a.id, &b.id))
}

/// Whether the positions are in chronological order of their records.
pub open spec fn in_time_order(s: StoreModel, v: Seq<usize>) -> bool {
    forall|a: int, b: int| 0 <= a < b < v.len() ==> record_before(s.records[v[a] as int], s.records[v[b] as int])
}

/// Inserts a position where its record belongs in chronological order.
fn insert_in_order(store: &Store, out: &mut Vec<usize>, m: usize)
    requires
        store.wf(),
        m < store@.records.len(),
        forall|q: int| 0 <= q < old(out)@.len() ==> old(out)@[q] < store@.records.len() && old(out)@[q] != m,
        in_time_order(store@, old(out)@),
    ensures
        exists|pos: int| 0 <= pos <= old(out)@.len() && final(out)@ == old(out)@.insert(pos, m),
        in_time_order(store@, final(out)@),
{
    let ghost s = store@;
    let ghost old_out = out@;
    let mut pos: usize = 0;
    while pos < out.len() && before_at(store, out[pos], m)
        invariant
            s == store@,
            out@ == old_out,
            pos <= out@.len(),
            m < s.records.len(),
            forall|q: int| 0 <= q < out@.len() ==> out@[q] < s.records.len(),
            forall|k: int| 0 <= k < pos ==> record_before(s.records[out@[k] as int], s.records[m as int]),
        decreases out@.len() - pos,
    {
        pos = pos + 1;
    }
    proof {
        if pos < old_out.len() {
            assert(s.records[old_out[pos as int] as int].id != s.records[m as int].id);
            lemma_before_total(s.records[old_out[pos as int] as int], s.records[m as int]);
        }
        assert forall|k: int| pos <= k < old_out.len() implies record_before(s.records[m as int], s.records[#[trigger] old_out[k] as int]) by {
            if k > pos {
                lemma_before_trans(s.records[m as int], s.records[old_out[pos as int] as int], s.records[old_out[k] as int]);
            }
        }
    }
    out.insert(pos, m);
    proof {
        assert forall|a: int, b: int| 0 <= a < b < out@.len() implies record_before(s.records[out@[a] as int], s.records[out@[b] as int]) by {
            if b < pos {
                assert(out@[a] == old_out[a] && out@[b] == old_out[b]);
            } else if b == pos {
                assert(out@[a] == old_out[a]);
            } else if a == pos {
                assert(out@[b] == old_out[b - 1]);
            } else if a < pos {
                assert(out@[a] == old_out[a] && out@[b] == old_out[b - 1]);
            } else {
                assert(out@[a] == old_out[a - 1] && out@[b] == old_out[b - 1]);
            }
        }
    }
}

/// The given positions in chronological order of their records, ties broken by id.
pub fn sort_by_time(store: &Store, members: &Vec<usize>) -> (r: Vec<usize>)
    requires
        store.wf(),
        forall|p: int| 0 <= p < members@.len() ==> members@[p] < store@.records.len(),
        forall|p: int, q: int| 0 <= p < q < members@.len() ==> members@[p] != members@[q],
    ensures
        r@.len() == members@.len(),
        forall|q: int| 0 <= q < r@.len() ==> r@[q] < store@.records.len(),
        forall|q: int| 0 <= q < r@.len() ==> occurs(members@, #[trigger] r@[q]),
        forall|p: int| 0 <= p < members@.len() ==> occurs(r@, #[trigger] members@[p]),
        in_time_order(store@, r@),
{
    let ghost s = store@;
    let mut out: Vec<usize> = Vec::new();
    let ghost mut from: Seq<int> = Seq::empty();
    let ghost mut to: Seq<int> = Seq::empty();
    let mut i: usize = 0;
    while i < members.len()
        invariant
            s == store@,
            store.wf(),
            i <= members@.len(),
            out@.len() == i,
            from.len() == i,
            to.len() == i,
            forall|p: int| 0 <= p < members@.len() ==> members@[p] < s.records.len(),
            forall|p: int, q: int| 0 <= p < q < members@.len() ==> members@[p] != members@[q],
            forall|q: int| 0 <= q < i ==> 0 <= #[trigger] from[q] < i && members@[from[q]] == out@[q],
            forall|p: int| 0 <= p < i ==> 0 <= #[trigger] to[p] < i && out@[to[p]] == members@[p],
            in_time_order(s, out@),
        decreases members@.len() - i,
    {
        let m = members[i];
        let ghost old_out = out@;
        proof {
            assert forall|q: int| 0 <= q < old_out.len() implies old_out[q] < s.records.len() && old_out[q] != m by {
                assert(members@[from[q]] == old_out[q]);
            }
        }
        insert_in_order(store, &mut out, m);
        proof {
            let pos = choose|pos: int| 0 <= pos <= old_out.len() && out@ == old_out.insert(pos, m);
            let new_from = from.insert(pos, i as int);
            let new_to = Seq::new((i + 1) as nat, |p: int| if p == i { pos } else if to[p] >= pos { to[p] + 1 } else { to[p] });
            assert forall|q: int| 0 <= q < i + 1 implies 0 <= #[trigger] new_from[q] < i + 1 && members@[new_from[q]] == out@[q] by {
                if q < pos {
                    assert(new_from[q] == from[q]);
                } else if q > pos {
                    assert(new_from[q] == from[q - 1]);
                }
            }
            assert forall|p: int| 0 <= p < i + 1 implies 0 <= #[trigger] new_to[p] < i + 1 && out@[new_to[p]] == members@[p] by {
                if p < i {
                    assert(old_out[to[p]] == members@[p]);
                }
            }
            from = new_from;
            to = new_to;
        }
        i = i + 1;
    }
    proof {
        lemma_index_maps(out@, members@, from, to, s.records.len());
    }
    out
}

/// Whether `x` is an entry of `v`.
pub open spec fn occurs(v: Seq<usize>, x: usize) -> bool {
    exists|p: int| 0 <= p < v.len() && v[p] == x
}

proof fn lemma_index_maps(out: Seq<usize>, members: Seq<usize>, from: Seq<int>, to: Seq<int>, bound: nat)
    requires
        out.len() == members.len(),
        forall|p: int| 0 <= p < members.len() ==> members[p] < bound,
        forall|q: int| 0 <= q < out.len() ==> 0 <= #[trigger] from[q] < members.len() && members[from[q]] == out[q],
        forall|p: int| 0 <= p < members.len() ==> 0 <= #[trigger] to[p] < out.len() && out[to[p]] == members[p],
    ensures
        forall|q: int| 0 <= q < out.len() ==> out[q] < bound,
        forall|q: int| 0 <= q < out.len() ==> occurs(members, #[trigger] out[q]),
        forall|p: int| 0 <= p < members.len() ==> occurs(out, #[trigger] members[p]),
{
    assert forall|q: int| 0 <= q < out.len() implies out[q] < bound && occurs(members, #[trigger] out[q]) by {
        let p = from[q];
        assert(members[p] == out[q]);
    }
    assert forall|p: int| 0 <= p < members.len() implies occurs(out, #[trigger] members[p]) by {
        let q = to[p];
        assert(out[q] == members[p]);
    }
}

/// Whether the record at `j` is in the conversation of the record with id `id`.
pub open spec fn thread_member(s: StoreModel, id: Seq<u8>, include_trashed: bool, j: int) -> bool {
    exists|st: int| 0 <= st < s.records.len() && s.records[st].id == id && #[trigger] in_thread(s, st, include_trashed, j)
}

/// Whether a record is one of the conversation of the record with id `id`.
pub open spec fn in_thread_of(s: StoreModel, id: Seq<u8>, include_trashed: bool, r: RecordModel) -> bool {
    exists|j: int| 0 <= j < s.records.len() && thread_member(s, id, include_trashed, j) && s.records[j] == r
}

impl Store {
    /// The conversation of the record with id `id`: every shown record reachable
    /// from it through reply links, backwards and forwards, stopping at records
    /// that do not show; in chronological order, ties broken by id. Empty where
    /// the record is not stored or does not show.
    pub fn thread(&self, id: &EventId, include_trashed: bool) -> (r: Vec<Record>)
        requires
            self.wf(),
        ensures
            forall|k: int| 0 <= k < r@.len() ==> in_thread_of(self@, id@, include_trashed, #[trigger] r@[k]@),
            forall|j: int| 0 <= j < self@.records.len() && thread_member(self@, id@, include_trashed, j) ==> exists|k: int|
                0 <= k < r@.len() && r@[k]@ == self@.records[j],
            forall|a: int, b: int| 0 <= a < b < r@.len() ==> record_before(r@[a]@, r@[b]@),
    {
        let ghost s = self@;
        let start = match self.find(id) {
            Some(st) => st,
            None => {
                let r: Vec<Record> = Vec::new();
                proof {
                    assert forall|j: int| 0 <= j < s.records.len() && thread_member(s, id@, include_trashed, j) implies false by {
                        let st = choose|st: int| 0 <= st < s.records.len() && s.records[st].id == id@ && #[trigger] in_thread(s, st, include_trashed, j);
                    }
                }
                return r;
            },
        };
        proof {
            assert forall|st: int| 0 <= st < s.records.len() && s.records[st].id == id@ implies st == start as int by {
                if st != start as int {
                    assert(s.records[st].id != s.records[start as int].id);
                }
            }
        }
        let members = closure(self, start, include_trashed);
        proof {
            assert forall|p: int| 0 <= p < members@.len() implies members@[p] < s.records.len() by {
                assert(in_thread(s, start as int, include_trashed, members@[p] as int));
                let n = choose|n: nat| #[trigger] reach(s, start as int, include_trashed, n).contains(members@[p] as int);
                lemma_reach_shown(s, start as int, include_trashed, n, members@[p] as int);
            }
        }
        let order = sort_by_time(self, &members);
        let mut out: Vec<Record> = Vec::new();
        let mut k: usize = 0;
        while k < order.len()
            invariant
                s == self@,
                k <= order@.len(),
                out@.len() == k,
                forall|q: int| 0 <= q < order@.len() ==> order@[q] < s.records.len(),
                forall|q: int| 0 <= q < k ==> out@[q]@ == s.records[order@[q] as int],
            decreases order@.len() - k,
        {
            out.push(self.record_at(order[k]).duplicate());
            k = k + 1;
        }
        proof {
            assert forall|q: int| 0 <= q < out@.len() implies in_thread_of(s, id@, include_trashed, #[trigger] out@[q]@) by {
                assert(occurs(members@, order@[q]));
                let p = choose|p: int| 0 <= p < members@.len() && members@[p] == order@[q];
                assert(in_thread(s, start as int, include_trashed, members@[p] as int));
                assert(s.records[start as int].id == id@);
                assert(thread_member(s, id@, include_trashed, order@[q] as int));
                assert(out@[q]@ == s.records[order@[q] as int]);
                assert(0 <= order@[q] < s.records.len());
            }
            assert forall|j: int| 0 <= j < s.records.len() && thread_member(s, id@, include_trashed, j) implies exists|q: int|
                0 <= q < out@.len() && out@[q]@ == s.records[j] by {
                let st = choose|st: int| 0 <= st < s.records.len() && s.records[st].id == id@ && #[trigger] in_thread(s, st, include_trashed, j);
                let p = choose|p: int| 0 <= p < members@.len() && members@[p] == j;
                assert(occurs(order@, members@[p]));
                let q = choose|q: int| 0 <= q < order@.len() && order@[q] == members@[p];
                assert(out@[q]@ == s.records[j]);
            }
        }
        out
    }
}

} // verus!
