//! The orders in which locks and journal entries are given out.

use crate::rows::{EventJournalRow, EventRecord, LockRecord, ResourceLockRow};
use crate::state::{chronicle, filed, held_locks, is_held, ordered_by_key};
use crate::text::{not_after, same, text_le};
use vstd::prelude::*;

verus! {

/// What several stored journal entries hold.
pub open spec fn event_records(rows: Seq<EventJournalRow>) -> Seq<EventRecord> {
    rows.map_values(|row: EventJournalRow| row@)
}

/// What several stored locks hold.
pub open spec fn lock_records(rows: Seq<ResourceLockRow>) -> Seq<LockRecord> {
    rows.map_values(|row: ResourceLockRow| row@)
}

/// Of two texts, one comes no later than the other.
pub proof fn text_order_is_total(a: Seq<char>, b: Seq<char>)
    ensures
        text_le(a, b) || text_le(b, a),
    decreases a.len(),
{
    if a.len() > 0 && b.len() > 0 && a[0] == b[0] {
        text_order_is_total(a.drop_first(), b.drop_first());
    }
}

/// What comes no later than something that comes no later than a third, comes no later than the
/// third.
pub proof fn text_order_is_transitive(a: Seq<char>, b: Seq<char>, c: Seq<char>)
    requires
        text_le(a, b),
        text_le(b, c),
    ensures
        text_le(a, c),
    decreases a.len(),
{
    if a.len() > 0 && b.len() > 0 && c.len() > 0 {
        if a[0] == b[0] && b[0] == c[0] {
            text_order_is_transitive(a.drop_first(), b.drop_first(), c.drop_first());
        }
    }
}

/// Of two different texts, only one comes no later than the other.
pub proof fn text_order_is_antisymmetric(a: Seq<char>, b: Seq<char>)
    requires
        text_le(a, b),
        text_le(b, a),
    ensures
        a == b,
    decreases a.len(),
{
    if a.len() > 0 && b.len() > 0 {
        text_order_is_antisymmetric(a.drop_first(), b.drop_first());
        assert(a =~= seq![a[0]] + a.drop_first());
        assert(b =~= seq![b[0]] + b.drop_first());
    } else {
        assert(a =~= b);
    }
}

/// `a` comes before `b`: they agree up to a place at which `a` ends or has the smaller character.
pub open spec fn sorts_before(a: Seq<char>, b: Seq<char>) -> bool {
    exists|k: int| #[trigger] parts_at(a, b, k)
}

/// The texts agree up to `k`, where `a` ends or has the smaller character.
pub open spec fn parts_at(a: Seq<char>, b: Seq<char>, k: int) -> bool {
    &&& 0 <= k <= a.len()
    &&& k < b.len()
    &&& forall|i: int| 0 <= i < k ==> #[trigger] a[i] == b[i]
    &&& k == a.len() || (a[k] as int) < (b[k] as int)
}

/// A text comes no later than another exactly if it is the same or comes before it.
pub proof fn text_order_is_lexicographic(a: Seq<char>, b: Seq<char>)
    ensures
        text_le(a, b) <==> a == b || sorts_before(a, b),
    decreases a.len(),
{
    if a.len() == 0 || b.len() == 0 || a[0] != b[0] {
        if a.len() == 0 && b.len() == 0 {
            assert(a =~= b);
        }
        if text_le(a, b) && b.len() > 0 {
            assert(parts_at(a, b, 0));
        }
        if sorts_before(a, b) {
            let k = choose|k: int| #[trigger] parts_at(a, b, k);
            if k > 0 {
                assert(a[0] == b[0]);
            }
        }
    } else {
        let x = a.drop_first();
        let y = b.drop_first();
        text_order_is_lexicographic(x, y);
        if x == y {
            assert(a =~= seq![a[0]] + x);
            assert(b =~= seq![b[0]] + y);
        }
        if sorts_before(x, y) {
            let k = choose|k: int| #[trigger] parts_at(x, y, k);
            assert forall|i: int| 0 <= i < k + 1 implies #[trigger] a[i] == b[i] by {
                if i > 0 {
                    assert(x[i - 1] == y[i - 1]);
                }
            }
            assert(parts_at(a, b, k + 1));
        }
        if sorts_before(a, b) {
            let k = choose|k: int| #[trigger] parts_at(a, b, k);
            assert forall|i: int| 0 <= i < k - 1 implies #[trigger] x[i] == y[i] by {
                assert(a[i + 1] == b[i + 1]);
            }
            assert(parts_at(x, y, k - 1));
        }
    }
}

/// What a filter keeps of one item more.
pub(crate) proof fn lemma_filter_next<A>(s: Seq<A>, i: int, pred: spec_fn(A) -> bool)
    requires
        0 <= i < s.len(),
    ensures
        s.take(i + 1).filter(pred) == (if pred(s[i]) {
            s.take(i).filter(pred).push(s[i])
        } else {
            s.take(i).filter(pred)
        }),
{
    reveal(Seq::filter);
    assert(s.take(i + 1).drop_last() =~= s.take(i));
}

/// Filing an entry puts it in front of the later entries, behind the others.
proof fn lemma_filed(journal: Seq<EventRecord>, entry: EventRecord, at: int)
    requires
        0 <= at <= journal.len(),
        at > 0 ==> text_le(journal[at - 1].timestamp, entry.timestamp),
        forall|j: int|
            at <= j < journal.len() ==> !text_le((#[trigger] journal[j]).timestamp, entry.timestamp),
    ensures
        filed(journal, entry) == journal.insert(at, entry),
    decreases journal.len(),
{
    if at == journal.len() {
        assert(journal.push(entry) =~= journal.insert(at, entry));
    } else {
        lemma_filed(journal.drop_last(), entry, at);
        assert(journal.drop_last().insert(at, entry).push(journal.last()) =~= journal.insert(
            at,
            entry,
        ));
    }
}

/// The entries of a task in the order of their timestamps.
pub fn chronological(events: &Vec<EventJournalRow>, task: &str) -> (rows: Vec<EventJournalRow>)
    ensures
        event_records(rows@) == chronicle(event_records(events@), task@),
{
    let ghost all = event_records(events@);
    let mut rows: Vec<EventJournalRow> = Vec::new();
    let mut i: usize = 0;
    assert(event_records(rows@) =~= chronicle(all.take(0), task@));
    while i < events.len()
        invariant
            all == event_records(events@),
            i <= events.len(),
            event_records(rows@) =~= chronicle(all.take(i as int), task@),
        decreases events.len() - i,
    {
        proof {
            assert(all[i as int] == events@[i as int]@);
            assert(all.take(i + 1).drop_last() =~= all.take(i as int));
            assert(all.take(i + 1).last() == all[i as int]);
        }
        if same(events[i].task_id.as_str(), task) {
            let row = events[i].clone();
            let mut at: usize = rows.len();
            while at > 0 && !not_after(rows[at - 1].timestamp.as_str(), row.timestamp.as_str())
                invariant
                    at <= rows.len(),
                    forall|j: int|
                        at <= j < rows.len() ==> !text_le(
                            (#[trigger] rows@[j])@.timestamp,
                            row@.timestamp,
                        ),
                decreases at,
            {
                at = at - 1;
            }
            proof {
                let journal = event_records(rows@);
                assert forall|j: int| at <= j < journal.len() implies !text_le(
                    (#[trigger] journal[j]).timestamp,
                    row@.timestamp,
                ) by {
                    assert(journal[j] == rows@[j]@);
                }
                if at > 0 {
                    assert(journal[at - 1] == rows@[at - 1]@);
                }
                lemma_filed(journal, row@, at as int);
                assert(event_records(rows@.insert(at as int, row)) =~= journal.insert(
                    at as int,
                    row@,
                ));
            }
            rows.insert(at, row);
        }
        i = i + 1;
    }
    assert(all.take(i as int) =~= all);
    rows
}

/// The journal is in the order of its timestamps.
pub open spec fn in_order(journal: Seq<EventRecord>) -> bool {
    forall|i: int, j: int|
        0 <= i < j < journal.len() ==> text_le(
            (#[trigger] journal[i]).timestamp,
            (#[trigger] journal[j]).timestamp,
        )
}

proof fn lemma_filed_in_order(journal: Seq<EventRecord>, entry: EventRecord)
    requires
        in_order(journal),
    ensures
        in_order(filed(journal, entry)),
        filed(journal, entry).len() == journal.len() + 1,
        filed(journal, entry).to_multiset() == journal.to_multiset().insert(entry),
        forall|j: int|
            0 <= j < filed(journal, entry).len() ==> filed(journal, entry)[j] == entry
                || journal.contains(#[trigger] filed(journal, entry)[j]),
    decreases journal.len(),
{
    broadcast use vstd::seq_lib::group_to_multiset_ensures;

    let after = filed(journal, entry);
    if journal.len() == 0 || text_le(journal.last().timestamp, entry.timestamp) {
        assert forall|i: int, j: int| 0 <= i < j < after.len() implies text_le(
            (#[trigger] after[i]).timestamp,
            (#[trigger] after[j]).timestamp,
        ) by {
            if j == journal.len() && i < journal.len() - 1 {
                text_order_is_transitive(
                    journal[i].timestamp,
                    journal.last().timestamp,
                    entry.timestamp,
                );
            }
        }
    } else {
        let fewer = journal.drop_last();
        lemma_filed_in_order(fewer, entry);
        let inner = filed(fewer, entry);
        text_order_is_total(journal.last().timestamp, entry.timestamp);
        assert forall|i: int, j: int| 0 <= i < j < after.len() implies text_le(
            (#[trigger] after[i]).timestamp,
            (#[trigger] after[j]).timestamp,
        ) by {
            if j == inner.len() {
                assert(after[j] == journal.last());
                assert(after[i] == inner[i]);
                if inner[i] != entry {
                    assert(fewer.contains(inner[i]));
                    let k = choose|k: int| 0 <= k < fewer.len() && fewer[k] == inner[i];
                    assert(journal[k] == inner[i]);
                }
            } else {
                assert(after[i] == inner[i] && after[j] == inner[j]);
            }
        }
        assert(journal =~= fewer.push(journal.last()));
        assert(after.to_multiset() =~= journal.to_multiset().insert(entry));
        assert forall|j: int| 0 <= j < after.len() implies after[j] == entry || journal.contains(
            #[trigger] after[j],
        ) by {
            if j < inner.len() {
                assert(after[j] == inner[j]);
                if inner[j] != entry {
                    let k = choose|k: int| 0 <= k < fewer.len() && fewer[k] == inner[j];
                    assert(journal[k] == inner[j]);
                }
            } else {
                assert(after[j] == journal[journal.len() - 1]);
            }
        }
    }
}

/// The chronicle of a task holds the entries of that task, each as often as the journal does, in
/// the order of their timestamps.
pub proof fn chronicle_is_the_task_in_order(events: Seq<EventRecord>, task: Seq<char>)
    ensures
        in_order(chronicle(events, task)),
        chronicle(events, task).to_multiset() == events.filter(
            |row: EventRecord| row.task_id == task,
        ).to_multiset(),
    decreases events.len(),
{
    broadcast use vstd::seq_lib::group_to_multiset_ensures;

    reveal(Seq::filter);
    let pred = |row: EventRecord| row.task_id == task;
    if events.len() > 0 {
        chronicle_is_the_task_in_order(events.drop_last(), task);
        let earlier = chronicle(events.drop_last(), task);
        if events.last().task_id == task {
            lemma_filed_in_order(earlier, events.last());
            assert(events.filter(pred) == events.drop_last().filter(pred).push(events.last()));
        }
    } else {
        assert(chronicle(events, task) =~= events.filter(pred));
    }
}

/// The places of exactly the entries of a task, in the order of their timestamps, those with one
/// timestamp in the order in which they were written.
pub open spec fn picks_in_time(
    places: Seq<int>,
    events: Seq<EventRecord>,
    task: Seq<char>,
) -> bool {
    &&& forall|a: int|
        0 <= a < places.len() ==> 0 <= #[trigger] places[a] < events.len()
            && events[places[a]].task_id == task
    &&& forall|a: int, b: int|
        0 <= a < b < places.len() ==> {
            let x = events[#[trigger] places[a]].timestamp;
            let y = events[#[trigger] places[b]].timestamp;
            sorts_before(x, y) || x == y && places[a] < places[b]
        }
    &&& forall|i: int|
        0 <= i < events.len() && (#[trigger] events[i]).task_id == task ==> places.contains(i)
}

/// Where an entry is filed.
proof fn lemma_filing_place(journal: Seq<EventRecord>, entry: EventRecord) -> (at: int)
    ensures
        0 <= at <= journal.len(),
        at > 0 ==> text_le(journal[at - 1].timestamp, entry.timestamp),
        forall|j: int|
            at <= j < journal.len() ==> !text_le((#[trigger] journal[j]).timestamp, entry.timestamp),
    decreases journal.len(),
{
    if journal.len() == 0 || text_le(journal.last().timestamp, entry.timestamp) {
        journal.len() as int
    } else {
        let at = lemma_filing_place(journal.drop_last(), entry);
        assert forall|j: int| at <= j < journal.len() implies !text_le(
            (#[trigger] journal[j]).timestamp,
            entry.timestamp,
        ) by {
            if j < journal.len() - 1 {
                assert(journal.drop_last()[j] == journal[j]);
            }
        }
        at
    }
}

/// A worker is told of the journal of a task in the order of time: what the chronicle of a task holds
/// are the entries at the places picked in that order.
pub proof fn chronicle_follows_time(events: Seq<EventRecord>, task: Seq<char>) -> (places: Seq<int>)
    ensures
        picks_in_time(places, events, task),
        chronicle(events, task).len() == places.len(),
        forall|k: int|
            0 <= k < places.len() ==> chronicle(events, task)[k] == events[#[trigger] places[k]],
    decreases events.len(),
{
    if events.len() == 0 {
        Seq::empty()
    } else {
        let fewer = events.drop_last();
        let entry = events.last();
        let n = events.len() - 1;
        let earlier = chronicle_follows_time(fewer, task);
        let journal = chronicle(fewer, task);
        assert forall|k: int| 0 <= k < earlier.len() implies events[#[trigger] earlier[k]]
            == fewer[earlier[k]] && journal[k] == events[earlier[k]] by {}
        if entry.task_id != task {
            assert forall|i: int|
                0 <= i < events.len() && (#[trigger] events[i]).task_id
                    == task implies earlier.contains(i) by {
                assert(fewer[i] == events[i]);
            }
            earlier
        } else {
            let at = lemma_filing_place(journal, entry);
            lemma_filed(journal, entry, at);
            let places = earlier.insert(at, n);
            let after = chronicle(events, task);
            assert(after == journal.insert(at, entry));
            assert forall|k: int| 0 <= k < places.len() implies 0 <= #[trigger] places[k]
                < events.len() && events[places[k]].task_id == task && after[k]
                == events[places[k]] by {
                if k < at {
                    assert(places[k] == earlier[k]);
                } else if k > at {
                    assert(places[k] == earlier[k - 1]);
                }
            }
            chronicle_is_the_task_in_order(fewer, task);
            assert forall|a: int, b: int| 0 <= a < b < places.len() implies {
                let x = events[#[trigger] places[a]].timestamp;
                let y = events[#[trigger] places[b]].timestamp;
                sorts_before(x, y) || x == y && places[a] < places[b]
            } by {
                let x = events[places[a]].timestamp;
                let y = events[places[b]].timestamp;
                if b == at {
                    assert(places[a] == earlier[a]);
                    assert(journal[a].timestamp == x);
                    if a < at - 1 {
                        text_order_is_transitive(x, journal[at - 1].timestamp, y);
                    }
                    text_order_is_lexicographic(x, y);
                } else if a == at {
                    assert(places[b] == earlier[b - 1]);
                    assert(journal[b - 1].timestamp == y);
                    text_order_is_total(x, y);
                    text_order_is_lexicographic(x, y);
                } else {
                    let c = if a < at { a } else { a - 1 };
                    let d = if b < at { b } else { b - 1 };
                    assert(places[a] == earlier[c] && places[b] == earlier[d]);
                }
            }
            assert forall|i: int|
                0 <= i < events.len() && (#[trigger] events[i]).task_id
                    == task implies places.contains(i) by {
                if i < n {
                    assert(fewer[i] == events[i]);
                    let k = choose|k: int| 0 <= k < earlier.len() && earlier[k] == i;
                    assert(places[if k < at { k } else { k + 1 }] == i);
                } else {
                    assert(places[at] == i);
                }
            }
            places
        }
    }
}

/// The locks in force, in the order of their keys.
pub fn held_by_key(locks: &Vec<ResourceLockRow>, now: i64) -> (rows: Vec<ResourceLockRow>)
    ensures
        ordered_by_key(lock_records(rows@)),
        lock_records(rows@).to_multiset() == held_locks(
            lock_records(locks@),
            now as int,
        ).to_multiset(),
{
    broadcast use vstd::seq_lib::group_to_multiset_ensures;

    let ghost all = lock_records(locks@);
    let ghost pred = |row: LockRecord| is_held(row, now as int);
    let mut rows: Vec<ResourceLockRow> = Vec::new();
    let mut i: usize = 0;
    proof {
        reveal(Seq::filter);
        assert(all.take(0).filter(pred) =~= lock_records(rows@));
    }
    while i < locks.len()
        invariant
            all == lock_records(locks@),
            pred == (|row: LockRecord| is_held(row, now as int)),
            i <= locks.len(),
            ordered_by_key(lock_records(rows@)),
            lock_records(rows@).to_multiset() == all.take(i as int).filter(pred).to_multiset(),
        decreases locks.len() - i,
    {
        proof {
            assert(all[i as int] == locks@[i as int]@);
            lemma_filter_next(all, i as int, pred);
        }
        if locks[i].lease_expires_at > now {
            let row = locks[i].clone();
            let mut at: usize = rows.len();
            while at > 0 && !not_after(rows[at - 1].resource_key.as_str(), row.resource_key.as_str())
                invariant
                    at <= rows.len(),
                    forall|j: int|
                        at <= j < rows.len() ==> !text_le(
                            (#[trigger] rows@[j])@.resource_key,
                            row@.resource_key,
                        ),
                decreases at,
            {
                at = at - 1;
            }
            proof {
                let sorted = lock_records(rows@);
                let longer = sorted.insert(at as int, row@);
                assert(lock_records(rows@.insert(at as int, row)) =~= longer);
                assert forall|k: int, j: int| 0 <= k < j < longer.len() implies text_le(
                    (#[trigger] longer[k]).resource_key,
                    (#[trigger] longer[j]).resource_key,
                ) by {
                    let key = row@.resource_key;
                    if k < at && j == at {
                        assert(sorted[at - 1] == rows@[at - 1]@);
                        assert(longer[k] == sorted[k]);
                        if k < at - 1 {
                            text_order_is_transitive(
                                sorted[k].resource_key,
                                sorted[at - 1].resource_key,
                                key,
                            );
                        }
                    } else if k == at {
                        assert(longer[j] == sorted[j - 1]);
                        assert(sorted[j - 1] == rows@[j - 1]@);
                        text_order_is_total(sorted[j - 1].resource_key, key);
                    } else {
                        let k0 = if k < at { k } else { k - 1 };
                        let j0 = if j < at { j } else { j - 1 };
                        assert(longer[k] == sorted[k0] && longer[j] == sorted[j0]);
                    }
                }
                lemma_insert_multiset(sorted, at as int, row@);
                let kept = all.take(i as int).filter(pred);
                assert(kept.push(row@) =~= kept.insert(kept.len() as int, row@));
                lemma_insert_multiset(kept, kept.len() as int, row@);
            }
            rows.insert(at, row);
        }
        i = i + 1;
    }
    assert(all.take(i as int) =~= all);
    rows
}

proof fn lemma_insert_multiset<A>(s: Seq<A>, at: int, a: A)
    requires
        0 <= at <= s.len(),
    ensures
        s.insert(at, a).to_multiset() == s.to_multiset().insert(a),
{
    broadcast use vstd::seq_lib::group_to_multiset_ensures;

    assert(s.insert(at, a).remove(at) =~= s);
    assert(s.insert(at, a)[at] == a);
    assert(s.insert(at, a).to_multiset() =~= s.to_multiset().insert(a));
}

} // verus!
