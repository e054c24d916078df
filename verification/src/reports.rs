//! What the store says of itself: snapshots of tasks, and counts.

use crate::error::DbFailure;
use crate::order::lemma_filter_next;
use crate::rows::{
    read_task, DagNodeRow, GlobalTaskSnapshot, LockRecord, NodeInfo, NodeRecord, NodeSnapshot,
    NodeStatus, TaskInfo,
};
use crate::state::{is_held, nodes_of, read_nodes, stands, DbState};
use crate::text::same;
use vstd::prelude::*;

verus! {

/// What several stored nodes hold.
pub open spec fn node_records(rows: Seq<DagNodeRow>) -> Seq<NodeRecord> {
    rows.map_values(|row: DagNodeRow| row@)
}

/// How many of the nodes have the status word.
pub open spec fn standing(rows: Seq<NodeRecord>, word: Seq<char>) -> nat {
    rows.filter(|row: NodeRecord| row.status == word).len()
}

/// How many nodes have each status word that a node has.
pub open spec fn status_counts(rows: Seq<NodeRecord>) -> Map<Seq<char>, nat> {
    Map::new(|word: Seq<char>| standing(rows, word) > 0, |word: Seq<char>| standing(rows, word))
}

/// How many nodes have each status word. An entry outdoes the earlier ones for the same word.
#[derive(Debug)]
pub struct StatusCounts {
    pub entries: Vec<(String, u64)>,
}

/// What the entries say, word by word.
pub open spec fn counted(entries: Seq<(String, u64)>) -> Map<Seq<char>, nat>
    decreases entries.len(),
{
    if entries.len() == 0 {
        Map::empty()
    } else {
        counted(entries.drop_last()).insert(entries.last().0@, entries.last().1 as nat)
    }
}

impl View for StatusCounts {
    type V = Map<Seq<char>, nat>;

    open spec fn view(&self) -> Map<Seq<char>, nat> {
        counted(self.entries@)
    }
}

/// No entry from `from` on is for the word.
spec fn unmentioned(entries: Seq<(String, u64)>, word: Seq<char>, from: int) -> bool {
    forall|i: int| from <= i < entries.len() ==> (#[trigger] entries[i]).0@ != word
}

/// The last entry for a word says what its count is.
proof fn lemma_counted(entries: Seq<(String, u64)>, word: Seq<char>, at: int)
    requires
        -1 <= at < entries.len(),
        at >= 0 ==> entries[at].0@ == word,
        unmentioned(entries, word, at + 1),
    ensures
        at >= 0 ==> counted(entries).dom().contains(word) && counted(entries)[word]
            == entries[at].1,
        at < 0 ==> !counted(entries).dom().contains(word),
    decreases entries.len(),
{
    if entries.len() > 0 && at < entries.len() - 1 {
        let fewer = entries.drop_last();
        assert(entries.last().0@ != word) by {
            assert(entries[entries.len() - 1].0@ != word);
        }
        assert forall|i: int| at + 1 <= i < fewer.len() implies (#[trigger] fewer[i]).0@ != word by {
            assert(fewer[i] == entries[i]);
        }
        lemma_counted(fewer, word, at);
    }
}

/// Changing the last entry for a word changes the count of that word only.
proof fn lemma_recounted(entries: Seq<(String, u64)>, at: int, entry: (String, u64))
    requires
        0 <= at < entries.len(),
        entries[at].0@ == entry.0@,
        unmentioned(entries, entry.0@, at + 1),
    ensures
        counted(entries.update(at, entry)) == counted(entries).insert(entry.0@, entry.1 as nat),
    decreases entries.len(),
{
    let changed = entries.update(at, entry);
    let fewer = entries.drop_last();
    let word = entry.0@;
    if at == entries.len() - 1 {
        assert(changed.drop_last() =~= fewer);
        assert(counted(changed) =~= counted(entries).insert(word, entry.1 as nat));
    } else {
        assert forall|i: int| at + 1 <= i < fewer.len() implies (#[trigger] fewer[i]).0@ != word by {
            assert(fewer[i] == entries[i]);
        }
        lemma_recounted(fewer, at, entry);
        assert(changed.drop_last() =~= fewer.update(at, entry));
        assert(changed.last() == entries.last());
        assert(entries[entries.len() - 1].0@ != word);
        assert(counted(changed) =~= counted(entries).insert(word, entry.1 as nat));
    }
}

impl StatusCounts {
    /// Where the last entry for a word stands.
    fn find(&self, word: &str) -> (found: Option<usize>)
        ensures
            match found {
                Some(at) => at < self.entries.len() && self.entries@[at as int].0@ == word@
                    && unmentioned(self.entries@, word@, at + 1),
                None => unmentioned(self.entries@, word@, 0),
            },
    {
        let mut i: usize = self.entries.len();
        while i > 0
            invariant
                i <= self.entries.len(),
                unmentioned(self.entries@, word@, i as int),
            decreases i,
        {
            i = i - 1;
            if same(self.entries[i].0.as_str(), word) {
                return Some(i);
            }
        }
        None
    }

    /// The count for the status with this word, if there is one.
    pub fn get(&self, word: &str) -> (count: Option<&u64>)
        ensures
            match count {
                Some(count) => self@.dom().contains(word@) && *count == self@[word@],
                None => !self@.dom().contains(word@),
            },
    {
        match self.find(word) {
            Some(at) => {
                proof {
                    lemma_counted(self.entries@, word@, at as int);
                }
                Some(&self.entries[at].1)
            },
            None => {
                proof {
                    lemma_counted(self.entries@, word@, -1);
                }
                None
            },
        }
    }
}

/// One more node adds one to the count of its status word.
proof fn lemma_one_more(rows: Seq<NodeRecord>, i: int)
    requires
        0 <= i < rows.len(),
    ensures
        standing(rows.take(i), rows[i].status) <= i,
        status_counts(rows.take(i + 1)) == status_counts(rows.take(i)).insert(
            rows[i].status,
            standing(rows.take(i), rows[i].status) + 1,
        ),
{
    let word = rows[i].status;
    rows.take(i).lemma_filter_len(|row: NodeRecord| row.status == word);
    assert forall|w: Seq<char>| true implies #[trigger] standing(rows.take(i + 1), w) == standing(
        rows.take(i),
        w,
    ) + (if w == word {
        1nat
    } else {
        0nat
    }) by {
        lemma_filter_next(rows, i, |row: NodeRecord| row.status == w);
    }
    assert(status_counts(rows.take(i + 1)) =~= status_counts(rows.take(i)).insert(
        word,
        standing(rows.take(i), word) + 1,
    ));
}

/// Counts the nodes at each status.
pub fn tally(rows: &Vec<DagNodeRow>) -> (counts: StatusCounts)
    ensures
        counts@ == status_counts(node_records(rows@)),
{
    let ghost all = node_records(rows@);
    let mut counts = StatusCounts { entries: Vec::new() };
    let mut i: usize = 0;
    proof {
        reveal(Seq::filter);
        assert(counts@ =~= status_counts(all.take(0)));
    }
    while i < rows.len()
        invariant
            all == node_records(rows@),
            i <= rows.len(),
            counts@ == status_counts(all.take(i as int)),
        decreases rows.len() - i,
    {
        let word = rows[i].status.as_str();
        let ghost entries = counts.entries@;
        proof {
            assert(all[i as int] == rows@[i as int]@);
            lemma_one_more(all, i as int);
        }
        match counts.find(word) {
            Some(at) => {
                proof {
                    lemma_counted(entries, word@, at as int);
                }
                let count: u64 = counts.entries[at].1;
                let entry = (counts.entries[at].0.clone(), count + 1);
                proof {
                    lemma_recounted(entries, at as int, entry);
                }
                counts.entries.set(at, entry);
            },
            None => {
                proof {
                    lemma_counted(entries, word@, -1);
                }
                let entry: (String, u64) = (rows[i].status.clone(), 1);
                assert(entries.push(entry).drop_last() =~= entries);
                counts.entries.push(entry);
            },
        }
        i = i + 1;
    }
    assert(all.take(i as int) =~= all);
    counts
}

/// Where a task and its nodes stand.
#[derive(Debug)]
pub struct TaskSnapshot {
    pub task: GlobalTaskSnapshot,
    pub counts: StatusCounts,
    pub nodes: Vec<NodeSnapshot>,
}

/// What a snapshot of a task says.
pub struct SnapshotInfo {
    pub task: TaskInfo,
    pub counts: Map<Seq<char>, nat>,
    pub nodes: Seq<NodeInfo>,
}

impl View for TaskSnapshot {
    type V = SnapshotInfo;

    open spec fn view(&self) -> SnapshotInfo {
        SnapshotInfo {
            task: self.task@,
            counts: self.counts@,
            nodes: self.nodes@.map_values(|node: NodeSnapshot| node@),
        }
    }
}

/// `outcome` is what a snapshot of the task gives: nothing for an unknown task; the first failure
/// to read one of its nodes, then the task; else all of them.
pub open spec fn snapshot_told(
    state: DbState,
    task: Seq<char>,
    outcome: Result<Option<SnapshotInfo>, DbFailure>,
) -> bool {
    if !state.has_task(task) {
        outcome == Ok::<Option<SnapshotInfo>, DbFailure>(None)
    } else {
        match (read_nodes(nodes_of(state.nodes, task)), read_task(state.task(task))) {
            (Err(failure), _) => outcome == Err::<Option<SnapshotInfo>, DbFailure>(failure),
            (_, Err(failure)) => outcome == Err::<Option<SnapshotInfo>, DbFailure>(failure),
            (Ok(nodes), Ok(info)) => {
                &&& outcome matches Ok(Some(snapshot))
                &&& snapshot.task == info
                &&& snapshot.nodes == nodes
                &&& snapshot.counts == status_counts(nodes_of(state.nodes, task))
            },
        }
    }
}

/// Counts of what the store holds.
#[derive(Debug)]
pub struct DatabaseMetrics {
    pub schema_version: i64,
    pub latest_schema_version: i64,
    pub total_tasks: u64,
    pub total_nodes: u64,
    pub total_events: u64,
    pub active_resource_locks: u64,
    pub expired_resource_locks: u64,
    pub running_leases: u64,
    pub expired_running_leases: u64,
    pub node_status_counts: StatusCounts,
}

/// The newest of several schema versions, or zero if there is none.
pub open spec fn newest(versions: Seq<i64>) -> i64
    decreases versions.len(),
{
    if versions.len() == 0 {
        0
    } else if versions.len() == 1 || newest(versions.drop_last()) <= versions.last() {
        versions.last()
    } else {
        newest(versions.drop_last())
    }
}

/// The node runs under a lease.
pub open spec fn is_leased(row: NodeRecord) -> bool {
    stands(row, NodeStatus::Running) && row.lease_id is Some
}

/// The node runs although its lease has run out.
pub open spec fn is_lapsed(row: NodeRecord, now: int) -> bool {
    stands(row, NodeStatus::Running) && (row.lease_expires_at matches Some(expires) && expires
        <= now)
}

impl DatabaseMetrics {
    /// These are the counts of what the store holds at `now`.
    pub open spec fn describes(self, state: DbState, latest: i64, now: int) -> bool {
        &&& self.schema_version == newest(state.versions)
        &&& self.latest_schema_version == latest
        &&& self.total_tasks == state.tasks.len()
        &&& self.total_nodes == state.nodes.len()
        &&& self.total_events == state.events.len()
        &&& self.active_resource_locks == state.locks.filter(
            |row: LockRecord| is_held(row, now),
        ).len()
        &&& self.expired_resource_locks == state.locks.filter(
            |row: LockRecord| !is_held(row, now),
        ).len()
        &&& self.running_leases == state.nodes.filter(|row: NodeRecord| is_leased(row)).len()
        &&& self.expired_running_leases == state.nodes.filter(
            |row: NodeRecord| is_lapsed(row, now),
        ).len()
        &&& self.node_status_counts@ == status_counts(state.nodes)
    }
}

} // verus!
