//! Opening the store: an empty one, or one out of rows that were kept.

use crate::db::{task_records, Database};
use crate::error::{DbError, DbFailure};
use crate::order::{event_records, lock_records};
use crate::readable::is_readable;
use crate::reports::node_records;
use crate::rows::{
    DagNodeRow, EventJournalRow, EventRecord, GlobalTaskRow, LockRecord, NodeRecord,
    ResourceLockRow, TaskRecord,
};
use crate::state::DbState;
use vstd::hash_set::StringHashSet;
use vstd::prelude::*;

verus! {

/// A store with nothing in it, at the latest schema version.
pub open spec fn fresh_state() -> DbState {
    DbState {
        versions: seq![1, 2],
        tasks: Seq::empty(),
        nodes: Seq::empty(),
        events: Seq::empty(),
        locks: Seq::empty(),
    }
}

/// The keys seen are exactly these.
spec fn collects(seen: Set<Seq<char>>, keys: Seq<Seq<char>>) -> bool {
    &&& forall|i: int| 0 <= i < keys.len() ==> seen.contains(#[trigger] keys[i])
    &&& forall|key: Seq<char>| #[trigger]
        seen.contains(key) ==> exists|i: int| 0 <= i < keys.len() && #[trigger] keys[i] == key
}

proof fn lemma_collect(seen: Set<Seq<char>>, keys: Seq<Seq<char>>, key: Seq<char>)
    requires
        collects(seen, keys),
    ensures
        collects(seen.insert(key), keys.push(key)),
{
    let longer = keys.push(key);
    assert forall|i: int| 0 <= i < longer.len() implies seen.insert(key).contains(
        #[trigger] longer[i],
    ) by {
        if i < keys.len() {
            assert(longer[i] == keys[i]);
        }
    }
    assert forall|k: Seq<char>| #[trigger] seen.insert(key).contains(k) implies exists|i: int|
        0 <= i < longer.len() && #[trigger] longer[i] == k by {
        if k == key {
            assert(longer[keys.len() as int] == k);
        } else {
            let i = choose|i: int| 0 <= i < keys.len() && #[trigger] keys[i] == k;
            assert(longer[i] == k);
        }
    }
}

impl Database {
    /// An empty store at the latest schema version.
    pub fn initialise() -> (db: Database)
        ensures
            db@ == fresh_state(),
            db@.wf(),
            db@.is_linked(),
            is_readable(db@),
    {
        let mut schema_versions: Vec<i64> = Vec::new();
        schema_versions.push(1);
        schema_versions.push(2);
        Database {
            schema_versions,
            tasks: Vec::new(),
            nodes: Vec::new(),
            events: Vec::new(),
            locks: Vec::new(),
        }
    }

    /// The store with these rows, provided that no table has a key twice.
    pub fn from_rows(
        schema_versions: Vec<i64>,
        tasks: Vec<GlobalTaskRow>,
        nodes: Vec<DagNodeRow>,
        events: Vec<EventJournalRow>,
        locks: Vec<ResourceLockRow>,
    ) -> (res: Result<Database, DbError>)
        ensures
            ({
                let state = DbState {
                    versions: schema_versions@,
                    tasks: task_records(tasks@),
                    nodes: node_records(nodes@),
                    events: event_records(events@),
                    locks: lock_records(locks@),
                };
                match res {
                    Ok(db) => state.wf() && db@ == state,
                    Err(err) => !state.wf() && err@ == (DbFailure::InvalidState(
                        "a table has a key twice"@,
                    )),
                }
            }),
    {
        let db = Database { schema_versions, tasks, nodes, events, locks };
        if db.is_consistent() {
            Ok(db)
        } else {
            Err(DbError::InvalidState("a table has a key twice".to_owned()))
        }
    }

    /// Whether no table has a key twice.
    pub fn is_consistent(&self) -> (res: bool)
        ensures
            res == self@.wf(),
    {
        let ghost state = self@;
        let ghost task_keys = state.tasks.map_values(|row: TaskRecord| row.id);
        let ghost node_keys = state.nodes.map_values(|row: NodeRecord| row.id);
        let ghost event_keys = state.events.map_values(|row: EventRecord| row.id);
        let ghost lock_keys = state.locks.map_values(
            |row: LockRecord| row.resource_key,
        );
        let mut tasks = StringHashSet::new();
        let mut i: usize = 0;
        while i < self.tasks.len()
            invariant
                state == self@,
                task_keys == state.tasks.map_values(|row: TaskRecord| row.id),
                i <= self.tasks.len(),
                collects(tasks@, task_keys.take(i as int)),
                forall|a: int, b: int|
                    0 <= a < b < i ==> (#[trigger] state.tasks[a]).id != (
                    #[trigger] state.tasks[b]).id,
            decreases self.tasks.len() - i,
        {
            let ghost seen = tasks@;
            assert(state.tasks[i as int] == self.tasks@[i as int]@);
            assert(task_keys.take(i + 1) =~= task_keys.take(i as int).push(
                self.tasks@[i as int].id@,
            ));
            proof {
                lemma_collect(seen, task_keys.take(i as int), self.tasks@[i as int].id@);
            }
            if !tasks.insert(self.tasks[i].id.clone()) {
                proof {
                    let a = choose|a: int|
                        0 <= a < task_keys.take(i as int).len() && #[trigger] task_keys.take(
                            i as int,
                        )[a] == state.tasks[i as int].id;
                    assert(state.tasks[a].id == state.tasks[i as int].id);
                }
                return false;
            }
            proof {
                assert forall|a: int| 0 <= a < i implies (#[trigger] state.tasks[a]).id
                    != state.tasks[i as int].id by {
                    assert(task_keys.take(i as int)[a] == state.tasks[a].id);
                }
            }
            i = i + 1;
        }
        let mut nodes = StringHashSet::new();
        let mut i: usize = 0;
        while i < self.nodes.len()
            invariant
                state == self@,
                node_keys == state.nodes.map_values(|row: NodeRecord| row.id),
                i <= self.nodes.len(),
                collects(nodes@, node_keys.take(i as int)),
                forall|a: int, b: int|
                    0 <= a < b < i ==> (#[trigger] state.nodes[a]).id != (
                    #[trigger] state.nodes[b]).id,
            decreases self.nodes.len() - i,
        {
            let ghost seen = nodes@;
            assert(state.nodes[i as int] == self.nodes@[i as int]@);
            assert(node_keys.take(i + 1) =~= node_keys.take(i as int).push(
                self.nodes@[i as int].id@,
            ));
            proof {
                lemma_collect(seen, node_keys.take(i as int), self.nodes@[i as int].id@);
            }
            if !nodes.insert(self.nodes[i].id.clone()) {
                proof {
                    let a = choose|a: int|
                        0 <= a < node_keys.take(i as int).len() && #[trigger] node_keys.take(
                            i as int,
                        )[a] == state.nodes[i as int].id;
                    assert(state.nodes[a].id == state.nodes[i as int].id);
                }
                return false;
            }
            proof {
                assert forall|a: int| 0 <= a < i implies (#[trigger] state.nodes[a]).id
                    != state.nodes[i as int].id by {
                    assert(node_keys.take(i as int)[a] == state.nodes[a].id);
                }
            }
            i = i + 1;
        }
        let mut events = StringHashSet::new();
        let mut i: usize = 0;
        while i < self.events.len()
            invariant
                state == self@,
                event_keys == state.events.map_values(|row: EventRecord| row.id),
                i <= self.events.len(),
                collects(events@, event_keys.take(i as int)),
                forall|a: int, b: int|
                    0 <= a < b < i ==> (#[trigger] state.events[a]).id != (
                    #[trigger] state.events[b]).id,
            decreases self.events.len() - i,
        {
            let ghost seen = events@;
            assert(state.events[i as int] == self.events@[i as int]@);
            assert(event_keys.take(i + 1) =~= event_keys.take(i as int).push(
                self.events@[i as int].id@,
            ));
            proof {
                lemma_collect(seen, event_keys.take(i as int), self.events@[i as int].id@);
            }
            if !events.insert(self.events[i].id.clone()) {
                proof {
                    let a = choose|a: int|
                        0 <= a < event_keys.take(i as int).len() && #[trigger] event_keys.take(
                            i as int,
                        )[a] == state.events[i as int].id;
                    assert(state.events[a].id == state.events[i as int].id);
                }
                return false;
            }
            proof {
                assert forall|a: int| 0 <= a < i implies (#[trigger] state.events[a]).id
                    != state.events[i as int].id by {
                    assert(event_keys.take(i as int)[a] == state.events[a].id);
                }
            }
            i = i + 1;
        }
        let mut locks = StringHashSet::new();
        let mut i: usize = 0;
        while i < self.locks.len()
            invariant
                state == self@,
                lock_keys == state.locks.map_values(|row: LockRecord| row.resource_key),
                i <= self.locks.len(),
                collects(locks@, lock_keys.take(i as int)),
                forall|a: int, b: int|
                    0 <= a < b < i ==> (#[trigger] state.locks[a]).resource_key != (
                    #[trigger] state.locks[b]).resource_key,
            decreases self.locks.len() - i,
        {
            let ghost seen = locks@;
            assert(state.locks[i as int] == self.locks@[i as int]@);
            assert(lock_keys.take(i + 1) =~= lock_keys.take(i as int).push(
                self.locks@[i as int].resource_key@,
            ));
            proof {
                lemma_collect(seen, lock_keys.take(i as int), self.locks@[i as int].resource_key@);
            }
            if !locks.insert(self.locks[i].resource_key.clone()) {
                proof {
                    let a = choose|a: int|
                        0 <= a < lock_keys.take(i as int).len() && #[trigger] lock_keys.take(
                            i as int,
                        )[a] == state.locks[i as int].resource_key;
                    assert(state.locks[a].resource_key == state.locks[i as int].resource_key);
                }
                return false;
            }
            proof {
                assert forall|a: int| 0 <= a < i implies (#[trigger] state.locks[a]).resource_key
                    != state.locks[i as int].resource_key by {
                    assert(lock_keys.take(i as int)[a] == state.locks[a].resource_key);
                }
            }
            i = i + 1;
        }
        true
    }
}

} // verus!
