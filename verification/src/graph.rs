//! Dependencies between the nodes of a task.

use crate::error::{DbError, DbFailure};
use crate::ids::{is_v4, Uuid};
use std::collections::{HashMap, HashSet};
use vstd::prelude::*;
use vstd::string::StringExecFns;

verus! {

broadcast use vstd::std_specs::hash::group_hash_axioms;

/// A node as its submitter describes it.
#[derive(Debug)]
pub struct NodeDefinition {
    pub id: Option<Uuid>,
    pub dependencies: Vec<Uuid>,
    pub payload_schema: serde_json::Value,
}

/// The numbers behind several identifiers.
pub open spec fn bits(ids: Seq<Uuid>) -> Seq<u128> {
    ids.map_values(|id: Uuid| id.bits)
}

/// What `key` points at in a graph.
pub open spec fn targets(graph: Map<u128, Seq<u128>>, key: u128) -> Seq<u128> {
    if graph.dom().contains(key) {
        graph[key]
    } else {
        Seq::empty()
    }
}

/// Each entry of `order` points at earlier entries only, and none is there twice.
pub open spec fn is_topological(order: Seq<u128>, graph: Map<u128, Seq<u128>>) -> bool {
    &&& order.no_duplicates()
    &&& forall|i: int, target: u128|
        0 <= i < order.len() && #[trigger] targets(graph, order[i]).contains(target) ==> order.take(
            i,
        ).contains(target)
}

/// The graph can be walked so that whatever a node points at comes before the node.
pub open spec fn is_acyclic(graph: Map<u128, Seq<u128>>) -> bool {
    exists|order: Seq<u128>| #[trigger]
        is_topological(order, graph) && graph.dom().subset_of(order.to_set())
}

/// Each entry of `path` points at the next.
pub open spec fn is_path(path: Seq<u128>, graph: Map<u128, Seq<u128>>) -> bool {
    forall|i: int| 0 <= i < path.len() - 1 ==> targets(graph, #[trigger] path[i]).contains(path[i + 1])
}

/// Going from node to node along `path` leads back to where it began.
pub open spec fn is_cycle(path: Seq<u128>, graph: Map<u128, Seq<u128>>) -> bool {
    &&& path.len() >= 2
    &&& path.first() == path.last()
    &&& is_path(path, graph)
}

/// The node lies on a cycle.
pub open spec fn is_on_cycle(key: u128, graph: Map<u128, Seq<u128>>) -> bool {
    exists|path: Seq<u128>| #[trigger] is_cycle(path, graph) && path.first() == key
}

/// The entries of `path` all stand in `order`, each behind the next.
proof fn lemma_path_descends(path: Seq<u128>, order: Seq<u128>, graph: Map<u128, Seq<u128>>, k: int)
    requires
        is_topological(order, graph),
        is_path(path, graph),
        0 <= k < path.len(),
        order.contains(path[0]),
    ensures
        order.contains(path[k]),
        k > 0 ==> order.index_of(path[k]) < order.index_of(path[0]),
    decreases k,
{
    if k > 0 {
        lemma_path_descends(path, order, graph, k - 1);
        let at = order.index_of(path[k - 1]);
        assert(order[at] == path[k - 1]);
        assert(targets(graph, path[k - 1]).contains(path[k - 1 + 1]));
        assert(targets(graph, order[at]).contains(path[k]));
        assert(order.take(at).contains(path[k]));
        let j = choose|j: int| 0 <= j < order.take(at).len() && order.take(at)[j] == path[k];
        assert(order[j] == path[k]);
        assert(order.index_of(path[k]) == j);
    }
}

/// An acyclic graph has no cycle.
pub proof fn acyclic_graph_has_no_cycle(graph: Map<u128, Seq<u128>>, path: Seq<u128>)
    requires
        is_acyclic(graph),
    ensures
        !is_cycle(path, graph),
{
    if is_cycle(path, graph) {
        let order = choose|order: Seq<u128>| #[trigger]
            is_topological(order, graph) && graph.dom().subset_of(order.to_set());
        assert(targets(graph, path[0]).contains(path[0int + 1]));
        assert(graph.dom().contains(path[0]));
        assert(order.to_set().contains(path[0]));
        lemma_path_descends(path, order, graph, path.len() - 1);
    }
}

/// No two nodes share an identifier.
pub open spec fn distinct_ids(nodes: Seq<(Uuid, NodeDefinition)>) -> bool {
    forall|i: int, j: int|
        0 <= i < j < nodes.len() ==> (#[trigger] nodes[i]).0 != (#[trigger] nodes[j]).0
}

/// Some node has the identifier.
pub open spec fn known_id(nodes: Seq<(Uuid, NodeDefinition)>, id: Uuid) -> bool {
    exists|i: int| 0 <= i < nodes.len() && (#[trigger] nodes[i]).0 == id
}

/// The place of the node with this number.
pub open spec fn place_of(nodes: Seq<(Uuid, NodeDefinition)>, key: u128) -> int {
    choose|i: int| 0 <= i < nodes.len() && (#[trigger] nodes[i]).0.bits == key
}

/// The graph that the nodes' dependencies make.
pub open spec fn dependency_graph(nodes: Seq<(Uuid, NodeDefinition)>) -> Map<u128, Seq<u128>> {
    Map::new(
        |key: u128| exists|i: int| 0 <= i < nodes.len() && (#[trigger] nodes[i]).0.bits == key,
        |key: u128| bits(nodes[place_of(nodes, key)].1.dependencies@),
    )
}

/// What `done` has beyond `base` can be put into an order in which each entry points at earlier
/// entries and into `base` only.
spec fn settled_over(done: Set<u128>, base: Set<u128>, graph: Map<u128, Seq<u128>>) -> bool {
    exists|order: Seq<u128>| #[trigger]
        is_order_over(order, base, graph) && order.to_set() =~= done.difference(base)
}

/// Each entry of `order` points at earlier entries and into `base` only, and none is there twice.
spec fn is_order_over(order: Seq<u128>, base: Set<u128>, graph: Map<u128, Seq<u128>>) -> bool {
    &&& order.no_duplicates()
    &&& forall|i: int, target: u128|
        0 <= i < order.len() && #[trigger] targets(graph, order[i]).contains(target)
            ==> base.contains(target) || order.take(i).contains(target)
}

/// Whatever a node of `done` points at is in `done`.
spec fn is_closed(done: Set<u128>, graph: Map<u128, Seq<u128>>) -> bool {
    forall|key: u128, target: u128|
        done.contains(key) && #[trigger] targets(graph, key).contains(target) ==> done.contains(
            target,
        )
}

/// Going from node to node, `from` leads to `to`, which may be `from` itself.
spec fn reaches(from: u128, to: u128, graph: Map<u128, Seq<u128>>) -> bool {
    exists|path: Seq<u128>| #[trigger]
        is_path(path, graph) && path.len() > 0 && path.first() == from && path.last() == to
}

/// The node and all that it leads to.
spec fn reached(from: u128, graph: Map<u128, Seq<u128>>) -> Set<u128> {
    Set::new(|key: u128| reaches(from, key, graph))
}

/// Walking from `from` past `done`, `path` meets a node under way or comes to one node twice.
spec fn is_stuck(
    path: Seq<u128>,
    from: u128,
    graph: Map<u128, Seq<u128>>,
    under_way: Set<u128>,
    done: Set<u128>,
) -> bool {
    &&& is_path(path, graph)
    &&& path.len() > 0
    &&& path.first() == from
    &&& forall|i: int| 0 <= i < path.len() ==> !done.contains(#[trigger] path[i])
    &&& (exists|i: int| 0 <= i < path.len() && under_way.contains(#[trigger] path[i]))
        || !path.no_duplicates()
}

/// Some walk from `from` past `done` meets a node under way or comes to one node twice.
spec fn gets_stuck(
    from: u128,
    graph: Map<u128, Seq<u128>>,
    under_way: Set<u128>,
    done: Set<u128>,
) -> bool {
    exists|path: Seq<u128>| #[trigger] is_stuck(path, from, graph, under_way, done)
}

/// A path that begins in a closed set stays in it.
proof fn lemma_path_stays(path: Seq<u128>, done: Set<u128>, graph: Map<u128, Seq<u128>>, k: int)
    requires
        is_closed(done, graph),
        is_path(path, graph),
        0 <= k < path.len(),
        done.contains(path[0]),
    ensures
        done.contains(path[k]),
    decreases k,
{
    if k > 0 {
        lemma_path_stays(path, done, graph, k - 1);
        assert(targets(graph, path[k - 1]).contains(path[k - 1 + 1]));
    }
}

/// What a node of a closed set reaches is in the set.
proof fn lemma_reached_stays(from: u128, done: Set<u128>, graph: Map<u128, Seq<u128>>)
    requires
        is_closed(done, graph),
        done.contains(from),
    ensures
        reached(from, graph).subset_of(done),
{
    assert forall|key: u128| reached(from, graph).contains(key) implies done.contains(key) by {
        let path = choose|path: Seq<u128>| #[trigger]
            is_path(path, graph) && path.len() > 0 && path.first() == from && path.last() == key;
        lemma_path_stays(path, done, graph, path.len() - 1);
    }
}

/// The path from a node on, with the node that points at it in front.
proof fn lemma_longer_path(from: u128, path: Seq<u128>, graph: Map<u128, Seq<u128>>)
    requires
        is_path(path, graph),
        path.len() > 0,
        targets(graph, from).contains(path.first()),
    ensures
        is_path(seq![from] + path, graph),
{
    let longer = seq![from] + path;
    assert forall|i: int| 0 <= i < longer.len() - 1 implies targets(
        graph,
        #[trigger] longer[i],
    ).contains(longer[i + 1]) by {
        if i == 0 {
            assert(longer[i + 1] == path[0]);
        } else {
            assert(longer[i] == path[i - 1]);
            assert(longer[i + 1] == path[i - 1 + 1]);
        }
    }
}

/// A node reaches what the nodes that it points at reach.
proof fn lemma_reached_through(from: u128, next: u128, graph: Map<u128, Seq<u128>>)
    requires
        targets(graph, from).contains(next),
    ensures
        reached(next, graph).subset_of(reached(from, graph)),
{
    assert forall|key: u128| reached(next, graph).contains(key) implies reached(
        from,
        graph,
    ).contains(key) by {
        let path = choose|path: Seq<u128>| #[trigger]
            is_path(path, graph) && path.len() > 0 && path.first() == next && path.last() == key;
        lemma_longer_path(from, path, graph);
        let longer = seq![from] + path;
        assert(longer.first() == from && longer.last() == key);
    }
}

/// A node reaches itself.
proof fn lemma_reaches_itself(key: u128, graph: Map<u128, Seq<u128>>)
    ensures
        reached(key, graph).contains(key),
{
    let path = seq![key];
    assert(is_path(path, graph));
    assert(path.first() == key && path.last() == key);
}

/// Whoever gets stuck behind a node gets stuck at the node before it.
proof fn lemma_stuck_behind(
    from: u128,
    next: u128,
    graph: Map<u128, Seq<u128>>,
    under_way: Set<u128>,
    done: Set<u128>,
    more: Set<u128>,
)
    requires
        targets(graph, from).contains(next),
        gets_stuck(next, graph, under_way.insert(from), more),
        done.subset_of(more),
        !done.contains(from),
    ensures
        gets_stuck(from, graph, under_way, done),
{
    let path = choose|path: Seq<u128>| #[trigger]
        is_stuck(path, next, graph, under_way.insert(from), more);
    lemma_longer_path(from, path, graph);
    let longer = seq![from] + path;
    assert forall|i: int| 0 <= i < longer.len() implies !done.contains(#[trigger] longer[i]) by {
        if i > 0 {
            assert(longer[i] == path[i - 1]);
        }
    }
    if path.no_duplicates() {
        let i = choose|i: int|
            0 <= i < path.len() && under_way.insert(from).contains(#[trigger] path[i]);
        assert(longer[i + 1] == path[i]);
        if path[i] == from {
            assert(longer[0] == longer[i + 1]);
            assert(!longer.no_duplicates());
        } else {
            assert(under_way.contains(longer[i + 1]));
        }
    } else {
        let (i, j) = choose|i: int, j: int|
            0 <= i < path.len() && 0 <= j < path.len() && i != j && path[i] == path[j];
        assert(longer[i + 1] == longer[j + 1]);
        assert(!longer.no_duplicates());
    }
    assert(is_stuck(longer, from, graph, under_way, done));
}

/// The entries of a path past `base` all stand in `order`, each behind the next.
proof fn lemma_path_descends_over(
    path: Seq<u128>,
    order: Seq<u128>,
    base: Set<u128>,
    graph: Map<u128, Seq<u128>>,
    i: int,
    k: int,
)
    requires
        is_order_over(order, base, graph),
        is_path(path, graph),
        0 <= i <= k < path.len(),
        forall|j: int| 0 <= j < path.len() ==> !base.contains(#[trigger] path[j]),
        order.contains(path[i]),
    ensures
        order.contains(path[k]),
        k > i ==> order.index_of(path[k]) < order.index_of(path[i]),
    decreases k - i,
{
    if k > i {
        lemma_path_descends_over(path, order, base, graph, i, k - 1);
        let at = order.index_of(path[k - 1]);
        assert(order[at] == path[k - 1]);
        assert(targets(graph, path[k - 1]).contains(path[k - 1 + 1]));
        assert(targets(graph, order[at]).contains(path[k]));
        assert(order.take(at).contains(path[k]));
        let j = choose|j: int| 0 <= j < order.take(at).len() && order.take(at)[j] == path[k];
        assert(order[j] == path[k]);
        assert(order.index_of(path[k]) == j);
    }
}

/// Nobody gets stuck on the way to what is settled, closed and apart from the nodes under way.
proof fn lemma_not_stuck(
    from: u128,
    graph: Map<u128, Seq<u128>>,
    under_way: Set<u128>,
    base: Set<u128>,
    done: Set<u128>,
)
    requires
        settled_over(done, base, graph),
        is_closed(done, graph),
        done.disjoint(under_way),
        done.contains(from),
    ensures
        !gets_stuck(from, graph, under_way, base),
{
    if gets_stuck(from, graph, under_way, base) {
        let path = choose|path: Seq<u128>| #[trigger] is_stuck(path, from, graph, under_way, base);
        let order = choose|order: Seq<u128>| #[trigger]
            is_order_over(order, base, graph) && order.to_set() =~= done.difference(base);
        assert forall|i: int| 0 <= i < path.len() implies done.contains(#[trigger] path[i]) by {
            lemma_path_stays(path, done, graph, i);
        }
        assert(!path.no_duplicates());
        let (i, j) = choose|i: int, j: int|
            0 <= i < path.len() && 0 <= j < path.len() && i != j && path[i] == path[j];
        let low = if i < j { i } else { j };
        let high = if i < j { j } else { i };
        assert(order.to_set().contains(path[low]));
        lemma_path_descends_over(path, order, base, graph, low, high);
    }
}

/// The nodes under way make a path that leads to `next`.
spec fn leads_to(under_way: Set<u128>, next: u128, graph: Map<u128, Seq<u128>>) -> bool {
    exists|path: Seq<u128>| #[trigger]
        is_path(path, graph) && path.to_set() =~= under_way && (path.len() > 0 ==> targets(
            graph,
            path.last(),
        ).contains(next))
}

/// The index holds the place of every node.
spec fn indexes(index: Map<u128, usize>, nodes: Seq<(Uuid, NodeDefinition)>) -> bool {
    &&& forall|key: u128| #[trigger]
        index.dom().contains(key) ==> 0 <= index[key] < nodes.len() && nodes[index[key] as int].0.bits
            == key
    &&& forall|i: int|
        0 <= i < nodes.len() ==> index.dom().contains((#[trigger] nodes[i]).0.bits)
}

proof fn lemma_settle(done: Set<u128>, base: Set<u128>, key: u128, graph: Map<u128, Seq<u128>>)
    requires
        settled_over(done, base, graph),
        base.subset_of(done),
        forall|target: u128| #[trigger] targets(graph, key).contains(target) ==> done.contains(target),
    ensures
        settled_over(done.insert(key), base, graph),
{
    let order = choose|order: Seq<u128>| #[trigger]
        is_order_over(order, base, graph) && order.to_set() =~= done.difference(base);
    let rest = done.insert(key).difference(base);
    if done.contains(key) {
        assert(order.to_set() =~= rest);
    } else {
        let longer = order.push(key);
        assert(!order.contains(key)) by {
            if order.contains(key) {
                assert(order.to_set().contains(key));
            }
        }
        assert forall|i: int, target: u128|
            0 <= i < longer.len() && #[trigger] targets(graph, longer[i]).contains(
                target,
            ) implies base.contains(target) || longer.take(i).contains(target) by {
            if i < order.len() {
                assert(longer[i] == order[i]);
                assert(longer.take(i) =~= order.take(i));
            } else {
                assert(longer.take(i) =~= order);
                if !base.contains(target) {
                    assert(order.to_set().contains(target));
                }
            }
        }
        assert(longer.to_set() =~= rest) by {
            assert forall|k: u128| longer.to_set().contains(k) <==> rest.contains(k) by {
                if rest.contains(k) && k != key {
                    assert(order.to_set().contains(k));
                    let j = choose|j: int| 0 <= j < order.len() && order[j] == k;
                    assert(longer[j] == k);
                }
                if k == key {
                    assert(longer[order.len() as int] == k);
                }
                if longer.contains(k) && k != key {
                    let j = choose|j: int| 0 <= j < longer.len() && longer[j] == k;
                    assert(order[j] == k);
                    assert(order.to_set().contains(k));
                }
            }
        }
        assert(is_order_over(longer, base, graph));
    }
}

/// What is settled over a set that is settled over a third is settled over the third.
proof fn lemma_settle_further(
    done: Set<u128>,
    middle: Set<u128>,
    base: Set<u128>,
    graph: Map<u128, Seq<u128>>,
)
    requires
        settled_over(middle, base, graph),
        settled_over(done, middle, graph),
        base.subset_of(middle),
        middle.subset_of(done),
    ensures
        settled_over(done, base, graph),
{
    let first = choose|order: Seq<u128>| #[trigger]
        is_order_over(order, base, graph) && order.to_set() =~= middle.difference(base);
    let second = choose|order: Seq<u128>| #[trigger]
        is_order_over(order, middle, graph) && order.to_set() =~= done.difference(middle);
    let both = first + second;
    let rest = done.difference(base);
    let n = first.len() as int;
    assert forall|i: int, j: int| 0 <= i < j < both.len() implies both[i] != both[j] by {
        if i < n && j >= n {
            assert(both[i] == first[i]);
            assert(both[j] == second[j - n]);
            assert(first.to_set().contains(first[i]));
            assert(second.to_set().contains(second[j - n]));
        } else if i >= n {
            assert(both[i] == second[i - n]);
            assert(both[j] == second[j - n]);
        }
    }
    assert(both.no_duplicates());
    assert forall|i: int, target: u128|
        0 <= i < both.len() && #[trigger] targets(graph, both[i]).contains(
            target,
        ) implies base.contains(target) || both.take(i).contains(target) by {
        if i < n {
            assert(both[i] == first[i]);
            assert(both.take(i) =~= first.take(i));
        } else {
            assert(both[i] == second[i - n]);
            assert(both.take(i) =~= first + second.take(i - n));
            if middle.contains(target) {
                if !base.contains(target) {
                    assert(first.to_set().contains(target));
                    let k = choose|k: int| 0 <= k < first.len() && first[k] == target;
                    assert(both.take(i)[k] == target);
                }
            } else {
                let before = second.take(i - n);
                assert(before.contains(target));
                let k = choose|k: int| 0 <= k < before.len() && before[k] == target;
                assert(both.take(i)[n + k] == target);
            }
        }
    }
    assert(both.to_set() =~= rest) by {
        assert forall|k: u128| both.to_set().contains(k) <==> rest.contains(k) by {
            if both.contains(k) {
                let j = choose|j: int| 0 <= j < both.len() && both[j] == k;
                if j < n {
                    assert(first[j] == k);
                    assert(first.to_set().contains(k));
                } else {
                    assert(second[j - n] == k);
                    assert(second.to_set().contains(k));
                }
            }
            if rest.contains(k) {
                if middle.contains(k) {
                    assert(first.to_set().contains(k));
                    let j = choose|j: int| 0 <= j < first.len() && first[j] == k;
                    assert(both[j] == k);
                } else {
                    assert(second.to_set().contains(k));
                    let j = choose|j: int| 0 <= j < second.len() && second[j] == k;
                    assert(both[n + j] == k);
                }
            }
        }
    }
    assert(is_order_over(both, base, graph));
}

/// A set is settled over itself.
proof fn lemma_settled_over_itself(done: Set<u128>, graph: Map<u128, Seq<u128>>)
    ensures
        settled_over(done, done, graph),
{
    let order = Seq::<u128>::empty();
    assert(order.to_set() =~= done.difference(done));
    assert(is_order_over(order, done, graph));
}

proof fn lemma_step(
    under_way: Set<u128>,
    key: u128,
    graph: Map<u128, Seq<u128>>,
)
    requires
        leads_to(under_way, key, graph),
    ensures
        forall|target: u128| #[trigger]
            targets(graph, key).contains(target) ==> leads_to(under_way.insert(key), target, graph),
{
    assert forall|target: u128| #[trigger] targets(graph, key).contains(target) implies leads_to(
        under_way.insert(key),
        target,
        graph,
    ) by {
        let path = choose|path: Seq<u128>| #[trigger]
            is_path(path, graph) && path.to_set() =~= under_way && (path.len() > 0 ==> targets(
                graph,
                path.last(),
            ).contains(key));
        let longer = path.push(key);
        assert forall|i: int| 0 <= i < longer.len() - 1 implies targets(
            graph,
            #[trigger] longer[i],
        ).contains(longer[i + 1]) by {
            assert(longer[i] == path[i]);
            if i + 1 < path.len() {
                assert(longer[i + 1] == path[i + 1]);
            }
        }
        assert(is_path(longer, graph));
        assert(longer.to_set() =~= under_way.insert(key)) by {
            assert forall|k: u128| longer.to_set().contains(k) <==> under_way.insert(key).contains(
                k,
            ) by {
                if under_way.contains(k) {
                    assert(path.to_set().contains(k));
                    let j = choose|j: int| 0 <= j < path.len() && path[j] == k;
                    assert(longer[j] == k);
                }
                if k == key {
                    assert(longer[path.len() as int] == k);
                }
                if longer.contains(k) && k != key {
                    let j = choose|j: int| 0 <= j < longer.len() && longer[j] == k;
                    assert(path[j] == k);
                    assert(path.to_set().contains(k));
                }
            }
        }
        assert(longer.last() == key);
    }
}

proof fn lemma_back_edge(under_way: Set<u128>, key: u128, graph: Map<u128, Seq<u128>>)
    requires
        leads_to(under_way, key, graph),
        under_way.contains(key),
    ensures
        is_on_cycle(key, graph),
{
    let path = choose|path: Seq<u128>| #[trigger]
        is_path(path, graph) && path.to_set() =~= under_way && (path.len() > 0 ==> targets(
            graph,
            path.last(),
        ).contains(key));
    assert(path.to_set().contains(key));
    let at = choose|at: int| 0 <= at < path.len() && path[at] == key;
    let back = path.skip(at).push(key);
    assert forall|i: int| 0 <= i < back.len() - 1 implies targets(
        graph,
        #[trigger] back[i],
    ).contains(back[i + 1]) by {
        assert(back[i] == path[at + i]);
        if i + 1 < back.len() - 1 {
            assert(back[i + 1] == path[at + i + 1]);
        } else {
            assert(path[at + i] == path.last());
        }
    }
    assert(is_path(back, graph));
    assert(back.first() == key && back.last() == key);
    assert(is_cycle(back, graph));
}

/// The graph points from a node at what the node depends on.
pub(crate) proof fn lemma_targets(nodes: Seq<(Uuid, NodeDefinition)>, at: int)
    requires
        distinct_ids(nodes),
        0 <= at < nodes.len(),
    ensures
        dependency_graph(nodes).dom().contains(nodes[at].0.bits),
        dependency_graph(nodes).dom().finite(),
        targets(dependency_graph(nodes), nodes[at].0.bits) == bits(nodes[at].1.dependencies@),
{
    let key = nodes[at].0.bits;
    let found = place_of(nodes, key);
    assert(nodes[at].0.bits == key);
    assert(nodes[found].0.bits == key);
    if found < at {
        assert(nodes[found].0 != nodes[at].0);
    } else if at < found {
        assert(nodes[at].0 != nodes[found].0);
    }
    let keys = nodes.map_values(|node: (Uuid, NodeDefinition)| node.0.bits);
    assert(dependency_graph(nodes).dom() =~= keys.to_set()) by {
        assert forall|k: u128| dependency_graph(nodes).dom().contains(k) <==> keys.to_set().contains(
            k,
        ) by {
            if dependency_graph(nodes).dom().contains(k) {
                let i = choose|i: int| 0 <= i < nodes.len() && (#[trigger] nodes[i]).0.bits == k;
                assert(keys[i] == k);
            }
            if keys.contains(k) {
                let i = choose|i: int| 0 <= i < keys.len() && keys[i] == k;
                assert(nodes[i].0.bits == k);
            }
        }
    }
    vstd::seq_lib::seq_to_set_is_finite(keys);
}

proof fn lemma_fewer_left(all: Set<u128>, seen: Set<u128>, key: u128)
    requires
        all.finite(),
        all.contains(key),
        !seen.contains(key),
    ensures
        all.difference(seen.insert(key)).len() < all.difference(seen).len(),
{
    assert(all.difference(seen.insert(key)) =~= all.difference(seen).remove(key));
}

/// Walks to everything that `node_id` depends on, then settles `node_id`.
///
/// The walk fails where it gets stuck, and names a node on a cycle if the nodes under way make a
/// path that leads to `node_id`.
fn visit_node(
    node_id: Uuid,
    nodes: &Vec<(Uuid, NodeDefinition)>,
    index: &HashMap<u128, usize>,
    temporary: &mut HashSet<u128>,
    permanent: &mut HashSet<u128>,
) -> (res: Result<(), DbError>)
    requires
        distinct_ids(nodes@),
        indexes(index@, nodes@),
        old(permanent)@.disjoint(old(temporary)@),
        is_closed(old(permanent)@, dependency_graph(nodes@)),
    ensures
        res is Ok ==> {
            &&& final(temporary)@ =~= old(temporary)@
            &&& final(permanent)@ =~= old(permanent)@.union(
                reached(node_id.bits, dependency_graph(nodes@)),
            )
            &&& final(permanent)@.disjoint(final(temporary)@)
            &&& is_closed(final(permanent)@, dependency_graph(nodes@))
            &&& settled_over(final(permanent)@, old(permanent)@, dependency_graph(nodes@))
        },
        res is Err <==> gets_stuck(
            node_id.bits,
            dependency_graph(nodes@),
            old(temporary)@,
            old(permanent)@,
        ),
        res matches Err(err) ==> exists|id: Uuid|
            err@ == (DbFailure::InvalidState("cycle detected at node "@ + #[trigger] id@)) && (
            leads_to(old(temporary)@, node_id.bits, dependency_graph(nodes@)) ==> is_on_cycle(
                id.bits,
                dependency_graph(nodes@),
            )),
    decreases dependency_graph(nodes@).dom().difference(old(temporary)@).len(),
{
    let ghost graph = dependency_graph(nodes@);
    let ghost before = permanent@;
    let ghost under_way = temporary@;
    let ghost led = leads_to(under_way, node_id.bits, graph);
    proof {
        lemma_settled_over_itself(before, graph);
        lemma_reaches_itself(node_id.bits, graph);
    }
    if permanent.contains(&node_id.bits) {
        proof {
            lemma_reached_stays(node_id.bits, before, graph);
            lemma_not_stuck(node_id.bits, graph, under_way, before, before);
        }
        return Ok(());
    }
    if !temporary.insert(node_id.bits) {
        proof {
            if led {
                lemma_back_edge(under_way, node_id.bits, graph);
            }
            let path = seq![node_id.bits];
            assert(under_way.contains(path[0]));
            assert(is_stuck(path, node_id.bits, graph, under_way, before));
        }
        return Err(
            DbError::InvalidState(
                "cycle detected at node ".to_owned().concat(node_id.to_string().as_str()),
            ),
        );
    }
    if let Some(at) = index.get(&node_id.bits) {
        let at: usize = *at;
        let dependencies = &nodes[at].1.dependencies;
        proof {
            if led {
                lemma_step(under_way, node_id.bits, graph);
            }
            lemma_targets(nodes@, at as int);
        }
        let mut i: usize = 0;
        while i < dependencies.len()
            invariant
                graph == dependency_graph(nodes@),
                before == old(permanent)@,
                under_way == old(temporary)@,
                led == leads_to(under_way, node_id.bits, graph),
                distinct_ids(nodes@),
                indexes(index@, nodes@),
                graph.dom().finite(),
                at < nodes.len(),
                nodes@[at as int].0 == node_id,
                dependencies == &nodes@[at as int].1.dependencies,
                targets(graph, node_id.bits) == bits(dependencies@),
                graph.dom().contains(node_id.bits),
                !under_way.contains(node_id.bits),
                !before.contains(node_id.bits),
                i <= dependencies.len(),
                temporary@ == under_way.insert(node_id.bits),
                permanent@.disjoint(temporary@),
                is_closed(permanent@, graph),
                settled_over(permanent@, before, graph),
                before.subset_of(permanent@),
                permanent@.subset_of(before.union(reached(node_id.bits, graph))),
                forall|k: int| 0 <= k < i ==> permanent@.contains((#[trigger] dependencies@[k]).bits),
                led ==> forall|target: u128| #[trigger]
                    targets(graph, node_id.bits).contains(target) ==> leads_to(
                        under_way.insert(node_id.bits),
                        target,
                        graph,
                    ),
            decreases dependencies.len() - i,
        {
            let ghost next = dependencies@[i as int].bits;
            let ghost middle = permanent@;
            proof {
                assert(bits(dependencies@)[i as int] == next);
                assert(targets(graph, node_id.bits).contains(next));
                lemma_fewer_left(graph.dom(), under_way, node_id.bits);
                lemma_reached_through(node_id.bits, next, graph);
                lemma_reaches_itself(next, graph);
            }
            match visit_node(dependencies[i], nodes, index, temporary, permanent) {
                Ok(()) => {},
                Err(err) => {
                    proof {
                        lemma_stuck_behind(
                            node_id.bits,
                            next,
                            graph,
                            under_way,
                            before,
                            middle,
                        );
                    }
                    return Err(err);
                },
            }
            proof {
                lemma_settle_further(permanent@, middle, before, graph);
            }
            i = i + 1;
        }
        proof {
            assert forall|target: u128| #[trigger]
                targets(graph, node_id.bits).contains(target) implies permanent@.contains(target) by {
                let k = choose|k: int|
                    0 <= k < bits(dependencies@).len() && bits(dependencies@)[k] == target;
                assert(dependencies@[k].bits == target);
            }
        }
    } else {
        proof {
            assert(!graph.dom().contains(node_id.bits));
        }
    }
    proof {
        lemma_settle(permanent@, before, node_id.bits, graph);
    }
    temporary.remove(&node_id.bits);
    permanent.insert(node_id.bits);
    proof {
        lemma_reached_stays(node_id.bits, permanent@, graph);
        lemma_not_stuck(node_id.bits, graph, under_way, before, permanent@);
    }
    Ok(())
}

/// Accepts the nodes when their dependencies make no cycle, and names a node on a cycle if they
/// do.
pub fn ensure_acyclic(nodes: &Vec<(Uuid, NodeDefinition)>) -> (res: Result<(), DbError>)
    requires
        distinct_ids(nodes@),
    ensures
        res is Ok <==> is_acyclic(dependency_graph(nodes@)),
        res matches Err(err) ==> names_cycle(err@, nodes@),
{
    let ghost graph = dependency_graph(nodes@);
    let mut index: HashMap<u128, usize> = HashMap::new();
    let mut n: usize = 0;
    while n < nodes.len()
        invariant
            distinct_ids(nodes@),
            n <= nodes.len(),
            indexes(index@, nodes@.take(n as int)),
        decreases nodes.len() - n,
    {
        proof {
            assert(nodes@.take(n + 1) =~= nodes@.take(n as int).push(nodes@[n as int]));
        }
        let ghost before = index@;
        index.insert(nodes[n].0.bits, n);
        n = n + 1;
        proof {
            assert forall|i: int| 0 <= i < n implies index@.dom().contains(
                (#[trigger] nodes@.take(n as int)[i]).0.bits,
            ) by {
                if i < n - 1 {
                    assert(nodes@.take(n - 1)[i] == nodes@[i]);
                }
            }
            assert forall|key: u128| #[trigger] index@.dom().contains(key) implies 0 <= index@[key]
                < n && nodes@.take(n as int)[index@[key] as int].0.bits == key by {
                if key != nodes@[n - 1].0.bits {
                    assert(before.dom().contains(key));
                    assert(nodes@.take(n - 1)[before[key] as int] == nodes@[before[key] as int]);
                }
            }
        }
    }
    let mut permanent: HashSet<u128> = HashSet::new();
    let mut temporary: HashSet<u128> = HashSet::new();
    proof {
        assert(nodes@.take(n as int) == nodes@);
        assert(permanent@ =~= Set::<u128>::empty());
        lemma_settled_over_itself(permanent@, graph);
    }
    let mut i: usize = 0;
    while i < nodes.len()
        invariant
            graph == dependency_graph(nodes@),
            distinct_ids(nodes@),
            indexes(index@, nodes@),
            i <= nodes.len(),
            temporary@ =~= Set::<u128>::empty(),
            is_closed(permanent@, graph),
            settled_over(permanent@, Set::empty(), graph),
            forall|k: int| 0 <= k < i ==> permanent@.contains((#[trigger] nodes@[k]).0.bits),
        decreases nodes.len() - i,
    {
        let ghost middle = permanent@;
        proof {
            let start = Seq::<u128>::empty();
            assert(is_path(start, graph) && start.to_set() =~= temporary@);
            lemma_reaches_itself(nodes@[i as int].0.bits, graph);
        }
        match visit_node(nodes[i].0, nodes, &index, &mut temporary, &mut permanent) {
            Ok(()) => {},
            Err(err) => {
                proof {
                    let id = choose|id: Uuid|
                        is_on_cycle(id.bits, graph) && err@ == (DbFailure::InvalidState(
                            "cycle detected at node "@ + #[trigger] id@,
                        ));
                    let path = choose|path: Seq<u128>| #[trigger]
                        is_cycle(path, graph) && path.first() == id.bits;
                    if is_acyclic(graph) {
                        acyclic_graph_has_no_cycle(graph, path);
                    }
                }
                return Err(err);
            },
        }
        proof {
            lemma_settle_further(permanent@, middle, Set::empty(), graph);
        }
        i = i + 1;
    }
    proof {
        let base = Set::<u128>::empty();
        let order = choose|order: Seq<u128>| #[trigger]
            is_order_over(order, base, graph) && order.to_set() =~= permanent@.difference(base);
        assert(is_topological(order, graph));
        assert(graph.dom().subset_of(order.to_set())) by {
            assert forall|key: u128| graph.dom().contains(key) implies order.to_set().contains(
                key,
            ) by {
                let k = choose|k: int| 0 <= k < nodes@.len() && (#[trigger] nodes@[k]).0.bits == key;
                assert(permanent@.contains(nodes@[k].0.bits));
            }
        }
    }
    Ok(())
}

/// The failure names a node that lies on a cycle.
pub open spec fn names_cycle(failure: DbFailure, nodes: Seq<(Uuid, NodeDefinition)>) -> bool {
    exists|id: Uuid|
        is_on_cycle(id.bits, dependency_graph(nodes)) && failure == (DbFailure::InvalidState(
            "cycle detected at node "@ + #[trigger] id@,
        ))
}

/// An earlier node already has the identifier of the node at `i`.
pub open spec fn repeats(nodes: Seq<(Uuid, NodeDefinition)>, i: int) -> bool {
    exists|j: int| 0 <= j < i && (#[trigger] nodes[j]).0 == nodes[i].0
}

/// What is wrong with dependency `j` of the node at `i`, if anything is.
pub open spec fn dependency_fault(nodes: Seq<(Uuid, NodeDefinition)>, i: int, j: int) -> Option<
    Seq<char>,
> {
    let id = nodes[i].0;
    let dependency = nodes[i].1.dependencies@[j];
    if dependency == id {
        Some("node "@ + id@ + " cannot depend on itself"@)
    } else if !known_id(nodes, dependency) {
        Some("node "@ + id@ + " depends on unknown node "@ + dependency@)
    } else {
        None
    }
}

/// No dependency of the node at `i` before its `upto`th has a fault.
pub open spec fn sound_upto(nodes: Seq<(Uuid, NodeDefinition)>, i: int, upto: int) -> bool {
    forall|j: int| 0 <= j < upto ==> #[trigger] dependency_fault(nodes, i, j) is None
}

/// No node before the one at `upto` has a faulty dependency.
pub open spec fn all_sound(nodes: Seq<(Uuid, NodeDefinition)>, upto: int) -> bool {
    forall|i: int|
        0 <= i < upto ==> sound_upto(nodes, i, (#[trigger] nodes[i]).1.dependencies@.len() as int)
}

/// The nodes can make a task: no identifier twice, every dependency another node of the task, and
/// no cycle.
pub open spec fn is_dag(nodes: Seq<(Uuid, NodeDefinition)>) -> bool {
    &&& distinct_ids(nodes)
    &&& all_sound(nodes, nodes.len() as int)
    &&& is_acyclic(dependency_graph(nodes))
}

/// `failure` is what the nodes are refused with: the first repeated identifier; failing that, the
/// first faulty dependency; failing that, some node on a cycle.
pub open spec fn refused_with(nodes: Seq<(Uuid, NodeDefinition)>, failure: DbFailure) -> bool {
    ||| exists|i: int|
        0 <= i < nodes.len() && repeats(nodes, i) && (forall|k: int|
            0 <= k < i ==> !#[trigger] repeats(nodes, k)) && failure == (DbFailure::InvalidState(
            "duplicate node id: "@ + (#[trigger] nodes[i]).0@,
        ))
    ||| distinct_ids(nodes) && exists|i: int, j: int|
        {
            &&& 0 <= i < nodes.len()
            &&& 0 <= j < nodes[i].1.dependencies@.len()
            &&& all_sound(nodes, i)
            &&& sound_upto(nodes, i, j)
            &&& (#[trigger] dependency_fault(nodes, i, j)) matches Some(text)
            &&& failure == DbFailure::InvalidState(text)
        }
    ||| distinct_ids(nodes) && all_sound(nodes, nodes.len() as int) && names_cycle(failure, nodes)
}

/// Each node has the identifier that its definition asks for, or a random one where it asks for
/// none; all else is as defined.
pub open spec fn materialised(
    definitions: Seq<NodeDefinition>,
    nodes: Seq<(Uuid, NodeDefinition)>,
) -> bool {
    &&& nodes.len() == definitions.len()
    &&& forall|i: int|
        0 <= i < nodes.len() ==> {
            &&& (#[trigger] nodes[i]).1.id is None
            &&& nodes[i].1.dependencies == definitions[i].dependencies
            &&& nodes[i].1.payload_schema == definitions[i].payload_schema
            &&& definitions[i].id matches Some(id) ==> nodes[i].0 == id
            &&& definitions[i].id is None ==> is_v4(nodes[i].0)
        }
}

/// Accepts nodes that can make a task, and says what is wrong with others.
pub fn validate_nodes(nodes: &Vec<(Uuid, NodeDefinition)>) -> (res: Result<(), DbError>)
    ensures
        res is Ok <==> is_dag(nodes@),
        res matches Err(err) ==> refused_with(nodes@, err@),
{
    let mut seen: HashSet<u128> = HashSet::new();
    let mut n: usize = 0;
    while n < nodes.len()
        invariant
            n <= nodes.len(),
            forall|k: int| 0 <= k < n ==> seen@.contains((#[trigger] nodes@[k]).0.bits),
            forall|key: u128| #[trigger]
                seen@.contains(key) ==> exists|k: int|
                    0 <= k < n && (#[trigger] nodes@[k]).0.bits == key,
            forall|k: int| 0 <= k < n ==> !#[trigger] repeats(nodes@, k),
        decreases nodes.len() - n,
    {
        let node_id = nodes[n].0;
        let ghost before = seen@;
        if !seen.insert(node_id.bits) {
            proof {
                let j = choose|j: int| 0 <= j < n && (#[trigger] nodes@[j]).0.bits == node_id.bits;
                assert(nodes@[j].0 == nodes@[n as int].0);
                assert(repeats(nodes@, n as int));
            }
            return Err(
                DbError::InvalidState(
                    "duplicate node id: ".to_owned().concat(node_id.to_string().as_str()),
                ),
            );
        }
        proof {
            assert(!repeats(nodes@, n as int)) by {
                if repeats(nodes@, n as int) {
                    let j = choose|j: int| 0 <= j < n && (#[trigger] nodes@[j]).0 == node_id;
                    assert(before.contains(nodes@[j].0.bits));
                }
            }
            assert(nodes@[n as int].0.bits == node_id.bits);
        }
        n = n + 1;
    }
    proof {
        assert forall|i: int, j: int| 0 <= i < j < nodes@.len() implies (#[trigger] nodes@[i]).0
            != (#[trigger] nodes@[j]).0 by {
            if nodes@[i].0 == nodes@[j].0 {
                assert(repeats(nodes@, j));
            }
        }
    }
    let mut i: usize = 0;
    while i < nodes.len()
        invariant
            i <= nodes.len(),
            distinct_ids(nodes@),
            all_sound(nodes@, i as int),
            forall|k: int| 0 <= k < nodes@.len() ==> seen@.contains((#[trigger] nodes@[k]).0.bits),
            forall|key: u128| #[trigger]
                seen@.contains(key) ==> exists|k: int|
                    0 <= k < nodes@.len() && (#[trigger] nodes@[k]).0.bits == key,
        decreases nodes.len() - i,
    {
        let node_id = nodes[i].0;
        let dependencies = &nodes[i].1.dependencies;
        let mut j: usize = 0;
        while j < dependencies.len()
            invariant
                i < nodes.len(),
                node_id == nodes@[i as int].0,
                dependencies == &nodes@[i as int].1.dependencies,
                j <= dependencies.len(),
                distinct_ids(nodes@),
                all_sound(nodes@, i as int),
                sound_upto(nodes@, i as int, j as int),
                forall|k: int|
                    0 <= k < nodes@.len() ==> seen@.contains((#[trigger] nodes@[k]).0.bits),
                forall|key: u128| #[trigger]
                    seen@.contains(key) ==> exists|k: int|
                        0 <= k < nodes@.len() && (#[trigger] nodes@[k]).0.bits == key,
            decreases dependencies.len() - j,
        {
            let dependency_id = dependencies[j];
            if dependency_id == node_id {
                proof {
                    assert(dependency_fault(nodes@, i as int, j as int) is Some);
                    not_a_dag(nodes@, i as int, j as int);
                }
                return Err(
                    DbError::InvalidState(
                        "node ".to_owned().concat(node_id.to_string().as_str()).concat(
                            " cannot depend on itself",
                        ),
                    ),
                );
            }
            if !seen.contains(&dependency_id.bits) {
                proof {
                    assert(!known_id(nodes@, dependency_id));
                    assert(dependency_fault(nodes@, i as int, j as int) is Some);
                    not_a_dag(nodes@, i as int, j as int);
                }
                return Err(
                    DbError::InvalidState(
                        "node ".to_owned().concat(node_id.to_string().as_str()).concat(
                            " depends on unknown node ",
                        ).concat(dependency_id.to_string().as_str()),
                    ),
                );
            }
            proof {
                let k = choose|k: int|
                    0 <= k < nodes@.len() && (#[trigger] nodes@[k]).0.bits == dependency_id.bits;
                assert(nodes@[k].0 == dependency_id);
            }
            j = j + 1;
        }
        i = i + 1;
    }
    ensure_acyclic(nodes)
}

proof fn not_a_dag(nodes: Seq<(Uuid, NodeDefinition)>, i: int, j: int)
    requires
        0 <= i < nodes.len(),
        0 <= j < nodes[i].1.dependencies@.len(),
        dependency_fault(nodes, i, j) is Some,
    ensures
        !is_dag(nodes),
{
    if all_sound(nodes, nodes.len() as int) {
        assert(sound_upto(nodes, i, nodes[i].1.dependencies@.len() as int));
    }
}

/// Gives every node an identifier, a fresh one where its definition has none.
fn assign_ids(initial_nodes: Vec<NodeDefinition>) -> (nodes: Vec<(Uuid, NodeDefinition)>)
    ensures
        materialised(initial_nodes@, nodes@),
{
    let ghost definitions = initial_nodes@;
    let mut nodes: Vec<(Uuid, NodeDefinition)> = Vec::new();
    for node in it: initial_nodes
        invariant
            it.seq() == definitions,
            materialised(definitions.take(it.index()), nodes@),
    {
        let ghost before = nodes@;
        let node_id = match node.id {
            Some(id) => id,
            None => Uuid::new_v4(),
        };
        nodes.push(
            (
                node_id,
                NodeDefinition {
                    id: None,
                    dependencies: node.dependencies,
                    payload_schema: node.payload_schema,
                },
            ),
        );
        proof {
            let k = it.index();
            assert forall|i: int| 0 <= i < nodes@.len() implies {
                &&& (#[trigger] nodes@[i]).1.id is None
                &&& nodes@[i].1.dependencies == definitions.take(k + 1)[i].dependencies
                &&& nodes@[i].1.payload_schema == definitions.take(k + 1)[i].payload_schema
                &&& definitions.take(k + 1)[i].id matches Some(id) ==> nodes@[i].0 == id
                &&& definitions.take(k + 1)[i].id is None ==> is_v4(nodes@[i].0)
            } by {
                if i < k {
                    assert(nodes@[i] == before[i]);
                    assert(definitions.take(k + 1)[i] == definitions.take(k)[i]);
                }
            }
        }
    }
    assert(definitions.take(definitions.len() as int) == definitions);
    nodes
}

/// Turns definitions into the nodes of a task: gives each an identifier and checks that together
/// they make a directed acyclic graph.
pub fn materialise_nodes(initial_nodes: Vec<NodeDefinition>) -> (res: Result<
    Vec<(Uuid, NodeDefinition)>,
    DbError,
>)
    ensures
        res matches Ok(nodes) ==> materialised(initial_nodes@, nodes@) && is_dag(nodes@),
        res matches Err(err) ==> exists|nodes: Seq<(Uuid, NodeDefinition)>|
            #[trigger] materialised(initial_nodes@, nodes) && !is_dag(nodes) && refused_with(
                nodes,
                err@,
            ),
{
    let nodes = assign_ids(initial_nodes);
    match validate_nodes(&nodes) {
        Ok(()) => Ok(nodes),
        Err(err) => Err(err),
    }
}

} // verus!
