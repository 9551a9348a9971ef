//! Ordering the operations of a region: a dependency graph over the
//! operations (each one after its predecessor and after the producers of its
//! inputs) is sorted topologically with petgraph.
use vstd::prelude::*;

use petgraph::graph::Graph;
use petgraph::graph::NodeIndex;
use petgraph::Directed;
use std::collections::HashMap;

verus! {

//------------------------------------------------------------------------------
// petgraph, as far as the scheduler uses it.
//------------------------------------------------------------------------------

#[verifier::external_type_specification]
#[verifier::external_body]
#[verifier::reject_recursive_types(N)]
#[verifier::reject_recursive_types(E)]
#[verifier::reject_recursive_types(Ty)]
#[verifier::reject_recursive_types(Ix)]
pub struct ExGraph<N, E, Ty, Ix>(Graph<N, E, Ty, Ix>);

#[verifier::external_type_specification]
#[verifier::external_body]
pub struct ExDirected(Directed);

/// The node weights of a dependency graph, by node index.
pub uninterp spec fn graph_nodes(g: Graph<usize, (), Directed, usize>) -> Seq<usize>;

/// The edges (source, target) of a dependency graph, in the order added.
pub uninterp spec fn graph_edges(g: Graph<usize, (), Directed, usize>) -> Seq<(usize, usize)>;

/// `order` lists every node of a graph with `n` nodes exactly once, and
/// each edge's source comes before its target.
pub open spec fn is_topological_order(order: Seq<usize>, n: nat, edges: Seq<(usize, usize)>) -> bool {
    &&& order.len() == n
    &&& order.no_duplicates()
    &&& forall|v: usize| (v as int) < n ==> #[trigger] order.contains(v)
    &&& forall|k: int, i: int, j: int|
        #![trigger edges[k], order[i], order[j]]
        0 <= k < edges.len() && 0 <= i < n && 0 <= j < n && order[i] == edges[k].0 && order[j]
            == edges[k].1 ==> i < j
}

/// The graph with `n` nodes and these edges is acyclic.
pub open spec fn has_topological_order(n: nat, edges: Seq<(usize, usize)>) -> bool {
    exists|order: Seq<usize>| is_topological_order(order, n, edges)
}

/// An empty directed graph (`Graph::default`, with `usize` indices so that
/// adding nodes never runs out of indices).
///
/// Trusted: petgraph's `default` builds a graph with no nodes and no edges.
#[verifier::external_body]
fn new_graph() -> (g: Graph<usize, (), Directed, usize>)
    ensures
        graph_nodes(g) == Seq::<usize>::empty(),
        graph_edges(g) == Seq::<(usize, usize)>::empty(),
{
    Graph::default()
}

/// Adds a node (`Graph::add_node`) and gives back its index.
///
/// Trusted: petgraph appends the node to its node list, so the new index is
/// the former node count; with `usize` indices it never fails.
#[verifier::external_body]
fn add_node(g: &mut Graph<usize, (), Directed, usize>, weight: usize) -> (i: usize)
    ensures
        i == graph_nodes(*old(g)).len(),
        graph_nodes(*final(g)) == graph_nodes(*old(g)).push(weight),
        graph_edges(*final(g)) == graph_edges(*old(g)),
{
    g.add_node(weight).index()
}

/// Adds an edge from node `a` to node `b` (`Graph::add_edge`).
///
/// Trusted: petgraph appends the edge to its edge list; it panics when a node
/// does not exist, which `requires` rules out.
#[verifier::external_body]
fn add_edge(g: &mut Graph<usize, (), Directed, usize>, a: usize, b: usize)
    requires
        a < graph_nodes(*old(g)).len(),
        b < graph_nodes(*old(g)).len(),
    ensures
        graph_nodes(*final(g)) == graph_nodes(*old(g)),
        graph_edges(*final(g)) == graph_edges(*old(g)).push((a, b)),
{
    g.add_edge(NodeIndex::new(a), NodeIndex::new(b), ());
}

/// Sorts the nodes topologically (`petgraph::algo::toposort`).
///
/// Trusted: petgraph documents that it returns the nodes in topological
/// order (each before its successors) when the graph is acyclic, and a node
/// of a cycle otherwise (a self loop counts as a cycle). Which topological
/// order, and which node of a cycle, is left unsaid.
#[verifier::external_body]
fn toposort(g: &Graph<usize, (), Directed, usize>) -> (r: Result<Vec<usize>, usize>)
    ensures
        match r {
            Ok(order) => is_topological_order(order@, graph_nodes(*g).len(), graph_edges(*g)),
            Err(node) => node < graph_nodes(*g).len() && !has_topological_order(
                graph_nodes(*g).len(),
                graph_edges(*g),
            ),
        },
{
    match petgraph::algo::toposort(g, None) {
        Ok(order) => Ok(order.into_iter().map(|node| node.index()).collect()),
        Err(cycle) => Err(cycle.node_id().index()),
    }
}

//------------------------------------------------------------------------------
// Scheduling.
//------------------------------------------------------------------------------

/// The place of the last operation whose id is `id`, or -1 when none has it.
pub open spec fn last_producer(ids: Seq<u64>, id: u64) -> int
    decreases ids.len(),
{
    if ids.len() == 0 {
        -1
    } else if ids.last() == id {
        ids.len() - 1
    } else {
        last_producer(ids.drop_last(), id)
    }
}

/// Every input of every operation is produced, if by an operation of the
/// region at all, by one placed before it.
pub open spec fn dependencies_ordered(ids: Seq<u64>, inputs: Seq<Seq<u64>>) -> bool {
    forall|i: int, k: int|
        0 <= i < inputs.len() && 0 <= k < inputs[i].len() ==> last_producer(ids, #[trigger] inputs[i][k])
            < i
}

/// The edge from the operation before `v` to `v`.
pub open spec fn chain_edge(v: int) -> (usize, usize) {
    ((v - 1) as usize, v as usize)
}

/// The operations in their own order, `0..n`.
pub open spec fn in_place(n: nat) -> Seq<usize> {
    Seq::new(n, |i: int| i as usize)
}

proof fn lemma_last_producer_bounds(ids: Seq<u64>, id: u64)
    ensures
        -1 <= last_producer(ids, id) < ids.len(),
        last_producer(ids, id) >= 0 ==> ids[last_producer(ids, id)] == id,
    decreases ids.len(),
{
    if ids.len() > 0 && ids.last() != id {
        lemma_last_producer_bounds(ids.drop_last(), id);
    }
}

proof fn lemma_last_producer_push(ids: Seq<u64>, x: u64, id: u64)
    ensures
        last_producer(ids.push(x), id) == if x == id {
            ids.len() as int
        } else {
            last_producer(ids, id)
        },
{
    assert(ids.push(x).drop_last() =~= ids);
}

/// The place of the last operation with each id, by id.
fn last_producers(ids: &Vec<u64>) -> (m: HashMap<u64, usize>)
    ensures
        forall|id: u64| #[trigger] m@.contains_key(id) <==> last_producer(ids@, id) >= 0,
        forall|id: u64| m@.contains_key(id) ==> m@[id] == last_producer(ids@, id),
{
    broadcast use vstd::std_specs::hash::group_hash_axioms;

    let mut m: HashMap<u64, usize> = HashMap::new();
    let mut i: usize = 0;
    while i < ids.len()
        invariant
            i <= ids.len(),
            forall|id: u64| #[trigger] m@.contains_key(id) <==> last_producer(ids@.take(i as int), id) >= 0,
            forall|id: u64| m@.contains_key(id) ==> m@[id] == last_producer(ids@.take(i as int), id),
        decreases ids.len() - i,
    {
        let ghost before = ids@.take(i as int);
        m.insert(ids[i], i);
        proof {
            assert(ids@.take(i + 1) =~= before.push(ids@[i as int]));
            assert forall|id: u64| #[trigger] m@.contains_key(id) <==> last_producer(ids@.take(i + 1), id) >= 0 by {
                lemma_last_producer_push(before, ids@[i as int], id);
                lemma_last_producer_bounds(before, id);
            }
            assert forall|id: u64| m@.contains_key(id) implies m@[id] == last_producer(ids@.take(i + 1), id) by {
                lemma_last_producer_push(before, ids@[i as int], id);
            }
        }
        i = i + 1;
    }
    assert(ids@.take(ids.len() as int) =~= ids@);
    m
}

/// The place of `v` in `order`.
spec fn position(order: Seq<usize>, v: int) -> int {
    choose|i: int| 0 <= i < order.len() && order[i] == v as usize
}

proof fn lemma_position(order: Seq<usize>, v: int)
    requires
        order.contains(v as usize),
    ensures
        0 <= position(order, v) < order.len(),
        order[position(order, v)] == v as usize,
{
}

proof fn lemma_positions_increase(order: Seq<usize>, n: nat, edges: Seq<(usize, usize)>, v: int)
    requires
        is_topological_order(order, n, edges),
        forall|i: int| 1 <= i < n ==> edges.contains(chain_edge(i)),
        1 <= v < n,
    ensures
        position(order, v - 1) < position(order, v),
{
    lemma_position(order, v - 1);
    lemma_position(order, v);
    let e = chain_edge(v);
    assert(edges.contains(e));
    let k = choose|k: int| 0 <= k < edges.len() && edges[k] == e;
    assert(order[position(order, v - 1)] == edges[k].0);
    assert(order[position(order, v)] == edges[k].1);
}

proof fn lemma_position_at_least(order: Seq<usize>, n: nat, edges: Seq<(usize, usize)>, v: int)
    requires
        is_topological_order(order, n, edges),
        forall|i: int| 1 <= i < n ==> edges.contains(chain_edge(i)),
        0 <= v < n,
    ensures
        position(order, v) >= v,
    decreases v,
{
    lemma_position(order, v);
    if v > 0 {
        lemma_position_at_least(order, n, edges, v - 1);
        lemma_positions_increase(order, n, edges, v);
    }
}

proof fn lemma_position_at_most(order: Seq<usize>, n: nat, edges: Seq<(usize, usize)>, v: int)
    requires
        is_topological_order(order, n, edges),
        forall|i: int| 1 <= i < n ==> edges.contains(chain_edge(i)),
        0 <= v < n,
    ensures
        position(order, v) <= v,
    decreases n - v,
{
    lemma_position(order, v);
    if v + 1 < n {
        lemma_position_at_most(order, n, edges, v + 1);
        lemma_positions_increase(order, n, edges, v + 1);
    }
}

/// A topological order of a graph that chains its nodes `0 -> 1 -> ... -> n-1`
/// is that chain.
proof fn lemma_chain_forces_order(order: Seq<usize>, n: nat, edges: Seq<(usize, usize)>)
    requires
        is_topological_order(order, n, edges),
        n <= usize::MAX + 1,
        forall|i: int| 1 <= i < n ==> edges.contains(chain_edge(i)),
    ensures
        order == in_place(n),
{
    assert forall|v: int| 0 <= v < n implies order[v] == v as usize by {
        lemma_position_at_least(order, n, edges, v);
        lemma_position_at_most(order, n, edges, v);
        lemma_position(order, v);
    }
    assert(order =~= in_place(n));
}

proof fn lemma_in_place_is_topological(n: nat, edges: Seq<(usize, usize)>)
    requires
        n <= usize::MAX + 1,
        forall|e: (usize, usize)| edges.contains(e) ==> e.0 < e.1,
    ensures
        is_topological_order(in_place(n), n, edges),
{
    let order = in_place(n);
    assert forall|v: usize| (v as int) < n implies #[trigger] order.contains(v) by {
        assert(order[v as int] == v);
    }
    assert forall|k: int, i: int, j: int|
        #![trigger edges[k], order[i], order[j]]
        0 <= k < edges.len() && 0 <= i < n && 0 <= j < n && order[i] == edges[k].0 && order[j]
            == edges[k].1 implies i < j by {
        assert(edges.contains(edges[k]));
    }
}

/// Orders the operations of a region, given each operation's id and the ids
/// of the operations that produce its inputs: each operation must come after
/// the one before it and after the last operation with the id of each of its
/// inputs. That leaves no order but the given one, so the result is either
/// the operations in place or, when an input is produced at or after its
/// consumer, a node of the cycle that this makes.
pub fn schedule(ids: &Vec<u64>, inputs: &Vec<Vec<u64>>) -> (r: Result<Vec<usize>, usize>)
    requires
        ids.len() == inputs.len(),
    ensures
        match r {
            Ok(order) => order@ == in_place(ids.len() as nat) && dependencies_ordered(
                ids@,
                inputs@.map_values(|v: Vec<u64>| v@),
            ),
            Err(node) => node < ids.len() && !dependencies_ordered(
                ids@,
                inputs@.map_values(|v: Vec<u64>| v@),
            ),
        },
{
    let ghost deps = inputs@.map_values(|v: Vec<u64>| v@);
    let n = ids.len();
    let mut graph = new_graph();
    let mut i: usize = 0;
    while i < n
        invariant
            n == ids.len(),
            i <= n,
            graph_nodes(graph) == in_place(i as nat),
            forall|v: int| 1 <= v < i ==> graph_edges(graph).contains(chain_edge(v)),
            forall|e: (usize, usize)| graph_edges(graph).contains(e) ==> e.0 < e.1,
        decreases n - i,
    {
        let ghost before = graph_edges(graph);
        let node = add_node(&mut graph, i);
        assert(graph_nodes(graph) =~= in_place((i + 1) as nat));
        if i > 0 {
            add_edge(&mut graph, node - 1, node);
            assert forall|e: (usize, usize)| graph_edges(graph).contains(e) implies e.0 < e.1 by {
                if !before.contains(e) {
                    assert(graph_edges(graph).last() == e);
                }
            }
            assert(graph_edges(graph).contains(chain_edge(i as int))) by {
                assert(graph_edges(graph).last() == ((i - 1) as usize, i as usize));
            }
            assert forall|v: int| 1 <= v < i implies graph_edges(graph).contains(
                chain_edge(v),
            ) by {
                assert(before.contains(chain_edge(v)));
                let j = choose|j: int| 0 <= j < before.len() && before[j] == chain_edge(v);
                assert(graph_edges(graph)[j] == before[j]);
            }
        }
        i = i + 1;
    }
    let producers = last_producers(ids);
    let mut c: usize = 0;
    while c < n
        invariant
            forall|id: u64| #[trigger] producers@.contains_key(id) <==> last_producer(ids@, id) >= 0,
            forall|id: u64| producers@.contains_key(id) ==> producers@[id] == last_producer(ids@, id),
            n == ids.len(),
            n == inputs.len(),
            deps == inputs@.map_values(|v: Vec<u64>| v@),
            c <= n,
            graph_nodes(graph) == in_place(n as nat),
            forall|v: int| 1 <= v < n ==> graph_edges(graph).contains(chain_edge(v)),
            forall|e: (usize, usize)|
                graph_edges(graph).contains(e) ==> (e.0 < e.1 || !dependencies_ordered(ids@, deps)),
            forall|a: int, k: int|
                0 <= a < c && 0 <= k < deps[a].len() && last_producer(ids@, #[trigger] deps[a][k]) >= 0
                    ==> graph_edges(graph).contains(
                    (last_producer(ids@, deps[a][k]) as usize, a as usize),
                ),
        decreases n - c,
    {
        let ins = &inputs[c];
        assert(deps[c as int] == ins@);
        let mut k: usize = 0;
        while k < ins.len()
            invariant
                forall|id: u64| #[trigger] producers@.contains_key(id) <==> last_producer(ids@, id) >= 0,
                forall|id: u64| producers@.contains_key(id) ==> producers@[id] == last_producer(ids@, id),
                n == ids.len(),
                n == inputs.len(),
                deps == inputs@.map_values(|v: Vec<u64>| v@),
                deps[c as int] == ins@,
                c < n,
                k <= ins.len(),
                graph_nodes(graph) == in_place(n as nat),
                forall|v: int|
                    1 <= v < n ==> graph_edges(graph).contains(chain_edge(v)),
                forall|e: (usize, usize)|
                    graph_edges(graph).contains(e) ==> (e.0 < e.1 || !dependencies_ordered(
                        ids@,
                        deps,
                    )),
                forall|a: int, q: int|
                    0 <= a < c && 0 <= q < deps[a].len() && last_producer(
                        ids@,
                        #[trigger] deps[a][q],
                    ) >= 0 ==> graph_edges(graph).contains(
                        (last_producer(ids@, deps[a][q]) as usize, a as usize),
                    ),
                forall|q: int|
                    0 <= q < k && last_producer(ids@, #[trigger] deps[c as int][q]) >= 0
                        ==> graph_edges(graph).contains(
                        (last_producer(ids@, deps[c as int][q]) as usize, c),
                    ),
            decreases ins.len() - k,
        {
            let x = ins[k];
            proof {
                lemma_last_producer_bounds(ids@, x);
            }
            let found = {
                broadcast use vstd::std_specs::hash::group_hash_axioms;

                producers.get(&x)
            };
            match found {
                Some(p) => {
                    let p = *p;
                    let ghost before = graph_edges(graph);
                    add_edge(&mut graph, p, c);
                    proof {
                        let now = graph_edges(graph);
                        assert(now.last() == (p, c));
                        assert forall|e: (usize, usize)| before.contains(e) implies now.contains(e) by {
                            let j = choose|j: int| 0 <= j < before.len() && before[j] == e;
                            assert(now[j] == before[j]);
                        }
                        assert forall|e: (usize, usize)| now.contains(e) implies (e.0 < e.1
                            || !dependencies_ordered(ids@, deps)) by {
                            if !before.contains(e) {
                                let j = choose|j: int| 0 <= j < now.len() && now[j] == e;
                                assert(j == now.len() - 1);
                                if dependencies_ordered(ids@, deps) {
                                    assert(last_producer(ids@, deps[c as int][k as int]) < c);
                                }
                            }
                        }
                        assert(now.contains((p, c)));
                    }
                },
                None => {},
            }
            k = k + 1;
        }
        c = c + 1;
    }
    proof {
        assert(n <= usize::MAX);
    }
    match toposort(&graph) {
        Ok(order) => {
            proof {
                lemma_chain_forces_order(order@, n as nat, graph_edges(graph));
                assert forall|a: int, q: int|
                    0 <= a < deps.len() && 0 <= q < deps[a].len() implies last_producer(
                    ids@,
                    #[trigger] deps[a][q],
                ) < a by {
                    let p = last_producer(ids@, deps[a][q]);
                    lemma_last_producer_bounds(ids@, deps[a][q]);
                    if p >= 0 {
                        let e = (p as usize, a as usize);
                        let es = graph_edges(graph);
                        assert(es.contains(e));
                        let m = choose|m: int| 0 <= m < es.len() && es[m] == e;
                        assert(order@[p] == es[m].0);
                        assert(order@[a] == es[m].1);
                    }
                }
            }
            Ok(order)
        },
        Err(node) => {
            proof {
                if dependencies_ordered(ids@, deps) {
                    lemma_in_place_is_topological(n as nat, graph_edges(graph));
                }
            }
            Err(node)
        },
    }
}

} // verus!
