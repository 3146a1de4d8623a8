//! Directed graphs over positions `0..n`, given by successor lists.

use vstd::prelude::*;

verus! {

/// The graph that a table of successor lists stands for.
pub open spec fn graph_of(adj: Seq<Vec<usize>>) -> Seq<Seq<int>> {
    Seq::new(adj.len(), |i: int| Seq::new(adj[i]@.len(), |k: int| adj[i]@[k] as int))
}

/// Every successor is a node of the graph.
pub open spec fn closed(g: Seq<Seq<int>>) -> bool {
    forall|a: int, k: int|
        0 <= a < g.len() && 0 <= k < g[a].len() ==> 0 <= #[trigger] g[a][k] < g.len()
}

/// `b` is a successor of `a`.
pub open spec fn has_edge(g: Seq<Seq<int>>, a: int, b: int) -> bool {
    &&& 0 <= a < g.len()
    &&& exists|k: int| 0 <= k < g[a].len() && #[trigger] g[a][k] == b
}

/// The position after `t` on a round trip of `len` steps.
pub open spec fn next_on(t: int, len: int) -> int {
    if t + 1 < len {
        t + 1
    } else {
        0
    }
}

/// `path` is a round trip: each node has the next one as a successor, and
/// the last one has the first.
pub open spec fn is_cycle(g: Seq<Seq<int>>, path: Seq<int>) -> bool {
    &&& path.len() > 0
    &&& forall|t: int|
        0 <= t < path.len() ==> has_edge(g, #[trigger] path[t], path[next_on(t, path.len() as int)])
}

/// No round trip exists.
pub open spec fn acyclic(g: Seq<Seq<int>>) -> bool {
    forall|path: Seq<int>| !is_cycle(g, path)
}

/// `rank` falls along every edge.
pub open spec fn ranked(g: Seq<Seq<int>>, rank: Seq<int>) -> bool {
    &&& rank.len() == g.len()
    &&& forall|a: int| 0 <= a < g.len() ==> 0 <= #[trigger] rank[a]
    &&& forall|a: int, k: int|
        0 <= a < g.len() && 0 <= k < g[a].len() ==> rank[#[trigger] g[a][k]] < rank[a]
}

proof fn lemma_rank_falls(g: Seq<Seq<int>>, rank: Seq<int>, path: Seq<int>, t: int)
    requires
        closed(g),
        ranked(g, rank),
        is_cycle(g, path),
        0 <= t < path.len(),
    ensures
        0 <= path[t] < g.len(),
        rank[path[t]] <= rank[path[0]] - t,
    decreases t,
{
    assert(has_edge(g, path[t], path[next_on(t, path.len() as int)]));
    if t > 0 {
        lemma_rank_falls(g, rank, path, t - 1);
        assert(has_edge(g, path[t - 1], path[next_on(t - 1, path.len() as int)]));
        let k = choose|k: int| 0 <= k < g[path[t - 1]].len() && #[trigger] g[path[t - 1]][k] == path[t];
        assert(rank[g[path[t - 1]][k]] < rank[path[t - 1]]);
    }
}

/// A graph whose edges all lead down in some ranking has no round trip.
pub proof fn lemma_ranked_acyclic(g: Seq<Seq<int>>, rank: Seq<int>)
    requires
        closed(g),
        ranked(g, rank),
    ensures
        acyclic(g),
{
    assert forall|path: Seq<int>| !is_cycle(g, path) by {
        if is_cycle(g, path) {
            let last = path.len() - 1;
            lemma_rank_falls(g, rank, path, last);
            assert(has_edge(g, path[last], path[next_on(last, path.len() as int)]));
            let k = choose|k: int| 0 <= k < g[path[last]].len() && #[trigger] g[path[last]][k] == path[0];
            assert(rank[g[path[last]][k]] < rank[path[last]]);
        }
    }
}

/// How many nodes are still unvisited.
spec fn whites(color: Seq<u8>) -> nat
    decreases color.len(),
{
    if color.len() == 0 {
        0
    } else {
        whites(color.drop_last()) + if color.last() == 0 {
            1nat
        } else {
            0nat
        }
    }
}

proof fn lemma_whites_update(color: Seq<u8>, u: int, c: u8)
    requires
        0 <= u < color.len(),
        c != 0,
    ensures
        whites(color.update(u, c)) == whites(color) - if color[u] == 0 {
            1int
        } else {
            0int
        },
        color[u] == 0 ==> whites(color) > 0,
    decreases color.len(),
{
    let next = color.update(u, c);
    if u == color.len() - 1 {
        assert(next.drop_last() =~= color.drop_last());
    } else {
        assert(next.drop_last() =~= color.drop_last().update(u, c));
        lemma_whites_update(color.drop_last(), u, c);
    }
}

/// What the search knows between two steps: finished nodes lead only to
/// nodes finished before them, and the nodes in progress form the chain
/// `stack`.
spec fn search_inv(
    g: Seq<Seq<int>>,
    color: Seq<u8>,
    rank: Seq<int>,
    clock: int,
    stack: Seq<int>,
) -> bool {
    &&& color.len() == g.len()
    &&& rank.len() == g.len()
    &&& clock >= 0
    &&& forall|a: int| 0 <= a < g.len() ==> 0 <= #[trigger] rank[a]
    &&& forall|a: int| 0 <= a < g.len() ==> #[trigger] color[a] <= 2
    &&& forall|a: int| 0 <= a < g.len() && color[a] == 2 ==> #[trigger] rank[a] < clock
    &&& forall|a: int, k: int|
        0 <= a < g.len() && color[a] == 2 && 0 <= k < g[a].len() ==> color[#[trigger] g[a][k]]
            == 2 && rank[g[a][k]] < rank[a]
    &&& forall|t: int| 0 <= t < stack.len() ==> 0 <= #[trigger] stack[t] < g.len()
    &&& forall|t: int| 0 <= t < stack.len() - 1 ==> has_edge(g, #[trigger] stack[t], stack[t + 1])
    &&& forall|a: int| 0 <= a < g.len() && #[trigger] color[a] == 1 ==> stack.contains(a)
}

/// Searches everything reachable from the unvisited node `u`.
///
/// Gives the node at which a round trip closes, or `None` once `u` and all
/// that it leads to are finished.
fn visit(
    adj: &Vec<Vec<usize>>,
    u: usize,
    color: &mut Vec<u8>,
    Ghost(stack): Ghost<Seq<int>>,
    Ghost(rank): Ghost<Seq<int>>,
    Ghost(clock): Ghost<int>,
) -> (r: (Option<usize>, Ghost<Seq<int>>, Ghost<int>))
    requires
        closed(graph_of(adj@)),
        search_inv(graph_of(adj@), old(color)@, rank, clock, stack),
        u < adj.len(),
        old(color)@[u as int] == 0,
        stack.len() > 0 ==> has_edge(graph_of(adj@), stack.last(), u as int),
    ensures
        match r.0 {
            Some(v) => v < adj.len() && exists|path: Seq<int>|
                is_cycle(graph_of(adj@), path) && path[0] == v as int,
            None => {
                &&& search_inv(graph_of(adj@), final(color)@, r.1@, r.2@, stack)
                &&& final(color)@[u as int] == 2
                &&& whites(final(color)@) < whites(old(color)@)
                &&& r.2@ >= clock
                &&& forall|a: int|
                    0 <= a < adj.len() ==> ((#[trigger] old(color)@[a] == 1) == (final(color)@[a]
                        == 1))
                &&& forall|a: int|
                    0 <= a < adj.len() && #[trigger] old(color)@[a] == 2 ==> final(color)@[a] == 2
                        && r.1@[a] == rank[a]
            },
        },
    decreases whites(old(color)@),
{
    let ghost g = graph_of(adj@);
    let ghost entry = color@;
    let ghost chain = stack.push(u as int);
    let ghost rank0 = rank;
    let ghost clock0 = clock;
    let ghost mut rank = rank;
    let ghost mut clock = clock;
    color.set(u, 1);
    proof {
        lemma_whites_update(entry, u as int, 1);
        assert(chain.last() == u as int);
        assert forall|a: int| 0 <= a < g.len() && #[trigger] color@[a] == 1 implies chain.contains(
            a,
        ) by {
            if a == u as int {
                assert(chain[chain.len() - 1] == a);
            } else {
                assert(entry[a] == 1);
                let t = choose|t: int| 0 <= t < stack.len() && stack[t] == a;
                assert(chain[t] == a);
            }
        }
        assert forall|t: int| 0 <= t < chain.len() - 1 implies has_edge(
            g,
            #[trigger] chain[t],
            chain[t + 1],
        ) by {
            if t < stack.len() - 1 {
                assert(has_edge(g, stack[t], stack[t + 1]));
            }
        }
        assert forall|a: int, k: int|
            0 <= a < g.len() && color@[a] == 2 && 0 <= k < g[a].len() implies color@[#[trigger] g[a][k]]
            == 2 && rank[g[a][k]] < rank[a] by {
            assert(entry[a] == 2);
            assert(entry[g[a][k]] == 2);
        }
    }
    let mut k: usize = 0;
    while k < adj[u as usize].len()
        invariant
            u < adj.len(),
            k <= adj[u as int]@.len(),
            g == graph_of(adj@),
            closed(g),
            chain == stack.push(u as int),
            search_inv(g, color@, rank, clock, chain),
            color@[u as int] == 1,
            whites(color@) < whites(entry),
            forall|j: int| 0 <= j < k ==> color@[#[trigger] g[u as int][j]] == 2,
            forall|a: int|
                0 <= a < adj.len() && a != u ==> ((#[trigger] entry[a] == 1) == (color@[a] == 1)),
            forall|a: int|
                0 <= a < adj.len() && #[trigger] entry[a] == 2 ==> color@[a] == 2 && rank[a]
                    == rank0[a],
            clock >= clock0,
            entry.len() == adj.len(),
            rank0.len() == adj.len(),
            entry == old(color)@,
        decreases adj[u as int]@.len() - k,
    {
        let v = adj[u][k];
        assert(g[u as int][k as int] == v as int);
        assert(has_edge(g, u as int, v as int));
        if color[v] == 0 {
            let ghost before = color@;
            let ghost rank_before = rank;
            let sub = visit(adj, v, color, Ghost(chain), Ghost(rank), Ghost(clock));
            match sub.0 {
                Some(c) => {
                    return (Some(c), Ghost(rank), Ghost(clock));
                },
                None => {
                    proof {
                        rank = sub.1@;
                        clock = sub.2@;
                        assert forall|j: int| 0 <= j < k + 1 implies color@[#[trigger] g[u as int][j]]
                            == 2 by {
                            if j < k {
                                assert(before[g[u as int][j]] == 2);
                            }
                        }
                    }
                },
            }
        } else if color[v] == 1 {
            proof {
                assert(chain.contains(v as int));
                let j = choose|j: int| 0 <= j < chain.len() && chain[j] == v as int;
                let path = chain.subrange(j, chain.len() as int);
                assert forall|t: int| 0 <= t < path.len() implies has_edge(
                    g,
                    #[trigger] path[t],
                    path[next_on(t, path.len() as int)],
                ) by {
                    if t + 1 < path.len() {
                        assert(has_edge(g, chain[j + t], chain[j + t + 1]));
                    }
                }
                assert(is_cycle(g, path) && path[0] == v as int);
            }
            return (Some(v), Ghost(rank), Ghost(clock));
        }
        k += 1;
    }
    let ghost before = color@;
    let ghost rank_before = rank;
    color.set(u, 2);
    proof {
        lemma_whites_update(before, u as int, 2);
        rank = rank.update(u as int, clock);
        clock = clock + 1;
        assert forall|a: int, j: int|
            0 <= a < g.len() && color@[a] == 2 && 0 <= j < g[a].len() implies color@[#[trigger] g[a][j]]
            == 2 && rank[g[a][j]] < rank[a] by {
            if a == u as int {
                assert(before[g[a][j]] == 2);
                assert(rank_before[g[a][j]] < clock - 1);
            } else {
                assert(before[a] == 2);
                assert(before[g[a][j]] == 2);
            }
        }
        assert forall|a: int| 0 <= a < g.len() && #[trigger] color@[a] == 1 implies stack.contains(
            a,
        ) by {
            assert(before[a] == 1);
            let t = choose|t: int| 0 <= t < chain.len() && chain[t] == a;
            assert(stack[t] == a);
        }
        assert forall|t: int| 0 <= t < stack.len() - 1 implies has_edge(
            g,
            #[trigger] stack[t],
            stack[t + 1],
        ) by {
            assert(has_edge(g, chain[t], chain[t + 1]));
        }
        assert forall|t: int| 0 <= t < stack.len() implies 0 <= #[trigger] stack[t] < g.len() by {
            assert(chain[t] == stack[t]);
        }
    }
    (None, Ghost(rank), Ghost(clock))
}

/// Some ranking falls along every edge: the graph can be put in order.
pub open spec fn orderable(g: Seq<Seq<int>>) -> bool {
    exists|rank: Seq<int>| ranked(g, rank)
}

/// Looks for a round trip in the graph.
///
/// Gives `None` exactly when there is none, and otherwise a node that lies
/// on one. A graph without a round trip can be put in order.
pub fn find_cycle(adj: &Vec<Vec<usize>>) -> (r: Option<usize>)
    requires
        closed(graph_of(adj@)),
    ensures
        r is None <==> acyclic(graph_of(adj@)),
        r is None ==> orderable(graph_of(adj@)),
        r matches Some(v) ==> v < adj.len() && exists|path: Seq<int>|
            is_cycle(graph_of(adj@), path) && path[0] == v as int,
{
    let ghost g = graph_of(adj@);
    let mut color: Vec<u8> = Vec::new();
    let mut i: usize = 0;
    while i < adj.len()
        invariant
            i <= adj.len(),
            color@.len() == i,
            forall|a: int| 0 <= a < i ==> color@[a] == 0,
        decreases adj.len() - i,
    {
        color.push(0);
        i += 1;
    }
    let ghost mut rank: Seq<int> = Seq::new(adj.len() as nat, |a: int| 0int);
    let ghost mut clock: int = 0;
    let ghost empty: Seq<int> = Seq::empty();
    let mut u: usize = 0;
    while u < adj.len()
        invariant
            u <= adj.len(),
            g == graph_of(adj@),
            closed(g),
            empty == Seq::<int>::empty(),
            search_inv(g, color@, rank, clock, empty),
            forall|a: int| 0 <= a < u ==> color@[a] == 2,
        decreases adj.len() - u,
    {
        if color[u] == 0 {
            let ghost before = color@;
            let sub = visit(adj, u, &mut color, Ghost(empty), Ghost(rank), Ghost(clock));
            proof {
                if sub.0 is None {
                    assert forall|a: int| 0 <= a < u + 1 implies color@[a] == 2 by {
                        if a < u {
                            assert(before[a] == 2);
                        }
                    }
                }
            }
            match sub.0 {
                Some(c) => {
                    proof {
                        let path = choose|path: Seq<int>| is_cycle(g, path) && path[0] == c as int;
                        assert(!acyclic(g));
                    }
                    return Some(c);
                },
                None => {
                    proof {
                        rank = sub.1@;
                        clock = sub.2@;
                    }
                },
            }
        } else {
            assert(color@[u as int] != 1) by {
                if color@[u as int] == 1 {
                    assert(empty.contains(u as int));
                }
            }
            assert(color@[u as int] == 2);
        }
        u += 1;
    }
    proof {
        assert(ranked(g, rank));
        lemma_ranked_acyclic(g, rank);
    }
    None
}

/// Every successor of `i` stands among the first `upto` entries of `queue`.
pub open spec fn deps_among(g: Seq<Seq<int>>, queue: Seq<int>, upto: int, i: int) -> bool {
    forall|k: int| 0 <= k < g[i].len() ==> queue.take(upto).contains(#[trigger] g[i][k])
}

/// `queue` after node `i` was looked at while `queue[h]` is being taken:
/// `i` joins the end when it leads to `queue[h]`, is not queued yet, and
/// everything it leads to has been taken.
pub open spec fn enlist(g: Seq<Seq<int>>, queue: Seq<int>, h: int, i: int) -> Seq<int> {
    if g[i].contains(queue[h]) && !queue.contains(i) && deps_among(g, queue, h + 1, i) {
        queue.push(i)
    } else {
        queue
    }
}

/// `queue` after the nodes below `upto` were looked at, in rising order.
pub open spec fn sweep(g: Seq<Seq<int>>, queue: Seq<int>, h: int, upto: int) -> Seq<int>
    decreases upto,
{
    if upto <= 0 {
        queue
    } else {
        enlist(g, sweep(g, queue, h, upto - 1), h, upto - 1)
    }
}

/// The nodes below `upto` that lead nowhere, in rising order.
pub open spec fn seeds(g: Seq<Seq<int>>, upto: int) -> Seq<int>
    decreases upto,
{
    if upto <= 0 {
        Seq::empty()
    } else if g[upto - 1].len() == 0 {
        seeds(g, upto - 1).push(upto - 1)
    } else {
        seeds(g, upto - 1)
    }
}

/// The queue once every entry from position `h` on has been taken in turn.
pub open spec fn drained(g: Seq<Seq<int>>, queue: Seq<int>, h: int) -> Seq<int>
    decreases g.len() - h,
{
    if h < 0 || h >= queue.len() || h >= g.len() {
        queue
    } else {
        drained(g, sweep(g, queue, h, g.len() as int), h + 1)
    }
}

/// The order in which the nodes can be worked off so that each comes after
/// everything it leads to: first the nodes that lead nowhere, in rising
/// order; then, as each node is taken from the front, the nodes that were
/// waiting for it alone, in rising order.
pub open spec fn kahn_order(g: Seq<Seq<int>>) -> Seq<int> {
    drained(g, seeds(g, g.len() as int), 0)
}

/// No node stands twice in `order`, and each is a node of the graph.
pub open spec fn is_selection(g: Seq<Seq<int>>, order: Seq<int>) -> bool {
    &&& forall|p: int| 0 <= p < order.len() ==> 0 <= #[trigger] order[p] < g.len()
    &&& forall|p: int, q: int| 0 <= p < q < order.len() ==> order[p] != order[q]
}

/// Every node of `order` comes after everything it leads to.
pub open spec fn respects_edges(g: Seq<Seq<int>>, order: Seq<int>) -> bool {
    forall|p: int| 0 <= p < order.len() ==> deps_among(g, order, p, #[trigger] order[p])
}

/// Every node outside `queue` still waits for something that is not among
/// the first `upto` entries.
spec fn others_wait(g: Seq<Seq<int>>, queue: Seq<int>, upto: int) -> bool {
    forall|i: int|
        0 <= i < g.len() && !queue.contains(i) ==> !#[trigger] deps_among(g, queue, upto, i)
}

proof fn lemma_take_contains(queue: Seq<int>, upto: int, more: int, x: int)
    requires
        0 <= upto <= more <= queue.len(),
        queue.take(upto).contains(x),
    ensures
        queue.take(more).contains(x),
{
    let t = choose|t: int| 0 <= t < queue.take(upto).len() && queue.take(upto)[t] == x;
    assert(queue.take(more)[t] == x);
}

proof fn lemma_push_take(queue: Seq<int>, upto: int, x: int)
    requires
        0 <= upto <= queue.len(),
    ensures
        queue.push(x).take(upto) == queue.take(upto),
{
    assert(queue.push(x).take(upto) =~= queue.take(upto));
}

proof fn lemma_all_queued(g: Seq<Seq<int>>, rank: Seq<int>, queue: Seq<int>, u: int)
    requires
        closed(g),
        ranked(g, rank),
        others_wait(g, queue, queue.len() as int),
        0 <= u < g.len(),
    ensures
        queue.contains(u),
    decreases rank[u],
{
    if !queue.contains(u) {
        assert(!deps_among(g, queue, queue.len() as int, u));
        let k = choose|k: int|
            0 <= k < g[u].len() && !queue.take(queue.len() as int).contains(#[trigger] g[u][k]);
        let v = g[u][k];
        assert(queue.take(queue.len() as int) =~= queue);
        assert(rank[g[u][k]] < rank[u]);
        lemma_all_queued(g, rank, queue, v);
    }
}

fn holds(queue: &Vec<usize>, upto: usize, x: usize) -> (r: bool)
    requires
        upto <= queue.len(),
    ensures
        r == ints(queue@).take(upto as int).contains(x as int),
{
    let mut t: usize = 0;
    while t < upto
        invariant
            t <= upto <= queue.len(),
            forall|s: int| 0 <= s < t ==> ints(queue@)[s] != x as int,
        decreases upto - t,
    {
        if queue[t] == x {
            assert(ints(queue@).take(upto as int)[t as int] == x as int);
            return true;
        }
        t += 1;
    }
    false
}

/// The nodes of a list of positions, as integers.
pub open spec fn ints(v: Seq<usize>) -> Seq<int> {
    Seq::new(v.len(), |i: int| v[i] as int)
}

fn all_among(adj: &Vec<Vec<usize>>, queue: &Vec<usize>, upto: usize, i: usize) -> (r: bool)
    requires
        i < adj.len(),
        upto <= queue.len(),
    ensures
        r == deps_among(graph_of(adj@), ints(queue@), upto as int, i as int),
{
    let ghost g = graph_of(adj@);
    let mut k: usize = 0;
    while k < adj[i].len()
        invariant
            i < adj.len(),
            upto <= queue.len(),
            k <= adj[i as int]@.len(),
            g == graph_of(adj@),
            forall|j: int|
                0 <= j < k ==> ints(queue@).take(upto as int).contains(#[trigger] g[i as int][j]),
        decreases adj[i as int]@.len() - k,
    {
        assert(g[i as int][k as int] == adj@[i as int]@[k as int] as int);
        if !holds(queue, upto, adj[i][k]) {
            return false;
        }
        k += 1;
    }
    true
}

fn leads_to(adj: &Vec<Vec<usize>>, i: usize, j: usize) -> (r: bool)
    requires
        i < adj.len(),
    ensures
        r == graph_of(adj@)[i as int].contains(j as int),
{
    let ghost row = graph_of(adj@)[i as int];
    let mut k: usize = 0;
    while k < adj[i].len()
        invariant
            i < adj.len(),
            k <= adj[i as int]@.len(),
            row == graph_of(adj@)[i as int],
            forall|t: int| 0 <= t < k ==> row[t] != j as int,
        decreases adj[i as int]@.len() - k,
    {
        assert(row[k as int] == adj@[i as int]@[k as int] as int);
        if adj[i][k] == j {
            return true;
        }
        k += 1;
    }
    false
}

/// Puts the nodes in an order in which each comes after everything it leads
/// to.
///
/// The order is exactly [`kahn_order`]. It holds no node twice and respects
/// every edge; and it holds every node where the graph can be put in order.
pub fn topological_order(adj: &Vec<Vec<usize>>) -> (r: Vec<usize>)
    requires
        closed(graph_of(adj@)),
    ensures
        ints(r@) == kahn_order(graph_of(adj@)),
        is_selection(graph_of(adj@), ints(r@)),
        respects_edges(graph_of(adj@), ints(r@)),
        orderable(graph_of(adj@)) ==> r@.len() == adj@.len(),
{
    let ghost g = graph_of(adj@);
    let n = adj.len();
    let mut queue: Vec<usize> = Vec::new();
    let mut i: usize = 0;
    assert(ints(queue@) =~= seeds(g, 0));
    while i < n
        invariant
            i <= n,
            n == adj.len(),
            g == graph_of(adj@),
            ints(queue@) == seeds(g, i as int),
            forall|p: int| 0 <= p < queue@.len() ==> 0 <= #[trigger] ints(queue@)[p] < i,
            forall|p: int, q: int| 0 <= p < q < queue@.len() ==> ints(queue@)[p] != ints(queue@)[q],
            forall|p: int| 0 <= p < queue@.len() ==> g[#[trigger] ints(queue@)[p]].len() == 0,
            forall|a: int| 0 <= a < i && g[a].len() == 0 ==> ints(queue@).contains(a),
        decreases n - i,
    {
        let ghost before = ints(queue@);
        if adj[i].len() == 0 {
            queue.push(i);
            assert(ints(queue@) =~= before.push(i as int));
            assert forall|a: int| 0 <= a < i + 1 && g[a].len() == 0 implies ints(
                queue@,
            ).contains(a) by {
                if a < i {
                    assert(before.contains(a));
                    let t = choose|t: int| 0 <= t < before.len() && before[t] == a;
                    assert(ints(queue@)[t] == a);
                } else {
                    assert(ints(queue@)[queue@.len() - 1] == a);
                }
            }
        }
        i += 1;
    }
    proof {
        assert forall|p: int| 0 <= p < queue@.len() implies deps_among(
            g,
            ints(queue@),
            p,
            #[trigger] ints(queue@)[p],
        ) by {}
        assert forall|a: int| 0 <= a < g.len() && !ints(queue@).contains(a) implies !#[trigger] deps_among(
            g,
            ints(queue@),
            0,
            a,
        ) by {
            assert(g[a].len() > 0);
            assert(!ints(queue@).take(0).contains(g[a][0]));
        }
    }
    let mut h: usize = 0;
    while h < queue.len()
        invariant
            n == adj.len(),
            g == graph_of(adj@),
            closed(g),
            h <= queue.len(),
            drained(g, ints(queue@), h as int) == kahn_order(g),
            is_selection(g, ints(queue@)),
            respects_edges(g, ints(queue@)),
            others_wait(g, ints(queue@), h as int),
        decreases n - h,
    {
        proof {
            lemma_selection_bound(g, ints(queue@));
        }
        let j = queue[h];
        let ghost start = ints(queue@);
        let mut i: usize = 0;
        while i < n
            invariant
                i <= n,
                n == adj.len(),
                g == graph_of(adj@),
                closed(g),
                h < queue.len(),
                h < n,
                start.len() > h,
                start.len() <= queue@.len(),
                ints(queue@).take(start.len() as int) == start,
                j == queue@[h as int],
                ints(queue@) == sweep(g, start, h as int, i as int),
                is_selection(g, ints(queue@)),
                respects_edges(g, ints(queue@)),
                others_wait(g, start, h as int),
                forall|a: int|
                    0 <= a < g.len() && !ints(queue@).contains(a) && a < i ==> !#[trigger] deps_among(
                        g,
                        ints(queue@),
                        h + 1,
                        a,
                    ),
            decreases n - i,
        {
            let ghost before = ints(queue@);
            proof {
                assert(before[h as int] == start[h as int]) by {
                    assert(before.take(start.len() as int)[h as int] == before[h as int]);
                }
                assert(before.take(h + 1) =~= start.take(h + 1));
            }
            let joins = leads_to(adj, i, j) && !holds(&queue, queue.len(), i) && all_among(
                adj,
                &queue,
                h + 1,
                i,
            );
            proof {
                assert(before.take(before.len() as int) =~= before);
                assert(start[h as int] == j as int);
                assert(sweep(g, start, h as int, i + 1) == enlist(g, before, h as int, i as int));
            }
            if joins {
                queue.push(i);
                proof {
                    let after = ints(queue@);
                    assert(after =~= before.push(i as int));
                    lemma_push_take(before, h + 1, i as int);
                    lemma_push_take(before, start.len() as int, i as int);
                    assert forall|p: int| 0 <= p < after.len() implies deps_among(
                        g,
                        after,
                        p,
                        #[trigger] after[p],
                    ) by {
                        if p < before.len() {
                            assert(deps_among(g, before, p, before[p]));
                            assert(after.take(p) =~= before.take(p));
                        } else {
                            assert forall|k: int| 0 <= k < g[i as int].len() implies after.take(
                                p,
                            ).contains(#[trigger] g[i as int][k]) by {
                                assert(before.take(h + 1).contains(g[i as int][k]));
                                lemma_take_contains(after, h + 1, p, g[i as int][k]);
                            }
                        }
                    }
                    assert forall|a: int|
                        0 <= a < g.len() && !after.contains(a) && a < i + 1 implies !#[trigger] deps_among(
                        g,
                        after,
                        h + 1,
                        a,
                    ) by {
                        assert(!before.contains(a)) by {
                            if before.contains(a) {
                                let t = choose|t: int| 0 <= t < before.len() && before[t] == a;
                                assert(after[t] == a);
                            }
                        }
                        assert(a != i) by {
                            assert(after[after.len() - 1] == i as int);
                        }
                        assert(!deps_among(g, before, h + 1, a));
                    }
                }
            } else {
                proof {
                    assert forall|a: int|
                        0 <= a < g.len() && !before.contains(a) && a < i + 1 implies !#[trigger] deps_among(
                        g,
                        before,
                        h + 1,
                        a,
                    ) by {
                        if a == i as int {
                            if !g[a].contains(j as int) {
                                assert(!start.contains(a)) by {
                                    if start.contains(a) {
                                        let t = choose|t: int|
                                            0 <= t < start.len() && start[t] == a;
                                        assert(before.take(start.len() as int)[t] == a);
                                        assert(before[t] == a);
                                    }
                                }
                                assert(!deps_among(g, start, h as int, a));
                                let k = choose|k: int|
                                    0 <= k < g[a].len() && !start.take(h as int).contains(
                                        #[trigger] g[a][k],
                                    );
                                assert(g[a][k] != j as int);
                                assert(!before.take(h + 1).contains(g[a][k])) by {
                                    if before.take(h + 1).contains(g[a][k]) {
                                        let part = before.take(h + 1);
                                        let t = choose|t: int|
                                            0 <= t < part.len() && part[t] == g[a][k];
                                        assert(part[h as int] == j as int);
                                        assert(t < h);
                                        assert(start.take(h as int)[t] == g[a][k]);
                                    }
                                }
                            }
                        }
                    }
                }
            }
            i += 1;
        }
        proof {
            assert(others_wait(g, ints(queue@), h + 1));
        }
        h += 1;
    }
    proof {
        lemma_selection_bound(g, ints(queue@));
        assert(drained(g, ints(queue@), h as int) == ints(queue@));
        if orderable(g) {
            let rank = choose|rank: Seq<int>| ranked(g, rank);
            if queue@.len() < n {
                lemma_missing_node(g, ints(queue@));
                let u = choose|u: int| 0 <= u < g.len() && !ints(queue@).contains(u);
                lemma_all_queued(g, rank, ints(queue@), u);
            }
        }
    }
    queue
}

/// A selection holds no more nodes than the graph has.
proof fn lemma_selection_bound(g: Seq<Seq<int>>, order: Seq<int>)
    requires
        is_selection(g, order),
    ensures
        order.len() <= g.len(),
{
    let s = order.to_set();
    let all = Set::new(|x: int| 0 <= x < g.len());
    vstd::set_lib::lemma_int_range(0, g.len() as int);
    assert(all =~= vstd::set_lib::set_int_range(0, g.len() as int));
    assert(s.subset_of(all)) by {
        assert forall|x: int| s.contains(x) implies all.contains(x) by {
            let t = choose|t: int| 0 <= t < order.len() && order[t] == x;
            assert(0 <= order[t] < g.len());
        }
    }
    vstd::set_lib::lemma_len_subset(s, all);
    order.unique_seq_to_set();
}

/// A selection shorter than the graph leaves some node out.
proof fn lemma_missing_node(g: Seq<Seq<int>>, order: Seq<int>)
    requires
        is_selection(g, order),
        order.len() < g.len(),
    ensures
        exists|u: int| 0 <= u < g.len() && !order.contains(u),
{
    let s = order.to_set();
    let all = Set::new(|x: int| 0 <= x < g.len());
    vstd::set_lib::lemma_int_range(0, g.len() as int);
    assert(all =~= vstd::set_lib::set_int_range(0, g.len() as int));
    order.unique_seq_to_set();
    if forall|u: int| 0 <= u < g.len() ==> order.contains(u) {
        assert(all.subset_of(s)) by {
            assert forall|x: int| all.contains(x) implies s.contains(x) by {
                assert(order.contains(x));
            }
        }
        vstd::set_lib::lemma_len_subset(all, s);
    }
}

/// `walk` follows edges from node to node.
pub open spec fn is_walk(g: Seq<Seq<int>>, walk: Seq<int>) -> bool {
    &&& walk.len() > 0
    &&& forall|t: int| 0 <= t < walk.len() ==> 0 <= #[trigger] walk[t] < g.len()
    &&& forall|t: int| 0 <= t < walk.len() - 1 ==> has_edge(g, #[trigger] walk[t], walk[t + 1])
}

/// Some walk leads from a start node to `v`.
pub open spec fn reachable(g: Seq<Seq<int>>, starts: Seq<bool>, v: int) -> bool {
    exists|walk: Seq<int>| #[trigger] is_walk(g, walk) && starts[walk[0]] && walk.last() == v
}

spec fn falses(marks: Seq<bool>) -> nat
    decreases marks.len(),
{
    if marks.len() == 0 {
        0
    } else {
        falses(marks.drop_last()) + if marks.last() {
            0nat
        } else {
            1nat
        }
    }
}

proof fn lemma_falses_update(marks: Seq<bool>, u: int)
    requires
        0 <= u < marks.len(),
        !marks[u],
    ensures
        falses(marks.update(u, true)) == falses(marks) - 1,
    decreases marks.len(),
{
    let next = marks.update(u, true);
    if u == marks.len() - 1 {
        assert(next.drop_last() =~= marks.drop_last());
    } else {
        assert(next.drop_last() =~= marks.drop_last().update(u, true));
        lemma_falses_update(marks.drop_last(), u);
    }
}

/// The marks are closed: what a marked node leads to is marked.
spec fn marks_closed(g: Seq<Seq<int>>, marks: Seq<bool>, upto: int) -> bool {
    forall|u: int, k: int|
        0 <= u < upto && 0 <= k < g[u].len() && marks[u] ==> marks[#[trigger] g[u][k]]
}

proof fn lemma_walk_marked(g: Seq<Seq<int>>, marks: Seq<bool>, walk: Seq<int>, t: int)
    requires
        closed(g),
        marks.len() == g.len(),
        marks_closed(g, marks, g.len() as int),
        is_walk(g, walk),
        marks[walk[0]],
        0 <= t < walk.len(),
    ensures
        marks[walk[t]],
    decreases t,
{
    if t > 0 {
        lemma_walk_marked(g, marks, walk, t - 1);
        assert(has_edge(g, walk[t - 1], walk[t]));
        let k = choose|k: int| 0 <= k < g[walk[t - 1]].len() && #[trigger] g[walk[t - 1]][k] == walk[t];
        assert(marks[g[walk[t - 1]][k]]);
    }
}

/// Marks every node that some walk from a start node leads to. The start
/// nodes themselves are among them.
pub fn reach(adj: &Vec<Vec<usize>>, starts: &Vec<bool>) -> (marks: Vec<bool>)
    requires
        closed(graph_of(adj@)),
        starts@.len() == adj@.len(),
    ensures
        marks@.len() == adj@.len(),
        forall|v: int|
            0 <= v < adj@.len() ==> (#[trigger] marks@[v]) == reachable(
                graph_of(adj@),
                starts@,
                v,
            ),
{
    let ghost g = graph_of(adj@);
    let n = adj.len();
    let mut marks: Vec<bool> = Vec::new();
    let mut i: usize = 0;
    while i < n
        invariant
            i <= n,
            n == adj.len(),
            starts@.len() == n,
            marks@.len() == i,
            forall|a: int| 0 <= a < i ==> marks@[a] == starts@[a],
        decreases n - i,
    {
        marks.push(starts[i]);
        i += 1;
    }
    proof {
        assert forall|v: int| 0 <= v < n && marks@[v] implies reachable(g, starts@, v) by {
            let walk = seq![v];
            assert(is_walk(g, walk) && starts@[walk[0]] && walk.last() == v);
        }
    }
    let mut changed = true;
    while changed
        invariant
            n == adj.len(),
            g == graph_of(adj@),
            closed(g),
            starts@.len() == n,
            marks@.len() == n,
            forall|a: int| 0 <= a < n && starts@[a] ==> #[trigger] marks@[a],
            forall|v: int| 0 <= v < n && #[trigger] marks@[v] ==> reachable(g, starts@, v),
            !changed ==> marks_closed(g, marks@, n as int),
        decreases
                falses(marks@) + if changed {
                    1int
                } else {
                    0int
                },
    {
        let ghost at_start = marks@;
        changed = false;
        let mut u: usize = 0;
        while u < n
            invariant
                u <= n,
                n == adj.len(),
                g == graph_of(adj@),
                closed(g),
                starts@.len() == n,
                marks@.len() == n,
                forall|a: int| 0 <= a < n && starts@[a] ==> #[trigger] marks@[a],
                forall|v: int| 0 <= v < n && #[trigger] marks@[v] ==> reachable(g, starts@, v),
                !changed ==> marks_closed(g, marks@, u as int),
                !changed ==> marks@ == at_start,
                changed ==> falses(marks@) < falses(at_start),
            decreases n - u,
        {
            if marks[u] {
                let mut k: usize = 0;
                while k < adj[u].len()
                    invariant
                        u < n,
                        k <= adj[u as int]@.len(),
                        n == adj.len(),
                        g == graph_of(adj@),
                        closed(g),
                        starts@.len() == n,
                        marks@.len() == n,
                        marks@[u as int],
                        forall|a: int| 0 <= a < n && starts@[a] ==> #[trigger] marks@[a],
                        forall|v: int|
                            0 <= v < n && #[trigger] marks@[v] ==> reachable(g, starts@, v),
                        !changed ==> marks_closed(g, marks@, u as int),
                        !changed ==> forall|t: int| 0 <= t < k ==> marks@[#[trigger] g[u as int][t]],
                        !changed ==> marks@ == at_start,
                        changed ==> falses(marks@) < falses(at_start),
                    decreases adj[u as int]@.len() - k,
                {
                    let v = adj[u][k];
                    assert(g[u as int][k as int] == v as int);
                    if !marks[v] {
                        let ghost before = marks@;
                        marks.set(v, true);
                        changed = true;
                        proof {
                            lemma_falses_update(before, v as int);
                            assert(reachable(g, starts@, u as int));
                            let walk = choose|walk: Seq<int>|
                                #[trigger] is_walk(g, walk) && starts@[walk[0]] && walk.last()
                                    == u as int;
                            let longer = walk.push(v as int);
                            assert(has_edge(g, u as int, v as int));
                            assert forall|t: int| 0 <= t < longer.len() - 1 implies has_edge(
                                g,
                                #[trigger] longer[t],
                                longer[t + 1],
                            ) by {
                                if t < walk.len() - 1 {
                                    assert(has_edge(g, walk[t], walk[t + 1]));
                                }
                            }
                            assert(is_walk(g, longer) && starts@[longer[0]] && longer.last()
                                == v as int);
                            assert forall|x: int| 0 <= x < n && #[trigger] marks@[x] implies reachable(
                                g,
                                starts@,
                                x,
                            ) by {
                                if x != v as int {
                                    assert(before[x]);
                                }
                            }
                            assert forall|a: int| 0 <= a < n && starts@[a] implies #[trigger] marks@[a] by {
                                assert(before[a]);
                            }
                        }
                    }
                    k += 1;
                }
            }
            u += 1;
        }
    }
    proof {
        assert forall|v: int| 0 <= v < n implies (#[trigger] marks@[v]) == reachable(
            g,
            starts@,
            v,
        ) by {
            if reachable(g, starts@, v) {
                let walk = choose|walk: Seq<int>|
                    #[trigger] is_walk(g, walk) && starts@[walk[0]] && walk.last() == v;
                assert(marks@[walk[0]]);
                lemma_walk_marked(g, marks@, walk, walk.len() - 1);
            }
        }
    }
    marks
}

} // verus!
