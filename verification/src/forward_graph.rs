//! The forwarding graph between handlers and its cycle detection.
//!
//! A handler name `a` forwards to `b` when some handler named `a` lists `b`
//! in its `forward_to`. Cycles are searched by depth-first search over a
//! graph whose nodes are handler positions, one per name.

use vstd::prelude::*;
use crate::config::HandlerConfig;

verus! {

/// The names of the handlers, in order.
pub open spec fn names_of(hs: Seq<HandlerConfig>) -> Seq<Seq<char>> {
    hs.map_values(|h: HandlerConfig| h.name@)
}

/// The forwarding targets of a handler, in order.
pub open spec fn targets_of(h: HandlerConfig) -> Seq<Seq<char>> {
    h.forward_to@.map_values(|s: String| s@)
}

/// No later handler has the same name as handler `i`.
pub open spec fn is_last_named(hs: Seq<HandlerConfig>, i: int) -> bool {
    &&& 0 <= i < hs.len()
    &&& forall|j: int| i < j < hs.len() ==> hs[j].name@ != hs[i].name@
}

/// Handler `i` is named `a` and lists `b` among its targets.
pub open spec fn handler_forwards(hs: Seq<HandlerConfig>, i: int, a: Seq<char>, b: Seq<char>) -> bool {
    &&& 0 <= i < hs.len()
    &&& hs[i].name@ == a
    &&& targets_of(hs[i]).contains(b)
}

/// A handler named `a` forwards its events to the name `b`.
pub open spec fn forwards_to(hs: Seq<HandlerConfig>, a: Seq<char>, b: Seq<char>) -> bool {
    exists|i: int| #[trigger] handler_forwards(hs, i, a, b)
}

/// One of the first `m` handlers is named `a` and lists `b`.
pub open spec fn forwards_before(hs: Seq<HandlerConfig>, m: int, a: Seq<char>, b: Seq<char>) -> bool {
    exists|i: int| 0 <= i < m && #[trigger] handler_forwards(hs, i, a, b)
}

/// `c` is a closed chain of forwarding steps: it starts and ends at the same
/// name and each name forwards to the next one.
pub open spec fn is_forward_cycle(hs: Seq<HandlerConfig>, c: Seq<Seq<char>>) -> bool {
    &&& c.len() >= 2
    &&& c[0] == c.last()
    &&& forall|k: int| 0 <= k < c.len() - 1 ==> #[trigger] forwards_to(hs, c[k], c[k + 1])
}

pub open spec fn has_forward_cycle(hs: Seq<HandlerConfig>) -> bool {
    exists|c: Seq<Seq<char>>| is_forward_cycle(hs, c)
}

/// Every successor listed in `g` is a node of `g`.
pub open spec fn graph_ok(g: Seq<Seq<usize>>) -> bool {
    forall|u: int, k: int| 0 <= u < g.len() && 0 <= k < g[u].len() ==> #[trigger] g[u][k] < g.len()
}

pub open spec fn edge(g: Seq<Seq<usize>>, u: usize, v: usize) -> bool {
    &&& (u as int) < g.len()
    &&& g[u as int].contains(v)
}

/// `c` is a closed walk of `g`.
pub open spec fn is_index_cycle(g: Seq<Seq<usize>>, c: Seq<usize>) -> bool {
    &&& c.len() >= 2
    &&& c[0] == c.last()
    &&& forall|k: int| 0 <= k < c.len() ==> #[trigger] c[k] < g.len()
    &&& forall|k: int| 0 <= k < c.len() - 1 ==> #[trigger] edge(g, c[k], c[k + 1])
}

pub open spec fn has_index_cycle(g: Seq<Seq<usize>>) -> bool {
    exists|c: Seq<usize>| is_index_cycle(g, c)
}

pub open spec fn graph_view(g: Seq<Vec<usize>>) -> Seq<Seq<usize>> {
    g.map_values(|r: Vec<usize>| r@)
}

/// `g` is the forwarding graph of `hs` over handler positions: each name is
/// stood for by its last handler, and an edge `u -> v` joins two such
/// handlers when the name of `u` forwards to the name of `v`.
pub open spec fn graph_of(hs: Seq<HandlerConfig>, g: Seq<Seq<usize>>) -> bool {
    &&& g.len() == hs.len()
    &&& graph_ok(g)
    &&& forall|u: usize, v: usize|
        (u as int) < hs.len() && (v as int) < hs.len() ==> (#[trigger] edge(g, u, v) <==> (
            is_last_named(hs, u as int) && is_last_named(hs, v as int)
            && forwards_to(hs, hs[u as int].name@, hs[v as int].name@)))
}

/// Whether no later handler shares the name of handler `u`.
fn is_last(handlers: &Vec<HandlerConfig>, u: usize) -> (r: bool)
    requires
        u < handlers.len(),
    ensures
        r == is_last_named(handlers@, u as int),
{
    let mut j = u + 1;
    while j < handlers.len()
        invariant
            u < j <= handlers.len(),
            forall|k: int| u < k < j ==> handlers@[k].name@ != handlers@[u as int].name@,
        decreases handlers.len() - j,
    {
        if handlers[j].name == handlers[u].name {
            return false;
        }
        j = j + 1;
    }
    true
}

/// The position of the last handler with the given name.
fn last_index_named(handlers: &Vec<HandlerConfig>, name: &String) -> (r: Option<usize>)
    ensures
        match r {
            Some(v) => (v as int) < handlers.len() && handlers@[v as int].name@ == name@
                && is_last_named(handlers@, v as int),
            None => forall|i: int| 0 <= i < handlers.len() ==> handlers@[i].name@ != name@,
        },
{
    let mut i = handlers.len();
    while i > 0
        invariant
            i <= handlers.len(),
            forall|k: int| i <= k < handlers.len() ==> handlers@[k].name@ != name@,
        decreases i,
    {
        i = i - 1;
        if handlers[i].name == *name {
            return Some(i);
        }
    }
    None
}

/// Appends to `row` the last position named by each target of handler `i`.
fn push_targets(handlers: &Vec<HandlerConfig>, i: usize, row: &mut Vec<usize>)
    requires
        i < handlers.len(),
        forall|j: int| 0 <= j < old(row)@.len() ==> #[trigger] old(row)@[j] < handlers.len(),
    ensures
        forall|j: int| 0 <= j < final(row)@.len() ==> #[trigger] final(row)@[j] < handlers.len(),
        forall|v: usize| (v as int) < handlers.len() ==> (#[trigger] final(row)@.contains(v) <==> (
            old(row)@.contains(v) || (is_last_named(handlers@, v as int)
            && targets_of(handlers@[i as int]).contains(handlers@[v as int].name@)))),
{
    let n = handlers.len();
    let targets = &handlers[i].forward_to;
    let ghost ts = targets_of(handlers@[i as int]);
    let ghost row0 = row@;
    let mut k: usize = 0;
    while k < targets.len()
        invariant
            n == handlers.len(),
            i < n,
            targets == &handlers@[i as int].forward_to,
            ts == targets@.map_values(|s: String| s@),
            k <= targets.len(),
            forall|j: int| 0 <= j < row@.len() ==> #[trigger] row@[j] < n,
            forall|v: usize| (v as int) < n ==> (#[trigger] row@.contains(v) <==> (
                row0.contains(v) || (is_last_named(handlers@, v as int)
                && ts.take(k as int).contains(handlers@[v as int].name@)))),
        decreases targets.len() - k,
    {
        let found = last_index_named(handlers, &targets[k]);
        assert(ts.take(k + 1) =~= ts.take(k as int).push(targets@[k as int]@));
        let ghost old_row = row@;
        let ghost tk = ts.take(k as int);
        let ghost tk1 = ts.take(k + 1);
        match found {
            Some(v) => {
                row.push(v);
                assert(row@ =~= old_row.push(v));
                assert forall|w: usize| (w as int) < n implies (#[trigger] row@.contains(w) <==> (
                    row0.contains(w) || (is_last_named(handlers@, w as int)
                    && ts.take(k + 1).contains(handlers@[w as int].name@)))) by {
                    if row@.contains(w) && w != v {
                        let j = choose|j: int| 0 <= j < row@.len() && row@[j] == w;
                        assert(old_row[j] == w);
                    }
                    if w != v && old_row.contains(w) {
                        let j = choose|j: int| 0 <= j < old_row.len() && old_row[j] == w;
                        assert(row@[j] == w);
                    }
                    if w == v {
                        assert(row@[row@.len() - 1] == w);
                        assert(ts.take(k + 1)[k as int] == handlers@[w as int].name@);
                    }
                    if w != v && is_last_named(handlers@, w as int)
                        && handlers@[w as int].name@ == targets@[k as int]@ {
                        if (w as int) < (v as int) {
                            assert(handlers@[v as int].name@ != handlers@[w as int].name@);
                        } else {
                            assert(handlers@[w as int].name@ != handlers@[v as int].name@);
                        }
                    }
                    if ts.take(k + 1).contains(handlers@[w as int].name@)
                        && handlers@[w as int].name@ != targets@[k as int]@ {
                        let j = choose|j: int| 0 <= j < k + 1 && tk1[j] == handlers@[w as int].name@;
                        assert(tk[j] == handlers@[w as int].name@);
                    }
                    if ts.take(k as int).contains(handlers@[w as int].name@) {
                        let j = choose|j: int| 0 <= j < k && tk[j] == handlers@[w as int].name@;
                        assert(tk1[j] == handlers@[w as int].name@);
                    }
                }
            },
            None => {
                assert forall|w: usize| (w as int) < n implies (#[trigger] row@.contains(w) <==> (
                    row0.contains(w) || (is_last_named(handlers@, w as int)
                    && ts.take(k + 1).contains(handlers@[w as int].name@)))) by {
                    assert(handlers@[w as int].name@ != targets@[k as int]@);
                    if ts.take(k + 1).contains(handlers@[w as int].name@) {
                        let j = choose|j: int| 0 <= j < k + 1 && tk1[j] == handlers@[w as int].name@;
                        assert(tk[j] == handlers@[w as int].name@);
                    }
                    if ts.take(k as int).contains(handlers@[w as int].name@) {
                        let j = choose|j: int| 0 <= j < k && tk[j] == handlers@[w as int].name@;
                        assert(tk1[j] == handlers@[w as int].name@);
                    }
                }
            },
        }
        k = k + 1;
    }
    assert(ts.take(targets.len() as int) =~= ts);
}

/// Builds the forwarding graph of the handlers.
pub fn build_forward_graph(handlers: &Vec<HandlerConfig>) -> (g: Vec<Vec<usize>>)
    ensures
        graph_of(handlers@, graph_view(g@)),
{
    let n = handlers.len();
    let mut g: Vec<Vec<usize>> = Vec::new();
    let mut u: usize = 0;
    while u < n
        invariant
            n == handlers.len(),
            u <= n,
            g.len() == u,
            forall|a: int, k: int| 0 <= a < u && 0 <= k < g@[a]@.len() ==> #[trigger] g@[a]@[k] < n,
            forall|a: usize, v: usize| (a as int) < u && (v as int) < n ==> (
                #[trigger] g@[a as int]@.contains(v) <==> (
                is_last_named(handlers@, a as int) && is_last_named(handlers@, v as int)
                && forwards_to(handlers@, handlers@[a as int].name@, handlers@[v as int].name@))),
        decreases n - u,
    {
        let mut row: Vec<usize> = Vec::new();
        if is_last(handlers, u) {
            let ghost a = handlers@[u as int].name@;
            let mut i: usize = 0;
            while i < n
                invariant
                    n == handlers.len(),
                    u < n,
                    i <= n,
                    a == handlers@[u as int].name@,
                    is_last_named(handlers@, u as int),
                    forall|j: int| 0 <= j < row@.len() ==> #[trigger] row@[j] < n,
                    forall|v: usize| (v as int) < n ==> (#[trigger] row@.contains(v) <==> (
                        is_last_named(handlers@, v as int)
                        && forwards_before(handlers@, i as int, a, handlers@[v as int].name@))),
                decreases n - i,
            {
                let ghost row_before = row@;
                if handlers[i].name == handlers[u].name {
                    push_targets(handlers, i, &mut row);
                    assert forall|v: usize| (v as int) < n implies (#[trigger] row@.contains(v) <==> (
                        is_last_named(handlers@, v as int)
                        && forwards_before(handlers@, i + 1, a, handlers@[v as int].name@))) by {
                        let b = handlers@[v as int].name@;
                        if forwards_before(handlers@, i + 1, a, b) && !forwards_before(handlers@, i as int, a, b) {
                            let j = choose|j: int| 0 <= j < i + 1 && #[trigger] handler_forwards(handlers@, j, a, b);
                            assert(j == i);
                        }
                        if targets_of(handlers@[i as int]).contains(b) {
                            assert(handler_forwards(handlers@, i as int, a, b));
                        }
                        if forwards_before(handlers@, i as int, a, b) {
                            let j = choose|j: int| 0 <= j < i && #[trigger] handler_forwards(handlers@, j, a, b);
                            assert(0 <= j < i + 1 && handler_forwards(handlers@, j, a, b));
                        }
                    }
                } else {
                    assert forall|v: usize| (v as int) < n implies (#[trigger] row@.contains(v) <==> (
                        is_last_named(handlers@, v as int)
                        && forwards_before(handlers@, i + 1, a, handlers@[v as int].name@))) by {
                        let b = handlers@[v as int].name@;
                        if forwards_before(handlers@, i + 1, a, b) {
                            let j = choose|j: int| 0 <= j < i + 1 && #[trigger] handler_forwards(handlers@, j, a, b);
                            assert(j != i);
                            assert(0 <= j < i && handler_forwards(handlers@, j, a, b));
                        }
                        if forwards_before(handlers@, i as int, a, b) {
                            let j = choose|j: int| 0 <= j < i && #[trigger] handler_forwards(handlers@, j, a, b);
                            assert(0 <= j < i + 1 && handler_forwards(handlers@, j, a, b));
                        }
                    }
                }
                i = i + 1;
            }
            assert forall|v: usize| (v as int) < n implies (
                forwards_before(handlers@, n as int, handlers@[u as int].name@, handlers@[v as int].name@)
                == forwards_to(handlers@, handlers@[u as int].name@, handlers@[v as int].name@)) by {
                let b = handlers@[v as int].name@;
                if forwards_to(handlers@, a, b) {
                    let j = choose|j: int| #[trigger] handler_forwards(handlers@, j, a, b);
                    assert(0 <= j < n && handler_forwards(handlers@, j, a, b));
                }
            }
        }
        let ghost row_v = row@;
        g.push(row);
        proof {
            assert(g@[u as int]@ == row_v);
        }
        u = u + 1;
    }
    assert(graph_view(g@).len() == n);
    g
}

/// Number of `false` entries.
pub open spec fn count_unvisited(vis: Seq<bool>) -> nat
    decreases vis.len(),
{
    if vis.len() == 0 {
        0
    } else {
        count_unvisited(vis.drop_last()) + if vis.last() { 0nat } else { 1nat }
    }
}

proof fn lemma_count_monotone(a: Seq<bool>, b: Seq<bool>)
    requires
        a.len() == b.len(),
        forall|i: int| 0 <= i < a.len() && a[i] ==> b[i],
    ensures
        count_unvisited(b) <= count_unvisited(a),
    decreases a.len(),
{
    if a.len() > 0 {
        lemma_count_monotone(a.drop_last(), b.drop_last());
    }
}

proof fn lemma_count_mark(a: Seq<bool>, i: int)
    requires
        0 <= i < a.len(),
        !a[i],
    ensures
        count_unvisited(a.update(i, true)) + 1 == count_unvisited(a),
    decreases a.len(),
{
    let b = a.update(i, true);
    if i == a.len() - 1 {
        assert(b.drop_last() =~= a.drop_last());
    } else {
        assert(b.drop_last() =~= a.drop_last().update(i, true));
        lemma_count_mark(a.drop_last(), i);
    }
}

/// Node `u` has been left by the search: visited and no longer on the stack.
pub open spec fn finished(vis: Seq<bool>, stk: Seq<bool>, u: usize) -> bool {
    vis[u as int] && !stk[u as int]
}

/// What holds of the search state between steps: the stack is a walk of
/// distinct nodes, and edges out of finished nodes lead to finished nodes
/// that finished earlier.
pub open spec fn dfs_inv(
    g: Seq<Seq<usize>>,
    vis: Seq<bool>,
    stk: Seq<bool>,
    path: Seq<usize>,
    fin: Seq<int>,
    t: int,
) -> bool {
    &&& graph_ok(g)
    &&& vis.len() == g.len()
    &&& stk.len() == g.len()
    &&& fin.len() == g.len()
    &&& forall|k: int| 0 <= k < path.len() ==> #[trigger] path[k] < g.len()
    &&& path.no_duplicates()
    &&& forall|v: usize| (v as int) < g.len() ==> (#[trigger] stk[v as int] <==> path.contains(v))
    &&& forall|v: usize| (v as int) < g.len() && #[trigger] stk[v as int] ==> vis[v as int]
    &&& forall|k: int| 0 <= k < path.len() - 1 ==> #[trigger] edge(g, path[k], path[k + 1])
    &&& forall|u: usize| (u as int) < g.len() && #[trigger] finished(vis, stk, u) ==> fin[u as int] < t
    &&& forall|u: usize, v: usize|
        (u as int) < g.len() && #[trigger] finished(vis, stk, u) && #[trigger] edge(g, u, v)
            ==> (v as int) < g.len() && finished(vis, stk, v) && fin[v as int] < fin[u as int]
}

/// The cycle closed by an edge from the top of the stack back to `nb`.
fn extract_cycle(g: &Vec<Vec<usize>>, path: &Vec<usize>, nb: usize) -> (c: Vec<usize>)
    requires
        graph_ok(graph_view(g@)),
        path@.contains(nb),
        (nb as int) < g.len(),
        forall|k: int| 0 <= k < path@.len() ==> #[trigger] path@[k] < g.len(),
        forall|k: int| 0 <= k < path@.len() - 1 ==> #[trigger] edge(graph_view(g@), path@[k], path@[k + 1]),
        edge(graph_view(g@), path@.last(), nb),
        path@.no_duplicates(),
    ensures
        is_index_cycle(graph_view(g@), c@),
        c@.drop_last().no_duplicates(),
        exists|p: int| 0 <= p < path@.len() && path@[p] == nb
            && c@ == path@.subrange(p, path@.len() as int).push(nb),
{
    let ghost gv = graph_view(g@);
    let mut pos: usize = 0;
    while path[pos] != nb
        invariant
            path@.contains(nb),
            pos < path.len(),
            forall|k: int| 0 <= k < pos ==> path@[k] != nb,
        decreases path.len() - pos,
    {
        pos = pos + 1;
        if pos == path.len() {
            assert(false);
        }
    }
    let mut c: Vec<usize> = Vec::new();
    let mut j = pos;
    while j < path.len()
        invariant
            pos <= j <= path.len(),
            path@[pos as int] == nb,
            c@ == path@.subrange(pos as int, j as int),
        decreases path.len() - j,
    {
        c.push(path[j]);
        j = j + 1;
    }
    let ghost body = c@;
    c.push(nb);
    assert(c@.drop_last() =~= body);
    assert(c@ == path@.subrange(pos as int, path@.len() as int).push(nb));
    assert forall|a: int, b: int| 0 <= a < body.len() && 0 <= b < body.len() && a != b
        implies body[a] != body[b] by {
        assert(body[a] == path@[pos + a]);
        assert(body[b] == path@[pos + b]);
    }
    assert forall|k: int| 0 <= k < c@.len() - 1 implies #[trigger] edge(gv, c@[k], c@[k + 1]) by {
        if k < c@.len() - 2 {
            assert(edge(gv, path@[pos + k], path@[pos + k + 1]));
        }
    }
    c
}

/// Node `u` finished before time `t`.
pub open spec fn done_before(vis: Seq<bool>, stk: Seq<bool>, fin: Seq<int>, t: int, u: usize) -> bool {
    finished(vis, stk, u) && fin[u as int] < t
}

/// Depth-first search from `node`; returns a cycle when the search meets a
/// node that is still on the stack.
#[verifier::spinoff_prover]
fn dfs_cycle(
    node: usize,
    g: &Vec<Vec<usize>>,
    visited: &mut Vec<bool>,
    on_stack: &mut Vec<bool>,
    path: &mut Vec<usize>,
    Ghost(fin0): Ghost<Seq<int>>,
    Ghost(t0): Ghost<int>,
) -> (res: (Option<Vec<usize>>, Ghost<Seq<int>>, Ghost<int>))
    requires
        dfs_inv(graph_view(g@), old(visited)@, old(on_stack)@, old(path)@, fin0, t0),
        (node as int) < g.len(),
        !old(visited)@[node as int],
        old(path)@.len() > 0 ==> edge(graph_view(g@), old(path)@.last(), node),
    ensures
        match res.0 {
            Some(c) => {
                &&& is_index_cycle(graph_view(g@), c@)
                &&& c@.drop_last().no_duplicates()
                &&& final(path)@.len() > old(path)@.len()
                &&& final(path)@.take(old(path)@.len() + 1int) == old(path)@.push(node)
                &&& final(path)@.no_duplicates()
                &&& forall|k: int| 0 <= k < final(path)@.len() - 1
                    ==> #[trigger] edge(graph_view(g@), final(path)@[k], final(path)@[k + 1])
                &&& exists|p: int| 0 <= p < final(path)@.len()
                    && edge(graph_view(g@), final(path)@.last(), final(path)@[p])
                    && c@ == final(path)@.subrange(p, final(path)@.len() as int).push(final(path)@[p])
                &&& final(visited)@.len() == old(visited)@.len()
                &&& forall|v: int| 0 <= v < old(visited)@.len() && old(visited)@[v] ==> #[trigger] final(visited)@[v]
                &&& forall|k: int| 0 <= k < final(path)@.len() ==> #[trigger] final(visited)@[final(path)@[k] as int]
            },
            None => {
                &&& dfs_inv(graph_view(g@), final(visited)@, final(on_stack)@, final(path)@, res.1@, res.2@)
                &&& final(path)@ == old(path)@
                &&& final(on_stack)@ == old(on_stack)@
                &&& final(visited)@[node as int]
                &&& forall|v: int| 0 <= v < old(visited)@.len() && old(visited)@[v] ==> #[trigger] final(visited)@[v]
                &&& forall|u: usize| (u as int) < g.len() && #[trigger] finished(old(visited)@, old(on_stack)@, u)
                    ==> res.1@[u as int] == fin0[u as int]
                &&& res.2@ >= t0
            },
        },
    decreases count_unvisited(old(visited)@),
{
    let ghost gv = graph_view(g@);
    let ghost vis0 = visited@;
    let ghost stk0 = on_stack@;
    let ghost path0 = path@;
    proof {
        lemma_count_mark(visited@, node as int);
    }
    visited.set(node, true);
    on_stack.set(node, true);
    path.push(node);
    let ghost mut fin = fin0;
    let ghost mut t = t0;
    proof {
        assert(!stk0[node as int]);
        assert(!path0.contains(node));
        assert(path@ =~= path0.push(node));
        assert forall|v: usize| (v as int) < gv.len() implies (#[trigger] on_stack@[v as int] <==> path@.contains(v)) by {
            if v != node && path@.contains(v) {
                let k = choose|k: int| 0 <= k < path@.len() && path@[k] == v;
                assert(path0[k] == v);
            }
            if v != node && path0.contains(v) {
                let k = choose|k: int| 0 <= k < path0.len() && path0[k] == v;
                assert(path@[k] == v);
            }
            if v == node {
                assert(path@[path@.len() - 1] == v);
            }
        }
        assert forall|a: int, b: int| 0 <= a < path@.len() && 0 <= b < path@.len() && a != b
            implies path@[a] != path@[b] by {
            if a < path0.len() && b < path0.len() {
            } else if a < path0.len() {
                assert(path0.contains(path0[a]));
            } else if b < path0.len() {
                assert(path0.contains(path0[b]));
            }
        }
        assert forall|k: int| 0 <= k < path@.len() implies #[trigger] path@[k] < gv.len() by {
            if k < path0.len() {
                assert(path0[k] < gv.len());
            }
        }
        assert forall|u: usize, v: usize|
            (u as int) < gv.len() && #[trigger] finished(visited@, on_stack@, u) && #[trigger] edge(gv, u, v)
            implies (v as int) < gv.len() && finished(visited@, on_stack@, v) && fin[v as int] < fin[u as int] by {
            assert(finished(vis0, stk0, u));
        }
        assert forall|k: int| 0 <= k < path@.len() - 1 implies #[trigger] edge(gv, path@[k], path@[k + 1]) by {
            if k < path0.len() - 1 {
                assert(edge(gv, path0[k], path0[k + 1]));
            }
        }
        assert forall|u: usize| (u as int) < gv.len() && #[trigger] finished(visited@, on_stack@, u)
            implies fin[u as int] < t by {
            assert(finished(vis0, stk0, u));
        }
        assert forall|v: usize| (v as int) < gv.len() && #[trigger] on_stack@[v as int] implies visited@[v as int] by {
            if v != node {
                assert(stk0[v as int]);
            }
        }
        assert(dfs_inv(gv, visited@, on_stack@, path@, fin, t));
    }
    let row = &g[node];
    assert(gv[node as int] == row@);
    let mut k: usize = 0;
    while k < row.len()
        invariant
            gv == graph_view(g@),
            (node as int) < g.len(),
            row == &g@[node as int],
            gv[node as int] == row@,
            k <= row.len(),
            dfs_inv(gv, visited@, on_stack@, path@, fin, t),
            path@ == path0.push(node),
            on_stack@ == stk0.update(node as int, true),
            stk0.len() == gv.len(),
            !stk0[node as int],
            visited@[node as int],
            visited@.len() == vis0.len(),
            forall|v: int| 0 <= v < vis0.len() && vis0[v] ==> #[trigger] visited@[v],
            forall|u: usize| (u as int) < gv.len() && #[trigger] finished(vis0, stk0, u)
                ==> fin[u as int] == fin0[u as int],
            t >= t0,
            count_unvisited(visited@) < count_unvisited(vis0),
            forall|j: int| 0 <= j < k ==> #[trigger] done_before(visited@, on_stack@, fin, t, row@[j]),
            vis0 == old(visited)@,
            path0 == old(path)@,
            !vis0[node as int],
        decreases row.len() - k,
    {
        let nb = row[k];
        assert(row@[k as int] < gv.len());
        if !visited[nb] {
            assert(edge(gv, path@.last(), nb));
            let ghost vis1 = visited@;
            let ghost stk1 = on_stack@;
            let ghost fin1 = fin;
            let ghost path1 = path@;
            let (r, Ghost(f2), Ghost(t2)) = dfs_cycle(nb, g, visited, on_stack, path, Ghost(fin), Ghost(t));
            if r.is_some() {
                proof {
                    assert(path1 == path0.push(node));
                    assert(path@.take(path1.len() as int) =~= path@.take(path1.len() + 1int).take(path1.len() as int));
                    assert(path1.push(nb).take(path1.len() as int) =~= path1);
                    assert forall|v: int| 0 <= v < vis0.len() && vis0[v] implies #[trigger] visited@[v] by {
                        assert(vis1[v]);
                    }
                }
                return (r, Ghost(f2), Ghost(t2));
            }
            proof {
                lemma_count_monotone(vis1, visited@);
                assert(!stk1[nb as int]);
                assert forall|u: usize| (u as int) < gv.len() && #[trigger] finished(vis0, stk0, u)
                    implies f2[u as int] == fin0[u as int] by {
                    assert(vis0[u as int]);
                    assert(vis1[u as int]);
                    assert(u != node);
                    assert(!stk1[u as int]);
                    assert(finished(vis1, stk1, u));
                }
                assert forall|j: int| 0 <= j < k + 1 implies #[trigger] done_before(visited@, on_stack@, f2, t2, row@[j]) by {
                    let w = row@[j];
                    if j < k {
                        assert(done_before(vis1, stk1, fin1, t, w));
                        assert(finished(vis1, stk1, w));
                        assert(vis1[w as int]);
                        assert(visited@[w as int]);
                        assert(f2[w as int] == fin1[w as int]);
                    } else {
                        assert(w == nb);
                        assert(finished(visited@, on_stack@, w));
                    }
                }
            }
            proof {
                fin = f2;
                t = t2;
            }
        } else if on_stack[nb] {
            assert(edge(gv, path@.last(), nb));
            let c = extract_cycle(g, path, nb);
            proof {
                assert(path@.take(path0.len() + 1int) =~= path0.push(node));
                assert forall|j: int| 0 <= j < path@.len() implies #[trigger] visited@[path@[j] as int] by {
                    assert(path@.contains(path@[j]));
                    assert(on_stack@[path@[j] as int]);
                }
                let p = choose|p: int| 0 <= p < path@.len() && path@[p] == nb
                    && c@ == path@.subrange(p, path@.len() as int).push(nb);
                assert(edge(gv, path@.last(), path@[p]));
            }
            return (Some(c), Ghost(fin), Ghost(t));
        } else {
            assert(finished(visited@, on_stack@, nb));
            assert(fin[nb as int] < t);
            assert forall|j: int| 0 <= j < k + 1 implies #[trigger] done_before(visited@, on_stack@, fin, t, row@[j]) by {
                if j == k {
                    assert(row@[j] == nb);
                }
            }
        }
        k = k + 1;
    }
    path.pop();
    on_stack.set(node, false);
    proof {
        assert(path@ =~= path0);
        assert(on_stack@ =~= stk0);
        let fin_new = fin.update(node as int, t);
        assert forall|u: usize| (u as int) < gv.len() && #[trigger] finished(visited@, on_stack@, u)
            implies fin_new[u as int] < t + 1 by {
            if u != node {
                assert(finished(visited@, stk0.update(node as int, true), u));
            }
        }
        assert forall|u: usize, v: usize|
            (u as int) < gv.len() && #[trigger] finished(visited@, on_stack@, u) && #[trigger] edge(gv, u, v)
            implies (v as int) < gv.len() && finished(visited@, on_stack@, v)
                && fin_new[v as int] < fin_new[u as int] by {
            if u == node {
                let j = choose|j: int| 0 <= j < row@.len() && row@[j] == v;
                assert(done_before(visited@, stk0.update(node as int, true), fin, t, row@[j]));
            } else {
                assert(finished(visited@, stk0.update(node as int, true), u));
                assert(finished(visited@, stk0.update(node as int, true), v));
            }
        }
        assert forall|u: usize| (u as int) < gv.len() && #[trigger] finished(vis0, stk0, u)
            implies fin_new[u as int] == fin0[u as int] by {
        }
        fin = fin_new;
        t = t + 1;
    }
    (None, Ghost(fin), Ghost(t))
}

proof fn lemma_ranked_descent(g: Seq<Seq<usize>>, fin: Seq<int>, c: Seq<usize>, k: int)
    requires
        is_index_cycle(g, c),
        1 <= k < c.len(),
        forall|u: usize, v: usize| #[trigger] edge(g, u, v) ==> fin[v as int] < fin[u as int],
    ensures
        fin[c[k] as int] < fin[c[0] as int],
    decreases k,
{
    let j = k - 1;
    assert(edge(g, c[j], c[j + 1]));
    if k > 1 {
        lemma_ranked_descent(g, fin, c, k - 1);
    }
}

/// A graph whose edges all descend in some ranking has no cycle.
proof fn lemma_ranked_graph_acyclic(g: Seq<Seq<usize>>, fin: Seq<int>)
    requires
        forall|u: usize, v: usize| #[trigger] edge(g, u, v) ==> fin[v as int] < fin[u as int],
    ensures
        !has_index_cycle(g),
{
    if has_index_cycle(g) {
        let c = choose|c: Seq<usize>| is_index_cycle(g, c);
        lemma_ranked_descent(g, fin, c, c.len() - 1);
    }
}

/// Detects a cycle in the graph by depth-first search from each node in turn.
/// Returns the first cycle found, or `None` when the graph has none.
pub fn detect_cycle(g: &Vec<Vec<usize>>) -> (r: Option<Vec<usize>>)
    requires
        graph_ok(graph_view(g@)),
    ensures
        match r {
            Some(c) => is_index_cycle(graph_view(g@), c@) && c@.drop_last().no_duplicates(),
            None => !has_index_cycle(graph_view(g@)),
        },
{
    let ghost gv = graph_view(g@);
    let n = g.len();
    let mut visited: Vec<bool> = Vec::new();
    let mut on_stack: Vec<bool> = Vec::new();
    let mut i: usize = 0;
    while i < n
        invariant
            i <= n,
            visited@.len() == i,
            on_stack@.len() == i,
            forall|j: int| 0 <= j < i ==> !visited@[j] && !on_stack@[j],
        decreases n - i,
    {
        visited.push(false);
        on_stack.push(false);
        i = i + 1;
    }
    let mut path: Vec<usize> = Vec::new();
    let ghost mut fin: Seq<int> = Seq::new(n as nat, |j: int| 0);
    let ghost mut t: int = 0;
    let mut node: usize = 0;
    while node < n
        invariant
            n == g.len(),
            gv == graph_view(g@),
            node <= n,
            dfs_inv(gv, visited@, on_stack@, path@, fin, t),
            path@.len() == 0,
            forall|j: int| 0 <= j < n ==> !on_stack@[j],
            forall|j: int| 0 <= j < node ==> visited@[j],
        decreases n - node,
    {
        if !visited[node] {
            let (r, Ghost(f2), Ghost(t2)) = dfs_cycle(node, g, &mut visited, &mut on_stack, &mut path, Ghost(fin), Ghost(t));
            if r.is_some() {
                return r;
            }
            proof {
                fin = f2;
                t = t2;
            }
        }
        node = node + 1;
    }
    proof {
        assert forall|u: usize, v: usize| #[trigger] edge(gv, u, v) implies fin[v as int] < fin[u as int] by {
            assert(finished(visited@, on_stack@, u));
        }
        lemma_ranked_graph_acyclic(gv, fin);
    }
    None
}

/// The names of the handlers at the given positions.
pub open spec fn positions_named(hs: Seq<HandlerConfig>, c: Seq<usize>) -> Seq<Seq<char>> {
    c.map_values(|i: usize| hs[i as int].name@)
}

/// A closed walk of the position graph, read as names, is a forwarding cycle.
pub proof fn lemma_index_cycle_gives_name_cycle(hs: Seq<HandlerConfig>, g: Seq<Seq<usize>>, c: Seq<usize>)
    requires
        graph_of(hs, g),
        is_index_cycle(g, c),
    ensures
        is_forward_cycle(hs, positions_named(hs, c)),
{
    let nc = positions_named(hs, c);
    assert forall|k: int| 0 <= k < nc.len() - 1 implies #[trigger] forwards_to(hs, nc[k], nc[k + 1]) by {
        assert(edge(g, c[k], c[k + 1]));
        assert(c[k] < g.len() && c[k + 1] < g.len());
    }
}

/// A closed walk of the position graph that repeats no position before its
/// closing one repeats no name before its closing one either.
pub proof fn lemma_simple_index_cycle_gives_simple_names(hs: Seq<HandlerConfig>, g: Seq<Seq<usize>>, c: Seq<usize>)
    requires
        graph_of(hs, g),
        is_index_cycle(g, c),
        c.drop_last().no_duplicates(),
    ensures
        positions_named(hs, c).drop_last().no_duplicates(),
{
    let body = c.drop_last();
    let names = positions_named(hs, c).drop_last();
    assert forall|k: int| 0 <= k < body.len() implies is_last_named(hs, #[trigger] body[k] as int) by {
        assert(edge(g, c[k], c[k + 1]));
        assert(c[k] < g.len() && c[k + 1] < g.len());
    }
    assert forall|a: int, b: int| 0 <= a < names.len() && 0 <= b < names.len() && a != b
        implies names[a] != names[b] by {
        let p = body[a] as int;
        let q = body[b] as int;
        assert(is_last_named(hs, p));
        assert(is_last_named(hs, q));
        assert(p != q);
        assert(names[a] == hs[p].name@);
        assert(names[b] == hs[q].name@);
        if p < q {
            assert(hs[q].name@ != hs[p].name@);
        } else {
            assert(hs[p].name@ != hs[q].name@);
        }
    }
}

/// The position of the last handler with a given name.
pub open spec fn last_position(hs: Seq<HandlerConfig>, name: Seq<char>) -> int {
    choose|i: int| is_last_named(hs, i) && hs[i].name@ == name
}

/// Every name in use has a last handler.
proof fn lemma_last_named_exists(hs: Seq<HandlerConfig>, i: int)
    requires
        0 <= i < hs.len(),
    ensures
        exists|j: int| #[trigger] is_last_named(hs, j) && hs[j].name@ == hs[i].name@,
    decreases hs.len() - i,
{
    if !is_last_named(hs, i) {
        let j = choose|j: int| i < j < hs.len() && hs[j].name@ == hs[i].name@;
        lemma_last_named_exists(hs, j);
    } else {
        assert(is_last_named(hs, i) && hs[i].name@ == hs[i].name@);
    }
}

/// A forwarding cycle gives a closed walk of the position graph.
pub proof fn lemma_name_cycle_gives_index_cycle(hs: Seq<HandlerConfig>, g: Seq<Seq<usize>>, c: Seq<Seq<char>>)
    requires
        graph_of(hs, g),
        is_forward_cycle(hs, c),
        hs.len() <= usize::MAX,
    ensures
        has_index_cycle(g),
{
    // every name on the cycle has a last-named handler
    assert forall|k: int| 0 <= k < c.len() implies exists|i: int| #[trigger] is_last_named(hs, i) && hs[i].name@ == #[trigger] c[k] by {
        let kk = if k == c.len() - 1 { 0 } else { k };
        assert(forwards_to(hs, c[kk], c[kk + 1]));
        let i = choose|i: int| #[trigger] handler_forwards(hs, i, c[kk], c[kk + 1]);
        lemma_last_named_exists(hs, i);
    }
    let d = Seq::new(c.len(), |k: int| last_position(hs, c[k]) as usize);
    assert forall|k: int| 0 <= k < c.len() implies is_last_named(hs, last_position(hs, #[trigger] c[k]))
        && hs[last_position(hs, c[k])].name@ == c[k] by {
        assert(exists|i: int| #[trigger] is_last_named(hs, i) && hs[i].name@ == c[k]);
    }
    assert forall|k: int| 0 <= k < d.len() implies #[trigger] d[k] < g.len() by {
        assert(is_last_named(hs, last_position(hs, c[k])));
    }
    assert forall|k: int| 0 <= k < d.len() - 1 implies #[trigger] edge(g, d[k], d[k + 1]) by {
        assert(forwards_to(hs, c[k], c[k + 1]));
        assert(is_last_named(hs, last_position(hs, c[k])));
        assert(is_last_named(hs, last_position(hs, c[k + 1])));
        assert(hs[last_position(hs, c[k])].name@ == c[k]);
        assert(hs[last_position(hs, c[k + 1])].name@ == c[k + 1]);
        assert(d[k] as int == last_position(hs, c[k]));
        assert(d[k + 1] as int == last_position(hs, c[k + 1]));
    }
    assert(is_index_cycle(g, d));
}

} // verus!
