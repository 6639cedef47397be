use vstd::prelude::*;
use vstd::set_lib::{lemma_int_range, lemma_len_subset, set_int_range};
use crate::move_ir::call_graph::{add_edge, add_node, graph_new, graph_out, graph_weights, has_cycle, is_cyclic, is_path, total_edges};

verus! {

/// The walk `p` passes through no node that is to be avoided.
pub open spec fn avoids(p: Seq<usize>, avoid: Option<usize>) -> bool {
    avoid matches Some(x) ==> !p.contains(x)
}

/// The walk `p` leads from `a` to `b` along the edges of `out` and avoids
/// `avoid`.
pub open spec fn connects(
    out: Seq<Seq<usize>>,
    p: Seq<usize>,
    a: usize,
    b: usize,
    avoid: Option<usize>,
) -> bool {
    is_path(out, p) && p.first() == a && p.last() == b && avoids(p, avoid)
}

/// Some walk leads from `a` to `b` and avoids `avoid`.
pub open spec fn reaches(out: Seq<Seq<usize>>, a: usize, b: usize, avoid: Option<usize>) -> bool {
    exists|p: Seq<usize>| connects(out, p, a, b, avoid)
}

/// The lists of successors as sequences.
pub open spec fn adjacency(succ: Seq<Vec<usize>>) -> Seq<Seq<usize>> {
    Seq::new(succ.len(), |i: int| succ[i]@)
}

/// A walk to `x` goes on to a successor `y` of `x`.
pub proof fn lemma_extend(
    out: Seq<Seq<usize>>,
    a: usize,
    x: usize,
    y: usize,
    avoid: Option<usize>,
)
    requires
        reaches(out, a, x, avoid),
        x < out.len(),
        y < out.len(),
        out[x as int].contains(y),
        avoid != Some(y),
    ensures
        reaches(out, a, y, avoid),
{
    let p = choose|p: Seq<usize>| connects(out, p, a, x, avoid);
    let q = p.push(y);
    assert(is_path(out, q)) by {
        assert forall|i: int| 0 <= i < q.len() implies (#[trigger] q[i]) < out.len() by {
            if i < p.len() {
                assert(q[i] == p[i]);
            }
        }
        assert forall|i: int| 0 <= i < q.len() - 1 implies out[q[i] as int].contains(
            #[trigger] q[i + 1],
        ) by {
            if i < p.len() - 1 {
                assert(q[i] == p[i] && q[i + 1] == p[i + 1]);
            } else {
                assert(q[i] == x && q[i + 1] == y);
            }
        }
    }
    assert(avoids(q, avoid)) by {
        match avoid {
            Some(z) => {
                if q.contains(z) {
                    let i = choose|i: int| 0 <= i < q.len() && q[i] == z;
                    if i < p.len() {
                        assert(p[i] == z);
                        assert(p.contains(z));
                    }
                }
            },
            None => {},
        }
    }
    assert(q.first() == p.first());
    assert(connects(out, q, a, y, avoid));
}

/// A node reaches itself, unless it is to be avoided.
pub proof fn lemma_reaches_self(out: Seq<Seq<usize>>, a: usize, avoid: Option<usize>)
    requires
        a < out.len(),
        avoid != Some(a),
    ensures
        reaches(out, a, a, avoid),
{
    let p = seq![a];
    assert(is_path(out, p));
    assert(connects(out, p, a, a, avoid));
}

/// `marked` holds the start and, with each node it holds, all its
/// successors that are not to be avoided.
pub open spec fn closed(out: Seq<Seq<usize>>, marked: Seq<bool>, avoid: Option<usize>) -> bool {
    forall|x: int, j: int|
        0 <= x < out.len() && marked[x] && 0 <= j < out[x].len() && (#[trigger] out[x][j])
            < out.len() && avoid != Some(out[x][j]) ==> marked[out[x][j] as int]
}

/// In a closed marking that holds the first node of a walk, every node of
/// the walk is marked.
pub proof fn lemma_closed_holds_walk(
    out: Seq<Seq<usize>>,
    marked: Seq<bool>,
    avoid: Option<usize>,
    p: Seq<usize>,
    k: int,
)
    requires
        marked.len() == out.len(),
        closed(out, marked, avoid),
        is_path(out, p),
        avoids(p, avoid),
        marked[p[0] as int],
        0 <= k < p.len(),
    ensures
        marked[p[k] as int],
    decreases k,
{
    if k > 0 {
        lemma_closed_holds_walk(out, marked, avoid, p, k - 1);
        let x = p[k - 1] as int;
        let y = p[k];
        assert(out[p[k - 1] as int].contains(p[(k - 1) + 1]));
        let j = choose|j: int| 0 <= j < out[x].len() && out[x][j] == y;
        assert(out[x][j] < out.len());
        match avoid {
            Some(z) => {
                if z == y {
                    assert(p.contains(z));
                }
            },
            None => {},
        }
    }
}

/// For each node of the graph, whether a walk from `src` that avoids
/// `avoid` reaches it.
pub fn reach(succ: &Vec<Vec<usize>>, src: usize, avoid: Option<usize>) -> (marked: Vec<bool>)
    ensures
        marked@.len() == succ@.len(),
        forall|v: int|
            0 <= v < succ@.len() ==> (#[trigger] marked@[v] <==> reaches(
                adjacency(succ@),
                src,
                v as usize,
                avoid,
            )),
{
    let n = succ.len();
    let ghost out = adjacency(succ@);
    let mut marked: Vec<bool> = Vec::new();
    let mut k: usize = 0;
    while k < n
        invariant
            k <= n,
            marked@.len() == k,
            forall|j: int| 0 <= j < k ==> #[trigger] marked@[j] == false,
        decreases n - k,
    {
        marked.push(false);
        k += 1;
    }
    let blocked = match avoid {
        Some(z) => z == src,
        None => false,
    };
    if src >= n || blocked {
        proof {
            assert forall|v: int| 0 <= v < n implies (#[trigger] marked@[v] <==> reaches(
                out,
                src,
                v as usize,
                avoid,
            )) by {
                let vu = v as usize;
                if reaches(out, src, vu, avoid) {
                    let p = choose|p: Seq<usize>| connects(out, p, src, vu, avoid);
                    assert(p[0] == src);
                    assert(p.contains(src));
                }
            }
        }
        return marked;
    }
    marked.set(src, true);
    let mut work: Vec<usize> = Vec::new();
    work.push(src);
    let mut count: usize = 1;
    let ghost mut seen: Set<int> = Set::empty().insert(src as int);
    let ghost mut done: Set<int> = Set::empty();
    proof {
        lemma_reaches_self(out, src, avoid);
        lemma_int_range(0, n as int);
        assert(seen.subset_of(set_int_range(0, n as int)));
        lemma_len_subset(seen, set_int_range(0, n as int));
        assert(work@[0] == src);
    }
    while work.len() > 0
        invariant
            n == succ@.len(),
            out == adjacency(succ@),
            src < n,
            avoid != Some(src),
            marked@.len() == n,
            marked@[src as int],
            count <= n,
            seen.finite(),
            seen.len() == count,
            forall|v: int| seen.contains(v) <==> 0 <= v < n && marked@[v],
            forall|v: int| 0 <= v < n && #[trigger] marked@[v] ==> reaches(out, src, v as usize, avoid),
            forall|i: int| 0 <= i < work@.len() ==> (#[trigger] work@[i]) < n && marked@[work@[i] as int],
            forall|v: int|
                0 <= v < n && marked@[v] ==> done.contains(v) || exists|i: int|
                    0 <= i < work@.len() && work@[i] == v,
            forall|x: int, j: int|
                done.contains(x) && 0 <= j < out[x].len() && (#[trigger] out[x][j]) < n && avoid
                    != Some(out[x][j]) ==> marked@[out[x][j] as int],
            forall|x: int| done.contains(x) ==> 0 <= x < n && marked@[x],
        decreases 2 * (n - count) + work@.len(),
    {
        let ghost work0 = work@;
        let ghost m0 = 2 * (n - count) + work@.len();
        let x = work.pop().unwrap();
        let children = &succ[x];
        assert(children@ == out[x as int]);
        proof {
            assert(work0[work0.len() - 1] == x);
            assert forall|v: int| 0 <= v < n && marked@[v] implies v == x || done.contains(v)
                || exists|i: int| 0 <= i < work@.len() && work@[i] == v by {
                if !done.contains(v) {
                    let i = choose|i: int| 0 <= i < work0.len() && work0[i] == v;
                    if i < work0.len() - 1 {
                        assert(work@[i] == v);
                    }
                }
            }
            assert forall|i: int| 0 <= i < work@.len() implies (#[trigger] work@[i]) < n
                && marked@[work@[i] as int] by {
                assert(work@[i] == work0[i]);
            }
        }
        let mut j: usize = 0;
        while j < children.len()
            invariant
                j <= children.len(),
                n == succ@.len(),
                out == adjacency(succ@),
                x < n,
                children@ == out[x as int],
                marked@.len() == n,
                marked@[src as int],
                marked@[x as int],
                count <= n,
                seen.finite(),
                seen.len() == count,
                forall|v: int| seen.contains(v) <==> 0 <= v < n && marked@[v],
                forall|v: int| 0 <= v < n && #[trigger] marked@[v] ==> reaches(out, src, v as usize, avoid),
                forall|i: int|
                    0 <= i < work@.len() ==> (#[trigger] work@[i]) < n && marked@[work@[i] as int],
                forall|v: int|
                    0 <= v < n && marked@[v] ==> v == x || done.contains(v) || exists|i: int|
                        0 <= i < work@.len() && work@[i] == v,
                forall|a: int, b: int|
                    done.contains(a) && 0 <= b < out[a].len() && (#[trigger] out[a][b]) < n
                        && avoid != Some(out[a][b]) ==> marked@[out[a][b] as int],
                forall|a: int| done.contains(a) ==> 0 <= a < n && marked@[a],
                forall|b: int|
                    0 <= b < j && (#[trigger] out[x as int][b]) < n && avoid != Some(
                        out[x as int][b],
                    ) ==> marked@[out[x as int][b] as int],
                2 * (n - count) + work@.len() + 1 <= m0,
            decreases children.len() - j,
        {
            let y = children[j];
            let skip = match avoid {
                Some(z) => z == y,
                None => false,
            };
            if y < n && !skip && !marked[y] {
                let ghost marked0 = marked@;
                let ghost work1 = work@;
                marked.set(y, true);
                work.push(y);
                proof {
                    assert(out[x as int].contains(y));
                    lemma_extend(out, src, x, y, avoid);
                    assert(!seen.contains(y as int));
                    seen = seen.insert(y as int);
                    lemma_int_range(0, n as int);
                    assert(seen.subset_of(set_int_range(0, n as int)));
                    lemma_len_subset(seen, set_int_range(0, n as int));
                    assert forall|v: int| 0 <= v < n && marked@[v] implies v == x || done.contains(
                        v,
                    ) || exists|i: int| 0 <= i < work@.len() && work@[i] == v by {
                        if v == y {
                            assert(work@[work@.len() - 1] == y);
                        } else if v != x && !done.contains(v) {
                            assert(marked0[v]);
                            let i = choose|i: int| 0 <= i < work1.len() && work1[i] == v;
                            assert(work@[i] == v);
                        }
                    }
                    assert forall|i: int| 0 <= i < work@.len() implies (#[trigger] work@[i]) < n
                        && marked@[work@[i] as int] by {
                        if i < work1.len() {
                            assert(work@[i] == work1[i]);
                        }
                    }
                }
                count += 1;
            }
            j += 1;
        }
        proof {
            done = done.insert(x as int);
        }
    }
    proof {
        assert(closed(out, marked@, avoid)) by {
            assert forall|x: int, j: int|
                0 <= x < out.len() && marked@[x] && 0 <= j < out[x].len() && (#[trigger] out[x][j])
                    < out.len() && avoid != Some(out[x][j]) implies marked@[out[x][j] as int] by {
                assert(done.contains(x));
            }
        }
        assert forall|v: int| 0 <= v < n && reaches(out, src, v as usize, avoid) implies #[trigger] marked@[v] by {
            let vu = v as usize;
            let p = choose|p: Seq<usize>| connects(out, p, src, vu, avoid);
            lemma_closed_holds_walk(out, marked@, avoid, p, p.len() - 1);
        }
    }
    marked
}

/// A directed graph with an entry: for each of its nodes, which are
/// numbered from 0, the list of its successors.
pub struct FlowGraph {
    pub entry: usize,
    pub successors: Vec<Vec<usize>>,
}

/// A natural loop: the target of a back edge, its source, and the nodes
/// of the loop in ascending order.
#[derive(Debug, PartialEq, Eq)]
pub struct NaturalLoop {
    pub loop_header: usize,
    pub loop_latch: usize,
    pub loop_body: Vec<usize>,
}

/// The targets of those among the first `k` of `edges` that start at
/// `u`, in order.
pub open spec fn targets_of(edges: Seq<(usize, usize)>, u: usize, k: nat) -> Seq<usize>
    decreases k,
{
    if k == 0 {
        Seq::empty()
    } else if edges[k - 1].0 == u {
        targets_of(edges, u, (k - 1) as nat).push(edges[k - 1].1)
    } else {
        targets_of(edges, u, (k - 1) as nat)
    }
}

/// The node `d` lies on every walk from `entry` to `v`, and there is such
/// a walk.
pub open spec fn dominates(out: Seq<Seq<usize>>, entry: usize, d: usize, v: usize) -> bool {
    reaches(out, entry, v, None) && !reaches(out, entry, v, Some(d))
}

/// There is an edge from `u` to `v`, and `v` dominates `u`.
pub open spec fn is_back_edge(out: Seq<Seq<usize>>, entry: usize, u: usize, v: usize) -> bool {
    u < out.len() && v < out.len() && out[u as int].contains(v) && dominates(out, entry, v, u)
}

/// There is an edge from `u`, which the entry reaches, to `v`, and it is
/// no back edge.
pub open spec fn is_forward_edge(out: Seq<Seq<usize>>, entry: usize, u: usize, v: usize) -> bool {
    u < out.len() && v < out.len() && out[u as int].contains(v) && reaches(out, entry, u, None)
        && !dominates(out, entry, v, u)
}

/// Some walk of at least one edge along forward edges ends where it
/// starts.
pub open spec fn has_forward_cycle(out: Seq<Seq<usize>>, entry: usize) -> bool {
    exists|p: Seq<usize>|
        #![trigger p.len()]
        p.len() >= 2 && p.first() == p.last() && forall|i: int|
            0 <= i < p.len() - 1 ==> is_forward_edge(out, entry, #[trigger] p[i], p[i + 1])
}

/// The graph is reducible: without its back edges it has no cycle that
/// the entry reaches.
pub open spec fn reducible(out: Seq<Seq<usize>>, entry: usize) -> bool {
    !has_forward_cycle(out, entry)
}

/// The node `x` belongs to the natural loop of the back edge from `u` to
/// `v`: it is `v`, or it reaches `u` without passing `v`.
pub open spec fn in_loop(out: Seq<Seq<usize>>, u: usize, v: usize, x: usize) -> bool {
    x == v || reaches(out, x, u, Some(v))
}

/// The numbers below `n` of which `f` holds, in ascending order.
pub open spec fn members(n: nat, f: spec_fn(int) -> bool) -> Seq<usize>
    decreases n,
{
    if n == 0 {
        Seq::empty()
    } else if f(n - 1) {
        members((n - 1) as nat, f).push((n - 1) as usize)
    } else {
        members((n - 1) as nat, f)
    }
}

/// The back edges among the first `j` edges that leave the node `u`, in
/// order.
pub open spec fn back_edges_at(out: Seq<Seq<usize>>, entry: usize, u: usize, j: nat) -> Seq<
    (usize, usize),
>
    decreases j,
{
    if j == 0 {
        Seq::empty()
    } else {
        let prev = back_edges_at(out, entry, u, (j - 1) as nat);
        let v = out[u as int][j - 1];
        if is_back_edge(out, entry, u, v) {
            prev.push((u, v))
        } else {
            prev
        }
    }
}

/// The back edges that leave the first `n` nodes, in the order of the
/// nodes and of their lists of successors.
pub open spec fn back_edges(out: Seq<Seq<usize>>, entry: usize, n: nat) -> Seq<(usize, usize)>
    decreases n,
{
    if n == 0 {
        Seq::empty()
    } else {
        back_edges(out, entry, (n - 1) as nat) + back_edges_at(
            out,
            entry,
            (n - 1) as usize,
            out[n - 1].len(),
        )
    }
}

impl NaturalLoop {
    /// This is the natural loop of the back edge `edge`.
    pub open spec fn is_loop_of(&self, out: Seq<Seq<usize>>, edge: (usize, usize)) -> bool {
        &&& self.loop_latch == edge.0
        &&& self.loop_header == edge.1
        &&& self.loop_body@ == members(
            out.len(),
            |x: int| in_loop(out, edge.0, edge.1, x as usize),
        )
    }
}

impl FlowGraph {
    pub open spec fn view(&self) -> Seq<Seq<usize>> {
        adjacency(self.successors@)
    }

    /// The graph of `n` nodes with the edges `edges`; an edge that starts
    /// at no node of the graph is left out.
    #[verifier::loop_isolation(false)]
    pub fn new(entry: usize, n: usize, edges: &Vec<(usize, usize)>) -> (r: Self)
        ensures
            r.entry == entry,
            r@.len() == n,
            forall|u: int| 0 <= u < n ==> #[trigger] r@[u] == targets_of(edges@, u as usize, edges@.len()),
    {
        let mut successors: Vec<Vec<usize>> = Vec::new();
        let mut u: usize = 0;
        while u < n
            invariant
                u <= n,
                successors@.len() == u,
                forall|x: int| 0 <= x < u ==> (#[trigger] successors@[x])@ == targets_of(edges@, x as usize, 0),
            decreases n - u,
        {
            successors.push(Vec::new());
            u += 1;
        }
        let mut k: usize = 0;
        while k < edges.len()
            invariant
                k <= edges.len(),
                successors@.len() == n,
                forall|x: int|
                    0 <= x < n ==> (#[trigger] successors@[x])@ == targets_of(
                        edges@,
                        x as usize,
                        k as nat,
                    ),
            decreases edges.len() - k,
        {
            let (a, b) = edges[k];
            let ghost before = successors@;
            if a < n {
                successors[a].push(b);
            }
            assert forall|x: int| 0 <= x < n implies (#[trigger] successors@[x])@ == targets_of(
                edges@,
                x as usize,
                (k + 1) as nat,
            ) by {
                assert(before[x]@ == targets_of(edges@, x as usize, k as nat));
            }
            k += 1;
        }
        let r = FlowGraph { entry, successors };
        assert forall|u: int| 0 <= u < n implies #[trigger] r@[u] == targets_of(
            edges@,
            u as usize,
            edges@.len(),
        ) by {}
        r
    }

    /// Whether the edge from `u` to `v`, both nodes of the graph, is a
    /// back edge, and whether the entry reaches `u`.
    fn classify(&self, u: usize, v: usize, from_entry: &Vec<bool>) -> (back: bool)
        requires
            u < self@.len(),
            v < self@.len(),
            self@[u as int].contains(v),
            from_entry@.len() == self@.len(),
            forall|x: int|
                0 <= x < self@.len() ==> (#[trigger] from_entry@[x] <==> reaches(
                    self@,
                    self.entry,
                    x as usize,
                    None,
                )),
        ensures
            back == is_back_edge(self@, self.entry, u, v),
    {
        if !from_entry[u] {
            return false;
        }
        let without = reach(&self.successors, self.entry, Some(v));
        !without[u]
    }

    /// The nodes of the natural loop of the back edge from `u` to `v`, in
    /// ascending order.
    #[verifier::loop_isolation(false)]
    fn loop_body(&self, u: usize, v: usize) -> (body: Vec<usize>)
        requires
            u < self@.len(),
        ensures
            body@ == members(self@.len(), |x: int| in_loop(self@, u, v, x as usize)),
    {
        let n = self.successors.len();
        let ghost f = |x: int| in_loop(self@, u, v, x as usize);
        let mut body: Vec<usize> = Vec::new();
        let mut x: usize = 0;
        assert(body@ =~= members(0, f));
        while x < n
            invariant
                x <= n,
                body@ == members(x as nat, f),
            decreases n - x,
        {
            let inside = if x == v {
                true
            } else {
                let marked = reach(&self.successors, x, Some(v));
                marked[u]
            };
            assert(inside == f(x as int));
            if inside {
                body.push(x);
            }
            x += 1;
        }
        body
    }
}

/// The number of edges that leave the first `k` nodes.
pub proof fn lemma_total_take(out: Seq<Seq<usize>>, k: int)
    requires
        0 <= k < out.len(),
    ensures
        total_edges(out.take(k + 1)) == total_edges(out.take(k)) + out[k].len(),
        total_edges(out.take(k)) <= total_edges(out.take(k + 1)),
{
    assert(out.take(k + 1).drop_last() =~= out.take(k));
}

pub proof fn lemma_total_take_le(out: Seq<Seq<usize>>, k: int, m: int)
    requires
        0 <= k <= m <= out.len(),
    ensures
        total_edges(out.take(k)) <= total_edges(out.take(m)),
    decreases m - k,
{
    if k < m {
        lemma_total_take(out, k);
        lemma_total_take_le(out, k + 1, m);
    }
}

/// The edge from `a` to `b` is among those that leave the first `u`
/// nodes or among the first `j` that leave the node `u`.
pub open spec fn processed(out: Seq<Seq<usize>>, u: int, j: int, a: usize, b: usize) -> bool {
    a < out.len() && ((a < u && out[a as int].contains(b)) || (a == u && exists|i: int|
        0 <= i < j && i < out[a as int].len() && out[a as int][i] == b))
}

/// The graph `g` holds exactly the forward edges among the processed
/// ones.
pub open spec fn holds_forward(
    g: Seq<Seq<usize>>,
    out: Seq<Seq<usize>>,
    entry: usize,
    u: int,
    j: int,
) -> bool {
    &&& g.len() == out.len()
    &&& forall|a: int, b: usize|
        0 <= a < out.len() ==> (#[trigger] g[a].contains(b) <==> is_forward_edge(
            out,
            entry,
            a as usize,
            b,
        ) && processed(out, u, j, a as usize, b))
}

/// A graph that holds exactly the forward edges has a cycle exactly if
/// there is a cycle of forward edges.
pub proof fn lemma_forward_cycle(g: Seq<Seq<usize>>, out: Seq<Seq<usize>>, entry: usize)
    requires
        holds_forward(g, out, entry, out.len() as int, 0),
    ensures
        has_cycle(g) <==> has_forward_cycle(out, entry),
{
    if has_cycle(g) {
        let p = choose|p: Seq<usize>| is_path(g, p) && p.len() >= 2 && p.first() == p.last();
        assert forall|i: int| 0 <= i < p.len() - 1 implies is_forward_edge(
            out,
            entry,
            #[trigger] p[i],
            p[i + 1],
        ) by {
            assert(g[p[i] as int].contains(p[i + 1]));
        }
        assert(p.len() >= 2);
    }
    if has_forward_cycle(out, entry) {
        let p = choose|p: Seq<usize>|
            #![trigger p.len()]
            p.len() >= 2 && p.first() == p.last() && forall|i: int|
                0 <= i < p.len() - 1 ==> is_forward_edge(out, entry, #[trigger] p[i], p[i + 1]);
        assert(is_path(g, p)) by {
            assert forall|i: int| 0 <= i < p.len() implies (#[trigger] p[i]) < g.len() by {
                if i < p.len() - 1 {
                    assert(is_forward_edge(out, entry, p[i], p[i + 1]));
                } else {
                    assert(is_forward_edge(out, entry, p[0], p[1]));
                    assert(p[i] == p[0]);
                }
            }
            assert forall|i: int| 0 <= i < p.len() - 1 implies g[p[i] as int].contains(
                #[trigger] p[i + 1],
            ) by {
                assert(is_forward_edge(out, entry, p[i], p[i + 1]));
                assert(processed(out, out.len() as int, 0, p[i], p[i + 1]));
            }
        }
    }
}

impl FlowGraph {
    /// The graph is small enough for the search for cycles, which
    /// numbers nodes and edges with 32 bits.
    pub open spec fn fits(&self) -> bool {
        self@.len() < u32::MAX && total_edges(self@) < u32::MAX
    }

    /// The number of edges of the graph, if it is below `2^32 - 1`.
    #[verifier::loop_isolation(false)]
    fn count_edges(&self) -> (r: Option<usize>)
        ensures
            match r {
                Some(t) => t == total_edges(self@) && t < u32::MAX,
                None => total_edges(self@) >= u32::MAX,
            },
    {
        let n = self.successors.len();
        let ghost out = self@;
        let mut total: usize = 0;
        let mut u: usize = 0;
        assert(out.take(0) =~= Seq::<Seq<usize>>::empty());
        while u < n
            invariant
                u <= n,
                total == total_edges(out.take(u as int)),
                total < u32::MAX,
            decreases n - u,
        {
            proof {
                lemma_total_take(out, u as int);
                lemma_total_take_le(out, u + 1, n as int);
                assert(out.take(n as int) =~= out);
            }
            let len = self.successors[u].len();
            if len >= u32::MAX as usize - total {
                return None;
            }
            total = total + len;
            u += 1;
        }
        assert(out.take(n as int) =~= out);
        Some(total)
    }

    /// The natural loops of the graph, one for each back edge, in the
    /// order of the nodes that the back edges leave and of their lists of
    /// successors. `None` where the graph is not reducible, or too large
    /// to tell.
    #[verifier::loop_isolation(false)]
    pub fn compute_reducible(&self) -> (r: Option<Vec<NaturalLoop>>)
        ensures
            r is Some <==> self.fits() && reducible(self@, self.entry),
            r matches Some(loops) ==> {
                let edges = back_edges(self@, self.entry, self@.len());
                &&& loops@.len() == edges.len()
                &&& forall|i: int|
                    0 <= i < loops@.len() ==> (#[trigger] loops@[i]).is_loop_of(self@, edges[i])
            },
    {
        let n = self.successors.len();
        let ghost out = self@;
        let entry = self.entry;
        if n >= u32::MAX as usize {
            return None;
        }
        let total = match self.count_edges() {
            Some(t) => t,
            None => {
                return None;
            },
        };
        let from_entry = reach(&self.successors, entry, None);
        let mut forward = graph_new();
        let mut k: usize = 0;
        while k < n
            invariant
                k <= n,
                graph_out(forward) == Seq::new(k as nat, |x: int| Seq::<usize>::empty()),
                graph_weights(forward).len() == k,
            decreases n - k,
        {
            add_node(&mut forward, (k, 0));
            assert(graph_out(forward) =~= Seq::new((k + 1) as nat, |x: int| Seq::<usize>::empty()));
            k += 1;
        }
        proof {
            crate::move_ir::build_graphs::lemma_no_edges(n as nat);
            assert(out.take(0) =~= Seq::<Seq<usize>>::empty());
        }
        let mut found: Vec<(usize, usize)> = Vec::new();
        let mut u: usize = 0;
        while u < n
            invariant
                u <= n,
                found@ == back_edges(out, entry, u as nat),
                forall|x: int| 0 <= x < found@.len() ==> (#[trigger] found@[x]).0 < n,
                holds_forward(graph_out(forward), out, entry, u as int, 0),
                total_edges(graph_out(forward)) <= total_edges(out.take(u as int)),
            decreases n - u,
        {
            let children = &self.successors[u];
            assert(children@ == out[u as int]);
            let ghost base = found@;
            let ghost edges0 = total_edges(graph_out(forward));
            proof {
                lemma_total_take(out, u as int);
                lemma_total_take_le(out, u + 1, n as int);
                assert(out.take(n as int) =~= out);
            }
            let mut j: usize = 0;
            assert(found@ =~= base + back_edges_at(out, entry, u, 0));
            while j < children.len()
                invariant
                    j <= children.len(),
                    found@ == base + back_edges_at(out, entry, u, j as nat),
                    forall|x: int| 0 <= x < found@.len() ==> (#[trigger] found@[x]).0 < n,
                    holds_forward(graph_out(forward), out, entry, u as int, j as int),
                    total_edges(graph_out(forward)) <= edges0 + j,
                decreases children.len() - j,
            {
                let v = children[j];
                let ghost g0 = graph_out(forward);
                let ghost found0 = found@;
                if v < n {
                    assert(out[u as int].contains(v));
                    if self.classify(u, v, &from_entry) {
                        found.push((u, v));
                    } else if from_entry[u] {
                        proof {
                            crate::move_ir::build_graphs::lemma_total_edges_update(
                                g0,
                                u as int,
                                seq![v] + g0[u as int],
                            );
                        }
                        add_edge(&mut forward, u, v);
                    }
                }
                proof {
                    assert(found@ =~= base + back_edges_at(out, entry, u, (j + 1) as nat)) by {
                        assert(found0 == base + back_edges_at(out, entry, u, j as nat));
                    }
                    let g1 = graph_out(forward);
                    assert forall|a: int, b: usize| 0 <= a < out.len() implies (#[trigger] g1[a].contains(
                        b,
                    ) <==> is_forward_edge(out, entry, a as usize, b) && processed(
                        out,
                        u as int,
                        j + 1,
                        a as usize,
                        b,
                    )) by {
                        assert(g0[a].contains(b) <==> is_forward_edge(out, entry, a as usize, b)
                            && processed(out, u as int, j as int, a as usize, b));
                        if a == u {
                            if b == v {
                                assert(out[u as int][j as int] == v);
                                if g1 != g0 {
                                    assert(g1[a][0] == v);
                                }
                            } else {
                                if g1 != g0 {
                                    if g1[a].contains(b) {
                                        let i = choose|i: int| 0 <= i < g1[a].len() && g1[a][i] == b;
                                        assert(g0[a][i - 1] == b);
                                    }
                                    if g0[a].contains(b) {
                                        let i = choose|i: int| 0 <= i < g0[a].len() && g0[a][i] == b;
                                        assert(g1[a][i + 1] == b);
                                    }
                                }
                            }
                        }
                    }
                }
                j += 1;
            }
            proof {
                let g1 = graph_out(forward);
                assert forall|a: int, b: usize| 0 <= a < out.len() implies (#[trigger] g1[a].contains(
                    b,
                ) <==> is_forward_edge(out, entry, a as usize, b) && processed(
                    out,
                    u + 1,
                    0,
                    a as usize,
                    b,
                )) by {
                    if a == u && out[a].contains(b) {
                        let i = choose|i: int| 0 <= i < out[a].len() && out[a][i] == b;
                        assert(processed(out, u as int, children@.len() as int, a as usize, b));
                    }
                }
            }
            u += 1;
        }
        proof {
            lemma_forward_cycle(graph_out(forward), out, entry);
        }
        if is_cyclic(&forward) {
            return None;
        }
        let mut loops: Vec<NaturalLoop> = Vec::new();
        let mut i: usize = 0;
        while i < found.len()
            invariant
                i <= found.len(),
                loops@.len() == i,
                forall|x: int| 0 <= x < i ==> (#[trigger] loops@[x]).is_loop_of(out, found@[x]),
                forall|x: int| 0 <= x < found@.len() ==> (#[trigger] found@[x]).0 < n,
            decreases found.len() - i,
        {
            let (a, b) = found[i];
            let body = self.loop_body(a, b);
            loops.push(NaturalLoop { loop_header: b, loop_latch: a, loop_body: body });
            i += 1;
        }
        Some(loops)
    }
}

} // verus!
