use vstd::prelude::*;
use crate::move_ir::build_graphs::key_order;
use vstd::string::StringExecFns;
use crate::move_ir::call_graph::{
    clone_graph, edge_count, find_edge, first_at, graph_edge_place, graph_out, graph_weights,
    has_cycle, is_cyclic, node_count, node_weight, remove_edge, successors, total_edges, CallGraph,
};
use crate::move_ir::generate_bytecode::StacklessBytecodeGenerator;
use crate::move_ir::types::{Symbol, SymbolPool};
use crate::utils::strings::{join, joined, texts};

verus! {

/// A walk in depth from `node`, with `stack` the path walked so far: the
/// path up to and with the first node that is met a second time, if the
/// walk meets one. Children are tried in the order of `out`, and a child
/// that leads to no such node is left again.
pub open spec fn dfs(out: Seq<Seq<usize>>, node: usize, stack: Seq<usize>) -> Option<Seq<usize>>
    decreases out.len() - stack.len(), 0nat, 0nat,
{
    if stack.len() >= out.len() || node >= out.len() {
        None
    } else {
        dfs_children(out, node, stack.push(node), 0)
    }
}

/// The walk from the children of `node` from place `i` on.
pub open spec fn dfs_children(out: Seq<Seq<usize>>, node: usize, stack: Seq<usize>, i: nat) -> Option<
    Seq<usize>,
>
    decreases out.len() - stack.len(), 1nat, out[node as int].len() - i,
{
    if node >= out.len() || i >= out[node as int].len() || stack.len() > out.len() {
        None
    } else {
        let c = out[node as int][i as int];
        if stack.contains(c) {
            Some(stack.push(c))
        } else {
            match dfs(out, c, stack) {
                Some(s) => Some(s),
                None => dfs_children(out, node, stack, i + 1),
            }
        }
    }
}

/// The part of `s` from the place `j` or the nearest place before it that
/// holds the last node of `s`; all of `s` where there is none.
pub open spec fn closing(s: Seq<usize>, j: int) -> Seq<usize>
    decreases j + 1,
{
    if j < 0 || j >= s.len() {
        s
    } else if s[j] == s.last() {
        s.subrange(j, s.len() as int)
    } else {
        closing(s, j - 1)
    }
}

/// The cycle that a walk from `start` finds: from the node met twice
/// back to itself. Empty where the walk finds none.
pub open spec fn find_cycle(out: Seq<Seq<usize>>, start: usize) -> Seq<usize> {
    match dfs(out, start, Seq::empty()) {
        Some(s) => closing(s, s.len() - 2),
        None => Seq::empty(),
    }
}

/// The first place in `s` that holds `x`; the length of `s` where none
/// does.
pub open spec fn first_index(s: Seq<usize>, x: usize) -> int
    decreases s.len(),
{
    if s.len() == 0 {
        0
    } else if s[0] == x {
        0
    } else {
        1 + first_index(s.drop_first(), x)
    }
}

pub proof fn lemma_first_index(s: Seq<usize>, x: usize, p: int)
    requires
        first_at(s, x, p),
    ensures
        first_index(s, x) == p,
    decreases s.len(),
{
    if p > 0 {
        assert(s[0] != x);
        let t = s.drop_first();
        assert(first_at(t, x, p - 1)) by {
            assert(t[p - 1] == s[p]);
            assert forall|j: int| 0 <= j < p - 1 implies t[j] != x by {
                assert(t[j] == s[j + 1]);
            }
        }
        lemma_first_index(t, x, p - 1);
    }
}

/// The graph without the first edge from `a` to `b`, if there is one.
pub open spec fn without_edge(out: Seq<Seq<usize>>, a: usize, b: usize) -> Seq<Seq<usize>> {
    if a < out.len() && b < out.len() && out[a as int].contains(b) {
        out.update(a as int, out[a as int].remove(first_index(out[a as int], b)))
    } else {
        out
    }
}

/// The graph without the first `k` edges of the walk `cycle`.
pub open spec fn without_cycle(out: Seq<Seq<usize>>, cycle: Seq<usize>, k: nat) -> Seq<Seq<usize>>
    decreases k,
{
    if k == 0 || k >= cycle.len() {
        out
    } else {
        without_edge(without_cycle(out, cycle, (k - 1) as nat), cycle[k - 1], cycle[k as int])
    }
}

/// The graph without all edges of the walk `cycle`.
pub open spec fn cut(out: Seq<Seq<usize>>, cycle: Seq<usize>) -> Seq<Seq<usize>> {
    without_cycle(out, cycle, (cycle.len() - 1) as nat)
}

/// The cycles that walks from `start` find in at most `fuel` rounds, each
/// round in the graph without the cycles found before.
pub open spec fn cycles_from(out: Seq<Seq<usize>>, start: usize, fuel: nat) -> Seq<Seq<usize>>
    decreases fuel,
{
    if fuel == 0 || find_cycle(out, start).len() == 0 {
        Seq::empty()
    } else {
        seq![find_cycle(out, start)] + cycles_from(
            cut(out, find_cycle(out, start)),
            start,
            (fuel - 1) as nat,
        )
    }
}

/// The graph that these rounds leave.
pub open spec fn graph_after(out: Seq<Seq<usize>>, start: usize, fuel: nat) -> Seq<Seq<usize>>
    decreases fuel,
{
    if fuel == 0 || find_cycle(out, start).len() == 0 {
        out
    } else {
        graph_after(cut(out, find_cycle(out, start)), start, (fuel - 1) as nat)
    }
}

/// The graph after walks from each of the first `n` nodes of `order`,
/// each with as many rounds as the graph has edges when its turn comes.
pub open spec fn graph_upto(out: Seq<Seq<usize>>, order: Seq<usize>, n: nat) -> Seq<Seq<usize>>
    decreases n,
{
    if n == 0 {
        out
    } else {
        let prev = graph_upto(out, order, (n - 1) as nat);
        graph_after(prev, order[n - 1], total_edges(prev))
    }
}

/// The cycles that walks from each of the first `n` nodes of `order`
/// find, in the order in which they are found.
pub open spec fn cycles_upto(out: Seq<Seq<usize>>, order: Seq<usize>, n: nat) -> Seq<Seq<usize>>
    decreases n,
{
    if n == 0 {
        Seq::empty()
    } else {
        let prev = graph_upto(out, order, (n - 1) as nat);
        cycles_upto(out, order, (n - 1) as nat) + cycles_from(prev, order[n - 1], total_edges(prev))
    }
}

/// `visited` marks exactly the nodes on `stack`, which are nodes of a
/// graph of `n` nodes.
pub open spec fn marks(visited: Seq<bool>, stack: Seq<usize>, n: nat) -> bool {
    &&& visited.len() == n
    &&& forall|i: int| 0 <= i < stack.len() ==> (#[trigger] stack[i]) < n
    &&& forall|x: int| 0 <= x < n ==> #[trigger] visited[x] == stack.contains(x as usize)
}

/// Walks in depth from `node`. Returns whether a node was met a second
/// time; then `stack` holds the path up to and with it, else `stack` and
/// `visited` are as before.
#[verifier::loop_isolation(false)]
pub fn dfs_exec(graph: &CallGraph, node: usize, visited: &mut Vec<bool>, stack: &mut Vec<usize>) -> (found:
    bool)
    requires
        marks(old(visited)@, old(stack)@, graph_out(*graph).len()),
        !old(stack)@.contains(node),
    ensures
        found == (dfs(graph_out(*graph), node, old(stack)@) is Some),
        found ==> Some(final(stack)@) == dfs(graph_out(*graph), node, old(stack)@),
        !found ==> final(stack)@ == old(stack)@ && final(visited)@ == old(visited)@,
        final(visited)@.len() == old(visited)@.len(),
    decreases graph_out(*graph).len() - old(stack)@.len(), 0nat, 0nat,
{
    let ghost out = graph_out(*graph);
    let n = node_count(graph);
    if stack.len() >= n || node >= n {
        return false;
    }
    stack.push(node);
    visited.set(node, true);
    let ghost stack1 = stack@;
    let ghost visited1 = visited@;
    proof {
        assert(marks(visited1, stack1, n as nat)) by {
            assert forall|x: int| 0 <= x < n implies #[trigger] visited1[x] == stack1.contains(
                x as usize,
            ) by {
                if stack1.contains(x as usize) {
                    let i = choose|i: int| 0 <= i < stack1.len() && stack1[i] == x as usize;
                    if i < old(stack)@.len() {
                        assert(old(stack)@[i] == x as usize);
                    }
                }
                if old(stack)@.contains(x as usize) {
                    let i = choose|i: int| 0 <= i < old(stack)@.len() && old(stack)@[i] == x as usize;
                    assert(stack1[i] == x as usize);
                }
                if x == node {
                    assert(stack1[stack1.len() - 1] == node);
                }
            }
        }
    }
    let children = successors(graph, node);
    let mut i: usize = 0;
    while i < children.len()
        invariant
            i <= children.len(),
            stack@ == stack1,
            visited@ == visited1,
            dfs_children(out, node, stack1, i as nat) == dfs_children(out, node, stack1, 0),
        decreases children.len() - i,
    {
        let c = children[i];
        if c < n && visited[c] {
            stack.push(c);
            return true;
        }
        assert(!stack1.contains(c)) by {
            if c < n {
                assert(visited1[c as int] == stack1.contains(c));
            } else {
                if stack1.contains(c) {
                    let j = choose|j: int| 0 <= j < stack1.len() && stack1[j] == c;
                    assert(stack1[j] < n);
                }
            }
        }
        if dfs_exec(graph, c, visited, stack) {
            return true;
        }
        i += 1;
    }
    stack.pop();
    visited.set(node, false);
    proof {
        assert(stack@ =~= old(stack)@);
        assert(visited@ =~= old(visited)@) by {
            assert(old(visited)@[node as int] == old(stack)@.contains(node));
        }
    }
    false
}

/// The cycle that a walk from `start_node` finds; empty where it finds
/// none.
#[verifier::loop_isolation(false)]
pub fn find_cycle_exec(graph: &CallGraph, start_node: usize) -> (r: Vec<usize>)
    ensures
        r@ == find_cycle(graph_out(*graph), start_node),
{
    let n = node_count(graph);
    let ghost out = graph_out(*graph);
    let mut visited: Vec<bool> = Vec::new();
    let mut k: usize = 0;
    while k < n
        invariant
            k <= n,
            visited@.len() == k,
            forall|j: int| 0 <= j < k ==> #[trigger] visited@[j] == false,
        decreases n - k,
    {
        visited.push(false);
        k += 1;
    }
    let mut stack: Vec<usize> = Vec::new();
    assert(stack@ =~= Seq::<usize>::empty());
    if !dfs_exec(graph, start_node, &mut visited, &mut stack) {
        let none: Vec<usize> = Vec::new();
        assert(none@ =~= Seq::<usize>::empty());
        return none;
    }
    let len = stack.len();
    if len == 0 {
        return stack;
    }
    let last = stack[len - 1];
    let mut from: usize = 0;
    if len >= 2 {
        let mut j: usize = len - 1;
        while j > 0
            invariant
                j <= len - 1,
                from == 0,
                closing(stack@, len - 2) == closing(stack@, j - 1),
            decreases j,
        {
            if stack[j - 1] == last {
                from = j - 1;
                break;
            }
            j -= 1;
        }
        assert(closing(stack@, len - 2) == stack@.subrange(from as int, len as int)) by {
            if from == 0 && (stack@[0] != last || j == 0) {
                assert(stack@.subrange(0, len as int) =~= stack@);
            }
        }
    } else {
        assert(stack@.subrange(0, len as int) =~= stack@);
    }
    let mut path: Vec<usize> = Vec::new();
    let mut i: usize = from;
    assert(path@ =~= stack@.subrange(from as int, from as int));
    while i < len
        invariant
            from <= i <= len,
            path@ == stack@.subrange(from as int, i as int),
        decreases len - i,
    {
        path.push(stack[i]);
        assert(path@ =~= stack@.subrange(from as int, i + 1));
        i += 1;
    }
    path
}

/// Takes the first edge from `a` to `b` out of the graph, if there is
/// one.
pub fn remove_first_edge(graph: &mut CallGraph, a: usize, b: usize)
    ensures
        graph_out(*final(graph)) == without_edge(graph_out(*old(graph)), a, b),
        graph_weights(*final(graph)) == graph_weights(*old(graph)),
{
    let n = node_count(graph);
    if a < n && b < n {
        match find_edge(graph, a, b) {
            Some(e) => {
                proof {
                    lemma_first_index(graph_out(*graph)[a as int], b, graph_edge_place(*graph, e).1);
                }
                remove_edge(graph, e);
            },
            None => {},
        }
    }
}

/// Takes the edges of the walk `cycle_path` out of the graph.
#[verifier::loop_isolation(false)]
pub fn remove_cycle(graph: &mut CallGraph, cycle_path: &Vec<usize>)
    ensures
        graph_out(*final(graph)) == cut(graph_out(*old(graph)), cycle_path@),
        graph_weights(*final(graph)) == graph_weights(*old(graph)),
{
    let ghost out = graph_out(*graph);
    if cycle_path.len() < 2 {
        return;
    }
    let mut k: usize = 0;
    while k < cycle_path.len() - 1
        invariant
            k <= cycle_path.len() - 1,
            graph_out(*graph) == without_cycle(out, cycle_path@, k as nat),
            graph_weights(*graph) == graph_weights(*old(graph)),
        decreases cycle_path.len() - 1 - k,
    {
        remove_first_edge(graph, cycle_path[k], cycle_path[k + 1]);
        k += 1;
    }
}

/// Finds cycles by walks from `start_node`, taking the edges of each out
/// of the graph, until a walk finds none or as many rounds are done as
/// the graph had edges. The cycles go behind `cycle_paths`.
#[verifier::loop_isolation(false)]
pub fn find_cycles(graph: &mut CallGraph, start_node: usize, cycle_paths: &mut Vec<Vec<usize>>)
    ensures
        paths_view(final(cycle_paths)@) == paths_view(old(cycle_paths)@) + cycles_from(
            graph_out(*old(graph)),
            start_node,
            total_edges(graph_out(*old(graph))),
        ),
        graph_out(*final(graph)) == graph_after(
            graph_out(*old(graph)),
            start_node,
            total_edges(graph_out(*old(graph))),
        ),
        graph_weights(*final(graph)) == graph_weights(*old(graph)),
{
    let ghost out0 = graph_out(*graph);
    let ghost fuel0 = total_edges(out0);
    let ghost paths0 = paths_view(cycle_paths@);
    let mut fuel = edge_count(graph);
    assert(paths_view(cycle_paths@) =~= paths0 + Seq::<Seq<usize>>::empty());
    let ghost mut found: Seq<Seq<usize>> = Seq::empty();
    while fuel > 0
        invariant
            graph_weights(*graph) == graph_weights(*old(graph)),
            paths_view(cycle_paths@) == paths0 + found,
            cycles_from(out0, start_node, fuel0) == found + cycles_from(
                graph_out(*graph),
                start_node,
                fuel as nat,
            ),
            graph_after(out0, start_node, fuel0) == graph_after(
                graph_out(*graph),
                start_node,
                fuel as nat,
            ),
        decreases fuel,
    {
        let cycle_path = find_cycle_exec(graph, start_node);
        if cycle_path.len() == 0 {
            break;
        }
        let ghost before = paths_view(cycle_paths@);
        let ghost now = graph_out(*graph);
        remove_cycle(graph, &cycle_path);
        cycle_paths.push(cycle_path);
        proof {
            assert(paths_view(cycle_paths@) =~= before.push(cycle_path@));
            assert(found + (seq![cycle_path@] + cycles_from(
                cut(now, cycle_path@),
                start_node,
                (fuel - 1) as nat,
            )) =~= found.push(cycle_path@) + cycles_from(
                cut(now, cycle_path@),
                start_node,
                (fuel - 1) as nat,
            ));
            found = found.push(cycle_path@);
        }
        fuel -= 1;
    }
    proof {
        assert(found + Seq::<Seq<usize>>::empty() =~= found);
    }
}

pub open spec fn paths_view(paths: Seq<Vec<usize>>) -> Seq<Seq<usize>> {
    Seq::new(paths.len(), |i: int| paths[i]@)
}

/// The name of the function behind a node of weight `w`: what the pool
/// holds under the handle that the weight carries, or nothing where the
/// pool has no such handle.
pub open spec fn node_name(pool: Seq<Seq<char>>, w: (usize, usize)) -> Seq<char> {
    if w.1 < pool.len() {
        pool[w.1 as int]
    } else {
        Seq::empty()
    }
}

/// The names of the nodes of `path`, those that are nodes of the graph.
pub open spec fn path_names(
    pool: Seq<Seq<char>>,
    weights: Seq<(usize, usize)>,
    path: Seq<usize>,
    n: nat,
) -> Seq<Seq<char>>
    decreases n,
{
    if n == 0 {
        Seq::empty()
    } else {
        let prev = path_names(pool, weights, path, (n - 1) as nat);
        if path[n - 1] < weights.len() {
            prev.push(node_name(pool, weights[path[n - 1] as int]))
        } else {
            prev
        }
    }
}

/// A cycle as the detector reports it: in round brackets the names of
/// its functions with arrows between them, the first repeated at the
/// end.
pub open spec fn cycle_text(pool: Seq<Seq<char>>, weights: Seq<(usize, usize)>, path: Seq<usize>) -> Seq<
    char,
> {
    let names = path_names(pool, weights, path, path.len());
    "("@ + joined(names, "->"@, names.len()) + ")"@
}

/// The name of the function behind the node `nodeid`.
pub fn get_function_name(nodeid: usize, graph: &CallGraph, symbol_pool: &SymbolPool) -> (r: Option<
    String,
>)
    ensures
        match r {
            Some(s) => nodeid < graph_weights(*graph).len() && s@ == node_name(
                symbol_pool@,
                graph_weights(*graph)[nodeid as int],
            ),
            None => nodeid >= graph_weights(*graph).len(),
        },
{
    if nodeid < node_count(graph) {
        let w = node_weight(graph, nodeid);
        if w.1 < symbol_pool.len() {
            Some(symbol_pool.string(Symbol(w.1)).clone())
        } else {
            Some(String::new())
        }
    } else {
        None
    }
}

/// The cycles as the detector reports them.
#[verifier::loop_isolation(false)]
pub fn convert_cycle_paths(
    cycle_paths: &Vec<Vec<usize>>,
    graph: &CallGraph,
    symbol_pool: &SymbolPool,
) -> (r: Vec<String>)
    ensures
        r@.len() == cycle_paths@.len(),
        forall|i: int|
            0 <= i < r@.len() ==> (#[trigger] r@[i])@ == cycle_text(
                symbol_pool@,
                graph_weights(*graph),
                cycle_paths@[i]@,
            ),
{
    let ghost pool = symbol_pool@;
    let ghost weights = graph_weights(*graph);
    let mut ret: Vec<String> = Vec::new();
    let mut i: usize = 0;
    while i < cycle_paths.len()
        invariant
            i <= cycle_paths.len(),
            ret@.len() == i,
            forall|j: int|
                0 <= j < i ==> (#[trigger] ret@[j])@ == cycle_text(pool, weights, cycle_paths@[j]@),
        decreases cycle_paths.len() - i,
    {
        let path = &cycle_paths[i];
        let mut names: Vec<String> = Vec::new();
        let mut k: usize = 0;
        assert(texts(names@) =~= path_names(pool, weights, path@, 0));
        while k < path.len()
            invariant
                k <= path.len(),
                texts(names@) == path_names(pool, weights, path@, k as nat),
            decreases path.len() - k,
        {
            let ghost before = texts(names@);
            match get_function_name(path[k], graph, symbol_pool) {
                Some(name) => {
                    names.push(name);
                    assert(texts(names@) =~= before.push(name@));
                },
                None => {},
            }
            k += 1;
        }
        let mut text = String::from_str("(");
        text.append(join(&names, "->").as_str());
        text.append(")");
        ret.push(text);
        i += 1;
    }
    ret
}

/// The recursive calls of a module with the call graph `out`: none where
/// the graph has no cycle, else the cycles that walks from each node of
/// `order` in turn find.
pub open spec fn recursive_calls(out: Seq<Seq<usize>>, order: Seq<usize>) -> Option<
    Seq<Seq<usize>>,
> {
    if has_cycle(out) {
        Some(cycles_upto(out, order, order.len()))
    } else {
        None
    }
}

/// The cycles of the call graph of the module, as the detector reports
/// them. The graph of the module is left as it is: the search works on a
/// copy.
#[verifier::loop_isolation(false)]
pub fn detect_recursive_function_call(stbgr: &StacklessBytecodeGenerator) -> (r: Option<Vec<String>>)
    requires
        stbgr.wf(),
    ensures
        r is Some <==> has_cycle(graph_out(stbgr.call_graph)),
        r matches Some(v) ==> {
            let order = key_order(stbgr.ctx(), stbgr.symbol_pool@.len());
            let cycles = cycles_upto(graph_out(stbgr.call_graph), order, order.len());
            &&& v@.len() == cycles.len()
            &&& forall|i: int|
                0 <= i < v@.len() ==> (#[trigger] v@[i])@ == cycle_text(
                    stbgr.symbol_pool@,
                    graph_weights(stbgr.call_graph),
                    cycles[i],
                )
        },
{
    if !is_cyclic(&stbgr.call_graph) {
        return None;
    }
    let ghost out = graph_out(stbgr.call_graph);
    let mut call_graph = clone_graph(&stbgr.call_graph);
    let mut cycle_paths: Vec<Vec<usize>> = Vec::new();
    let starts = stbgr.key_order_exec();
    let ghost order = starts@;
    let mut k: usize = 0;
    assert(paths_view(cycle_paths@) =~= cycles_upto(out, order, 0));
    while k < starts.len()
        invariant
            k <= starts.len(),
            order == starts@,
            graph_weights(call_graph) == graph_weights(stbgr.call_graph),
            graph_out(call_graph) == graph_upto(out, order, k as nat),
            paths_view(cycle_paths@) == cycles_upto(out, order, k as nat),
        decreases starts.len() - k,
    {
        find_cycles(&mut call_graph, starts[k], &mut cycle_paths);
        k += 1;
    }
    let texts = convert_cycle_paths(&cycle_paths, &call_graph, &stbgr.symbol_pool);
    proof {
        let cycles = cycles_upto(out, order, order.len());
        assert forall|i: int| 0 <= i < texts@.len() implies (#[trigger] texts@[i])@ == cycle_text(
            stbgr.symbol_pool@,
            graph_weights(stbgr.call_graph),
            cycles[i],
        ) by {
            assert(paths_view(cycle_paths@)[i] == cycle_paths@[i]@);
        }
    }
    Some(texts)
}

/// The detector of functions that call themselves, directly or through others.
pub struct Detector9<'a> {
    pub packages: &'a crate::move_ir::packages::Packages<'a>,
    pub content: crate::scanner::result::DetectContent,
}

impl<'a> crate::scanner::detectors::AbstractDetector<'a> for Detector9<'a> {
    open spec fn package(&self) -> &'a crate::move_ir::packages::Packages<'a> {
        self.packages
    }

    open spec fn found(&self) -> &crate::scanner::result::DetectContent {
        &self.content
    }

    open spec fn class() -> crate::scanner::result::DetectKind {
        crate::scanner::result::DetectKind::RecursiveFunctionCall
    }

    fn new(packages: &'a crate::move_ir::packages::Packages<'a>) -> (r: Self) {
        Self {
            packages,
            content: crate::scanner::result::DetectContent::new(
                crate::scanner::result::Severity::Major,
                crate::scanner::result::DetectKind::RecursiveFunctionCall,
            ),
        }
    }

    fn run(&mut self) -> (r: &crate::scanner::result::DetectContent) {
        self.content.result = crate::scanner::detects::common::run_detector(
            crate::scanner::result::DetectKind::RecursiveFunctionCall,
            self.packages,
        );
        &self.content
    }
}

} // verus!
