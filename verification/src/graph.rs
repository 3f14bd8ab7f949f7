//! Reachability in small dependency graphs given as successor lists.
use vstd::prelude::*;

verus! {

/// The successor lists of a graph held in vectors.
pub open spec fn graph_view(g: Seq<Vec<usize>>) -> Seq<Seq<usize>> {
    g.map_values(|v: Vec<usize>| v@)
}

/// Every successor names a node of the graph.
pub open spec fn well_formed(g: Seq<Seq<usize>>) -> bool {
    forall|a: int, k: int| 0 <= a < g.len() && 0 <= k < g[a].len() ==> #[trigger] g[a][k] < g.len()
}

/// `b` is a successor of `a`.
pub open spec fn edge(g: Seq<Seq<usize>>, a: int, b: int) -> bool {
    0 <= a < g.len() && exists|k: int| 0 <= k < g[a].len() && g[a][k] as int == b
}

/// `node` is one of the entries of `stack`.
pub open spec fn on_stack(stack: Seq<usize>, node: int) -> bool {
    exists|j: int| 0 <= j < stack.len() && stack[j] as int == node
}

/// Consecutive nodes of `p` are joined by edges.
pub open spec fn is_path(g: Seq<Seq<usize>>, p: Seq<int>) -> bool {
    &&& p.len() >= 1
    &&& forall|i: int| 0 <= i < p.len() - 1 ==> #[trigger] edge(g, p[i], p[i + 1])
}

/// `b` can be reached from `a` by following at least one edge.
pub open spec fn reaches(g: Seq<Seq<usize>>, a: int, b: int) -> bool {
    exists|p: Seq<int>| #[trigger] is_path(g, p) && p.len() >= 2 && p[0] == a && p.last() == b
}

/// Number of `true` entries.
pub open spec fn count_true(s: Seq<bool>) -> nat
    decreases s.len(),
{
    if s.len() == 0 {
        0
    } else {
        count_true(s.drop_last()) + if s.last() {
            1nat
        } else {
            0nat
        }
    }
}

proof fn lemma_count_true_bound(s: Seq<bool>)
    ensures
        count_true(s) <= s.len(),
    decreases s.len(),
{
    if s.len() > 0 {
        lemma_count_true_bound(s.drop_last());
    }
}

proof fn lemma_count_true_set(s: Seq<bool>, i: int)
    requires
        0 <= i < s.len(),
        !s[i],
    ensures
        count_true(s.update(i, true)) == count_true(s) + 1,
    decreases s.len(),
{
    let t = s.update(i, true);
    if i == s.len() - 1 {
        assert(t.drop_last() == s.drop_last());
    } else {
        assert(t.drop_last() == s.drop_last().update(i, true));
        lemma_count_true_set(s.drop_last(), i);
    }
}

/// A path extended by one edge is still a path.
proof fn lemma_extend_path(g: Seq<Seq<usize>>, p: Seq<int>, b: int)
    requires
        is_path(g, p),
        edge(g, p.last(), b),
    ensures
        is_path(g, p.push(b)),
        p.push(b).len() == p.len() + 1,
        p.push(b)[0] == p[0],
        p.push(b).last() == b,
{
    let q = p.push(b);
    assert forall|i: int| 0 <= i < q.len() - 1 implies #[trigger] edge(g, q[i], q[i + 1]) by {
        if i < p.len() - 1 {
            assert(q[i] == p[i] && q[i + 1] == p[i + 1]);
        }
    }
}

/// Reaching `a` and then following an edge to `b` reaches `b`.
proof fn lemma_reaches_step(g: Seq<Seq<usize>>, s: int, a: int, b: int)
    requires
        reaches(g, s, a),
        edge(g, a, b),
    ensures
        reaches(g, s, b),
{
    let p = choose|p: Seq<int>| #[trigger] is_path(g, p) && p.len() >= 2 && p[0] == s && p.last() == a;
    lemma_extend_path(g, p, b);
    assert(is_path(g, p.push(b)));
}

/// A set of nodes that holds every successor of `s` and is closed under edges holds every node
/// reachable from `s`.
proof fn lemma_closed_holds_reachable(g: Seq<Seq<usize>>, s: int, visited: Seq<bool>, p: Seq<int>)
    requires
        is_path(g, p),
        p.len() >= 2,
        p[0] == s,
        visited.len() == g.len(),
        forall|b: int| #[trigger] edge(g, s, b) ==> 0 <= b < visited.len() && visited[b],
        forall|a: int, b: int|
            0 <= a < visited.len() && visited[a] && #[trigger] edge(g, a, b) ==> 0 <= b
                < visited.len() && visited[b],
    ensures
        visited[p.last()],
    decreases p.len(),
{
    assert(edge(g, p[0], p[0int + 1]));
    if p.len() > 2 {
        let q = p.drop_last();
        assert forall|i: int| 0 <= i < q.len() - 1 implies #[trigger] edge(g, q[i], q[i + 1]) by {
            assert(edge(g, p[i], p[i + 1]));
        }
        lemma_closed_holds_reachable(g, s, visited, q);
        assert(edge(g, p[p.len() - 2], p[p.len() - 2 + 1]));
    }
}

/// Marks the unvisited successors of `node`, pushing them on the stack.
fn visit_successors(
    g: &Vec<Vec<usize>>,
    node: usize,
    visited: &mut Vec<bool>,
    stack: &mut Vec<usize>,
    Ghost(source): Ghost<int>,
)
    requires
        well_formed(graph_view(g@)),
        node < g@.len(),
        old(visited)@.len() == g@.len(),
        node as int == source || reaches(graph_view(g@), source, node as int),
        forall|v: int|
            0 <= v < old(visited)@.len() && old(visited)@[v] ==> reaches(
                graph_view(g@),
                source,
                v,
            ),
        forall|k: int| 0 <= k < old(stack)@.len() ==> (#[trigger] old(stack)@[k]) < g@.len(),
        count_true(old(visited)@) + old(stack)@.len() <= 2 * g@.len(),
    ensures
        final(visited)@.len() == g@.len(),
        forall|v: int|
            0 <= v < final(visited)@.len() && final(visited)@[v] ==> reaches(
                graph_view(g@),
                source,
                v,
            ),
        forall|v: int| 0 <= v < old(visited)@.len() && old(visited)@[v] ==> final(visited)@[v],
        forall|b: int|
            #[trigger] edge(graph_view(g@), node as int, b)
                ==> 0 <= b < final(visited)@.len() && final(visited)@[b],
        old(stack)@.len() <= final(stack)@.len(),
        forall|k: int| 0 <= k < final(stack)@.len() ==> (#[trigger] final(stack)@[k]) < g@.len(),
        final(stack)@.subrange(0, old(stack)@.len() as int) == old(stack)@,
        forall|k: int|
            old(stack)@.len() <= k < final(stack)@.len() ==> final(visited)@[(#[trigger] final(stack)@[k]) as int],
        count_true(final(visited)@) - count_true(old(visited)@) == final(stack)@.len() - old(stack)@.len(),
        forall|v: int|
            0 <= v < final(visited)@.len() && final(visited)@[v] && !old(visited)@[v] ==> exists|
                j: int,
            |
                old(stack)@.len() <= j < final(stack)@.len() && final(stack)@[j] as int == v,
{
    let ghost gv = graph_view(g@);
    let successors = &g[node];
    assert(successors@ == gv[node as int]);
    let mut k: usize = 0;
    while k < successors.len()
        invariant
            gv == graph_view(g@),
            well_formed(gv),
            node < g@.len(),
            successors@ == gv[node as int],
            k <= successors@.len(),
            visited@.len() == g@.len(),
            old(visited)@.len() == g@.len(),
            node as int == source || reaches(gv, source, node as int),
            forall|v: int| 0 <= v < visited@.len() && visited@[v] ==> reaches(gv, source, v),
            forall|v: int| 0 <= v < old(visited)@.len() && old(visited)@[v] ==> visited@[v],
            forall|j: int| 0 <= j < k ==> visited@[#[trigger] successors@[j] as int],
            forall|j: int| 0 <= j < stack@.len() ==> (#[trigger] stack@[j]) < g@.len(),
            stack@.subrange(0, old(stack)@.len() as int) == old(stack)@,
            old(stack)@.len() <= stack@.len(),
            forall|j: int|
                old(stack)@.len() <= j < stack@.len() ==> visited@[#[trigger] stack@[j] as int],
            count_true(visited@) - count_true(old(visited)@) == stack@.len() - old(stack)@.len(),
            forall|v: int|
                0 <= v < visited@.len() && visited@[v] && !old(visited)@[v] ==> exists|j: int|
                    old(stack)@.len() <= j < stack@.len() && stack@[j] as int == v,
        decreases successors.len() - k,
    {
        let next = successors[k];
        assert(gv[node as int][k as int] == next);
        assert(next < g@.len());
        if !visited[next] {
            proof {
                assert(edge(gv, node as int, next as int));
                if node as int == source {
                    let p = seq![source, next as int];
                    assert(is_path(gv, p));
                } else {
                    lemma_reaches_step(gv, source, node as int, next as int);
                }
                lemma_count_true_set(visited@, next as int);
            }
            let ghost before_stack = stack@;
            let ghost before_visited = visited@;
            visited.set(next, true);
            stack.push(next);
            proof {
                assert(stack@[before_stack.len() as int] == next);
                assert forall|v: int|
                    0 <= v < visited@.len() && visited@[v] && !old(visited)@[v] implies exists|j: int|
                        old(stack)@.len() <= j < stack@.len() && stack@[j] as int == v by {
                    if v != next as int {
                        assert(before_visited[v]);
                        let j = choose|j: int|
                            old(stack)@.len() <= j < before_stack.len() && before_stack[j] as int == v;
                        assert(stack@[j] == before_stack[j]);
                    }
                }
                assert(stack@.subrange(0, old(stack)@.len() as int) == old(stack)@);
            }
        }
        k += 1;
    }
    proof {
        assert forall|b: int| #[trigger] edge(gv, node as int, b) implies 0 <= b < visited@.len()
            && visited@[b] by {
            let j = choose|j: int| 0 <= j < gv[node as int].len() && gv[node as int][j] as int == b;
            assert(visited@[successors@[j] as int]);
        }
    }
}

/// The nodes reachable from `source` by following at least one edge.
pub fn reachable_from(g: &Vec<Vec<usize>>, source: usize) -> (reached: Vec<bool>)
    requires
        well_formed(graph_view(g@)),
        source < g@.len(),
    ensures
        reached@.len() == g@.len(),
        forall|v: int|
            0 <= v < g@.len() ==> (reached@[v] <==> reaches(
                graph_view(g@),
                source as int,
                v,
            )),
{
    let ghost gv = graph_view(g@);
    let mut visited: Vec<bool> = Vec::new();
    let mut k: usize = 0;
    while k < g.len()
        invariant
            k <= g@.len(),
            visited@.len() == k,
            forall|v: int| 0 <= v < k ==> !visited@[v],
            count_true(visited@) == 0,
        decreases g.len() - k,
    {
        assert(visited@.push(false).drop_last() == visited@);
        visited.push(false);
        k += 1;
    }
    let mut stack: Vec<usize> = Vec::new();
    visit_successors(g, source, &mut visited, &mut stack, Ghost(source as int));
    proof {
        lemma_count_true_bound(visited@);
        assert forall|a: int, b: int|
            0 <= a < visited@.len() && visited@[a] && !on_stack(stack@, a) && #[trigger] edge(
                gv,
                a,
                b,
            ) implies 0 <= b < visited@.len() && visited@[b] by {
            let j = choose|j: int| 0 <= j < stack@.len() && stack@[j] as int == a;
        }
    }
    while stack.len() > 0
        invariant
            gv == graph_view(g@),
            well_formed(gv),
            source < g@.len(),
            visited@.len() == g@.len(),
            forall|v: int| 0 <= v < visited@.len() && visited@[v] ==> reaches(gv, source as int, v),
            forall|b: int| #[trigger] edge(gv, source as int, b) ==> 0 <= b < visited@.len()
                && visited@[b],
            forall|j: int| 0 <= j < stack@.len() ==> (#[trigger] stack@[j]) < g@.len(),
            forall|j: int| 0 <= j < stack@.len() ==> visited@[#[trigger] stack@[j] as int],
            forall|a: int, b: int|
                0 <= a < visited@.len() && visited@[a] && !on_stack(stack@, a) && #[trigger] edge(
                    gv,
                    a,
                    b,
                ) ==> 0 <= b < visited@.len() && visited@[b],
            stack@.len() <= count_true(visited@) <= g@.len(),
        decreases 2 * (g@.len() - count_true(visited@)) + stack@.len(),
    {
        let ghost before_stack = stack@;
        let ghost before_visited = visited@;
        let node = stack.pop().unwrap();
        let ghost rest = stack@;
        assert(before_stack == rest.push(node));
        visit_successors(g, node, &mut visited, &mut stack, Ghost(source as int));
        proof {
            lemma_count_true_bound(visited@);
            assert forall|j: int| 0 <= j < stack@.len() implies visited@[#[trigger] stack@[j] as int] by {
                if j < rest.len() {
                    assert(stack@.subrange(0, rest.len() as int)[j] == stack@[j]);
                    assert(before_stack[j] == rest[j]);
                }
            }
            assert forall|a: int, b: int|
                0 <= a < visited@.len() && visited@[a] && !on_stack(stack@, a) && #[trigger] edge(
                    gv,
                    a,
                    b,
                ) implies 0 <= b < visited@.len() && visited@[b] by {
                if a != node as int {
                    if on_stack(rest, a) {
                        let j = choose|j: int| 0 <= j < rest.len() && rest[j] as int == a;
                        assert(stack@.subrange(0, rest.len() as int)[j] == stack@[j]);
                        assert(stack@[j] == rest[j]);
                    } else if !before_visited[a] {
                        let j = choose|j: int|
                            rest.len() <= j < stack@.len() && stack@[j] as int == a;
                    } else {
                        assert(!on_stack(before_stack, a)) by {
                            if on_stack(before_stack, a) {
                                let j = choose|j: int|
                                    0 <= j < before_stack.len() && before_stack[j] as int == a;
                                if j < rest.len() {
                                    assert(before_stack[j] == rest[j]);
                                }
                            }
                        }
                    }
                }
            }
        }
    }
    proof {
        assert forall|v: int| 0 <= v < g@.len() && reaches(gv, source as int, v) implies visited@[v] by {
            let p = choose|p: Seq<int>| #[trigger] is_path(gv, p) && p.len() >= 2 && p[0] == source as int
                && p.last() == v;
            lemma_closed_holds_reachable(gv, source as int, visited@, p);
        }
    }
    visited
}

/// The nodes that lie on a cycle: those that reach themselves.
pub fn recursive_members(dependencies: &Vec<Vec<usize>>) -> (recursive: Vec<bool>)
    requires
        well_formed(graph_view(dependencies@)),
    ensures
        recursive@.len() == dependencies@.len(),
        forall|v: int|
            0 <= v < dependencies@.len() ==> (recursive@[v] <==> reaches(
                graph_view(dependencies@),
                v,
                v,
            )),
{
    let mut recursive: Vec<bool> = Vec::new();
    let mut node: usize = 0;
    while node < dependencies.len()
        invariant
            node <= dependencies@.len(),
            well_formed(graph_view(dependencies@)),
            recursive@.len() == node,
            forall|v: int|
                0 <= v < node ==> (recursive@[v] <==> reaches(
                    graph_view(dependencies@),
                    v,
                    v,
                )),
        decreases dependencies.len() - node,
    {
        let reached = reachable_from(dependencies, node);
        recursive.push(reached[node]);
        node += 1;
    }
    recursive
}

} // verus!
