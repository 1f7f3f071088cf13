//! The set of definitions to export: every definition reachable from a set of
//! roots, found by a work-queue walk with an explicit visited set, so that a
//! cyclic item graph is walked without recursion and without revisiting.
use vstd::prelude::*;

verus! {

/// The references between definitions: definitions are named `0..succ.len()`
/// and `succ[v]` lists those that definition `v` refers to.
pub open spec fn graph_view(succ: Seq<Vec<usize>>) -> Seq<Seq<usize>> {
    succ.map_values(|s: Vec<usize>| s@)
}

/// Every reference names a definition of the graph.
pub open spec fn graph_wf(g: Seq<Seq<usize>>) -> bool {
    forall|v: int, i: int| 0 <= v < g.len() && 0 <= i < g[v].len() ==> #[trigger] g[v][i] < g.len()
}

/// `v` can be reached from `roots` in at most `k` steps.
pub open spec fn reachable_within(g: Seq<Seq<usize>>, roots: Seq<usize>, v: usize, k: nat) -> bool
    decreases k,
{
    if k == 0 {
        roots.contains(v)
    } else {
        reachable_within(g, roots, v, (k - 1) as nat) || exists|u: usize|
            #![trigger g[u as int].contains(v)]
            u < g.len() && reachable_within(g, roots, u, (k - 1) as nat) && g[u as int].contains(v)
    }
}

/// `v` can be reached from `roots`.
pub open spec fn reachable(g: Seq<Seq<usize>>, roots: Seq<usize>, v: usize) -> bool {
    exists|k: nat| reachable_within(g, roots, v, k)
}

/// How many definitions have not been visited yet.
pub open spec fn count_unvisited(visited: Seq<bool>) -> nat
    decreases visited.len(),
{
    if visited.len() == 0 {
        0
    } else {
        count_unvisited(visited.drop_last()) + if visited.last() {
            0nat
        } else {
            1nat
        }
    }
}

proof fn lemma_count_unvisited_mark(visited: Seq<bool>, i: int)
    requires
        0 <= i < visited.len(),
        !visited[i],
    ensures
        count_unvisited(visited.update(i, true)) + 1 == count_unvisited(visited),
    decreases visited.len(),
{
    let u = visited.update(i, true);
    if i == visited.len() - 1 {
        assert(u.drop_last() =~= visited.drop_last());
    } else {
        assert(u.drop_last() =~= visited.drop_last().update(i, true));
        lemma_count_unvisited_mark(visited.drop_last(), i);
    }
}

proof fn lemma_count_unvisited_all(n: nat)
    ensures
        count_unvisited(Seq::new(n, |i: int| false)) == n,
    decreases n,
{
    if n > 0 {
        assert(Seq::new(n, |i: int| false).drop_last() =~= Seq::new(
            (n - 1) as nat,
            |i: int| false,
        ));
        lemma_count_unvisited_all((n - 1) as nat);
    }
}

/// Marking `w` visited and appending it keeps every visited definition listed.
proof fn lemma_mark_listed(visited: Seq<bool>, order: Seq<usize>, w: usize)
    requires
        w < visited.len(),
        forall|x: int| 0 <= x < visited.len() && #[trigger] visited[x] ==> order.contains(x as usize),
    ensures
        forall|x: int|
            0 <= x < visited.len() && #[trigger] visited.update(w as int, true)[x]
                ==> order.push(w).contains(x as usize),
{
    let marked = visited.update(w as int, true);
    let pushed = order.push(w);
    assert forall|x: int| 0 <= x < visited.len() && #[trigger] marked[x] implies pushed.contains(
        x as usize,
    ) by {
        if x == w as int {
            assert(pushed[pushed.len() - 1] == w);
        } else {
            assert(order.contains(x as usize));
            let i = choose|i: int| 0 <= i < order.len() && order[i] == x as usize;
            assert(pushed[i] == x as usize);
        }
    }
}

/// Where the walk stands: `j` roots looked at; `order[..head]` expanded and
/// `k` references of `order[head]` followed; `visited` marks what `order` lists.
pub struct WalkState {
    pub j: nat,
    pub head: nat,
    pub k: nat,
    pub visited: Seq<bool>,
    pub order: Seq<usize>,
}

/// Meets definition `v`: marks and appends it unless it was already visited.
pub open spec fn walk_visit(s: WalkState, v: usize) -> WalkState {
    if v < s.visited.len() && !s.visited[v as int] {
        WalkState {
            j: s.j,
            head: s.head,
            k: s.k,
            visited: s.visited.update(v as int, true),
            order: s.order.push(v),
        }
    } else {
        s
    }
}

/// One step of the walk: look at the next root; once all roots are seen,
/// follow the next reference of the first waiting definition, or finish it.
pub open spec fn walk_step(g: Seq<Seq<usize>>, roots: Seq<usize>, s: WalkState) -> WalkState {
    if s.j < roots.len() {
        let t = walk_visit(s, roots[s.j as int]);
        WalkState { j: s.j + 1, head: t.head, k: t.k, visited: t.visited, order: t.order }
    } else if s.head < s.order.len() {
        let u = s.order[s.head as int];
        if u < g.len() && s.k < g[u as int].len() {
            let t = walk_visit(s, g[u as int][s.k as int]);
            WalkState { j: t.j, head: t.head, k: s.k + 1, visited: t.visited, order: t.order }
        } else {
            WalkState { j: s.j, head: s.head + 1, k: 0, visited: s.visited, order: s.order }
        }
    } else {
        s
    }
}

/// The walk after `f` steps from nothing visited.
pub open spec fn walk(g: Seq<Seq<usize>>, roots: Seq<usize>, f: nat) -> WalkState
    decreases f,
{
    if f == 0 {
        WalkState {
            j: 0,
            head: 0,
            k: 0,
            visited: Seq::new(g.len(), |i: int| false),
            order: Seq::empty(),
        }
    } else {
        walk_step(g, roots, walk(g, roots, (f - 1) as nat))
    }
}

/// Every root is seen and every definition met is expanded.
pub open spec fn walk_done(roots: Seq<usize>, s: WalkState) -> bool {
    s.j >= roots.len() && s.head >= s.order.len()
}

/// The definitions in the order the walk meets them, once it is finished.
pub open spec fn walk_order(g: Seq<Seq<usize>>, roots: Seq<usize>) -> Seq<usize> {
    if exists|f: nat| walk_done(roots, #[trigger] walk(g, roots, f)) {
        walk(g, roots, choose|f: nat| walk_done(roots, #[trigger] walk(g, roots, f))).order
    } else {
        Seq::empty()
    }
}

/// A finished walk stays as it is.
proof fn lemma_walk_done_stays(g: Seq<Seq<usize>>, roots: Seq<usize>, a: nat, b: nat)
    requires
        a <= b,
        walk_done(roots, walk(g, roots, a)),
    ensures
        walk(g, roots, b) == walk(g, roots, a),
    decreases b,
{
    if a < b {
        lemma_walk_done_stays(g, roots, a, (b - 1) as nat);
    }
}

/// The order of a walk finished after `f` steps is `walk_order`.
proof fn lemma_walk_order(g: Seq<Seq<usize>>, roots: Seq<usize>, f: nat)
    requires
        walk_done(roots, walk(g, roots, f)),
    ensures
        walk_order(g, roots) == walk(g, roots, f).order,
{
    let c = choose|c: nat| walk_done(roots, #[trigger] walk(g, roots, c));
    if c <= f {
        lemma_walk_done_stays(g, roots, c, f);
    } else {
        lemma_walk_done_stays(g, roots, f, c);
    }
}

/// Every definition reachable from `roots`, each once, in the order the walk
/// first meets them: breadth first, roots in their given order, references in
/// their listed order.
pub fn reachable_definitions(roots: &Vec<usize>, succ: &Vec<Vec<usize>>) -> (r: Vec<usize>)
    requires
        graph_wf(graph_view(succ@)),
        forall|j: int| 0 <= j < roots@.len() ==> #[trigger] roots@[j] < succ@.len(),
    ensures
        r@.no_duplicates(),
        forall|j: int| 0 <= j < roots@.len() ==> r@.contains(#[trigger] roots@[j]),
        forall|i: int, k: int|
            0 <= i < r@.len() && 0 <= k < succ@[r@[i] as int]@.len() ==> r@.contains(
                #[trigger] succ@[r@[i] as int]@[k],
            ),
        forall|i: int| 0 <= i < r@.len() ==> reachable(graph_view(succ@), roots@, #[trigger] r@[i]),
        r@ == walk_order(graph_view(succ@), roots@),
{
    let ghost g = graph_view(succ@);
    let n = succ.len();
    let mut visited: Vec<bool> = Vec::new();
    while visited.len() < n
        invariant
            visited.len() <= n,
            forall|v: int| 0 <= v < visited@.len() ==> !#[trigger] visited@[v],
        decreases n - visited.len(),
    {
        visited.push(false);
    }
    proof {
        assert(visited@ =~= Seq::new(n as nat, |i: int| false));
        lemma_count_unvisited_all(n as nat);
    }
    let mut order: Vec<usize> = Vec::new();
    let ghost mut steps: nat = 0;
    assert(walk(g, roots@, 0).visited =~= visited@);
    assert(walk(g, roots@, 0).order =~= order@);

    // Visit the roots.
    let mut j: usize = 0;
    while j < roots.len()
        invariant
            n == succ@.len(),
            g == graph_view(succ@),
            visited@.len() == n,
            j <= roots@.len(),
            forall|jj: int| 0 <= jj < roots@.len() ==> #[trigger] roots@[jj] < n,
            order@.len() + count_unvisited(visited@) == n,
            order@.no_duplicates(),
            forall|i: int| 0 <= i < order@.len() ==> #[trigger] order@[i] < n && visited@[order@[i] as int],
            forall|v: int| 0 <= v < n && #[trigger] visited@[v] ==> order@.contains(v as usize),
            forall|i: int| 0 <= i < order@.len() ==> reachable(g, roots@, #[trigger] order@[i]),
            forall|jj: int| 0 <= jj < j ==> visited@[#[trigger] roots@[jj] as int],
            walk(g, roots@, steps) == (WalkState {
                j: j as nat,
                head: 0,
                k: 0,
                visited: visited@,
                order: order@,
            }),
        decreases roots@.len() - j,
    {
        let v = roots[j];
        if !visited[v] {
            proof {
                lemma_count_unvisited_mark(visited@, v as int);
                assert(reachable_within(g, roots@, v, 0));
                lemma_mark_listed(visited@, order@, v);
            }
            visited.set(v, true);
            order.push(v);
        }
        proof {
            steps = steps + 1;
        }
        j = j + 1;
    }

    // Walk the queue: `order[..head]` are done, `order[head..]` are waiting.
    let mut head: usize = 0;
    while head < order.len()
        invariant
            n == succ@.len(),
            g == graph_view(succ@),
            graph_wf(g),
            visited@.len() == n,
            head <= order@.len(),
            order@.len() + count_unvisited(visited@) == n,
            order@.no_duplicates(),
            forall|i: int| 0 <= i < order@.len() ==> #[trigger] order@[i] < n && visited@[order@[i] as int],
            forall|v: int| 0 <= v < n && #[trigger] visited@[v] ==> order@.contains(v as usize),
            forall|i: int| 0 <= i < order@.len() ==> reachable(g, roots@, #[trigger] order@[i]),
            forall|jj: int| 0 <= jj < roots@.len() ==> #[trigger] roots@[jj] < n,
            forall|jj: int| 0 <= jj < roots@.len() ==> visited@[#[trigger] roots@[jj] as int],
            forall|i: int, k: int|
                0 <= i < head && 0 <= k < g[order@[i] as int].len() ==> visited@[#[trigger] g[order@[i] as int][k] as int],
            walk(g, roots@, steps) == (WalkState {
                j: roots@.len(),
                head: head as nat,
                k: 0,
                visited: visited@,
                order: order@,
            }),
        decreases n - head,
    {
        let u = order[head];
        let ghost ku: nat = choose|k: nat| reachable_within(g, roots@, u, k);
        assert(reachable_within(g, roots@, u, ku));
        let refs = &succ[u];
        assert(refs@ == g[u as int]);
        let mut k: usize = 0;
        while k < refs.len()
            invariant
                n == succ@.len(),
                g == graph_view(succ@),
                graph_wf(g),
                refs@ == g[u as int],
                u < n,
                reachable_within(g, roots@, u, ku),
                visited@.len() == n,
                head < order@.len(),
                order@[head as int] == u,
                k <= refs@.len(),
                order@.len() + count_unvisited(visited@) == n,
                order@.no_duplicates(),
                forall|i: int| 0 <= i < order@.len() ==> #[trigger] order@[i] < n && visited@[order@[i] as int],
                forall|v: int| 0 <= v < n && #[trigger] visited@[v] ==> order@.contains(v as usize),
                forall|i: int| 0 <= i < order@.len() ==> reachable(g, roots@, #[trigger] order@[i]),
                forall|jj: int| 0 <= jj < roots@.len() ==> #[trigger] roots@[jj] < n,
                forall|jj: int| 0 <= jj < roots@.len() ==> visited@[#[trigger] roots@[jj] as int],
                forall|i: int, kk: int|
                    0 <= i < head && 0 <= kk < g[order@[i] as int].len() ==> visited@[#[trigger] g[order@[i] as int][kk] as int],
                forall|kk: int| 0 <= kk < k ==> visited@[#[trigger] refs@[kk] as int],
                walk(g, roots@, steps) == (WalkState {
                    j: roots@.len(),
                    head: head as nat,
                    k: k as nat,
                    visited: visited@,
                    order: order@,
                }),
            decreases refs@.len() - k,
        {
            let w = refs[k];
            assert(w < n);
            if !visited[w] {
                proof {
                    lemma_count_unvisited_mark(visited@, w as int);
                    assert(g[u as int].contains(w));
                    assert(reachable_within(g, roots@, w, ku + 1));
                    assert(!order@.contains(w));
                    lemma_mark_listed(visited@, order@, w);
                }
                visited.set(w, true);
                order.push(w);
            }
            proof {
                steps = steps + 1;
            }
            k = k + 1;
        }
        proof {
            steps = steps + 1;
        }
        head = head + 1;
    }
    proof {
        assert forall|i: int, k: int|
            0 <= i < order@.len() && 0 <= k < succ@[order@[i] as int]@.len() implies order@.contains(
            #[trigger] succ@[order@[i] as int]@[k],
        ) by {
            assert(succ@[order@[i] as int]@ == g[order@[i] as int]);
            assert(visited@[g[order@[i] as int][k] as int]);
        }
        assert forall|jj: int| 0 <= jj < roots@.len() implies order@.contains(#[trigger] roots@[jj]) by {
            assert(visited@[roots@[jj] as int]);
        }
        lemma_walk_order(g, roots@, steps);
    }
    order
}

} // verus!
