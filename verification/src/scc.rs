//! Tarjan's strongly connected components over a dense graph whose nodes are
//! `0..n` and whose edges are adjacency lists.

use vstd::prelude::*;
use vstd::set_lib::*;

verus! {

/// Every edge target is a node of the graph.
pub open spec fn graph_ok(adj: Seq<Vec<usize>>) -> bool {
    forall|u: int, k: int|
        0 <= u < adj.len() && 0 <= k < adj[u]@.len() ==> (#[trigger] adj[u]@[k]) < adj.len()
}

/// `v` occurs in one of the components.
pub open spec fn member(sccs: Seq<Vec<usize>>, v: int) -> bool {
    exists|i: int, j: int| 0 <= i < sccs.len() && 0 <= j < sccs[i]@.len() && sccs[i]@[j] == v
}

/// No node occurs twice among all components.
pub open spec fn disjoint_components(sccs: Seq<Vec<usize>>) -> bool {
    &&& forall|i: int, j: int, k: int|
        0 <= i < sccs.len() && 0 <= j < k < sccs[i]@.len() ==> sccs[i]@[j] != sccs[i]@[k]
    &&& forall|i: int, j: int, k: int, l: int|
        0 <= i < k < sccs.len() && 0 <= j < sccs[i]@.len() && 0 <= l < sccs[k]@.len()
            ==> #[trigger] sccs[i]@[j] != #[trigger] sccs[k]@[l]
}

/// Components are nonempty and hold only nodes of a graph with `n` nodes.
pub open spec fn components_in_range(sccs: Seq<Vec<usize>>, n: int) -> bool {
    forall|i: int| 0 <= i < sccs.len() ==> {
        &&& (#[trigger] sccs[i])@.len() > 0
        &&& forall|j: int| 0 <= j < sccs[i]@.len() ==> sccs[i]@[j] < n
    }
}


/// `w` occurs in one of the first `i + 1` components.
pub open spec fn member_upto(sccs: Seq<Vec<usize>>, w: int, i: int) -> bool {
    exists|m: int, l: int| 0 <= m <= i && 0 <= l < sccs[m]@.len() && sccs[m]@[l] == w
}

/// Every successor of a node of a component lies in that component or in
/// an earlier one.
pub open spec fn successors_earlier(sccs: Seq<Vec<usize>>, adj: Seq<Vec<usize>>) -> bool {
    forall|i: int, j: int, k: int|
        0 <= i < sccs.len() && 0 <= j < sccs[i]@.len() && 0 <= k < adj[sccs[i]@[j] as int]@.len()
            ==> member_upto(sccs, #[trigger] adj[sccs[i]@[j] as int]@[k] as int, i)
}

/// `w` is a successor of `u`.
pub open spec fn is_edge(adj: Seq<Vec<usize>>, u: int, w: int) -> bool {
    0 <= u < adj.len() && exists|k: int| 0 <= k < adj[u]@.len() && adj[u]@[k] == w
}

/// `p` is a nonempty walk along edges.
pub open spec fn is_path(adj: Seq<Vec<usize>>, p: Seq<int>) -> bool {
    p.len() > 0 && forall|i: int| 0 <= i < p.len() - 1 ==> #[trigger] is_edge(adj, p[i], p[i + 1])
}

/// There is a walk from `u` to `v`.
pub open spec fn reaches(adj: Seq<Vec<usize>>, u: int, v: int) -> bool {
    exists|p: Seq<int>| #[trigger] is_path(adj, p) && p[0] == u && p.last() == v
}

/// Some node of `rs` reaches `u`.
pub open spec fn reached(adj: Seq<Vec<usize>>, rs: Seq<usize>, u: int) -> bool {
    exists|i: int| 0 <= i < rs.len() && #[trigger] reaches(adj, rs[i] as int, u)
}

/// The nodes of each component reach each other.
pub open spec fn components_connected(sccs: Seq<Vec<usize>>, adj: Seq<Vec<usize>>) -> bool {
    forall|i: int, j: int, k: int|
        0 <= i < sccs.len() && 0 <= j < sccs[i]@.len() && 0 <= k < sccs[i]@.len() ==> reaches(
            adj,
            #[trigger] sccs[i]@[j] as int,
            #[trigger] sccs[i]@[k] as int,
        )
}

/// Every node reaches itself.
pub proof fn lemma_reaches_refl(adj: Seq<Vec<usize>>, u: int)
    ensures
        reaches(adj, u, u),
{
    let p = seq![u];
    assert(is_path(adj, p));
}

/// A node reaches its successors.
pub proof fn lemma_reaches_edge(adj: Seq<Vec<usize>>, u: int, k: int)
    requires
        0 <= u < adj.len(),
        0 <= k < adj[u]@.len(),
    ensures
        reaches(adj, u, adj[u]@[k] as int),
{
    let w = adj[u]@[k] as int;
    let p = seq![u, w];
    assert(is_edge(adj, p[0], p[1]));
    assert(is_path(adj, p));
}

/// Walks compose.
pub proof fn lemma_reaches_trans(adj: Seq<Vec<usize>>, a: int, b: int, c: int)
    requires
        reaches(adj, a, b),
        reaches(adj, b, c),
    ensures
        reaches(adj, a, c),
{
    let p = choose|p: Seq<int>| #[trigger] is_path(adj, p) && p[0] == a && p.last() == b;
    let q = choose|q: Seq<int>| #[trigger] is_path(adj, q) && q[0] == b && q.last() == c;
    let r = p + q.drop_first();
    assert forall|i: int| 0 <= i < r.len() - 1 implies #[trigger] is_edge(adj, r[i], r[i + 1]) by {
        if i < p.len() - 1 {
            assert(r[i] == p[i] && r[i + 1] == p[i + 1]);
        } else {
            let j = i - (p.len() - 1);
            assert(r[i] == q[j]);
            assert(r[i + 1] == q[j + 1]);
        }
    }
    assert(is_path(adj, r));
    if q.len() == 1 {
        assert(r.last() == p.last());
    } else {
        assert(r.last() == q.last());
    }
}

/// Along a walk from a node of one of the first `i + 1` components, every
/// node lies in one of them, when each edge leads into the component of its
/// source or an earlier one.
pub proof fn lemma_walk_stays_upto(sccs: Seq<Vec<usize>>, adj: Seq<Vec<usize>>, p: Seq<int>, i: int, t: int)
    requires
        successors_earlier(sccs, adj),
        is_path(adj, p),
        0 <= i < sccs.len(),
        member_upto(sccs, p[0], i),
        0 <= t < p.len(),
    ensures
        member_upto(sccs, p[t], i),
    decreases t,
{
    if t > 0 {
        lemma_walk_stays_upto(sccs, adj, p, i, t - 1);
        let (m, l) = choose|m: int, l: int| 0 <= m <= i && 0 <= l < sccs[m]@.len() && sccs[m]@[l] == p[t - 1];
        assert(is_edge(adj, p[t - 1], p[(t - 1) + 1]));
        let a = p[t - 1];
        let kk = choose|kk: int| 0 <= kk < adj[a]@.len() && #[trigger] adj[a]@[kk] == p[t];
        assert(member_upto(sccs, adj[sccs[m]@[l] as int]@[kk] as int, m));
        let (m2, l2) = choose|m2: int, l2: int| 0 <= m2 <= m && 0 <= l2 < sccs[m2]@.len() && sccs[m2]@[l2] == p[t];
    }
}

/// A node reached from one of the first `i + 1` components lies in one of
/// them.
pub proof fn lemma_reach_stays_upto(sccs: Seq<Vec<usize>>, adj: Seq<Vec<usize>>, u: int, x: int, i: int)
    requires
        successors_earlier(sccs, adj),
        0 <= i < sccs.len(),
        member_upto(sccs, u, i),
        reaches(adj, u, x),
    ensures
        member_upto(sccs, x, i),
{
    let p = choose|p: Seq<int>| #[trigger] is_path(adj, p) && p[0] == u && p.last() == x;
    lemma_walk_stays_upto(sccs, adj, p, i, p.len() - 1);
}

/// Components are maximal: no node of a component reaches a node of a
/// later component, so nodes that reach each other share a component.
pub proof fn lemma_components_maximal(sccs: Seq<Vec<usize>>, adj: Seq<Vec<usize>>, i: int, j: int, k: int, l: int)
    requires
        successors_earlier(sccs, adj),
        disjoint_components(sccs),
        0 <= i < k < sccs.len(),
        0 <= j < sccs[i]@.len(),
        0 <= l < sccs[k]@.len(),
    ensures
        !reaches(adj, sccs[i]@[j] as int, sccs[k]@[l] as int),
{
    if reaches(adj, sccs[i]@[j] as int, sccs[k]@[l] as int) {
        assert(member_upto(sccs, sccs[i]@[j] as int, i));
        lemma_reach_stays_upto(sccs, adj, sccs[i]@[j] as int, sccs[k]@[l] as int, i);
        let (m, q) = choose|m: int, q: int| 0 <= m <= i && 0 <= q < sccs[m]@.len() && sccs[m]@[q] == sccs[k]@[l] as int;
        assert(sccs[m]@[q] != sccs[k]@[l]);
    }
}

/// The stack is ordered by reachability, each stacked node reaches the
/// node recorded as its lowlink, and the components are strongly connected.
#[verifier::opaque]
spec fn reach_ok(
    adj: Seq<Vec<usize>>,
    stack: Seq<usize>,
    on_stack: Seq<bool>,
    low_of: Seq<int>,
    sccs: Seq<Vec<usize>>,
) -> bool {
    &&& forall|i: int, j: int|
        #![trigger stack[i], stack[j]]
        0 <= i < j < stack.len() ==> reaches(adj, stack[i] as int, stack[j] as int)
    &&& forall|v: int| 0 <= v < on_stack.len() && #[trigger] on_stack[v] ==> reaches(adj, v, low_of[v])
    &&& components_connected(sccs, adj)
}

spec fn vis_in(index: Seq<Option<usize>>, v: int) -> bool {
    index[v] is Some
}

spec fn ix_in(index: Seq<Option<usize>>, v: int) -> int {
    index[v]->0 as int
}

#[verifier::opaque]
spec fn order_ok(index: Seq<Option<usize>>, order: Seq<int>, counter: int) -> bool {
    &&& order.len() == counter
    &&& order.no_duplicates()
    &&& forall|k: int| 0 <= k < counter ==> 0 <= #[trigger] order[k] < index.len()
    &&& forall|k: int|
        0 <= k < counter ==> vis_in(index, #[trigger] order[k]) && ix_in(index, order[k]) == k
    &&& forall|v: int| 0 <= v < index.len() && #[trigger] vis_in(index, v) ==> ix_in(index, v) < counter
}

#[verifier::opaque]
spec fn stack_ok(index: Seq<Option<usize>>, stack: Seq<usize>, on_stack: Seq<bool>) -> bool {
    &&& forall|i: int| 0 <= i < stack.len() ==> 0 <= #[trigger] stack[i] < index.len()
    &&& forall|i: int| 0 <= i < stack.len() ==> #[trigger] on_stack[stack[i] as int]
    &&& forall|v: int|
        0 <= v < index.len() && #[trigger] on_stack[v] ==> exists|i: int|
            0 <= i < stack.len() && #[trigger] stack[i] == v
    &&& forall|i: int, j: int|
        0 <= i < j < stack.len() ==> ix_in(index, #[trigger] stack[i] as int) < ix_in(
            index,
            #[trigger] stack[j] as int,
        )
    &&& forall|v: int| 0 <= v < index.len() && #[trigger] on_stack[v] ==> vis_in(index, v)
}

#[verifier::opaque]
spec fn low_ok(index: Seq<Option<usize>>, on_stack: Seq<bool>, lowlink: Seq<usize>, low_of: Seq<int>) -> bool {
    forall|v: int|
        0 <= v < index.len() && #[trigger] on_stack[v] ==> {
            let x = low_of[v];
            &&& 0 <= x < index.len()
            &&& on_stack[x]
            &&& lowlink[v] == ix_in(index, x)
            &&& ix_in(index, x) <= ix_in(index, v)
        }
}

#[verifier::opaque]
spec fn comp_ok(index: Seq<Option<usize>>, on_stack: Seq<bool>, finished: Seq<bool>, sccs: Seq<Vec<usize>>) -> bool {
    &&& components_in_range(sccs, index.len() as int)
    &&& disjoint_components(sccs)
    &&& forall|i: int, j: int|
        0 <= i < sccs.len() && 0 <= j < sccs[i]@.len() ==> {
            let u = #[trigger] sccs[i]@[j] as int;
            &&& vis_in(index, u)
            &&& !on_stack[u]
            &&& finished[u]
        }
    &&& forall|v: int|
        0 <= v < index.len() && #[trigger] vis_in(index, v) ==> on_stack[v] || member(sccs, v)
}

#[verifier::opaque]
spec fn fin_ok(index: Seq<Option<usize>>, finished: Seq<bool>, adj: Seq<Vec<usize>>) -> bool {
    forall|v: int|
        0 <= v < index.len() && #[trigger] finished[v] ==> vis_in(index, v) && forall|k: int|
            0 <= k < adj[v]@.len() ==> vis_in(index, #[trigger] adj[v]@[k] as int)
}

/// A finished node still on the stack reaches, through each edge, either a
/// completed component or a stacked node whose index bounds its lowlink.
#[verifier::opaque]
spec fn edge_ok(
    index: Seq<Option<usize>>,
    on_stack: Seq<bool>,
    finished: Seq<bool>,
    lowlink: Seq<usize>,
    sccs: Seq<Vec<usize>>,
    adj: Seq<Vec<usize>>,
) -> bool {
    forall|u: int, k: int|
        0 <= u < index.len() && on_stack[u] && finished[u] && 0 <= k < adj[u]@.len() ==> {
            let w = #[trigger] adj[u]@[k] as int;
            member(sccs, w) || (on_stack[w] && lowlink[u] <= ix_in(index, w))
        }
}

#[verifier::opaque]
spec fn topo_ok(sccs: Seq<Vec<usize>>, adj: Seq<Vec<usize>>) -> bool {
    successors_earlier(sccs, adj)
}

proof fn lemma_member_grow(a: Seq<Vec<usize>>, b: Seq<Vec<usize>>, w: int)
    requires
        a.len() <= b.len(),
        b.subrange(0, a.len() as int) == a,
        member(a, w),
    ensures
        member(b, w),
{
    let (i, j) = choose|i: int, j: int| 0 <= i < a.len() && 0 <= j < a[i]@.len() && a[i]@[j] == w;
    assert(b.subrange(0, a.len() as int)[i] == b[i]);
}

struct Tarjan {
    index: Vec<Option<usize>>,
    lowlink: Vec<usize>,
    on_stack: Vec<bool>,
    stack: Vec<usize>,
    counter: usize,
    sccs: Vec<Vec<usize>>,
    /// Nodes in order of their first visit.
    order: Ghost<Seq<int>>,
    /// Nodes whose exploration has completed.
    finished: Ghost<Seq<bool>>,
    /// For each node on the stack, a node on the stack whose index is its lowlink.
    low_of: Ghost<Seq<int>>,
}

impl Tarjan {
    #[verifier::inline]
    spec fn n(&self) -> int {
        self.index@.len() as int
    }

    #[verifier::inline]
    spec fn vis(&self, v: int) -> bool {
        vis_in(self.index@, v)
    }

    #[verifier::inline]
    spec fn ix(&self, v: int) -> int {
        ix_in(self.index@, v)
    }

    spec fn sizes_ok(&self, adj: Seq<Vec<usize>>) -> bool {
        &&& graph_ok(adj)
        &&& adj.len() == self.n()
        &&& self.n() < usize::MAX
        &&& self.lowlink@.len() == self.n()
        &&& self.on_stack@.len() == self.n()
        &&& self.finished@.len() == self.n()
        &&& self.low_of@.len() == self.n()
        &&& self.counter <= self.n()
    }

    #[verifier::inline]
    spec fn order_ok(&self) -> bool {
        order_ok(self.index@, self.order@, self.counter as int)
    }

    #[verifier::inline]
    spec fn stack_ok(&self) -> bool {
        stack_ok(self.index@, self.stack@, self.on_stack@)
    }

    #[verifier::inline]
    spec fn low_ok(&self) -> bool {
        low_ok(self.index@, self.on_stack@, self.lowlink@, self.low_of@)
    }

    #[verifier::inline]
    spec fn comp_ok(&self) -> bool {
        comp_ok(self.index@, self.on_stack@, self.finished@, self.sccs@)
    }

    #[verifier::inline]
    spec fn fin_ok(&self, adj: Seq<Vec<usize>>) -> bool {
        fin_ok(self.index@, self.finished@, adj)
    }

    /// Every visited node is reached from one of `rs`.
    spec fn from_roots(&self, adj: Seq<Vec<usize>>, rs: Seq<usize>) -> bool {
        forall|u: int| 0 <= u < self.index@.len() && #[trigger] vis_in(self.index@, u) ==> reached(adj, rs, u)
    }

    spec fn inv(&self, adj: Seq<Vec<usize>>) -> bool {
        &&& self.sizes_ok(adj)
        &&& self.order_ok()
        &&& self.stack_ok()
        &&& self.low_ok()
        &&& self.comp_ok()
        &&& self.fin_ok(adj)
        &&& edge_ok(self.index@, self.on_stack@, self.finished@, self.lowlink@, self.sccs@, adj)
        &&& topo_ok(self.sccs@, adj)
    }

    proof fn lemma_room(&self, adj: Seq<Vec<usize>>, w: int)
        requires
            self.inv(adj),
            0 <= w < self.n(),
            !self.vis(w),
        ensures
            self.counter < self.n(),
    {
        reveal(order_ok);
        let o = self.order@;
        o.unique_seq_to_set();
        let s = set_int_range(0, self.n()).remove(w);
        lemma_int_range(0, self.n());
        assert forall|x: int| o.to_set().contains(x) implies s.contains(x) by {
            let k = choose|k: int| 0 <= k < o.len() && o[k] == x;
            assert(self.vis(o[k]));
        }
        lemma_len_subset(o.to_set(), s);
    }

    proof fn lemma_on_stack(&self, adj: Seq<Vec<usize>>, v: int)
        requires
            self.inv(adj),
            0 <= v < self.n(),
            self.on_stack@[v],
        ensures
            self.vis(v),
            self.ix(v) < self.counter,
            0 <= self.low_of@[v] < self.n(),
            self.on_stack@[self.low_of@[v]],
            self.lowlink@[v] == self.ix(self.low_of@[v]),
            self.lowlink@[v] <= self.ix(v),
            exists|i: int| 0 <= i < self.stack@.len() && #[trigger] self.stack@[i] == v,
    {
        reveal(stack_ok);
        reveal(low_ok);
        reveal(order_ok);
    }

    proof fn lemma_vis_member(&self, adj: Seq<Vec<usize>>, u: int)
        requires
            self.inv(adj),
            0 <= u < self.n(),
            self.vis(u),
            !self.on_stack@[u],
        ensures
            member(self.sccs@, u),
    {
        reveal(comp_ok);
    }

    /// Entering `v`: it gets the next index and is pushed.
    #[verifier::spinoff_prover]
    #[verifier::rlimit(40)]
    proof fn lemma_enter(pre: Tarjan, post: Tarjan, adj: Seq<Vec<usize>>, v: int)
        requires
            pre.inv(adj),
            0 <= v < pre.n(),
            !pre.vis(v),
            pre.counter < pre.n(),
            post.index@ == pre.index@.update(v, Some(pre.counter)),
            post.lowlink@ == pre.lowlink@.update(v, pre.counter),
            post.counter == pre.counter + 1,
            post.stack@ == pre.stack@.push(v as usize),
            post.on_stack@ == pre.on_stack@.update(v, true),
            post.order@ == pre.order@.push(v),
            post.low_of@ == pre.low_of@.update(v, v),
            post.finished@ == pre.finished@,
            post.sccs@ == pre.sccs@,
        ensures
            post.inv(adj),
            !post.finished@[v],
            forall|u: int| 0 <= u < pre.n() && #[trigger] pre.on_stack@[u] ==> u != v,
    {
        reveal(order_ok);
        reveal(stack_ok);
        reveal(low_ok);
        reveal(comp_ok);
        reveal(fin_ok);
        let c = pre.counter as int;
        assert(post.order_ok()) by {
            assert forall|k: int| 0 <= k < post.counter implies post.vis(#[trigger] post.order@[k])
                && post.ix(post.order@[k]) == k by {
                if k < c {
                    assert(pre.vis(pre.order@[k]));
                }
            }
            assert(post.order@.no_duplicates()) by {
                assert forall|i: int, j: int| 0 <= i < j < post.order@.len() implies post.order@[i] != post.order@[j] by {
                    if j == c {
                        assert(pre.vis(pre.order@[i]));
                    }
                }
            }
            assert forall|u: int| 0 <= u < post.n() && #[trigger] post.vis(u) implies post.ix(u) < post.counter by {
                if u != v {
                    assert(post.index@[u] == pre.index@[u]);
                    assert(pre.vis(u));
                    assert(post.ix(u) == pre.ix(u));
                    assert(pre.ix(u) < pre.counter);
                }
            }
        }
        assert(post.stack_ok()) by {
            assert forall|i: int, j: int|
                0 <= i < j < post.stack@.len() implies post.ix(#[trigger] post.stack@[i] as int)
                < post.ix(#[trigger] post.stack@[j] as int) by {
                let u = pre.stack@[i] as int;
                assert(pre.on_stack@[u]);
                if j == pre.stack@.len() {
                    assert(pre.vis(u));
                } else {
                    assert(pre.stack@[j] == post.stack@[j]);
                    assert(pre.on_stack@[pre.stack@[j] as int]);
                    assert(pre.vis(pre.stack@[j] as int));
                    assert(pre.vis(u));
                }
            }
            assert forall|u: int|
                0 <= u < post.n() && #[trigger] post.on_stack@[u] implies exists|i: int|
                0 <= i < post.stack@.len() && #[trigger] post.stack@[i] == u by {
                if u == v {
                    assert(post.stack@[pre.stack@.len() as int] == u);
                } else {
                    let i = choose|i: int| 0 <= i < pre.stack@.len() && #[trigger] pre.stack@[i] == u;
                    assert(post.stack@[i] == u);
                }
            }
            assert forall|i: int| 0 <= i < post.stack@.len() implies #[trigger] post.on_stack@[post.stack@[i] as int] by {
                if i < pre.stack@.len() {
                    assert(pre.on_stack@[pre.stack@[i] as int]);
                }
            }
        }
        assert(post.low_ok()) by {
            assert forall|u: int| 0 <= u < post.n() && #[trigger] post.on_stack@[u] implies {
                let x = post.low_of@[u];
                &&& 0 <= x < post.n()
                &&& post.on_stack@[x]
                &&& post.lowlink@[u] == post.ix(x)
                &&& post.ix(x) <= post.ix(u)
            } by {
                if u != v {
                    let x = pre.low_of@[u];
                    assert(pre.vis(x));
                    assert(pre.vis(u));
                }
            }
        }
        assert(post.comp_ok()) by {
            assert forall|i: int, j: int|
                0 <= i < post.sccs@.len() && 0 <= j < post.sccs@[i]@.len() implies {
                    let u = #[trigger] post.sccs@[i]@[j] as int;
                    &&& post.vis(u)
                    &&& !post.on_stack@[u]
                    &&& post.finished@[u]
                } by {
                let u = pre.sccs@[i]@[j] as int;
                assert(pre.vis(u));
            }
            assert forall|u: int| 0 <= u < post.n() && #[trigger] post.vis(u) implies post.on_stack@[u]
                || member(post.sccs@, u) by {
                if u != v {
                    assert(pre.vis(u));
                }
            }
        }
        assert(post.fin_ok(adj)) by {
            assert forall|u: int| 0 <= u < post.n() && #[trigger] post.finished@[u] implies post.vis(u)
                && forall|k: int| 0 <= k < adj[u]@.len() ==> post.vis(#[trigger] adj[u]@[k] as int) by {
                assert forall|k: int| 0 <= k < adj[u]@.len() implies post.vis(#[trigger] adj[u]@[k] as int) by {
                    assert(pre.vis(adj[u]@[k] as int));
                }
            }
        }
        assert(edge_ok(post.index@, post.on_stack@, post.finished@, post.lowlink@, post.sccs@, adj)) by {
            reveal(edge_ok);
            assert forall|u: int, k: int|
                0 <= u < post.n() && post.on_stack@[u] && post.finished@[u] && 0 <= k < adj[u]@.len() implies {
                    let w = #[trigger] adj[u]@[k] as int;
                    member(post.sccs@, w) || (post.on_stack@[w] && post.lowlink@[u] <= post.ix(w))
                } by {
                let w = adj[u]@[k] as int;
                assert(pre.vis(w));
                assert(pre.on_stack@[u] && pre.finished@[u]);
            }
        }
    }

    /// Lowering the lowlink of stacked `v` to the index of stacked `x`.
    proof fn lemma_lower(pre: Tarjan, post: Tarjan, adj: Seq<Vec<usize>>, v: int, x: int)
        requires
            pre.inv(adj),
            0 <= v < pre.n(),
            0 <= x < pre.n(),
            pre.on_stack@[v],
            pre.on_stack@[x],
            pre.ix(x) <= pre.ix(v),
            post.lowlink@ == pre.lowlink@.update(v, pre.ix(x) as usize),
            post.low_of@ == pre.low_of@.update(v, x),
            post.index == pre.index,
            post.counter == pre.counter,
            post.stack == pre.stack,
            post.on_stack == pre.on_stack,
            post.order == pre.order,
            post.finished == pre.finished,
            post.sccs == pre.sccs,
            !pre.finished@[v],
        ensures
            post.inv(adj),
    {
        reveal(low_ok);
        reveal(edge_ok);
        assert forall|u: int, k: int|
            0 <= u < post.n() && post.on_stack@[u] && post.finished@[u] && 0 <= k < adj[u]@.len() implies {
                let w = #[trigger] adj[u]@[k] as int;
                member(post.sccs@, w) || (post.on_stack@[w] && post.lowlink@[u] <= post.ix(w))
            } by {
            assert(u != v);
        }
    }

    /// Marking `v` finished once all its successors are visited.
    proof fn lemma_finish(pre: Tarjan, post: Tarjan, adj: Seq<Vec<usize>>, v: int)
        requires
            pre.inv(adj),
            0 <= v < pre.n(),
            pre.vis(v),
            forall|k: int| 0 <= k < adj[v]@.len() ==> pre.vis(#[trigger] adj[v]@[k] as int),
            post.finished@ == pre.finished@.update(v, true),
            post.index == pre.index,
            post.lowlink == pre.lowlink,
            post.low_of == pre.low_of,
            post.counter == pre.counter,
            post.stack == pre.stack,
            post.on_stack == pre.on_stack,
            post.order == pre.order,
            post.sccs == pre.sccs,
            forall|k: int|
                0 <= k < adj[v]@.len() ==> member(pre.sccs@, #[trigger] adj[v]@[k] as int) || (pre.on_stack@[
                    adj[v]@[k] as int] && pre.lowlink@[v] <= pre.ix(adj[v]@[k] as int)),
        ensures
            post.inv(adj),
    {
        reveal(comp_ok);
        reveal(fin_ok);
        reveal(edge_ok);
        assert forall|u: int, k: int|
            0 <= u < post.n() && post.on_stack@[u] && post.finished@[u] && 0 <= k < adj[u]@.len() implies {
                let w = #[trigger] adj[u]@[k] as int;
                member(post.sccs@, w) || (post.on_stack@[w] && post.lowlink@[u] <= post.ix(w))
            } by {
            if u != v {
                assert(pre.finished@[u]);
            }
        }
    }

    proof fn lemma_stack_order(&self, i: int, j: int)
        requires
            self.stack_ok(),
            0 <= i < j < self.stack@.len(),
        ensures
            self.ix(self.stack@[i] as int) < self.ix(self.stack@[j] as int),
            self.stack@[i] != self.stack@[j],
    {
        reveal(stack_ok);
    }

    proof fn lemma_stack_elem(&self, i: int)
        requires
            self.stack_ok(),
            0 <= i < self.stack@.len(),
        ensures
            0 <= self.stack@[i] < self.n(),
            self.on_stack@[self.stack@[i] as int],
    {
        reveal(stack_ok);
    }

    /// The new component closes over the successors of its nodes.
    #[verifier::spinoff_prover]
    proof fn lemma_pop_edges(pre: Tarjan, post: Tarjan, adj: Seq<Vec<usize>>, v: int, base: int, comp: Vec<usize>)
        requires
            pre.inv(adj),
            0 <= v < pre.n(),
            0 <= base < pre.stack@.len(),
            pre.stack@[base] == v,
            pre.lowlink@[v] == pre.ix(v),
            forall|i: int| base <= i < pre.stack@.len() ==> pre.finished@[#[trigger] pre.stack@[i] as int],
            forall|i: int| base <= i < pre.stack@.len() ==> pre.ix(v) <= #[trigger] pre.lowlink@[pre.stack@[i] as int],
            comp@.len() == pre.stack@.len() - base,
            forall|j: int| 0 <= j < comp@.len() ==> #[trigger] comp@[j] == pre.stack@[pre.stack@.len() - 1 - j],
            post.on_stack@.len() == pre.n(),
            forall|u: int| 0 <= u < pre.n() ==> #[trigger] post.on_stack@[u] == (pre.on_stack@[u] && !(exists|q: int|
                base <= q < pre.stack@.len() && pre.stack@[q] == u)),
            post.sccs@ == pre.sccs@.push(comp),
            post.index == pre.index,
            post.lowlink == pre.lowlink,
            post.finished == pre.finished,
        ensures
            edge_ok(post.index@, post.on_stack@, post.finished@, post.lowlink@, post.sccs@, adj),
            topo_ok(post.sccs@, adj),
    {
        reveal(stack_ok);
        reveal(edge_ok);
        reveal(topo_ok);
        let top = pre.stack@;
        let n = pre.n();
        let k = pre.sccs@.len() as int;
        assert(post.sccs@[k] == comp);
        assert(post.sccs@.subrange(0, k) =~= pre.sccs@);
        // a popped node lies in the new component
        assert forall|q: int| base <= q < top.len() implies member_upto(post.sccs@, #[trigger] top[q] as int, k) by {
            let j = top.len() - 1 - q;
            assert(comp@[j] == top[q]);
        }
        assert forall|u: int, kk: int|
            0 <= u < n && post.on_stack@[u] && post.finished@[u] && 0 <= kk < adj[u]@.len() implies {
                let w = #[trigger] adj[u]@[kk] as int;
                member(post.sccs@, w) || (post.on_stack@[w] && post.lowlink@[u] <= post.ix(w))
            } by {
            let w = adj[u]@[kk] as int;
            assert(pre.on_stack@[u]);
            if member(pre.sccs@, w) {
                lemma_member_grow(pre.sccs@, post.sccs@, w);
            } else if !post.on_stack@[w] {
                let q = choose|q: int| base <= q < top.len() && top[q] == w;
                assert(member_upto(post.sccs@, top[q] as int, k));
                let (m, l) = choose|m: int, l: int| 0 <= m <= k && 0 <= l < post.sccs@[m]@.len() && post.sccs@[m]@[l] == w;
            }
        }
        assert forall|i: int, j: int, kk: int|
            0 <= i < post.sccs@.len() && 0 <= j < post.sccs@[i]@.len() && 0 <= kk < adj[post.sccs@[i]@[j] as int]@.len()
                implies member_upto(post.sccs@, #[trigger] adj[post.sccs@[i]@[j] as int]@[kk] as int, i) by {
            let u = post.sccs@[i]@[j] as int;
            let w = adj[u]@[kk] as int;
            if i < k {
                assert(post.sccs@[i] == pre.sccs@[i]);
                assert(member_upto(pre.sccs@, w, i));
                let (m, l) = choose|m: int, l: int| 0 <= m <= i && 0 <= l < pre.sccs@[m]@.len() && pre.sccs@[m]@[l] == w;
                assert(post.sccs@[m] == pre.sccs@[m]);
            } else {
                let q = top.len() - 1 - j;
                assert(comp@[j] == top[q]);
                assert(pre.finished@[u]);
                assert(pre.on_stack@[top[q] as int]);
                if member(pre.sccs@, w) {
                    let (m, l) = choose|m: int, l: int| 0 <= m < pre.sccs@.len() && 0 <= l < pre.sccs@[m]@.len() && pre.sccs@[m]@[l] == w;
                    assert(post.sccs@[m] == pre.sccs@[m]);
                } else {
                    assert(pre.on_stack@[w] && pre.lowlink@[u] <= pre.ix(w));
                    let p = choose|p: int| 0 <= p < top.len() && #[trigger] top[p] == w;
                    if p < base {
                        assert(pre.ix(top[p] as int) < pre.ix(top[base] as int));
                        assert(pre.ix(v) <= pre.lowlink@[top[q] as int]);
                        assert(false);
                    } else {
                        assert(member_upto(post.sccs@, top[p] as int, k));
                    }
                }
            }
        }
    }

    /// Moving the top of the stack, from position `base` up, into a new component.
    #[verifier::spinoff_prover]
    #[verifier::rlimit(60)]
    proof fn lemma_pop(pre: Tarjan, post: Tarjan, adj: Seq<Vec<usize>>, v: int, base: int, comp: Vec<usize>)
        requires
            pre.inv(adj),
            0 <= v < pre.n(),
            0 <= base < pre.stack@.len(),
            pre.stack@[base] == v,
            pre.lowlink@[v] == pre.ix(v),
            forall|i: int| base <= i < pre.stack@.len() ==> pre.ix(v) <= #[trigger] pre.lowlink@[pre.stack@[i] as int],
            forall|i: int| base <= i < pre.stack@.len() ==> pre.finished@[#[trigger] pre.stack@[i] as int],
            post.stack@ == pre.stack@.subrange(0, base),
            comp@.len() == pre.stack@.len() - base,
            forall|j: int| 0 <= j < comp@.len() ==> #[trigger] comp@[j] == pre.stack@[pre.stack@.len() - 1 - j],
            post.on_stack@.len() == pre.n(),
            forall|u: int| 0 <= u < pre.n() ==> #[trigger] post.on_stack@[u] == (pre.on_stack@[u] && !(exists|q: int|
                base <= q < pre.stack@.len() && pre.stack@[q] == u)),
            post.sccs@ == pre.sccs@.push(comp),
            post.index == pre.index,
            post.lowlink == pre.lowlink,
            post.low_of == pre.low_of,
            post.counter == pre.counter,
            post.order == pre.order,
            post.finished == pre.finished,
        ensures
            post.inv(adj),
            !post.on_stack@[v],
            forall|u: int|
                0 <= u < pre.n() && pre.on_stack@[u] && pre.ix(u) < pre.ix(v) ==> post.on_stack@[u],
    {
        Tarjan::lemma_pop_edges(pre, post, adj, v, base, comp);
        reveal(stack_ok);
        reveal(low_ok);
        reveal(comp_ok);
        let top = pre.stack@;
        let n = pre.n();
        let k = pre.sccs@.len();
        assert(post.sccs@[k as int] == comp);
        assert forall|j: int| 0 <= j < comp@.len() implies pre.on_stack@[#[trigger] comp@[j] as int] by {
            assert(pre.on_stack@[top[top.len() - 1 - j] as int]);
        }
        assert(!post.on_stack@[v]);
        assert(components_in_range(post.sccs@, n)) by {
            assert forall|i: int| 0 <= i < post.sccs@.len() implies {
                &&& (#[trigger] post.sccs@[i])@.len() > 0
                &&& forall|j: int| 0 <= j < post.sccs@[i]@.len() ==> post.sccs@[i]@[j] < n
            } by {
                if i < k {
                    assert(post.sccs@[i] == pre.sccs@[i]);
                } else {
                    assert forall|j: int| 0 <= j < post.sccs@[i]@.len() implies post.sccs@[i]@[j] < n by {
                        assert(comp@[j] == top[top.len() - 1 - j]);
                    }
                }
            }
        }
        assert(disjoint_components(post.sccs@)) by {
            assert forall|i: int, j: int, l: int|
                0 <= i < post.sccs@.len() && 0 <= j < l < post.sccs@[i]@.len() implies post.sccs@[i]@[j]
                != post.sccs@[i]@[l] by {
                if i < k {
                    assert(post.sccs@[i] == pre.sccs@[i]);
                } else {
                    let a = top.len() - 1 - j;
                    let b = top.len() - 1 - l;
                    assert(comp@[j] == top[a] && comp@[l] == top[b]);
                    assert(pre.ix(top[b] as int) < pre.ix(top[a] as int));
                }
            }
            assert forall|i: int, j: int, m: int, l: int|
                0 <= i < m < post.sccs@.len() && 0 <= j < post.sccs@[i]@.len() && 0 <= l
                    < post.sccs@[m]@.len() implies #[trigger] post.sccs@[i]@[j]
                != #[trigger] post.sccs@[m]@[l] by {
                assert(post.sccs@[i] == pre.sccs@[i]);
                if m < k {
                    assert(post.sccs@[m] == pre.sccs@[m]);
                } else {
                    let u = pre.sccs@[i]@[j] as int;
                    assert(!pre.on_stack@[u]);
                    assert(pre.on_stack@[comp@[l] as int]);
                }
            }
        }
        assert forall|i: int, j: int|
            0 <= i < post.sccs@.len() && 0 <= j < post.sccs@[i]@.len() implies {
                let u = #[trigger] post.sccs@[i]@[j] as int;
                &&& post.vis(u)
                &&& !post.on_stack@[u]
                &&& post.finished@[u]
            } by {
            let u = post.sccs@[i]@[j] as int;
            if i < k {
                assert(post.sccs@[i] == pre.sccs@[i]);
                assert(!pre.on_stack@[u]);
            } else {
                let t = top.len() - 1 - j;
                assert(comp@[j] == top[t]);
                assert(pre.finished@[top[t] as int]);
                assert(pre.on_stack@[top[t] as int]);
                assert(exists|q: int| base <= q < top.len() && top[q] == u);
            }
        }
        assert forall|u: int| 0 <= u < n && #[trigger] post.vis(u) implies post.on_stack@[u] || member(
            post.sccs@,
            u,
        ) by {
            if !post.on_stack@[u] {
                if pre.on_stack@[u] {
                    let q = choose|q: int| base <= q < top.len() && top[q] == u;
                    let j = top.len() - 1 - q;
                    assert(comp@[j] == u);
                    assert(post.sccs@[k as int] == comp);
                    assert(0 <= k < post.sccs@.len() && 0 <= j < post.sccs@[k as int]@.len() && post.sccs@[k as int]@[j] == u);
                } else {
                    assert(pre.vis(u));
                    assert(member(pre.sccs@, u));
                    let (i, j) = choose|i: int, j: int|
                        0 <= i < pre.sccs@.len() && 0 <= j < pre.sccs@[i]@.len() && pre.sccs@[i]@[j]
                            == u;
                    assert(post.sccs@[i] == pre.sccs@[i]);
                }
            }
        }
        assert(post.comp_ok());
        assert forall|i: int| 0 <= i < post.stack@.len() implies #[trigger] post.on_stack@[post.stack@[i] as int] by {
            let u = post.stack@[i] as int;
            assert(u == top[i]);
            if exists|q: int| base <= q < top.len() && top[q] == u {
                let q = choose|q: int| base <= q < top.len() && top[q] == u;
                assert(pre.ix(top[i] as int) < pre.ix(top[q] as int));
            }
        }
        assert forall|u: int| 0 <= u < n && #[trigger] post.on_stack@[u] implies exists|i: int|
            0 <= i < post.stack@.len() && #[trigger] post.stack@[i] == u by {
            let i = choose|i: int| 0 <= i < top.len() && #[trigger] top[i] == u;
            assert(i < base);
            assert(post.stack@[i] == u);
        }
        assert(post.stack_ok());
        assert forall|u: int| 0 <= u < n && #[trigger] post.on_stack@[u] implies {
            let x = post.low_of@[u];
            &&& 0 <= x < n
            &&& post.on_stack@[x]
            &&& post.lowlink@[u] == post.ix(x)
            &&& post.ix(x) <= post.ix(u)
        } by {
            let x = post.low_of@[u];
            let iu = choose|i: int| 0 <= i < top.len() && #[trigger] top[i] == u;
            assert(iu < base);
            if exists|q: int| base <= q < top.len() && top[q] == x {
                let q = choose|q: int| base <= q < top.len() && top[q] == x;
                assert(pre.ix(top[iu] as int) < pre.ix(top[q] as int));
            }
        }
        assert(post.low_ok());
        assert forall|u: int|
            0 <= u < n && pre.on_stack@[u] && pre.ix(u) < pre.ix(v) implies post.on_stack@[u] by {
            if exists|q: int| base <= q < top.len() && top[q] == u {
                let q = choose|q: int| base <= q < top.len() && top[q] == u;
                if q > base {
                    assert(pre.ix(top[base] as int) < pre.ix(top[q] as int));
                }
            }
        }
    }

    #[verifier::inline]
    spec fn reach_ok(&self, adj: Seq<Vec<usize>>) -> bool {
        reach_ok(adj, self.stack@, self.on_stack@, self.low_of@, self.sccs@)
    }

    /// Above position `base` every stacked node reaches the node at `base`,
    /// when each of them has a lowlink below its own index.
    proof fn lemma_chain_down(&self, adj: Seq<Vec<usize>>, base: int, j: int)
        requires
            self.inv(adj),
            self.reach_ok(adj),
            0 <= base <= j < self.stack@.len(),
            forall|i: int| base < i < self.stack@.len() ==> #[trigger] self.lowlink@[self.stack@[i] as int] < self.ix(
                self.stack@[i] as int,
            ),
        ensures
            reaches(adj, self.stack@[j] as int, self.stack@[base] as int),
        decreases j,
    {
        let w = self.stack@[j] as int;
        if j == base {
            lemma_reaches_refl(adj, w);
        } else {
            self.lemma_stack_elem(j);
            self.lemma_on_stack(adj, w);
            let x = self.low_of@[w];
            self.lemma_on_stack(adj, x);
            let p = choose|i: int| 0 <= i < self.stack@.len() && #[trigger] self.stack@[i] == x;
            assert(self.lowlink@[self.stack@[j] as int] < self.ix(self.stack@[j] as int));
            if p >= j {
                if p > j {
                    self.lemma_stack_order(j, p);
                }
                assert(false);
            }
            reveal(reach_ok);
            assert(reaches(adj, w, x));
            if p < base {
                assert(reaches(adj, self.stack@[p] as int, self.stack@[base] as int));
            } else if p > base {
                self.lemma_chain_down(adj, base, p);
            } else {
                lemma_reaches_refl(adj, x);
            }
            lemma_reaches_trans(adj, w, x, self.stack@[base] as int);
        }
    }

    /// Entering `v`, reached from every stacked node, keeps the reachability
    /// facts.
    proof fn lemma_enter_reach(pre: Tarjan, post: Tarjan, adj: Seq<Vec<usize>>, v: int)
        requires
            pre.reach_ok(adj),
            forall|i: int| 0 <= i < pre.stack@.len() ==> reaches(adj, #[trigger] pre.stack@[i] as int, v),
            0 <= v < pre.on_stack@.len(),
            pre.low_of@.len() == pre.on_stack@.len(),
            v <= usize::MAX,
            post.stack@ == pre.stack@.push(v as usize),
            post.on_stack@ == pre.on_stack@.update(v, true),
            post.low_of@ == pre.low_of@.update(v, v),
            post.sccs@ == pre.sccs@,
        ensures
            post.reach_ok(adj),
    {
        reveal(reach_ok);
        lemma_reaches_refl(adj, v);
        assert forall|i: int, j: int| 0 <= i < j < post.stack@.len() implies reaches(
            adj,
            post.stack@[i] as int,
            post.stack@[j] as int,
        ) by {
            if j < pre.stack@.len() {
                assert(post.stack@[i] == pre.stack@[i] && post.stack@[j] == pre.stack@[j]);
            } else {
                assert(post.stack@[i] == pre.stack@[i]);
                assert(post.stack@[j] as int == v);
                assert(reaches(adj, pre.stack@[i] as int, v));
            }
        }
    }

    /// Recording `x`, which `v` reaches, as `v`'s lowlink node keeps the
    /// reachability facts.
    proof fn lemma_lower_reach(pre: Tarjan, post: Tarjan, adj: Seq<Vec<usize>>, v: int, x: int)
        requires
            pre.reach_ok(adj),
            reaches(adj, v, x),
            post.low_of@ == pre.low_of@.update(v, x),
            post.stack == pre.stack,
            post.on_stack == pre.on_stack,
            post.sccs == pre.sccs,
            0 <= v < pre.low_of@.len(),
            pre.low_of@.len() == pre.on_stack@.len(),
        ensures
            post.reach_ok(adj),
    {
        reveal(reach_ok);
        assert forall|u: int| 0 <= u < post.on_stack@.len() && #[trigger] post.on_stack@[u] implies reaches(
            adj,
            u,
            post.low_of@[u],
        ) by {
            if u != v {
                assert(post.low_of@[u] == pre.low_of@[u]);
            }
        }
    }

    /// The component popped at `v` is strongly connected.
    proof fn lemma_pop_reach(pre: Tarjan, post: Tarjan, adj: Seq<Vec<usize>>, v: int, base: int, comp: Vec<usize>)
        requires
            pre.inv(adj),
            pre.reach_ok(adj),
            0 <= base < pre.stack@.len(),
            pre.stack@[base] == v,
            forall|i: int| base < i < pre.stack@.len() ==> #[trigger] pre.lowlink@[pre.stack@[i] as int] < pre.ix(
                pre.stack@[i] as int,
            ),
            post.stack@ == pre.stack@.subrange(0, base),
            comp@.len() == pre.stack@.len() - base,
            forall|j: int| 0 <= j < comp@.len() ==> #[trigger] comp@[j] == pre.stack@[pre.stack@.len() - 1 - j],
            post.on_stack@.len() == pre.on_stack@.len(),
            forall|u: int| 0 <= u < pre.on_stack@.len() && #[trigger] post.on_stack@[u] ==> pre.on_stack@[u],
            post.low_of == pre.low_of,
            post.sccs@ == pre.sccs@.push(comp),
        ensures
            post.reach_ok(adj),
    {
        reveal(reach_ok);
        let top = pre.stack@;
        let k = pre.sccs@.len() as int;
        assert forall|i: int, j: int| 0 <= i < j < post.stack@.len() implies reaches(
            adj,
            post.stack@[i] as int,
            post.stack@[j] as int,
        ) by {
            assert(post.stack@[i] == top[i] && post.stack@[j] == top[j]);
        }
        assert forall|i: int, j: int, l: int|
            0 <= i < post.sccs@.len() && 0 <= j < post.sccs@[i]@.len() && 0 <= l < post.sccs@[i]@.len() implies reaches(
            adj,
            #[trigger] post.sccs@[i]@[j] as int,
            #[trigger] post.sccs@[i]@[l] as int,
        ) by {
            if i < k {
                assert(post.sccs@[i] == pre.sccs@[i]);
            } else {
                assert(post.sccs@[i] == comp);
                let qa = top.len() - 1 - j;
                let qb = top.len() - 1 - l;
                assert(comp@[j] == top[qa] && comp@[l] == top[qb]);
                pre.lemma_chain_down(adj, base, qa);
                if qb > base {
                    assert(reaches(adj, top[base] as int, top[qb] as int));
                } else {
                    lemma_reaches_refl(adj, v);
                }
                lemma_reaches_trans(adj, top[qa] as int, v, top[qb] as int);
            }
        }
        assert(components_connected(post.sccs@, adj));
    }

    /// Pops the component rooted at `v` (at stack position `base`) off the stack.
    fn pop_component(&mut self, Ghost(adj): Ghost<Seq<Vec<usize>>>, v: usize, base: usize)
        requires
            old(self).inv(adj),
            v < old(self).n(),
            base < old(self).stack@.len(),
            old(self).stack@[base as int] == v,
            old(self).lowlink@[v as int] == old(self).ix(v as int),
            forall|i: int|
                base <= i < old(self).stack@.len() ==> old(self).finished@[#[trigger] old(self).stack@[i] as int],
            forall|i: int|
                base <= i < old(self).stack@.len() ==> old(self).ix(v as int) <= #[trigger] old(self).lowlink@[old(
                    self,
                ).stack@[i] as int],
            old(self).reach_ok(adj),
            forall|i: int|
                base < i < old(self).stack@.len() ==> #[trigger] old(self).lowlink@[old(self).stack@[i] as int] < old(
                    self,
                ).ix(old(self).stack@[i] as int),
        ensures
            final(self).inv(adj),
            final(self).reach_ok(adj),
            final(self).stack@ == old(self).stack@.subrange(0, base as int),
            final(self).sccs@.len() == old(self).sccs@.len() + 1,
            final(self).sccs@.subrange(0, old(self).sccs@.len() as int) == old(self).sccs@,
            final(self).index == old(self).index,
            final(self).lowlink == old(self).lowlink,
            final(self).low_of == old(self).low_of,
            final(self).finished == old(self).finished,
            final(self).order == old(self).order,
            final(self).counter == old(self).counter,
            !final(self).on_stack@[v as int],
            forall|u: int|
                0 <= u < old(self).n() && old(self).on_stack@[u] && old(self).ix(u) < old(self).ix(v as int)
                    ==> final(self).on_stack@[u],
    {
        let ghost s0 = *self;
        let ghost top = self.stack@;
        let ghost n = self.n();
        let mut scc: Vec<usize> = Vec::new();
        loop
            invariant_except_break
                self.stack@.len() > base,
            invariant
                self.stack@.len() >= base,
                self.stack@ == top.subrange(0, self.stack@.len() as int),
                scc@.len() == top.len() - self.stack@.len(),
                forall|j: int| 0 <= j < scc@.len() ==> #[trigger] scc@[j] == top[top.len() - 1 - j],
                self.on_stack@.len() == n,
                forall|u: int|
                    0 <= u < n ==> #[trigger] self.on_stack@[u] == (s0.on_stack@[u] && !(exists|i: int|
                        self.stack@.len() <= i < top.len() && top[i] == u)),
                self.index == s0.index,
                self.lowlink == s0.lowlink,
                self.low_of == s0.low_of,
                self.finished == s0.finished,
                self.order == s0.order,
                self.counter == s0.counter,
                self.sccs == s0.sccs,
                s0.inv(adj),
                top == s0.stack@,
                n == s0.n(),
                base < top.len(),
                top[base as int] == v,
            ensures
                self.stack@.len() == base,
            decreases self.stack@.len(),
        {
            let w = self.stack.pop().unwrap();
            let ghost len = self.stack@.len();
            assert(w == top[len as int]);
            proof {
                s0.lemma_stack_elem(len as int);
            }
            self.on_stack.set(w, false);
            scc.push(w);
            proof {
                assert forall|u: int| 0 <= u < n implies #[trigger] self.on_stack@[u] == (s0.on_stack@[u]
                    && !(exists|i: int| self.stack@.len() <= i < top.len() && top[i] == u)) by {
                    if u == w {
                        assert(top[len as int] == u);
                    } else {
                        if exists|i: int| len <= i < top.len() && top[i] == u {
                            let i = choose|i: int| len <= i < top.len() && top[i] == u;
                            assert(i != len);
                        }
                    }
                }
            }
            if w == v {
                proof {
                    if len != base {
                        s0.lemma_stack_order(base as int, len as int);
                    }
                }
                break;
            }
        }
        let ghost comp = scc;
        self.sccs.push(scc);
        proof {
            Tarjan::lemma_pop(s0, *self, adj, v as int, base as int, comp);
            assert forall|u: int| 0 <= u < s0.on_stack@.len() && #[trigger] self.on_stack@[u] implies s0.on_stack@[u] by {
                reveal(stack_ok);
            }
            Tarjan::lemma_pop_reach(s0, *self, adj, v as int, base as int, comp);
            assert(self.sccs@.subrange(0, s0.sccs@.len() as int) =~= s0.sccs@);
        }
    }

    fn visit(&mut self, adj: &Vec<Vec<usize>>, v: usize, Ghost(budget): Ghost<int>, Ghost(rs): Ghost<Seq<usize>>)
        requires
            old(self).from_roots(adj@, rs),
            reached(adj@, rs, v as int),
            budget == old(self).n() - old(self).counter,
            old(self).inv(adj@),
            v < old(self).n(),
            !old(self).vis(v as int),
            old(self).reach_ok(adj@),
            forall|i: int| 0 <= i < old(self).stack@.len() ==> reaches(adj@, #[trigger] old(self).stack@[i] as int, v as int),
        ensures
            final(self).from_roots(adj@, rs),
            final(self).inv(adj@),
            final(self).reach_ok(adj@),
            forall|i: int|
                old(self).stack@.len() <= i < final(self).stack@.len() ==> #[trigger] final(self).lowlink@[final(self).stack@[i] as int]
                    < final(self).ix(final(self).stack@[i] as int),
            final(self).n() == old(self).n(),
            final(self).vis(v as int),
            final(self).finished@[v as int],
            final(self).ix(v as int) == old(self).counter,
            old(self).counter < final(self).counter,
            forall|u: int|
                0 <= u < old(self).n() && old(self).vis(u) ==> final(self).vis(u) && final(self).ix(u)
                    == old(self).ix(u),
            forall|u: int| 0 <= u < old(self).n() && old(self).finished@[u] ==> final(self).finished@[u],
            forall|u: int|
                0 <= u < old(self).n() && final(self).finished@[u] ==> old(self).finished@[u] || !old(self).vis(u),
            final(self).stack@.len() >= old(self).stack@.len(),
            final(self).stack@.subrange(0, old(self).stack@.len() as int) == old(self).stack@,
            forall|i: int|
                old(self).stack@.len() <= i < final(self).stack@.len() ==> final(self).finished@[#[trigger] final(self).stack@[i] as int],
            forall|u: int|
                0 <= u < old(self).n() && #[trigger] old(self).on_stack@[u] ==> final(self).lowlink@[u]
                    == old(self).lowlink@[u] && final(self).low_of@[u] == old(self).low_of@[u],
            final(self).on_stack@[v as int] ==> final(self).stack@[old(self).stack@.len() as int] == v
                && final(self).lowlink@[v as int] < final(self).ix(v as int),
            !final(self).on_stack@[v as int] ==> final(self).stack@ == old(self).stack@
                && final(self).lowlink@[v as int] == final(self).ix(v as int),
            final(self).sccs@.len() >= old(self).sccs@.len(),
            final(self).sccs@.subrange(0, old(self).sccs@.len() as int) == old(self).sccs@,
            forall|i: int|
                old(self).stack@.len() <= i < final(self).stack@.len() ==> final(self).lowlink@[v as int]
                    <= #[trigger] final(self).lowlink@[final(self).stack@[i] as int],
        decreases budget,
    {
        proof {
            self.lemma_room(adj@, v as int);
        }
        let ghost pre = *self;
        let base = self.stack.len();
        let c = self.counter;
        self.index.set(v, Some(c));
        self.lowlink.set(v, c);
        self.counter = c + 1;
        self.stack.push(v);
        self.on_stack.set(v, true);
        proof {
            assert forall|u: int| 0 <= u < self.index@.len() && #[trigger] vis_in(self.index@, u) implies reached(adj@, rs, u) by {
                if u != v as int {
                    assert(vis_in(pre.index@, u));
                }
            }
            self.order@ = self.order@.push(v as int);
            self.low_of@ = self.low_of@.update(v as int, v as int);
            Tarjan::lemma_enter(pre, *self, adj@, v as int);
            Tarjan::lemma_enter_reach(pre, *self, adj@, v as int);
            assert(self.stack@.subrange(0, base as int) =~= pre.stack@);
        }
        let mut k: usize = 0;
        let nbrs = &adj[v];
        while k < nbrs.len()
            invariant
                self.from_roots(adj@, rs),
                reached(adj@, rs, v as int),
                self.inv(adj@),
                nbrs@ == adj@[v as int]@,
                self.n() == pre.n(),
                v < self.n(),
                self.vis(v as int),
                self.ix(v as int) == c,
                c == pre.counter,
                !self.finished@[v as int],
                self.on_stack@[v as int],
                self.stack@.len() > base,
                base == pre.stack@.len(),
                self.stack@[base as int] == v,
                self.stack@.subrange(0, base as int) == pre.stack@,
                forall|i: int|
                    base < i < self.stack@.len() ==> self.finished@[#[trigger] self.stack@[i] as int],
                forall|j: int| 0 <= j < k ==> self.vis(#[trigger] nbrs@[j] as int),
                k <= nbrs@.len(),
                pre.counter < self.counter,
                forall|u: int|
                    0 <= u < pre.n() && pre.vis(u) ==> self.vis(u) && self.ix(u) == pre.ix(u),
                forall|u: int| 0 <= u < pre.n() && pre.finished@[u] ==> self.finished@[u],
                forall|u: int| 0 <= u < pre.n() && self.finished@[u] ==> pre.finished@[u] || !pre.vis(u),
                budget == pre.n() - pre.counter,
                !pre.on_stack@[v as int],
                pre.inv(adj@),
                forall|u: int|
                    0 <= u < pre.n() && #[trigger] pre.on_stack@[u] ==> self.lowlink@[u]
                        == pre.lowlink@[u] && self.low_of@[u] == pre.low_of@[u],
                self.sccs@.len() >= pre.sccs@.len(),
                self.sccs@.subrange(0, pre.sccs@.len() as int) == pre.sccs@,
                forall|j: int|
                    0 <= j < k ==> member(self.sccs@, #[trigger] nbrs@[j] as int) || (self.on_stack@[nbrs@[j] as int]
                        && self.lowlink@[v as int] <= self.ix(nbrs@[j] as int)),
                forall|i: int|
                    base < i < self.stack@.len() ==> self.lowlink@[v as int] <= #[trigger] self.lowlink@[self.stack@[i] as int],
                self.reach_ok(adj@),
                forall|i: int|
                    base < i < self.stack@.len() ==> #[trigger] self.lowlink@[self.stack@[i] as int] < self.ix(
                        self.stack@[i] as int,
                    ),
            decreases nbrs@.len() - k,
        {
            let w = nbrs[k];
            assert(w < self.n()) by {
                assert(adj@[v as int]@[k as int] == w);
            }
            let ghost top0 = *self;
            if self.index[w].is_none() {
                proof {
                    self.lemma_room(adj@, w as int);
                }
                let ghost mid = *self;
                proof {
                    assert forall|u: int| 0 <= u < pre.n() && #[trigger] pre.on_stack@[u] implies mid.on_stack@[u] by {
                        pre.lemma_on_stack(adj@, u);
                        let i = choose|i: int| 0 <= i < pre.stack@.len() && #[trigger] pre.stack@[i] == u;
                        assert(mid.stack@.subrange(0, base as int)[i] == mid.stack@[i]);
                        mid.lemma_stack_elem(i);
                    }
                }
                assert(self.n() - self.counter < pre.n() - pre.counter);
                proof {
                    lemma_reaches_edge(adj@, v as int, k as int);
                    assert(adj@[v as int]@[k as int] == w);
                    assert forall|i: int| 0 <= i < mid.stack@.len() implies reaches(
                        adj@,
                        #[trigger] mid.stack@[i] as int,
                        w as int,
                    ) by {
                        if i < base {
                            reveal(reach_ok);
                            assert(reaches(adj@, mid.stack@[i] as int, mid.stack@[base as int] as int));
                        } else if i > base {
                            mid.lemma_chain_down(adj@, base as int, i);
                        } else {
                            lemma_reaches_refl(adj@, v as int);
                        }
                        lemma_reaches_trans(adj@, mid.stack@[i] as int, v as int, w as int);
                    }
                }
                proof {
                    let i = choose|i: int| 0 <= i < rs.len() && #[trigger] reaches(adj@, rs[i] as int, v as int);
                    lemma_reaches_trans(adj@, rs[i] as int, v as int, w as int);
                }
                self.visit(adj, w, Ghost(self.n() - self.counter), Ghost(rs));
                proof {
                    assert forall|i: int| 0 <= i < mid.stack@.len() implies self.stack@[i] == mid.stack@[i] by {
                        assert(self.stack@.subrange(0, mid.stack@.len() as int)[i] == self.stack@[i]);
                    }
                    assert(self.stack@.subrange(0, base as int) =~= pre.stack@) by {
                        assert forall|i: int| 0 <= i < base implies self.stack@[i] == pre.stack@[i] by {
                            assert(mid.stack@.subrange(0, base as int)[i] == mid.stack@[i]);
                        }
                    }
                    assert forall|i: int| base < i < self.stack@.len() implies self.finished@[#[trigger] self.stack@[i] as int] by {
                        if i < mid.stack@.len() {
                            mid.lemma_stack_elem(i);
                            assert(mid.finished@[mid.stack@[i] as int]);
                            assert(self.stack@[i] == mid.stack@[i]);
                        }
                    }
                    assert forall|j: int| 0 <= j < pre.sccs@.len() implies self.sccs@[j] == pre.sccs@[j] by {
                        assert(self.sccs@.subrange(0, mid.sccs@.len() as int)[j] == self.sccs@[j]);
                        assert(mid.sccs@.subrange(0, pre.sccs@.len() as int)[j] == mid.sccs@[j]);
                    }
                    assert(self.sccs@.subrange(0, pre.sccs@.len() as int) =~= pre.sccs@);
                    assert(self.stack@[base as int] == v);
                    self.lemma_stack_elem(base as int);
                    self.lemma_on_stack(adj@, v as int);
                }
                let ghost after = *self;
                let wl = self.lowlink[w];
                let vl = self.lowlink[v];
                if wl < vl {
                    proof {
                        assert(self.on_stack@[w as int]);
                        self.lemma_on_stack(adj@, w as int);
                    }
                    let ghost s1 = *self;
                    let ghost x = self.low_of@[w as int];
                    proof {
                        reveal(reach_ok);
                        assert(reaches(adj@, w as int, x));
                        lemma_reaches_edge(adj@, v as int, k as int);
                        assert(adj@[v as int]@[k as int] == w);
                        lemma_reaches_trans(adj@, v as int, w as int, x);
                    }
                    self.lowlink.set(v, wl);
                    proof {
                        self.low_of@ = self.low_of@.update(v as int, x);
                        Tarjan::lemma_lower(s1, *self, adj@, v as int, x);
                        Tarjan::lemma_lower_reach(s1, *self, adj@, v as int, x);
                    }
                }
                proof {
                    assert(w as int != v as int);
                    assert(self.lowlink@[v as int] <= mid.lowlink@[v as int]);
                    assert(self.lowlink@[v as int] <= after.lowlink@[w as int] || !after.on_stack@[w as int]);
                    assert forall|j: int| 0 <= j < k + 1 implies member(self.sccs@, #[trigger] nbrs@[j] as int) || (
                        self.on_stack@[nbrs@[j] as int] && self.lowlink@[v as int] <= self.ix(nbrs@[j] as int)) by {
                        let x = nbrs@[j] as int;
                        assert(x == adj@[v as int]@[j]);
                        if j < k {
                            if member(mid.sccs@, x) {
                                lemma_member_grow(mid.sccs@, self.sccs@, x);
                            } else {
                                assert(mid.on_stack@[x]);
                                mid.lemma_on_stack(adj@, x);
                                if !self.on_stack@[x] {
                                    self.lemma_vis_member(adj@, x);
                                }
                            }
                        } else {
                            if self.on_stack@[x] {
                                after.lemma_on_stack(adj@, x);
                            } else {
                                self.lemma_vis_member(adj@, x);
                            }
                        }
                    }
                    assert forall|i: int| base < i < self.stack@.len() implies self.lowlink@[v as int]
                        <= #[trigger] self.lowlink@[self.stack@[i] as int] by {
                        self.lemma_stack_order(base as int, i);
                        self.lemma_stack_elem(i);
                        if i < mid.stack@.len() {
                            mid.lemma_stack_elem(i);
                            assert(self.stack@[i] == mid.stack@[i]);
                            assert(mid.lowlink@[v as int] <= mid.lowlink@[mid.stack@[i] as int]);
                        } else {
                            assert(after.stack@[i] == self.stack@[i]);
                            assert(after.lowlink@[w as int] <= after.lowlink@[after.stack@[i] as int]);
                            assert(after.on_stack@[w as int]);
                        }
                    }
                    assert forall|i: int| base < i < self.stack@.len() implies #[trigger] self.lowlink@[self.stack@[i] as int]
                        < self.ix(self.stack@[i] as int) by {
                        self.lemma_stack_order(base as int, i);
                        self.lemma_stack_elem(i);
                        let u = self.stack@[i] as int;
                        assert(self.stack@[i] == after.stack@[i]);
                        assert(u != v as int);
                        assert(self.lowlink@[u] == after.lowlink@[u]);
                        assert(self.ix(u) == after.ix(u));
                        if i < mid.stack@.len() {
                            mid.lemma_stack_elem(i);
                            assert(after.stack@.subrange(0, mid.stack@.len() as int)[i] == after.stack@[i]);
                            assert(after.stack@[i] == mid.stack@[i]);
                            assert(mid.lowlink@[mid.stack@[i] as int] < mid.ix(mid.stack@[i] as int));
                            assert(mid.on_stack@[u]);
                            mid.lemma_on_stack(adj@, u);
                            assert(after.lowlink@[u] == mid.lowlink@[u]);
                            assert(after.ix(u) == mid.ix(u));
                        } else {
                            assert(after.lowlink@[after.stack@[i] as int] < after.ix(after.stack@[i] as int));
                        }
                    }
                }
            } else if self.on_stack[w] {
                let wi = self.index[w].unwrap();
                let vl = self.lowlink[v];
                if wi < vl {
                    proof {
                        self.lemma_on_stack(adj@, v as int);
                    }
                    let ghost s1 = *self;
                    proof {
                        lemma_reaches_edge(adj@, v as int, k as int);
                        assert(adj@[v as int]@[k as int] == w);
                    }
                    self.lowlink.set(v, wi);
                    proof {
                        self.low_of@ = self.low_of@.update(v as int, w as int);
                        Tarjan::lemma_lower(s1, *self, adj@, v as int, w as int);
                        Tarjan::lemma_lower_reach(s1, *self, adj@, v as int, w as int);
                    }
                }
                proof {
                    assert forall|i: int| base < i < self.stack@.len() implies self.lowlink@[v as int]
                        <= #[trigger] self.lowlink@[self.stack@[i] as int] by {
                        self.lemma_stack_order(base as int, i);
                        assert(self.stack@ == top0.stack@);
                        assert(self.stack@[i] != v);
                        self.lemma_stack_elem(i);
                        assert(top0.lowlink@[v as int] <= top0.lowlink@[top0.stack@[i] as int]);
                        assert(self.lowlink@[self.stack@[i] as int] == top0.lowlink@[top0.stack@[i] as int]);
                    }
                    assert forall|i: int| base < i < self.stack@.len() implies #[trigger] self.lowlink@[self.stack@[i] as int]
                        < self.ix(self.stack@[i] as int) by {
                        self.lemma_stack_order(base as int, i);
                        assert(self.stack@ == top0.stack@);
                        assert(self.stack@[i] != v);
                        self.lemma_stack_elem(i);
                        assert(top0.lowlink@[top0.stack@[i] as int] < top0.ix(top0.stack@[i] as int));
                    }
                    assert(nbrs@[k as int] == w);
                }
            } else {
                proof {
                    self.lemma_vis_member(adj@, w as int);
                    assert(nbrs@[k as int] == w);
                }
            }
            k = k + 1;
        }
        proof {
            let s1 = *self;
            self.finished@ = self.finished@.update(v as int, true);
            Tarjan::lemma_finish(s1, *self, adj@, v as int);
            self.lemma_on_stack(adj@, v as int);
            assert forall|i: int| base <= i < self.stack@.len() implies self.finished@[#[trigger] self.stack@[i] as int] by {
                self.lemma_stack_elem(i);
                if i > base {
                    assert(s1.finished@[s1.stack@[i] as int]);
                }
            }
        }
        if self.lowlink[v] == self.index[v].unwrap() {
            self.pop_component(Ghost(adj@), v, base);
        }
    }
}

/// Strongly connected components of the part of the graph reachable from
/// `roots`, in the order Tarjan's algorithm completes them: every edge leads
/// into the component of its source or into an earlier one.
pub fn strongly_connected_components(adj: &Vec<Vec<usize>>, roots: &Vec<usize>) -> (sccs: Vec<Vec<usize>>)
    requires
        graph_ok(adj@),
        adj@.len() < usize::MAX,
        forall|i: int| 0 <= i < roots@.len() ==> #[trigger] roots@[i] < adj@.len(),
    ensures
        components_in_range(sccs@, adj@.len() as int),
        disjoint_components(sccs@),
        forall|i: int| 0 <= i < roots@.len() ==> member(sccs@, #[trigger] roots@[i] as int),
        forall|u: int, k: int|
            member(sccs@, u) && 0 <= k < adj@[u]@.len() ==> member(sccs@, #[trigger] adj@[u]@[k] as int),
        successors_earlier(sccs@, adj@),
        components_connected(sccs@, adj@),
        forall|u: int| #[trigger] member(sccs@, u) ==> reached(adj@, roots@, u),
{
    let n = adj.len();
    let mut index: Vec<Option<usize>> = Vec::new();
    let mut lowlink: Vec<usize> = Vec::new();
    let mut on_stack: Vec<bool> = Vec::new();
    let mut i: usize = 0;
    while i < n
        invariant
            i <= n,
            n == adj@.len(),
            index@.len() == i,
            lowlink@.len() == i,
            on_stack@.len() == i,
            forall|j: int| 0 <= j < i ==> #[trigger] index@[j] == None::<usize>,
            forall|j: int| 0 <= j < i ==> !#[trigger] on_stack@[j],
        decreases n - i,
    {
        index.push(None);
        lowlink.push(0);
        on_stack.push(false);
        i = i + 1;
    }
    let mut t = Tarjan {
        index,
        lowlink,
        on_stack,
        stack: Vec::new(),
        counter: 0,
        sccs: Vec::new(),
        order: Ghost(Seq::empty()),
        finished: Ghost(Seq::new(n as nat, |j: int| false)),
        low_of: Ghost(Seq::new(n as nat, |j: int| 0)),
    };
    proof {
        reveal(order_ok);
        reveal(stack_ok);
        reveal(low_ok);
        reveal(comp_ok);
        reveal(fin_ok);
        reveal(edge_ok);
        reveal(topo_ok);
        assert(t.inv(adj@));
        reveal(reach_ok);
        assert(t.reach_ok(adj@));
    }
    let mut r: usize = 0;
    while r < roots.len()
        invariant
            t.from_roots(adj@, roots@),
            t.inv(adj@),
            t.reach_ok(adj@),
            t.n() == adj@.len(),
            t.stack@.len() == 0,
            r <= roots@.len(),
            forall|i: int| 0 <= i < roots@.len() ==> #[trigger] roots@[i] < adj@.len(),
            forall|j: int| 0 <= j < r ==> t.vis(#[trigger] roots@[j] as int),
        decreases roots@.len() - r,
    {
        let v = roots[r];
        if t.index[v].is_none() {
            let ghost pre = t;
            proof {
                lemma_reaches_refl(adj@, v as int);
                assert(roots@[r as int] == v);
                assert(reaches(adj@, roots@[r as int] as int, v as int));
            }
            t.visit(adj, v, Ghost(t.n() - t.counter), Ghost(roots@));
            proof {
                if t.on_stack@[v as int] {
                    t.lemma_on_stack(adj@, v as int);
                    let x = t.low_of@[v as int];
                    reveal(stack_ok);
                    let q = choose|q: int| 0 <= q < t.stack@.len() && #[trigger] t.stack@[q] == x;
                    if q > 0 {
                        t.lemma_stack_order(0, q);
                    }
                    assert(false);
                }
                assert(t.stack@.len() == 0);
            }
        }
        r = r + 1;
    }
    proof {
        reveal(comp_ok);
        reveal(fin_ok);
        reveal(stack_ok);
        assert forall|u: int| 0 <= u < t.n() && t.vis(u) implies member(t.sccs@, u) by {
            if t.on_stack@[u] {
                let i = choose|i: int| 0 <= i < t.stack@.len() && #[trigger] t.stack@[i] == u;
            }
        }
        assert forall|u: int, k: int|
            member(t.sccs@, u) && 0 <= k < adj@[u]@.len() implies member(t.sccs@, #[trigger] adj@[u]@[k] as int) by {
            let (i, j) = choose|i: int, j: int| 0 <= i < t.sccs@.len() && 0 <= j < t.sccs@[i]@.len() && t.sccs@[i]@[j] == u;
            assert(t.finished@[u]);
            assert(t.vis(adj@[u]@[k] as int));
        }
        assert forall|u: int| #[trigger] member(t.sccs@, u) implies reached(adj@, roots@, u) by {
            let (i, j) = choose|i: int, j: int| 0 <= i < t.sccs@.len() && 0 <= j < t.sccs@[i]@.len() && t.sccs@[i]@[j] == u;
            assert(vis_in(t.index@, t.sccs@[i]@[j] as int));
        }
        reveal(topo_ok);
        reveal(reach_ok);
    }
    t.sccs
}

} // verus!
