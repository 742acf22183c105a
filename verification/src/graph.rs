//! The dependency graph and the topological scheduler.
//!
//! Nodes are the indices `0 .. n` of the resources in their input order. An
//! edge `(u, v)` says that node `u` must be scheduled before node `v`. The
//! scheduler produces a dependency-respecting order of all nodes, breaking
//! ties by input order, or reports that the edges contain a cycle.

use vstd::prelude::*;
use vstd::set_lib::lemma_int_range;
use vstd::set_lib::lemma_len_subset;
use vstd::set_lib::set_int_range;

verus! {

broadcast use vstd::std_specs::vec::group_vec_axioms, vstd::seq::group_seq_axioms;

/// Whether the edge from `u` to `v` is present.
pub open spec fn has_edge(edges: Seq<(usize, usize)>, u: usize, v: usize) -> bool {
    exists|k: int| 0 <= k < edges.len() && edges[k] == (u, v)
}

/// Every edge endpoint is one of the `n` nodes.
pub open spec fn edges_bounded(edges: Seq<(usize, usize)>, n: nat) -> bool {
    forall|k: int|
        0 <= k < edges.len() ==> (#[trigger] edges[k]).0 < n && edges[k].1 < n
}

/// `u` appears strictly before `v` in `order`.
pub open spec fn ordered_before(order: Seq<usize>, u: usize, v: usize) -> bool {
    exists|i: int, j: int| 0 <= i < j < order.len() && order[i] == u && order[j] == v
}

/// `order` schedules each of the `n` nodes exactly once, and every edge
/// points forward in it.
pub open spec fn valid_order(order: Seq<usize>, n: nat, edges: Seq<(usize, usize)>) -> bool {
    &&& order.len() == n
    &&& forall|i: int| 0 <= i < order.len() ==> (#[trigger] order[i] as nat) < n
    &&& forall|i: int, j: int| 0 <= i < j < order.len() ==> order[i] != order[j]
    &&& forall|k: int|
        0 <= k < edges.len() ==> ordered_before(order, (#[trigger] edges[k]).0, edges[k].1)
}

/// A non-empty closed walk along the edges.
pub open spec fn is_cycle(c: Seq<usize>, edges: Seq<(usize, usize)>) -> bool {
    &&& c.len() >= 2
    &&& c.first() == c.last()
    &&& forall|i: int| 0 <= i < c.len() - 1 ==> has_edge(edges, #[trigger] c[i], c[i + 1])
}

/// Whether the edges contain a cycle.
pub open spec fn has_cycle(edges: Seq<(usize, usize)>) -> bool {
    exists|c: Seq<usize>| is_cycle(c, edges)
}

/// The position of `v` in `order` (meaningful when `v` occurs in it).
pub open spec fn pos_in(order: Seq<usize>, v: usize) -> int {
    choose|i: int| 0 <= i < order.len() && order[i] == v
}

/// In an injective order, `pos_in` is the one position of an occurring value.
pub proof fn lemma_pos_in(order: Seq<usize>, v: usize, at: int)
    requires
        forall|i: int, j: int| 0 <= i < j < order.len() ==> order[i] != order[j],
        0 <= at < order.len(),
        order[at] == v,
    ensures
        pos_in(order, v) == at,
{
    let i = pos_in(order, v);
    assert(0 <= i < order.len() && order[i] == v);
    if i < at {
        assert(order[i] != order[at]);
    } else if at < i {
        assert(order[at] != order[i]);
    }
}

/// Walking a path of edges moves strictly forward in a valid order.
proof fn lemma_path_positions(order: Seq<usize>, n: nat, edges: Seq<(usize, usize)>, c: Seq<usize>)
    requires
        valid_order(order, n, edges),
        c.len() >= 2,
        forall|i: int| 0 <= i < c.len() - 1 ==> has_edge(edges, #[trigger] c[i], c[i + 1]),
    ensures
        pos_in(order, c.first()) < pos_in(order, c.last()),
    decreases c.len(),
{
    let m = c.len() - 1;
    assert(has_edge(edges, c[m - 1], c[m]));
    let k = choose|k: int| 0 <= k < edges.len() && edges[k] == (c[m - 1], c[m]);
    assert(ordered_before(order, edges[k].0, edges[k].1));
    let (i, j) = choose|i: int, j: int|
        0 <= i < j < order.len() && order[i] == c[m - 1] && order[j] == c[m];
    lemma_pos_in(order, c[m - 1], i);
    lemma_pos_in(order, c[m], j);
    if c.len() == 2 {
    } else {
        let d = c.drop_last();
        assert(forall|i: int| 0 <= i < d.len() - 1 ==> has_edge(edges, #[trigger] d[i], d[i + 1]));
        lemma_path_positions(order, n, edges, d);
        assert(d.last() == c[m - 1]);
    }
}

/// A valid order exists only for acyclic edges.
pub proof fn lemma_valid_order_acyclic(order: Seq<usize>, n: nat, edges: Seq<(usize, usize)>)
    requires
        valid_order(order, n, edges),
    ensures
        !has_cycle(edges),
{
    if has_cycle(edges) {
        let c = choose|c: Seq<usize>| is_cycle(c, edges);
        lemma_path_positions(order, n, edges, c);
    }
}

/// Among values below `n`, a sequence longer than `n` repeats one.
proof fn lemma_pigeonhole(s: Seq<usize>, n: nat)
    requires
        s.len() > n,
        forall|i: int| 0 <= i < s.len() ==> (#[trigger] s[i] as nat) < n,
    ensures
        exists|i: int, j: int| 0 <= i < j < s.len() && s[i] == s[j],
{
    broadcast use vstd::seq_lib::seq_to_set_is_finite, vstd::set::group_set_axioms;

    if !(exists|i: int, j: int| 0 <= i < j < s.len() && s[i] == s[j]) {
        let t = s.map_values(|u: usize| u as int);
        assert(t.no_duplicates()) by {
            assert forall|i: int, j: int| 0 <= i < t.len() && 0 <= j < t.len() && i != j implies t[i]
                != t[j] by {
                if i < j {
                    assert(s[i] != s[j]);
                } else {
                    assert(s[j] != s[i]);
                }
            }
        }
        t.unique_seq_to_set();
        assert(t.to_set().subset_of(set_int_range(0, n as int))) by {
            assert forall|x: int| t.to_set().contains(x) implies set_int_range(
                0,
                n as int,
            ).contains(x) by {
                let i = choose|i: int| 0 <= i < t.len() && t[i] == x;
                assert((s[i] as nat) < n);
            }
        }
        lemma_int_range(0, n as int);
        lemma_len_subset(t.to_set(), set_int_range(0, n as int));
        assert(false);
    }
}

/// An injective sequence of `n` values below `n` contains each of them.
proof fn lemma_full_permutation(order: Seq<usize>, n: nat)
    requires
        order.len() >= n,
        forall|i: int| 0 <= i < order.len() ==> (#[trigger] order[i] as nat) < n,
        forall|i: int, j: int| 0 <= i < j < order.len() ==> order[i] != order[j],
    ensures
        order.len() == n,
        forall|v: usize| (v as nat) < n ==> order.contains(v),
{
    broadcast use vstd::seq_lib::seq_to_set_is_finite, vstd::set::group_set_axioms;

    let t = order.map_values(|u: usize| u as int);
    assert(t.no_duplicates()) by {
        assert forall|i: int, j: int| 0 <= i < t.len() && 0 <= j < t.len() && i != j implies t[i]
            != t[j] by {
            if i < j {
                assert(order[i] != order[j]);
            } else {
                assert(order[j] != order[i]);
            }
        }
    }
    t.unique_seq_to_set();
    lemma_int_range(0, n as int);
    assert(t.to_set().subset_of(set_int_range(0, n as int))) by {
        assert forall|x: int| t.to_set().contains(x) implies set_int_range(
            0,
            n as int,
        ).contains(x) by {
            let i = choose|i: int| 0 <= i < t.len() && t[i] == x;
            assert((order[i] as nat) < n);
        }
    }
    lemma_len_subset(t.to_set(), set_int_range(0, n as int));
    assert(order.len() == n);
    assert forall|v: usize| (v as nat) < n implies order.contains(v) by {
        if !order.contains(v) {
            assert(!t.to_set().contains(v as int)) by {
                if t.to_set().contains(v as int) {
                    let i = choose|i: int| 0 <= i < t.len() && t[i] == v as int;
                    assert(order[i] == v);
                }
            }
            assert(t.to_set().subset_of(set_int_range(0, n as int).remove(v as int))) by {
                assert forall|x: int| t.to_set().contains(x) implies set_int_range(
                    0,
                    n as int,
                ).remove(v as int).contains(x) by {
                    let i = choose|i: int| 0 <= i < t.len() && t[i] == x;
                    assert((order[i] as nat) < n);
                }
            }
            lemma_len_subset(t.to_set(), set_int_range(0, n as int).remove(v as int));
            assert(set_int_range(0, n as int).remove(v as int).len() == n - 1);
            assert(false);
        }
    }
}

/// A sequence containing each of the `n` values below `n` has at least `n`
/// entries.
proof fn lemma_contains_all_len(order: Seq<usize>, n: nat)
    requires
        n <= usize::MAX,
        forall|v: usize| (v as nat) < n ==> order.contains(v),
    ensures
        order.len() >= n,
{
    broadcast use vstd::seq_lib::seq_to_set_is_finite, vstd::set::group_set_axioms;

    let t = order.map_values(|u: usize| u as int);
    assert(set_int_range(0, n as int).subset_of(t.to_set())) by {
        assert forall|x: int| set_int_range(0, n as int).contains(x) implies t.to_set().contains(
            x,
        ) by {
            assert(order.contains(x as usize));
            let i = choose|i: int| 0 <= i < order.len() && order[i] == x as usize;
            assert(t[i] == x);
        }
    }
    lemma_int_range(0, n as int);
    lemma_len_subset(set_int_range(0, n as int), t.to_set());
    t.lemma_cardinality_of_set();
}

/// A predecessor walk inside the blocked set: each entry is an unplaced node
/// and each entry but the first has an edge into the one before it.
proof fn build_pred_path(
    placed: Seq<bool>,
    n: nat,
    edges: Seq<(usize, usize)>,
    start: usize,
    len: nat,
) -> (p: Seq<usize>)
    requires
        placed.len() == n,
        edges_bounded(edges, n),
        (start as nat) < n,
        !placed[start as int],
        forall|w: usize|
            (w as nat) < n && !placed[w as int] ==> exists|k: int|
                0 <= k < edges.len() && (#[trigger] edges[k]).1 == w && !placed[edges[k].0 as int],
    ensures
        p.len() == len + 1,
        forall|i: int| 0 <= i < p.len() ==> (#[trigger] p[i] as nat) < n && !placed[p[i] as int],
        forall|i: int| 0 <= i < p.len() - 1 ==> has_edge(edges, #[trigger] p[i + 1], p[i]),
    decreases len,
{
    if len == 0 {
        seq![start]
    } else {
        let q = build_pred_path(placed, n, edges, start, (len - 1) as nat);
        let w = q.last();
        let k = choose|k: int|
            0 <= k < edges.len() && (#[trigger] edges[k]).1 == w && !placed[edges[k].0 as int];
        let p = q.push(edges[k].0);
        assert forall|i: int| 0 <= i < p.len() - 1 implies has_edge(
            edges,
            #[trigger] p[i + 1],
            p[i],
        ) by {
            if i < p.len() - 2 {
                assert(p[i + 1] == q[i + 1] && p[i] == q[i]);
            } else {
                assert(p[i] == w && p[i + 1] == edges[k].0);
            }
        }
        p
    }
}

/// If every unplaced node is blocked by an unplaced predecessor and at least
/// one node is unplaced, the edges contain a cycle.
pub proof fn lemma_stuck_implies_cycle(placed: Seq<bool>, n: nat, edges: Seq<(usize, usize)>)
    requires
        placed.len() == n,
        edges_bounded(edges, n),
        exists|v: usize| (v as nat) < n && !placed[v as int],
        forall|w: usize|
            (w as nat) < n && !placed[w as int] ==> exists|k: int|
                0 <= k < edges.len() && (#[trigger] edges[k]).1 == w && !placed[edges[k].0 as int],
    ensures
        has_cycle(edges),
{
    let v0 = choose|v: usize| (v as nat) < n && !placed[v as int];
    let p = build_pred_path(placed, n, edges, v0, n);
    lemma_pigeonhole(p, n);
    let (i, j) = choose|i: int, j: int| 0 <= i < j < p.len() && p[i] == p[j];
    let c = Seq::new((j - i + 1) as nat, |m: int| p[j - m]);
    assert(c.first() == p[j]);
    assert(c.last() == p[i]);
    assert forall|m: int| 0 <= m < c.len() - 1 implies has_edge(edges, #[trigger] c[m], c[m + 1]) by {
        assert(c[m] == p[j - m] && c[m + 1] == p[j - m - 1]);
        assert(has_edge(edges, p[(j - m - 1) + 1], p[j - m - 1]));
    }
    assert(is_cycle(c, edges));
}

/// Whether node `v` is ready once the nodes of `done` are scheduled: every
/// edge into `v` starts at a scheduled node.
pub open spec fn ready_after(v: usize, edges: Seq<(usize, usize)>, done: Seq<usize>) -> bool {
    forall|k: int|
        0 <= k < edges.len() && (#[trigger] edges[k]).1 == v ==> done.contains(edges[k].0)
}

/// At every step the scheduler took, no smaller unscheduled node was ready:
/// ties go to input order.
pub open spec fn first_ready_order(n: nat, edges: Seq<(usize, usize)>, order: Seq<usize>) -> bool {
    forall|p: int, v: usize|
        #![trigger order.take(p).contains(v)]
        0 <= p < order.len() && (v as nat) < n && v < order[p] && !order.take(p).contains(v)
            ==> !ready_after(v, edges, order.take(p))
}

/// After the shared prefix, the next node of one valid order is ready and
/// still unscheduled from the other order's point of view.
proof fn lemma_next_node_ready(
    n: nat,
    edges: Seq<(usize, usize)>,
    oa: Seq<usize>,
    ob: Seq<usize>,
    p: int,
)
    requires
        valid_order(oa, n, edges),
        valid_order(ob, n, edges),
        0 <= p < n,
        oa.take(p) == ob.take(p),
        oa[p] != ob[p],
    ensures
        !ob.take(p).contains(oa[p]),
        ready_after(oa[p], edges, ob.take(p)),
{
    let a = oa[p];
    let done = oa.take(p);
    assert(!ob.take(p).contains(a)) by {
        if ob.take(p).contains(a) {
            let i = choose|i: int| 0 <= i < p && ob.take(p)[i] == a;
            assert(oa[i] == a);
            assert(oa[i] != oa[p]);
        }
    }
    assert(ready_after(a, edges, ob.take(p))) by {
        assert forall|k: int|
            0 <= k < edges.len() && (#[trigger] edges[k]).1 == a implies ob.take(p).contains(
            edges[k].0,
        ) by {
            assert(ordered_before(oa, edges[k].0, edges[k].1));
            let (ii, jj) = choose|ii: int, jj: int|
                0 <= ii < jj < oa.len() && oa[ii] == edges[k].0 && oa[jj] == a;
            lemma_pos_in(oa, a, jj);
            lemma_pos_in(oa, a, p);
            assert(done[ii] == edges[k].0);
            assert(ob.take(p)[ii] == edges[k].0);
        }
    }
}

/// At most one order of the `n` nodes respects the edges and takes, at
/// every step, the first ready node in input order: the schedule is a
/// function of its inputs, so repeated runs over the same collection
/// schedule alike.
pub proof fn lemma_schedule_unique(
    n: nat,
    edges: Seq<(usize, usize)>,
    o1: Seq<usize>,
    o2: Seq<usize>,
)
    requires
        valid_order(o1, n, edges),
        first_ready_order(n, edges, o1),
        valid_order(o2, n, edges),
        first_ready_order(n, edges, o2),
    ensures
        o1 == o2,
{
    lemma_schedule_unique_prefix(n, edges, o1, o2, n as int);
    assert(o1 =~= o1.take(n as int));
    assert(o2 =~= o2.take(n as int));
}

/// The first `p` entries of two first-ready orders agree.
proof fn lemma_schedule_unique_prefix(
    n: nat,
    edges: Seq<(usize, usize)>,
    o1: Seq<usize>,
    o2: Seq<usize>,
    p: int,
)
    requires
        valid_order(o1, n, edges),
        first_ready_order(n, edges, o1),
        valid_order(o2, n, edges),
        first_ready_order(n, edges, o2),
        0 <= p <= n,
    ensures
        o1.take(p) == o2.take(p),
    decreases p,
{
    if p == 0 {
        assert(o1.take(0) =~= o2.take(0));
    } else {
        lemma_schedule_unique_prefix(n, edges, o1, o2, p - 1);
        if o1[p - 1] < o2[p - 1] {
            lemma_next_node_ready(n, edges, o1, o2, p - 1);
            assert(!ready_after(o1[p - 1], edges, o2.take(p - 1)));
        } else if o2[p - 1] < o1[p - 1] {
            lemma_next_node_ready(n, edges, o2, o1, p - 1);
            assert(!ready_after(o2[p - 1], edges, o1.take(p - 1)));
        }
        assert(o1.take(p) =~= o2.take(p)) by {
            assert(forall|i: int|
                0 <= i < p - 1 ==> #[trigger] o1.take(p - 1)[i] == o2.take(p - 1)[i]);
        }
    }
}

/// The scheduling state: `placed` marks exactly the nodes in `order`;
/// `order` is injective, bounded by `n`, every scheduled node's
/// predecessors are scheduled before it, and each node scheduled so far was
/// the first ready one at its step.
pub open spec fn sched_ok(
    n: nat,
    edges: Seq<(usize, usize)>,
    placed: Seq<bool>,
    order: Seq<usize>,
) -> bool {
    &&& placed.len() == n
    &&& forall|i: int| 0 <= i < order.len() ==> (#[trigger] order[i] as nat) < n
    &&& forall|i: int, j: int| 0 <= i < j < order.len() ==> order[i] != order[j]
    &&& forall|v: usize| (v as nat) < n ==> (placed[v as int] <==> order.contains(v))
    &&& forall|k: int, j: int|
        0 <= k < edges.len() && 0 <= j < order.len() && (#[trigger] edges[k]).1
            == #[trigger] order[j] ==> exists|i: int| 0 <= i < j && order[i] == edges[k].0
    &&& first_ready_order(n, edges, order)
}

/// Whether every predecessor of `v` is already scheduled.
#[verifier::loop_isolation(false)]
fn node_ready(v: usize, edges: &Vec<(usize, usize)>, placed: &Vec<bool>) -> (r: bool)
    requires
        edges_bounded(edges@, placed@.len() as nat),
    ensures
        r <==> (forall|k: int|
            0 <= k < edges@.len() && (#[trigger] edges@[k]).1 == v ==> placed@[edges@[k].0 as int]),
{
    let mut k: usize = 0;
    while k < edges.len()
        invariant
            0 <= k <= edges@.len(),
            forall|m: int|
                0 <= m < k && (#[trigger] edges@[m]).1 == v ==> placed@[edges@[m].0 as int],
        decreases edges@.len() - k,
    {
        let (a, b) = edges[k];
        if b == v && !placed[a] {
            return false;
        }
        k += 1;
    }
    true
}

/// Schedules all `n` nodes so that every node comes after all its
/// predecessors, or returns `None` when the edges contain a cycle. At each
/// step the first node in input order whose predecessors are all scheduled
/// is taken, so repeated runs over the same input schedule alike.
#[verifier::loop_isolation(false)]
pub fn topo_order(n: usize, edges: &Vec<(usize, usize)>) -> (r: Option<Vec<usize>>)
    requires
        edges_bounded(edges@, n as nat),
    ensures
        match r {
            Option::Some(order) => {
                &&& valid_order(order@, n as nat, edges@)
                &&& first_ready_order(n as nat, edges@, order@)
                &&& !has_cycle(edges@)
            },
            Option::None => has_cycle(edges@),
        },
{
    let mut placed: Vec<bool> = Vec::new();
    while placed.len() < n
        invariant
            placed@.len() <= n,
            forall|i: int| 0 <= i < placed@.len() ==> !placed@[i],
        decreases n - placed@.len(),
    {
        placed.push(false);
    }
    let mut order: Vec<usize> = Vec::new();
    while order.len() < n
        invariant
            order@.len() <= n,
            sched_ok(n as nat, edges@, placed@, order@),
        decreases n - order@.len(),
    {
        let ghost len0 = order@.len();
        let mut placed_one: bool = false;
        let mut v: usize = 0;
        while v < n && !placed_one
            invariant
                0 <= v <= n,
                order@.len() <= n,
                sched_ok(n as nat, edges@, placed@, order@),
                !placed_one ==> order@.len() == len0,
                placed_one ==> order@.len() == len0 + 1,
                !placed_one ==> forall|w: usize|
                    (w as nat) < v && !placed@[w as int] ==> exists|k: int|
                        0 <= k < edges@.len() && (#[trigger] edges@[k]).1 == w
                            && !placed@[edges@[k].0 as int],
            decreases n - v,
        {
            if !placed[v] && node_ready(v, edges, &placed) {
                placed_one = true;
                let ghost oldp = placed@;
                let ghost oldo = order@;
                placed.set(v, true);
                order.push(v);
                proof {
                    assert(!oldo.contains(v));
                    assert(order@[oldo.len() as int] == v);
                    assert forall|w: usize| (w as nat) < n implies (placed@[w as int]
                        <==> order@.contains(w)) by {
                        if w == v {
                            assert(order@.contains(v));
                        } else {
                            if oldp[w as int] {
                                let i = choose|i: int| 0 <= i < oldo.len() && oldo[i] == w;
                                assert(order@[i] == w);
                                assert(order@.contains(w));
                            }
                            if order@.contains(w) {
                                let i = choose|i: int|
                                    0 <= i < order@.len() && order@[i] == w;
                                assert(i < oldo.len());
                                assert(oldo[i] == w);
                                assert(oldo.contains(w));
                            }
                        }
                    }
                    assert forall|k: int, j: int|
                        0 <= k < edges@.len() && 0 <= j < order@.len() && (#[trigger] edges@[k]).1
                            == #[trigger] order@[j] implies exists|i: int|
                        0 <= i < j && order@[i] == edges@[k].0 by {
                        if j < oldo.len() {
                            assert(oldo[j] == order@[j]);
                            let i = choose|i: int| 0 <= i < j && oldo[i] == edges@[k].0;
                            assert(order@[i] == edges@[k].0);
                        } else {
                            assert(edges@[k].1 == v);
                            assert(oldp[edges@[k].0 as int]);
                            assert(oldo.contains(edges@[k].0));
                            let i = choose|i: int|
                                0 <= i < oldo.len() && oldo[i] == edges@[k].0;
                            assert(order@[i] == edges@[k].0);
                        }
                    }
                    assert forall|p: int, w: usize|
                        0 <= p < order@.len() && (w as nat) < n && w < order@[p] && !order@.take(
                            p,
                        ).contains(w) implies !ready_after(w, edges@, order@.take(p)) by {
                        if p < oldo.len() {
                            assert(order@.take(p) =~= oldo.take(p));
                            assert(order@[p] == oldo[p]);
                            assert(!ready_after(w, edges@, oldo.take(p)));
                        } else {
                            assert(order@.take(p) =~= oldo);
                            assert(order@[p] == v);
                            assert(!oldo.contains(w));
                            assert(!oldp[w as int]);
                            let k = choose|k: int|
                                0 <= k < edges@.len() && (#[trigger] edges@[k]).1 == w
                                    && !oldp[edges@[k].0 as int];
                            assert(!oldo.contains(edges@[k].0));
                        }
                    }
                }
            }
            v += 1;
        }
        if !placed_one {
            proof {
                if !(exists|w: usize| (w as nat) < n && !placed@[w as int]) {
                    assert(forall|w: usize| (w as nat) < n ==> order@.contains(w));
                    lemma_contains_all_len(order@, n as nat);
                }
                lemma_stuck_implies_cycle(placed@, n as nat, edges@);
            }
            return None;
        }
    }
    proof {
        lemma_full_permutation(order@, n as nat);
        assert forall|k: int| 0 <= k < edges@.len() implies ordered_before(
            order@,
            (#[trigger] edges@[k]).0,
            edges@[k].1,
        ) by {
            let t = edges@[k].1;
            assert(order@.contains(t));
            let j = choose|j: int| 0 <= j < order@.len() && order@[j] == t;
            let i = choose|i: int| 0 <= i < j && order@[i] == edges@[k].0;
            assert(0 <= i < j < order@.len() && order@[i] == edges@[k].0 && order@[j]
                == edges@[k].1);
        }
        lemma_valid_order_acyclic(order@, n as nat, edges@);
    }
    Some(order)
}

} // verus!
