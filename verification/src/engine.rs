//! The plan and apply engines.
//!
//! `plan_all` builds the dependency graph of a resource collection,
//! schedules it, and walks the schedule reading and classifying each
//! resource, failing fast on the first error. `apply_all` executes a
//! previously computed plan strictly in plan order, stopping at the first
//! failure and reporting how far it got.

use vstd::prelude::*;

use crate::graph::edges_bounded;
use crate::graph::has_cycle;
use crate::graph::has_edge;
use crate::graph::is_cycle;
use crate::graph::first_ready_order;
use crate::graph::lemma_pos_in;
use crate::graph::ready_after;
use crate::graph::ordered_before;
use crate::graph::topo_order;
use crate::graph::valid_order;
use crate::json::JsonV;
use crate::resource::Op;
use crate::resource::Resource;
use crate::resource::ResourceError;
use crate::resource::ResourceId;
use crate::resource::classify_v;

verus! {

broadcast use vstd::std_specs::vec::group_vec_axioms, vstd::seq::group_seq_axioms;

/// An engine-level failure.
#[derive(Debug)]
pub enum EngineError {
    /// The dependency graph is not acyclic; nothing was planned.
    Cycle,
    /// The named resource's state could not be observed; planning stopped
    /// there.
    ReadFailed { id: String, cause: ResourceError },
    /// The named resource could not classify its operation; planning
    /// stopped there.
    PlanFailed { id: String, cause: ResourceError },
    /// The named resource's side-effecting step failed; the first `applied`
    /// operations of the plan had completed.
    ApplyFailed { id: String, applied: usize, cause: ResourceError },
}

/// No two resources share an identifier.
pub open spec fn distinct_ids<R: Resource>(resources: Seq<R>) -> bool {
    forall|i: int, j: int|
        0 <= i < j < resources.len() ==> resources[i].id_spec() != resources[j].id_spec()
}

/// Resource `v` declares a dependency on resource `u`'s identifier.
pub open spec fn dep_rel<R: Resource>(resources: Seq<R>, u: int, v: int) -> bool {
    &&& 0 <= u < resources.len()
    &&& 0 <= v < resources.len()
    &&& resources[v].deps_spec().contains(resources[u].id_spec())
}

/// A closed walk of declared, known dependencies.
pub open spec fn is_dep_cycle<R: Resource>(resources: Seq<R>, c: Seq<usize>) -> bool {
    &&& c.len() >= 2
    &&& c.first() == c.last()
    &&& forall|i: int|
        0 <= i < c.len() - 1 ==> dep_rel(resources, #[trigger] c[i] as int, c[i + 1] as int)
}

/// Whether the declared, known dependencies contain a cycle.
pub open spec fn has_dep_cycle<R: Resource>(resources: Seq<R>) -> bool {
    exists|c: Seq<usize>| is_dep_cycle(resources, c)
}

/// Some resource carries this identifier.
pub open spec fn holds_id<R: Resource>(resources: Seq<R>, id: Seq<char>) -> bool {
    exists|i: int| 0 <= i < resources.len() && (#[trigger] resources[i]).id_spec() == id
}

/// The index of the resource carrying `id` (meaningful when one does).
pub open spec fn res_ix<R: Resource>(resources: Seq<R>, id: Seq<char>) -> int {
    choose|i: int| 0 <= i < resources.len() && (#[trigger] resources[i]).id_spec() == id
}

/// With distinct identifiers, `res_ix` inverts indexing.
pub proof fn lemma_res_ix<R: Resource>(resources: Seq<R>, i: int)
    requires
        distinct_ids(resources),
        0 <= i < resources.len(),
    ensures
        res_ix(resources, resources[i].id_spec()) == i,
{
    let j = res_ix(resources, resources[i].id_spec());
    assert(0 <= j < resources.len() && resources[j].id_spec() == resources[i].id_spec());
    if j < i {
        assert(resources[j].id_spec() != resources[i].id_spec());
    } else if i < j {
        assert(resources[i].id_spec() != resources[j].id_spec());
    }
}

/// The entry's operation is the reconciliation decision for the resource
/// carrying the entry's identifier, under some observed state.
pub open spec fn op_for<R: Resource>(resources: Seq<R>, entry: (String, Op)) -> bool {
    exists|cur: Option<JsonV>|
        entry.1@ == classify_v(cur, resources[res_ix(resources, entry.0@)].desired_spec())
}

/// A well-formed plan for the collection: one entry per resource, each
/// carrying one resource's identifier, ordered so that every declared,
/// known dependency comes before its dependent, and each operation is the
/// reconciliation decision for that resource under some observed state.
pub open spec fn plan_ok<R: Resource>(resources: Seq<R>, plan: Seq<(String, Op)>) -> bool {
    let n = resources.len();
    &&& plan.len() == n
    &&& forall|p: int| 0 <= p < n ==> holds_id(resources, (#[trigger] plan[p]).0@)
    &&& forall|p: int, q: int| 0 <= p < q < n ==> plan[p].0@ != plan[q].0@
    &&& forall|p: int, q: int|
        0 <= p < n && 0 <= q < n && dep_rel(
            resources,
            res_ix(resources, (#[trigger] plan[p]).0@),
            res_ix(resources, (#[trigger] plan[q]).0@),
        ) ==> p < q
    &&& forall|p: int| 0 <= p < n ==> op_for(resources, #[trigger] plan[p])
}

/// The identifier is planned before position `p`.
pub open spec fn planned_before(plan: Seq<(String, Op)>, p: int, id: Seq<char>) -> bool {
    exists|q: int| 0 <= q < p && (#[trigger] plan[q]).0@ == id
}

/// Every known dependency of resource `i` is planned before position `p`.
pub open spec fn deps_planned<R: Resource>(
    resources: Seq<R>,
    plan: Seq<(String, Op)>,
    p: int,
    i: int,
) -> bool {
    forall|j: int|
        #[trigger] dep_rel(resources, j, i) ==> planned_before(plan, p, resources[j].id_spec())
}

/// Ties break by input order: at no position does the plan pass over an
/// earlier-declared resource that is still unplanned although all its
/// known dependencies are planned.
pub open spec fn plan_input_order<R: Resource>(resources: Seq<R>, plan: Seq<(String, Op)>) -> bool {
    forall|p: int, i: int|
        #![trigger plan[p], resources[i]]
        0 <= p < plan.len() && 0 <= i < resources.len() && i < res_ix(resources, plan[p].0@)
            && !planned_before(plan, p, resources[i].id_spec()) && deps_planned(
            resources,
            plan,
            p,
            i,
        ) ==> false
}

/// Pointwise-equal edge relations have the same cycles.
proof fn lemma_cycle_bridge<R: Resource>(resources: Seq<R>, edges: Seq<(usize, usize)>)
    requires
        forall|u: usize, v: usize|
            #[trigger] has_edge(edges, u, v) <==> dep_rel(resources, u as int, v as int),
    ensures
        has_cycle(edges) <==> has_dep_cycle(resources),
{
    if has_cycle(edges) {
        let c = choose|c: Seq<usize>| is_cycle(c, edges);
        assert(is_dep_cycle(resources, c)) by {
            assert forall|i: int| 0 <= i < c.len() - 1 implies dep_rel(
                resources,
                #[trigger] c[i] as int,
                c[i + 1] as int,
            ) by {
                assert(has_edge(edges, c[i], c[i + 1]));
            }
        }
        assert(has_dep_cycle(resources));
    }
    if has_dep_cycle(resources) {
        let c = choose|c: Seq<usize>| is_dep_cycle(resources, c);
        assert(is_cycle(c, edges)) by {
            assert forall|i: int| 0 <= i < c.len() - 1 implies has_edge(
                edges,
                #[trigger] c[i],
                c[i + 1],
            ) by {
                assert(dep_rel(resources, c[i] as int, c[i + 1] as int));
            }
        }
        assert(has_cycle(edges));
    }
}

/// Whether `has_edge(edges.push(e), u, v)` holds.
proof fn lemma_has_edge_push(edges: Seq<(usize, usize)>, e: (usize, usize), u: usize, v: usize)
    ensures
        has_edge(edges.push(e), u, v) <==> (has_edge(edges, u, v) || e == (u, v)),
{
    if has_edge(edges.push(e), u, v) {
        let k = choose|k: int| 0 <= k < edges.push(e).len() && edges.push(e)[k] == (u, v);
        if k < edges.len() {
            assert(edges[k] == (u, v));
            assert(has_edge(edges, u, v));
        } else {
            assert(e == (u, v));
        }
    }
    if has_edge(edges, u, v) {
        let k = choose|k: int| 0 <= k < edges.len() && edges[k] == (u, v);
        assert(edges.push(e)[k] == (u, v));
        assert(has_edge(edges.push(e), u, v));
    }
    if e == (u, v) {
        assert(edges.push(e)[edges.len() as int] == (u, v));
        assert(has_edge(edges.push(e), u, v));
    }
}

/// Finds the position of `key` among the identifiers.
#[verifier::loop_isolation(false)]
fn find_id(ids: &Vec<ResourceId>, key: &ResourceId) -> (r: Option<usize>)
    ensures
        match r {
            Option::Some(i) => (i as int) < ids@.len() && ids@[i as int]@ == key@,
            Option::None => forall|i: int| 0 <= i < ids@.len() ==> ids@[i]@ != key@,
        },
{
    let mut i: usize = 0;
    while i < ids.len()
        invariant
            0 <= i <= ids@.len(),
            forall|j: int| 0 <= j < i ==> ids@[j]@ != key@,
        decreases ids@.len() - i,
    {
        if ids[i].0.eq(&key.0) {
            return Some(i);
        }
        i += 1;
    }
    None
}

/// Builds the dependency edges of the collection: one edge from each
/// declared dependency to its dependent, for exactly those dependency
/// identifiers that name a resource of the collection — unknown identifiers
/// add no edge.
#[verifier::loop_isolation(false)]
fn build_edges<R: Resource>(resources: &Vec<R>) -> (edges: Vec<(usize, usize)>)
    requires
        distinct_ids(resources@),
    ensures
        edges_bounded(edges@, resources@.len() as nat),
        forall|u: usize, v: usize|
            #[trigger] has_edge(edges@, u, v) <==> dep_rel(resources@, u as int, v as int),
{
    let n = resources.len();
    let mut ids: Vec<ResourceId> = Vec::new();
    let mut i: usize = 0;
    while i < n
        invariant
            0 <= i <= n,
            ids@.len() == i,
            forall|j: int| 0 <= j < i ==> ids@[j]@ == resources@[j].id_spec(),
        decreases n - i,
    {
        ids.push(resources[i].id());
        i += 1;
    }
    let mut edges: Vec<(usize, usize)> = Vec::new();
    let mut j: usize = 0;
    while j < n
        invariant
            0 <= j <= n,
            ids@.len() == n,
            forall|t: int| 0 <= t < n ==> ids@[t]@ == resources@[t].id_spec(),
            edges_bounded(edges@, n as nat),
            forall|u: usize, w: usize|
                #[trigger] has_edge(edges@, u, w) <==> ((w as int) < j && dep_rel(
                    resources@,
                    u as int,
                    w as int,
                )),
        decreases n - j,
    {
        let ds = resources[j].deps();
        let ghost dspec = resources@[j as int].deps_spec();
        let mut k: usize = 0;
        while k < ds.len()
            invariant
                0 <= k <= ds@.len(),
                ds@.map_values(|x: ResourceId| x@) == dspec,
                edges_bounded(edges@, n as nat),
                forall|u: usize, w: usize|
                    #[trigger] has_edge(edges@, u, w) <==> (((w as int) < j && dep_rel(
                        resources@,
                        u as int,
                        w as int,
                    )) || ((w as int) == j && (u as nat) < n && exists|m: int|
                        0 <= m < k && dspec[m] == resources@[u as int].id_spec())),
            decreases ds@.len() - k,
        {
            let ghost old_edges = edges@;
            match find_id(&ids, &ds[k]) {
                Some(i2) => {
                    edges.push((i2, j));
                    proof {
                        assert(dspec[k as int] == resources@[i2 as int].id_spec());
                        assert forall|u: usize, w: usize| #[trigger]
                            has_edge(edges@, u, w) <==> (((w as int) < j && dep_rel(
                                resources@,
                                u as int,
                                w as int,
                            )) || ((w as int) == j && (u as nat) < n && exists|m: int|
                                0 <= m < k + 1 && dspec[m] == resources@[u as int].id_spec())) by {
                            lemma_has_edge_push(old_edges, (i2, j), u, w);
                            if (w as int) == j && (u as nat) < n && exists|m: int|
                                0 <= m < k + 1 && dspec[m] == resources@[u as int].id_spec() {
                                let m = choose|m: int|
                                    0 <= m < k + 1 && dspec[m] == resources@[u as int].id_spec();
                                if m < k {
                                    assert(has_edge(old_edges, u, w));
                                } else {
                                    assert(resources@[i2 as int].id_spec() == resources@[u as int].id_spec());
                                    if (i2 as int) < (u as int) {
                                        assert(resources@[i2 as int].id_spec() != resources@[u as int].id_spec());
                                    } else if (u as int) < (i2 as int) {
                                        assert(resources@[u as int].id_spec() != resources@[i2 as int].id_spec());
                                    }
                                    assert(i2 == u);
                                }
                            }
                        }
                    }
                },
                None => {
                    proof {
                        assert forall|u: usize, w: usize| #[trigger]
                            has_edge(edges@, u, w) <==> (((w as int) < j && dep_rel(
                                resources@,
                                u as int,
                                w as int,
                            )) || ((w as int) == j && (u as nat) < n && exists|m: int|
                                0 <= m < k + 1 && dspec[m] == resources@[u as int].id_spec())) by {
                            if (w as int) == j && (u as nat) < n && exists|m: int|
                                0 <= m < k + 1 && dspec[m] == resources@[u as int].id_spec() {
                                let m = choose|m: int|
                                    0 <= m < k + 1 && dspec[m] == resources@[u as int].id_spec();
                                if m == k {
                                    assert(ids@[u as int]@ == ds@[k as int]@);
                                    assert(false);
                                }
                            }
                        }
                    }
                },
            }
            k += 1;
        }
        proof {
            assert forall|u: usize, w: usize| #[trigger]
                has_edge(edges@, u, w) <==> ((w as int) < j + 1 && dep_rel(
                    resources@,
                    u as int,
                    w as int,
                )) by {
                if (w as int) == j && (u as nat) < n {
                    assert((exists|m: int|
                        0 <= m < dspec.len() && dspec[m] == resources@[u as int].id_spec())
                        <==> dspec.contains(resources@[u as int].id_spec()));
                }
            }
        }
        j += 1;
    }
    edges
}

/// Plans the whole collection: schedules the resources in dependency order
/// and, in that order, reads each resource's observed state and classifies
/// its operation. Fails fast: a cycle yields `Cycle` before any resource is
/// touched, and the first read or classification failure aborts the run
/// with no partial plan.
#[verifier::loop_isolation(false)]
pub fn plan_all<R: Resource>(resources: &Vec<R>) -> (r: Result<Vec<(String, Op)>, EngineError>)
    requires
        distinct_ids(resources@),
    ensures
        (r == Err::<Vec<(String, Op)>, EngineError>(EngineError::Cycle)) <==> has_dep_cycle(
            resources@,
        ),
        r matches Ok(plan) ==> plan_ok(resources@, plan@),
        r matches Ok(plan) ==> plan_input_order(resources@, plan@),
        match r {
            Result::Ok(plan) => true,
            Result::Err(e) => match e {
                EngineError::Cycle => true,
                EngineError::ReadFailed { id, cause } => holds_id(resources@, id@),
                EngineError::PlanFailed { id, cause } => holds_id(resources@, id@),
                EngineError::ApplyFailed { id, applied, cause } => false,
            },
        },
{
    let n = resources.len();
    let edges = build_edges(resources);
    let order = match topo_order(n, &edges) {
        Option::None => {
            proof {
                lemma_cycle_bridge(resources@, edges@);
            }
            return Err(EngineError::Cycle);
        },
        Option::Some(order) => order,
    };
    proof {
        lemma_cycle_bridge(resources@, edges@);
    }
    let mut plan: Vec<(String, Op)> = Vec::new();
    let ghost mut curs: Seq<Option<JsonV>> = Seq::empty();
    let mut p: usize = 0;
    while p < n
        invariant
            valid_order(order@, n as nat, edges@),
            plan@.len() == p,
            curs.len() == p,
            0 <= p <= n,
            forall|t: int|
                0 <= t < p ==> (#[trigger] plan@[t]).0@ == resources@[order@[t] as int].id_spec(),
            forall|t: int|
                0 <= t < p ==> (#[trigger] plan@[t]).1@ == classify_v(
                    curs[t],
                    resources@[order@[t] as int].desired_spec(),
                ),
        decreases n - p,
    {
        let ix = order[p];
        let res = &resources[ix];
        let id = res.id();
        proof {
            assert(resources@[ix as int].id_spec() == id@);
            assert(holds_id(resources@, id@));
        }
        let cur = match res.read() {
            Err(cause) => {
                return Err(EngineError::ReadFailed { id: id.0, cause });
            },
            Ok(cur) => cur,
        };
        let ghost curv = crate::resource::cur_view(cur);
        let op = match res.plan(cur) {
            Err(cause) => {
                return Err(EngineError::PlanFailed { id: id.0, cause });
            },
            Ok(op) => op,
        };
        plan.push((id.0, op));
        proof {
            curs = curs.push(curv);
        }
        p += 1;
    }
    proof {
        assert forall|t: int| 0 <= t < n implies holds_id(resources@, (#[trigger] plan@[t]).0@) by {
            assert(resources@[order@[t] as int].id_spec() == plan@[t].0@);
        }
        assert forall|t: int, q: int| 0 <= t < q < n implies plan@[t].0@ != plan@[q].0@ by {
            assert(order@[t] != order@[q]);
        }
        assert forall|t: int, q: int|
            0 <= t < n && 0 <= q < n && dep_rel(
                resources@,
                res_ix(resources@, (#[trigger] plan@[t]).0@),
                res_ix(resources@, (#[trigger] plan@[q]).0@),
            ) implies t < q by {
            lemma_res_ix(resources@, order@[t] as int);
            lemma_res_ix(resources@, order@[q] as int);
            assert(dep_rel(resources@, order@[t] as int, order@[q] as int));
            assert(has_edge(edges@, order@[t], order@[q]));
            let k = choose|k: int| 0 <= k < edges@.len() && edges@[k] == (order@[t], order@[q]);
            assert(ordered_before(order@, edges@[k].0, edges@[k].1));
            let (ii, jj) = choose|ii: int, jj: int|
                0 <= ii < jj < order@.len() && order@[ii] == order@[t] && order@[jj] == order@[q];
            lemma_pos_in(order@, order@[t], ii);
            lemma_pos_in(order@, order@[t], t);
            lemma_pos_in(order@, order@[q], jj);
            lemma_pos_in(order@, order@[q], q);
        }
        assert forall|t: int| 0 <= t < n implies op_for(resources@, #[trigger] plan@[t]) by {
            lemma_res_ix(resources@, order@[t] as int);
            assert(plan@[t].1@ == classify_v(
                curs[t],
                resources@[res_ix(resources@, plan@[t].0@)].desired_spec(),
            ));
        }
        assert forall|p: int, i: int|
            0 <= p < plan@.len() && 0 <= i < resources@.len() && i < res_ix(
                resources@,
                (#[trigger] plan@[p]).0@,
            ) && !planned_before(plan@, p, (#[trigger] resources@[i]).id_spec()) && deps_planned(
                resources@,
                plan@,
                p,
                i,
            ) implies false by {
            lemma_res_ix(resources@, order@[p] as int);
            let iu = i as usize;
            assert(!order@.take(p).contains(iu)) by {
                if order@.take(p).contains(iu) {
                    let q = choose|q: int| 0 <= q < p && order@.take(p)[q] == iu;
                    assert(order@[q] == iu);
                    assert(plan@[q].0@ == resources@[i].id_spec());
                    assert(planned_before(plan@, p, resources@[i].id_spec()));
                }
            }
            assert(ready_after(iu, edges@, order@.take(p))) by {
                assert forall|k: int|
                    0 <= k < edges@.len() && (#[trigger] edges@[k]).1 == iu implies order@.take(
                    p,
                ).contains(edges@[k].0) by {
                    assert(edges@[k] == (edges@[k].0, iu));
                    assert(has_edge(edges@, edges@[k].0, iu));
                    assert(dep_rel(resources@, edges@[k].0 as int, i));
                    assert(planned_before(plan@, p, resources@[edges@[k].0 as int].id_spec()));
                    let q = choose|q: int|
                        0 <= q < p && (#[trigger] plan@[q]).0@ == resources@[edges@[k].0 as int].id_spec();
                    assert(plan@[q].0@ == resources@[order@[q] as int].id_spec());
                    let u = order@[q] as int;
                    let w = edges@[k].0 as int;
                    if u < w {
                        assert(resources@[u].id_spec() != resources@[w].id_spec());
                    } else if w < u {
                        assert(resources@[w].id_spec() != resources@[u].id_spec());
                    }
                    assert(order@.take(p)[q] == edges@[k].0);
                }
            }
            assert((iu as nat) < n);
            assert(iu < order@[p]);
            assert(!ready_after(iu, edges@, order@.take(p)));
        }
    }
    Ok(plan)
}

/// Finds the resource carrying `id`.
#[verifier::loop_isolation(false)]
fn find_resource<'a, R: Resource>(resources: &'a Vec<R>, id: &String) -> (r: Option<&'a R>)
    ensures
        match r {
            Option::Some(res) => res.id_spec() == id@,
            Option::None => !holds_id(resources@, id@),
        },
{
    let mut i: usize = 0;
    while i < resources.len()
        invariant
            0 <= i <= resources@.len(),
            forall|j: int| 0 <= j < i ==> (#[trigger] resources@[j]).id_spec() != id@,
        decreases resources@.len() - i,
    {
        let rid = resources[i].id();
        if rid.0.eq(id) {
            return Some(&resources[i]);
        }
        i += 1;
    }
    None
}

/// Applies a previously computed plan strictly in plan order, trusting the
/// plan as given. Stops at the first failing `apply` and reports which
/// resource failed and how many earlier operations had completed; performs
/// no rollback.
#[verifier::loop_isolation(false)]
pub fn apply_all<R: Resource>(resources: &Vec<R>, plan: &Vec<(String, Op)>) -> (r: Result<
    (),
    EngineError,
>)
    requires
        forall|p: int| 0 <= p < plan@.len() ==> holds_id(resources@, (#[trigger] plan@[p]).0@),
    ensures
        match r {
            Result::Ok(u) => true,
            Result::Err(e) => match e {
                EngineError::ApplyFailed { id, applied, cause } => (applied as int) < plan@.len()
                    && id@ == plan@[applied as int].0@,
                EngineError::Cycle => false,
                EngineError::ReadFailed { id, cause } => false,
                EngineError::PlanFailed { id, cause } => false,
            },
        },
{
    let mut p: usize = 0;
    while p < plan.len()
        invariant
            0 <= p <= plan@.len(),
        decreases plan@.len() - p,
    {
        let (id, op) = &plan[p];
        let res = match find_resource(resources, id) {
            Option::Some(res) => res,
            Option::None => {
                proof {
                    assert(holds_id(resources@, plan@[p as int].0@));
                }
                unreached()
            },
        };
        match res.apply(op) {
            Err(cause) => {
                return Err(EngineError::ApplyFailed { id: id.clone(), applied: p, cause });
            },
            Ok(()) => {},
        }
        p += 1;
    }
    Ok(())
}

} // verus!
