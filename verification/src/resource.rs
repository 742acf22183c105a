//! Resources and the reconciliation decision.
//!
//! A resource is a provisionable entity with an identity, declared
//! dependencies, a desired state, and operations to observe and change the
//! world. The single classification decision — from observed and desired
//! state to the operation that reconciles them — is `classify`.

use vstd::prelude::*;

use crate::json::JsonV;
use crate::json::JsonValue;
use crate::json::json_clone;
use crate::json::json_eq;

verus! {

/// Identifies one resource, uniquely within a run.
pub struct ResourceId(pub String);

impl View for ResourceId {
    type V = Seq<char>;

    open spec fn view(&self) -> Seq<char> {
        self.0@
    }
}

impl ResourceId {
    /// A copy naming the same resource.
    pub fn duplicate(&self) -> (r: ResourceId)
        ensures
            r@ == self@,
    {
        ResourceId(self.0.clone())
    }
}

/// What a resource's configuration says it should become.
pub struct Desired(pub JsonValue);

impl View for Desired {
    type V = JsonV;

    open spec fn view(&self) -> JsonV {
        self.0@
    }
}

/// A resource's real-world state as observed at plan time.
pub struct Current(pub JsonValue);

impl View for Current {
    type V = JsonV;

    open spec fn view(&self) -> JsonV {
        self.0@
    }
}

/// The action that reconciles one resource's observed state toward its
/// desired state.
pub enum Op {
    Create(Desired),
    Update { from: Current, to: Desired },
    Delete(Current),
    Noop,
}

/// The model of an operation: the states it carries, as documents.
pub enum OpV {
    Create(JsonV),
    Update { from: JsonV, to: JsonV },
    Delete(JsonV),
    Noop,
}

impl View for Op {
    type V = OpV;

    open spec fn view(&self) -> OpV {
        match self {
            Op::Create(d) => OpV::Create(d@),
            Op::Update { from, to } => OpV::Update { from: from@, to: to@ },
            Op::Delete(c) => OpV::Delete(c@),
            Op::Noop => OpV::Noop,
        }
    }
}

/// The model of an optional observed state.
pub open spec fn cur_view(cur: Option<Current>) -> Option<JsonV> {
    match cur {
        Option::Some(c) => Option::Some(c@),
        Option::None => Option::None,
    }
}

/// The model of an optional desired state.
pub open spec fn des_view(des: Option<Desired>) -> Option<JsonV> {
    match des {
        Option::Some(d) => Option::Some(d@),
        Option::None => Option::None,
    }
}

/// The reconciliation decision: absent observed state with a desired state
/// yields `Create`; observed state with no desired state yields `Delete`;
/// differing states yield `Update`; matching states (or neither) yield
/// `Noop`.
pub open spec fn classify_v(cur: Option<JsonV>, des: Option<JsonV>) -> OpV {
    match (cur, des) {
        (Option::None, Option::None) => OpV::Noop,
        (Option::None, Option::Some(d)) => OpV::Create(d),
        (Option::Some(c), Option::None) => OpV::Delete(c),
        (Option::Some(c), Option::Some(d)) => if c == d {
            OpV::Noop
        } else {
            OpV::Update { from: c, to: d }
        },
    }
}

/// Computes the reconciliation decision for one resource.
pub fn classify(cur: Option<Current>, des: Option<Desired>) -> (op: Op)
    ensures
        op@ == classify_v(cur_view(cur), des_view(des)),
{
    match (cur, des) {
        (Option::None, Option::None) => Op::Noop,
        (Option::None, Option::Some(d)) => Op::Create(d),
        (Option::Some(c), Option::None) => Op::Delete(c),
        (Option::Some(c), Option::Some(d)) => {
            if json_eq(&c.0, &d.0) {
                Op::Noop
            } else {
                Op::Update { from: c, to: d }
            }
        },
    }
}

/// The observed state that holds after an operation is applied successfully:
/// creating or updating leaves the desired state in place, deleting leaves
/// nothing, and doing nothing leaves the observed state as it was.
pub open spec fn after_apply(cur: Option<JsonV>, op: OpV) -> Option<JsonV> {
    match op {
        OpV::Create(d) => Option::Some(d),
        OpV::Update { from, to } => Option::Some(to),
        OpV::Delete(c) => Option::None,
        OpV::Noop => cur,
    }
}

/// Idempotence of reconciliation: right after an operation computed from an
/// observed state has been applied successfully, recomputing the decision
/// against the same desired state yields `Noop` — there is nothing left to
/// do.
pub proof fn lemma_replan_after_apply_is_noop(cur: Option<JsonV>, des: Option<JsonV>)
    ensures
        classify_v(after_apply(cur, classify_v(cur, des)), des) == OpV::Noop,
{
}

/// The capability contract every provisionable entity implements. The
/// engine consumes resources only through this interface.
pub trait Resource: Sized {
    /// The identity, stable across all calls within a run.
    spec fn id_spec(&self) -> Seq<char>;

    /// The identities this resource must be ordered after.
    spec fn deps_spec(&self) -> Seq<Seq<char>>;

    /// The desired state, absent when the resource is to be removed.
    spec fn desired_spec(&self) -> Option<JsonV>;

    /// Returns the resource's identifier.
    fn id(&self) -> (r: ResourceId)
        ensures
            r@ == self.id_spec(),
    ;

    /// Returns the identifiers of the resources this one depends on.
    fn deps(&self) -> (d: Vec<ResourceId>)
        ensures
            d@.map_values(|x: ResourceId| x@) == self.deps_spec(),
    ;

    /// Observes the resource's current real-world state; `None` means the
    /// resource does not exist yet. Must not change the world.
    fn read(&self) -> (r: Result<Option<Current>, ResourceError>);

    /// Computes the operation that reconciles the observed state toward
    /// this resource's desired state. A successful answer is exactly the
    /// reconciliation decision.
    fn plan(&self, cur: Option<Current>) -> (r: Result<Op, ResourceError>)
        ensures
            r matches Ok(op) ==> op@ == classify_v(cur_view(cur), self.desired_spec()),
    ;

    /// Performs the side effect the operation calls for.
    fn apply(&self, op: &Op) -> (r: Result<(), ResourceError>);
}

/// A failure reported by a resource's own read, plan or apply step.
#[derive(Debug)]
pub struct ResourceError {
    pub message: String,
}

/// An in-memory resource over a fixed observed snapshot: `read` returns the
/// stored state and `apply` touches nothing outside the process. Useful for
/// dry runs and for exercising the engine.
pub struct StaticResource {
    pub id: ResourceId,
    pub deps: Vec<ResourceId>,
    pub desired: Option<Desired>,
    pub current: Option<Current>,
    pub fail_read: bool,
    pub fail_apply: bool,
}

impl Resource for StaticResource {
    open spec fn id_spec(&self) -> Seq<char> {
        self.id@
    }

    open spec fn deps_spec(&self) -> Seq<Seq<char>> {
        self.deps@.map_values(|x: ResourceId| x@)
    }

    open spec fn desired_spec(&self) -> Option<JsonV> {
        des_view(self.desired)
    }

    fn id(&self) -> (r: ResourceId) {
        self.id.duplicate()
    }

    fn deps(&self) -> (d: Vec<ResourceId>) {
        let mut out: Vec<ResourceId> = Vec::new();
        let mut i: usize = 0;
        while i < self.deps.len()
            invariant
                0 <= i <= self.deps@.len(),
                out@.len() == i,
                forall|j: int| 0 <= j < i ==> out@[j]@ == self.deps@[j]@,
            decreases self.deps@.len() - i,
        {
            out.push(self.deps[i].duplicate());
            i += 1;
        }
        proof {
            assert(out@.map_values(|x: ResourceId| x@) =~= self.deps_spec());
        }
        out
    }

    fn read(&self) -> (r: Result<Option<Current>, ResourceError>)
        ensures
            !self.fail_read ==> (r matches Ok(c) && cur_view(c) == cur_view(self.current)),
            self.fail_read ==> r is Err,
    {
        if self.fail_read {
            Err(ResourceError { message: "read failed".to_owned() })
        } else {
            match &self.current {
                Option::Some(c) => Ok(Some(Current(json_clone(&c.0)))),
                Option::None => Ok(None),
            }
        }
    }

    fn plan(&self, cur: Option<Current>) -> (r: Result<Op, ResourceError>)
        ensures
            r matches Ok(op) && op@ == classify_v(cur_view(cur), self.desired_spec()),
    {
        let des: Option<Desired> = match &self.desired {
            Option::Some(d) => Some(Desired(json_clone(&d.0))),
            Option::None => None,
        };
        Ok(classify(cur, des))
    }

    fn apply(&self, op: &Op) -> (r: Result<(), ResourceError>)
        ensures
            !self.fail_apply ==> r is Ok,
            self.fail_apply ==> r is Err,
    {
        if self.fail_apply {
            Err(ResourceError { message: "apply failed".to_owned() })
        } else {
            Ok(())
        }
    }
}

} // verus!
