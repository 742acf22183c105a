use r2iac::engine::{apply_all, plan_all, EngineError};
use r2iac::json::{json_eq, JsonValue};
use r2iac::resource::{classify, Current, Desired, Op, Resource, ResourceId, StaticResource};

fn res(
    id: &str,
    deps: &[&str],
    desired: Option<JsonValue>,
    current: Option<JsonValue>,
) -> StaticResource {
    StaticResource {
        id: ResourceId(id.to_string()),
        deps: deps.iter().map(|d| ResourceId(d.to_string())).collect(),
        desired: desired.map(Desired),
        current: current.map(Current),
        fail_read: false,
        fail_apply: false,
    }
}

fn doc(tag: &str) -> JsonValue {
    JsonValue::Obj(vec![("tag".to_string(), JsonValue::Str(tag.to_string()))])
}

#[test]
fn classify_absent_observed_yields_create() {
    let d = doc("want");
    let op = classify(None, Some(Desired(doc("want"))));
    match op {
        Op::Create(got) => assert!(json_eq(&got.0, &d)),
        _ => panic!("expected Create"),
    }
}

#[test]
fn classify_absent_desired_yields_delete() {
    let c = doc("have");
    let op = classify(Some(Current(doc("have"))), None);
    match op {
        Op::Delete(got) => assert!(json_eq(&got.0, &c)),
        _ => panic!("expected Delete"),
    }
}

#[test]
fn classify_equal_states_yields_noop() {
    let op = classify(Some(Current(doc("same"))), Some(Desired(doc("same"))));
    assert!(matches!(op, Op::Noop));
}

#[test]
fn classify_nothing_yields_noop() {
    let op = classify(None, None);
    assert!(matches!(op, Op::Noop));
}

#[test]
fn classify_differing_states_yields_update() {
    let from = doc("old");
    let to = doc("new");
    let op = classify(Some(Current(doc("old"))), Some(Desired(doc("new"))));
    match op {
        Op::Update { from: f, to: t } => {
            assert!(json_eq(&f.0, &from));
            assert!(json_eq(&t.0, &to));
        }
        _ => panic!("expected Update"),
    }
}

#[test]
fn plan_orders_resources_after_their_dependencies() {
    // B depends on A, C depends on B; A is new, B and C already match.
    let resources = vec![
        res("a", &[], Some(doc("a")), None),
        res("b", &["a"], Some(doc("b")), Some(doc("b"))),
        res("c", &["b"], Some(doc("c")), Some(doc("c"))),
    ];
    let plan = plan_all(&resources).expect("acyclic set must plan");
    let ids: Vec<&str> = plan.iter().map(|(id, _)| id.as_str()).collect();
    assert_eq!(ids, vec!["a", "b", "c"]);
    assert!(matches!(plan[0].1, Op::Create(_)));
    assert!(matches!(plan[1].1, Op::Noop));
    assert!(matches!(plan[2].1, Op::Noop));
}

#[test]
fn plan_order_respects_dependencies_in_scrambled_input() {
    let resources = vec![
        res("c", &["b"], Some(doc("c")), None),
        res("a", &[], Some(doc("a")), None),
        res("b", &["a"], Some(doc("b")), None),
    ];
    let plan = plan_all(&resources).expect("acyclic set must plan");
    let pos = |wanted: &str| plan.iter().position(|(id, _)| id == wanted).unwrap();
    assert!(pos("a") < pos("b"));
    assert!(pos("b") < pos("c"));
    assert_eq!(plan.len(), 3);
}

#[test]
fn plan_breaks_ties_by_input_order() {
    // No dependencies at all: the plan keeps the input order.
    let resources = vec![
        res("z", &[], Some(doc("z")), None),
        res("m", &[], Some(doc("m")), None),
        res("a", &[], Some(doc("a")), None),
    ];
    let plan = plan_all(&resources).expect("acyclic set must plan");
    let ids: Vec<&str> = plan.iter().map(|(id, _)| id.as_str()).collect();
    assert_eq!(ids, vec!["z", "m", "a"]);
}

#[test]
fn plan_returns_to_an_earlier_resource_once_it_becomes_ready() {
    // "a" is declared first but waits for "b"; as soon as "b" is planned,
    // "a" is the first ready resource again and comes before "c".
    let resources = vec![
        res("a", &["b"], Some(doc("a")), None),
        res("b", &[], Some(doc("b")), None),
        res("c", &[], Some(doc("c")), None),
    ];
    let plan = plan_all(&resources).expect("acyclic set must plan");
    let ids: Vec<&str> = plan.iter().map(|(id, _)| id.as_str()).collect();
    assert_eq!(ids, vec!["b", "a", "c"]);
}

#[test]
fn empty_collection_plans_to_an_empty_plan() {
    let resources: Vec<StaticResource> = Vec::new();
    let plan = plan_all(&resources).expect("empty set plans");
    assert!(plan.is_empty());
    assert!(apply_all(&resources, &plan).is_ok());
}

#[test]
fn plan_is_deterministic_across_runs() {
    let build = || {
        vec![
            res("x", &["shared"], Some(doc("x")), None),
            res("y", &["shared"], Some(doc("y")), None),
            res("shared", &[], Some(doc("s")), None),
        ]
    };
    let first = plan_all(&build()).expect("plans");
    let second = plan_all(&build()).expect("plans");
    let ids1: Vec<&str> = first.iter().map(|(id, _)| id.as_str()).collect();
    let ids2: Vec<&str> = second.iter().map(|(id, _)| id.as_str()).collect();
    assert_eq!(ids1, ids2);
}

#[test]
fn cycle_is_reported_and_nothing_is_planned() {
    let resources = vec![
        res("a", &["b"], Some(doc("a")), None),
        res("b", &["a"], Some(doc("b")), None),
    ];
    match plan_all(&resources) {
        Err(EngineError::Cycle) => {}
        _ => panic!("expected a cycle report"),
    }
}

#[test]
fn self_dependency_is_a_cycle() {
    let resources = vec![res("a", &["a"], Some(doc("a")), None)];
    match plan_all(&resources) {
        Err(EngineError::Cycle) => {}
        _ => panic!("expected a cycle report"),
    }
}

#[test]
fn unknown_dependency_is_dropped_not_fatal() {
    let resources = vec![res("real", &["missing"], Some(doc("r")), None)];
    let plan = plan_all(&resources).expect("unknown dependencies are dropped");
    assert_eq!(plan.len(), 1);
    assert_eq!(plan[0].0, "real");
}

#[test]
fn read_failure_aborts_planning_and_names_the_resource() {
    let mut broken = res("broken", &[], Some(doc("b")), None);
    broken.fail_read = true;
    let resources = vec![broken];
    match plan_all(&resources) {
        Err(EngineError::ReadFailed { id, .. }) => assert_eq!(id, "broken"),
        _ => panic!("expected a read failure"),
    }
}

#[test]
fn apply_failure_stops_the_run_and_reports_progress() {
    // X depends on Y; Y's apply fails. Y is attempted first, X never runs.
    let mut y = res("y", &[], Some(doc("y")), None);
    y.fail_apply = true;
    let x = res("x", &["y"], Some(doc("x")), None);
    let resources = vec![x, y];
    let plan = plan_all(&resources).expect("plans");
    let ids: Vec<&str> = plan.iter().map(|(id, _)| id.as_str()).collect();
    assert_eq!(ids, vec!["y", "x"]);
    match apply_all(&resources, &plan) {
        Err(EngineError::ApplyFailed { id, applied, .. }) => {
            assert_eq!(id, "y");
            assert_eq!(applied, 0);
        }
        _ => panic!("expected an apply failure"),
    }
}

#[test]
fn apply_succeeds_over_a_whole_plan() {
    let resources = vec![
        res("a", &[], Some(doc("a")), None),
        res("b", &["a"], Some(doc("b")), Some(doc("old"))),
    ];
    let plan = plan_all(&resources).expect("plans");
    assert!(apply_all(&resources, &plan).is_ok());
}

#[test]
fn replanning_after_apply_yields_noop_for_every_resource() {
    // Plan, apply, then read back a world that reflects the applies:
    // every resource now observes its desired state. A fresh plan is all
    // Noop.
    let resources = vec![
        res("a", &[], Some(doc("a")), None),
        res("b", &["a"], Some(doc("b")), Some(doc("stale"))),
        res("c", &["b"], None, Some(doc("c"))),
    ];
    let plan = plan_all(&resources).expect("plans");
    assert!(apply_all(&resources, &plan).is_ok());
    let after: Vec<StaticResource> = resources
        .iter()
        .map(|r| StaticResource {
            id: ResourceId(r.id.0.clone()),
            deps: r.deps.iter().map(|d| ResourceId(d.0.clone())).collect(),
            desired: r.desired.as_ref().map(|d| Desired(r2iac::json::json_clone(&d.0))),
            current: r.desired.as_ref().map(|d| Current(r2iac::json::json_clone(&d.0))),
            fail_read: false,
            fail_apply: false,
        })
        .collect();
    let second = plan_all(&after).expect("plans");
    assert_eq!(second.len(), 3);
    for (_, op) in &second {
        assert!(matches!(op, Op::Noop));
    }
}

#[test]
fn static_resource_reports_its_identity_and_dependencies() {
    let r = res("me", &["dep1", "dep2"], Some(doc("m")), None);
    assert_eq!(r.id().0, "me");
    let deps = r.deps();
    assert_eq!(deps.len(), 2);
    assert_eq!(deps[0].0, "dep1");
    assert_eq!(deps[1].0, "dep2");
}

#[test]
fn topo_order_on_plain_edges() {
    // 0 -> 1 -> 2, plus 0 -> 2.
    let edges = vec![(0usize, 1usize), (1, 2), (0, 2)];
    let order = r2iac::graph::topo_order(3, &edges).expect("acyclic");
    assert_eq!(order, vec![0, 1, 2]);
    let cyclic = vec![(0usize, 1usize), (1, 0)];
    assert!(r2iac::graph::topo_order(2, &cyclic).is_none());
}
