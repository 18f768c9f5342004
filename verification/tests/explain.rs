use strata_core::explain::{explain, principle, role};
use strata_core::profile::ProviderProfile;
use strata_core::{Architecture, ResourceKind};

/// alb -> ec2-asg -> rds-single-az, DB pinned to us-east-1a.
fn demo() -> Architecture {
    let mut a = Architecture::new();
    let lb = a.add_resource(ResourceKind::LoadBalancer, "alb", 0, 0);
    let api = a.add_resource(ResourceKind::Compute, "api", 0, 0);
    let db = a.add_resource(ResourceKind::Database, "orders", 0, 0);
    a.connect(&lb, &api).unwrap();
    a.connect(&api, &db).unwrap();
    a.set_variant(&lb, Some("alb".into())).unwrap();
    a.set_variant(&api, Some("ec2-asg".into())).unwrap();
    a.set_variant(&db, Some("rds-single-az".into())).unwrap();
    a.place(&db, Some("us-east-1".into()), Some("us-east-1a".into()))
        .unwrap();
    a
}

#[test]
fn explains_a_resource_with_role_deps_and_blast_radius() {
    let a = demo();
    let p = ProviderProfile::aws();
    let e = explain(&a, &p, "database-1");
    assert_eq!(e.subject, "database-1 (orders)");
    assert_eq!(e.selection_kind, "resource");
    assert!(e.summary.contains("system of record"));
    assert_eq!(e.depended_on_by, ["compute-1 (api)"]);
    assert!(e.depends_on.is_empty());
    assert_eq!(e.takes_down, ["compute-1 (api)", "load-balancer-1 (alb)"]);
    assert!(e
        .notes
        .iter()
        .any(|n| n.contains("single point of failure")));
    assert!(e.notes.iter().any(|n| n.contains("single zone")));
    assert!(e.notes.iter().any(|n| n.contains("DDIA Ch 6")));
}

#[test]
fn explains_an_edge_and_flags_the_synchronous_call() {
    let mut a = Architecture::new();
    let gw = a.add_resource(ResourceKind::ApiGateway, "gw", 0, 0);
    let svc = a.add_resource(ResourceKind::Functions, "checkout", 0, 0);
    a.connect(&gw, &svc).unwrap();
    let p = ProviderProfile::aws();

    let e = explain(&a, &p, "api-gateway-1 -> functions-1");
    assert_eq!(e.selection_kind, "dependency");
    assert!(e.summary.contains("critical path"));
    assert!(e.summary.contains("synchronous service-to-service call"));
}

#[test]
fn edge_that_does_not_exist_is_called_out() {
    let a = demo();
    let p = ProviderProfile::aws();
    let e = explain(&a, &p, "load-balancer-1->database-1");
    assert!(e
        .notes
        .iter()
        .any(|n| n.contains("no load-balancer-1 → database-1 dependency")));
}

#[test]
fn unknown_resource_is_handled() {
    let a = demo();
    let p = ProviderProfile::aws();
    let e = explain(&a, &p, "ghost-9");
    assert!(e.summary.contains("no resource ghost-9"));
}

#[test]
fn unconfigured_resource_says_so() {
    let mut a = Architecture::new();
    a.add_resource(ResourceKind::Compute, "api", 0, 0);
    let p = ProviderProfile::aws();
    let e = explain(&a, &p, "compute-1");
    assert!(e
        .notes
        .iter()
        .any(|n| n.contains("No provider variant is set")));
    assert!(e
        .notes
        .iter()
        .any(|n| n.contains("Not placed in any region")));
}

// ---------------------------------------------------------------------------
// Further cases
// ---------------------------------------------------------------------------

#[test]
fn selection_is_trimmed_and_the_unicode_arrow_works() {
    let a = demo();
    let p = ProviderProfile::aws();
    let e = explain(&a, &p, "  compute-1 → database-1 ");
    assert_eq!(e.selection_kind, "dependency");
    let r = explain(&a, &p, "  database-1\n");
    assert_eq!(r.subject, "database-1 (orders)");
}

#[test]
fn every_kind_has_a_role_and_a_principle() {
    for k in ResourceKind::all() {
        assert!(!role(k).is_empty());
        assert!(!principle(k).is_empty());
    }
}
