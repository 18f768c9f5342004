use strata_core::{ArchError, Architecture, Edge, Placement, Resource, ResourceKind};

fn bits(x: f64) -> u64 {
    x.to_bits()
}

#[test]
fn add_resource_generates_incrementing_ids_per_kind() {
    let mut a = Architecture::new();
    assert_eq!(
        a.add_resource(ResourceKind::Compute, "web", bits(0.0), bits(0.0)),
        "compute-1"
    );
    assert_eq!(
        a.add_resource(ResourceKind::Compute, "worker", bits(0.0), bits(0.0)),
        "compute-2"
    );
    assert_eq!(
        a.add_resource(ResourceKind::Database, "orders", bits(0.0), bits(0.0)),
        "database-1"
    );
    assert_eq!(a.resources.len(), 3);
}

#[test]
fn connect_happy_path() {
    let mut a = Architecture::new();
    let lb = a.add_resource(ResourceKind::LoadBalancer, "lb", bits(0.0), bits(0.0));
    let api = a.add_resource(ResourceKind::Compute, "api", bits(0.0), bits(0.0));
    assert!(a.connect(&lb, &api).is_ok());
    assert_eq!(a.edges, vec![Edge { from: lb, to: api }]);
}

#[test]
fn connect_unknown_endpoint_errors() {
    let mut a = Architecture::new();
    let api = a.add_resource(ResourceKind::Compute, "api", bits(0.0), bits(0.0));
    assert_eq!(
        a.connect(&api, "ghost-1"),
        Err(ArchError::UnknownResource("ghost-1".into()))
    );
    assert_eq!(
        a.connect("ghost-1", &api),
        Err(ArchError::UnknownResource("ghost-1".into()))
    );
}

#[test]
fn connect_self_loop_errors() {
    let mut a = Architecture::new();
    let api = a.add_resource(ResourceKind::Compute, "api", bits(0.0), bits(0.0));
    assert_eq!(a.connect(&api, &api), Err(ArchError::SelfLoop(api)));
}

#[test]
fn connect_duplicate_edge_errors() {
    let mut a = Architecture::new();
    let x = a.add_resource(ResourceKind::Compute, "a", bits(0.0), bits(0.0));
    let y = a.add_resource(ResourceKind::Cache, "b", bits(0.0), bits(0.0));
    a.connect(&x, &y).unwrap();
    assert_eq!(
        a.connect(&x, &y),
        Err(ArchError::DuplicateEdge { from: x, to: y })
    );
}

#[test]
fn remove_resource_drops_incident_edges() {
    let mut a = Architecture::new();
    let lb = a.add_resource(ResourceKind::LoadBalancer, "lb", bits(0.0), bits(0.0));
    let api = a.add_resource(ResourceKind::Compute, "api", bits(0.0), bits(0.0));
    a.connect(&lb, &api).unwrap();
    a.remove_resource(&api).unwrap();
    assert!(a.edges.is_empty());
    assert_eq!(a.resources.len(), 1);
}

#[test]
fn remove_unknown_errors() {
    let mut a = Architecture::new();
    assert_eq!(
        a.remove_resource("ghost-1"),
        Err(ArchError::UnknownResource("ghost-1".into()))
    );
}

#[test]
fn ids_stay_unique_after_removal() {
    let mut a = Architecture::new();
    let first = a.add_resource(ResourceKind::Compute, "a", bits(0.0), bits(0.0));
    a.remove_resource(&first).unwrap();
    let second = a.add_resource(ResourceKind::Compute, "b", bits(0.0), bits(0.0));
    assert_ne!(first, second);
    assert_eq!(second, "compute-2");
}

#[test]
fn validate_flags_dangling_edge() {
    let a = Architecture {
        resources: vec![Resource {
            id: "compute-1".into(),
            kind: ResourceKind::Compute,
            label: "api".into(),
            x_bits: bits(0.0),
            y_bits: bits(0.0),
            variant: None,
            placement: Placement::default(),
        }],
        edges: vec![Edge {
            from: "compute-1".into(),
            to: "ghost-1".into(),
        }],
        counters: vec![],
    };
    assert_eq!(
        a.validate(),
        vec![ArchError::DanglingEdge {
            from: "compute-1".into(),
            to: "ghost-1".into()
        }]
    );
}

#[test]
fn validate_clean_graph_has_no_errors() {
    let mut a = Architecture::new();
    let lb = a.add_resource(ResourceKind::LoadBalancer, "lb", bits(0.0), bits(0.0));
    let api = a.add_resource(ResourceKind::Compute, "api", bits(0.0), bits(0.0));
    a.connect(&lb, &api).unwrap();
    assert!(a.validate().is_empty());
}

#[test]
fn kind_from_str_roundtrips() {
    for k in ResourceKind::all() {
        assert_eq!(k.to_string().parse::<ResourceKind>().unwrap(), k);
    }
    assert!("nope".parse::<ResourceKind>().is_err());
}

#[test]
fn only_cdn_and_dns_are_global() {
    let global: Vec<_> = ResourceKind::all()
        .into_iter()
        .filter(ResourceKind::is_global)
        .collect();
    assert_eq!(global, [ResourceKind::Cdn, ResourceKind::Dns]);
}

#[test]
fn set_variant_and_place_happy_path() {
    let mut a = Architecture::new();
    let db = a.add_resource(ResourceKind::Database, "orders", bits(0.0), bits(0.0));
    a.set_variant(&db, Some("rds-multi-az".into())).unwrap();
    a.place(&db, Some("us-east-1".into()), Some("us-east-1a".into()))
        .unwrap();
    let r = &a.resources[0];
    assert_eq!(r.variant.as_deref(), Some("rds-multi-az"));
    assert_eq!(r.placement.region.as_deref(), Some("us-east-1"));
    assert_eq!(r.placement.az.as_deref(), Some("us-east-1a"));

    a.set_variant(&db, None).unwrap();
    assert_eq!(a.resources[0].variant, None);
}

#[test]
fn set_variant_and_place_reject_unknown_id() {
    let mut a = Architecture::new();
    assert_eq!(
        a.set_variant("ghost-1", Some("x".into())),
        Err(ArchError::UnknownResource("ghost-1".into()))
    );
    assert_eq!(
        a.place("ghost-1", Some("us-east-1".into()), None),
        Err(ArchError::UnknownResource("ghost-1".into()))
    );
}

#[test]
fn move_resource_updates_position_and_rejects_unknown_id() {
    let mut a = Architecture::new();
    let n = a.add_resource(ResourceKind::Compute, "api", bits(0.0), bits(0.0));
    a.move_resource(&n, bits(120.0), bits(240.0)).unwrap();
    assert_eq!(
        (
            f64::from_bits(a.resources[0].x_bits),
            f64::from_bits(a.resources[0].y_bits)
        ),
        (120.0, 240.0)
    );
    assert_eq!(
        a.move_resource("ghost-1", bits(1.0), bits(1.0)),
        Err(ArchError::UnknownResource("ghost-1".into()))
    );
}

#[test]
fn place_rejects_az_without_region() {
    let mut a = Architecture::new();
    let db = a.add_resource(ResourceKind::Database, "orders", bits(0.0), bits(0.0));
    assert_eq!(
        a.place(&db, None, Some("us-east-1a".into())),
        Err(ArchError::AzWithoutRegion(db))
    );
}

// ---------------------------------------------------------------------------
// Further cases
// ---------------------------------------------------------------------------

#[test]
fn validate_reports_duplicate_ids_then_dangling_edges() {
    let r = |id: &str| Resource {
        id: id.into(),
        kind: ResourceKind::Compute,
        label: "x".into(),
        x_bits: 0,
        y_bits: 0,
        variant: None,
        placement: Placement::default(),
    };
    let a = Architecture {
        resources: vec![r("compute-1"), r("compute-1")],
        edges: vec![Edge {
            from: "ghost-1".into(),
            to: "compute-1".into(),
        }],
        counters: vec![],
    };
    assert_eq!(
        a.validate(),
        vec![
            ArchError::DuplicateId("compute-1".into()),
            ArchError::DanglingEdge {
                from: "ghost-1".into(),
                to: "compute-1".into()
            }
        ]
    );
}

#[test]
fn connect_reports_self_loop_before_unknown_ids() {
    let mut a = Architecture::new();
    assert_eq!(
        a.connect("ghost-1", "ghost-1"),
        Err(ArchError::SelfLoop("ghost-1".into()))
    );
}

#[test]
fn place_checks_zone_before_lookup() {
    let mut a = Architecture::new();
    assert_eq!(
        a.place("ghost-1", None, Some("us-east-1a".into())),
        Err(ArchError::AzWithoutRegion("ghost-1".into()))
    );
}

#[test]
fn error_messages_read_as_sentences() {
    assert_eq!(
        ArchError::UnknownKind("nope".into()).to_string(),
        "unknown resource kind: nope"
    );
    assert_eq!(
        ArchError::DuplicateEdge {
            from: "a".into(),
            to: "b".into()
        }
        .to_string(),
        "a -> b is already connected"
    );
    assert_eq!(
        ArchError::AzWithoutRegion("database-1".into()).to_string(),
        "cannot place database-1 in an availability zone without a region"
    );
}

#[test]
fn every_kind_parses_back_from_its_slug() {
    assert_eq!(ResourceKind::parse("load-balancer"), Ok(ResourceKind::LoadBalancer));
    assert_eq!(ResourceKind::parse("api-gateway"), Ok(ResourceKind::ApiGateway));
    assert_eq!(
        ResourceKind::parse("Compute"),
        Err(ArchError::UnknownKind("Compute".into()))
    );
    assert_eq!(ResourceKind::all().len(), 10);
}

#[test]
fn counters_survive_removal_and_count_per_kind() {
    let mut a = Architecture::new();
    let c1 = a.add_resource(ResourceKind::Compute, "a", 0, 0);
    let d1 = a.add_resource(ResourceKind::Database, "b", 0, 0);
    a.remove_resource(&c1).unwrap();
    a.remove_resource(&d1).unwrap();
    assert_eq!(a.add_resource(ResourceKind::Database, "c", 0, 0), "database-2");
    assert_eq!(a.add_resource(ResourceKind::Compute, "d", 0, 0), "compute-2");
    assert!(a.validate().is_empty());
}

#[test]
fn every_design_built_by_edits_validates_clean() {
    let mut a = Architecture::new();
    assert!(a.validate().is_empty());
    let lb = a.add_resource(ResourceKind::LoadBalancer, "alb", bits(0.0), bits(0.0));
    let api = a.add_resource(ResourceKind::Compute, "api", bits(1.0), bits(0.0));
    let db = a.add_resource(ResourceKind::Database, "orders", bits(2.0), bits(0.0));
    assert!(a.validate().is_empty());
    assert!(a.connect(&lb, &api).is_ok());
    assert!(a.connect(&api, &db).is_ok());
    assert!(a.connect(&api, &db).is_err());
    assert!(a.connect(&api, &api).is_err());
    assert!(a.connect(&api, "queue-9").is_err());
    assert!(a.validate().is_empty());
    assert!(a.set_variant(&db, Some("rds-multi-az".to_string())).is_ok());
    assert!(a
        .place(&db, None, Some("us-east-1a".to_string()))
        .is_err());
    assert!(a.move_resource("nope-1", bits(0.0), bits(0.0)).is_err());
    assert!(a.validate().is_empty());
    assert!(a.remove_resource(&api).is_ok());
    assert!(a.remove_resource(&api).is_err());
    assert_eq!(a.edges.len(), 0);
    let api2 = a.add_resource(ResourceKind::Compute, "api", bits(1.0), bits(0.0));
    assert_eq!(api2, "compute-2");
    assert!(a.connect(&lb, &api2).is_ok());
    assert!(a.validate().is_empty());
}
