use strata_core::lint::{lint, Citation, Finding, Severity};
use strata_core::profile::ProviderProfile;
use strata_core::{Architecture, ResourceKind};

fn single_az_demo() -> Architecture {
    let mut a = Architecture::new();
    let lb = a.add_resource(ResourceKind::LoadBalancer, "alb", 0, 0);
    let api = a.add_resource(ResourceKind::Compute, "api", 0, 0);
    let db = a.add_resource(ResourceKind::Database, "orders", 0, 0);
    a.connect(&lb, &api).unwrap();
    a.connect(&api, &db).unwrap();
    a.set_variant(&lb, Some("alb".into())).unwrap();
    a.set_variant(&api, Some("ec2-asg".into())).unwrap();
    a.set_variant(&db, Some("rds-single-az".into())).unwrap();
    a.place(&db, Some("us-east-1".into()), Some("us-east-1a".into()))
        .unwrap();
    a
}

fn rule_ids(findings: &[Finding]) -> Vec<&str> {
    findings.iter().map(|f| f.rule.as_str()).collect()
}

#[test]
fn single_az_demo_flags_the_datastore_and_clears_after_hardening() {
    let p = ProviderProfile::aws();

    let before = lint(&single_az_demo(), &p);
    let db_finding = before
        .iter()
        .find(|f| f.rule == "single-az-datastore")
        .expect("single-AZ database is flagged");
    assert_eq!(db_finding.severity, Severity::High);
    assert_eq!(db_finding.resource.as_deref(), Some("database-1"));
    assert_eq!(db_finding.citation.chapter, "Chapter 6: Replication");

    let mut hardened = single_az_demo();
    hardened
        .set_variant("database-1", Some("rds-multi-az".into()))
        .unwrap();
    hardened
        .place("database-1", Some("us-east-1".into()), None)
        .unwrap();
    let after = lint(&hardened, &p);
    assert!(
        !rule_ids(&after).contains(&"single-az-datastore"),
        "hardening clears the single-AZ finding, got {:?}",
        rule_ids(&after)
    );
}

#[test]
fn fully_redundant_design_is_clean() {
    let mut a = Architecture::new();
    let lb = a.add_resource(ResourceKind::LoadBalancer, "edge", 0, 0);
    let api = a.add_resource(ResourceKind::Compute, "api", 0, 0);
    let db = a.add_resource(ResourceKind::Database, "orders", 0, 0);
    let cache = a.add_resource(ResourceKind::Cache, "sessions", 0, 0);
    let dns = a.add_resource(ResourceKind::Dns, "router", 0, 0);
    a.connect(&lb, &api).unwrap();
    a.connect(&api, &db).unwrap();
    a.connect(&api, &cache).unwrap();
    for (id, variant) in [
        (&lb, "alb"),
        (&api, "ec2-asg"),
        (&db, "aurora"),
        (&cache, "elasticache"),
        (&dns, "route53"),
    ] {
        a.set_variant(id, Some(variant.to_string())).unwrap();
    }
    a.place(&db, Some("us-east-1".into()), None).unwrap();
    a.place(&cache, Some("us-east-1".into()), None).unwrap();
    a.place(&api, Some("us-east-1".into()), None).unwrap();

    assert_eq!(lint(&a, &ProviderProfile::aws()), Vec::new());
}

#[test]
fn unmanaged_compute_fires_only_with_inbound_and_no_variant() {
    let p = ProviderProfile::aws();
    let mut a = Architecture::new();
    let lb = a.add_resource(ResourceKind::LoadBalancer, "edge", 0, 0);
    let api = a.add_resource(ResourceKind::Compute, "api", 0, 0);
    a.connect(&lb, &api).unwrap();

    assert!(rule_ids(&lint(&a, &p)).contains(&"unmanaged-compute"));

    a.set_variant(&api, Some("ec2-asg".into())).unwrap();
    assert!(!rule_ids(&lint(&a, &p)).contains(&"unmanaged-compute"));
}

#[test]
fn unmanaged_compute_ignores_a_leaf_node() {
    let p = ProviderProfile::aws();
    let mut a = Architecture::new();
    a.add_resource(ResourceKind::Compute, "worker", 0, 0);
    assert!(!rule_ids(&lint(&a, &p)).contains(&"unmanaged-compute"));
}

#[test]
fn synchronous_service_coupling_fires_service_to_service_without_a_queue() {
    let p = ProviderProfile::aws();
    let mut a = Architecture::new();
    let gw = a.add_resource(ResourceKind::ApiGateway, "gw", 0, 0);
    let svc = a.add_resource(ResourceKind::Functions, "checkout", 0, 0);
    a.connect(&gw, &svc).unwrap();

    let found = lint(&a, &p);
    let f = found
        .iter()
        .find(|f| f.rule == "synchronous-service-coupling")
        .expect("gw -> svc with no queue is flagged");
    assert_eq!(f.resource.as_deref(), Some("functions-1"));
    assert_eq!(
        f.citation.section, "Timeouts and Unbounded Delays",
        "cites DDIA Ch 9"
    );

    a.add_resource(ResourceKind::Queue, "jobs", 0, 0);
    assert!(!rule_ids(&lint(&a, &p)).contains(&"synchronous-service-coupling"));
}

#[test]
fn synchronous_service_coupling_ignores_a_plain_database_call() {
    let p = ProviderProfile::aws();
    let mut a = Architecture::new();
    let api = a.add_resource(ResourceKind::Compute, "api", 0, 0);
    let db = a.add_resource(ResourceKind::Database, "orders", 0, 0);
    a.connect(&api, &db).unwrap();
    assert!(!rule_ids(&lint(&a, &p)).contains(&"synchronous-service-coupling"));
}

#[test]
fn single_region_fires_for_a_stateful_multi_resource_single_region_design() {
    let p = ProviderProfile::aws();
    let mut a = Architecture::new();
    let api = a.add_resource(ResourceKind::Compute, "api", 0, 0);
    let db = a.add_resource(ResourceKind::Database, "orders", 0, 0);
    a.set_variant(&api, Some("ec2-asg".into())).unwrap();
    a.set_variant(&db, Some("aurora".into())).unwrap();
    a.place(&api, Some("us-east-1".into()), None).unwrap();
    a.place(&db, Some("us-east-1".into()), None).unwrap();

    let f = lint(&a, &p);
    assert!(rule_ids(&f).contains(&"single-region"));

    a.place("database-1", Some("eu-west-1".into()), None)
        .unwrap();
    assert!(!rule_ids(&lint(&a, &p)).contains(&"single-region"));
}

#[test]
fn single_region_cleared_by_health_checked_dns() {
    let p = ProviderProfile::aws();
    let mut a = Architecture::new();
    let api = a.add_resource(ResourceKind::Compute, "api", 0, 0);
    let db = a.add_resource(ResourceKind::Database, "orders", 0, 0);
    let dns = a.add_resource(ResourceKind::Dns, "router", 0, 0);
    a.set_variant(&api, Some("ec2-asg".into())).unwrap();
    a.set_variant(&db, Some("aurora".into())).unwrap();
    a.set_variant(&dns, Some("route53".into())).unwrap();
    a.place(&api, Some("us-east-1".into()), None).unwrap();
    a.place(&db, Some("us-east-1".into()), None).unwrap();

    assert!(!rule_ids(&lint(&a, &p)).contains(&"single-region"));
}

#[test]
fn unbuffered_write_path_fires_without_a_cache_and_clears_with_one() {
    let p = ProviderProfile::aws();
    let mut a = Architecture::new();
    let api = a.add_resource(ResourceKind::Compute, "api", 0, 0);
    let db = a.add_resource(ResourceKind::Database, "orders", 0, 0);
    a.set_variant(&api, Some("ec2-asg".into())).unwrap();
    a.set_variant(&db, Some("aurora".into())).unwrap();
    a.place(&db, Some("us-east-1".into()), None).unwrap();
    a.connect(&api, &db).unwrap();

    let f = lint(&a, &p);
    let hot = f
        .iter()
        .find(|f| f.rule == "unbuffered-write-path")
        .expect("compute -> database with no cache is flagged");
    assert_eq!(hot.severity, Severity::Low);
    assert_eq!(hot.citation.chapter, "Chapter 7: Sharding");

    let cache = a.add_resource(ResourceKind::Cache, "sessions", 0, 0);
    a.set_variant(&cache, Some("elasticache".into())).unwrap();
    a.connect(&api, &cache).unwrap();
    assert!(!rule_ids(&lint(&a, &p)).contains(&"unbuffered-write-path"));
}

#[test]
fn findings_are_ordered_worst_first() {
    let mut a = Architecture::new();
    let gw = a.add_resource(ResourceKind::ApiGateway, "gw", 0, 0);
    let svc = a.add_resource(ResourceKind::Compute, "svc", 0, 0);
    let db = a.add_resource(ResourceKind::Database, "orders", 0, 0);
    a.connect(&gw, &svc).unwrap();
    a.connect(&svc, &db).unwrap();
    a.set_variant(&svc, Some("ec2-asg".into())).unwrap();
    a.set_variant(&db, Some("rds-single-az".into())).unwrap();
    a.place(&db, Some("us-east-1".into()), Some("us-east-1a".into()))
        .unwrap();

    let severities: Vec<Severity> = lint(&a, &ProviderProfile::aws())
        .iter()
        .map(|f| f.severity)
        .collect();
    let mut sorted = severities.clone();
    sorted.sort();
    assert_eq!(severities, sorted, "findings come back worst-first");
    assert_eq!(severities.first(), Some(&Severity::High));
}

#[test]
fn empty_architecture_lints_clean() {
    assert_eq!(
        lint(&Architecture::new(), &ProviderProfile::aws()),
        Vec::new()
    );
}

// ---------------------------------------------------------------------------
// Further cases
// ---------------------------------------------------------------------------

#[test]
fn single_az_finding_cites_node_outages() {
    let mut a = Architecture::new();
    let db = a.add_resource(ResourceKind::Database, "orders", 0, 0);
    a.set_variant(&db, Some("rds-single-az".into())).unwrap();
    a.place(&db, Some("us-east-1".into()), Some("us-east-1a".into()))
        .unwrap();
    let found = lint(&a, &ProviderProfile::aws());
    assert_eq!(found[0].rule, "single-az-datastore");
    assert_eq!(found[0].resource.as_deref(), Some("database-1"));
    assert_eq!(found[0].citation.section, "Handling Node Outages");
}

#[test]
fn ddia_citation_names_the_book() {
    let c = Citation::ddia("Chapter 6: Replication", "Handling Node Outages");
    assert_eq!(c.chapter, "Chapter 6: Replication");
    assert_eq!(c.section, "Handling Node Outages");
    assert!(c.source.contains("Designing Data-Intensive Applications"));
}

#[test]
fn single_az_demo_lists_the_datastore_and_the_uncached_caller() {
    let found: Vec<(Severity, String, Option<String>)> = lint(&single_az_demo(), &ProviderProfile::aws())
        .into_iter()
        .map(|f| (f.severity, f.rule, f.resource))
        .collect();
    assert_eq!(
        found,
        [
            (Severity::High, "single-az-datastore".to_string(), Some("database-1".to_string())),
            (Severity::Low, "unbuffered-write-path".to_string(), Some("compute-1".to_string())),
        ]
    );
}
