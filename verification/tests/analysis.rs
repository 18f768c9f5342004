use strata_core::analysis::{az_failure_seed, blast_radius, region_failure_seed, spofs};
use strata_core::profile::ProviderProfile;
use strata_core::{Architecture, ResourceKind};

/// LB -> compute -> database, database is single-AZ in us-east-1a.
fn chain() -> Architecture {
    let mut a = Architecture::new();
    let lb = a.add_resource(ResourceKind::LoadBalancer, "edge", 0, 0);
    let api = a.add_resource(ResourceKind::Compute, "api", 0, 0);
    let db = a.add_resource(ResourceKind::Database, "orders", 0, 0);
    a.connect(&lb, &api).unwrap();
    a.connect(&api, &db).unwrap();
    a.set_variant(&lb, Some("alb".into())).unwrap();
    a.place(&lb, Some("us-east-1".into()), None).unwrap();
    a.set_variant(&api, Some("ec2-asg".into())).unwrap();
    a.place(&api, Some("us-east-1".into()), None).unwrap();
    a.set_variant(&db, Some("rds-single-az".into())).unwrap();
    a.place(&db, Some("us-east-1".into()), Some("us-east-1a".into()))
        .unwrap();
    a
}

#[test]
fn az_failure_takes_down_the_whole_chain() {
    let a = chain();
    let p = ProviderProfile::aws();
    let seed = az_failure_seed(&a, "us-east-1a");
    let r = blast_radius(&a, &p, &seed, Some("us-east-1"), "AZ us-east-1a");
    assert_eq!(r.down, ["compute-1", "database-1", "load-balancer-1"]);
    assert!(r.degraded.is_empty());
    assert!(r.healthy.is_empty());
}

#[test]
fn multi_az_database_degrades_instead_of_dying() {
    let mut a = chain();
    let p = ProviderProfile::aws();
    a.set_variant("database-1", Some("rds-multi-az".into()))
        .unwrap();
    a.place("database-1", Some("us-east-1".into()), None)
        .unwrap();
    let seed = az_failure_seed(&a, "us-east-1a");
    let r = blast_radius(&a, &p, &seed, Some("us-east-1"), "AZ us-east-1a");
    assert!(r.down.is_empty());
    assert_eq!(r.degraded, ["database-1"]);
    assert_eq!(r.healthy, ["compute-1", "load-balancer-1"]);
    assert!(r.notes.iter().any(|n| n.contains("~90s")));
}

#[test]
fn dead_dependency_group_downs_the_dependent_even_with_a_live_sibling_group() {
    let mut a = Architecture::new();
    let api = a.add_resource(ResourceKind::Compute, "api", 0, 0);
    let db = a.add_resource(ResourceKind::Database, "orders", 0, 0);
    let cache = a.add_resource(ResourceKind::Cache, "sessions", 0, 0);
    a.connect(&api, &db).unwrap();
    a.connect(&api, &cache).unwrap();
    a.set_variant(&db, Some("rds-single-az".into())).unwrap();
    a.place(&db, Some("us-east-1".into()), Some("us-east-1a".into()))
        .unwrap();
    a.set_variant(&cache, Some("elasticache".into())).unwrap();
    a.place(&cache, Some("us-east-1".into()), None).unwrap();

    let p = ProviderProfile::aws();
    let seed = az_failure_seed(&a, "us-east-1a");
    let r = blast_radius(&a, &p, &seed, Some("us-east-1"), "AZ us-east-1a");
    assert_eq!(r.down, ["compute-1", "database-1"]);
}

#[test]
fn losing_one_of_two_backends_degrades_the_load_balancer() {
    let mut a = Architecture::new();
    let lb = a.add_resource(ResourceKind::LoadBalancer, "edge", 0, 0);
    let a1 = a.add_resource(ResourceKind::Compute, "api-a", 0, 0);
    let a2 = a.add_resource(ResourceKind::Compute, "api-b", 0, 0);
    a.connect(&lb, &a1).unwrap();
    a.connect(&lb, &a2).unwrap();
    a.place(&a1, Some("us-east-1".into()), Some("us-east-1a".into()))
        .unwrap();
    a.place(&a2, Some("us-east-1".into()), Some("us-east-1b".into()))
        .unwrap();

    let p = ProviderProfile::aws();
    let seed = az_failure_seed(&a, "us-east-1a");
    let r = blast_radius(&a, &p, &seed, Some("us-east-1"), "AZ us-east-1a");
    assert_eq!(r.down, ["compute-1"]);
    assert_eq!(r.degraded, ["load-balancer-1"]);
    assert!(r.notes.iter().any(|n| n.contains("lost 1 of 2")));
}

#[test]
fn region_failure_downs_the_local_stack_but_not_a_second_region() {
    let mut a = chain();
    let dns = a.add_resource(ResourceKind::Dns, "router", 0, 0);
    let dr = a.add_resource(ResourceKind::Compute, "api-dr", 0, 0);
    a.set_variant(&dns, Some("route53".into())).unwrap();
    a.set_variant(&dr, Some("ec2-asg".into())).unwrap();
    a.place(&dr, Some("eu-west-1".into()), None).unwrap();
    a.connect(&dns, "compute-1").unwrap();
    a.connect(&dns, &dr).unwrap();

    let p = ProviderProfile::aws();
    let seed = region_failure_seed(&a, "us-east-1");
    let r = blast_radius(&a, &p, &seed, Some("us-east-1"), "region us-east-1");
    assert!(r.down.contains(&"compute-1".to_string()));
    assert!(r.down.contains(&"database-1".to_string()));
    assert!(r.down.contains(&"load-balancer-1".to_string()));
    assert!(r.healthy.contains(&"compute-2".to_string()));
    assert!(r.degraded.contains(&"dns-1".to_string()));
    assert!(!r.down.contains(&"dns-1".to_string()));
}

#[test]
fn region_failure_seed_excludes_global_services() {
    let mut a = Architecture::new();
    let cdn = a.add_resource(ResourceKind::Cdn, "edge", 0, 0);
    a.set_variant(&cdn, Some("cloudfront".into())).unwrap();
    a.place(&cdn, Some("us-east-1".into()), None).unwrap();
    assert!(region_failure_seed(&a, "us-east-1").is_empty());
}

#[test]
fn spof_scan_finds_the_single_az_database_and_its_orphans() {
    let a = chain();
    let p = ProviderProfile::aws();
    let found = spofs(&a, &p);
    assert_eq!(found.len(), 1);
    assert_eq!(found[0].id, "database-1");
    assert_eq!(found[0].orphans, ["compute-1", "load-balancer-1"]);
}

#[test]
fn spof_scan_is_empty_for_an_all_redundant_design() {
    let mut a = chain();
    let p = ProviderProfile::aws();
    a.set_variant("database-1", Some("aurora".into())).unwrap();
    a.place("database-1", Some("us-east-1".into()), None)
        .unwrap();
    assert!(spofs(&a, &p).is_empty());
}

// ---------------------------------------------------------------------------
// Further cases
// ---------------------------------------------------------------------------

#[test]
fn blast_report_partitions_every_resource() {
    let mut a = chain();
    let extra = a.add_resource(ResourceKind::Queue, "jobs", 0, 0);
    a.set_variant(&extra, Some("sqs".into())).unwrap();
    a.place(&extra, Some("us-east-1".into()), None).unwrap();
    let p = ProviderProfile::aws();
    let seed = az_failure_seed(&a, "us-east-1a");
    let r = blast_radius(&a, &p, &seed, Some("us-east-1"), "AZ us-east-1a");
    let mut all: Vec<String> = r
        .down
        .iter()
        .chain(r.degraded.iter())
        .chain(r.healthy.iter())
        .cloned()
        .collect();
    all.sort();
    let mut ids: Vec<String> = a.resources.iter().map(|r| r.id.clone()).collect();
    ids.sort();
    assert_eq!(all, ids);
    assert_eq!(r.target, "AZ us-east-1a");
}

#[test]
fn a_bigger_seed_never_shrinks_the_down_set() {
    let a = chain();
    let p = ProviderProfile::aws();
    let small = blast_radius(&a, &p, &["database-1".to_string()], None, "x");
    let big = blast_radius(
        &a,
        &p,
        &["database-1".to_string(), "load-balancer-1".to_string()],
        None,
        "x",
    );
    for id in &small.down {
        assert!(big.down.contains(id));
    }
    assert_eq!(small.down, ["compute-1", "database-1", "load-balancer-1"]);
}

#[test]
fn az_seed_lists_only_resources_in_that_zone() {
    let a = chain();
    assert_eq!(az_failure_seed(&a, "us-east-1a"), ["database-1"]);
    assert!(az_failure_seed(&a, "us-east-1b").is_empty());
}
