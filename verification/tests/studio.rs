use strata_core::studio::Studio;
use strata_core::ResourceKind;

#[test]
fn studio_adds_by_kind_name() {
    let mut s = Studio::new();
    assert_eq!(s.add_resource("database", "orders db", 0, 0), Ok("database-1".to_string()));
    assert_eq!(
        s.add_resource("nope", "x", 0, 0),
        Err("unknown resource kind: nope".to_string())
    );
    assert_eq!(s.inner.resources[0].kind, ResourceKind::Database);
}

#[test]
fn studio_ids_count_up_per_kind_and_survive_removal() {
    let mut s = Studio::new();
    assert_eq!(s.add_resource("compute", "a", 0, 0), Ok("compute-1".to_string()));
    assert!(s.add_resource("nope", "x", 0, 0).is_err());
    assert_eq!(s.add_resource("compute", "b", 0, 0), Ok("compute-2".to_string()));
    assert_eq!(s.add_resource("queue", "q", 0, 0), Ok("queue-1".to_string()));
    assert!(s.inner.remove_resource("compute-2").is_ok());
    assert_eq!(s.add_resource("compute", "c", 0, 0), Ok("compute-3".to_string()));
}

#[test]
fn configure_validates_against_the_profile() {
    let mut s = Studio::new();
    let db = s.add_resource("database", "orders", 0, 0).unwrap();
    assert_eq!(
        s.configure("ghost-1", None, None, None),
        Err("no such resource: ghost-1".to_string())
    );
    assert_eq!(
        s.configure(&db, Some("kafka".into()), None, None),
        Err("unknown database variant for Amazon Web Services: kafka".to_string())
    );
    assert_eq!(
        s.configure(&db, Some("rds-single-az".into()), Some("us-east-1".into()), Some("eu-west-1a".into())),
        Err("eu-west-1a is not an availability zone of us-east-1".to_string())
    );
    // The variant was set before the placement was rejected.
    assert_eq!(s.inner.resources[0].variant.as_deref(), Some("rds-single-az"));
    assert_eq!(
        s.configure(&db, None, Some("mars-1".into()), None),
        Err("unknown region: mars-1".to_string())
    );
    assert_eq!(
        s.configure(&db, Some("".into()), Some("us-east-1".into()), Some("us-east-1a".into())),
        Ok(())
    );
    assert_eq!(s.inner.resources[0].placement.az.as_deref(), Some("us-east-1a"));
    assert_eq!(s.configure(&db, None, Some("us-east-1".into()), Some("".into())), Ok(()));
    assert_eq!(s.inner.resources[0].placement.az, None);
    assert_eq!(s.inner.resources[0].placement.region.as_deref(), Some("us-east-1"));
}

#[test]
fn simulate_failure_checks_the_zone_and_reports_the_chain() {
    let mut s = Studio::new();
    let lb = s.add_resource("load-balancer", "edge", 0, 0).unwrap();
    let api = s.add_resource("compute", "api", 0, 0).unwrap();
    let db = s.add_resource("database", "orders", 0, 0).unwrap();
    s.inner.connect(&lb, &api).unwrap();
    s.inner.connect(&api, &db).unwrap();
    s.configure(&db, Some("rds-single-az".into()), Some("us-east-1".into()), Some("us-east-1a".into()))
        .unwrap();
    assert_eq!(
        s.simulate_failure("us-east-1", "eu-west-1a").map(|r| r.target),
        Err("eu-west-1a is not an availability zone of us-east-1".to_string())
    );
    let report = s.simulate_failure("us-east-1", "us-east-1a").unwrap();
    assert_eq!(report.target, "AZ us-east-1a");
    assert_eq!(report.down, ["compute-1", "database-1", "load-balancer-1"]);
}

#[test]
fn generate_iac_supports_terraform_only() {
    let s = Studio::new();
    assert!(s.generate_iac("").unwrap().contains("# no resources yet"));
    assert_eq!(s.generate_iac("terraform"), s.generate_iac(""));
    assert_eq!(
        s.generate_iac("pulumi"),
        Err("unknown target: pulumi. Supported: terraform".to_string())
    );
}
