use strata_core::cost::{already_redundant, estimate};
use strata_core::profile::ProviderProfile;
use strata_core::{Architecture, ResourceKind};

fn usd(cents: u64) -> f64 {
    cents as f64 / 100.0
}

fn stack() -> Architecture {
    let mut a = Architecture::new();
    let lb = a.add_resource(ResourceKind::LoadBalancer, "alb", 0, 0);
    let api = a.add_resource(ResourceKind::Compute, "api", 0, 0);
    let db = a.add_resource(ResourceKind::Database, "orders", 0, 0);
    a.set_variant(&lb, Some("alb".into())).unwrap();
    a.set_variant(&api, Some("ec2-asg".into())).unwrap();
    a.set_variant(&db, Some("rds-single-az".into())).unwrap();
    a.place(&db, Some("us-east-1".into()), Some("us-east-1a".into()))
        .unwrap();
    a
}

#[test]
fn sums_priced_variants_worst_first() {
    let r = estimate(&stack(), &ProviderProfile::aws());
    // 23 (alb) + 62 (ec2-asg) + 78 (rds-single-az, zonal) = 163
    assert_eq!(usd(r.total_monthly_cents), 163.0);
    assert_eq!(r.lines[0].resource, "database-1");
    assert!(r.unpriced.is_empty());
}

#[test]
fn regional_placement_of_a_plain_variant_doubles_it() {
    let mut a = stack();
    a.place("database-1", Some("us-east-1".into()), None)
        .unwrap();
    let r = estimate(&a, &ProviderProfile::aws());
    let db = r.lines.iter().find(|l| l.resource == "database-1").unwrap();
    assert_eq!(usd(db.monthly_cents), 156.0);
}

#[test]
fn multi_az_variant_is_not_doubled_when_regional() {
    let mut a = stack();
    a.set_variant("database-1", Some("rds-multi-az".into()))
        .unwrap();
    a.place("database-1", Some("us-east-1".into()), None)
        .unwrap();
    let r = estimate(&a, &ProviderProfile::aws());
    let db = r.lines.iter().find(|l| l.resource == "database-1").unwrap();
    assert_eq!(usd(db.monthly_cents), 156.0);
}

#[test]
fn unconfigured_resource_is_listed_as_unpriced() {
    let mut a = Architecture::new();
    a.add_resource(ResourceKind::Compute, "api", 0, 0);
    let r = estimate(&a, &ProviderProfile::aws());
    assert_eq!(r.unpriced, ["compute-1"]);
    assert_eq!(usd(r.total_monthly_cents), 0.0);
}

#[test]
fn empty_design_costs_nothing() {
    let r = estimate(&Architecture::new(), &ProviderProfile::aws());
    assert_eq!(usd(r.total_monthly_cents), 0.0);
    assert!(r.lines.is_empty());
}

// ---------------------------------------------------------------------------
// Further cases
// ---------------------------------------------------------------------------

#[test]
fn lines_come_most_expensive_first_then_by_id() {
    let r = estimate(&stack(), &ProviderProfile::aws());
    let order: Vec<&str> = r.lines.iter().map(|l| l.resource.as_str()).collect();
    assert_eq!(order, ["database-1", "compute-1", "load-balancer-1"]);
    assert_eq!(r.lines[0].monthly_cents, 7800);
    assert_eq!(r.lines[0].variant, "rds-single-az");
    assert_eq!(r.lines[0].label, "orders");
}

#[test]
fn total_is_the_sum_of_the_lines() {
    let mut a = stack();
    a.place("compute-1", Some("us-east-1".into()), None).unwrap();
    let r = estimate(&a, &ProviderProfile::aws());
    let sum: u64 = r.lines.iter().map(|l| l.monthly_cents).sum();
    assert_eq!(r.total_monthly_cents, sum);
}

#[test]
fn unknown_variant_is_unpriced_and_unpriced_ids_are_sorted() {
    let mut a = Architecture::new();
    let z = a.add_resource(ResourceKind::Queue, "q", 0, 0);
    a.add_resource(ResourceKind::Compute, "c", 0, 0);
    a.set_variant(&z, Some("kafka".into())).unwrap();
    let r = estimate(&a, &ProviderProfile::aws());
    assert_eq!(r.unpriced, ["compute-1", "queue-1"]);
    assert_eq!(r.total_monthly_cents, 0);
}

#[test]
fn redundant_variants_are_recognised() {
    assert!(already_redundant("rds-multi-az"));
    assert!(already_redundant("aurora"));
    assert!(!already_redundant("rds-single-az"));
}
