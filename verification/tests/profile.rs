use strata_core::profile::ProviderProfile;
use strata_core::ResourceKind;

#[test]
fn bundled_aws_profile_parses() {
    let p = ProviderProfile::aws();
    assert_eq!(p.provider, "aws");
    assert!(p.region("us-east-1").is_some());
    assert!(p.has_az("us-east-1", "us-east-1a"));
    assert!(!p.has_az("us-east-1", "eu-west-1a"));
}

#[test]
fn variant_lookup_reads_the_spof_flag() {
    let p = ProviderProfile::aws();
    assert!(
        p.variant(ResourceKind::Database, "rds-single-az")
            .unwrap()
            .spof
    );
    let multi = p.variant(ResourceKind::Database, "rds-multi-az").unwrap();
    assert!(!multi.spof);
    assert_eq!(multi.failover_seconds, Some(90));
    assert!(p.variant(ResourceKind::Database, "nope").is_none());
}

#[test]
fn variants_are_looked_up_per_kind() {
    let p = ProviderProfile::aws();
    assert!(p.variant(ResourceKind::Compute, "rds-single-az").is_none());
    assert!(p.variant(ResourceKind::LoadBalancer, "alb").is_some());
    assert_eq!(p.display_name, "Amazon Web Services");
    assert!(p.region("mars-north-1").is_none());
    assert!(!p.has_az("mars-north-1", "mars-north-1a"));
    assert!(p.has_az("eu-west-1", "eu-west-1a"));
}
