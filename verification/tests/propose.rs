use strata_core::lint::{lint, Severity};
use strata_core::profile::ProviderProfile;
use strata_core::propose::propose;
use strata_core::{Architecture, ResourceKind};

fn kinds(a: &Architecture) -> Vec<ResourceKind> {
    a.resources.iter().map(|r| r.kind).collect()
}

#[test]
fn plain_web_app_gets_a_sound_three_tier_stack() {
    let a = propose("public web app with a database");
    assert!(kinds(&a).contains(&ResourceKind::LoadBalancer));
    assert!(kinds(&a).contains(&ResourceKind::Compute));
    assert!(kinds(&a).contains(&ResourceKind::Database));
    assert_eq!(a.edges.len(), 2);
    let findings = lint(&a, &ProviderProfile::aws());
    assert!(
        !findings.iter().any(|f| f.severity == Severity::High),
        "default proposal has no high findings, got {:?}",
        findings.iter().map(|f| &f.rule).collect::<Vec<_>>()
    );
}

#[test]
fn budget_prompt_produces_a_single_az_datastore_to_teach_from() {
    let a = propose("quick prototype web app, single database, cheap");
    let db = a
        .resources
        .iter()
        .find(|r| r.kind == ResourceKind::Database)
        .unwrap();
    assert_eq!(db.variant.as_deref(), Some("rds-single-az"));
    assert_eq!(db.placement.az.as_deref(), Some("us-east-1a"));
    let findings = lint(&a, &ProviderProfile::aws());
    assert!(findings.iter().any(|f| f.rule == "single-az-datastore"));
}

#[test]
fn keywords_pull_in_the_matching_tiers() {
    let a = propose(
        "read-heavy web app that also processes background jobs and serves static assets",
    );
    let ks = kinds(&a);
    assert!(ks.contains(&ResourceKind::Cache));
    assert!(ks.contains(&ResourceKind::Queue));
    assert!(ks.contains(&ResourceKind::ObjectStore));
    assert!(ks.contains(&ResourceKind::Cdn));
}

#[test]
fn serverless_prompt_swaps_lb_compute_for_gateway_functions() {
    let a = propose("serverless API with a key-value store");
    let ks = kinds(&a);
    assert!(ks.contains(&ResourceKind::ApiGateway));
    assert!(ks.contains(&ResourceKind::Functions));
    assert!(!ks.contains(&ResourceKind::LoadBalancer));
    let db = a
        .resources
        .iter()
        .find(|r| r.kind == ResourceKind::Database)
        .unwrap();
    assert_eq!(db.variant.as_deref(), Some("dynamodb"));
}

#[test]
fn dr_prompt_adds_health_checked_dns_and_clears_single_region() {
    let a = propose("web app with a database that must survive a region outage");
    assert!(kinds(&a).contains(&ResourceKind::Dns));
    let findings = lint(&a, &ProviderProfile::aws());
    assert!(!findings.iter().any(|f| f.rule == "single-region"));
}

#[test]
fn region_is_read_from_the_prompt() {
    let a = propose("web app hosted in europe");
    assert!(a
        .resources
        .iter()
        .all(|r| r.placement.region.as_deref() == Some("eu-west-1") || r.kind.is_global()));
}

#[test]
fn layout_places_ingress_above_data() {
    let a = propose("web app with a database and a cache");
    let lb = a
        .resources
        .iter()
        .find(|r| r.kind == ResourceKind::LoadBalancer)
        .unwrap();
    let db = a
        .resources
        .iter()
        .find(|r| r.kind == ResourceKind::Database)
        .unwrap();
    assert!(f64::from_bits(lb.y_bits) < f64::from_bits(db.y_bits));
}

#[test]
fn result_is_deterministic() {
    assert_eq!(
        propose("read-heavy web app with async jobs"),
        propose("read-heavy web app with async jobs")
    );
}

// ---------------------------------------------------------------------------
// Further cases
// ---------------------------------------------------------------------------

#[test]
fn proposal_ids_edges_and_positions_are_exact() {
    let a = propose("Serverless API with a DynamoDB table, async email jobs and a SPA frontend; multi-region");
    let ids: Vec<&str> = a.resources.iter().map(|r| r.id.as_str()).collect();
    assert_eq!(
        ids,
        [
            "dns-1",
            "api-gateway-1",
            "functions-1",
            "database-1",
            "queue-1",
            "functions-2",
            "object-store-1",
            "cdn-1"
        ]
    );
    let edges: Vec<(&str, &str)> = a
        .edges
        .iter()
        .map(|e| (e.from.as_str(), e.to.as_str()))
        .collect();
    assert_eq!(
        edges,
        [
            ("dns-1", "api-gateway-1"),
            ("api-gateway-1", "functions-1"),
            ("functions-1", "database-1"),
            ("functions-1", "queue-1"),
            ("functions-2", "queue-1"),
            ("functions-2", "database-1"),
            ("cdn-1", "object-store-1"),
            ("dns-1", "cdn-1"),
        ]
    );
    let pos: Vec<(f64, f64)> = a
        .resources
        .iter()
        .map(|r| (f64::from_bits(r.x_bits), f64::from_bits(r.y_bits)))
        .collect();
    assert_eq!(
        pos,
        [
            (40.0, 24.0),
            (40.0, 128.0),
            (40.0, 232.0),
            (40.0, 440.0),
            (40.0, 336.0),
            (208.0, 232.0),
            (208.0, 440.0),
            (208.0, 24.0)
        ]
    );
    assert!(a.validate().is_empty());
}

#[test]
fn budget_wins_over_key_value_only_when_no_key_value_store_is_asked_for() {
    let a = propose("cheap nosql app");
    let db = a.resources.iter().find(|r| r.kind == ResourceKind::Database).unwrap();
    assert_eq!(db.variant.as_deref(), Some("dynamodb"));
    assert_eq!(db.placement.az, None);
    let b = propose("cheap app in frankfurt");
    let db = b.resources.iter().find(|r| r.kind == ResourceKind::Database).unwrap();
    assert_eq!(db.placement.az.as_deref(), Some("eu-west-1a"));
}

#[test]
fn static_tier_joins_the_rest_without_dns() {
    let a = propose("static site with image uploads");
    let edges: Vec<(&str, &str)> = a
        .edges
        .iter()
        .map(|e| (e.from.as_str(), e.to.as_str()))
        .collect();
    assert_eq!(
        edges,
        [
            ("load-balancer-1", "compute-1"),
            ("compute-1", "database-1"),
            ("compute-1", "object-store-1"),
            ("cdn-1", "object-store-1"),
        ]
    );
    // Every resource touches an edge, and all of them hang together.
    let mut reached = vec![a.resources[0].id.clone()];
    let mut grew = true;
    while grew {
        grew = false;
        for e in &a.edges {
            let (f, t) = (e.from.clone(), e.to.clone());
            if reached.contains(&f) && !reached.contains(&t) {
                reached.push(t);
                grew = true;
            } else if reached.contains(&t) && !reached.contains(&f) {
                reached.push(f);
                grew = true;
            }
        }
    }
    assert_eq!(reached.len(), a.resources.len());
}
