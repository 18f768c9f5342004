use strata_core::iac::align::{align, split_attr};
use strata_core::iac::deps::primary_address;
use strata_core::iac::hcl::{local_name, quote};
use strata_core::iac::{emit_terraform, var_type, Hcl};
use strata_core::profile::ProviderProfile;
use strata_core::{Architecture, ResourceKind};

fn aws() -> ProviderProfile {
    ProviderProfile::aws()
}

/// Collapse whitespace so substring checks ignore `terraform fmt` alignment.
fn norm(s: &str) -> String {
    s.lines()
        .map(|l| l.split_whitespace().collect::<Vec<_>>().join(" "))
        .collect::<Vec<_>>()
        .join("\n")
}

fn one(kind: ResourceKind, variant: &str) -> Architecture {
    let mut a = Architecture::new();
    let id = a.add_resource(kind, "thing", 0, 0);
    a.set_variant(&id, Some(variant.into())).unwrap();
    a
}

#[test]
fn empty_arch_emits_scaffold_only() {
    let out = emit_terraform(&Architecture::new(), &aws());
    assert!(norm(&out).contains("terraform {"));
    assert!(norm(&out).contains("provider \"aws\""));
    assert!(norm(&out).contains("# no resources yet"));
    assert!(!norm(&out).contains("resource \""));
}

#[test]
fn unconfigured_resource_emits_comment_and_no_block() {
    let mut a = Architecture::new();
    a.add_resource(ResourceKind::Compute, "api", 0, 0);
    let out = emit_terraform(&a, &aws());
    assert!(norm(&out).contains("# compute-1 (compute) has no Amazon Web Services variant"));
    assert!(!norm(&out).contains("resource \"aws_"));
}

#[test]
fn s3_bucket_snapshot() {
    let out = emit_terraform(&one(ResourceKind::ObjectStore, "s3"), &aws());
    let expected = r#"terraform {
  required_providers {
    aws = {
      source  = "hashicorp/aws"
      version = "~> 5.0"
    }
  }
}

provider "aws" {
  region = var.aws_region
}

variable "aws_region" {
  type = string
}

variable "name_prefix" {
  type = string
}

resource "aws_s3_bucket" "object_store_1" {
  bucket = "${var.name_prefix}-object-store-1"
  tags = {
    "strata:id" = "object-store-1"
    Name        = "thing"
  }
}
"#;
    assert_eq!(out, expected);
}

#[test]
fn rds_single_az_sets_multi_az_false_and_zone() {
    let mut a = one(ResourceKind::Database, "rds-single-az");
    a.place(
        "database-1",
        Some("us-east-1".into()),
        Some("us-east-1a".into()),
    )
    .unwrap();
    let out = emit_terraform(&a, &aws());
    assert!(norm(&out).contains("multi_az = false"));
    assert!(norm(&out).contains("availability_zone = \"us-east-1a\""));
}

#[test]
fn rds_multi_az_flips_flag_and_drops_zone() {
    let mut a = one(ResourceKind::Database, "rds-multi-az");
    a.place("database-1", Some("us-east-1".into()), None)
        .unwrap();
    let out = emit_terraform(&a, &aws());
    assert!(norm(&out).contains("multi_az = true"));
    assert!(!norm(&out).contains("availability_zone ="));
}

#[test]
fn aurora_emits_cluster_and_instance() {
    let out = emit_terraform(&one(ResourceKind::Database, "aurora"), &aws());
    assert!(norm(&out).contains("resource \"aws_rds_cluster\" \"database_1\""));
    assert!(norm(&out).contains("resource \"aws_rds_cluster_instance\" \"database_1\""));
    assert!(norm(&out).contains("count = 2"));
}

#[test]
fn dynamodb_table() {
    let out = emit_terraform(&one(ResourceKind::Database, "dynamodb"), &aws());
    assert!(norm(&out).contains("resource \"aws_dynamodb_table\" \"database_1\""));
    assert!(norm(&out).contains("billing_mode = \"PAY_PER_REQUEST\""));
}

#[test]
fn ec2_asg_emits_launch_template_and_group() {
    let out = emit_terraform(&one(ResourceKind::Compute, "ec2-asg"), &aws());
    assert!(norm(&out).contains("resource \"aws_launch_template\" \"compute_1\""));
    assert!(norm(&out).contains("resource \"aws_autoscaling_group\" \"compute_1\""));
    assert!(norm(&out).contains("vpc_zone_identifier = var.subnet_ids"));
}

#[test]
fn zonal_asg_uses_availability_zones() {
    let mut a = one(ResourceKind::Compute, "ec2-asg");
    a.place(
        "compute-1",
        Some("us-east-1".into()),
        Some("us-east-1b".into()),
    )
    .unwrap();
    let out = emit_terraform(&a, &aws());
    assert!(norm(&out).contains("availability_zones = [\"us-east-1b\"]"));
    assert!(!norm(&out).contains("vpc_zone_identifier"));
}

#[test]
fn alb_emits_lb_listener_and_target_group() {
    let out = emit_terraform(&one(ResourceKind::LoadBalancer, "alb"), &aws());
    assert!(norm(&out).contains("resource \"aws_lb\" \"load_balancer_1\""));
    assert!(norm(&out).contains("resource \"aws_lb_listener\" \"load_balancer_1\""));
    assert!(norm(&out).contains("resource \"aws_lb_target_group\" \"load_balancer_1\""));
}

#[test]
fn alb_to_compute_edge_wires_target_group_arns() {
    let mut a = Architecture::new();
    let lb = a.add_resource(ResourceKind::LoadBalancer, "edge", 0, 0);
    let api = a.add_resource(ResourceKind::Compute, "api", 0, 0);
    a.connect(&lb, &api).unwrap();
    a.set_variant(&lb, Some("alb".into())).unwrap();
    a.set_variant(&api, Some("ec2-asg".into())).unwrap();
    let out = emit_terraform(&a, &aws());
    assert!(norm(&out).contains("target_group_arns = [aws_lb_target_group.load_balancer_1.arn]"));
    assert!(!norm(&out).contains("depends_on = [aws_autoscaling_group.compute_1]"));
}

#[test]
fn other_edges_emit_sorted_depends_on() {
    let mut a = Architecture::new();
    let api = a.add_resource(ResourceKind::Compute, "api", 0, 0);
    let db = a.add_resource(ResourceKind::Database, "orders", 0, 0);
    let cache = a.add_resource(ResourceKind::Cache, "sess", 0, 0);
    a.connect(&api, &db).unwrap();
    a.connect(&api, &cache).unwrap();
    a.set_variant(&api, Some("ec2-asg".into())).unwrap();
    a.set_variant(&db, Some("rds-multi-az".into())).unwrap();
    a.set_variant(&cache, Some("elasticache".into())).unwrap();
    let out = emit_terraform(&a, &aws());
    assert!(norm(&out).contains(
        "depends_on = [aws_db_instance.database_1, aws_elasticache_replication_group.cache_1]"
    ));
}

#[test]
fn cloudfront_takes_its_origin_from_an_alb_dependency() {
    let mut a = Architecture::new();
    let cdn = a.add_resource(ResourceKind::Cdn, "edge", 0, 0);
    let lb = a.add_resource(ResourceKind::LoadBalancer, "alb", 0, 0);
    a.connect(&cdn, &lb).unwrap();
    a.set_variant(&cdn, Some("cloudfront".into())).unwrap();
    a.set_variant(&lb, Some("alb".into())).unwrap();
    let out = emit_terraform(&a, &aws());
    assert!(norm(&out).contains("domain_name = aws_lb.load_balancer_1.dns_name"));
    assert!(!norm(&out).contains("origin_domain"));
}

#[test]
fn route53_aliases_to_a_cloudfront_dependency() {
    let mut a = Architecture::new();
    let dns = a.add_resource(ResourceKind::Dns, "zone", 0, 0);
    let cdn = a.add_resource(ResourceKind::Cdn, "edge", 0, 0);
    a.connect(&dns, &cdn).unwrap();
    a.set_variant(&dns, Some("route53".into())).unwrap();
    a.set_variant(&cdn, Some("cloudfront".into())).unwrap();
    let out = emit_terraform(&a, &aws());
    assert!(norm(&out).contains("alias {"));
    assert!(norm(&out).contains("name = aws_cloudfront_distribution.cdn_1.domain_name"));
}

#[test]
fn apigw_wires_a_lambda_integration_and_route() {
    let mut a = Architecture::new();
    let api = a.add_resource(ResourceKind::ApiGateway, "gw", 0, 0);
    let f = a.add_resource(ResourceKind::Functions, "handler", 0, 0);
    a.connect(&api, &f).unwrap();
    a.set_variant(&api, Some("apigw-http".into())).unwrap();
    a.set_variant(&f, Some("lambda".into())).unwrap();
    let out = emit_terraform(&a, &aws());
    assert!(out.contains("resource \"aws_apigatewayv2_integration\" \"api_gateway_1_functions_1\""));
    assert!(norm(&out).contains("integration_uri = aws_lambda_function.functions_1.invoke_arn"));
    assert!(norm(&out).contains("resource \"aws_apigatewayv2_route\" \"api_gateway_1_functions_1\""));
}

#[test]
fn sqs_queue() {
    let out = emit_terraform(&one(ResourceKind::Queue, "sqs"), &aws());
    assert!(norm(&out).contains("resource \"aws_sqs_queue\" \"queue_1\""));
}

#[test]
fn only_referenced_variables_are_emitted() {
    let out = emit_terraform(&one(ResourceKind::ObjectStore, "s3"), &aws());
    assert!(norm(&out).contains("variable \"name_prefix\""));
    assert!(norm(&out).contains("variable \"aws_region\""));
    assert!(!norm(&out).contains("variable \"ami_id\""));
    assert!(!norm(&out).contains("variable \"vpc_id\""));
}

/// alb -> compute -> rds-multi-az, all regional in us-east-1.
fn demo_arch() -> Architecture {
    let mut a = Architecture::new();
    let lb = a.add_resource(ResourceKind::LoadBalancer, "edge", 0, 0);
    let api = a.add_resource(ResourceKind::Compute, "api", 0, 0);
    let db = a.add_resource(ResourceKind::Database, "orders", 0, 0);
    a.connect(&lb, &api).unwrap();
    a.connect(&api, &db).unwrap();
    a.set_variant(&lb, Some("alb".into())).unwrap();
    a.place(&lb, Some("us-east-1".into()), None).unwrap();
    a.set_variant(&api, Some("ec2-asg".into())).unwrap();
    a.place(&api, Some("us-east-1".into()), None).unwrap();
    a.set_variant(&db, Some("rds-multi-az".into())).unwrap();
    a.place(&db, Some("us-east-1".into()), None).unwrap();
    a
}

#[test]
fn output_is_byte_stable_across_calls() {
    let a = demo_arch();
    assert_eq!(emit_terraform(&a, &aws()), emit_terraform(&a, &aws()));
}

#[test]
fn resources_emit_in_id_order() {
    let a = demo_arch();
    let out = emit_terraform(&a, &aws());
    let db = out.find("\"database_1\"").unwrap();
    let lb = out.find("\"load_balancer_1\"").unwrap();
    assert!(db < lb, "database-1 block should precede load-balancer-1");
}

#[test]
fn local_names_sanitize_hyphens() {
    let out = emit_terraform(&one(ResourceKind::LoadBalancer, "alb"), &aws());
    assert!(norm(&out).contains("\"aws_lb\" \"load_balancer_1\""));
}

#[test]
fn full_demo_arch_contains_the_key_wires() {
    let out = emit_terraform(&demo_arch(), &aws());
    assert!(norm(&out).contains("resource \"aws_autoscaling_group\" \"compute_1\""));
    assert!(norm(&out).contains("resource \"aws_db_instance\" \"database_1\""));
    assert!(norm(&out).contains("multi_az = true"));
    assert!(norm(&out).contains("target_group_arns = [aws_lb_target_group.load_balancer_1.arn]"));
    assert!(norm(&out).contains("depends_on = [aws_db_instance.database_1]"));
    assert!(norm(&out).contains("variable \"vpc_id\""));
}

// ---------------------------------------------------------------------------
// Further cases
// ---------------------------------------------------------------------------

#[test]
fn unrecognised_variant_is_skipped_with_a_note() {
    let out = emit_terraform(&one(ResourceKind::Queue, "kafka"), &aws());
    assert!(out.contains("# queue-1 (queue) has an unrecognised variant \"kafka\" — skipped"));
    assert!(!out.contains("resource \"aws_"));
}

#[test]
fn helpers_quote_name_and_type() {
    assert_eq!(quote("a\"b\\c\nd\te"), "\"a\\\"b\\\\c\\nd\\te\"");
    assert_eq!(local_name("load-balancer-1"), "load_balancer_1");
    assert_eq!(var_type("subnet_ids"), "list(string)");
    assert_eq!(var_type("security_group_ids"), "list(string)");
    assert_eq!(var_type("vpc_id"), "string");
    assert_eq!(
        primary_address(ResourceKind::Database, "rds-single-az", "database-1"),
        Some("aws_db_instance.database_1".to_string())
    );
    assert_eq!(primary_address(ResourceKind::Database, "nope", "database-1"), None);
}

#[test]
fn split_attr_recognises_alignable_lines_only() {
    assert_eq!(
        split_attr("  name = \"x\""),
        Some(("  ".to_string(), "name".to_string(), "\"x\"".to_string()))
    );
    assert_eq!(
        split_attr("\"strata:id\" = \"a\""),
        Some(("".to_string(), "\"strata:id\"".to_string(), "\"a\"".to_string()))
    );
    assert_eq!(split_attr("tags = {"), None);
    assert_eq!(split_attr("# a = b"), None);
    assert_eq!(split_attr("a-b = c"), None);
    assert_eq!(split_attr("no equals here"), None);
}

#[test]
fn align_pads_keys_in_a_run_and_breaks_on_indent() {
    let src = "a = 1\nlong_key = 2\n  b = 3\nc = 4";
    assert_eq!(align(src), "a        = 1\nlong_key = 2\n  b = 3\nc = 4");
    assert_eq!(align(""), "");
    assert_eq!(align("x = 1\n\ny = 22"), "x = 1\n\ny = 22");
}

#[test]
fn hcl_writer_indents_blocks() {
    let mut h = Hcl::new();
    h.open("a");
    h.attr("k", "v");
    h.comment("note");
    h.pad();
    h.line("raw");
    h.close();
    h.close();
    h.blank();
    assert_eq!(h.buf, "a {\n  k = v\n  # note\n    raw\n}\n}\n\n");
    assert_eq!(h.indent, 0);
}

#[test]
fn all_unconfigured_design_gets_the_no_resources_note() {
    let mut a = Architecture::new();
    a.add_resource(ResourceKind::Compute, "api", 0, 0);
    let out = emit_terraform(&a, &aws());
    assert!(out.contains("# compute-1 (compute) has no Amazon Web Services variant"));
    assert!(out.contains("# no resources yet"));
    let configured = emit_terraform(&one(ResourceKind::Queue, "sqs"), &aws());
    assert!(!configured.contains("# no resources yet"));
}

#[test]
fn recognised_variant_without_emitter_gets_only_its_comment() {
    let out = emit_terraform(&one(ResourceKind::Compute, "fargate"), &aws());
    assert!(out.contains("is recognised but has no emitter yet"));
    assert!(!out.contains("# no resources yet"));
    assert!(!out.contains("resource \"aws_"));
}

#[test]
fn align_is_idempotent_and_keeps_every_line() {
    let src = "resource \"aws_instance\" \"web\" {\n  ami = \"ami-1\"\n  instance_type = \"t3.micro\"\n  # note = ignored\n  \"quoted key\" = 1\n  tags = {\n    Name = \"web\"\n  }\n}\n";
    let once = align(src);
    assert_eq!(align(&once), once);
    assert_eq!(once.split('\n').count(), src.split('\n').count());
    assert_eq!(
        once,
        "resource \"aws_instance\" \"web\" {\n  ami           = \"ami-1\"\n  instance_type = \"t3.micro\"\n  # note = ignored\n  \"quoted key\" = 1\n  tags = {\n    Name = \"web\"\n  }\n}\n"
    );
    for (a, b) in src.split('\n').zip(once.split('\n')) {
        assert_eq!(a.replace(' ', ""), b.replace(' ', ""));
    }
}

#[test]
fn listing_order_does_not_change_the_document() {
    let a = demo_arch();
    let mut b = a.clone();
    b.resources.reverse();
    b.edges.reverse();
    b.counters.reverse();
    assert_eq!(emit_terraform(&a, &aws()), emit_terraform(&b, &aws()));
    let mut c = a.clone();
    c.resources.rotate_left(1);
    assert_eq!(emit_terraform(&a, &aws()), emit_terraform(&c, &aws()));
}
