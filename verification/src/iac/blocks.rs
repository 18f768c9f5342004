//! One emitter per (kind, variant): the HCL blocks a configured resource
//! becomes, and the input variables those blocks reference.

use vstd::prelude::*;

use crate::iac::deps::{
    alb_wired_compute, depends_on_ops, inbound_alb_target_groups, inbound_target_groups,
    resolved_deps, wired_compute, write_depends_on,
};
use crate::iac::deps::{deps_view, resolve_deps};
use crate::iac::hcl::{spec_local_name, local_name, spec_quote, quote, tags_ops, Hcl, HclOp};
use crate::seqs::{find_map, lemma_find_map_skip};
use crate::text::str_eq;
use crate::profile::{find_group, find_variant, spec_aws, spec_variant};
use crate::ResourceKind;
use crate::text::{cat, cat3, insert_sorted, join, join_exec, strictly_sorted, views};
use crate::{spec_slug, ArchView, Architecture, Resource, ResourceView};

verus! {

/// `resource "<ty>" "<name>"`.
pub open spec fn res_header(ty: Seq<char>, name: Seq<char>) -> Seq<char> {
    "resource \""@ + ty + "\" \""@ + name + "\""@
}

/// `"${var.name_prefix}-<id>"`.
pub open spec fn prefixed(id: Seq<char>) -> Seq<char> {
    spec_quote("${var.name_prefix}-"@ + id)
}

fn res_header_exec(ty: &str, name: &str) -> (s: String)
    ensures
        s@ == res_header(ty@, name@),
{
    let a = cat3("resource \"", ty, "\" \"");
    cat3(a.as_str(), name, "\"")
}

fn prefixed_exec(id: &str) -> (s: String)
    ensures
        s@ == prefixed(id@),
{
    quote(cat("${var.name_prefix}-", id).as_str())
}

/// What every emitter may assume of the writer and the variable list.
pub open spec fn ready(h: Hcl, vars: Seq<String>) -> bool {
    &&& h.wf()
    &&& h.indent <= 16
    &&& strictly_sorted(views(vars))
}

// ---------------------------------------------------------------------------
// Object store, queue, key-value table
// ---------------------------------------------------------------------------

pub open spec fn s3_ops(a: ArchView, r: ResourceView, ln: Seq<char>) -> Seq<HclOp> {
    seq![
        HclOp::Open(res_header("aws_s3_bucket"@, ln)),
        HclOp::Attr("bucket"@, prefixed(r.id)),
    ] + depends_on_ops(a, r.id, Seq::empty()) + tags_ops(r) + seq![HclOp::Close]
}

fn emit_s3(h: &mut Hcl, arch: &Architecture, r: &Resource, ln: &str, vars: &mut Vec<String>)
    requires
        ready(*old(h), old(vars)@),
    ensures
        ready(*final(h), final(vars)@),
        final(h).indent == old(h).indent,
        final(h).ops@ == old(h).ops@ + s3_ops(arch@, r@, ln@),
        views(final(vars)@).to_set() == views(old(vars)@).to_set().insert("name_prefix"@),
{
    let ghost ops0 = h.ops@;
    insert_sorted(vars, "name_prefix");
    h.open(res_header_exec("aws_s3_bucket", ln).as_str());
    h.attr("bucket", prefixed_exec(r.id.as_str()).as_str());
    let ghost ops1 = h.ops@;
    let none: Vec<String> = Vec::new();
    write_depends_on(h, arch, r.id.as_str(), &none);
    assert(views(none@) =~= Seq::<Seq<char>>::empty());
    h.strata_tags(r);
    h.close();
    assert(h.ops@ =~= ops0 + s3_ops(arch@, r@, ln@));
}


fn no_wires() -> (v: Vec<String>)
    ensures
        views(v@) == Seq::<Seq<char>>::empty(),
{
    let v: Vec<String> = Vec::new();
    assert(views(v@) =~= Seq::<Seq<char>>::empty());
    v
}

pub open spec fn sqs_ops(a: ArchView, r: ResourceView, ln: Seq<char>) -> Seq<HclOp> {
    seq![
        HclOp::Open(res_header("aws_sqs_queue"@, ln)),
        HclOp::Attr("name"@, prefixed(r.id)),
    ] + depends_on_ops(a, r.id, Seq::empty()) + tags_ops(r) + seq![HclOp::Close]
}

fn emit_sqs(h: &mut Hcl, arch: &Architecture, r: &Resource, ln: &str, vars: &mut Vec<String>)
    requires
        ready(*old(h), old(vars)@),
    ensures
        ready(*final(h), final(vars)@),
        final(h).indent == old(h).indent,
        final(h).ops@ == old(h).ops@ + sqs_ops(arch@, r@, ln@),
        views(final(vars)@).to_set() == views(old(vars)@).to_set().insert("name_prefix"@),
{
    let ghost ops0 = h.ops@;
    insert_sorted(vars, "name_prefix");
    h.open(res_header_exec("aws_sqs_queue", ln).as_str());
    h.attr("name", prefixed_exec(r.id.as_str()).as_str());
    write_depends_on(h, arch, r.id.as_str(), &no_wires());
    h.strata_tags(r);
    h.close();
    assert(h.ops@ =~= ops0 + sqs_ops(arch@, r@, ln@));
}

pub open spec fn dynamodb_ops(a: ArchView, r: ResourceView, ln: Seq<char>) -> Seq<HclOp> {
    seq![
        HclOp::Open(res_header("aws_dynamodb_table"@, ln)),
        HclOp::Attr("name"@, spec_quote(r.id)),
        HclOp::Attr("billing_mode"@, "\"PAY_PER_REQUEST\""@),
        HclOp::Attr("hash_key"@, "\"id\""@),
        HclOp::Open("attribute"@),
        HclOp::Attr("name"@, "\"id\""@),
        HclOp::Attr("type"@, "\"S\""@),
        HclOp::Close,
    ] + depends_on_ops(a, r.id, Seq::empty()) + tags_ops(r) + seq![HclOp::Close]
}

fn emit_dynamodb(h: &mut Hcl, arch: &Architecture, r: &Resource, ln: &str)
    requires
        old(h).wf(),
        old(h).indent <= 16,
    ensures
        final(h).wf(),
        final(h).indent == old(h).indent,
        final(h).ops@ == old(h).ops@ + dynamodb_ops(arch@, r@, ln@),
{
    let ghost ops0 = h.ops@;
    h.open(res_header_exec("aws_dynamodb_table", ln).as_str());
    h.attr("name", quote(r.id.as_str()).as_str());
    h.attr("billing_mode", "\"PAY_PER_REQUEST\"");
    h.attr("hash_key", "\"id\"");
    h.open("attribute");
    h.attr("name", "\"id\"");
    h.attr("type", "\"S\"");
    h.close();
    let ghost ops1 = h.ops@;
    write_depends_on(h, arch, r.id.as_str(), &no_wires());
    h.strata_tags(r);
    h.close();
    assert(h.ops@ =~= ops0 + dynamodb_ops(arch@, r@, ln@));
}

// ---------------------------------------------------------------------------
// Relational databases and cache
// ---------------------------------------------------------------------------

pub open spec fn rds_head(r: ResourceView, ln: Seq<char>, multi_az: bool) -> Seq<HclOp> {
    seq![
        HclOp::Open(res_header("aws_db_instance"@, ln)),
        HclOp::Attr("identifier"@, prefixed(r.id)),
        HclOp::Attr("engine"@, "\"postgres\""@),
        HclOp::Attr("instance_class"@, "\"db.t3.micro\""@),
        HclOp::Attr("allocated_storage"@, "20"@),
        HclOp::Attr(
            "multi_az"@,
            if multi_az {
                "true"@
            } else {
                "false"@
            },
        ),
    ]
}

/// The pinned zone of a single-AZ instance, when it has one.
pub open spec fn rds_zone(r: ResourceView, multi_az: bool) -> Seq<HclOp> {
    match r.placement.az {
        Some(z) => if multi_az {
            Seq::empty()
        } else {
            seq![HclOp::Attr("availability_zone"@, spec_quote(z))]
        },
        None => Seq::empty(),
    }
}

pub open spec fn rds_access() -> Seq<HclOp> {
    seq![
        HclOp::Attr("vpc_security_group_ids"@, "var.security_group_ids"@),
        HclOp::Attr("manage_master_user_password"@, "true"@),
        HclOp::Attr("username"@, "\"app\""@),
        HclOp::Attr("skip_final_snapshot"@, "true"@),
        HclOp::Comment("db_subnet_group_name: attach to your VPC's DB subnet group"@),
    ]
}

pub open spec fn rds_ops(a: ArchView, r: ResourceView, ln: Seq<char>, multi_az: bool) -> Seq<HclOp> {
    rds_head(r, ln, multi_az) + rds_zone(r, multi_az) + rds_access() + depends_on_ops(
        a,
        r.id,
        Seq::empty(),
    ) + tags_ops(r) + seq![HclOp::Close]
}

#[verifier::rlimit(30)]
fn emit_rds(
    h: &mut Hcl,
    arch: &Architecture,
    r: &Resource,
    ln: &str,
    multi_az: bool,
    vars: &mut Vec<String>,
)
    requires
        ready(*old(h), old(vars)@),
    ensures
        ready(*final(h), final(vars)@),
        final(h).indent == old(h).indent,
        final(h).ops@ == old(h).ops@ + rds_ops(arch@, r@, ln@, multi_az),
        views(final(vars)@).to_set() == views(old(vars)@).to_set().insert("name_prefix"@).insert(
            "security_group_ids"@,
        ),
{
    let ghost ops0 = h.ops@;
    insert_sorted(vars, "name_prefix");
    insert_sorted(vars, "security_group_ids");
    h.open(res_header_exec("aws_db_instance", ln).as_str());
    h.attr("identifier", prefixed_exec(r.id.as_str()).as_str());
    h.attr("engine", "\"postgres\"");
    h.attr("instance_class", "\"db.t3.micro\"");
    h.attr("allocated_storage", "20");
    h.attr(
        "multi_az",
        if multi_az {
            "true"
        } else {
            "false"
        },
    );
    assert(h.ops@ =~= ops0 + rds_head(r@, ln@, multi_az));
    let ghost ops1 = h.ops@;
    if !multi_az {
        match &r.placement.az {
            Some(az) => h.attr("availability_zone", quote(az.as_str()).as_str()),
            None => {},
        }
    }
    assert(h.ops@ =~= ops1 + rds_zone(r@, multi_az));
    let ghost ops2 = h.ops@;
    h.attr("vpc_security_group_ids", "var.security_group_ids");
    h.attr("manage_master_user_password", "true");
    h.attr("username", "\"app\"");
    h.attr("skip_final_snapshot", "true");
    h.comment("db_subnet_group_name: attach to your VPC's DB subnet group");
    assert(h.ops@ =~= ops2 + rds_access());
    let ghost ops3 = h.ops@;
    write_depends_on(h, arch, r.id.as_str(), &no_wires());
    h.strata_tags(r);
    h.close();
    assert(h.ops@ =~= ops3 + depends_on_ops(arch@, r@.id, Seq::empty()) + tags_ops(r@) + seq![HclOp::Close]);
    assert(h.ops@ =~= ops0 + rds_ops(arch@, r@, ln@, multi_az));
}

pub open spec fn aurora_cluster(r: ResourceView, ln: Seq<char>) -> Seq<HclOp> {
    seq![
        HclOp::Open(res_header("aws_rds_cluster"@, ln)),
        HclOp::Attr("cluster_identifier"@, prefixed(r.id)),
        HclOp::Attr("engine"@, "\"aurora-postgresql\""@),
        HclOp::Attr("vpc_security_group_ids"@, "var.security_group_ids"@),
        HclOp::Attr("manage_master_user_password"@, "true"@),
        HclOp::Attr("master_username"@, "\"app\""@),
        HclOp::Attr("skip_final_snapshot"@, "true"@),
        HclOp::Comment("db_subnet_group_name: attach to your VPC's DB subnet group"@),
    ]
}

pub open spec fn aurora_instances(r: ResourceView, ln: Seq<char>) -> Seq<HclOp> {
    seq![
        HclOp::Open(res_header("aws_rds_cluster_instance"@, ln)),
        HclOp::Attr("count"@, "2"@),
        HclOp::Attr("identifier"@, spec_quote("${var.name_prefix}-"@ + r.id + "-${count.index}"@)),
        HclOp::Attr("cluster_identifier"@, "aws_rds_cluster."@ + ln + ".id"@),
        HclOp::Attr("engine"@, "\"aurora-postgresql\""@),
        HclOp::Attr("instance_class"@, "\"db.t3.medium\""@),
        HclOp::Close,
    ]
}

pub open spec fn aurora_ops(a: ArchView, r: ResourceView, ln: Seq<char>) -> Seq<HclOp> {
    aurora_cluster(r, ln) + depends_on_ops(a, r.id, Seq::empty()) + tags_ops(r) + seq![
        HclOp::Close,
        HclOp::Blank,
    ] + aurora_instances(r, ln)
}

#[verifier::rlimit(30)]
fn emit_aurora(h: &mut Hcl, arch: &Architecture, r: &Resource, ln: &str, vars: &mut Vec<String>)
    requires
        ready(*old(h), old(vars)@),
    ensures
        ready(*final(h), final(vars)@),
        final(h).indent == old(h).indent,
        final(h).ops@ == old(h).ops@ + aurora_ops(arch@, r@, ln@),
        views(final(vars)@).to_set() == views(old(vars)@).to_set().insert("name_prefix"@).insert(
            "security_group_ids"@,
        ),
{
    let ghost ops0 = h.ops@;
    insert_sorted(vars, "name_prefix");
    insert_sorted(vars, "security_group_ids");
    h.open(res_header_exec("aws_rds_cluster", ln).as_str());
    h.attr("cluster_identifier", prefixed_exec(r.id.as_str()).as_str());
    h.attr("engine", "\"aurora-postgresql\"");
    h.attr("vpc_security_group_ids", "var.security_group_ids");
    h.attr("manage_master_user_password", "true");
    h.attr("master_username", "\"app\"");
    h.attr("skip_final_snapshot", "true");
    h.comment("db_subnet_group_name: attach to your VPC's DB subnet group");
    assert(h.ops@ =~= ops0 + aurora_cluster(r@, ln@));
    let ghost ops1 = h.ops@;
    write_depends_on(h, arch, r.id.as_str(), &no_wires());
    h.strata_tags(r);
    h.close();
    h.blank();
    assert(h.ops@ =~= ops1 + depends_on_ops(arch@, r@.id, Seq::empty()) + tags_ops(r@) + seq![HclOp::Close, HclOp::Blank]);
    let ghost ops2 = h.ops@;
    h.open(res_header_exec("aws_rds_cluster_instance", ln).as_str());
    h.attr("count", "2");
    let ident = cat3("${var.name_prefix}-", r.id.as_str(), "-${count.index}");
    h.attr("identifier", quote(ident.as_str()).as_str());
    h.attr("cluster_identifier", cat3("aws_rds_cluster.", ln, ".id").as_str());
    h.attr("engine", "\"aurora-postgresql\"");
    h.attr("instance_class", "\"db.t3.medium\"");
    h.close();
    assert(h.ops@ =~= ops2 + aurora_instances(r@, ln@));
    assert(h.ops@ =~= ops0 + aurora_ops(arch@, r@, ln@));
}

pub open spec fn elasticache_ops(a: ArchView, r: ResourceView, ln: Seq<char>) -> Seq<HclOp> {
    seq![
        HclOp::Open(res_header("aws_elasticache_replication_group"@, ln)),
        HclOp::Attr("replication_group_id"@, prefixed(r.id)),
        HclOp::Attr("description"@, spec_quote(r.label)),
        HclOp::Attr("engine"@, "\"redis\""@),
        HclOp::Attr("node_type"@, "\"cache.t3.micro\""@),
        HclOp::Attr("num_cache_clusters"@, "2"@),
        HclOp::Attr("automatic_failover_enabled"@, "true"@),
        HclOp::Attr("multi_az_enabled"@, "true"@),
        HclOp::Attr("security_group_ids"@, "var.security_group_ids"@),
        HclOp::Comment("subnet_group_name: attach to your VPC's cache subnet group"@),
    ] + depends_on_ops(a, r.id, Seq::empty()) + tags_ops(r) + seq![HclOp::Close]
}

fn emit_elasticache(
    h: &mut Hcl,
    arch: &Architecture,
    r: &Resource,
    ln: &str,
    vars: &mut Vec<String>,
)
    requires
        ready(*old(h), old(vars)@),
    ensures
        ready(*final(h), final(vars)@),
        final(h).indent == old(h).indent,
        final(h).ops@ == old(h).ops@ + elasticache_ops(arch@, r@, ln@),
        views(final(vars)@).to_set() == views(old(vars)@).to_set().insert("name_prefix"@).insert(
            "security_group_ids"@,
        ),
{
    let ghost ops0 = h.ops@;
    insert_sorted(vars, "name_prefix");
    insert_sorted(vars, "security_group_ids");
    h.open(res_header_exec("aws_elasticache_replication_group", ln).as_str());
    h.attr("replication_group_id", prefixed_exec(r.id.as_str()).as_str());
    h.attr("description", quote(r.label.as_str()).as_str());
    h.attr("engine", "\"redis\"");
    h.attr("node_type", "\"cache.t3.micro\"");
    h.attr("num_cache_clusters", "2");
    h.attr("automatic_failover_enabled", "true");
    h.attr("multi_az_enabled", "true");
    h.attr("security_group_ids", "var.security_group_ids");
    h.comment("subnet_group_name: attach to your VPC's cache subnet group");
    write_depends_on(h, arch, r.id.as_str(), &no_wires());
    h.strata_tags(r);
    h.close();
    assert(h.ops@ =~= ops0 + elasticache_ops(arch@, r@, ln@));
}

// ---------------------------------------------------------------------------
// Functions
// ---------------------------------------------------------------------------

pub open spec fn lambda_ops(a: ArchView, r: ResourceView, ln: Seq<char>) -> Seq<HclOp> {
    seq![
        HclOp::Open(res_header("aws_lambda_function"@, ln)),
        HclOp::Attr("function_name"@, prefixed(r.id)),
        HclOp::Attr("runtime"@, "\"nodejs20.x\""@),
        HclOp::Attr("handler"@, "\"index.handler\""@),
        HclOp::Attr("filename"@, "var."@ + ln + "_package"@),
        HclOp::Attr("role"@, "var."@ + ln + "_role_arn"@),
        HclOp::Comment("role: an IAM role ARN — IAM is not modelled by the studio"@),
        HclOp::Attr("timeout"@, "30"@),
        HclOp::Attr("memory_size"@, "256"@),
    ] + depends_on_ops(a, r.id, Seq::empty()) + tags_ops(r) + seq![HclOp::Close]
}

fn emit_lambda(h: &mut Hcl, arch: &Architecture, r: &Resource, ln: &str, vars: &mut Vec<String>)
    requires
        ready(*old(h), old(vars)@),
    ensures
        ready(*final(h), final(vars)@),
        final(h).indent == old(h).indent,
        final(h).ops@ == old(h).ops@ + lambda_ops(arch@, r@, ln@),
        views(final(vars)@).to_set() == views(old(vars)@).to_set().insert("name_prefix"@).insert(
            ln@ + "_package"@,
        ).insert(ln@ + "_role_arn"@),
{
    let ghost ops0 = h.ops@;
    insert_sorted(vars, "name_prefix");
    let pkg = cat(ln, "_package");
    let role = cat(ln, "_role_arn");
    insert_sorted(vars, pkg.as_str());
    insert_sorted(vars, role.as_str());
    assert("var."@ + pkg@ =~= "var."@ + ln@ + "_package"@);
    assert("var."@ + role@ =~= "var."@ + ln@ + "_role_arn"@);
    h.open(res_header_exec("aws_lambda_function", ln).as_str());
    h.attr("function_name", prefixed_exec(r.id.as_str()).as_str());
    h.attr("runtime", "\"nodejs20.x\"");
    h.attr("handler", "\"index.handler\"");
    h.attr("filename", cat("var.", pkg.as_str()).as_str());
    h.attr("role", cat("var.", role.as_str()).as_str());
    h.comment("role: an IAM role ARN — IAM is not modelled by the studio");
    h.attr("timeout", "30");
    h.attr("memory_size", "256");
    write_depends_on(h, arch, r.id.as_str(), &no_wires());
    h.strata_tags(r);
    h.close();
    assert(h.ops@ =~= ops0 + lambda_ops(arch@, r@, ln@));
}


// ---------------------------------------------------------------------------
// Compute behind a load balancer
// ---------------------------------------------------------------------------

/// The zone of a resource placed in one zone of a region.
pub open spec fn zonal_az(r: ResourceView) -> Option<Seq<char>> {
    match r.placement.region {
        Some(_) => r.placement.az,
        None => None,
    }
}

pub open spec fn launch_template_ops(r: ResourceView, ln: Seq<char>) -> Seq<HclOp> {
    seq![
        HclOp::Open(res_header("aws_launch_template"@, ln)),
        HclOp::Attr("name_prefix"@, spec_quote(r.id + "-"@)),
        HclOp::Attr("image_id"@, "var.ami_id"@),
        HclOp::Attr("instance_type"@, "\"t3.small\""@),
        HclOp::Attr("vpc_security_group_ids"@, "var.security_group_ids"@),
        HclOp::Close,
        HclOp::Blank,
    ]
}

pub open spec fn asg_head(r: ResourceView, ln: Seq<char>) -> Seq<HclOp> {
    seq![
        HclOp::Open(res_header("aws_autoscaling_group"@, ln)),
        HclOp::Attr("name"@, prefixed(r.id)),
        HclOp::Attr("min_size"@, "2"@),
        HclOp::Attr("max_size"@, "6"@),
        HclOp::Attr("desired_capacity"@, "2"@),
        match zonal_az(r) {
            Some(az) => HclOp::Attr("availability_zones"@, "["@ + spec_quote(az) + "]"@),
            None => HclOp::Attr("vpc_zone_identifier"@, "var.subnet_ids"@),
        },
    ]
}

/// The target groups of the ALBs in front of this group, when there are any.
pub open spec fn target_group_ops(tgs: Seq<Seq<char>>) -> Seq<HclOp> {
    if tgs.len() == 0 {
        Seq::empty()
    } else {
        seq![HclOp::Attr("target_group_arns"@, "["@ + join(tgs, ", "@) + "]"@)]
    }
}

pub open spec fn asg_tail(r: ResourceView, ln: Seq<char>) -> Seq<HclOp> {
    seq![
        HclOp::Open("launch_template"@),
        HclOp::Attr("id"@, "aws_launch_template."@ + ln + ".id"@),
        HclOp::Attr("version"@, "\"$Latest\""@),
        HclOp::Close,
        HclOp::Open("tag"@),
        HclOp::Attr("key"@, "\"strata:id\""@),
        HclOp::Attr("value"@, spec_quote(r.id)),
        HclOp::Attr("propagate_at_launch"@, "true"@),
        HclOp::Close,
    ]
}

pub open spec fn ec2_asg_ops(a: ArchView, r: ResourceView, ln: Seq<char>) -> Seq<HclOp> {
    launch_template_ops(r, ln) + asg_head(r, ln) + target_group_ops(inbound_target_groups(a, r.id))
        + asg_tail(r, ln) + depends_on_ops(a, r.id, Seq::empty()) + seq![HclOp::Close]
}

pub open spec fn ec2_asg_vars(r: ResourceView) -> Set<Seq<char>> {
    let base = set!["name_prefix"@, "ami_id"@, "security_group_ids"@];
    if zonal_az(r) is Some {
        base
    } else {
        base.insert("subnet_ids"@)
    }
}

fn add_ec2_asg_vars(r: &Resource, vars: &mut Vec<String>)
    requires
        strictly_sorted(views(old(vars)@)),
    ensures
        strictly_sorted(views(final(vars)@)),
        views(final(vars)@).to_set() == views(old(vars)@).to_set() + ec2_asg_vars(r@),
{
    let ghost vs0 = views(vars@).to_set();
    insert_sorted(vars, "name_prefix");
    insert_sorted(vars, "ami_id");
    insert_sorted(vars, "security_group_ids");
    match (&r.placement.region, &r.placement.az) {
        (Some(_), Some(_)) => {},
        _ => insert_sorted(vars, "subnet_ids"),
    }
    assert(views(vars@).to_set() =~= vs0 + ec2_asg_vars(r@));
}

fn write_asg_head(h: &mut Hcl, r: &Resource, ln: &str)
    requires
        old(h).wf(),
        old(h).indent <= 16,
    ensures
        final(h).wf(),
        final(h).indent == old(h).indent + 1,
        final(h).ops@ == old(h).ops@ + asg_head(r@, ln@),
{
    let ghost ops0 = h.ops@;
    h.open(res_header_exec("aws_autoscaling_group", ln).as_str());
    h.attr("name", prefixed_exec(r.id.as_str()).as_str());
    h.attr("min_size", "2");
    h.attr("max_size", "6");
    h.attr("desired_capacity", "2");
    match (&r.placement.region, &r.placement.az) {
        (Some(_), Some(az)) => {
            let q = quote(az.as_str());
            h.attr("availability_zones", cat3("[", q.as_str(), "]").as_str());
        },
        _ => h.attr("vpc_zone_identifier", "var.subnet_ids"),
    }
    assert(h.ops@ =~= ops0 + asg_head(r@, ln@));
}

fn write_asg_tail(h: &mut Hcl, r: &Resource, ln: &str)
    requires
        old(h).wf(),
        old(h).indent <= 17,
    ensures
        final(h).wf(),
        final(h).indent == old(h).indent,
        final(h).ops@ == old(h).ops@ + asg_tail(r@, ln@),
{
    let ghost ops0 = h.ops@;
    h.open("launch_template");
    h.attr("id", cat3("aws_launch_template.", ln, ".id").as_str());
    h.attr("version", "\"$Latest\"");
    h.close();
    h.open("tag");
    h.attr("key", "\"strata:id\"");
    h.attr("value", quote(r.id.as_str()).as_str());
    h.attr("propagate_at_launch", "true");
    h.close();
    assert(h.ops@ =~= ops0 + asg_tail(r@, ln@));
}

fn emit_ec2_asg(h: &mut Hcl, arch: &Architecture, r: &Resource, ln: &str, vars: &mut Vec<String>)
    requires
        ready(*old(h), old(vars)@),
    ensures
        ready(*final(h), final(vars)@),
        final(h).indent == old(h).indent,
        final(h).ops@ == old(h).ops@ + ec2_asg_ops(arch@, r@, ln@),
        views(final(vars)@).to_set() == views(old(vars)@).to_set() + ec2_asg_vars(r@),
{
    let ghost ops0 = h.ops@;
    add_ec2_asg_vars(r, vars);
    h.open(res_header_exec("aws_launch_template", ln).as_str());
    h.attr("name_prefix", quote(cat(r.id.as_str(), "-").as_str()).as_str());
    h.attr("image_id", "var.ami_id");
    h.attr("instance_type", "\"t3.small\"");
    h.attr("vpc_security_group_ids", "var.security_group_ids");
    h.close();
    h.blank();
    assert(h.ops@ =~= ops0 + launch_template_ops(r@, ln@));
    let ghost ops1 = h.ops@;
    write_asg_head(h, r, ln);
    let ghost ops2 = h.ops@;
    let tgs = inbound_alb_target_groups(arch, r.id.as_str());
    if tgs.len() > 0 {
        let joined = join_exec(&tgs, ", ");
        h.attr("target_group_arns", cat3("[", joined.as_str(), "]").as_str());
    }
    assert(h.ops@ =~= ops2 + target_group_ops(inbound_target_groups(arch@, r@.id)));
    let ghost ops3 = h.ops@;
    write_asg_tail(h, r, ln);
    let ghost ops4 = h.ops@;
    write_depends_on(h, arch, r.id.as_str(), &no_wires());
    h.close();
    assert(h.ops@ =~= ops4 + depends_on_ops(arch@, r@.id, Seq::empty()) + seq![HclOp::Close]);
    assert(h.ops@ =~= ops0 + ec2_asg_ops(arch@, r@, ln@));
}

pub open spec fn alb_lb(r: ResourceView, ln: Seq<char>) -> Seq<HclOp> {
    seq![
        HclOp::Open(res_header("aws_lb"@, ln)),
        HclOp::Attr("name"@, prefixed(r.id)),
        HclOp::Attr("load_balancer_type"@, "\"application\""@),
        HclOp::Attr("subnets"@, "var.subnet_ids"@),
        HclOp::Attr("security_groups"@, "var.security_group_ids"@),
    ]
}

pub open spec fn alb_target_group(r: ResourceView, ln: Seq<char>) -> Seq<HclOp> {
    seq![
        HclOp::Close,
        HclOp::Blank,
        HclOp::Open(res_header("aws_lb_target_group"@, ln)),
        HclOp::Attr("name"@, prefixed(r.id)),
        HclOp::Attr("port"@, "80"@),
        HclOp::Attr("protocol"@, "\"HTTP\""@),
        HclOp::Attr("vpc_id"@, "var.vpc_id"@),
        HclOp::Close,
        HclOp::Blank,
    ]
}

pub open spec fn alb_listener(ln: Seq<char>) -> Seq<HclOp> {
    seq![
        HclOp::Open(res_header("aws_lb_listener"@, ln)),
        HclOp::Attr("load_balancer_arn"@, "aws_lb."@ + ln + ".arn"@),
        HclOp::Attr("port"@, "80"@),
        HclOp::Attr("protocol"@, "\"HTTP\""@),
        HclOp::Open("default_action"@),
        HclOp::Attr("type"@, "\"forward\""@),
        HclOp::Attr("target_group_arn"@, "aws_lb_target_group."@ + ln + ".arn"@),
        HclOp::Close,
        HclOp::Close,
    ]
}

pub open spec fn alb_ops(a: ArchView, r: ResourceView, ln: Seq<char>) -> Seq<HclOp> {
    alb_lb(r, ln) + depends_on_ops(a, r.id, wired_compute(resolved_deps(a, r.id))) + tags_ops(r)
        + alb_target_group(r, ln) + alb_listener(ln)
}

pub open spec fn alb_vars() -> Set<Seq<char>> {
    set!["name_prefix"@, "vpc_id"@, "subnet_ids"@, "security_group_ids"@]
}

#[verifier::rlimit(30)]
fn emit_alb(h: &mut Hcl, arch: &Architecture, r: &Resource, ln: &str, vars: &mut Vec<String>)
    requires
        ready(*old(h), old(vars)@),
    ensures
        ready(*final(h), final(vars)@),
        final(h).indent == old(h).indent,
        final(h).ops@ == old(h).ops@ + alb_ops(arch@, r@, ln@),
        views(final(vars)@).to_set() == views(old(vars)@).to_set() + alb_vars(),
{
    let ghost ops0 = h.ops@;
    let ghost vs0 = views(vars@).to_set();
    insert_sorted(vars, "name_prefix");
    insert_sorted(vars, "vpc_id");
    insert_sorted(vars, "subnet_ids");
    insert_sorted(vars, "security_group_ids");
    assert(views(vars@).to_set() =~= vs0 + alb_vars());
    h.open(res_header_exec("aws_lb", ln).as_str());
    h.attr("name", prefixed_exec(r.id.as_str()).as_str());
    h.attr("load_balancer_type", "\"application\"");
    h.attr("subnets", "var.subnet_ids");
    h.attr("security_groups", "var.security_group_ids");
    assert(h.ops@ =~= ops0 + alb_lb(r@, ln@));
    let ghost ops1 = h.ops@;
    let wired = alb_wired_compute(arch, r.id.as_str());
    write_depends_on(h, arch, r.id.as_str(), &wired);
    h.strata_tags(r);
    let ghost ops2 = h.ops@;
    h.close();
    h.blank();
    h.open(res_header_exec("aws_lb_target_group", ln).as_str());
    h.attr("name", prefixed_exec(r.id.as_str()).as_str());
    h.attr("port", "80");
    h.attr("protocol", "\"HTTP\"");
    h.attr("vpc_id", "var.vpc_id");
    h.close();
    h.blank();
    assert(h.ops@ =~= ops2 + alb_target_group(r@, ln@));
    let ghost ops3 = h.ops@;
    h.open(res_header_exec("aws_lb_listener", ln).as_str());
    h.attr("load_balancer_arn", cat3("aws_lb.", ln, ".arn").as_str());
    h.attr("port", "80");
    h.attr("protocol", "\"HTTP\"");
    h.open("default_action");
    h.attr("type", "\"forward\"");
    h.attr("target_group_arn", cat3("aws_lb_target_group.", ln, ".arn").as_str());
    h.close();
    h.close();
    assert(h.ops@ =~= ops3 + alb_listener(ln@));
    assert(h.ops@ =~= ops0 + alb_ops(arch@, r@, ln@));
}


// ---------------------------------------------------------------------------
// CDN
// ---------------------------------------------------------------------------

/// A dependency a distribution can take its origin from: an ALB or an S3
/// bucket, with the origin's domain expression and the dependency's address.
pub open spec fn origin_of(d: (ResourceView, Seq<char>)) -> Option<(Seq<char>, Seq<char>)> {
    if d.0.kind == ResourceKind::LoadBalancer && d.0.variant == Some("alb"@) {
        Some(("aws_lb."@ + spec_local_name(d.0.id) + ".dns_name"@, d.1))
    } else if d.0.kind == ResourceKind::ObjectStore && d.0.variant == Some("s3"@) {
        Some(("aws_s3_bucket."@ + spec_local_name(d.0.id) + ".bucket_regional_domain_name"@, d.1))
    } else {
        None
    }
}

pub open spec fn origin_fn() -> spec_fn((ResourceView, Seq<char>)) -> Option<(Seq<char>, Seq<char>)> {
    |d: (ResourceView, Seq<char>)| origin_of(d)
}

/// The first dependency that can serve as the distribution's origin.
pub open spec fn cdn_origin(a: ArchView, r: ResourceView) -> Option<(Seq<char>, Seq<char>)> {
    find_map(resolved_deps(a, r.id), origin_fn())
}

pub open spec fn origin_domain(a: ArchView, r: ResourceView, ln: Seq<char>) -> Seq<char> {
    match cdn_origin(a, r) {
        Some(o) => o.0,
        None => "var."@ + ln + "_origin_domain"@,
    }
}

/// The origin dependency is wired through `domain_name`, not `depends_on`.
pub open spec fn origin_wires(a: ArchView, r: ResourceView) -> Seq<Seq<char>> {
    match cdn_origin(a, r) {
        Some(o) => seq![o.1],
        None => Seq::empty(),
    }
}

pub open spec fn cloudfront_origin(domain: Seq<char>, r: ResourceView, ln: Seq<char>) -> Seq<HclOp> {
    seq![
        HclOp::Open(res_header("aws_cloudfront_distribution"@, ln)),
        HclOp::Attr("enabled"@, "true"@),
        HclOp::Attr("is_ipv6_enabled"@, "true"@),
        HclOp::Attr("default_root_object"@, "\"index.html\""@),
        HclOp::Open("origin"@),
        HclOp::Attr("domain_name"@, domain),
        HclOp::Attr("origin_id"@, spec_quote(r.id + "-origin"@)),
        HclOp::Open("custom_origin_config"@),
        HclOp::Attr("http_port"@, "80"@),
        HclOp::Attr("https_port"@, "443"@),
        HclOp::Attr("origin_protocol_policy"@, "\"https-only\""@),
        HclOp::Attr("origin_ssl_protocols"@, "[\"TLSv1.2\"]"@),
        HclOp::Close,
        HclOp::Close,
    ]
}

pub open spec fn cloudfront_behaviour(r: ResourceView) -> Seq<HclOp> {
    seq![
        HclOp::Open("default_cache_behavior"@),
        HclOp::Attr("target_origin_id"@, spec_quote(r.id + "-origin"@)),
        HclOp::Attr("viewer_protocol_policy"@, "\"redirect-to-https\""@),
        HclOp::Attr("allowed_methods"@, "[\"GET\", \"HEAD\", \"OPTIONS\"]"@),
        HclOp::Attr("cached_methods"@, "[\"GET\", \"HEAD\"]"@),
        HclOp::Open("forwarded_values"@),
        HclOp::Attr("query_string"@, "true"@),
        HclOp::Open("cookies"@),
        HclOp::Attr("forward"@, "\"none\""@),
        HclOp::Close,
        HclOp::Close,
        HclOp::Close,
        HclOp::Open("restrictions"@),
        HclOp::Open("geo_restriction"@),
        HclOp::Attr("restriction_type"@, "\"none\""@),
        HclOp::Close,
        HclOp::Close,
        HclOp::Open("viewer_certificate"@),
        HclOp::Attr("cloudfront_default_certificate"@, "true"@),
        HclOp::Close,
    ]
}

pub open spec fn cloudfront_ops(a: ArchView, r: ResourceView, ln: Seq<char>) -> Seq<HclOp> {
    cloudfront_origin(origin_domain(a, r, ln), r, ln) + cloudfront_behaviour(r) + depends_on_ops(
        a,
        r.id,
        origin_wires(a, r),
    ) + tags_ops(r) + seq![HclOp::Close]
}

pub open spec fn cloudfront_vars(a: ArchView, r: ResourceView, ln: Seq<char>) -> Set<Seq<char>> {
    if cdn_origin(a, r) is Some {
        Set::empty()
    } else {
        set![ln + "_origin_domain"@]
    }
}

fn origin_exec(d: &(Resource, String)) -> (o: Option<(String, String)>)
    ensures
        match o {
            Some(x) => origin_of((d.0@, d.1@)) == Some((x.0@, x.1@)),
            None => origin_of((d.0@, d.1@)) is None,
        },
{
    let (dep, addr) = d;
    let (is_alb, is_s3) = match &dep.variant {
        Some(v) => (str_eq(v.as_str(), "alb"), str_eq(v.as_str(), "s3")),
        None => (false, false),
    };
    if dep.kind == ResourceKind::LoadBalancer && is_alb {
        let dl = local_name(dep.id.as_str());
        Some((cat3("aws_lb.", dl.as_str(), ".dns_name"), addr.clone()))
    } else if dep.kind == ResourceKind::ObjectStore && is_s3 {
        let dl = local_name(dep.id.as_str());
        Some((cat3("aws_s3_bucket.", dl.as_str(), ".bucket_regional_domain_name"), addr.clone()))
    } else {
        None
    }
}

/// The first origin among a resource's dependencies.
fn find_origin(arch: &Architecture, r: &Resource) -> (o: Option<(String, String)>)
    ensures
        match o {
            Some(x) => cdn_origin(arch@, r@) == Some((x.0@, x.1@)),
            None => cdn_origin(arch@, r@) is None,
        },
{
    let deps = resolve_deps(arch, r.id.as_str());
    let ghost ds = deps_view(deps@);
    let mut i: usize = 0;
    while i < deps.len()
        invariant
            ds == deps_view(deps@),
            ds == resolved_deps(arch@, r@.id),
            0 <= i <= ds.len(),
            forall|j: int| 0 <= j < i ==> (origin_fn())(#[trigger] ds[j]) is None,
        decreases ds.len() - i,
    {
        assert(ds[i as int] == (deps@[i as int].0@, deps@[i as int].1@));
        match origin_exec(&deps[i]) {
            Some(x) => {
                proof {
                    lemma_find_map_skip(ds, origin_fn(), i as int);
                    assert(ds.skip(i as int)[0] == ds[i as int]);
                }
                return Some(x);
            },
            None => {},
        }
        i = i + 1;
    }
    proof {
        lemma_find_map_skip(ds, origin_fn(), i as int);
        assert(ds.skip(i as int).len() == 0);
    }
    None
}

fn write_cloudfront_origin(h: &mut Hcl, domain: &str, r: &Resource, ln: &str)
    requires
        old(h).wf(),
        old(h).indent <= 16,
    ensures
        final(h).wf(),
        final(h).indent == old(h).indent + 1,
        final(h).ops@ == old(h).ops@ + cloudfront_origin(domain@, r@, ln@),
{
    let ghost ops0 = h.ops@;
    h.open(res_header_exec("aws_cloudfront_distribution", ln).as_str());
    h.attr("enabled", "true");
    h.attr("is_ipv6_enabled", "true");
    h.attr("default_root_object", "\"index.html\"");
    h.open("origin");
    h.attr("domain_name", domain);
    h.attr("origin_id", quote(cat(r.id.as_str(), "-origin").as_str()).as_str());
    h.open("custom_origin_config");
    h.attr("http_port", "80");
    h.attr("https_port", "443");
    h.attr("origin_protocol_policy", "\"https-only\"");
    h.attr("origin_ssl_protocols", "[\"TLSv1.2\"]");
    h.close();
    h.close();
    assert(h.ops@ =~= ops0 + cloudfront_origin(domain@, r@, ln@));
}

fn write_cloudfront_behaviour(h: &mut Hcl, r: &Resource)
    requires
        old(h).wf(),
        old(h).indent <= 17,
    ensures
        final(h).wf(),
        final(h).indent == old(h).indent,
        final(h).ops@ == old(h).ops@ + cloudfront_behaviour(r@),
{
    let ghost ops0 = h.ops@;
    h.open("default_cache_behavior");
    h.attr("target_origin_id", quote(cat(r.id.as_str(), "-origin").as_str()).as_str());
    h.attr("viewer_protocol_policy", "\"redirect-to-https\"");
    h.attr("allowed_methods", "[\"GET\", \"HEAD\", \"OPTIONS\"]");
    h.attr("cached_methods", "[\"GET\", \"HEAD\"]");
    h.open("forwarded_values");
    h.attr("query_string", "true");
    h.open("cookies");
    h.attr("forward", "\"none\"");
    h.close();
    h.close();
    h.close();
    h.open("restrictions");
    h.open("geo_restriction");
    h.attr("restriction_type", "\"none\"");
    h.close();
    h.close();
    h.open("viewer_certificate");
    h.attr("cloudfront_default_certificate", "true");
    h.close();
    assert(h.ops@ =~= ops0 + cloudfront_behaviour(r@));
}

fn emit_cloudfront(h: &mut Hcl, arch: &Architecture, r: &Resource, ln: &str, vars: &mut Vec<String>)
    requires
        ready(*old(h), old(vars)@),
    ensures
        ready(*final(h), final(vars)@),
        final(h).indent == old(h).indent,
        final(h).ops@ == old(h).ops@ + cloudfront_ops(arch@, r@, ln@),
        views(final(vars)@).to_set() == views(old(vars)@).to_set() + cloudfront_vars(arch@, r@, ln@),
{
    let ghost ops0 = h.ops@;
    let ghost vs0 = views(vars@).to_set();
    let mut wired: Vec<String> = Vec::new();
    let domain = match find_origin(arch, r) {
        Some((domain, addr)) => {
            wired.push(addr);
            domain
        },
        None => {
            let v = cat(ln, "_origin_domain");
            insert_sorted(vars, v.as_str());
            assert("var."@ + v@ =~= "var."@ + ln@ + "_origin_domain"@);
            cat("var.", v.as_str())
        },
    };
    assert(views(wired@) =~= origin_wires(arch@, r@));
    assert(domain@ == origin_domain(arch@, r@, ln@));
    assert(views(vars@).to_set() =~= vs0 + cloudfront_vars(arch@, r@, ln@));
    write_cloudfront_origin(h, domain.as_str(), r, ln);
    write_cloudfront_behaviour(h, r);
    let ghost ops2 = h.ops@;
    write_depends_on(h, arch, r.id.as_str(), &wired);
    h.strata_tags(r);
    h.close();
    assert(h.ops@ =~= ops2 + depends_on_ops(arch@, r@.id, origin_wires(arch@, r@)) + tags_ops(r@)
        + seq![HclOp::Close]);
    assert(h.ops@ =~= ops0 + cloudfront_ops(arch@, r@, ln@));
}


// ---------------------------------------------------------------------------
// DNS
// ---------------------------------------------------------------------------

/// A dependency a record can alias: a CloudFront distribution or an ALB, with
/// the alias name, its hosted-zone expression, and the dependency's address.
pub open spec fn alias_of(d: (ResourceView, Seq<char>)) -> Option<(Seq<char>, Seq<char>, Seq<char>)> {
    let dl = spec_local_name(d.0.id);
    if d.0.kind == ResourceKind::Cdn && d.0.variant == Some("cloudfront"@) {
        Some(
            (
                "aws_cloudfront_distribution."@ + dl + ".domain_name"@,
                "aws_cloudfront_distribution."@ + dl + ".hosted_zone_id"@,
                d.1,
            ),
        )
    } else if d.0.kind == ResourceKind::LoadBalancer && d.0.variant == Some("alb"@) {
        Some(("aws_lb."@ + dl + ".dns_name"@, "aws_lb."@ + dl + ".zone_id"@, d.1))
    } else {
        None
    }
}

pub open spec fn alias_fn() -> spec_fn((ResourceView, Seq<char>)) -> Option<
    (Seq<char>, Seq<char>, Seq<char>),
> {
    |d: (ResourceView, Seq<char>)| alias_of(d)
}

/// The first dependency the record can alias.
pub open spec fn dns_alias(a: ArchView, r: ResourceView) -> Option<(Seq<char>, Seq<char>, Seq<char>)> {
    find_map(resolved_deps(a, r.id), alias_fn())
}

pub open spec fn route53_head(ln: Seq<char>) -> Seq<HclOp> {
    seq![
        HclOp::Open(res_header("aws_route53_zone"@, ln)),
        HclOp::Attr("name"@, "var."@ + ln + "_zone_name"@),
        HclOp::Close,
        HclOp::Blank,
        HclOp::Open(res_header("aws_route53_record"@, ln)),
        HclOp::Attr("zone_id"@, "aws_route53_zone."@ + ln + ".zone_id"@),
        HclOp::Attr("name"@, "var."@ + ln + "_zone_name"@),
        HclOp::Attr("type"@, "\"A\""@),
    ]
}

/// An `alias` block to the aliased dependency, else a plain record pointing
/// at a target variable.
pub open spec fn route53_target(a: ArchView, r: ResourceView, ln: Seq<char>) -> Seq<HclOp> {
    match dns_alias(a, r) {
        Some(al) => seq![
            HclOp::Open("alias"@),
            HclOp::Attr("name"@, al.0),
            HclOp::Attr("zone_id"@, al.1),
            HclOp::Attr("evaluate_target_health"@, "true"@),
            HclOp::Close,
        ],
        None => seq![
            HclOp::Attr("ttl"@, "300"@),
            HclOp::Attr("records"@, "[var."@ + ln + "_target]"@),
        ],
    }
}

pub open spec fn alias_wires(a: ArchView, r: ResourceView) -> Seq<Seq<char>> {
    match dns_alias(a, r) {
        Some(al) => seq![al.2],
        None => Seq::empty(),
    }
}

pub open spec fn route53_ops(a: ArchView, r: ResourceView, ln: Seq<char>) -> Seq<HclOp> {
    route53_head(ln) + route53_target(a, r, ln) + depends_on_ops(a, r.id, alias_wires(a, r)) + seq![
        HclOp::Close,
    ]
}

pub open spec fn route53_vars(a: ArchView, r: ResourceView, ln: Seq<char>) -> Set<Seq<char>> {
    if dns_alias(a, r) is Some {
        set![ln + "_zone_name"@]
    } else {
        set![ln + "_zone_name"@, ln + "_target"@]
    }
}

fn alias_exec(d: &(Resource, String)) -> (o: Option<(String, String, String)>)
    ensures
        match o {
            Some(x) => alias_of((d.0@, d.1@)) == Some((x.0@, x.1@, x.2@)),
            None => alias_of((d.0@, d.1@)) is None,
        },
{
    let (dep, addr) = d;
    let (is_cf, is_alb) = match &dep.variant {
        Some(v) => (str_eq(v.as_str(), "cloudfront"), str_eq(v.as_str(), "alb")),
        None => (false, false),
    };
    let dl = local_name(dep.id.as_str());
    if dep.kind == ResourceKind::Cdn && is_cf {
        Some(
            (
                cat3("aws_cloudfront_distribution.", dl.as_str(), ".domain_name"),
                cat3("aws_cloudfront_distribution.", dl.as_str(), ".hosted_zone_id"),
                addr.clone(),
            ),
        )
    } else if dep.kind == ResourceKind::LoadBalancer && is_alb {
        Some(
            (
                cat3("aws_lb.", dl.as_str(), ".dns_name"),
                cat3("aws_lb.", dl.as_str(), ".zone_id"),
                addr.clone(),
            ),
        )
    } else {
        None
    }
}

/// The first dependency a record can alias.
fn find_alias(arch: &Architecture, r: &Resource) -> (o: Option<(String, String, String)>)
    ensures
        match o {
            Some(x) => dns_alias(arch@, r@) == Some((x.0@, x.1@, x.2@)),
            None => dns_alias(arch@, r@) is None,
        },
{
    let deps = resolve_deps(arch, r.id.as_str());
    let ghost ds = deps_view(deps@);
    let mut i: usize = 0;
    while i < deps.len()
        invariant
            ds == deps_view(deps@),
            ds == resolved_deps(arch@, r@.id),
            0 <= i <= ds.len(),
            forall|j: int| 0 <= j < i ==> (alias_fn())(#[trigger] ds[j]) is None,
        decreases ds.len() - i,
    {
        assert(ds[i as int] == (deps@[i as int].0@, deps@[i as int].1@));
        match alias_exec(&deps[i]) {
            Some(x) => {
                proof {
                    lemma_find_map_skip(ds, alias_fn(), i as int);
                    assert(ds.skip(i as int)[0] == ds[i as int]);
                }
                return Some(x);
            },
            None => {},
        }
        i = i + 1;
    }
    proof {
        lemma_find_map_skip(ds, alias_fn(), i as int);
        assert(ds.skip(i as int).len() == 0);
    }
    None
}

fn write_route53_head(h: &mut Hcl, ln: &str, zone_var: &str)
    requires
        old(h).wf(),
        old(h).indent <= 16,
        zone_var@ == ln@ + "_zone_name"@,
    ensures
        final(h).wf(),
        final(h).indent == old(h).indent + 1,
        final(h).ops@ == old(h).ops@ + route53_head(ln@),
{
    let ghost ops0 = h.ops@;
    let zone_ref = cat("var.", zone_var);
    assert(zone_ref@ =~= "var."@ + ln@ + "_zone_name"@);
    h.open(res_header_exec("aws_route53_zone", ln).as_str());
    h.attr("name", zone_ref.as_str());
    h.close();
    h.blank();
    h.open(res_header_exec("aws_route53_record", ln).as_str());
    h.attr("zone_id", cat3("aws_route53_zone.", ln, ".zone_id").as_str());
    h.attr("name", zone_ref.as_str());
    h.attr("type", "\"A\"");
    assert(h.ops@ =~= ops0 + route53_head(ln@));
}

#[verifier::rlimit(30)]
fn emit_route53(h: &mut Hcl, arch: &Architecture, r: &Resource, ln: &str, vars: &mut Vec<String>)
    requires
        ready(*old(h), old(vars)@),
    ensures
        ready(*final(h), final(vars)@),
        final(h).indent == old(h).indent,
        final(h).ops@ == old(h).ops@ + route53_ops(arch@, r@, ln@),
        views(final(vars)@).to_set() == views(old(vars)@).to_set() + route53_vars(arch@, r@, ln@),
{
    let ghost ops0 = h.ops@;
    let ghost vs0 = views(vars@).to_set();
    let zone_var = cat(ln, "_zone_name");
    insert_sorted(vars, zone_var.as_str());
    let alias = find_alias(arch, r);
    write_route53_head(h, ln, zone_var.as_str());
    let ghost ops1 = h.ops@;
    let mut wired: Vec<String> = Vec::new();
    match alias {
        Some((name, zone_id, addr)) => {
            wired.push(addr);
            h.open("alias");
            h.attr("name", name.as_str());
            h.attr("zone_id", zone_id.as_str());
            h.attr("evaluate_target_health", "true");
            h.close();
        },
        None => {
            let target_var = cat(ln, "_target");
            insert_sorted(vars, target_var.as_str());
            h.attr("ttl", "300");
            let records = cat3("[var.", ln, "_target]");
            h.attr("records", records.as_str());
        },
    }
    assert(h.ops@ =~= ops1 + route53_target(arch@, r@, ln@));
    assert(views(wired@) =~= alias_wires(arch@, r@));
    assert(views(vars@).to_set() =~= vs0 + route53_vars(arch@, r@, ln@));
    let ghost ops2 = h.ops@;
    write_depends_on(h, arch, r.id.as_str(), &wired);
    h.close();
    assert(h.ops@ =~= ops2 + depends_on_ops(arch@, r@.id, alias_wires(arch@, r@)) + seq![HclOp::Close]);
    assert(h.ops@ =~= ops0 + route53_ops(arch@, r@, ln@));
}

// ---------------------------------------------------------------------------
// API gateway
// ---------------------------------------------------------------------------

pub open spec fn apigw_head(r: ResourceView, ln: Seq<char>) -> Seq<HclOp> {
    seq![
        HclOp::Open(res_header("aws_apigatewayv2_api"@, ln)),
        HclOp::Attr("name"@, spec_quote(r.id)),
        HclOp::Attr("protocol_type"@, "\"HTTP\""@),
        HclOp::Close,
        HclOp::Blank,
        HclOp::Open(res_header("aws_apigatewayv2_stage"@, ln)),
        HclOp::Attr("api_id"@, "aws_apigatewayv2_api."@ + ln + ".id"@),
        HclOp::Attr("name"@, "\"$default\""@),
        HclOp::Attr("auto_deploy"@, "true"@),
        HclOp::Close,
    ]
}

/// A proxy integration and catch-all route for one Lambda dependency; nothing
/// for other dependencies.
pub open spec fn apigw_route(ln: Seq<char>, d: (ResourceView, Seq<char>)) -> Seq<HclOp> {
    if d.0.kind == ResourceKind::Functions && d.0.variant == Some("lambda"@) {
        let dl = spec_local_name(d.0.id);
        let pair = ln + "_"@ + dl;
        seq![
            HclOp::Blank,
            HclOp::Open(res_header("aws_apigatewayv2_integration"@, pair)),
            HclOp::Attr("api_id"@, "aws_apigatewayv2_api."@ + ln + ".id"@),
            HclOp::Attr("integration_type"@, "\"AWS_PROXY\""@),
            HclOp::Attr("integration_uri"@, "aws_lambda_function."@ + dl + ".invoke_arn"@),
            HclOp::Attr("payload_format_version"@, "\"2.0\""@),
            HclOp::Close,
            HclOp::Blank,
            HclOp::Open(res_header("aws_apigatewayv2_route"@, pair)),
            HclOp::Attr("api_id"@, "aws_apigatewayv2_api."@ + ln + ".id"@),
            HclOp::Attr("route_key"@, "\"ANY /{proxy+}\""@),
            HclOp::Attr("target"@, "\"integrations/${aws_apigatewayv2_integration."@ + pair + ".id}\""@),
            HclOp::Close,
        ]
    } else {
        Seq::empty()
    }
}

/// The routes of every Lambda dependency, in dependency order.
pub open spec fn apigw_routes(ln: Seq<char>, ds: Seq<(ResourceView, Seq<char>)>) -> Seq<HclOp>
    decreases ds.len(),
{
    if ds.len() == 0 {
        Seq::empty()
    } else {
        apigw_routes(ln, ds.drop_last()) + apigw_route(ln, ds.last())
    }
}

pub open spec fn apigw_ops(a: ArchView, r: ResourceView, ln: Seq<char>) -> Seq<HclOp> {
    apigw_head(r, ln) + apigw_routes(ln, resolved_deps(a, r.id))
}

fn write_apigw_route(h: &mut Hcl, ln: &str, d: &(Resource, String))
    requires
        old(h).wf(),
        old(h).indent <= 16,
    ensures
        final(h).wf(),
        final(h).indent == old(h).indent,
        final(h).ops@ == old(h).ops@ + apigw_route(ln@, (d.0@, d.1@)),
{
    let ghost ops0 = h.ops@;
    let dep = &d.0;
    let is_lambda = match &dep.variant {
        Some(v) => str_eq(v.as_str(), "lambda"),
        None => false,
    };
    if dep.kind == ResourceKind::Functions && is_lambda {
        let dl = local_name(dep.id.as_str());
        let pair = cat3(ln, "_", dl.as_str());
        let api_id = cat3("aws_apigatewayv2_api.", ln, ".id");
        h.blank();
        h.open(res_header_exec("aws_apigatewayv2_integration", pair.as_str()).as_str());
        h.attr("api_id", api_id.as_str());
        h.attr("integration_type", "\"AWS_PROXY\"");
        h.attr("integration_uri", cat3("aws_lambda_function.", dl.as_str(), ".invoke_arn").as_str());
        h.attr("payload_format_version", "\"2.0\"");
        h.close();
        h.blank();
        h.open(res_header_exec("aws_apigatewayv2_route", pair.as_str()).as_str());
        h.attr("api_id", api_id.as_str());
        h.attr("route_key", "\"ANY /{proxy+}\"");
        let target = cat3("\"integrations/${aws_apigatewayv2_integration.", pair.as_str(), ".id}\"");
        h.attr("target", target.as_str());
        h.close();
    }
    assert(h.ops@ =~= ops0 + apigw_route(ln@, (d.0@, d.1@)));
}

fn emit_apigw(h: &mut Hcl, arch: &Architecture, r: &Resource, ln: &str)
    requires
        old(h).wf(),
        old(h).indent <= 16,
    ensures
        final(h).wf(),
        final(h).indent == old(h).indent,
        final(h).ops@ == old(h).ops@ + apigw_ops(arch@, r@, ln@),
{
    let ghost ops0 = h.ops@;
    let api_id = cat3("aws_apigatewayv2_api.", ln, ".id");
    h.open(res_header_exec("aws_apigatewayv2_api", ln).as_str());
    h.attr("name", quote(r.id.as_str()).as_str());
    h.attr("protocol_type", "\"HTTP\"");
    h.close();
    h.blank();
    h.open(res_header_exec("aws_apigatewayv2_stage", ln).as_str());
    h.attr("api_id", api_id.as_str());
    h.attr("name", "\"$default\"");
    h.attr("auto_deploy", "true");
    h.close();
    assert(h.ops@ =~= ops0 + apigw_head(r@, ln@));
    let ghost ops1 = h.ops@;
    let deps = resolve_deps(arch, r.id.as_str());
    let ghost ds = deps_view(deps@);
    let mut i: usize = 0;
    while i < deps.len()
        invariant
            ds == deps_view(deps@),
            0 <= i <= ds.len(),
            h.wf(),
            h.indent == old(h).indent,
            old(h).indent <= 16,
            h.ops@ == ops1 + apigw_routes(ln@, ds.take(i as int)),
        decreases ds.len() - i,
    {
        let ghost before = h.ops@;
        write_apigw_route(h, ln, &deps[i]);
        proof {
            assert(ds.take(i + 1).drop_last() =~= ds.take(i as int));
            assert(ds.take(i + 1).last() == (deps@[i as int].0@, deps@[i as int].1@));
            assert(h.ops@ =~= ops1 + apigw_routes(ln@, ds.take(i + 1)));
        }
        i = i + 1;
    }
    assert(ds.take(ds.len() as int) =~= ds);
    assert(h.ops@ =~= ops0 + apigw_ops(arch@, r@, ln@));
}


// ---------------------------------------------------------------------------
// Dispatch
// ---------------------------------------------------------------------------

/// The note for a recognised variant without an emitter.
pub open spec fn no_emitter(r: ResourceView, v: Seq<char>) -> Seq<HclOp> {
    seq![
        HclOp::Comment(
            r.id + " ("@ + spec_slug(r.kind) + ") variant \""@ + v
                + "\" is recognised but has no emitter yet"@,
        ),
    ]
}

/// The blocks a resource with variant `v` becomes.
pub open spec fn resource_ops(a: ArchView, r: ResourceView, v: Seq<char>) -> Seq<HclOp> {
    let ln = spec_local_name(r.id);
    match r.kind {
        ResourceKind::Compute => if v == "ec2-asg"@ {
            ec2_asg_ops(a, r, ln)
        } else {
            no_emitter(r, v)
        },
        ResourceKind::Database => if v == "rds-single-az"@ {
            rds_ops(a, r, ln, false)
        } else if v == "rds-multi-az"@ {
            rds_ops(a, r, ln, true)
        } else if v == "aurora"@ {
            aurora_ops(a, r, ln)
        } else if v == "dynamodb"@ {
            dynamodb_ops(a, r, ln)
        } else {
            no_emitter(r, v)
        },
        ResourceKind::LoadBalancer => if v == "alb"@ {
            alb_ops(a, r, ln)
        } else {
            no_emitter(r, v)
        },
        ResourceKind::ObjectStore => if v == "s3"@ {
            s3_ops(a, r, ln)
        } else {
            no_emitter(r, v)
        },
        ResourceKind::Cache => if v == "elasticache"@ {
            elasticache_ops(a, r, ln)
        } else {
            no_emitter(r, v)
        },
        ResourceKind::Queue => if v == "sqs"@ {
            sqs_ops(a, r, ln)
        } else {
            no_emitter(r, v)
        },
        ResourceKind::Cdn => if v == "cloudfront"@ {
            cloudfront_ops(a, r, ln)
        } else {
            no_emitter(r, v)
        },
        ResourceKind::Dns => if v == "route53"@ {
            route53_ops(a, r, ln)
        } else {
            no_emitter(r, v)
        },
        ResourceKind::Functions => if v == "lambda"@ {
            lambda_ops(a, r, ln)
        } else {
            no_emitter(r, v)
        },
        ResourceKind::ApiGateway => if v == "apigw-http"@ {
            apigw_ops(a, r, ln)
        } else {
            no_emitter(r, v)
        },
    }
}

/// The input variables the blocks of a resource with variant `v` reference.
pub open spec fn resource_vars(a: ArchView, r: ResourceView, v: Seq<char>) -> Set<Seq<char>> {
    let ln = spec_local_name(r.id);
    let db = set!["name_prefix"@, "security_group_ids"@];
    match r.kind {
        ResourceKind::Compute => if v == "ec2-asg"@ {
            ec2_asg_vars(r)
        } else {
            Set::empty()
        },
        ResourceKind::Database => if v == "rds-single-az"@ || v == "rds-multi-az"@ || v
            == "aurora"@ {
            db
        } else {
            Set::empty()
        },
        ResourceKind::LoadBalancer => if v == "alb"@ {
            alb_vars()
        } else {
            Set::empty()
        },
        ResourceKind::ObjectStore => if v == "s3"@ {
            set!["name_prefix"@]
        } else {
            Set::empty()
        },
        ResourceKind::Cache => if v == "elasticache"@ {
            db
        } else {
            Set::empty()
        },
        ResourceKind::Queue => if v == "sqs"@ {
            set!["name_prefix"@]
        } else {
            Set::empty()
        },
        ResourceKind::Cdn => if v == "cloudfront"@ {
            cloudfront_vars(a, r, ln)
        } else {
            Set::empty()
        },
        ResourceKind::Dns => if v == "route53"@ {
            route53_vars(a, r, ln)
        } else {
            Set::empty()
        },
        ResourceKind::Functions => if v == "lambda"@ {
            set!["name_prefix"@, ln + "_package"@, ln + "_role_arn"@]
        } else {
            Set::empty()
        },
        ResourceKind::ApiGateway => Set::empty(),
    }
}

fn write_no_emitter(h: &mut Hcl, r: &Resource, variant: &str)
    requires
        old(h).wf(),
    ensures
        final(h).wf(),
        final(h).indent == old(h).indent,
        final(h).ops@ == old(h).ops@ + no_emitter(r@, variant@),
{
    let a = cat3(r.id.as_str(), " (", r.kind.slug());
    let b = cat3(a.as_str(), ") variant \"", variant);
    let msg = cat(b.as_str(), "\" is recognised but has no emitter yet");
    h.comment(msg.as_str());
    assert(h.ops@ =~= old(h).ops@ + no_emitter(r@, variant@));
}

/// Emit the blocks of one configured resource.
pub fn emit_resource(
    h: &mut Hcl,
    arch: &Architecture,
    r: &Resource,
    variant: &str,
    vars: &mut Vec<String>,
)
    requires
        ready(*old(h), old(vars)@),
    ensures
        ready(*final(h), final(vars)@),
        final(h).indent == old(h).indent,
        final(h).ops@ == old(h).ops@ + resource_ops(arch@, r@, variant@),
        views(final(vars)@).to_set() == views(old(vars)@).to_set() + resource_vars(
            arch@,
            r@,
            variant@,
        ),
{
    let ghost vs0 = views(vars@).to_set();
    let ln = local_name(r.id.as_str());
    let ln = ln.as_str();
    match r.kind {
        ResourceKind::Compute => if str_eq(variant, "ec2-asg") {
            emit_ec2_asg(h, arch, r, ln, vars)
        } else {
            write_no_emitter(h, r, variant)
        },
        ResourceKind::Database => if str_eq(variant, "rds-single-az") {
            emit_rds(h, arch, r, ln, false, vars)
        } else if str_eq(variant, "rds-multi-az") {
            emit_rds(h, arch, r, ln, true, vars)
        } else if str_eq(variant, "aurora") {
            emit_aurora(h, arch, r, ln, vars)
        } else if str_eq(variant, "dynamodb") {
            emit_dynamodb(h, arch, r, ln)
        } else {
            write_no_emitter(h, r, variant)
        },
        ResourceKind::LoadBalancer => if str_eq(variant, "alb") {
            emit_alb(h, arch, r, ln, vars)
        } else {
            write_no_emitter(h, r, variant)
        },
        ResourceKind::ObjectStore => if str_eq(variant, "s3") {
            emit_s3(h, arch, r, ln, vars)
        } else {
            write_no_emitter(h, r, variant)
        },
        ResourceKind::Cache => if str_eq(variant, "elasticache") {
            emit_elasticache(h, arch, r, ln, vars)
        } else {
            write_no_emitter(h, r, variant)
        },
        ResourceKind::Queue => if str_eq(variant, "sqs") {
            emit_sqs(h, arch, r, ln, vars)
        } else {
            write_no_emitter(h, r, variant)
        },
        ResourceKind::Cdn => if str_eq(variant, "cloudfront") {
            emit_cloudfront(h, arch, r, ln, vars)
        } else {
            write_no_emitter(h, r, variant)
        },
        ResourceKind::Dns => if str_eq(variant, "route53") {
            emit_route53(h, arch, r, ln, vars)
        } else {
            write_no_emitter(h, r, variant)
        },
        ResourceKind::Functions => if str_eq(variant, "lambda") {
            emit_lambda(h, arch, r, ln, vars)
        } else {
            write_no_emitter(h, r, variant)
        },
        ResourceKind::ApiGateway => if str_eq(variant, "apigw-http") {
            emit_apigw(h, arch, r, ln)
        } else {
            write_no_emitter(h, r, variant)
        },
    }
    assert(views(vars@).to_set() =~= vs0 + resource_vars(arch@, r@, variant@));
}

/// A resource's blocks and variables depend on the rest of the design only
/// through its resolved dependencies, inbound target groups and
/// `depends_on` lines.
pub(crate) proof fn lemma_resource_ops_order_free(a: ArchView, b: ArchView, r: ResourceView, v: Seq<char>)
    requires
        forall|id: Seq<char>| #[trigger] resolved_deps(a, id) == resolved_deps(b, id),
        forall|id: Seq<char>| #[trigger] inbound_target_groups(a, id) == inbound_target_groups(b, id),
        forall|id: Seq<char>, w: Seq<Seq<char>>| #[trigger] depends_on_ops(a, id, w) == depends_on_ops(b, id, w),
    ensures
        resource_ops(a, r, v) == resource_ops(b, r, v),
        resource_vars(a, r, v) == resource_vars(b, r, v),
{
    assert(resolved_deps(a, r.id) == resolved_deps(b, r.id));
    assert(inbound_target_groups(a, r.id) == inbound_target_groups(b, r.id));
}

/// The bundled AWS catalogue's cache variants: the Multi-AZ group, which fails
/// over, and the single node, a single point of failure.
proof fn lemma_aws_cache_variants(v: Seq<char>)
    ensures
        spec_variant(spec_aws(), ResourceKind::Cache, v) is Some ==> v == "elasticache"@
            || v == "elasticache-single"@,
        spec_variant(spec_aws(), ResourceKind::Cache, "elasticache-single"@) is Some,
        spec_variant(spec_aws(), ResourceKind::Cache, "elasticache-single"@)->0.spof,
{
    reveal_strlit("compute");
    reveal_strlit("database");
    reveal_strlit("queue");
    reveal_strlit("load-balancer");
    reveal_strlit("object-store");
    reveal_strlit("cache");
    reveal_strlit("elasticache");
    reveal_strlit("elasticache-single");
    let gs = spec_aws().variants;
    let key = "cache"@;
    assert(gs[0].0 == "compute"@ && gs[1].0 == "database"@ && gs[2].0 == "queue"@);
    assert("compute"@.len() == 7 && "database"@.len() == 8 && key.len() == 5);
    assert("queue"@[0] == 'q' && key[0] == 'c');
    assert(gs[0].0 != key);
    assert(gs[1].0 != key);
    assert(gs[2].0 != key);
    assert(gs[3].0 != key);
    assert(gs[4].0 != key);
    assert(gs[5].0 == key);
    let g1 = gs.drop_first();
    let g2 = g1.drop_first();
    let g3 = g2.drop_first();
    let g4 = g3.drop_first();
    let g5 = g4.drop_first();
    assert(g5[0] == gs[5]);
    assert(find_group(g5, key) == Some(gs[5].1));
    assert(g4[0] == gs[4]);
    assert(find_group(g4, key) == Some(gs[5].1));
    assert(g3[0] == gs[3]);
    assert(find_group(g3, key) == Some(gs[5].1));
    assert(g2[0] == gs[2]);
    assert(find_group(g2, key) == Some(gs[5].1));
    assert(g1[0] == gs[1]);
    assert(find_group(g1, key) == Some(gs[5].1));
    assert(find_group(gs, key) == Some(gs[5].1));
    let vs = gs[5].1;
    assert(vs[0].id == "elasticache"@ && vs[1].id == "elasticache-single"@);
    assert("elasticache"@.len() == 11 && "elasticache-single"@.len() == 18);
    assert(vs[0].id != "elasticache-single"@);
    assert(vs.drop_first()[0] == vs[1]);
    assert(find_variant(vs.drop_first(), "elasticache-single"@) == Some(vs[1]));
    assert(find_variant(vs, "elasticache-single"@) == Some(vs[1]));
    assert(spec_variant(spec_aws(), ResourceKind::Cache, v) == find_variant(vs, v));
    assert(vs.len() == 2);
    if find_variant(vs, v) is Some {
        if vs[0].id != v {
            assert(find_variant(vs.drop_first(), v) is Some);
            assert(vs.drop_first()[0] == vs[1]);
            if vs[1].id != v {
                assert(vs.drop_first().drop_first().len() == 0);
                assert(find_variant(vs.drop_first(), v) == find_variant(
                    vs.drop_first().drop_first(),
                    v,
                ));
            }
        }
    }
}

/// In the bundled AWS catalogue, every cache variant that is not a single
/// point of failure and fails over is written as a replication group with
/// two cache clusters, automatic failover and Multi-AZ turned on.
pub proof fn law_redundant_cache_fails_over(a: ArchView, r: ResourceView, v: Seq<char>)
    requires
        r.kind == ResourceKind::Cache,
        spec_variant(spec_aws(), ResourceKind::Cache, v) is Some,
        !spec_variant(spec_aws(), ResourceKind::Cache, v)->0.spof,
        spec_variant(spec_aws(), ResourceKind::Cache, v)->0.failover_seconds is Some,
    ensures
        resource_ops(a, r, v)[0] == HclOp::Open(
            res_header("aws_elasticache_replication_group"@, spec_local_name(r.id)),
        ),
        resource_ops(a, r, v).contains(HclOp::Attr("num_cache_clusters"@, "2"@)),
        resource_ops(a, r, v).contains(HclOp::Attr("automatic_failover_enabled"@, "true"@)),
        resource_ops(a, r, v).contains(HclOp::Attr("multi_az_enabled"@, "true"@)),
{
    lemma_aws_cache_variants(v);
    assert(v == "elasticache"@);
    let ops = resource_ops(a, r, v);
    assert(ops == elasticache_ops(a, r, spec_local_name(r.id)));
    assert(ops[5] == HclOp::Attr("num_cache_clusters"@, "2"@));
    assert(ops[6] == HclOp::Attr("automatic_failover_enabled"@, "true"@));
    assert(ops[7] == HclOp::Attr("multi_az_enabled"@, "true"@));
}

} // verus!
