//! Dependency resolution for the emitter: which Terraform addresses a
//! resource's `depends_on` and wiring attributes point at.

use vstd::prelude::*;

use crate::iac::hcl::{spec_local_name, local_name, Hcl, HclOp};
use crate::lint::{resolve, resolve_exec};
use crate::seqs::lemma_filter_push;
use crate::text::{
    cat, cat3, contains_str, insert_sorted, join, join_exec, lemma_sorted_set, sorted_set, str_eq,
    strictly_sorted, views,
};
use crate::analysis::lemma_first_index;
use crate::{distinct_ids, has_id, is_first, Architecture, ArchView, EdgeView, Resource, ResourceKind, ResourceView};

verus! {

// ---------------------------------------------------------------------------
// Primary addresses
// ---------------------------------------------------------------------------

/// The Terraform resource type of the primary block emitted for a
/// (kind, variant), if that pair has an emitter.
pub open spec fn primary_type(kind: ResourceKind, variant: Seq<char>) -> Option<Seq<char>> {
    match kind {
        ResourceKind::Compute => if variant == "ec2-asg"@ {
            Some("aws_autoscaling_group"@)
        } else {
            None
        },
        ResourceKind::Database => if variant == "rds-single-az"@ || variant == "rds-multi-az"@ {
            Some("aws_db_instance"@)
        } else if variant == "aurora"@ {
            Some("aws_rds_cluster"@)
        } else if variant == "dynamodb"@ {
            Some("aws_dynamodb_table"@)
        } else {
            None
        },
        ResourceKind::LoadBalancer => if variant == "alb"@ {
            Some("aws_lb"@)
        } else {
            None
        },
        ResourceKind::ObjectStore => if variant == "s3"@ {
            Some("aws_s3_bucket"@)
        } else {
            None
        },
        ResourceKind::Cache => if variant == "elasticache"@ {
            Some("aws_elasticache_replication_group"@)
        } else {
            None
        },
        ResourceKind::Queue => if variant == "sqs"@ {
            Some("aws_sqs_queue"@)
        } else {
            None
        },
        ResourceKind::Cdn => if variant == "cloudfront"@ {
            Some("aws_cloudfront_distribution"@)
        } else {
            None
        },
        ResourceKind::Dns => if variant == "route53"@ {
            Some("aws_route53_record"@)
        } else {
            None
        },
        ResourceKind::Functions => if variant == "lambda"@ {
            Some("aws_lambda_function"@)
        } else {
            None
        },
        ResourceKind::ApiGateway => if variant == "apigw-http"@ {
            Some("aws_apigatewayv2_api"@)
        } else {
            None
        },
    }
}

/// The Terraform address a `depends_on` entry for this resource points at.
pub open spec fn address_of(kind: ResourceKind, variant: Seq<char>, id: Seq<char>) -> Option<
    Seq<char>,
> {
    match primary_type(kind, variant) {
        Some(t) => Some(t + "."@ + spec_local_name(id)),
        None => None,
    }
}

fn primary_type_exec(kind: ResourceKind, variant: &str) -> (r: Option<&'static str>)
    ensures
        match r {
            Some(t) => primary_type(kind, variant@) == Some(t@),
            None => primary_type(kind, variant@) is None,
        },
{
    match kind {
        ResourceKind::Compute => if str_eq(variant, "ec2-asg") {
            Some("aws_autoscaling_group")
        } else {
            None
        },
        ResourceKind::Database => if str_eq(variant, "rds-single-az") || str_eq(
            variant,
            "rds-multi-az",
        ) {
            Some("aws_db_instance")
        } else if str_eq(variant, "aurora") {
            Some("aws_rds_cluster")
        } else if str_eq(variant, "dynamodb") {
            Some("aws_dynamodb_table")
        } else {
            None
        },
        ResourceKind::LoadBalancer => if str_eq(variant, "alb") {
            Some("aws_lb")
        } else {
            None
        },
        ResourceKind::ObjectStore => if str_eq(variant, "s3") {
            Some("aws_s3_bucket")
        } else {
            None
        },
        ResourceKind::Cache => if str_eq(variant, "elasticache") {
            Some("aws_elasticache_replication_group")
        } else {
            None
        },
        ResourceKind::Queue => if str_eq(variant, "sqs") {
            Some("aws_sqs_queue")
        } else {
            None
        },
        ResourceKind::Cdn => if str_eq(variant, "cloudfront") {
            Some("aws_cloudfront_distribution")
        } else {
            None
        },
        ResourceKind::Dns => if str_eq(variant, "route53") {
            Some("aws_route53_record")
        } else {
            None
        },
        ResourceKind::Functions => if str_eq(variant, "lambda") {
            Some("aws_lambda_function")
        } else {
            None
        },
        ResourceKind::ApiGateway => if str_eq(variant, "apigw-http") {
            Some("aws_apigatewayv2_api")
        } else {
            None
        },
    }
}

/// The Terraform address a `depends_on` entry for this resource points at.
pub fn primary_address(kind: ResourceKind, variant: &str, id: &str) -> (r: Option<String>)
    ensures
        match r {
            Some(a) => address_of(kind, variant@, id@) == Some(a@),
            None => address_of(kind, variant@, id@) is None,
        },
{
    let ln = local_name(id);
    match primary_type_exec(kind, variant) {
        Some(ty) => Some(cat3(ty, ".", ln.as_str())),
        None => None,
    }
}

// ---------------------------------------------------------------------------
// Neighbours
// ---------------------------------------------------------------------------

/// Some edge links `id` to `t`: `id -> t` when `outbound`, else `t -> id`.
pub open spec fn linked(es: Seq<EdgeView>, id: Seq<char>, outbound: bool, t: Seq<char>) -> bool {
    exists|k: int|
        0 <= k < es.len() && if outbound {
            (#[trigger] es[k]).from == id && es[k].to == t
        } else {
            es[k].to == id && es[k].from == t
        }
}

/// The ids linked to `id`, in the given direction.
pub open spec fn neighbours(es: Seq<EdgeView>, id: Seq<char>, outbound: bool) -> Set<Seq<char>> {
    Set::new(|t: Seq<char>| linked(es, id, outbound, t))
}

/// The ids linked to `id` in the given direction, sorted, without repeats.
fn sorted_neighbours(arch: &Architecture, id: &str, outbound: bool) -> (v: Vec<String>)
    ensures
        views(v@) == sorted_set(neighbours(arch@.edges, id@, outbound)),
{
    let ghost es = arch@.edges;
    let mut v: Vec<String> = Vec::new();
    let mut i: usize = 0;
    while i < arch.edges.len()
        invariant
            es == arch@.edges,
            0 <= i <= es.len(),
            strictly_sorted(views(v@)),
            views(v@).to_set() == neighbours(es.take(i as int), id@, outbound),
        decreases es.len() - i,
    {
        let e = &arch.edges[i];
        let ghost before = views(v@).to_set();
        assert(es[i as int] == e@);
        let hit = if outbound {
            str_eq(e.from.as_str(), id)
        } else {
            str_eq(e.to.as_str(), id)
        };
        let ghost other = if outbound {
            e.to@
        } else {
            e.from@
        };
        if hit {
            if outbound {
                insert_sorted(&mut v, e.to.as_str());
            } else {
                insert_sorted(&mut v, e.from.as_str());
            }
        }
        proof {
            let pre = es.take(i as int);
            let post = es.take(i + 1);
            assert forall|t: Seq<char>| linked(post, id@, outbound, t) <==> (linked(
                pre,
                id@,
                outbound,
                t,
            ) || (hit && t == other)) by {
                if linked(post, id@, outbound, t) {
                    let k = choose|k: int|
                        0 <= k < post.len() && if outbound {
                            (#[trigger] post[k]).from == id@ && post[k].to == t
                        } else {
                            post[k].to == id@ && post[k].from == t
                        };
                    if k < i {
                        assert(pre[k] == post[k]);
                    }
                }
                if linked(pre, id@, outbound, t) {
                    let k = choose|k: int|
                        0 <= k < pre.len() && if outbound {
                            (#[trigger] pre[k]).from == id@ && pre[k].to == t
                        } else {
                            pre[k].to == id@ && pre[k].from == t
                        };
                    assert(post[k] == pre[k]);
                }
                if hit && t == other {
                    assert(post[i as int] == es[i as int]);
                }
            }
            if hit {
                assert(views(v@).to_set() =~= neighbours(post, id@, outbound));
            } else {
                assert(views(v@).to_set() =~= neighbours(post, id@, outbound));
            }
        }
        i = i + 1;
    }
    assert(es.take(es.len() as int) =~= es);
    proof {
        lemma_sorted_set(views(v@), neighbours(es, id@, outbound));
    }
    v
}

// ---------------------------------------------------------------------------
// Resolved dependencies
// ---------------------------------------------------------------------------

/// The addresses of a list of resolved dependencies.
pub open spec fn dep_addrs(ds: Seq<(ResourceView, Seq<char>)>) -> Seq<Seq<char>> {
    ds.map_values(|d: (ResourceView, Seq<char>)| d.1)
}

/// Resolve target ids in order: the first resource with each id, when it has
/// a variant with a primary address not already taken by an earlier target.
pub open spec fn resolve_all(rs: Seq<ResourceView>, ts: Seq<Seq<char>>) -> Seq<
    (ResourceView, Seq<char>),
>
    decreases ts.len(),
{
    if ts.len() == 0 {
        Seq::empty()
    } else {
        let prev = resolve_all(rs, ts.drop_last());
        match resolve(rs, ts.last()) {
            Some(dep) => match dep.variant {
                Some(v) => match address_of(dep.kind, v, dep.id) {
                    Some(addr) => if dep_addrs(prev).contains(addr) {
                        prev
                    } else {
                        prev.push((dep, addr))
                    },
                    None => prev,
                },
                None => prev,
            },
            None => prev,
        }
    }
}

/// The resources `id` depends on (its out-edges) that have a primary
/// address, each with that address: in target-id order, one per address.
pub open spec fn resolved_deps(a: ArchView, id: Seq<char>) -> Seq<(ResourceView, Seq<char>)> {
    resolve_all(a.resources, sorted_set(neighbours(a.edges, id, true)))
}

pub open spec fn deps_view(v: Seq<(Resource, String)>) -> Seq<(ResourceView, Seq<char>)> {
    v.map_values(|d: (Resource, String)| (d.0@, d.1@))
}

/// The resources `id` depends on, each paired with its primary Terraform
/// address; sorted by target id, one per address, unconfigured targets dropped.
pub fn resolve_deps(arch: &Architecture, id: &str) -> (out: Vec<(Resource, String)>)
    ensures
        deps_view(out@) == resolved_deps(arch@, id@),
{
    let targets = sorted_neighbours(arch, id, true);
    let ghost ts = views(targets@);
    let ghost rs = arch@.resources;
    let mut out: Vec<(Resource, String)> = Vec::new();
    let mut seen: Vec<String> = Vec::new();
    let mut i: usize = 0;
    while i < targets.len()
        invariant
            ts == views(targets@),
            rs == arch@.resources,
            0 <= i <= ts.len(),
            deps_view(out@) == resolve_all(rs, ts.take(i as int)),
            views(seen@) == dep_addrs(deps_view(out@)),
        decreases ts.len() - i,
    {
        let ghost prev = deps_view(out@);
        let ghost pre = ts.take(i as int);
        let ghost cur = ts.take(i + 1);
        assert(cur.drop_last() =~= pre);
        assert(cur.last() == targets@[i as int]@);
        match resolve_exec(arch, targets[i].as_str()) {
            Some(dep) => match &dep.variant {
                Some(v) => match primary_address(dep.kind, v.as_str(), dep.id.as_str()) {
                    Some(addr) => {
                        if !contains_str(&seen, addr.as_str()) {
                            let ghost entry = (dep@, addr@);
                            let ghost old_seen = views(seen@);
                            seen.push(addr.clone());
                            out.push((dep.clone_resource(), addr));
                            assert(deps_view(out@) =~= prev.push(entry));
                            assert(views(seen@) =~= old_seen.push(entry.1));
                            assert(dep_addrs(prev.push(entry)) =~= dep_addrs(prev).push(entry.1));
                        }
                    },
                    None => {},
                },
                None => {},
            },
            None => {},
        }
        i = i + 1;
    }
    assert(ts.take(ts.len() as int) =~= ts);
    out
}

/// The addresses among resolved dependencies that are ALB-fronted compute.
pub open spec fn wired_compute(ds: Seq<(ResourceView, Seq<char>)>) -> Seq<Seq<char>> {
    dep_addrs(
        ds.filter(
            |d: (ResourceView, Seq<char>)|
                d.0.kind == ResourceKind::Compute && d.0.variant == Some("ec2-asg"@),
        ),
    )
}

/// Terraform addresses of a resource's dependencies that are ALB-fronted
/// compute: the `alb -> compute` edge is realised by the group's
/// `target_group_arns`, so the ALB needs no `depends_on` back to it.
pub fn alb_wired_compute(arch: &Architecture, id: &str) -> (r: Vec<String>)
    ensures
        views(r@) == wired_compute(resolved_deps(arch@, id@)),
{
    let deps = resolve_deps(arch, id);
    let ghost ds = deps_view(deps@);
    let ghost p = |d: (ResourceView, Seq<char>)|
        d.0.kind == ResourceKind::Compute && d.0.variant == Some("ec2-asg"@);
    let mut r: Vec<String> = Vec::new();
    let mut i: usize = 0;
    while i < deps.len()
        invariant
            ds == deps_view(deps@),
            p == (|d: (ResourceView, Seq<char>)|
                d.0.kind == ResourceKind::Compute && d.0.variant == Some("ec2-asg"@)),
            0 <= i <= ds.len(),
            views(r@) == dep_addrs(ds.take(i as int).filter(p)),
        decreases ds.len() - i,
    {
        proof {
            assert(ds.take(i + 1) =~= ds.take(i as int).push(ds[i as int]));
            lemma_filter_push(ds.take(i as int), p, ds[i as int]);
        }
        let d = &deps[i];
        let is_asg = match &d.0.variant {
            Some(v) => str_eq(v.as_str(), "ec2-asg"),
            None => false,
        };
        let ghost before = views(r@);
        if d.0.kind == ResourceKind::Compute && is_asg {
            r.push(d.1.clone());
            assert(views(r@) =~= before.push(ds[i as int].1));
            assert(dep_addrs(ds.take(i + 1).filter(p)) =~= dep_addrs(ds.take(i as int).filter(p)).push(ds[i as int].1));
        } else {
            assert(dep_addrs(ds.take(i + 1).filter(p)) =~= dep_addrs(ds.take(i as int).filter(p)));
        }
        i = i + 1;
    }
    assert(ds.take(ds.len() as int) =~= ds);
    r
}

// ---------------------------------------------------------------------------
// depends_on
// ---------------------------------------------------------------------------

/// The addresses a `depends_on` list holds: resolved dependencies not already
/// wired through an attribute reference.
pub open spec fn unwired(a: ArchView, id: Seq<char>, wired: Seq<Seq<char>>) -> Set<Seq<char>> {
    Set::new(|x: Seq<char>| dep_addrs(resolved_deps(a, id)).contains(x) && !wired.contains(x))
}

/// A `depends_on = [...]` line listing the unwired dependencies, sorted;
/// nothing when there are none.
pub open spec fn depends_on_ops(a: ArchView, id: Seq<char>, wired: Seq<Seq<char>>) -> Seq<HclOp> {
    let ds = sorted_set(unwired(a, id, wired));
    if ds.len() == 0 {
        Seq::empty()
    } else {
        seq![HclOp::Attr("depends_on"@, "["@ + join(ds, ", "@) + "]"@)]
    }
}

/// Write a `depends_on = [...]` line for every out-edge not already wired
/// through a concrete attribute reference (`wired`).
pub fn write_depends_on(h: &mut Hcl, arch: &Architecture, id: &str, wired: &Vec<String>)
    requires
        old(h).wf(),
    ensures
        final(h).wf(),
        final(h).ops@ == old(h).ops@ + depends_on_ops(arch@, id@, views(wired@)),
        final(h).indent == old(h).indent,
{
    let deps = resolve_deps(arch, id);
    let ghost ds = deps_view(deps@);
    let ghost target = unwired(arch@, id@, views(wired@));
    let mut list: Vec<String> = Vec::new();
    let mut i: usize = 0;
    while i < deps.len()
        invariant
            ds == deps_view(deps@),
            ds == resolved_deps(arch@, id@),
            target == unwired(arch@, id@, views(wired@)),
            0 <= i <= ds.len(),
            strictly_sorted(views(list@)),
            views(list@).to_set() == Set::new(
                |x: Seq<char>| dep_addrs(ds.take(i as int)).contains(x) && !views(wired@).contains(x),
            ),
        decreases ds.len() - i,
    {
        let ghost pre = dep_addrs(ds.take(i as int));
        let ghost post = dep_addrs(ds.take(i + 1));
        assert(post =~= pre.push(ds[i as int].1));
        let a = &deps[i].1;
        if !contains_str(wired, a.as_str()) {
            insert_sorted(&mut list, a.as_str());
        }
        assert(views(list@).to_set() =~= Set::new(
            |x: Seq<char>| post.contains(x) && !views(wired@).contains(x),
        )) by {
            assert forall|x: Seq<char>| post.contains(x) <==> (pre.contains(x) || x == ds[i as int].1) by {
                if post.contains(x) {
                    let k = choose|k: int| 0 <= k < post.len() && post[k] == x;
                    if k < pre.len() {
                        assert(pre[k] == x);
                    }
                }
                if pre.contains(x) {
                    let k = choose|k: int| 0 <= k < pre.len() && pre[k] == x;
                    assert(post[k] == x);
                }
                if x == ds[i as int].1 {
                    assert(post[i as int] == x);
                }
            }
        }
        i = i + 1;
    }
    assert(ds.take(ds.len() as int) =~= ds);
    assert(views(list@).to_set() =~= target);
    proof {
        lemma_sorted_set(views(list@), target);
    }
    if list.len() > 0 {
        let joined = join_exec(&list, ", ");
        let value = cat3("[", joined.as_str(), "]");
        h.attr("depends_on", value.as_str());
    }
    assert(h.ops@ =~= old(h).ops@ + depends_on_ops(arch@, id@, views(wired@)));
}

// ---------------------------------------------------------------------------
// Inbound target groups
// ---------------------------------------------------------------------------

/// The target-group ARN references of the ALBs among these ids, in order.
pub open spec fn target_groups(rs: Seq<ResourceView>, froms: Seq<Seq<char>>) -> Seq<Seq<char>>
    decreases froms.len(),
{
    if froms.len() == 0 {
        Seq::empty()
    } else {
        let prev = target_groups(rs, froms.drop_last());
        match resolve(rs, froms.last()) {
            Some(lb) => if lb.kind == ResourceKind::LoadBalancer && lb.variant == Some("alb"@) {
                prev.push("aws_lb_target_group."@ + spec_local_name(lb.id) + ".arn"@)
            } else {
                prev
            },
            None => prev,
        }
    }
}

/// Inbound ALB target groups of a compute node (edges `alb -> compute`),
/// ordered by the ALB's id.
pub open spec fn inbound_target_groups(a: ArchView, id: Seq<char>) -> Seq<Seq<char>> {
    target_groups(a.resources, sorted_set(neighbours(a.edges, id, false)))
}

/// Inbound ALB target groups for a compute node (edges `alb -> compute`).
pub fn inbound_alb_target_groups(arch: &Architecture, compute_id: &str) -> (r: Vec<String>)
    ensures
        views(r@) == inbound_target_groups(arch@, compute_id@),
{
    let froms = sorted_neighbours(arch, compute_id, false);
    let ghost fs = views(froms@);
    let mut r: Vec<String> = Vec::new();
    let mut i: usize = 0;
    while i < froms.len()
        invariant
            fs == views(froms@),
            0 <= i <= fs.len(),
            views(r@) == target_groups(arch@.resources, fs.take(i as int)),
        decreases fs.len() - i,
    {
        let ghost before = views(r@);
        assert(fs.take(i + 1).drop_last() =~= fs.take(i as int));
        assert(fs.take(i + 1).last() == froms@[i as int]@);
        match resolve_exec(arch, froms[i].as_str()) {
            Some(lb) => {
                let is_alb = match &lb.variant {
                    Some(v) => str_eq(v.as_str(), "alb"),
                    None => false,
                };
                if lb.kind == ResourceKind::LoadBalancer && is_alb {
                    let ln = local_name(lb.id.as_str());
                    r.push(cat3("aws_lb_target_group.", ln.as_str(), ".arn"));
                    assert(views(r@) =~= before.push(
                        "aws_lb_target_group."@ + spec_local_name(lb.id@) + ".arn"@,
                    ));
                }
            },
            None => {},
        }
        i = i + 1;
    }
    assert(fs.take(fs.len() as int) =~= fs);
    r
}

// ---------------------------------------------------------------------------
// Independence of listing order
// ---------------------------------------------------------------------------

/// Two listings of one set of resources with distinct ids resolve every id
/// to the same resource.
proof fn lemma_resolve_same(ra: Seq<ResourceView>, rb: Seq<ResourceView>, id: Seq<char>)
    requires
        distinct_ids(ra),
        distinct_ids(rb),
        ra.to_multiset() == rb.to_multiset(),
    ensures
        resolve(ra, id) == resolve(rb, id),
{
    broadcast use vstd::seq_lib::group_to_multiset_ensures;

    if has_id(ra, id) {
        let i = choose|i: int| 0 <= i < ra.len() && ra[i].id == id;
        assert(is_first(ra, id, i));
        lemma_first_index(ra, id, i);
        assert(ra.contains(ra[i]));
        assert(ra.to_multiset().count(ra[i]) > 0);
        assert(rb.contains(ra[i]));
        let j = choose|j: int| 0 <= j < rb.len() && rb[j] == ra[i];
        assert(is_first(rb, id, j));
        lemma_first_index(rb, id, j);
    } else if has_id(rb, id) {
        let j = choose|j: int| 0 <= j < rb.len() && rb[j].id == id;
        assert(rb.contains(rb[j]));
        assert(rb.to_multiset().count(rb[j]) > 0);
        assert(ra.contains(rb[j]));
    }
}

proof fn lemma_resolve_all_same(ra: Seq<ResourceView>, rb: Seq<ResourceView>, ts: Seq<Seq<char>>)
    requires
        distinct_ids(ra),
        distinct_ids(rb),
        ra.to_multiset() == rb.to_multiset(),
    ensures
        resolve_all(ra, ts) == resolve_all(rb, ts),
    decreases ts.len(),
{
    if ts.len() > 0 {
        lemma_resolve_all_same(ra, rb, ts.drop_last());
        lemma_resolve_same(ra, rb, ts.last());
    }
}

proof fn lemma_target_groups_same(ra: Seq<ResourceView>, rb: Seq<ResourceView>, fs: Seq<Seq<char>>)
    requires
        distinct_ids(ra),
        distinct_ids(rb),
        ra.to_multiset() == rb.to_multiset(),
    ensures
        target_groups(ra, fs) == target_groups(rb, fs),
    decreases fs.len(),
{
    if fs.len() > 0 {
        lemma_target_groups_same(ra, rb, fs.drop_last());
        lemma_resolve_same(ra, rb, fs.last());
    }
}

/// Two listings of one multiset of edges give every id the same neighbours.
proof fn lemma_neighbours_same(ea: Seq<EdgeView>, eb: Seq<EdgeView>, id: Seq<char>, outbound: bool)
    requires
        ea.to_multiset() == eb.to_multiset(),
    ensures
        neighbours(ea, id, outbound) == neighbours(eb, id, outbound),
{
    broadcast use vstd::seq_lib::group_to_multiset_ensures;

    assert forall|t: Seq<char>| linked(ea, id, outbound, t) implies linked(eb, id, outbound, t) by {
        let k = choose|k: int|
            0 <= k < ea.len() && if outbound {
                (#[trigger] ea[k]).from == id && ea[k].to == t
            } else {
                ea[k].to == id && ea[k].from == t
            };
        assert(ea.contains(ea[k]));
        assert(ea.to_multiset().count(ea[k]) > 0);
        assert(eb.contains(ea[k]));
        let j = choose|j: int| 0 <= j < eb.len() && eb[j] == ea[k];
        assert(eb[j] == ea[k]);
    }
    assert forall|t: Seq<char>| linked(eb, id, outbound, t) implies linked(ea, id, outbound, t) by {
        let k = choose|k: int|
            0 <= k < eb.len() && if outbound {
                (#[trigger] eb[k]).from == id && eb[k].to == t
            } else {
                eb[k].to == id && eb[k].from == t
            };
        assert(eb.contains(eb[k]));
        assert(eb.to_multiset().count(eb[k]) > 0);
        assert(ea.contains(eb[k]));
        let j = choose|j: int| 0 <= j < ea.len() && ea[j] == eb[k];
        assert(ea[j] == eb[k]);
    }
    assert(neighbours(ea, id, outbound) =~= neighbours(eb, id, outbound));
}

/// Listing the resources (with distinct ids) and the edges in another order
/// changes no resolved dependency, inbound target group or `depends_on` line.
pub(crate) proof fn lemma_deps_order_free(a: ArchView, b: ArchView)
    requires
        distinct_ids(a.resources),
        distinct_ids(b.resources),
        a.resources.to_multiset() == b.resources.to_multiset(),
        a.edges.to_multiset() == b.edges.to_multiset(),
    ensures
        forall|id: Seq<char>| #[trigger] resolved_deps(a, id) == resolved_deps(b, id),
        forall|id: Seq<char>| #[trigger] inbound_target_groups(a, id) == inbound_target_groups(b, id),
        forall|id: Seq<char>, w: Seq<Seq<char>>| #[trigger] depends_on_ops(a, id, w) == depends_on_ops(b, id, w),
{
    assert forall|id: Seq<char>| #[trigger] resolved_deps(a, id) == resolved_deps(b, id) by {
        lemma_neighbours_same(a.edges, b.edges, id, true);
        lemma_resolve_all_same(a.resources, b.resources, sorted_set(neighbours(a.edges, id, true)));
    }
    assert forall|id: Seq<char>| #[trigger] inbound_target_groups(a, id) == inbound_target_groups(b, id) by {
        lemma_neighbours_same(a.edges, b.edges, id, false);
        lemma_target_groups_same(a.resources, b.resources, sorted_set(neighbours(a.edges, id, false)));
    }
    assert forall|id: Seq<char>, w: Seq<Seq<char>>| #[trigger] depends_on_ops(a, id, w) == depends_on_ops(b, id, w) by {
        assert(resolved_deps(a, id) == resolved_deps(b, id));
        assert(unwired(a, id, w) =~= unwired(b, id, w));
    }
}

} // verus!
