//! Deterministic failure analysis over an [`Architecture`].
//!
//! * Blast radius: given the resources knocked out (say, everything in a
//!   failed availability zone), what else becomes unavailable and what merely
//!   degrades.
//! * Single points of failure: resources whose variant is a SPOF by
//!   construction, with what they take down.
//!
//! Edge direction: `a -> b` means `a` depends on `b`. A resource's dependencies
//! are grouped by the kind of the depended-on resource, so two compute nodes
//! behind one load balancer form one redundant group.

use vstd::prelude::*;

use crate::profile::{spec_variant, ProfileView, ProviderProfile};
use crate::text::{
    cat, contains_str, dec, dec_string, insert_sorted, lemma_strictly_sorted_unique, owned,
    str_eq, strictly_sorted, views,
};
use crate::{
    has_id, is_first, spec_slug, ArchView, Architecture, EdgeView, PlacementView, ResourceKind,
    ResourceView,
};

verus! {

broadcast use vstd::seq_lib::group_seq_properties;

/// The outcome of a simulated failure.
#[derive(Debug, Clone, PartialEq)]
pub struct BlastReport {
    /// What failed, e.g. `"AZ us-east-1a"`.
    pub target: String,
    /// Fully unavailable: the seed plus everything transitively cut off.
    pub down: Vec<String>,
    /// Still serving but impaired: lost a redundant peer, or mid-failover.
    pub degraded: Vec<String>,
    /// Unaffected.
    pub healthy: Vec<String>,
    /// Plain-language remarks on the degraded entries.
    pub notes: Vec<String>,
}

/// A single point of failure and what it orphans.
#[derive(Debug, Clone, PartialEq)]
pub struct Spof {
    pub id: String,
    pub orphans: Vec<String>,
}

// ---------------------------------------------------------------------------
// The model: dependency groups and the down set
// ---------------------------------------------------------------------------

/// The position of the first resource with this id.
pub open spec fn first_index(rs: Seq<ResourceView>, id: Seq<char>) -> int {
    choose|i: int| is_first(rs, id, i)
}

/// The kind of the first resource with this id, if there is one.
pub open spec fn kind_of(rs: Seq<ResourceView>, id: Seq<char>) -> Option<ResourceKind> {
    if has_id(rs, id) {
        Some(rs[first_index(rs, id)].kind)
    } else {
        None
    }
}

/// The edge is one of `x`'s dependencies on a resource of kind `k`.
pub open spec fn in_group(rs: Seq<ResourceView>, x: Seq<char>, k: ResourceKind) -> spec_fn(
    EdgeView,
) -> bool {
    |e: EdgeView| e.from == x && kind_of(rs, e.to) == Some(k)
}

/// `x` depends on at least one resource of kind `k`, and every one of them is
/// in `d`.
pub open spec fn group_down(
    rs: Seq<ResourceView>,
    es: Seq<EdgeView>,
    x: Seq<char>,
    k: ResourceKind,
    d: Set<Seq<char>>,
) -> bool {
    &&& exists|i: int| 0 <= i < es.len() && #[trigger] in_group(rs, x, k)(es[i])
    &&& forall|i: int| 0 <= i < es.len() && #[trigger] in_group(rs, x, k)(es[i]) ==> d.contains(
        es[i].to,
    )
}

/// Some dependency group of `x` is entirely in `d`, so `x` goes down with it.
pub open spec fn falls(rs: Seq<ResourceView>, es: Seq<EdgeView>, x: Seq<char>, d: Set<Seq<char>>) -> bool {
    exists|k: ResourceKind| #[trigger] group_down(rs, es, x, k, d)
}

/// `d` holds every seed that names a resource, and every resource that falls
/// when `d` is down.
pub open spec fn closed(a: ArchView, seed: Set<Seq<char>>, d: Set<Seq<char>>) -> bool {
    &&& forall|s: Seq<char>| seed.contains(s) && has_id(a.resources, s) ==> #[trigger] d.contains(s)
    &&& forall|i: int|
        0 <= i < a.resources.len() && falls(a.resources, a.edges, #[trigger] a.resources[i].id, d)
            ==> d.contains(a.resources[i].id)
}

/// `d` is the least closed set: exactly what the failure of the seed takes down.
pub open spec fn least_closed(a: ArchView, seed: Set<Seq<char>>, d: Set<Seq<char>>) -> bool {
    &&& closed(a, seed, d)
    &&& forall|s: Set<Seq<char>>| #[trigger] closed(a, seed, s) ==> d.subset_of(s)
}

/// The ids that go down when the seed fails.
pub open spec fn spec_down(a: ArchView, seed: Set<Seq<char>>) -> Set<Seq<char>> {
    choose|d: Set<Seq<char>>| least_closed(a, seed, d)
}

/// The dependency edges of `x` on kind `k`.
pub open spec fn group_edges(rs: Seq<ResourceView>, es: Seq<EdgeView>, x: Seq<char>, k: ResourceKind) -> Seq<
    EdgeView,
> {
    es.filter(in_group(rs, x, k))
}

/// How many of those edges point into `d`.
pub open spec fn group_down_count(
    rs: Seq<ResourceView>,
    es: Seq<EdgeView>,
    x: Seq<char>,
    k: ResourceKind,
    d: Set<Seq<char>>,
) -> nat {
    group_edges(rs, es, x, k).filter(|e: EdgeView| d.contains(e.to)).len()
}

/// The kinds in the order of their slugs.
pub open spec fn slug_order() -> Seq<ResourceKind> {
    seq![
        ResourceKind::ApiGateway,
        ResourceKind::Cache,
        ResourceKind::Cdn,
        ResourceKind::Compute,
        ResourceKind::Database,
        ResourceKind::Dns,
        ResourceKind::Functions,
        ResourceKind::LoadBalancer,
        ResourceKind::ObjectStore,
        ResourceKind::Queue,
    ]
}

/// The first group (in slug order, from position `from`) that lost some but
/// not all of its members, with how many it lost and its size.
pub open spec fn partial_from(
    rs: Seq<ResourceView>,
    es: Seq<EdgeView>,
    x: Seq<char>,
    d: Set<Seq<char>>,
    from: nat,
) -> Option<(ResourceKind, nat, nat)>
    decreases 10 - from,
{
    if from >= 10 {
        None
    } else {
        let k = slug_order()[from as int];
        let n = group_down_count(rs, es, x, k, d);
        let t = group_edges(rs, es, x, k).len();
        if 0 < n && n < t {
            Some((k, n, t))
        } else {
            partial_from(rs, es, x, d, from + 1)
        }
    }
}

/// The note for a resource that stays up but is impaired, if it is.
pub open spec fn degraded_note(
    a: ArchView,
    p: ProfileView,
    d: Set<Seq<char>>,
    failed_region: Option<Seq<char>>,
    r: ResourceView,
) -> Option<Seq<char>> {
    if d.contains(r.id) {
        None
    } else if let Some((k, n, t)) = partial_from(a.resources, a.edges, r.id, d, 0) {
        Some(r.label + " lost "@ + dec(n) + " of "@ + dec(t) + " "@ + spec_slug(k) + " dependencies"@)
    } else if failed_region is Some && r.placement.region == failed_region && r.variant is Some
        && spec_variant(p, r.kind, r.variant->0) is Some && spec_variant(
        p,
        r.kind,
        r.variant->0,
    )->0.failover_seconds is Some {
        let secs = spec_variant(p, r.kind, r.variant->0)->0.failover_seconds->0;
        Some(r.label + " may briefly fail over (~"@ + dec(secs as nat) + "s)"@)
    } else {
        None
    }
}

/// The notes, one per impaired resource, in resource order.
pub open spec fn spec_notes(
    a: ArchView,
    p: ProfileView,
    d: Set<Seq<char>>,
    failed_region: Option<Seq<char>>,
    rs: Seq<ResourceView>,
) -> Seq<Seq<char>>
    decreases rs.len(),
{
    if rs.len() == 0 {
        seq![]
    } else {
        spec_notes(a, p, d, failed_region, rs.drop_last()) + match degraded_note(
            a,
            p,
            d,
            failed_region,
            rs.last(),
        ) {
            Some(n) => seq![n],
            None => Seq::<Seq<char>>::empty(),
        }
    }
}

/// The ids of the impaired resources.
pub open spec fn spec_degraded(
    a: ArchView,
    p: ProfileView,
    d: Set<Seq<char>>,
    failed_region: Option<Seq<char>>,
) -> Set<Seq<char>> {
    Set::new(
        |id: Seq<char>|
            exists|i: int|
                0 <= i < a.resources.len() && #[trigger] a.resources[i].id == id && degraded_note(
                    a,
                    p,
                    d,
                    failed_region,
                    a.resources[i],
                ) is Some,
    )
}

/// The ids of the resources that are neither down nor impaired.
pub open spec fn spec_healthy(a: ArchView, d: Set<Seq<char>>, g: Set<Seq<char>>) -> Set<Seq<char>> {
    Set::new(
        |id: Seq<char>|
            exists|i: int|
                0 <= i < a.resources.len() && #[trigger] a.resources[i].id == id && !d.contains(id)
                    && !g.contains(id),
    )
}

// ---------------------------------------------------------------------------
// Proofs about the model
// ---------------------------------------------------------------------------

pub proof fn lemma_first_index(rs: Seq<ResourceView>, id: Seq<char>, i: int)
    requires
        is_first(rs, id, i),
    ensures
        first_index(rs, id) == i,
        kind_of(rs, id) == Some(rs[i].kind),
{
    let j = first_index(rs, id);
    assert(is_first(rs, id, j));
    if j < i {
        assert(rs[j].id != id);
    }
    if i < j {
        assert(rs[i].id != id);
    }
}

proof fn lemma_falls_monotone(
    rs: Seq<ResourceView>,
    es: Seq<EdgeView>,
    x: Seq<char>,
    d: Set<Seq<char>>,
    s: Set<Seq<char>>,
)
    requires
        falls(rs, es, x, d),
        d.subset_of(s),
    ensures
        falls(rs, es, x, s),
{
    let k = choose|k: ResourceKind| #[trigger] group_down(rs, es, x, k, d);
    assert(group_down(rs, es, x, k, s));
}

/// Two least closed sets are equal.
proof fn lemma_least_unique(a: ArchView, seed: Set<Seq<char>>, d: Set<Seq<char>>)
    requires
        least_closed(a, seed, d),
    ensures
        spec_down(a, seed) == d,
{
    let e = spec_down(a, seed);
    assert(least_closed(a, seed, e));
    assert(closed(a, seed, e));
    assert(closed(a, seed, d));
    assert(d.subset_of(e));
    assert(e.subset_of(d));
    assert(d =~= e);
}

/// The number of resources whose id is not in `d`.
pub open spec fn undone(rs: Seq<ResourceView>, d: Set<Seq<char>>) -> nat
    decreases rs.len(),
{
    if rs.len() == 0 {
        0
    } else {
        undone(rs.drop_last(), d) + if d.contains(rs.last().id) {
            0nat
        } else {
            1nat
        }
    }
}

proof fn lemma_undone_shrinks(rs: Seq<ResourceView>, d: Set<Seq<char>>, e: Set<Seq<char>>, i: int)
    requires
        d.subset_of(e),
        0 <= i < rs.len(),
        !d.contains(rs[i].id),
        e.contains(rs[i].id),
    ensures
        undone(rs, e) < undone(rs, d),
    decreases rs.len(),
{
    lemma_undone_mono(rs.drop_last(), d, e);
    if i < rs.len() - 1 {
        assert(rs.drop_last()[i] == rs[i]);
        lemma_undone_shrinks(rs.drop_last(), d, e, i);
    }
}

proof fn lemma_undone_mono(rs: Seq<ResourceView>, d: Set<Seq<char>>, e: Set<Seq<char>>)
    requires
        d.subset_of(e),
    ensures
        undone(rs, e) <= undone(rs, d),
    decreases rs.len(),
{
    if rs.len() > 0 {
        lemma_undone_mono(rs.drop_last(), d, e);
    }
}

// ---------------------------------------------------------------------------
// Seeds
// ---------------------------------------------------------------------------

/// The resource is explicitly placed in zone `az`.
pub open spec fn in_zone(az: Seq<char>) -> spec_fn(ResourceView) -> bool {
    |r: ResourceView| r.placement.az == Some(az)
}

/// The resource is placed in region `region` and is not a global service.
pub open spec fn in_region(region: Seq<char>) -> spec_fn(ResourceView) -> bool {
    |r: ResourceView|
        !(r.kind == ResourceKind::Cdn || r.kind == ResourceKind::Dns) && r.placement.region == Some(
            region,
        )
}

/// The ids of resources satisfying `p`, in order.
pub open spec fn ids_where(rs: Seq<ResourceView>, p: spec_fn(ResourceView) -> bool) -> Seq<Seq<char>> {
    rs.filter(p).map_values(|r: ResourceView| r.id)
}

/// Resource ids directly knocked out by losing availability zone `az`:
/// anything explicitly placed in it.
pub fn az_failure_seed(arch: &Architecture, az: &str) -> (ids: Vec<String>)
    ensures
        views(ids@) == ids_where(arch@.resources, in_zone(az@)),
{
    let ghost rs = arch@.resources;
    let ghost p = in_zone(az@);
    let mut ids: Vec<String> = Vec::new();
    let mut i: usize = 0;
    while i < arch.resources.len()
        invariant
            rs == arch@.resources,
            p == in_zone(az@),
            0 <= i <= rs.len(),
            views(ids@) == rs.take(i as int).filter(p).map_values(|r: ResourceView| r.id),
        decreases rs.len() - i,
    {
        let ghost prev = rs.take(i as int).filter(p);
        proof {
            assert(rs.take(i + 1) =~= rs.take(i as int).push(rs[i as int]));
            crate::seqs::lemma_filter_push(rs.take(i as int), p, rs[i as int]);
        }
        let r = &arch.resources[i];
        let hit = match &r.placement.az {
            Some(z) => str_eq(z.as_str(), az),
            None => false,
        };
        if hit {
            let ghost before_ids = views(ids@);
            ids.push(r.id.clone());
            assert(views(ids@) =~= before_ids.push(rs[i as int].id));
            assert(prev.push(rs[i as int]).map_values(|r: ResourceView| r.id) =~= prev.map_values(
                |r: ResourceView| r.id,
            ).push(rs[i as int].id));
        }
        i = i + 1;
    }
    assert(rs.take(rs.len() as int) =~= rs);
    ids
}

/// Resource ids knocked out by losing a whole region: everything placed in it
/// except globally distributed services (CDN, DNS).
pub fn region_failure_seed(arch: &Architecture, region: &str) -> (ids: Vec<String>)
    ensures
        views(ids@) == ids_where(arch@.resources, in_region(region@)),
{
    let ghost rs = arch@.resources;
    let ghost p = in_region(region@);
    let mut ids: Vec<String> = Vec::new();
    let mut i: usize = 0;
    while i < arch.resources.len()
        invariant
            rs == arch@.resources,
            p == in_region(region@),
            0 <= i <= rs.len(),
            views(ids@) == rs.take(i as int).filter(p).map_values(|r: ResourceView| r.id),
        decreases rs.len() - i,
    {
        let ghost prev = rs.take(i as int).filter(p);
        proof {
            assert(rs.take(i + 1) =~= rs.take(i as int).push(rs[i as int]));
            crate::seqs::lemma_filter_push(rs.take(i as int), p, rs[i as int]);
        }
        let r = &arch.resources[i];
        let hit = !r.kind.is_global() && match &r.placement.region {
            Some(z) => str_eq(z.as_str(), region),
            None => false,
        };
        if hit {
            let ghost before_ids = views(ids@);
            ids.push(r.id.clone());
            assert(views(ids@) =~= before_ids.push(rs[i as int].id));
            assert(prev.push(rs[i as int]).map_values(|r: ResourceView| r.id) =~= prev.map_values(
                |r: ResourceView| r.id,
            ).push(rs[i as int].id));
        }
        i = i + 1;
    }
    assert(rs.take(rs.len() as int) =~= rs);
    ids
}


// ---------------------------------------------------------------------------
// Dependency groups, executably
// ---------------------------------------------------------------------------

/// The kind of the first resource with this id.
fn kind_of_exec(arch: &Architecture, id: &str) -> (k: Option<ResourceKind>)
    ensures
        k == kind_of(arch@.resources, id@),
{
    match arch.find(id) {
        Some(i) => {
            proof {
                lemma_first_index(arch@.resources, id@, i as int);
            }
            Some(arch.resources[i].kind)
        },
        None => None,
    }
}

/// Whether the dependency group of `x` on kind `k` is entirely down.
fn group_down_exec(arch: &Architecture, x: &str, k: ResourceKind, down: &Vec<String>) -> (b: bool)
    ensures
        b == group_down(arch@.resources, arch@.edges, x@, k, views(down@).to_set()),
{
    let ghost rs = arch@.resources;
    let ghost es = arch@.edges;
    let ghost d = views(down@).to_set();
    let ghost g = in_group(rs, x@, k);
    let mut nonempty = false;
    let mut all_in = true;
    let mut i: usize = 0;
    while i < arch.edges.len()
        invariant
            rs == arch@.resources,
            es == arch@.edges,
            d == views(down@).to_set(),
            g == in_group(rs, x@, k),
            0 <= i <= es.len(),
            nonempty == exists|j: int| 0 <= j < i && #[trigger] g(es[j]),
            all_in == forall|j: int| 0 <= j < i && #[trigger] g(es[j]) ==> d.contains(es[j].to),
        decreases es.len() - i,
    {
        let e = &arch.edges[i];
        if str_eq(e.from.as_str(), x) {
            let tk = kind_of_exec(arch, e.to.as_str());
            if tk == Some(k) {
                assert(g(es[i as int]));
                nonempty = true;
                if !contains_str(down, e.to.as_str()) {
                    assert(!d.contains(es[i as int].to));
                    all_in = false;
                } else {
                    assert(d.contains(es[i as int].to));
                }
            } else {
                assert(!g(es[i as int]));
            }
        } else {
            assert(!g(es[i as int]));
        }
        i = i + 1;
    }
    nonempty && all_in
}

/// Whether `x` falls when `down` is down.
fn falls_exec(arch: &Architecture, x: &str, down: &Vec<String>) -> (b: bool)
    ensures
        b == falls(arch@.resources, arch@.edges, x@, views(down@).to_set()),
{
    let kinds = ResourceKind::all();
    let mut i: usize = 0;
    while i < kinds.len()
        invariant
            kinds@ == crate::spec_all_kinds(),
            0 <= i <= kinds@.len(),
            forall|j: int|
                0 <= j < i ==> !group_down(
                    arch@.resources,
                    arch@.edges,
                    x@,
                    #[trigger] kinds@[j],
                    views(down@).to_set(),
                ),
        decreases kinds@.len() - i,
    {
        if group_down_exec(arch, x, kinds[i], down) {
            return true;
        }
        i = i + 1;
    }
    proof {
        assert forall|k: ResourceKind|
            !#[trigger] group_down(
                arch@.resources,
                arch@.edges,
                x@,
                k,
                views(down@).to_set(),
            ) by {
            crate::lemma_all_kinds_listed(k);
        }
    }
    false
}

/// How many of `x`'s dependencies on kind `k` are down, and how many there are.
fn group_counts(arch: &Architecture, x: &str, k: ResourceKind, down: &Vec<String>) -> (r: (
    usize,
    usize,
))
    ensures
        r.0 == group_down_count(arch@.resources, arch@.edges, x@, k, views(down@).to_set()),
        r.1 == group_edges(arch@.resources, arch@.edges, x@, k).len(),
{
    let ghost rs = arch@.resources;
    let ghost es = arch@.edges;
    let ghost d = views(down@).to_set();
    let ghost g = in_group(rs, x@, k);
    let ghost q = |e: EdgeView| d.contains(e.to);
    let mut n: usize = 0;
    let mut t: usize = 0;
    let mut i: usize = 0;
    while i < arch.edges.len()
        invariant
            rs == arch@.resources,
            es == arch@.edges,
            d == views(down@).to_set(),
            g == in_group(rs, x@, k),
            q == (|e: EdgeView| d.contains(e.to)),
            0 <= i <= es.len(),
            t == es.take(i as int).filter(g).len(),
            n == es.take(i as int).filter(g).filter(q).len(),
            n <= t <= i,
        decreases es.len() - i,
    {
        let ghost pre = es.take(i as int);
        proof {
            assert(es.take(i + 1) =~= pre.push(es[i as int]));
            crate::seqs::lemma_filter_push(pre, g, es[i as int]);
            crate::seqs::lemma_filter_push(pre.filter(g), q, es[i as int]);
            pre.filter(g).lemma_filter_len(q);
        }
        let e = &arch.edges[i];
        if str_eq(e.from.as_str(), x) && kind_of_exec(arch, e.to.as_str()) == Some(k) {
            assert(g(es[i as int]));
            t = t + 1;
            if contains_str(down, e.to.as_str()) {
                n = n + 1;
            }
        } else {
            assert(!g(es[i as int]));
        }
        i = i + 1;
    }
    assert(es.take(es.len() as int) =~= es);
    (n, t)
}

/// The kinds in the order of their slugs.
fn kinds_by_slug() -> (v: Vec<ResourceKind>)
    ensures
        v@ == slug_order(),
{
    let v = vec![
        ResourceKind::ApiGateway,
        ResourceKind::Cache,
        ResourceKind::Cdn,
        ResourceKind::Compute,
        ResourceKind::Database,
        ResourceKind::Dns,
        ResourceKind::Functions,
        ResourceKind::LoadBalancer,
        ResourceKind::ObjectStore,
        ResourceKind::Queue,
    ];
    assert(v@ =~= slug_order());
    v
}

/// The first group of `x` (in slug order) that lost some but not all members.
fn partially_down_group(arch: &Architecture, x: &str, down: &Vec<String>) -> (r: Option<
    (ResourceKind, usize, usize),
>)
    ensures
        match r {
            Some((k, n, t)) => partial_from(
                arch@.resources,
                arch@.edges,
                x@,
                views(down@).to_set(),
                0,
            ) == Some((k, n as nat, t as nat)),
            None => partial_from(arch@.resources, arch@.edges, x@, views(down@).to_set(), 0) is None,
        },
{
    let kinds = kinds_by_slug();
    let ghost d = views(down@).to_set();
    let mut i: usize = 0;
    while i < kinds.len()
        invariant
            kinds@ == slug_order(),
            d == views(down@).to_set(),
            0 <= i <= 10,
            partial_from(arch@.resources, arch@.edges, x@, d, 0) == partial_from(
                arch@.resources,
                arch@.edges,
                x@,
                d,
                i as nat,
            ),
        decreases 10 - i,
    {
        let (n, t) = group_counts(arch, x, kinds[i], down);
        if 0 < n && n < t {
            return Some((kinds[i], n, t));
        }
        i = i + 1;
    }
    None
}

// ---------------------------------------------------------------------------
// Blast radius
// ---------------------------------------------------------------------------

/// The note for a resource that stays up, if it is impaired.
fn note_for(
    arch: &Architecture,
    profile: &ProviderProfile,
    down: &Vec<String>,
    failed_region: Option<&str>,
    i: usize,
) -> (note: Option<String>)
    requires
        i < arch@.resources.len(),
    ensures
        match note {
            Some(n) => degraded_note(
                arch@,
                profile@,
                views(down@).to_set(),
                opt_str_view(failed_region),
                arch@.resources[i as int],
            ) == Some(n@),
            None => degraded_note(
                arch@,
                profile@,
                views(down@).to_set(),
                opt_str_view(failed_region),
                arch@.resources[i as int],
            ) is None,
        },
{
    let r = &arch.resources[i];
    if contains_str(down, r.id.as_str()) {
        return None;
    }
    if let Some((k, n, t)) = partially_down_group(arch, r.id.as_str(), down) {
        let mut s = r.label.clone();
        s.append(" lost ");
        s.append(dec_string(n as u64).as_str());
        s.append(" of ");
        s.append(dec_string(t as u64).as_str());
        s.append(" ");
        s.append(k.slug());
        s.append(" dependencies");
        return Some(s);
    }
    if let Some(region) = failed_region {
        if let Some(rr) = &r.placement.region {
            if str_eq(rr.as_str(), region) {
                if let Some(v) = &r.variant {
                    if let Some(var) = profile.variant(r.kind, v.as_str()) {
                        if let Some(secs) = var.failover_seconds {
                            let mut s = r.label.clone();
                            s.append(" may briefly fail over (~");
                            s.append(dec_string(secs as u64).as_str());
                            s.append("s)");
                            return Some(s);
                        }
                    }
                }
            }
        }
    }
    None
}

/// The view of an optional string slice.
pub open spec fn opt_str_view(o: Option<&str>) -> Option<Seq<char>> {
    match o {
        Some(s) => Some(s@),
        None => None,
    }
}

/// Propagate a failure from `down_seed` through the dependency graph.
///
/// A resource goes down once some dependency group of it is entirely down;
/// `down` is the least set closed under that rule that holds every seed id
/// naming a resource. A resource that stays up is degraded when it lost some
/// but not all of a group (the first such group in slug order is noted), or,
/// when `failed_region` is set, when it sits in that region and its variant
/// advertises a failover time.
pub fn blast_radius(
    arch: &Architecture,
    profile: &ProviderProfile,
    down_seed: &[String],
    failed_region: Option<&str>,
    target: &str,
) -> (report: BlastReport)
    ensures
        report.target@ == target@,
        strictly_sorted(views(report.down@)),
        least_closed(arch@, views(down_seed@).to_set(), views(report.down@).to_set()),
        views(report.down@).to_set() == spec_down(arch@, views(down_seed@).to_set()),
        strictly_sorted(views(report.degraded@)),
        views(report.degraded@).to_set() == spec_degraded(
            arch@,
            profile@,
            views(report.down@).to_set(),
            opt_str_view(failed_region),
        ),
        strictly_sorted(views(report.healthy@)),
        views(report.healthy@).to_set() == spec_healthy(
            arch@,
            views(report.down@).to_set(),
            views(report.degraded@).to_set(),
        ),
        views(report.notes@) == spec_notes(
            arch@,
            profile@,
            views(report.down@).to_set(),
            opt_str_view(failed_region),
            arch@.resources,
        ),
{
    let ghost a = arch@;
    let ghost rs = arch@.resources;
    let ghost es = arch@.edges;
    let ghost seed = views(down_seed@).to_set();

    // The seed ids that name a resource.
    let mut down: Vec<String> = Vec::new();
    let mut i: usize = 0;
    while i < down_seed.len()
        invariant
            a == arch@,
            seed == views(down_seed@).to_set(),
            0 <= i <= down_seed@.len(),
            strictly_sorted(views(down@)),
            forall|j: int|
                0 <= j < i && has_id(a.resources, #[trigger] views(down_seed@)[j])
                    ==> views(down@).to_set().contains(views(down_seed@)[j]),
            forall|s: Set<Seq<char>>| #[trigger]
                closed(a, seed, s) ==> views(down@).to_set().subset_of(s),
        decreases down_seed@.len() - i,
    {
        if arch.contains(down_seed[i].as_str()) {
            let ghost x = views(down_seed@)[i as int];
            let ghost before = views(down@).to_set();
            insert_sorted(&mut down, down_seed[i].as_str());
            proof {
                assert(seed.contains(x));
                assert forall|s: Set<Seq<char>>| #[trigger]
                    closed(a, seed, s) implies views(down@).to_set().subset_of(s) by {
                    assert(s.contains(x));
                }
            }
        }
        i = i + 1;
    }
    proof {
        assert forall|x: Seq<char>| seed.contains(x) && has_id(rs, x) implies views(
            down@,
        ).to_set().contains(x) by {
            let j = choose|j: int| 0 <= j < views(down_seed@).len() && views(down_seed@)[j] == x;
        }
    }

    // Fixpoint: keep knocking out resources whose some group is entirely down.
    loop
        invariant
            a == arch@,
            rs == a.resources,
            es == a.edges,
            seed == views(down_seed@).to_set(),
            strictly_sorted(views(down@)),
            forall|x: Seq<char>|
                seed.contains(x) && has_id(rs, x) ==> #[trigger] views(down@).to_set().contains(x),
            forall|s: Set<Seq<char>>| #[trigger]
                closed(a, seed, s) ==> views(down@).to_set().subset_of(s),
        ensures
            strictly_sorted(views(down@)),
            least_closed(a, seed, views(down@).to_set()),
        decreases undone(rs, views(down@).to_set()),
    {
        let ghost start = views(down@).to_set();
        let mut changed = false;
        let mut j: usize = 0;
        while j < arch.resources.len()
            invariant
                a == arch@,
                rs == a.resources,
                es == a.edges,
                seed == views(down_seed@).to_set(),
                0 <= j <= rs.len(),
                strictly_sorted(views(down@)),
                start.subset_of(views(down@).to_set()),
                forall|x: Seq<char>|
                    seed.contains(x) && has_id(rs, x) ==> #[trigger] views(down@).to_set().contains(x),
                forall|s: Set<Seq<char>>| #[trigger]
                    closed(a, seed, s) ==> views(down@).to_set().subset_of(s),
                changed ==> undone(rs, views(down@).to_set()) < undone(rs, start),
                !changed ==> views(down@).to_set() == start,
                !changed ==> forall|m: int|
                    0 <= m < j ==> start.contains(#[trigger] rs[m].id) || !falls(
                        rs,
                        es,
                        rs[m].id,
                        start,
                    ),
            decreases rs.len() - j,
        {
            let id = arch.resources[j].id.as_str();
            if !contains_str(&down, id) && falls_exec(arch, id, &down) {
                let ghost before = views(down@).to_set();
                insert_sorted(&mut down, id);
                proof {
                    let after = views(down@).to_set();
                    assert(after =~= before.insert(rs[j as int].id));
                    assert forall|s: Set<Seq<char>>| #[trigger]
                        closed(a, seed, s) implies after.subset_of(s) by {
                        lemma_falls_monotone(rs, es, rs[j as int].id, before, s);
                        assert(s.contains(rs[j as int].id));
                    }
                    lemma_undone_shrinks(rs, before, after, j as int);
                    lemma_undone_mono(rs, start, before);
                }
                changed = true;
            }
            j = j + 1;
        }
        if !changed {
            proof {
                let d = views(down@).to_set();
                assert forall|m: int|
                    0 <= m < rs.len() && falls(rs, es, #[trigger] rs[m].id, d) implies d.contains(
                    rs[m].id,
                ) by {}
                assert(closed(a, seed, d));
            }
            break;
        }
    }
    let ghost d = views(down@).to_set();
    proof {
        lemma_least_unique(a, seed, d);
    }

    // Impaired resources and their notes.
    let mut degraded: Vec<String> = Vec::new();
    let mut notes: Vec<String> = Vec::new();
    let ghost fr = opt_str_view(failed_region);
    let mut k: usize = 0;
    while k < arch.resources.len()
        invariant
            a == arch@,
            rs == a.resources,
            d == views(down@).to_set(),
            fr == opt_str_view(failed_region),
            0 <= k <= rs.len(),
            strictly_sorted(views(degraded@)),
            views(degraded@).to_set() == Set::new(
                |id: Seq<char>|
                    exists|m: int|
                        0 <= m < k && #[trigger] rs[m].id == id && degraded_note(
                            a,
                            profile@,
                            d,
                            fr,
                            rs[m],
                        ) is Some,
            ),
            views(notes@) == spec_notes(a, profile@, d, fr, rs.take(k as int)),
        decreases rs.len() - k,
    {
        let ghost prev_notes = views(notes@);
        let ghost prev_set = views(degraded@).to_set();
        proof {
            let t = rs.take(k + 1);
            assert(t.drop_last() =~= rs.take(k as int));
            assert(t.last() == rs[k as int]);
        }
        let note = note_for(arch, profile, &down, failed_region, k);
        match note {
            Some(n) => {
                insert_sorted(&mut degraded, arch.resources[k].id.as_str());
                notes.push(n);
                proof {
                    assert(views(notes@) =~= prev_notes + seq![n@]);
                }
            },
            None => {
                proof {
                    assert(views(notes@) =~= prev_notes + Seq::<Seq<char>>::empty());
                }
            },
        }
        proof {
            assert(views(degraded@).to_set() =~= Set::new(
                |id: Seq<char>|
                    exists|m: int|
                        0 <= m < k + 1 && #[trigger] rs[m].id == id && degraded_note(
                            a,
                            profile@,
                            d,
                            fr,
                            rs[m],
                        ) is Some,
            )) by {
                assert forall|id: Seq<char>| #[trigger] views(degraded@).to_set().contains(id)
                    <==> exists|m: int|
                    0 <= m < k + 1 && #[trigger] rs[m].id == id && degraded_note(
                        a,
                        profile@,
                        d,
                        fr,
                        rs[m],
                    ) is Some by {
                    if exists|m: int|
                        0 <= m < k + 1 && #[trigger] rs[m].id == id && degraded_note(
                            a,
                            profile@,
                            d,
                            fr,
                            rs[m],
                        ) is Some {
                        let m = choose|m: int|
                            0 <= m < k + 1 && #[trigger] rs[m].id == id && degraded_note(
                                a,
                                profile@,
                                d,
                                fr,
                                rs[m],
                            ) is Some;
                        if m < k {
                            assert(prev_set.contains(id));
                        }
                    }
                }
            }
        }
        k = k + 1;
    }
    assert(rs.take(rs.len() as int) =~= rs);
    let ghost g = views(degraded@).to_set();
    assert(g =~= spec_degraded(a, profile@, d, fr));

    // Everything else is healthy.
    let mut healthy: Vec<String> = Vec::new();
    let mut h: usize = 0;
    while h < arch.resources.len()
        invariant
            a == arch@,
            rs == a.resources,
            d == views(down@).to_set(),
            g == views(degraded@).to_set(),
            0 <= h <= rs.len(),
            strictly_sorted(views(healthy@)),
            views(healthy@).to_set() == Set::new(
                |id: Seq<char>|
                    exists|m: int|
                        0 <= m < h && #[trigger] rs[m].id == id && !d.contains(id) && !g.contains(
                            id,
                        ),
            ),
        decreases rs.len() - h,
    {
        let ghost prev_set = views(healthy@).to_set();
        let id = arch.resources[h].id.as_str();
        let ghost x0 = rs[h as int].id;
        proof {
            assert(views(down@).contains(x0) <==> d.contains(x0));
            assert(views(degraded@).contains(x0) <==> g.contains(x0));
        }
        if !contains_str(&down, id) && !contains_str(&degraded, id) {
            insert_sorted(&mut healthy, id);
            assert(views(healthy@).to_set() == prev_set.insert(x0));
        } else {
            assert(d.contains(x0) || g.contains(x0));
        }
        proof {
            assert(views(healthy@).to_set() =~= Set::new(
                |id: Seq<char>|
                    exists|m: int|
                        0 <= m < h + 1 && #[trigger] rs[m].id == id && !d.contains(id)
                            && !g.contains(id),
            )) by {
                assert forall|x: Seq<char>| #[trigger] views(healthy@).to_set().contains(x)
                    <==> exists|m: int|
                    0 <= m < h + 1 && #[trigger] rs[m].id == x && !d.contains(x) && !g.contains(
                        x,
                    ) by {
                    if exists|m: int|
                        0 <= m < h + 1 && #[trigger] rs[m].id == x && !d.contains(x)
                            && !g.contains(x) {
                        let m = choose|m: int|
                            0 <= m < h + 1 && #[trigger] rs[m].id == x && !d.contains(x)
                                && !g.contains(x);
                        if m < h {
                            assert(prev_set.contains(x));
                        }
                    }
                    if views(healthy@).to_set().contains(x) && x != x0 {
                        assert(prev_set.contains(x));
                    }
                    if views(healthy@).to_set().contains(x) && x == x0 {
                        assert(!d.contains(x0) && !g.contains(x0));
                        assert(rs[h as int].id == x);
                    }
                }
            }
        }
        h = h + 1;
    }
    assert(views(healthy@).to_set() =~= spec_healthy(a, d, g));

    BlastReport { target: owned(target), down, degraded, healthy, notes }
}


// ---------------------------------------------------------------------------
// Single points of failure
// ---------------------------------------------------------------------------

/// The resource's variant is a single point of failure in profile `p`.
pub open spec fn is_spof(p: ProfileView) -> spec_fn(ResourceView) -> bool {
    |r: ResourceView|
        r.variant is Some && spec_variant(p, r.kind, r.variant->0) is Some && spec_variant(
            p,
            r.kind,
            r.variant->0,
        )->0.spof
}

/// What losing the resource with id `id` takes down, other than itself.
pub open spec fn spec_orphans(a: ArchView, id: Seq<char>) -> Set<Seq<char>> {
    spec_down(a, Set::empty().insert(id)).remove(id)
}

/// The strings of `v` other than `x`, in order.
pub(crate) fn without(v: &Vec<String>, x: &str) -> (r: Vec<String>)
    requires
        strictly_sorted(views(v@)),
    ensures
        strictly_sorted(views(r@)),
        views(r@).to_set() == views(v@).to_set().remove(x@),
{
    let ghost s = views(v@);
    let mut r: Vec<String> = Vec::new();
    let mut i: usize = 0;
    while i < v.len()
        invariant
            s == views(v@),
            strictly_sorted(s),
            0 <= i <= s.len(),
            strictly_sorted(views(r@)),
            views(r@).to_set() == s.take(i as int).to_set().remove(x@),
            forall|m: int| 0 <= m < views(r@).len() ==> s.take(i as int).contains(
                #[trigger] views(r@)[m],
            ),
        decreases s.len() - i,
    {
        let ghost prev = views(r@);
        proof {
            assert(s.take(i + 1) =~= s.take(i as int).push(s[i as int]));
        }
        if !str_eq(v[i].as_str(), x) {
            r.push(v[i].clone());
            proof {
                let t = views(r@);
                assert(t =~= prev.push(s[i as int]));
                assert forall|a: int, b: int| 0 <= a < b < t.len() implies crate::text::lex_lt(
                    #[trigger] t[a],
                    #[trigger] t[b],
                ) by {
                    if b == t.len() - 1 {
                        assert(s.take(i as int).contains(t[a]));
                        let q = choose|q: int| 0 <= q < i && s[q] == t[a];
                        assert(s.take(i as int)[q] == s[q]);
                    } else {
                        assert(t[a] == prev[a] && t[b] == prev[b]);
                    }
                }
                assert forall|m: int| 0 <= m < t.len() implies s.take(i + 1).contains(
                    #[trigger] t[m],
                ) by {
                    if m < t.len() - 1 {
                        assert(s.take(i as int).contains(prev[m]));
                        let q = choose|q: int| 0 <= q < i && s.take(i as int)[q] == prev[m];
                        assert(s.take(i + 1)[q] == prev[m]);
                    } else {
                        assert(s.take(i + 1)[i as int] == t[m]);
                    }
                }
            }
        } else {
            proof {
                assert forall|m: int| 0 <= m < prev.len() implies s.take(i + 1).contains(
                    #[trigger] prev[m],
                ) by {
                    assert(s.take(i as int).contains(prev[m]));
                    let q = choose|q: int| 0 <= q < i && s.take(i as int)[q] == prev[m];
                    assert(s.take(i + 1)[q] == prev[m]);
                }
            }
        }
        proof {
            let t = views(r@);
            let pre = s.take(i as int);
            let nxt = s.take(i + 1);
            assert forall|y: Seq<char>| nxt.to_set().contains(y) <==> (pre.to_set().contains(y)
                || y == s[i as int]) by {
                if nxt.to_set().contains(y) {
                    let q = choose|q: int| 0 <= q < nxt.len() && nxt[q] == y;
                    if q < i {
                        assert(pre[q] == y);
                    }
                }
                if pre.to_set().contains(y) {
                    let q = choose|q: int| 0 <= q < pre.len() && pre[q] == y;
                    assert(nxt[q] == y);
                }
                if y == s[i as int] {
                    assert(nxt[i as int] == y);
                }
            }
            assert forall|y: Seq<char>| t.to_set().contains(y) <==> (prev.to_set().contains(y)
                || (y == s[i as int] && y != x@)) by {
                if t.to_set().contains(y) {
                    let q = choose|q: int| 0 <= q < t.len() && t[q] == y;
                    if q < prev.len() {
                        assert(prev[q] == y);
                    }
                }
                if prev.to_set().contains(y) {
                    let q = choose|q: int| 0 <= q < prev.len() && prev[q] == y;
                    assert(t[q] == y);
                }
                if y == s[i as int] && y != x@ {
                    assert(t[t.len() - 1] == y);
                }
            }
            assert(t.to_set() =~= nxt.to_set().remove(x@));
        }
        i = i + 1;
    }
    assert(s.take(s.len() as int) =~= s);
    r
}

/// Every resource whose variant is a single point of failure, in resource
/// order, with the resources its loss takes down (sorted, itself excluded).
pub fn spofs(arch: &Architecture, profile: &ProviderProfile) -> (found: Vec<Spof>)
    ensures
        found@.len() == arch@.resources.filter(is_spof(profile@)).len(),
        forall|i: int|
            0 <= i < found@.len() ==> {
                let r = arch@.resources.filter(is_spof(profile@))[i];
                &&& (#[trigger] found@[i]).id@ == r.id
                &&& strictly_sorted(views(found@[i].orphans@))
                &&& views(found@[i].orphans@).to_set() == spec_orphans(arch@, r.id)
            },
{
    let ghost rs = arch@.resources;
    let ghost p = is_spof(profile@);
    let mut found: Vec<Spof> = Vec::new();
    let mut i: usize = 0;
    while i < arch.resources.len()
        invariant
            rs == arch@.resources,
            p == is_spof(profile@),
            0 <= i <= rs.len(),
            found@.len() == rs.take(i as int).filter(p).len(),
            forall|m: int|
                0 <= m < found@.len() ==> {
                    let r = rs.take(i as int).filter(p)[m];
                    &&& (#[trigger] found@[m]).id@ == r.id
                    &&& strictly_sorted(views(found@[m].orphans@))
                    &&& views(found@[m].orphans@).to_set() == spec_orphans(arch@, r.id)
                },
        decreases rs.len() - i,
    {
        let ghost prev = rs.take(i as int).filter(p);
        let ghost prev_found = found@;
        proof {
            assert(rs.take(i + 1) =~= rs.take(i as int).push(rs[i as int]));
            crate::seqs::lemma_filter_push(rs.take(i as int), p, rs[i as int]);
        }
        let r = &arch.resources[i];
        let is_spof_here = match &r.variant {
            Some(v) => match profile.variant(r.kind, v.as_str()) {
                Some(var) => var.spof,
                None => false,
            },
            None => false,
        };
        if is_spof_here {
            assert(p(rs[i as int]));
            let seed = vec![r.id.clone()];
            proof {
                assert(views(seed@) =~= seq![r.id@]);
                assert forall|y: Seq<char>| views(seed@).to_set().contains(y) <==> y == r.id@ by {
                    if y == r.id@ {
                        assert(views(seed@)[0] == y);
                    }
                }
                assert(views(seed@).to_set() =~= Set::empty().insert(r.id@));
            }
            let report = blast_radius(arch, profile, seed.as_slice(), None, r.id.as_str());
            let orphans = without(&report.down, r.id.as_str());
            found.push(Spof { id: r.id.clone(), orphans });
            proof {
                let now = rs.take(i + 1).filter(p);
                assert(now == prev.push(rs[i as int]));
                assert forall|m: int| 0 <= m < found@.len() implies {
                    let r = now[m];
                    &&& (#[trigger] found@[m]).id@ == r.id
                    &&& strictly_sorted(views(found@[m].orphans@))
                    &&& views(found@[m].orphans@).to_set() == spec_orphans(arch@, r.id)
                } by {
                    if m < prev_found.len() {
                        assert(found@[m] == prev_found[m]);
                        assert(now[m] == prev[m]);
                    }
                }
            }
        } else {
            assert(!p(rs[i as int]));
        }
        i = i + 1;
    }
    assert(rs.take(rs.len() as int) =~= rs);
    found
}


// ---------------------------------------------------------------------------
// Laws of failure analysis
// ---------------------------------------------------------------------------

/// What every closed set holds.
pub open spec fn meet_of_closed(a: ArchView, seed: Set<Seq<char>>) -> Set<Seq<char>> {
    Set::new(|x: Seq<char>| forall|s: Set<Seq<char>>| #[trigger] closed(a, seed, s) ==> s.contains(x))
}

/// Every seed has a down set: the meet of all closed sets is itself closed,
/// and it is the least one.
pub proof fn law_down_exists(a: ArchView, seed: Set<Seq<char>>)
    ensures
        least_closed(a, seed, meet_of_closed(a, seed)),
        least_closed(a, seed, spec_down(a, seed)),
{
    let m = meet_of_closed(a, seed);
    assert forall|x: Seq<char>| seed.contains(x) && has_id(a.resources, x) implies #[trigger] m.contains(x) by {
        assert forall|s: Set<Seq<char>>| #[trigger] closed(a, seed, s) implies s.contains(x) by {}
    }
    assert forall|i: int|
        0 <= i < a.resources.len() && falls(a.resources, a.edges, #[trigger] a.resources[i].id, m)
        implies m.contains(a.resources[i].id) by {
        assert forall|s: Set<Seq<char>>| #[trigger] closed(a, seed, s) implies s.contains(
            a.resources[i].id,
        ) by {
            assert(m.subset_of(s));
            lemma_falls_monotone(a.resources, a.edges, a.resources[i].id, m, s);
        }
    }
    assert(closed(a, seed, m));
    lemma_least_unique(a, seed, m);
}

/// A larger failure takes down at least as much.
pub proof fn law_down_monotone(a: ArchView, seed1: Set<Seq<char>>, seed2: Set<Seq<char>>)
    requires
        seed1.subset_of(seed2),
    ensures
        spec_down(a, seed1).subset_of(spec_down(a, seed2)),
{
    law_down_exists(a, seed1);
    law_down_exists(a, seed2);
    let d2 = spec_down(a, seed2);
    assert(closed(a, seed1, d2));
}

/// Down, degraded and healthy split the resources: each resource id is in
/// exactly one of them.
pub proof fn law_blast_partition(
    a: ArchView,
    p: ProfileView,
    d: Set<Seq<char>>,
    failed_region: Option<Seq<char>>,
    i: int,
)
    requires
        0 <= i < a.resources.len(),
    ensures
        ({
            let id = a.resources[i].id;
            let g = spec_degraded(a, p, d, failed_region);
            let h = spec_healthy(a, d, g);
            &&& d.contains(id) ==> !g.contains(id) && !h.contains(id)
            &&& g.contains(id) ==> !d.contains(id) && !h.contains(id)
            &&& d.contains(id) || g.contains(id) || h.contains(id)
        }),
{
    let id = a.resources[i].id;
    let g = spec_degraded(a, p, d, failed_region);
    if g.contains(id) {
        let m = choose|m: int|
            0 <= m < a.resources.len() && #[trigger] a.resources[m].id == id && degraded_note(
                a,
                p,
                d,
                failed_region,
                a.resources[m],
            ) is Some;
    }
    if !d.contains(id) && !g.contains(id) {
        assert(a.resources[i].id == id);
    }
}

proof fn lemma_no_partial(
    rs: Seq<ResourceView>,
    es: Seq<EdgeView>,
    x: Seq<char>,
    d: Set<Seq<char>>,
    from: nat,
)
    requires
        forall|k: ResourceKind|
            #[trigger] group_down_count(rs, es, x, k, d) == 0 || group_down_count(rs, es, x, k, d)
                == group_edges(rs, es, x, k).len(),
    ensures
        partial_from(rs, es, x, d, from) is None,
    decreases 10 - from,
{
    if from < 10 {
        let k = slug_order()[from as int];
        assert(group_down_count(rs, es, x, k, d) == 0 || group_down_count(rs, es, x, k, d)
            == group_edges(rs, es, x, k).len());
        lemma_no_partial(rs, es, x, d, from + 1);
    }
}

/// In a region failure, a resource that stays up, lost none of its
/// dependency groups only in part, and sits in the failed region with a
/// variant that advertises a failover time is degraded, whatever its kind,
/// with the note "<label> may briefly fail over (~<seconds>s)".
pub proof fn law_failover_degrades(
    a: ArchView,
    p: ProfileView,
    d: Set<Seq<char>>,
    region: Seq<char>,
    i: int,
    v: Seq<char>,
    secs: u32,
)
    requires
        0 <= i < a.resources.len(),
        !d.contains(a.resources[i].id),
        forall|k: ResourceKind|
            #[trigger] group_down_count(a.resources, a.edges, a.resources[i].id, k, d) == 0
                || group_down_count(a.resources, a.edges, a.resources[i].id, k, d) == group_edges(
                a.resources,
                a.edges,
                a.resources[i].id,
                k,
            ).len(),
        a.resources[i].placement.region == Some(region),
        a.resources[i].variant == Some(v),
        spec_variant(p, a.resources[i].kind, v) is Some,
        spec_variant(p, a.resources[i].kind, v)->0.failover_seconds == Some(secs),
    ensures
        degraded_note(a, p, d, Some(region), a.resources[i]) == Some(
            a.resources[i].label + " may briefly fail over (~"@ + dec(secs as nat) + "s)"@,
        ),
        spec_degraded(a, p, d, Some(region)).contains(a.resources[i].id),
{
    let r = a.resources[i];
    lemma_no_partial(a.resources, a.edges, r.id, d, 0);
    assert(degraded_note(a, p, d, Some(region), r) is Some);
}

/// A resource is a single point of failure exactly when it has a configured
/// variant that the profile lists and marks as a SPOF; where it is placed
/// plays no part.
pub proof fn law_spof_is_the_variant(p: ProfileView, r: ResourceView, pl: PlacementView)
    ensures
        r.variant is None ==> !is_spof(p)(r),
        forall|v: Seq<char>|
            r.variant == Some(v) && spec_variant(p, r.kind, v) is None ==> !is_spof(p)(r),
        forall|v: Seq<char>|
            r.variant == Some(v) && spec_variant(p, r.kind, v) is Some ==> (is_spof(p)(r)
                == #[trigger] spec_variant(p, r.kind, v)->0.spof),
        is_spof(p)(ResourceView { placement: pl, ..r }) == is_spof(p)(r),
{
}

} // verus!
