//! Rule-based resilience linting over an [`Architecture`].
//!
//! Deterministic architectural checks, each citing a principle from
//! *Designing Data-Intensive Applications* (2nd ed.). Pure graph work, no
//! mutation. Edge direction: `a -> b` means `a` depends on `b`.

use vstd::prelude::*;

use crate::analysis::first_index;
use crate::order::{is_stable_sort, lemma_stable_sort_keeps, stable_sort, stably_sorted_by, total_preorder};
use crate::profile::{spec_variant, ProfileView, ProviderProfile};
use crate::text::{
    cat, cat3, lemma_lex_asymmetric, lemma_lex_irreflexive, lemma_lex_total, lemma_lex_transitive,
    lex_lt, owned, str_eq, str_lt,
};
use crate::{
    has_id, is_first, spec_slug, ArchView, Architecture, EdgeView, Resource, ResourceKind,
    ResourceView,
};

verus! {

/// How much a [`Finding`] should worry you: `High` sorts first.
#[derive(Debug, Clone, Copy, PartialEq, Eq, PartialOrd, Ord, Hash, Structural)]
pub enum Severity {
    High,
    Medium,
    Low,
}

/// The position of a severity in worst-first order.
pub open spec fn rank(s: Severity) -> int {
    match s {
        Severity::High => 0,
        Severity::Medium => 1,
        Severity::Low => 2,
    }
}

/// A citation into *Designing Data-Intensive Applications*.
#[derive(Debug, Clone, PartialEq, Eq)]
pub struct Citation {
    pub source: String,
    pub chapter: String,
    pub section: String,
}

#[verifier::ext_equal]
pub struct CitationView {
    pub source: Seq<char>,
    pub chapter: Seq<char>,
    pub section: Seq<char>,
}

impl View for Citation {
    type V = CitationView;

    open spec fn view(&self) -> CitationView {
        CitationView { source: self.source@, chapter: self.chapter@, section: self.section@ }
    }
}

/// The citation of a chapter and section of the book.
pub open spec fn spec_ddia(chapter: Seq<char>, section: Seq<char>) -> CitationView {
    CitationView {
        source: "Designing Data-Intensive Applications, 2nd ed."@,
        chapter,
        section,
    }
}

impl Citation {
    /// A citation of a chapter and section of the book.
    pub fn ddia(chapter: &str, section: &str) -> (c: Citation)
        ensures
            c@ == spec_ddia(chapter@, section@),
    {
        Citation {
            source: owned("Designing Data-Intensive Applications, 2nd ed."),
            chapter: owned(chapter),
            section: owned(section),
        }
    }
}

/// One resilience anti-pattern found in the architecture.
#[derive(Debug, Clone, PartialEq, Eq)]
pub struct Finding {
    /// Stable machine-readable rule id, e.g. `"single-az-datastore"`.
    pub rule: String,
    pub severity: Severity,
    /// The resource the finding is about, when it is about a single one.
    pub resource: Option<String>,
    /// One-line human summary.
    pub title: String,
    /// What is wrong and what to do about it.
    pub detail: String,
    pub citation: Citation,
}

#[verifier::ext_equal]
pub struct FindingView {
    pub rule: Seq<char>,
    pub severity: Severity,
    pub resource: Option<Seq<char>>,
    pub title: Seq<char>,
    pub detail: Seq<char>,
    pub citation: CitationView,
}

impl View for Finding {
    type V = FindingView;

    open spec fn view(&self) -> FindingView {
        FindingView {
            rule: self.rule@,
            severity: self.severity,
            resource: crate::opt_view(self.resource),
            title: self.title@,
            detail: self.detail@,
            citation: self.citation@,
        }
    }
}

/// The views of a list of findings.
pub open spec fn fviews(s: Seq<Finding>) -> Seq<FindingView> {
    s.map_values(|f: Finding| f@)
}

fn finding(
    rule: &str,
    severity: Severity,
    resource: Option<String>,
    title: String,
    detail: String,
    chapter: &str,
    section: &str,
) -> (f: Finding)
    ensures
        f@ == (FindingView {
            rule: rule@,
            severity,
            resource: crate::opt_view(resource),
            title: title@,
            detail: detail@,
            citation: spec_ddia(chapter@, section@),
        }),
{
    Finding { rule: owned(rule), severity, resource, title, detail, citation: Citation::ddia(chapter, section) }
}

// ---------------------------------------------------------------------------
// Shared model helpers
// ---------------------------------------------------------------------------

/// The first resource with this id, if any.
pub open spec fn resolve(rs: Seq<ResourceView>, id: Seq<char>) -> Option<ResourceView> {
    if has_id(rs, id) {
        Some(rs[first_index(rs, id)])
    } else {
        None
    }
}

/// Some edge points at `id`.
pub open spec fn has_inbound(es: Seq<EdgeView>, id: Seq<char>) -> bool {
    exists|i: int| 0 <= i < es.len() && es[i].to == id
}

/// Some resource is of kind `k`.
pub open spec fn kind_present(rs: Seq<ResourceView>, k: ResourceKind) -> bool {
    exists|i: int| 0 <= i < rs.len() && rs[i].kind == k
}

pub(crate) fn resolve_exec<'a>(arch: &'a Architecture, id: &str) -> (r: Option<&'a Resource>)
    ensures
        match r {
            Some(res) => resolve(arch@.resources, id@) == Some(res@),
            None => resolve(arch@.resources, id@) is None,
        },
{
    match arch.find(id) {
        Some(i) => {
            proof {
                let rs = arch@.resources;
                let j = first_index(rs, id@);
                assert(is_first(rs, id@, j));
                if j < i {
                    assert(rs[j].id != id@);
                }
                if i < j {
                    assert(rs[i as int].id != id@);
                }
            }
            Some(&arch.resources[i])
        },
        None => None,
    }
}

pub(crate) fn has_inbound_exec(arch: &Architecture, id: &str) -> (b: bool)
    ensures
        b == has_inbound(arch@.edges, id@),
{
    let mut i: usize = 0;
    while i < arch.edges.len()
        invariant
            0 <= i <= arch@.edges.len(),
            forall|j: int| 0 <= j < i ==> arch@.edges[j].to != id@,
        decreases arch@.edges.len() - i,
    {
        if str_eq(arch.edges[i].to.as_str(), id) {
            assert(arch@.edges[i as int].to == id@);
            return true;
        }
        i = i + 1;
    }
    false
}

pub(crate) fn kind_present_exec(arch: &Architecture, k: ResourceKind) -> (b: bool)
    ensures
        b == kind_present(arch@.resources, k),
{
    let mut i: usize = 0;
    while i < arch.resources.len()
        invariant
            0 <= i <= arch@.resources.len(),
            forall|j: int| 0 <= j < i ==> arch@.resources[j].kind != k,
        decreases arch@.resources.len() - i,
    {
        if arch.resources[i].kind == k {
            assert(arch@.resources[i as int].kind == k);
            return true;
        }
        i = i + 1;
    }
    false
}

// ---------------------------------------------------------------------------
// single-az-datastore
// ---------------------------------------------------------------------------

/// The variant a resource is configured with, as found in the profile.
pub open spec fn configured_variant(p: ProfileView, r: ResourceView) -> Option<
    crate::profile::VariantView,
> {
    match r.variant {
        Some(v) => spec_variant(p, r.kind, v),
        None => None,
    }
}

/// Where a datastore lives, for the message: its zone, else its region.
pub open spec fn location_of(r: ResourceView) -> Seq<char> {
    match r.placement.az {
        Some(az) => az,
        None => match r.placement.region {
            Some(reg) => reg,
            None => "its single location"@,
        },
    }
}

/// A database or cache with no cross-zone redundancy: its variant is a SPOF,
/// or it is pinned to one zone without an advertised failover.
pub open spec fn single_az_finding(p: ProfileView, r: ResourceView) -> Option<FindingView> {
    let v = configured_variant(p, r);
    let is_spof = v is Some && v->0.spof;
    let zonal_no_failover = r.placement.az is Some && (v is None || (v->0.failover_seconds is None
        && !v->0.spof));
    if (r.kind == ResourceKind::Database || r.kind == ResourceKind::Cache) && (is_spof
        || zonal_no_failover) {
        Some(
            FindingView {
                rule: "single-az-datastore"@,
                severity: Severity::High,
                resource: Some(r.id),
                title: r.label + " has no cross-zone redundancy"@,
                detail: r.id + " ("@ + spec_slug(r.kind)
                    + ") is a single-zone datastore: losing "@ + location_of(r)
                    + " takes its data down with it, and everything that depends on it with that. Move to a replicated / multi-AZ variant with an automatic failover target."@,
                citation: spec_ddia("Chapter 6: Replication"@, "Handling Node Outages"@),
            },
        )
    } else {
        None
    }
}

fn single_az_datastore(arch: &Architecture, profile: &ProviderProfile) -> (found: Vec<Finding>)
    ensures
        fviews(found@) == arch@.resources.filter_map(|r: ResourceView| single_az_finding(profile@, r)),
{
    let ghost rs = arch@.resources;
    let ghost f = |r: ResourceView| single_az_finding(profile@, r);
    let mut found: Vec<Finding> = Vec::new();
    let mut i: usize = 0;
    while i < arch.resources.len()
        invariant
            rs == arch@.resources,
            f == (|r: ResourceView| single_az_finding(profile@, r)),
            0 <= i <= rs.len(),
            fviews(found@) == rs.take(i as int).filter_map(f),
        decreases rs.len() - i,
    {
        proof {
            rs.lemma_filter_map_take_succ(f, i as int);
        }
        let ghost prev = fviews(found@);
        let r = &arch.resources[i];
        let is_store = r.kind == ResourceKind::Database || r.kind == ResourceKind::Cache;
        if is_store {
            let variant = match &r.variant {
                Some(v) => profile.variant(r.kind, v.as_str()),
                None => None,
            };
            let is_spof = match variant {
                Some(v) => v.spof,
                None => false,
            };
            let zonal_no_failover = r.placement.az.is_some() && match variant {
                None => true,
                Some(v) => v.failover_seconds.is_none() && !v.spof,
            };
            if is_spof || zonal_no_failover {
                let place: &str = match &r.placement.az {
                    Some(az) => az.as_str(),
                    None => match &r.placement.region {
                        Some(reg) => reg.as_str(),
                        None => "its single location",
                    },
                };
                let title = cat(r.label.as_str(), " has no cross-zone redundancy");
                let mut detail = cat3(r.id.as_str(), " (", r.kind.slug());
                detail.append(") is a single-zone datastore: losing ");
                detail.append(place);
                detail.append(
                    " takes its data down with it, and everything that depends on it with that. Move to a replicated / multi-AZ variant with an automatic failover target.",
                );
                let fd = finding(
                    "single-az-datastore",
                    Severity::High,
                    Some(r.id.clone()),
                    title,
                    detail,
                    "Chapter 6: Replication",
                    "Handling Node Outages",
                );
                found.push(fd);
                assert(fviews(found@) =~= prev + seq![f(rs[i as int])->0]);
            } else {
                assert(fviews(found@) =~= prev + Seq::<FindingView>::empty());
            }
        } else {
            assert(fviews(found@) =~= prev + Seq::<FindingView>::empty());
        }
        i = i + 1;
    }
    assert(rs.take(rs.len() as int) =~= rs);
    found
}

// ---------------------------------------------------------------------------
// unmanaged-compute
// ---------------------------------------------------------------------------

/// A compute node with inbound dependents but no provider variant.
pub open spec fn unmanaged_finding(a: ArchView, r: ResourceView) -> Option<FindingView> {
    if r.kind == ResourceKind::Compute && r.variant is None && has_inbound(a.edges, r.id) {
        Some(
            FindingView {
                rule: "unmanaged-compute"@,
                severity: Severity::Medium,
                resource: Some(r.id),
                title: r.label + " serves traffic with no managed compute variant"@,
                detail: r.id
                    + " has inbound dependents but no compute variant is set, so horizontal redundancy across zones cannot be confirmed. Run configure-resource to pin a managed, multi-instance variant."@,
                citation: spec_ddia(
                    "Chapter 2: Defining Nonfunctional Requirements"@,
                    "Reliability and Fault Tolerance"@,
                ),
            },
        )
    } else {
        None
    }
}

fn unmanaged_compute(arch: &Architecture) -> (found: Vec<Finding>)
    ensures
        fviews(found@) == arch@.resources.filter_map(|r: ResourceView| unmanaged_finding(arch@, r)),
{
    let ghost rs = arch@.resources;
    let ghost f = |r: ResourceView| unmanaged_finding(arch@, r);
    let mut found: Vec<Finding> = Vec::new();
    let mut i: usize = 0;
    while i < arch.resources.len()
        invariant
            rs == arch@.resources,
            f == (|r: ResourceView| unmanaged_finding(arch@, r)),
            0 <= i <= rs.len(),
            fviews(found@) == rs.take(i as int).filter_map(f),
        decreases rs.len() - i,
    {
        proof {
            rs.lemma_filter_map_take_succ(f, i as int);
        }
        let ghost prev = fviews(found@);
        let r = &arch.resources[i];
        if r.kind == ResourceKind::Compute && r.variant.is_none() && has_inbound_exec(
            arch,
            r.id.as_str(),
        ) {
            let title = cat(r.label.as_str(), " serves traffic with no managed compute variant");
            let detail = cat(
                r.id.as_str(),
                " has inbound dependents but no compute variant is set, so horizontal redundancy across zones cannot be confirmed. Run configure-resource to pin a managed, multi-instance variant.",
            );
            let fd = finding(
                "unmanaged-compute",
                Severity::Medium,
                Some(r.id.clone()),
                title,
                detail,
                "Chapter 2: Defining Nonfunctional Requirements",
                "Reliability and Fault Tolerance",
            );
            found.push(fd);
            assert(fviews(found@) =~= prev + seq![f(rs[i as int])->0]);
        } else {
            assert(fviews(found@) =~= prev + Seq::<FindingView>::empty());
        }
        i = i + 1;
    }
    assert(rs.take(rs.len() as int) =~= rs);
    found
}

// ---------------------------------------------------------------------------
// synchronous-service-coupling
// ---------------------------------------------------------------------------

/// A kind that makes calls: compute, API gateway, functions.
pub open spec fn is_caller(k: ResourceKind) -> bool {
    k == ResourceKind::Compute || k == ResourceKind::ApiGateway || k == ResourceKind::Functions
}

/// A kind that serves calls: compute, functions.
pub open spec fn is_callee(k: ResourceKind) -> bool {
    k == ResourceKind::Compute || k == ResourceKind::Functions
}

/// A direct service-to-service dependency (no queue anywhere in the design).
pub open spec fn coupling_finding(a: ArchView, e: EdgeView) -> Option<FindingView> {
    let from = resolve(a.resources, e.from);
    let to = resolve(a.resources, e.to);
    if from is Some && to is Some && e.from != e.to && is_caller(from->0.kind) && is_callee(
        to->0.kind,
    ) {
        Some(
            FindingView {
                rule: "synchronous-service-coupling"@,
                severity: Severity::Medium,
                resource: Some(e.to),
                title: from->0.label + " calls "@ + to->0.label + " synchronously"@,
                detail: e.from + " depends directly on "@ + e.to
                    + " with no queue between them: a slowdown or outage in "@ + e.to + " blocks "@
                    + e.from
                    + " with no backpressure. Put an async buffer (a queue) on calls that do not need an immediate reply."@,
                citation: spec_ddia(
                    "Chapter 9: The Trouble with Distributed Systems"@,
                    "Timeouts and Unbounded Delays"@,
                ),
            },
        )
    } else {
        None
    }
}

/// What the coupling rule reports.
pub open spec fn spec_coupling(a: ArchView) -> Seq<FindingView> {
    if kind_present(a.resources, ResourceKind::Queue) {
        Seq::empty()
    } else {
        a.edges.filter_map(|e: EdgeView| coupling_finding(a, e))
    }
}

fn synchronous_service_coupling(arch: &Architecture) -> (found: Vec<Finding>)
    ensures
        fviews(found@) == spec_coupling(arch@),
{
    if kind_present_exec(arch, ResourceKind::Queue) {
        return Vec::new();
    }
    let ghost es = arch@.edges;
    let ghost f = |e: EdgeView| coupling_finding(arch@, e);
    let mut found: Vec<Finding> = Vec::new();
    let mut i: usize = 0;
    while i < arch.edges.len()
        invariant
            es == arch@.edges,
            f == (|e: EdgeView| coupling_finding(arch@, e)),
            0 <= i <= es.len(),
            fviews(found@) == es.take(i as int).filter_map(f),
        decreases es.len() - i,
    {
        proof {
            es.lemma_filter_map_take_succ(f, i as int);
        }
        let ghost prev = fviews(found@);
        let e = &arch.edges[i];
        let from = resolve_exec(arch, e.from.as_str());
        let to = resolve_exec(arch, e.to.as_str());
        let mut hit = false;
        if let Some(fr) = from {
            if let Some(tr) = to {
                let caller = fr.kind == ResourceKind::Compute || fr.kind == ResourceKind::ApiGateway
                    || fr.kind == ResourceKind::Functions;
                let callee = tr.kind == ResourceKind::Compute || tr.kind == ResourceKind::Functions;
                if !str_eq(e.from.as_str(), e.to.as_str()) && caller && callee {
                    hit = true;
                    let mut title = cat3(fr.label.as_str(), " calls ", tr.label.as_str());
                    title.append(" synchronously");
                    let mut detail = cat3(e.from.as_str(), " depends directly on ", e.to.as_str());
                    detail.append(" with no queue between them: a slowdown or outage in ");
                    detail.append(e.to.as_str());
                    detail.append(" blocks ");
                    detail.append(e.from.as_str());
                    detail.append(
                        " with no backpressure. Put an async buffer (a queue) on calls that do not need an immediate reply.",
                    );
                    let fd = finding(
                        "synchronous-service-coupling",
                        Severity::Medium,
                        Some(e.to.clone()),
                        title,
                        detail,
                        "Chapter 9: The Trouble with Distributed Systems",
                        "Timeouts and Unbounded Delays",
                    );
                    found.push(fd);
                    assert(fviews(found@) =~= prev + seq![f(es[i as int])->0]);
                }
            }
        }
        if !hit {
            assert(fviews(found@) =~= prev + Seq::<FindingView>::empty());
        }
        i = i + 1;
    }
    assert(es.take(es.len() as int) =~= es);
    found
}

// ---------------------------------------------------------------------------
// single-region
// ---------------------------------------------------------------------------

/// The resource is placed in some region.
pub open spec fn is_placed() -> spec_fn(ResourceView) -> bool {
    |r: ResourceView| r.placement.region is Some
}

/// Every placed resource is in the same region.
pub open spec fn one_region(rs: Seq<ResourceView>) -> bool {
    forall|i: int, j: int|
        0 <= i < rs.len() && 0 <= j < rs.len() && rs[i].placement.region is Some
            && rs[j].placement.region is Some ==> #[trigger] rs[i].placement.region
            == #[trigger] rs[j].placement.region
}

/// Some database or cache is present.
pub open spec fn has_stateful(rs: Seq<ResourceView>) -> bool {
    exists|i: int|
        0 <= i < rs.len() && (rs[i].kind == ResourceKind::Database || rs[i].kind
            == ResourceKind::Cache)
}

/// Some DNS resource's variant advertises a failover: health-checked DNS.
pub open spec fn has_failover_dns(p: ProfileView, rs: Seq<ResourceView>) -> bool {
    exists|i: int|
        0 <= i < rs.len() && rs[i].kind == ResourceKind::Dns && configured_variant(p, rs[i]) is Some
            && configured_variant(p, rs[i])->0.failover_seconds is Some
}

/// What the single-region rule reports.
pub open spec fn spec_single_region(a: ArchView, p: ProfileView) -> Seq<FindingView> {
    let placed = a.resources.filter(is_placed());
    if placed.len() < 2 || !one_region(a.resources) || !has_stateful(a.resources)
        || has_failover_dns(p, a.resources) {
        Seq::empty()
    } else {
        let region = placed[0].placement.region->0;
        seq![
            FindingView {
                rule: "single-region"@,
                severity: Severity::Medium,
                resource: None,
                title: "The whole system lives in one region"@,
                detail: "Every placed resource is in "@ + region
                    + " and there is no health-checked DNS failover to a second region, so a regional outage takes everything down. Add a standby region and a failover routing policy."@,
                citation: spec_ddia("Chapter 6: Replication"@, "Multi-Region Operation"@),
            },
        ]
    }
}

fn single_region(arch: &Architecture, profile: &ProviderProfile) -> (found: Vec<Finding>)
    ensures
        fviews(found@) == spec_single_region(arch@, profile@),
{
    let ghost rs = arch@.resources;
    let ghost pl = is_placed();
    let mut placed: usize = 0;
    let mut first_region: Option<&str> = None;
    let mut same = true;
    let mut stateful = false;
    let mut failover_dns = false;
    let mut i: usize = 0;
    while i < arch.resources.len()
        invariant
            rs == arch@.resources,
            pl == is_placed(),
            0 <= i <= rs.len(),
            placed == rs.take(i as int).filter(pl).len(),
            placed <= i,
            placed > 0 <==> first_region is Some,
            first_region is Some ==> rs.take(i as int).filter(pl)[0].placement.region == Some(
                first_region->0@,
            ),
            same == one_region(rs.take(i as int)),
            stateful == has_stateful(rs.take(i as int)),
            failover_dns == has_failover_dns(profile@, rs.take(i as int)),
        decreases rs.len() - i,
    {
        let ghost pre = rs.take(i as int);
        let ghost now = rs.take(i + 1);
        proof {
            assert(now =~= pre.push(rs[i as int]));
            crate::seqs::lemma_filter_push(pre, pl, rs[i as int]);
            pre.lemma_filter_len(pl);
            assert(forall|j: int| 0 <= j < pre.len() ==> pre[j] == now[j]);
            assert(now[i as int] == rs[i as int]);
        }
        let r = &arch.resources[i];
        if let Some(reg) = &r.placement.region {
            match first_region {
                None => {
                    proof {
                        assert(pre.filter(pl).len() == 0);
                        assert(now.filter(pl) =~= seq![rs[i as int]]);
                        assert forall|a: int, b: int|
                            0 <= a < now.len() && 0 <= b < now.len() && now[a].placement.region is Some
                                && now[b].placement.region is Some implies #[trigger] now[a].placement.region
                            == #[trigger] now[b].placement.region by {
                            if a < i {
                                assert(pre.filter(pl).len() == 0);
                                crate::seqs::lemma_filter_keeps(pre, pl, a);
                            }
                            if b < i {
                                crate::seqs::lemma_filter_keeps(pre, pl, b);
                            }
                        }
                    }
                    first_region = Some(reg.as_str());
                },
                Some(fr) => {
                    if !str_eq(fr, reg.as_str()) {
                        proof {
                            let q = pre.filter(pl)[0];
                            crate::seqs::lemma_filter_member(pre, pl, 0);
                            let j = choose|j: int| 0 <= j < pre.len() && pre[j] == q;
                            assert(now[j].placement.region != now[i as int].placement.region);
                        }
                        same = false;
                    } else {
                        proof {
                            if same {
                                let q = pre.filter(pl)[0];
                                crate::seqs::lemma_filter_member(pre, pl, 0);
                                let j = choose|j: int| 0 <= j < pre.len() && pre[j] == q;
                                assert forall|a: int, b: int|
                                    0 <= a < now.len() && 0 <= b < now.len()
                                        && now[a].placement.region is Some
                                        && now[b].placement.region is Some implies #[trigger] now[a].placement.region
                                    == #[trigger] now[b].placement.region by {
                                    assert(now[j] == pre[j]);
                                    if a < i {
                                        assert(now[a] == pre[a]);
                                    }
                                    if b < i {
                                        assert(now[b] == pre[b]);
                                    }
                                }
                            }
                        }
                    }
                    proof {
                        if !same {
                            if one_region(now) {
                                assert forall|a: int, b: int|
                                    0 <= a < pre.len() && 0 <= b < pre.len()
                                        && pre[a].placement.region is Some
                                        && pre[b].placement.region is Some implies #[trigger] pre[a].placement.region
                                    == #[trigger] pre[b].placement.region by {
                                    assert(now[a] == pre[a] && now[b] == pre[b]);
                                }
                            }
                        }
                    }
                },
            }
            placed = placed + 1;
        } else {
            proof {
                if same {
                    assert forall|a: int, b: int|
                        0 <= a < now.len() && 0 <= b < now.len() && now[a].placement.region is Some
                            && now[b].placement.region is Some implies #[trigger] now[a].placement.region
                        == #[trigger] now[b].placement.region by {
                        assert(now[a] == pre[a] && now[b] == pre[b]);
                    }
                } else if one_region(now) {
                    assert forall|a: int, b: int|
                        0 <= a < pre.len() && 0 <= b < pre.len() && pre[a].placement.region is Some
                            && pre[b].placement.region is Some implies #[trigger] pre[a].placement.region
                        == #[trigger] pre[b].placement.region by {
                        assert(now[a] == pre[a] && now[b] == pre[b]);
                    }
                }
            }
        }
        if r.kind == ResourceKind::Database || r.kind == ResourceKind::Cache {
            stateful = true;
        }
        if r.kind == ResourceKind::Dns {
            if let Some(v) = &r.variant {
                if let Some(var) = profile.variant(ResourceKind::Dns, v.as_str()) {
                    if var.failover_seconds.is_some() {
                        failover_dns = true;
                    }
                }
            }
        }
        i = i + 1;
    }
    assert(rs.take(rs.len() as int) =~= rs);
    if placed < 2 || !same || !stateful || failover_dns {
        return Vec::new();
    }
    let region = match first_region {
        Some(r) => r,
        None => "one region",
    };
    let detail = cat3(
        "Every placed resource is in ",
        region,
        " and there is no health-checked DNS failover to a second region, so a regional outage takes everything down. Add a standby region and a failover routing policy.",
    );
    let fd = finding(
        "single-region",
        Severity::Medium,
        None,
        owned("The whole system lives in one region"),
        detail,
        "Chapter 6: Replication",
        "Multi-Region Operation",
    );
    let found = vec![fd];
    assert(fviews(found@) =~= spec_single_region(arch@, profile@));
    found
}

// ---------------------------------------------------------------------------
// unbuffered-write-path
// ---------------------------------------------------------------------------

/// Compute calling a database.
pub open spec fn is_write_edge(rs: Seq<ResourceView>, e: EdgeView) -> bool {
    &&& resolve(rs, e.from) is Some
    &&& resolve(rs, e.to) is Some
    &&& resolve(rs, e.from)->0.kind == ResourceKind::Compute
    &&& resolve(rs, e.to)->0.kind == ResourceKind::Database
}

/// The finding for the first compute-to-database edge reaching a database,
/// raised on the calling compute.
pub open spec fn write_path_finding(rs: Seq<ResourceView>, e: EdgeView) -> FindingView {
    FindingView {
        rule: "unbuffered-write-path"@,
        severity: Severity::Low,
        resource: Some(e.from),
        title: "No cache tier in front of "@ + resolve(rs, e.to)->0.label,
        detail: e.from + " reads and writes "@ + e.to
            + " directly with no cache in the design: every request reaches the database, so read-heavy load has nowhere to shed and a hot key has nothing absorbing it. Consider a cache on the read path."@,
        citation: spec_ddia("Chapter 7: Sharding"@, "Skewed Workloads and Relieving Hot Spots"@),
    }
}

/// One finding per database reached by compute, at its first such edge.
pub open spec fn write_paths(rs: Seq<ResourceView>, es: Seq<EdgeView>) -> Seq<FindingView>
    decreases es.len(),
{
    if es.len() == 0 {
        Seq::empty()
    } else {
        let e = es.last();
        let pre = es.drop_last();
        write_paths(rs, pre) + if is_write_edge(rs, e) && !(exists|j: int|
            0 <= j < pre.len() && is_write_edge(rs, #[trigger] pre[j]) && pre[j].to == e.to) {
            seq![write_path_finding(rs, e)]
        } else {
            Seq::<FindingView>::empty()
        }
    }
}

/// What the write-path rule reports.
pub open spec fn spec_unbuffered(a: ArchView) -> Seq<FindingView> {
    if kind_present(a.resources, ResourceKind::Cache) {
        Seq::empty()
    } else {
        write_paths(a.resources, a.edges)
    }
}

fn unbuffered_write_path(arch: &Architecture) -> (found: Vec<Finding>)
    ensures
        fviews(found@) == spec_unbuffered(arch@),
{
    if kind_present_exec(arch, ResourceKind::Cache) {
        return Vec::new();
    }
    let ghost rs = arch@.resources;
    let ghost es = arch@.edges;
    let mut seen: Vec<String> = Vec::new();
    let mut found: Vec<Finding> = Vec::new();
    let mut i: usize = 0;
    while i < arch.edges.len()
        invariant
            rs == arch@.resources,
            es == arch@.edges,
            0 <= i <= es.len(),
            fviews(found@) == write_paths(rs, es.take(i as int)),
            forall|x: Seq<char>|
                crate::text::views(seen@).contains(x) <==> exists|j: int|
                    0 <= j < i && is_write_edge(rs, #[trigger] es[j]) && es[j].to == x,
        decreases es.len() - i,
    {
        let ghost prev = fviews(found@);
        let ghost prev_seen = crate::text::views(seen@);
        let ghost pre = es.take(i as int);
        proof {
            assert(es.take(i + 1).drop_last() =~= pre);
            assert(es.take(i + 1).last() == es[i as int]);
            assert forall|j: int| 0 <= j < pre.len() implies pre[j] == es[j] by {}
        }
        let e = &arch.edges[i];
        let from = resolve_exec(arch, e.from.as_str());
        let to = resolve_exec(arch, e.to.as_str());
        let mut hit = false;
        if let Some(fr) = from {
            if let Some(tr) = to {
                if fr.kind == ResourceKind::Compute && tr.kind == ResourceKind::Database {
                    assert(is_write_edge(rs, es[i as int]));
                    if !crate::text::contains_str(&seen, e.to.as_str()) {
                        hit = true;
                        seen.push(e.to.clone());
                        assert(crate::text::views(seen@) =~= prev_seen.push(es[i as int].to));
                        let title = cat("No cache tier in front of ", tr.label.as_str());
                        let mut detail = cat3(e.from.as_str(), " reads and writes ", e.to.as_str());
                        detail.append(
                            " directly with no cache in the design: every request reaches the database, so read-heavy load has nowhere to shed and a hot key has nothing absorbing it. Consider a cache on the read path.",
                        );
                        let fd = finding(
                            "unbuffered-write-path",
                            Severity::Low,
                            Some(e.from.clone()),
                            title,
                            detail,
                            "Chapter 7: Sharding",
                            "Skewed Workloads and Relieving Hot Spots",
                        );
                        found.push(fd);
                        proof {
                            assert(!(exists|j: int|
                                0 <= j < pre.len() && is_write_edge(rs, #[trigger] pre[j])
                                    && pre[j].to == es[i as int].to));
                            assert(fviews(found@) =~= prev + seq![
                                write_path_finding(rs, es[i as int]),
                            ]);
                        }
                    } else {
                        proof {
                            let j = choose|j: int|
                                0 <= j < i && is_write_edge(rs, #[trigger] es[j]) && es[j].to
                                    == es[i as int].to;
                            assert(pre[j] == es[j]);
                        }
                    }
                }
            }
        }
        if !hit {
            assert(fviews(found@) =~= prev + Seq::<FindingView>::empty());
        }
        proof {
            let w = is_write_edge(rs, es[i as int]);
            if !hit {
                assert(crate::text::views(seen@) == prev_seen);
                assert(w ==> prev_seen.contains(es[i as int].to));
            } else {
                assert(w);
            }
            assert forall|x: Seq<char>|
                crate::text::views(seen@).contains(x) <==> exists|j: int|
                    0 <= j < i + 1 && is_write_edge(rs, #[trigger] es[j]) && es[j].to == x by {
                if exists|j: int|
                    0 <= j < i + 1 && is_write_edge(rs, #[trigger] es[j]) && es[j].to == x {
                    let j = choose|j: int|
                        0 <= j < i + 1 && is_write_edge(rs, #[trigger] es[j]) && es[j].to == x;
                    if j < i {
                        assert(prev_seen.contains(x));
                        if hit {
                            let k = choose|k: int| 0 <= k < prev_seen.len() && prev_seen[k] == x;
                            assert(crate::text::views(seen@)[k] == x);
                        }
                    } else if hit {
                        assert(crate::text::views(seen@)[prev_seen.len() as int] == x);
                    }
                }
                if crate::text::views(seen@).contains(x) {
                    let k = choose|k: int|
                        0 <= k < crate::text::views(seen@).len() && crate::text::views(seen@)[k] == x;
                    if k < prev_seen.len() {
                        assert(prev_seen[k] == x);
                        assert(prev_seen.contains(x));
                    } else {
                        assert(hit && x == es[i as int].to);
                    }
                }
            }
        }
        i = i + 1;
    }
    assert(es.take(es.len() as int) =~= es);
    found
}

// ---------------------------------------------------------------------------
// The whole lint
// ---------------------------------------------------------------------------

/// `None` sorts before any resource id.
pub open spec fn opt_le(a: Option<Seq<char>>, b: Option<Seq<char>>) -> bool {
    match (a, b) {
        (None, _) => true,
        (Some(_), None) => false,
        (Some(x), Some(y)) => crate::text::lex_le(x, y),
    }
}

/// Worst first, then by rule id, then by resource id.
pub open spec fn finding_le(a: FindingView, b: FindingView) -> bool {
    rank(a.severity) < rank(b.severity) || (rank(a.severity) == rank(b.severity) && (lex_lt(
        a.rule,
        b.rule,
    ) || (a.rule == b.rule && opt_le(a.resource, b.resource))))
}

/// The findings of every rule, in rule order, before sorting.
pub open spec fn spec_findings(a: ArchView, p: ProfileView) -> Seq<FindingView> {
    a.resources.filter_map(|r: ResourceView| single_az_finding(p, r)) + a.resources.filter_map(
        |r: ResourceView| unmanaged_finding(a, r),
    ) + spec_coupling(a) + spec_single_region(a, p) + spec_unbuffered(a)
}

pub proof fn lemma_finding_le_total_preorder()
    ensures
        total_preorder(|a: FindingView, b: FindingView| finding_le(a, b)),
{
    let le = |a: FindingView, b: FindingView| finding_le(a, b);
    assert forall|a: FindingView, b: FindingView| #[trigger] le(a, b) || le(b, a) by {
        lemma_lex_total(a.rule, b.rule);
        if let (Some(x), Some(y)) = (a.resource, b.resource) {
            lemma_lex_total(x, y);
        }
    }
    assert forall|a: FindingView, b: FindingView, c: FindingView|
        #[trigger] le(a, b) && #[trigger] le(b, c) implies le(a, c) by {
        if lex_lt(a.rule, b.rule) && lex_lt(b.rule, c.rule) {
            lemma_lex_transitive(a.rule, b.rule, c.rule);
        }
        if let (Some(x), Some(y), Some(z)) = (a.resource, b.resource, c.resource) {
            if lex_lt(x, y) && lex_lt(y, z) {
                lemma_lex_transitive(x, y, z);
            }
        }
    }
}

fn severity_rank(s: Severity) -> (r: u8)
    ensures
        r as int == rank(s),
{
    match s {
        Severity::High => 0,
        Severity::Medium => 1,
        Severity::Low => 2,
    }
}

fn finding_le_exec(a: &Finding, b: &Finding) -> (r: bool)
    ensures
        r == finding_le(a@, b@),
{
    let ra = severity_rank(a.severity);
    let rb = severity_rank(b.severity);
    if ra != rb {
        return ra < rb;
    }
    if str_lt(a.rule.as_str(), b.rule.as_str()) {
        return true;
    }
    if !str_eq(a.rule.as_str(), b.rule.as_str()) {
        return false;
    }
    match (&a.resource, &b.resource) {
        (None, _) => true,
        (Some(_), None) => false,
        (Some(x), Some(y)) => str_eq(x.as_str(), y.as_str()) || str_lt(x.as_str(), y.as_str()),
    }
}

/// Run every rule over `arch` and return the findings worst-first: sorted by
/// severity, then rule id, then resource id, with ties in rule order.
pub fn lint(arch: &Architecture, profile: &ProviderProfile) -> (findings: Vec<Finding>)
    ensures
        is_stable_sort(
            spec_findings(arch@, profile@),
            fviews(findings@),
            |a: FindingView, b: FindingView| finding_le(a, b),
        ),
{
    let mut all = single_az_datastore(arch, profile);
    let mut more = unmanaged_compute(arch);
    all.append(&mut more);
    let mut more = synchronous_service_coupling(arch);
    all.append(&mut more);
    let mut more = single_region(arch, profile);
    all.append(&mut more);
    let mut more = unbuffered_write_path(arch);
    all.append(&mut more);
    assert(fviews(all@) =~= spec_findings(arch@, profile@));
    let ghost input = all@;
    proof {
        lemma_finding_le_total_preorder();
    }
    let ghost le_t = |a: Finding, b: Finding| finding_le(a@, b@);
    assert(total_preorder(le_t)) by {
        lemma_finding_le_total_preorder();
        let le = |a: FindingView, b: FindingView| finding_le(a, b);
        assert forall|a: Finding, b: Finding| #[trigger] le_t(a, b) || le_t(b, a) by {
            assert(le(a@, b@) || le(b@, a@));
        }
        assert forall|a: Finding, b: Finding, c: Finding|
            #[trigger] le_t(a, b) && #[trigger] le_t(b, c) implies le_t(a, c) by {
            assert(le(a@, b@) && le(b@, c@) ==> le(a@, c@));
        }
    }
    let sorted = stable_sort(
        all,
        (|a: &Finding, b: &Finding| -> (r: bool)
            ensures
                r == finding_le(a@, b@),
            { finding_le_exec(a, b) }),
        Ghost(le_t),
    );
    proof {
        let perm = choose|perm: Seq<int>| stably_sorted_by(input, sorted@, perm, le_t);
        assert(stably_sorted_by(fviews(input), fviews(sorted@), perm, |a: FindingView, b: FindingView| finding_le(a, b)));
    }
    sorted
}

proof fn lemma_filter_map_has<A, B>(s: Seq<A>, f: spec_fn(A) -> Option<B>, i: int)
    requires
        0 <= i < s.len(),
        f(s[i]) is Some,
    ensures
        s.filter_map(f).contains(f(s[i])->0),
    decreases s.len(),
{
    let rest = s.drop_last();
    if i == s.len() - 1 {
        let out = s.filter_map(f);
        assert(out == rest.filter_map(f) + seq![f(s[i])->0]);
        assert(out[out.len() - 1] == f(s[i])->0);
    } else {
        lemma_filter_map_has(rest, f, i);
        assert(rest[i] == s[i]);
        let k = choose|k: int| 0 <= k < rest.filter_map(f).len() && rest.filter_map(f)[k] == f(s[i])->0;
        let out = s.filter_map(f);
        match f(s.last()) {
            Some(x) => assert(out[k] == rest.filter_map(f)[k]),
            None => {},
        }
    }
}

/// Every database or cache whose configured variant the profile marks as a
/// single point of failure gets a High `single-az-datastore` finding on its
/// id in what `lint` returns (the findings of every rule, sorted worst
/// first), wherever it is placed.
pub proof fn law_spof_datastores_flagged(
    a: ArchView,
    p: ProfileView,
    out: Seq<FindingView>,
    i: int,
    v: Seq<char>,
)
    requires
        is_stable_sort(spec_findings(a, p), out, |x: FindingView, y: FindingView| finding_le(x, y)),
        0 <= i < a.resources.len(),
        a.resources[i].kind == ResourceKind::Database || a.resources[i].kind == ResourceKind::Cache,
        a.resources[i].variant == Some(v),
        spec_variant(p, a.resources[i].kind, v) is Some,
        spec_variant(p, a.resources[i].kind, v)->0.spof,
    ensures
        exists|j: int|
            0 <= j < out.len() && (#[trigger] out[j]).rule == "single-az-datastore"@
                && out[j].severity == Severity::High && out[j].resource == Some(a.resources[i].id),
{
    let f = |r: ResourceView| single_az_finding(p, r);
    let r = a.resources[i];
    assert(f(r) is Some);
    let fnd = f(r)->0;
    lemma_filter_map_has(a.resources, f, i);
    let all = spec_findings(a, p);
    let first = a.resources.filter_map(f);
    let k = choose|k: int| 0 <= k < first.len() && first[k] == fnd;
    assert(all[k] == fnd);
    lemma_stable_sort_keeps(all, out, |x: FindingView, y: FindingView| finding_le(x, y), k);
    let j = choose|j: int| 0 <= j < out.len() && out[j] == all[k];
    assert(out[j] == fnd);
}

} // verus!
