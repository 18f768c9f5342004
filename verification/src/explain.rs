//! Plain-language explanation of one thing on the canvas: a resource or a
//! dependency edge. Pure read: it changes nothing.
//!
//! Edge direction: `a -> b` means `a` depends on `b`.

use vstd::prelude::*;

use crate::analysis::{blast_radius, spec_orphans};
use crate::lint::{has_inbound, is_callee, is_caller, kind_present, resolve};
use crate::profile::{spec_variant, ProfileView, ProviderProfile};
use crate::text::{
    cat, cat3, dec, dec_string, owned, split_once, split_once_exec, str_eq, strictly_sorted, trim,
    trim_exec, views,
};
use crate::{has_edge, spec_slug, ArchView, Architecture, EdgeView, Resource, ResourceKind, ResourceView};

verus! {

/// A structured explanation of a selected resource or edge.
#[derive(Debug, Clone, PartialEq)]
pub struct Explanation {
    /// What is explained, e.g. `"database-1 (orders)"` or `"compute-1 → database-1"`.
    pub subject: String,
    /// `"resource"` or `"dependency"`.
    pub selection_kind: String,
    /// One-line description of the role this plays in the design.
    pub summary: String,
    /// What this depends on (its out-edges), with labels.
    pub depends_on: Vec<String>,
    /// What depends on this (its in-edges), with labels.
    pub depended_on_by: Vec<String>,
    /// Everything that goes fully down if this is lost, excluding itself.
    pub takes_down: Vec<String>,
    /// Observations about the configuration and one applicable principle.
    pub notes: Vec<String>,
}

#[verifier::ext_equal]
pub struct ExplanationView {
    pub subject: Seq<char>,
    pub selection_kind: Seq<char>,
    pub summary: Seq<char>,
    pub depends_on: Seq<Seq<char>>,
    pub depended_on_by: Seq<Seq<char>>,
    pub takes_down: Seq<Seq<char>>,
    pub notes: Seq<Seq<char>>,
}

impl View for Explanation {
    type V = ExplanationView;

    open spec fn view(&self) -> ExplanationView {
        ExplanationView {
            subject: self.subject@,
            selection_kind: self.selection_kind@,
            summary: self.summary@,
            depends_on: views(self.depends_on@),
            depended_on_by: views(self.depended_on_by@),
            takes_down: views(self.takes_down@),
            notes: views(self.notes@),
        }
    }
}

/// The vendor-neutral role each kind plays.
pub open spec fn spec_role(kind: ResourceKind) -> Seq<char> {
    match kind {
        ResourceKind::Compute => "Runs your application code. Tolerating the loss of one instance means running more than one, across zones."@,
        ResourceKind::Database => "The system of record. Its replication and failover posture sets the whole design's data-loss and downtime risk."@,
        ResourceKind::Queue => "An asynchronous buffer between a producer and a consumer, so a slow or dead consumer applies backpressure instead of blocking the caller."@,
        ResourceKind::LoadBalancer => "Spreads inbound traffic across healthy compute instances and takes unhealthy ones out of rotation."@,
        ResourceKind::ObjectStore => "Durable blob storage, replicated across zones within a region by default."@,
        ResourceKind::Cache => "A fast read-path tier in front of a slower datastore. Absorbs read-heavy load and hot keys."@,
        ResourceKind::Cdn => "Serves static assets from edge locations close to users. Globally distributed, so no single zone or region is on its critical path."@,
        ResourceKind::Dns => "Resolves names to addresses. With health checks it can shift traffic away from a failed endpoint or region."@,
        ResourceKind::Functions => "Event-driven compute with no server to manage. Scales with load, down to zero."@,
        ResourceKind::ApiGateway => "The front door for an API: routing, authentication and rate-limiting before a request reaches compute."@,
    }
}

/// The vendor-neutral role a kind plays.
pub fn role(kind: ResourceKind) -> (s: &'static str)
    ensures
        s@ == spec_role(kind),
{
    match kind {
        ResourceKind::Compute => "Runs your application code. Tolerating the loss of one instance means running more than one, across zones.",
        ResourceKind::Database => "The system of record. Its replication and failover posture sets the whole design's data-loss and downtime risk.",
        ResourceKind::Queue => "An asynchronous buffer between a producer and a consumer, so a slow or dead consumer applies backpressure instead of blocking the caller.",
        ResourceKind::LoadBalancer => "Spreads inbound traffic across healthy compute instances and takes unhealthy ones out of rotation.",
        ResourceKind::ObjectStore => "Durable blob storage, replicated across zones within a region by default.",
        ResourceKind::Cache => "A fast read-path tier in front of a slower datastore. Absorbs read-heavy load and hot keys.",
        ResourceKind::Cdn => "Serves static assets from edge locations close to users. Globally distributed, so no single zone or region is on its critical path.",
        ResourceKind::Dns => "Resolves names to addresses. With health checks it can shift traffic away from a failed endpoint or region.",
        ResourceKind::Functions => "Event-driven compute with no server to manage. Scales with load, down to zero.",
        ResourceKind::ApiGateway => "The front door for an API: routing, authentication and rate-limiting before a request reaches compute.",
    }
}

/// One architectural principle relevant to a kind, cited to the book.
pub open spec fn spec_principle(kind: ResourceKind) -> Seq<char> {
    match kind {
        ResourceKind::Database => "DDIA Ch 6 (\"Handling Node Outages\"): a leader with no automatic failover target is an outage waiting to happen — prefer a replicated, multi-AZ variant."@,
        ResourceKind::Compute | ResourceKind::Functions => "DDIA Ch 2 (\"Reliability and Fault Tolerance\"): tolerating a node loss requires more than one node."@,
        ResourceKind::Cache => "DDIA Ch 7 (\"Skewed Workloads\"): a cache on the read path is what a hot key lands on instead of the database."@,
        ResourceKind::Queue => "DDIA Ch 9 (\"Timeouts and Unbounded Delays\"): an async buffer stops a slow dependency from blocking its caller."@,
        ResourceKind::LoadBalancer | ResourceKind::ApiGateway => "DDIA Ch 2: a component that fronts others is only as available as its own redundancy — keep it multi-AZ."@,
        ResourceKind::Dns => "DDIA Ch 6 (\"Multi-Region Operation\"): health-checked DNS is the routing layer that makes a standby region reachable."@,
        ResourceKind::ObjectStore | ResourceKind::Cdn => "DDIA Ch 6 (\"Replication\"): replication across zones is what turns a single-copy store into a durable one."@,
    }
}

/// One architectural principle relevant to a kind.
pub fn principle(kind: ResourceKind) -> (s: &'static str)
    ensures
        s@ == spec_principle(kind),
{
    match kind {
        ResourceKind::Database => "DDIA Ch 6 (\"Handling Node Outages\"): a leader with no automatic failover target is an outage waiting to happen — prefer a replicated, multi-AZ variant.",
        ResourceKind::Compute | ResourceKind::Functions => "DDIA Ch 2 (\"Reliability and Fault Tolerance\"): tolerating a node loss requires more than one node.",
        ResourceKind::Cache => "DDIA Ch 7 (\"Skewed Workloads\"): a cache on the read path is what a hot key lands on instead of the database.",
        ResourceKind::Queue => "DDIA Ch 9 (\"Timeouts and Unbounded Delays\"): an async buffer stops a slow dependency from blocking its caller.",
        ResourceKind::LoadBalancer | ResourceKind::ApiGateway => "DDIA Ch 2: a component that fronts others is only as available as its own redundancy — keep it multi-AZ.",
        ResourceKind::Dns => "DDIA Ch 6 (\"Multi-Region Operation\"): health-checked DNS is the routing layer that makes a standby region reachable.",
        ResourceKind::ObjectStore | ResourceKind::Cdn => "DDIA Ch 6 (\"Replication\"): replication across zones is what turns a single-copy store into a durable one.",
    }
}

/// `"<id> (<label>)"`, with the id standing in for the label when no resource
/// has that id.
pub open spec fn spec_with_label(rs: Seq<ResourceView>, id: Seq<char>) -> Seq<char> {
    let label = match resolve(rs, id) {
        Some(r) => r.label,
        None => id,
    };
    id + " ("@ + label + ")"@
}

fn with_label(arch: &Architecture, id: &str) -> (s: String)
    ensures
        s@ == spec_with_label(arch@.resources, id@),
{
    let r = crate::lint::resolve_exec(arch, id);
    let label: &str = match r {
        Some(res) => res.label.as_str(),
        None => id,
    };
    let mut s = cat3(id, " (", label);
    s.append(")");
    s
}

// ---------------------------------------------------------------------------
// Edges
// ---------------------------------------------------------------------------

/// The summary of an edge whose endpoints both exist.
pub open spec fn edge_summary(a: ArchView, f: ResourceView, t: ResourceView) -> Seq<char> {
    let sync = is_caller(f.kind) && is_callee(t.kind) && !kind_present(a.resources, ResourceKind::Queue);
    let sync_note = if sync {
        " This is a synchronous service-to-service call with no queue to absorb it: a slowdown in the callee propagates straight back to the caller."@
    } else {
        ""@
    };
    f.label + " depends on "@ + t.label + ": "@ + t.label + " is on "@ + f.label
        + "'s critical path, so "@ + f.label + " is unavailable whenever "@ + t.label + " is."@
        + sync_note
}

/// The explanation of the dependency `from -> to`.
pub open spec fn spec_explain_edge(a: ArchView, from: Seq<char>, to: Seq<char>) -> ExplanationView {
    let notes = if has_edge(a.edges, from, to) {
        Seq::empty()
    } else {
        seq!["There is no "@ + from + " → "@ + to + " dependency in the current design."@]
    };
    let summary = match (resolve(a.resources, from), resolve(a.resources, to)) {
        (Some(f), Some(t)) => edge_summary(a, f, t),
        _ => from + " → "@ + to + " references a resource that is not on the canvas."@,
    };
    ExplanationView {
        subject: from + " → "@ + to,
        selection_kind: "dependency"@,
        summary,
        depends_on: Seq::empty(),
        depended_on_by: Seq::empty(),
        takes_down: Seq::empty(),
        notes,
    }
}

fn explain_edge(arch: &Architecture, from: &str, to: &str) -> (e: Explanation)
    ensures
        e@ == spec_explain_edge(arch@, from@, to@),
{
    let exists = arch.has_edge(from, to);
    let from_res = crate::lint::resolve_exec(arch, from);
    let to_res = crate::lint::resolve_exec(arch, to);
    let mut notes: Vec<String> = Vec::new();
    if !exists {
        let mut n = cat3("There is no ", from, " → ");
        n.append(to);
        n.append(" dependency in the current design.");
        notes.push(n);
    }
    let summary = match (from_res, to_res) {
        (Some(f), Some(t)) => {
            let buffered = crate::lint::kind_present_exec(arch, ResourceKind::Queue);
            let caller = f.kind == ResourceKind::Compute || f.kind == ResourceKind::ApiGateway
                || f.kind == ResourceKind::Functions;
            let callee = t.kind == ResourceKind::Compute || t.kind == ResourceKind::Functions;
            let sync_note = if caller && callee && !buffered {
                " This is a synchronous service-to-service call with no queue to absorb it: a slowdown in the callee propagates straight back to the caller."
            } else {
                ""
            };
            let mut s = cat3(f.label.as_str(), " depends on ", t.label.as_str());
            s.append(": ");
            s.append(t.label.as_str());
            s.append(" is on ");
            s.append(f.label.as_str());
            s.append("'s critical path, so ");
            s.append(f.label.as_str());
            s.append(" is unavailable whenever ");
            s.append(t.label.as_str());
            s.append(" is.");
            s.append(sync_note);
            s
        },
        _ => {
            let mut s = cat3(from, " → ", to);
            s.append(" references a resource that is not on the canvas.");
            s
        },
    };
    let e = Explanation {
        subject: cat3(from, " → ", to),
        selection_kind: owned("dependency"),
        summary,
        depends_on: Vec::new(),
        depended_on_by: Vec::new(),
        takes_down: Vec::new(),
        notes,
    };
    assert(e@ =~= spec_explain_edge(arch@, from@, to@));
    e
}


// ---------------------------------------------------------------------------
// Resources
// ---------------------------------------------------------------------------

/// The failover clause of a variant note.
pub open spec fn failover_clause(fo: Option<u32>) -> Seq<char> {
    match fo {
        Some(s) => ", failing over in about "@ + dec(s as nat) + "s"@,
        None => ""@,
    }
}

/// The note on a resource's variant.
pub open spec fn variant_note(p: ProfileView, r: ResourceView, id: Seq<char>) -> Seq<char> {
    match r.variant {
        None => "No provider variant is set, so failure analysis treats "@ + id
            + " generically. Run configure-resource to pin a concrete service."@,
        Some(v) => match spec_variant(p, r.kind, v) {
            Some(var) => if var.spof {
                "Its variant ("@ + var.display_name
                    + ") is a single point of failure by construction: no built-in redundancy."@
            } else {
                "Its variant is "@ + var.display_name + failover_clause(var.failover_seconds) + "."@
            },
            None => "Its variant \""@ + v + "\" is not in the "@ + p.display_name + " profile."@,
        },
    }
}

/// The note on a resource's placement.
pub open spec fn placement_note(r: ResourceView) -> Seq<char> {
    match (r.placement.region, r.placement.az) {
        (Some(region), Some(az)) => "Placed in a single zone ("@ + az + ") of "@ + region
            + ": losing that one zone takes it with it."@,
        (Some(region), None) => "Placed regionally in "@ + region
            + " (spread across that region's zones)."@,
        _ => if r.kind == ResourceKind::Cdn || r.kind == ResourceKind::Dns {
            "Global service — it has no single-zone or single-region footprint."@
        } else {
            "Not placed in any region yet."@
        },
    }
}

/// The edge leaves `id`.
pub open spec fn edge_from(id: Seq<char>) -> spec_fn(EdgeView) -> bool {
    |e: EdgeView| e.from == id
}

/// The edge enters `id`.
pub open spec fn edge_to(id: Seq<char>) -> spec_fn(EdgeView) -> bool {
    |e: EdgeView| e.to == id
}

/// `e` is the explanation of the resource id `id`.
pub open spec fn resource_explained(a: ArchView, p: ProfileView, id: Seq<char>, e: ExplanationView) -> bool {
    let rs = a.resources;
    match resolve(rs, id) {
        None => e == ExplanationView {
            subject: id,
            selection_kind: "resource"@,
            summary: "There is no resource "@ + id + " on the canvas."@,
            depends_on: Seq::empty(),
            depended_on_by: Seq::empty(),
            takes_down: Seq::empty(),
            notes: Seq::empty(),
        },
        Some(r) => {
            &&& e.subject == id + " ("@ + r.label + ")"@
            &&& e.selection_kind == "resource"@
            &&& e.summary == spec_role(r.kind)
            &&& e.depends_on == a.edges.filter(edge_from(id)).map_values(
                |x: EdgeView| spec_with_label(rs, x.to),
            )
            &&& e.depended_on_by == a.edges.filter(edge_to(id)).map_values(
                |x: EdgeView| spec_with_label(rs, x.from),
            )
            &&& e.notes == seq![variant_note(p, r, id), placement_note(r), spec_principle(r.kind)]
            &&& exists|o: Seq<Seq<char>>|
                strictly_sorted(o) && o.to_set() == spec_orphans(a, id) && e.takes_down
                    == o.map_values(|x: Seq<char>| spec_with_label(rs, x))
        },
    }
}

/// The labelled ends of the edges selected by `want_from`: their targets when
/// `want_from`, else their sources.
fn labelled_neighbours(arch: &Architecture, id: &str, want_from: bool) -> (v: Vec<String>)
    ensures
        want_from ==> views(v@) == arch@.edges.filter(edge_from(id@)).map_values(
            |x: EdgeView| spec_with_label(arch@.resources, x.to),
        ),
        !want_from ==> views(v@) == arch@.edges.filter(edge_to(id@)).map_values(
            |x: EdgeView| spec_with_label(arch@.resources, x.from),
        ),
{
    let ghost es = arch@.edges;
    let ghost rs = arch@.resources;
    let ghost p = if want_from { edge_from(id@) } else { edge_to(id@) };
    let ghost m = if want_from {
        |x: EdgeView| spec_with_label(rs, x.to)
    } else {
        |x: EdgeView| spec_with_label(rs, x.from)
    };
    let mut v: Vec<String> = Vec::new();
    let mut i: usize = 0;
    while i < arch.edges.len()
        invariant
            es == arch@.edges,
            rs == arch@.resources,
            p == if want_from { edge_from(id@) } else { edge_to(id@) },
            m == if want_from {
                |x: EdgeView| spec_with_label(rs, x.to)
            } else {
                |x: EdgeView| spec_with_label(rs, x.from)
            },
            0 <= i <= es.len(),
            views(v@) == es.take(i as int).filter(p).map_values(m),
        decreases es.len() - i,
    {
        let ghost prev = es.take(i as int).filter(p);
        let ghost prev_v = views(v@);
        proof {
            assert(es.take(i + 1) =~= es.take(i as int).push(es[i as int]));
            crate::seqs::lemma_filter_push(es.take(i as int), p, es[i as int]);
        }
        let e = &arch.edges[i];
        let hit = if want_from {
            str_eq(e.from.as_str(), id)
        } else {
            str_eq(e.to.as_str(), id)
        };
        if hit {
            let other = if want_from {
                e.to.as_str()
            } else {
                e.from.as_str()
            };
            v.push(with_label(arch, other));
            assert(views(v@) =~= prev_v.push(m(es[i as int])));
            assert(prev.push(es[i as int]).map_values(m) =~= prev.map_values(m).push(m(es[i as int])));
        }
        i = i + 1;
    }
    assert(es.take(es.len() as int) =~= es);
    v
}

fn explain_resource(arch: &Architecture, profile: &ProviderProfile, id: &str) -> (e: Explanation)
    ensures
        resource_explained(arch@, profile@, id@, e@),
{
    let idx = match arch.find(id) {
        Some(i) => i,
        None => {
            let mut summary = cat("There is no resource ", id);
            summary.append(" on the canvas.");
            let e = Explanation {
                subject: owned(id),
                selection_kind: owned("resource"),
                summary,
                depends_on: Vec::new(),
                depended_on_by: Vec::new(),
                takes_down: Vec::new(),
                notes: Vec::new(),
            };
            assert(e@ =~= ExplanationView {
                subject: id@,
                selection_kind: "resource"@,
                summary: "There is no resource "@ + id@ + " on the canvas."@,
                depends_on: Seq::empty(),
                depended_on_by: Seq::empty(),
                takes_down: Seq::empty(),
                notes: Seq::empty(),
            });
            return e;
        },
    };
    proof {
        crate::analysis::lemma_first_index(arch@.resources, id@, idx as int);
    }
    let resource = &arch.resources[idx];
    assert(resource.id@ == id@);

    let depends_on = labelled_neighbours(arch, id, true);
    let depended_on_by = labelled_neighbours(arch, id, false);

    let seed = vec![resource.id.clone()];
    proof {
        assert(views(seed@) =~= seq![id@]);
        assert forall|y: Seq<char>| views(seed@).to_set().contains(y) <==> y == id@ by {
            if y == id@ {
                assert(views(seed@)[0] == y);
            }
        }
        assert(views(seed@).to_set() =~= Set::empty().insert(id@));
    }
    let report = blast_radius(arch, profile, seed.as_slice(), None, id);
    let orphans = crate::analysis::without(&report.down, id);
    let ghost o = views(orphans@);
    let mut takes_down: Vec<String> = Vec::new();
    let mut k: usize = 0;
    while k < orphans.len()
        invariant
            o == views(orphans@),
            0 <= k <= o.len(),
            views(takes_down@) == o.take(k as int).map_values(
                |x: Seq<char>| spec_with_label(arch@.resources, x),
            ),
        decreases o.len() - k,
    {
        let ghost prev = views(takes_down@);
        takes_down.push(with_label(arch, orphans[k].as_str()));
        assert(views(takes_down@) =~= prev.push(spec_with_label(arch@.resources, o[k as int])));
        assert(o.take(k + 1) =~= o.take(k as int).push(o[k as int]));
        assert(views(takes_down@) =~= o.take(k + 1).map_values(
            |x: Seq<char>| spec_with_label(arch@.resources, x),
        ));
        k = k + 1;
    }
    assert(o.take(o.len() as int) =~= o);

    let mut notes: Vec<String> = Vec::new();
    let vnote = match &resource.variant {
        None => {
            let mut s = cat("No provider variant is set, so failure analysis treats ", id);
            s.append(" generically. Run configure-resource to pin a concrete service.");
            s
        },
        Some(v) => match profile.variant(resource.kind, v.as_str()) {
            Some(var) => if var.spof {
                cat3(
                    "Its variant (",
                    var.display_name.as_str(),
                    ") is a single point of failure by construction: no built-in redundancy.",
                )
            } else {
                let clause = match var.failover_seconds {
                    Some(secs) => {
                        let mut c = owned(", failing over in about ");
                        let num = dec_string(secs as u64);
                        c.append(num.as_str());
                        c.append("s");
                        assert(c@ =~= failover_clause(var.failover_seconds));
                        c
                    },
                    None => {
                        let c = owned("");
                        assert(c@ =~= failover_clause(var.failover_seconds));
                        c
                    },
                };
                let mut s = cat3("Its variant is ", var.display_name.as_str(), clause.as_str());
                s.append(".");
                s
            },
            None => {
                let mut s = cat3("Its variant \"", v.as_str(), "\" is not in the ");
                s.append(profile.display_name.as_str());
                s.append(" profile.");
                s
            },
        },
    };
    assert(vnote@ =~= variant_note(profile@, resource@, id@));
    notes.push(vnote);
    let pnote = match (&resource.placement.region, &resource.placement.az) {
        (Some(region), Some(az)) => {
            let mut s = cat3("Placed in a single zone (", az.as_str(), ") of ");
            s.append(region.as_str());
            s.append(": losing that one zone takes it with it.");
            s
        },
        (Some(region), None) => cat3(
            "Placed regionally in ",
            region.as_str(),
            " (spread across that region's zones).",
        ),
        _ => if resource.kind.is_global() {
            owned("Global service — it has no single-zone or single-region footprint.")
        } else {
            owned("Not placed in any region yet.")
        },
    };
    assert(pnote@ =~= placement_note(resource@));
    notes.push(pnote);
    notes.push(owned(principle(resource.kind)));

    let mut subject = cat3(id, " (", resource.label.as_str());
    subject.append(")");
    let e = Explanation {
        subject,
        selection_kind: owned("resource"),
        summary: owned(role(resource.kind)),
        depends_on,
        depended_on_by,
        takes_down,
        notes,
    };
    proof {
        assert(e@.notes =~= seq![
            variant_note(profile@, resource@, id@),
            placement_note(resource@),
            spec_principle(resource.kind),
        ]);
        assert(o.to_set() == spec_orphans(arch@, id@));
    }
    e
}

/// A selection written `"from->to"` or `"from → to"` names an edge: its two
/// ends, trimmed.
pub open spec fn edge_parts(sel: Seq<char>) -> Option<(Seq<char>, Seq<char>)> {
    match split_once(sel, "->"@) {
        Some((a, b)) => Some((trim(a), trim(b))),
        None => match split_once(sel, "→"@) {
            Some((a, b)) => Some((trim(a), trim(b))),
            None => None,
        },
    }
}

/// Explain one resource id, or one edge written `"from->to"` / `"from → to"`
/// (surrounding whitespace is ignored).
pub fn explain(arch: &Architecture, profile: &ProviderProfile, selection: &str) -> (e: Explanation)
    ensures
        match edge_parts(trim(selection@)) {
            Some((from, to)) => e@ == spec_explain_edge(arch@, from, to),
            None => resource_explained(arch@, profile@, trim(selection@), e@),
        },
{
    let sel = trim_exec(selection);
    let parts = match split_once_exec(sel.as_str(), "->") {
        Some(p) => Some(p),
        None => split_once_exec(sel.as_str(), "→"),
    };
    match parts {
        Some((a, b)) => {
            let from = trim_exec(a.as_str());
            let to = trim_exec(b.as_str());
            explain_edge(arch, from.as_str(), to.as_str())
        },
        None => explain_resource(arch, profile, sel.as_str()),
    }
}

} // verus!
