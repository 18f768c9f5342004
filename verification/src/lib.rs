//! Pure compute core for the Faultline cloud-architecture studio: an in-memory
//! architecture graph plus validation, failure analysis, resilience lint, cost
//! estimate, explanations, proposals and a Terraform emitter.

use vstd::prelude::*;

pub mod analysis;
pub mod cost;
pub mod explain;
pub mod iac;
pub mod lint;
pub mod order;
pub mod profile;
pub mod propose;
pub mod seqs;
pub mod studio;
pub mod text;

use crate::seqs::{lemma_filter_keeps, lemma_filter_member, lemma_filter_pairwise, lemma_filter_push};
use crate::text::{cat, cat3, dec, dec_string, owned, str_eq};

verus! {

/// A vendor-neutral cloud building block.
#[derive(Debug, Clone, Copy, PartialEq, Eq, Hash, Structural)]
pub enum ResourceKind {
    Compute,
    Database,
    Queue,
    LoadBalancer,
    ObjectStore,
    Cache,
    Cdn,
    Dns,
    Functions,
    ApiGateway,
}

/// The stable lowercase identifier of a kind.
pub open spec fn spec_slug(kind: ResourceKind) -> Seq<char> {
    match kind {
        ResourceKind::Compute => "compute"@,
        ResourceKind::Database => "database"@,
        ResourceKind::Queue => "queue"@,
        ResourceKind::LoadBalancer => "load-balancer"@,
        ResourceKind::ObjectStore => "object-store"@,
        ResourceKind::Cache => "cache"@,
        ResourceKind::Cdn => "cdn"@,
        ResourceKind::Dns => "dns"@,
        ResourceKind::Functions => "functions"@,
        ResourceKind::ApiGateway => "api-gateway"@,
    }
}

impl ResourceKind {
    /// Stable lowercase identifier, also used as the id prefix.
    pub fn slug(&self) -> (s: &'static str)
        ensures
            s@ == spec_slug(*self),
    {
        match self {
            ResourceKind::Compute => "compute",
            ResourceKind::Database => "database",
            ResourceKind::Queue => "queue",
            ResourceKind::LoadBalancer => "load-balancer",
            ResourceKind::ObjectStore => "object-store",
            ResourceKind::Cache => "cache",
            ResourceKind::Cdn => "cdn",
            ResourceKind::Dns => "dns",
            ResourceKind::Functions => "functions",
            ResourceKind::ApiGateway => "api-gateway",
        }
    }

    /// A globally distributed service (CDN, DNS): losing a zone or a region
    /// never takes it down directly.
    pub fn is_global(&self) -> (b: bool)
        ensures
            b == (*self == ResourceKind::Cdn || *self == ResourceKind::Dns),
    {
        match self {
            ResourceKind::Cdn | ResourceKind::Dns => true,
            _ => false,
        }
    }
}


impl ResourceKind {
    /// Every kind, in catalog order.
    pub fn all() -> (v: Vec<ResourceKind>)
        ensures
            v@ == spec_all_kinds(),
    {
        let v = vec![
            ResourceKind::Compute,
            ResourceKind::Database,
            ResourceKind::Queue,
            ResourceKind::LoadBalancer,
            ResourceKind::ObjectStore,
            ResourceKind::Cache,
            ResourceKind::Cdn,
            ResourceKind::Dns,
            ResourceKind::Functions,
            ResourceKind::ApiGateway,
        ];
        assert(v@ =~= spec_all_kinds());
        v
    }

    /// The kind whose slug is `s`, or `UnknownKind(s)`.
    pub fn parse(s: &str) -> (r: Result<ResourceKind, ArchError>)
        ensures
            match r {
                Ok(k) => spec_slug(k) == s@,
                Err(e) => e@ == ArchErrorView::UnknownKind(s@) && forall|k: ResourceKind|
                    spec_slug(k) != s@,
            },
    {
        let kinds = ResourceKind::all();
        let mut i: usize = 0;
        while i < kinds.len()
            invariant
                kinds@ == spec_all_kinds(),
                0 <= i <= kinds@.len(),
                forall|j: int| 0 <= j < i ==> spec_slug(#[trigger] kinds@[j]) != s@,
            decreases kinds@.len() - i,
        {
            if str_eq(kinds[i].slug(), s) {
                return Ok(kinds[i]);
            }
            i = i + 1;
        }
        proof {
            assert forall|k: ResourceKind| spec_slug(k) != s@ by {
                lemma_all_kinds_listed(k);
            }
        }
        Err(ArchError::UnknownKind(owned(s)))
    }

    /// The slug, as an owned string (what `Display` renders).
    pub fn to_string(&self) -> (s: String)
        ensures
            s@ == spec_slug(*self),
    {
        owned(self.slug())
    }
}

/// Every kind, in catalog order.
pub open spec fn spec_all_kinds() -> Seq<ResourceKind> {
    seq![
        ResourceKind::Compute,
        ResourceKind::Database,
        ResourceKind::Queue,
        ResourceKind::LoadBalancer,
        ResourceKind::ObjectStore,
        ResourceKind::Cache,
        ResourceKind::Cdn,
        ResourceKind::Dns,
        ResourceKind::Functions,
        ResourceKind::ApiGateway,
    ]
}

pub proof fn lemma_all_kinds_listed(k: ResourceKind)
    ensures
        spec_all_kinds().contains(k),
{
    let s = spec_all_kinds();
    match k {
        ResourceKind::Compute => assert(s[0] == k),
        ResourceKind::Database => assert(s[1] == k),
        ResourceKind::Queue => assert(s[2] == k),
        ResourceKind::LoadBalancer => assert(s[3] == k),
        ResourceKind::ObjectStore => assert(s[4] == k),
        ResourceKind::Cache => assert(s[5] == k),
        ResourceKind::Cdn => assert(s[6] == k),
        ResourceKind::Dns => assert(s[7] == k),
        ResourceKind::Functions => assert(s[8] == k),
        ResourceKind::ApiGateway => assert(s[9] == k),
    }
}

/// Where a resource lives: `az` set is one zone; only `region` set is spread
/// across that region's zones; neither is unplaced (or global).
#[derive(Debug, Clone, PartialEq)]
pub struct Placement {
    pub region: Option<String>,
    pub az: Option<String>,
}

/// The view of an optional string.
pub open spec fn opt_view(o: Option<String>) -> Option<Seq<char>> {
    match o {
        Some(s) => Some(s@),
        None => None,
    }
}

#[verifier::ext_equal]
pub struct PlacementView {
    pub region: Option<Seq<char>>,
    pub az: Option<Seq<char>>,
}

impl View for Placement {
    type V = PlacementView;

    open spec fn view(&self) -> PlacementView {
        PlacementView { region: opt_view(self.region), az: opt_view(self.az) }
    }
}

impl Default for Placement {
    fn default() -> (p: Placement)
        ensures
            p.region is None,
            p.az is None,
    {
        Placement { region: None, az: None }
    }
}

/// A placed resource on the canvas. The canvas position is kept as the
/// IEEE-754 bit patterns of its two coordinates; nothing here computes with it.
#[derive(Debug, Clone, PartialEq)]
pub struct Resource {
    pub id: String,
    pub kind: ResourceKind,
    pub label: String,
    pub x_bits: u64,
    pub y_bits: u64,
    /// Provider-specific service choice, e.g. `"rds-multi-az"`.
    pub variant: Option<String>,
    pub placement: Placement,
}

#[verifier::ext_equal]
pub struct ResourceView {
    pub id: Seq<char>,
    pub kind: ResourceKind,
    pub label: Seq<char>,
    pub x_bits: u64,
    pub y_bits: u64,
    pub variant: Option<Seq<char>>,
    pub placement: PlacementView,
}

impl View for Resource {
    type V = ResourceView;

    open spec fn view(&self) -> ResourceView {
        ResourceView {
            id: self.id@,
            kind: self.kind,
            label: self.label@,
            x_bits: self.x_bits,
            y_bits: self.y_bits,
            variant: opt_view(self.variant),
            placement: self.placement@,
        }
    }
}

/// A directed dependency `from -> to`: `from` depends on `to`.
#[derive(Debug, Clone, PartialEq, Eq)]
pub struct Edge {
    pub from: String,
    pub to: String,
}

#[verifier::ext_equal]
pub struct EdgeView {
    pub from: Seq<char>,
    pub to: Seq<char>,
}

impl View for Edge {
    type V = EdgeView;

    open spec fn view(&self) -> EdgeView {
        EdgeView { from: self.from@, to: self.to@ }
    }
}

/// The next sequence number handed out for one kind slug.
#[derive(Debug, Clone, PartialEq)]
pub struct KindCounter {
    pub kind: String,
    pub count: u32,
}

/// Everything that can go wrong when editing or validating an [`Architecture`].
#[derive(Debug, Clone, PartialEq, Eq)]
pub enum ArchError {
    UnknownKind(String),
    UnknownResource(String),
    SelfLoop(String),
    DuplicateEdge { from: String, to: String },
    DuplicateId(String),
    DanglingEdge { from: String, to: String },
    AzWithoutRegion(String),
}

pub enum ArchErrorView {
    UnknownKind(Seq<char>),
    UnknownResource(Seq<char>),
    SelfLoop(Seq<char>),
    DuplicateEdge(Seq<char>, Seq<char>),
    DuplicateId(Seq<char>),
    DanglingEdge(Seq<char>, Seq<char>),
    AzWithoutRegion(Seq<char>),
}

impl View for ArchError {
    type V = ArchErrorView;

    open spec fn view(&self) -> ArchErrorView {
        match self {
            ArchError::UnknownKind(s) => ArchErrorView::UnknownKind(s@),
            ArchError::UnknownResource(s) => ArchErrorView::UnknownResource(s@),
            ArchError::SelfLoop(s) => ArchErrorView::SelfLoop(s@),
            ArchError::DuplicateEdge { from, to } => ArchErrorView::DuplicateEdge(from@, to@),
            ArchError::DuplicateId(s) => ArchErrorView::DuplicateId(s@),
            ArchError::DanglingEdge { from, to } => ArchErrorView::DanglingEdge(from@, to@),
            ArchError::AzWithoutRegion(s) => ArchErrorView::AzWithoutRegion(s@),
        }
    }
}

/// The operation failed with an error whose view is `ev`.
pub open spec fn fails_with<T>(r: Result<T, ArchError>, ev: ArchErrorView) -> bool {
    r matches Err(e) && e@ == ev
}

/// An in-memory cloud-architecture graph. `counters` keeps the last sequence
/// number handed out per kind, so ids stay unique across removals.
#[derive(Debug, Clone, PartialEq)]
pub struct Architecture {
    pub resources: Vec<Resource>,
    pub edges: Vec<Edge>,
    pub counters: Vec<KindCounter>,
}

#[verifier::ext_equal]
pub struct ArchView {
    pub resources: Seq<ResourceView>,
    pub edges: Seq<EdgeView>,
    pub counters: Seq<(Seq<char>, u32)>,
}

impl View for Architecture {
    type V = ArchView;

    open spec fn view(&self) -> ArchView {
        ArchView {
            resources: self.resources@.map_values(|r: Resource| r@),
            edges: self.edges@.map_values(|e: Edge| e@),
            counters: self.counters@.map_values(|c: KindCounter| (c.kind@, c.count)),
        }
    }
}

// ---------------------------------------------------------------------------
// The mathematical model of the graph
// ---------------------------------------------------------------------------

/// Some resource has this id.
pub open spec fn has_id(rs: Seq<ResourceView>, id: Seq<char>) -> bool {
    exists|i: int| 0 <= i < rs.len() && rs[i].id == id
}

/// `i` is the first position holding a resource with this id.
pub open spec fn is_first(rs: Seq<ResourceView>, id: Seq<char>, i: int) -> bool {
    &&& 0 <= i < rs.len()
    &&& rs[i].id == id
    &&& forall|j: int| 0 <= j < i ==> rs[j].id != id
}

/// The count stored for `key` (the first entry that has it), or zero.
pub open spec fn counter_of(cs: Seq<(Seq<char>, u32)>, key: Seq<char>) -> nat
    decreases cs.len(),
{
    if cs.len() == 0 {
        0
    } else if cs[0].0 == key {
        cs[0].1 as nat
    } else {
        counter_of(cs.drop_first(), key)
    }
}

/// The id generated for the `n`-th resource of kind `k`: `"<slug>-<n>"`.
pub open spec fn kind_id(k: ResourceKind, n: nat) -> Seq<char> {
    spec_slug(k) + "-"@ + dec(n)
}

/// An edge `from -> to` is present.
pub open spec fn has_edge(es: Seq<EdgeView>, from: Seq<char>, to: Seq<char>) -> bool {
    exists|i: int| 0 <= i < es.len() && es[i].from == from && es[i].to == to
}

/// The resource does not have this id.
pub open spec fn other_resource(id: Seq<char>) -> spec_fn(ResourceView) -> bool {
    |rv: ResourceView| rv.id != id
}

/// The edge touches no resource with this id.
pub open spec fn edge_avoids(id: Seq<char>) -> spec_fn(EdgeView) -> bool {
    |ev: EdgeView| ev.from != id && ev.to != id
}

/// No two of these resources share an id.
pub open spec fn distinct_ids(rs: Seq<ResourceView>) -> bool {
    forall|i: int, j: int| 0 <= i < rs.len() && 0 <= j < rs.len() && i != j ==> rs[i].id != rs[j].id
}

/// Every one of these edges joins two of these resources.
pub open spec fn all_resolved(rs: Seq<ResourceView>, es: Seq<EdgeView>) -> bool {
    forall|i: int| 0 <= i < es.len() ==> has_id(rs, #[trigger] es[i].from) && has_id(rs, es[i].to)
}

/// No two resources share an id.
pub open spec fn ids_distinct(a: ArchView) -> bool {
    distinct_ids(a.resources)
}

/// Every edge joins two resources that exist.
pub open spec fn edges_resolved(a: ArchView) -> bool {
    all_resolved(a.resources, a.edges)
}

/// No edge is a self-loop and no edge occurs twice.
pub open spec fn edges_simple(a: ArchView) -> bool {
    &&& forall|i: int| 0 <= i < a.edges.len() ==> #[trigger] a.edges[i].from != a.edges[i].to
    &&& forall|i: int, j: int|
        0 <= i < a.edges.len() && 0 <= j < a.edges.len() && i != j ==> !(a.edges[i].from
            == a.edges[j].from && a.edges[i].to == a.edges[j].to)
}

/// Every id of the generated shape `"<slug>-<n>"` has `n` at most the counter
/// for that slug, so the next generated id is new.
pub open spec fn ids_fresh(a: ArchView) -> bool {
    forall|i: int, k: ResourceKind, n: nat|
        #![trigger a.resources[i], kind_id(k, n)]
        0 <= i < a.resources.len() && a.resources[i].id == kind_id(k, n) ==> n
            <= counter_of(a.counters, spec_slug(k))
}

/// The invariant every editing operation keeps.
pub open spec fn well_formed(a: ArchView) -> bool {
    &&& ids_distinct(a)
    &&& edges_resolved(a)
    &&& edges_simple(a)
    &&& ids_fresh(a)
}

impl Architecture {
    /// An empty architecture.
    pub fn new() -> (a: Architecture)
        ensures
            a@.resources.len() == 0,
            a@.edges.len() == 0,
            a@.counters.len() == 0,
            well_formed(a@),
    {
        Architecture { resources: Vec::new(), edges: Vec::new(), counters: Vec::new() }
    }

    /// The first position of a resource with this id.
    pub fn find(&self, id: &str) -> (r: Option<usize>)
        ensures
            match r {
                Some(i) => is_first(self@.resources, id@, i as int),
                None => !has_id(self@.resources, id@),
            },
    {
        let mut i: usize = 0;
        while i < self.resources.len()
            invariant
                0 <= i <= self.resources@.len(),
                forall|j: int| 0 <= j < i ==> self@.resources[j].id != id@,
            decreases self.resources@.len() - i,
        {
            if str_eq(self.resources[i].id.as_str(), id) {
                return Some(i);
            }
            i = i + 1;
        }
        None
    }

    /// Whether a resource with this id exists.
    pub fn contains(&self, id: &str) -> (b: bool)
        ensures
            b == has_id(self@.resources, id@),
    {
        self.find(id).is_some()
    }

    /// Structural problems that should not exist but might after loading a raw
    /// document: each repeated id (every occurrence after the first), then
    /// each edge with a missing endpoint, in document order.
    pub fn validate(&self) -> (errs: Vec<ArchError>)
        ensures
            errs@.map_values(|e: ArchError| e@) == spec_validate(self@),
    {
        let mut errs: Vec<ArchError> = Vec::new();
        let ghost rs = self@.resources;
        let mut i: usize = 0;
        while i < self.resources.len()
            invariant
                rs == self@.resources,
                0 <= i <= rs.len(),
                errs@.map_values(|e: ArchError| e@) == dup_errors(rs.take(i as int)),
            decreases rs.len() - i,
        {
            let ghost prev = errs@.map_values(|e: ArchError| e@);
            let mut seen = false;
            let mut j: usize = 0;
            while j < i
                invariant
                    rs == self@.resources,
                    0 <= j <= i < rs.len(),
                    seen == exists|k: int| 0 <= k < j && rs[k].id == rs[i as int].id,
                decreases i - j,
            {
                if str_eq(self.resources[j].id.as_str(), self.resources[i].id.as_str()) {
                    assert(rs[j as int].id == rs[i as int].id);
                    seen = true;
                } else {
                    assert(rs[j as int].id != rs[i as int].id);
                }
                j = j + 1;
            }
            proof {
                let t = rs.take(i + 1);
                assert(t.drop_last() =~= rs.take(i as int));
                assert(t.last() == rs[i as int]);
                assert(seen == has_id(rs.take(i as int), rs[i as int].id)) by {
                    if seen {
                        let k = choose|k: int| 0 <= k < i && rs[k].id == rs[i as int].id;
                        assert(rs.take(i as int)[k] == rs[k]);
                    }
                    if has_id(rs.take(i as int), rs[i as int].id) {
                        let k = choose|k: int|
                            0 <= k < rs.take(i as int).len() && rs.take(i as int)[k].id
                                == rs[i as int].id;
                        assert(rs[k] == rs.take(i as int)[k]);
                    }
                }
            }
            if seen {
                errs.push(ArchError::DuplicateId(self.resources[i].id.clone()));
                assert(errs@.map_values(|e: ArchError| e@) =~= prev + seq![
                    ArchErrorView::DuplicateId(rs[i as int].id),
                ]);
            } else {
                assert(errs@.map_values(|e: ArchError| e@) =~= prev + Seq::<ArchErrorView>::empty());
            }
            i = i + 1;
        }
        assert(rs.take(rs.len() as int) =~= rs);
        let ghost dups = errs@.map_values(|e: ArchError| e@);
        let ghost es = self@.edges;
        let mut k: usize = 0;
        while k < self.edges.len()
            invariant
                rs == self@.resources,
                es == self@.edges,
                0 <= k <= es.len(),
                errs@.map_values(|e: ArchError| e@) == dups + dangling_errors(
                    rs,
                    es.take(k as int),
                ),
            decreases es.len() - k,
        {
            let ghost prev = errs@.map_values(|e: ArchError| e@);
            proof {
                let t = es.take(k + 1);
                assert(t.drop_last() =~= es.take(k as int));
                assert(t.last() == es[k as int]);
            }
            let e = &self.edges[k];
            if !self.contains(e.from.as_str()) || !self.contains(e.to.as_str()) {
                errs.push(ArchError::DanglingEdge { from: e.from.clone(), to: e.to.clone() });
                assert(errs@.map_values(|e: ArchError| e@) =~= prev + seq![
                    ArchErrorView::DanglingEdge(es[k as int].from, es[k as int].to),
                ]);
            } else {
                assert(errs@.map_values(|e: ArchError| e@) =~= prev + Seq::<ArchErrorView>::empty());
            }
            k = k + 1;
        }
        assert(es.take(es.len() as int) =~= es);
        errs
    }

    /// Whether the edge `from -> to` is present.
    pub fn has_edge(&self, from: &str, to: &str) -> (b: bool)
        ensures
            b == has_edge(self@.edges, from@, to@),
    {
        let mut i: usize = 0;
        while i < self.edges.len()
            invariant
                0 <= i <= self.edges@.len(),
                forall|j: int|
                    0 <= j < i ==> !(self@.edges[j].from == from@ && self@.edges[j].to == to@),
            decreases self.edges@.len() - i,
        {
            if str_eq(self.edges[i].from.as_str(), from) && str_eq(self.edges[i].to.as_str(), to) {
                assert(self@.edges[i as int].from == from@ && self@.edges[i as int].to == to@);
                return true;
            }
            i = i + 1;
        }
        false
    }

    /// Set (or clear, with `None`) a resource's provider-specific variant.
    pub fn set_variant(&mut self, id: &str, variant: Option<String>) -> (r: Result<(), ArchError>)
        ensures
            r is Ok <==> has_id(old(self)@.resources, id@),
            match r {
                Ok(_) => exists|i: int|
                    is_first(old(self)@.resources, id@, i) && final(self)@.resources == old(
                        self,
                    )@.resources.update(
                        i,
                        ResourceView { variant: opt_view(variant), ..old(self)@.resources[i] },
                    ),
                Err(e) => e@ == ArchErrorView::UnknownResource(id@) && final(self)@.resources
                    == old(self)@.resources,
            },
            final(self)@.edges == old(self)@.edges,
            final(self)@.counters == old(self)@.counters,
            well_formed(old(self)@) ==> well_formed(final(self)@),
            edit_step(old(self)@, final(self)@),
    {
        match self.find(id) {
            None => Err(ArchError::UnknownResource(owned(id))),
            Some(i) => {
                let ghost before = self@;
                self.resources[i].variant = variant;
                proof {
                    assert(self@.resources =~= before.resources.update(
                        i as int,
                        ResourceView { variant: opt_view(variant), ..before.resources[i as int] },
                    ));
                    lemma_same_ids_keep_well_formed(before, self@);
                }
                Ok(())
            },
        }
    }

    /// Set a resource's placement. A zone without a region is rejected first,
    /// before the id is looked up.
    pub fn place(&mut self, id: &str, region: Option<String>, az: Option<String>) -> (r: Result<
        (),
        ArchError,
    >)
        ensures
            az is Some && region is None ==> fails_with(r, ArchErrorView::AzWithoutRegion(id@)),
            !(az is Some && region is None) ==> (r is Ok <==> has_id(old(self)@.resources, id@)),
            !(az is Some && region is None) && r is Err ==> fails_with(r, ArchErrorView::UnknownResource(id@)),
            match r {
                Ok(_) => exists|i: int|
                    is_first(old(self)@.resources, id@, i) && final(self)@.resources == old(
                        self,
                    )@.resources.update(
                        i,
                        ResourceView {
                            placement: PlacementView { region: opt_view(region), az: opt_view(az) },
                            ..old(self)@.resources[i]
                        },
                    ),
                Err(_) => final(self)@.resources == old(self)@.resources,
            },
            final(self)@.edges == old(self)@.edges,
            final(self)@.counters == old(self)@.counters,
            well_formed(old(self)@) ==> well_formed(final(self)@),
            edit_step(old(self)@, final(self)@),
    {
        if az.is_some() && region.is_none() {
            return Err(ArchError::AzWithoutRegion(owned(id)));
        }
        match self.find(id) {
            None => Err(ArchError::UnknownResource(owned(id))),
            Some(i) => {
                let ghost before = self@;
                let ghost pv = PlacementView { region: opt_view(region), az: opt_view(az) };
                self.resources[i].placement = Placement { region, az };
                proof {
                    assert(self@.resources =~= before.resources.update(
                        i as int,
                        ResourceView { placement: pv, ..before.resources[i as int] },
                    ));
                    lemma_same_ids_keep_well_formed(before, self@);
                }
                Ok(())
            },
        }
    }

    /// Move a resource to a new canvas position (coordinates as IEEE-754 bits).
    pub fn move_resource(&mut self, id: &str, x_bits: u64, y_bits: u64) -> (r: Result<
        (),
        ArchError,
    >)
        ensures
            r is Ok <==> has_id(old(self)@.resources, id@),
            match r {
                Ok(_) => exists|i: int|
                    is_first(old(self)@.resources, id@, i) && final(self)@.resources == old(
                        self,
                    )@.resources.update(
                        i,
                        ResourceView { x_bits, y_bits, ..old(self)@.resources[i] },
                    ),
                Err(e) => e@ == ArchErrorView::UnknownResource(id@) && final(self)@.resources
                    == old(self)@.resources,
            },
            final(self)@.edges == old(self)@.edges,
            final(self)@.counters == old(self)@.counters,
            well_formed(old(self)@) ==> well_formed(final(self)@),
            edit_step(old(self)@, final(self)@),
    {
        match self.find(id) {
            None => Err(ArchError::UnknownResource(owned(id))),
            Some(i) => {
                let ghost before = self@;
                self.resources[i].x_bits = x_bits;
                self.resources[i].y_bits = y_bits;
                proof {
                    assert(self@.resources =~= before.resources.update(
                        i as int,
                        ResourceView { x_bits, y_bits, ..before.resources[i as int] },
                    ));
                    lemma_same_ids_keep_well_formed(before, self@);
                }
                Ok(())
            },
        }
    }

    /// Connect `from -> to`. Rejects, in this order: a self-loop, an unknown
    /// `from`, an unknown `to`, and an edge that is already present.
    pub fn connect(&mut self, from: &str, to: &str) -> (r: Result<(), ArchError>)
        ensures
            from@ == to@ ==> fails_with(r, ArchErrorView::SelfLoop(from@)),
            from@ != to@ && !has_id(old(self)@.resources, from@) ==> fails_with(r, ArchErrorView::UnknownResource(from@)),
            from@ != to@ && has_id(old(self)@.resources, from@) && !has_id(
                old(self)@.resources,
                to@,
            ) ==> fails_with(r, ArchErrorView::UnknownResource(to@)),
            from@ != to@ && has_id(old(self)@.resources, from@) && has_id(
                old(self)@.resources,
                to@,
            ) && has_edge(old(self)@.edges, from@, to@) ==> fails_with(r, ArchErrorView::DuplicateEdge(from@, to@)),
            r is Ok <==> (from@ != to@ && has_id(old(self)@.resources, from@) && has_id(
                old(self)@.resources,
                to@,
            ) && !has_edge(old(self)@.edges, from@, to@)),
            r is Ok ==> final(self)@.edges == old(self)@.edges.push(EdgeView { from: from@, to: to@ }),
            r is Err ==> final(self)@.edges == old(self)@.edges,
            final(self)@.resources == old(self)@.resources,
            final(self)@.counters == old(self)@.counters,
            well_formed(old(self)@) ==> well_formed(final(self)@),
            edit_step(old(self)@, final(self)@),
    {
        if str_eq(from, to) {
            return Err(ArchError::SelfLoop(owned(from)));
        }
        if !self.contains(from) {
            return Err(ArchError::UnknownResource(owned(from)));
        }
        if !self.contains(to) {
            return Err(ArchError::UnknownResource(owned(to)));
        }
        if self.has_edge(from, to) {
            return Err(ArchError::DuplicateEdge { from: owned(from), to: owned(to) });
        }
        let ghost before = self@;
        self.edges.push(Edge { from: owned(from), to: owned(to) });
        proof {
            assert(self@.edges =~= before.edges.push(EdgeView { from: from@, to: to@ }));
            assert(self@.resources =~= before.resources);
            assert(connected_to(before, self@, from@, to@));
            lemma_connect_keeps_well_formed(before, self@, from@, to@);
        }
        Ok(())
    }

    /// Remove a resource and every edge touching it.
    pub fn remove_resource(&mut self, id: &str) -> (r: Result<(), ArchError>)
        ensures
            r is Ok <==> has_id(old(self)@.resources, id@),
            match r {
                Ok(_) => {
                    &&& final(self)@.resources == old(self)@.resources.filter(other_resource(id@))
                    &&& final(self)@.edges == old(self)@.edges.filter(edge_avoids(id@))
                },
                Err(e) => e@ == ArchErrorView::UnknownResource(id@) && final(self)@.resources
                    == old(self)@.resources && final(self)@.edges == old(self)@.edges,
            },
            final(self)@.counters == old(self)@.counters,
            well_formed(old(self)@) ==> well_formed(final(self)@),
            edit_step(old(self)@, final(self)@),
    {
        if !self.contains(id) {
            return Err(ArchError::UnknownResource(owned(id)));
        }
        let ghost before = self@;
        let ghost keep_r = other_resource(id@);
        let ghost keep_e = edge_avoids(id@);

        let mut old_rs: Vec<Resource> = Vec::new();
        std::mem::swap(&mut old_rs, &mut self.resources);
        let mut kept_rs: Vec<Resource> = Vec::new();
        let mut i: usize = 0;
        while i < old_rs.len()
            invariant
                keep_r == other_resource(id@),
                old_rs@.map_values(|r: Resource| r@) == before.resources,
                0 <= i <= old_rs@.len(),
                kept_rs@.map_values(|r: Resource| r@) == before.resources.take(i as int).filter(
                    keep_r,
                ),
            decreases old_rs@.len() - i,
        {
            let ghost prev = kept_rs@.map_values(|r: Resource| r@);
            let ghost rv = before.resources[i as int];
            proof {
                assert(before.resources.take(i + 1) =~= before.resources.take(i as int).push(rv));
                lemma_filter_push(before.resources.take(i as int), keep_r, rv);
            }
            assert(old_rs@[i as int]@ == rv);
            if !str_eq(old_rs[i].id.as_str(), id) {
                let r = old_rs[i].clone_resource();
                kept_rs.push(r);
                assert(kept_rs@.map_values(|r: Resource| r@) =~= prev.push(rv));
            }
            i = i + 1;
        }
        assert(before.resources.take(old_rs@.len() as int) =~= before.resources);
        self.resources = kept_rs;

        let mut old_es: Vec<Edge> = Vec::new();
        std::mem::swap(&mut old_es, &mut self.edges);
        let mut kept_es: Vec<Edge> = Vec::new();
        let mut j: usize = 0;
        while j < old_es.len()
            invariant
                keep_e == edge_avoids(id@),
                old_es@.map_values(|e: Edge| e@) == before.edges,
                0 <= j <= old_es@.len(),
                kept_es@.map_values(|e: Edge| e@) == before.edges.take(j as int).filter(keep_e),
            decreases old_es@.len() - j,
        {
            let ghost prev = kept_es@.map_values(|e: Edge| e@);
            let ghost ev = before.edges[j as int];
            proof {
                assert(before.edges.take(j + 1) =~= before.edges.take(j as int).push(ev));
                lemma_filter_push(before.edges.take(j as int), keep_e, ev);
            }
            assert(old_es@[j as int]@ == ev);
            if !str_eq(old_es[j].from.as_str(), id) && !str_eq(old_es[j].to.as_str(), id) {
                let e = Edge { from: old_es[j].from.clone(), to: old_es[j].to.clone() };
                kept_es.push(e);
                assert(kept_es@.map_values(|e: Edge| e@) =~= prev.push(ev));
            }
            j = j + 1;
        }
        assert(before.edges.take(old_es@.len() as int) =~= before.edges);
        self.edges = kept_es;
        proof {
            lemma_remove_keeps_well_formed(before, self@, id@);
            assert(removed_from(before, self@, id@));
        }
        Ok(())
    }

    /// Add a resource, returning its generated id `"<kind>-<n>"`, where `n` is
    /// one more than the last number handed out for that kind.
    pub fn add_resource(&mut self, kind: ResourceKind, label: &str, x_bits: u64, y_bits: u64) -> (id:
        String)
        requires
            counter_of(old(self)@.counters, spec_slug(kind)) < u32::MAX,
        ensures
            id@ == kind_id(kind, counter_of(old(self)@.counters, spec_slug(kind)) + 1),
            final(self)@.resources == old(self)@.resources.push(
                ResourceView {
                    id: id@,
                    kind,
                    label: label@,
                    x_bits,
                    y_bits,
                    variant: None,
                    placement: PlacementView { region: None, az: None },
                },
            ),
            final(self)@.edges == old(self)@.edges,
            forall|key: Seq<char>|
                #[trigger] counter_of(final(self)@.counters, key) == if key == spec_slug(kind) {
                    counter_of(old(self)@.counters, key) + 1
                } else {
                    counter_of(old(self)@.counters, key)
                },
            well_formed(old(self)@) ==> !has_id(old(self)@.resources, id@),
            well_formed(old(self)@) ==> well_formed(final(self)@),
            edit_step(old(self)@, final(self)@),
    {
        let ghost before = self@;
        let slug = kind.slug();
        let n = self.bump_counter(slug);
        let ghost bumped = self@.counters;
        let num = dec_string(n as u64);
        let id = cat3(slug, "-", num.as_str());
        self.resources.push(
            Resource {
                id: id.clone(),
                kind,
                label: owned(label),
                x_bits,
                y_bits,
                variant: None,
                placement: Placement { region: None, az: None },
            },
        );
        proof {
            assert(id@ =~= kind_id(kind, n as nat));
            assert(self@.edges =~= before.edges);
            assert(self@.counters == bumped);
            assert forall|key: Seq<char>| #[trigger]
                counter_of(self@.counters, key) == if key == spec_slug(kind) {
                    counter_of(before.counters, key) + 1
                } else {
                    counter_of(before.counters, key)
                } by {
                assert(counter_of(bumped, key) == counter_of(self@.counters, key));
            }
            lemma_add_keeps_well_formed(before, self@, kind);
            assert(added_to(before, self@, kind));
        }
        id
    }

    /// Increment the counter for `key` (creating it at one), returning its
    /// new value.
    fn bump_counter(&mut self, key: &str) -> (n: u32)
        requires
            counter_of(old(self)@.counters, key@) < u32::MAX,
        ensures
            n == counter_of(old(self)@.counters, key@) + 1,
            forall|k: Seq<char>|
                #[trigger] counter_of(final(self)@.counters, k) == if k == key@ {
                    counter_of(old(self)@.counters, k) + 1
                } else {
                    counter_of(old(self)@.counters, k)
                },
            final(self)@.resources == old(self)@.resources,
            final(self)@.edges == old(self)@.edges,
            final(self).resources == old(self).resources,
    {
        let ghost before = self@.counters;
        let mut i: usize = 0;
        while i < self.counters.len()
            invariant
                self@.counters == before,
                before == old(self)@.counters,
                self.resources == old(self).resources,
                self.edges == old(self).edges,
                0 <= i <= before.len(),
                forall|j: int| 0 <= j < i ==> before[j].0 != key@,
                counter_of(before, key@) < u32::MAX,
            decreases before.len() - i,
        {
            if str_eq(self.counters[i].kind.as_str(), key) {
                proof {
                    lemma_counter_at(before, key@, i as int);
                }
                assert(self.counters@[i as int].count == before[i as int].1);
                let n = self.counters[i].count + 1;
                self.counters[i].count = n;
                proof {
                    let after = self@.counters;
                    assert(after =~= before.update(i as int, (key@, n)));
                    assert forall|k: Seq<char>| #[trigger]
                        counter_of(after, k) == if k == key@ {
                            counter_of(before, k) + 1
                        } else {
                            counter_of(before, k)
                        } by {
                        lemma_counter_update(before, key@, i as int, n, k);
                    }
                }
                return n;
            }
            i = i + 1;
        }
        proof {
            lemma_counter_absent(before, key@);
        }
        self.counters.push(KindCounter { kind: owned(key), count: 1 });
        proof {
            let after = self@.counters;
            assert(after =~= before.push((key@, 1u32)));
            assert forall|k: Seq<char>| #[trigger]
                counter_of(after, k) == if k == key@ {
                    counter_of(before, k) + 1
                } else {
                    counter_of(before, k)
                } by {
                lemma_counter_push(before, key@, k);
            }
        }
        1
    }
}

impl Resource {
    /// A copy of this resource.
    pub fn clone_resource(&self) -> (r: Resource)
        ensures
            r@ == self@,
    {
        Resource {
            id: self.id.clone(),
            kind: self.kind,
            label: self.label.clone(),
            x_bits: self.x_bits,
            y_bits: self.y_bits,
            variant: clone_opt(&self.variant),
            placement: Placement {
                region: clone_opt(&self.placement.region),
                az: clone_opt(&self.placement.az),
            },
        }
    }
}

/// A copy of an optional string.
pub fn clone_opt(o: &Option<String>) -> (r: Option<String>)
    ensures
        opt_view(r) == opt_view(*o),
{
    match o {
        Some(s) => Some(s.clone()),
        None => None,
    }
}

/// One `DuplicateId` per resource whose id already occurred earlier.
pub open spec fn dup_errors(rs: Seq<ResourceView>) -> Seq<ArchErrorView>
    decreases rs.len(),
{
    if rs.len() == 0 {
        seq![]
    } else {
        dup_errors(rs.drop_last()) + if has_id(rs.drop_last(), rs.last().id) {
            seq![ArchErrorView::DuplicateId(rs.last().id)]
        } else {
            Seq::<ArchErrorView>::empty()
        }
    }
}

/// One `DanglingEdge` per edge with an endpoint that is not a resource.
pub open spec fn dangling_errors(rs: Seq<ResourceView>, es: Seq<EdgeView>) -> Seq<ArchErrorView>
    decreases es.len(),
{
    if es.len() == 0 {
        seq![]
    } else {
        dangling_errors(rs, es.drop_last()) + if !has_id(rs, es.last().from) || !has_id(
            rs,
            es.last().to,
        ) {
            seq![ArchErrorView::DanglingEdge(es.last().from, es.last().to)]
        } else {
            Seq::<ArchErrorView>::empty()
        }
    }
}

/// What [`Architecture::validate`] reports.
pub open spec fn spec_validate(a: ArchView) -> Seq<ArchErrorView> {
    dup_errors(a.resources) + dangling_errors(a.resources, a.edges)
}

/// The human-readable message of an error.
pub open spec fn spec_message(e: ArchErrorView) -> Seq<char> {
    match e {
        ArchErrorView::UnknownKind(k) => "unknown resource kind: "@ + k,
        ArchErrorView::UnknownResource(id) => "no such resource: "@ + id,
        ArchErrorView::SelfLoop(id) => "cannot connect "@ + id + " to itself"@,
        ArchErrorView::DuplicateEdge(from, to) => from + " -> "@ + to + " is already connected"@,
        ArchErrorView::DuplicateId(id) => "duplicate resource id: "@ + id,
        ArchErrorView::DanglingEdge(from, to) => "edge "@ + from + " -> "@ + to
            + " references a missing resource"@,
        ArchErrorView::AzWithoutRegion(id) => "cannot place "@ + id
            + " in an availability zone without a region"@,
    }
}

impl ArchError {
    /// The human-readable message (what `Display` renders).
    pub fn to_string(&self) -> (s: String)
        ensures
            s@ == spec_message(self@),
    {
        match self {
            ArchError::UnknownKind(k) => cat("unknown resource kind: ", k.as_str()),
            ArchError::UnknownResource(id) => cat("no such resource: ", id.as_str()),
            ArchError::SelfLoop(id) => cat3("cannot connect ", id.as_str(), " to itself"),
            ArchError::DuplicateEdge { from, to } => {
                let mut s = cat3(from.as_str(), " -> ", to.as_str());
                s.append(" is already connected");
                s
            },
            ArchError::DuplicateId(id) => cat("duplicate resource id: ", id.as_str()),
            ArchError::DanglingEdge { from, to } => {
                let mut s = cat3("edge ", from.as_str(), " -> ");
                s.append(to.as_str());
                s.append(" references a missing resource");
                s
            },
            ArchError::AzWithoutRegion(id) => cat3(
                "cannot place ",
                id.as_str(),
                " in an availability zone without a region",
            ),
        }
    }
}

impl std::str::FromStr for ResourceKind {
    type Err = ArchError;

    fn from_str(s: &str) -> (r: Result<ResourceKind, ArchError>)
        ensures
            match r {
                Ok(k) => spec_slug(k) == s@,
                Err(e) => e@ == ArchErrorView::UnknownKind(s@) && forall|k: ResourceKind|
                    spec_slug(k) != s@,
            },
    {
        ResourceKind::parse(s)
    }
}

// ---------------------------------------------------------------------------
// Laws of the graph model
// ---------------------------------------------------------------------------

proof fn lemma_dup_errors_empty(rs: Seq<ResourceView>)
    ensures
        dup_errors(rs).len() == 0 <==> distinct_ids(rs),
    decreases rs.len(),
{
    if rs.len() > 0 {
        let t = rs.drop_last();
        lemma_dup_errors_empty(t);
        let last = rs.len() - 1;
        if dup_errors(rs).len() == 0 {
            assert forall|i: int, j: int|
                0 <= i < rs.len() && 0 <= j < rs.len() && i != j implies rs[i].id != rs[j].id by {
                if i < last && j < last {
                    assert(t[i] == rs[i] && t[j] == rs[j]);
                } else if i == last {
                    if rs[i].id == rs[j].id {
                        assert(t[j].id == rs.last().id);
                    }
                } else {
                    if rs[i].id == rs[j].id {
                        assert(t[i].id == rs.last().id);
                    }
                }
            }
        } else {
            if !has_id(t, rs.last().id) {
                let i = choose|i: int, j: int|
                    0 <= i < t.len() && 0 <= j < t.len() && i != j && t[i].id == t[j].id;
                assert(exists|i: int, j: int|
                    0 <= i < t.len() && 0 <= j < t.len() && i != j && t[i].id == t[j].id);
                let (a, b) = choose|a: int, b: int|
                    0 <= a < t.len() && 0 <= b < t.len() && a != b && t[a].id == t[b].id;
                assert(rs[a] == t[a] && rs[b] == t[b]);
            } else {
                let k = choose|k: int| 0 <= k < t.len() && t[k].id == rs.last().id;
                assert(rs[k] == t[k]);
            }
        }
    }
}

proof fn lemma_dangling_errors_empty(rs: Seq<ResourceView>, es: Seq<EdgeView>)
    ensures
        dangling_errors(rs, es).len() == 0 <==> all_resolved(rs, es),
    decreases es.len(),
{
    if es.len() > 0 {
        let t = es.drop_last();
        lemma_dangling_errors_empty(rs, t);
        let tail = if !has_id(rs, es.last().from) || !has_id(rs, es.last().to) {
            seq![ArchErrorView::DanglingEdge(es.last().from, es.last().to)]
        } else {
            Seq::<ArchErrorView>::empty()
        };
        assert(dangling_errors(rs, es) == dangling_errors(rs, t) + tail);
        if dangling_errors(rs, es).len() == 0 {
            assert(dangling_errors(rs, t).len() == 0);
            assert(has_id(rs, es.last().from) && has_id(rs, es.last().to));
            assert forall|i: int| 0 <= i < es.len() implies has_id(rs, #[trigger] es[i].from)
                && has_id(rs, es[i].to) by {
                if i < es.len() - 1 {
                    assert(t[i] == es[i]);
                } else {
                    assert(es[i] == es.last());
                }
            }
        } else if has_id(rs, es.last().from) && has_id(rs, es.last().to) {
            assert(dangling_errors(rs, t).len() > 0);
            if all_resolved(rs, es) {
                assert forall|i: int| 0 <= i < t.len() implies has_id(rs, #[trigger] t[i].from)
                    && has_id(rs, t[i].to) by {
                    assert(t[i] == es[i]);
                }
            }
        } else {
            assert(es[es.len() - 1] == es.last());
            assert(!(has_id(rs, es[es.len() - 1].from) && has_id(rs, es[es.len() - 1].to)));
        }
    }
}

/// `validate` reports nothing exactly when no id repeats and every edge joins
/// two existing resources.
pub proof fn law_validate_clean_iff(a: ArchView)
    ensures
        spec_validate(a).len() == 0 <==> (ids_distinct(a) && edges_resolved(a)),
{
    lemma_dup_errors_empty(a.resources);
    lemma_dangling_errors_empty(a.resources, a.edges);
}

/// A well-formed architecture validates clean.
pub proof fn law_well_formed_validates_clean(a: ArchView)
    requires
        well_formed(a),
    ensures
        spec_validate(a).len() == 0,
{
    law_validate_clean_iff(a);
}

/// A new architecture: no resources, no edges, no counters.
pub open spec fn empty_design(a: ArchView) -> bool {
    &&& a.resources.len() == 0
    &&& a.edges.len() == 0
    &&& a.counters.len() == 0
}

/// `b` keeps the ids (position by position), the edges and the counters of
/// `a`: a rejected call, or a change of variant, placement or position.
pub open spec fn retouched(a: ArchView, b: ArchView) -> bool {
    &&& b.resources.len() == a.resources.len()
    &&& forall|i: int|
        0 <= i < a.resources.len() ==> #[trigger] b.resources[i].id == a.resources[i].id
    &&& b.edges == a.edges
    &&& b.counters == a.counters
}

/// `b` is `a` with the edge `from -> to` added, as `connect` accepts it.
pub open spec fn connected_to(a: ArchView, b: ArchView, from: Seq<char>, to: Seq<char>) -> bool {
    &&& from != to
    &&& has_id(a.resources, from)
    &&& has_id(a.resources, to)
    &&& !has_edge(a.edges, from, to)
    &&& b.resources == a.resources
    &&& b.counters == a.counters
    &&& b.edges == a.edges.push(EdgeView { from, to })
}

/// `b` is `a` without the resource `id` and the edges touching it.
pub open spec fn removed_from(a: ArchView, b: ArchView, id: Seq<char>) -> bool {
    &&& b.resources == a.resources.filter(other_resource(id))
    &&& b.edges == a.edges.filter(edge_avoids(id))
    &&& b.counters == a.counters
}

/// `b` is `a` with one more resource of `kind` under the next generated id,
/// and that kind's counter one higher.
pub open spec fn added_to(a: ArchView, b: ArchView, kind: ResourceKind) -> bool {
    &&& b.resources.len() == a.resources.len() + 1
    &&& forall|i: int| 0 <= i < a.resources.len() ==> #[trigger] b.resources[i] == a.resources[i]
    &&& b.resources[a.resources.len() as int].id == kind_id(
        kind,
        counter_of(a.counters, spec_slug(kind)) + 1,
    )
    &&& b.edges == a.edges
    &&& forall|key: Seq<char>|
        #[trigger] counter_of(b.counters, key) == if key == spec_slug(kind) {
            counter_of(a.counters, key) + 1
        } else {
            counter_of(a.counters, key)
        }
}

/// One call of an editing operation of [`Architecture`] takes `a` to `b`
/// (each of them ensures this of the value before and after the call).
pub open spec fn edit_step(a: ArchView, b: ArchView) -> bool {
    ||| retouched(a, b)
    ||| exists|from: Seq<char>, to: Seq<char>| connected_to(a, b, from, to)
    ||| exists|id: Seq<char>| removed_from(a, b, id)
    ||| exists|kind: ResourceKind| added_to(a, b, kind)
}

/// Step `i` of the trace is one editing call.
pub open spec fn edit_link(trace: Seq<ArchView>, i: int) -> bool {
    edit_step(trace[i], trace[i + 1])
}

/// `trace` starts at a new architecture and each entry follows from the one
/// before by one editing call.
pub open spec fn edit_chain(trace: Seq<ArchView>) -> bool {
    &&& trace.len() >= 1
    &&& empty_design(trace[0])
    &&& forall|i: int| 0 <= i < trace.len() - 1 ==> #[trigger] edit_link(trace, i)
}

/// Any design built from `Architecture::new()` by any sequence of editing
/// calls (`add_resource`, `connect`, `set_variant`, `place`,
/// `move_resource`, `remove_resource`), whatever each returned, validates
/// clean, and none of its edges is a self-loop or occurs twice.
pub proof fn law_edited_designs_validate_clean(trace: Seq<ArchView>)
    requires
        edit_chain(trace),
    ensures
        spec_validate(trace.last()).len() == 0,
        edges_simple(trace.last()),
{
    lemma_chain_well_formed(trace, trace.len() - 1);
    law_well_formed_validates_clean(trace.last());
}

proof fn lemma_chain_well_formed(trace: Seq<ArchView>, k: int)
    requires
        edit_chain(trace),
        0 <= k < trace.len(),
    ensures
        well_formed(trace[k]),
    decreases k,
{
    if k > 0 {
        lemma_chain_well_formed(trace, k - 1);
        assert(edit_link(trace, k - 1));
        lemma_step_keeps_well_formed(trace[k - 1], trace[k]);
    }
}

proof fn lemma_step_keeps_well_formed(a: ArchView, b: ArchView)
    requires
        edit_step(a, b),
        well_formed(a),
    ensures
        well_formed(b),
{
    if retouched(a, b) {
        lemma_same_ids_keep_well_formed(a, b);
    } else if exists|from: Seq<char>, to: Seq<char>| connected_to(a, b, from, to) {
        let (from, to) = choose|from: Seq<char>, to: Seq<char>| connected_to(a, b, from, to);
        lemma_connect_keeps_well_formed(a, b, from, to);
    } else if exists|id: Seq<char>| removed_from(a, b, id) {
        let id = choose|id: Seq<char>| removed_from(a, b, id);
        lemma_remove_keeps_well_formed(a, b, id);
    } else {
        let kind = choose|kind: ResourceKind| added_to(a, b, kind);
        lemma_add_keeps_well_formed(a, b, kind);
    }
}

// ---------------------------------------------------------------------------
// Proofs about the editing operations
// ---------------------------------------------------------------------------

proof fn lemma_counter_at(cs: Seq<(Seq<char>, u32)>, key: Seq<char>, i: int)
    requires
        0 <= i < cs.len(),
        cs[i].0 == key,
        forall|j: int| 0 <= j < i ==> cs[j].0 != key,
    ensures
        counter_of(cs, key) == cs[i].1,
    decreases i,
{
    if i > 0 {
        lemma_counter_at(cs.drop_first(), key, i - 1);
    }
}

proof fn lemma_counter_absent(cs: Seq<(Seq<char>, u32)>, key: Seq<char>)
    requires
        forall|j: int| 0 <= j < cs.len() ==> cs[j].0 != key,
    ensures
        counter_of(cs, key) == 0,
    decreases cs.len(),
{
    if cs.len() > 0 {
        lemma_counter_absent(cs.drop_first(), key);
    }
}

proof fn lemma_counter_update(
    cs: Seq<(Seq<char>, u32)>,
    key: Seq<char>,
    i: int,
    n: u32,
    k: Seq<char>,
)
    requires
        0 <= i < cs.len(),
        cs[i].0 == key,
        forall|j: int| 0 <= j < i ==> cs[j].0 != key,
        n == cs[i].1 + 1,
    ensures
        counter_of(cs.update(i, (key, n)), k) == if k == key {
            counter_of(cs, k) + 1
        } else {
            counter_of(cs, k)
        },
    decreases i,
{
    if i == 0 {
        assert(cs.update(0, (key, n)).drop_first() =~= cs.drop_first());
    } else {
        assert(cs.update(i, (key, n)).drop_first() =~= cs.drop_first().update(i - 1, (key, n)));
        lemma_counter_update(cs.drop_first(), key, i - 1, n, k);
    }
}

proof fn lemma_counter_push(cs: Seq<(Seq<char>, u32)>, key: Seq<char>, k: Seq<char>)
    requires
        forall|j: int| 0 <= j < cs.len() ==> cs[j].0 != key,
    ensures
        counter_of(cs.push((key, 1u32)), k) == if k == key {
            counter_of(cs, k) + 1
        } else {
            counter_of(cs, k)
        },
    decreases cs.len(),
{
    if cs.len() == 0 {
        assert(cs.push((key, 1u32)).drop_first() =~= cs);
        if k == key {
            lemma_counter_absent(cs, key);
        }
    } else {
        assert(cs.push((key, 1u32)).drop_first() =~= cs.drop_first().push((key, 1u32)));
        lemma_counter_push(cs.drop_first(), key, k);
    }
}

/// An operation that keeps every id, every edge and every counter keeps the
/// invariant.
pub(crate) proof fn lemma_same_ids_keep_well_formed(a: ArchView, b: ArchView)
    requires
        a.resources.len() == b.resources.len(),
        forall|i: int| 0 <= i < a.resources.len() ==> a.resources[i].id == b.resources[i].id,
        a.edges == b.edges,
        a.counters == b.counters,
    ensures
        well_formed(a) ==> well_formed(b),
{
    if well_formed(a) {
        assert forall|i: int| 0 <= i < b.edges.len() implies has_id(
            b.resources,
            #[trigger] b.edges[i].from,
        ) && has_id(b.resources, b.edges[i].to) by {
            let k = choose|k: int| 0 <= k < a.resources.len() && a.resources[k].id == a.edges[i].from;
            assert(b.resources[k].id == b.edges[i].from);
            let m = choose|m: int| 0 <= m < a.resources.len() && a.resources[m].id == a.edges[i].to;
            assert(b.resources[m].id == b.edges[i].to);
        }
        assert forall|i: int, k: ResourceKind, n: nat|
            #![trigger b.resources[i], kind_id(k, n)]
            0 <= i < b.resources.len() && b.resources[i].id == kind_id(k, n) implies n
                <= counter_of(b.counters, spec_slug(k)) by {
            assert(a.resources[i].id == kind_id(k, n));
        }
    }
}

/// Adding a new edge between two existing resources keeps the invariant.
proof fn lemma_connect_keeps_well_formed(a: ArchView, b: ArchView, from: Seq<char>, to: Seq<char>)
    requires
        connected_to(a, b, from, to),
    ensures
        well_formed(a) ==> well_formed(b),
{
    if well_formed(a) {
        assert forall|i: int| 0 <= i < b.edges.len() implies has_id(
            b.resources,
            #[trigger] b.edges[i].from,
        ) && has_id(b.resources, b.edges[i].to) by {
            if i < a.edges.len() {
                assert(b.edges[i] == a.edges[i]);
            }
        }
        assert forall|i: int| 0 <= i < b.edges.len() implies #[trigger] b.edges[i].from
            != b.edges[i].to by {
            if i < a.edges.len() {
                assert(b.edges[i] == a.edges[i]);
            }
        }
        assert forall|i: int, j: int|
            0 <= i < b.edges.len() && 0 <= j < b.edges.len() && i != j implies !(
            b.edges[i].from == b.edges[j].from && b.edges[i].to == b.edges[j].to) by {
            if i == a.edges.len() {
                assert(b.edges[j] == a.edges[j]);
            } else if j == a.edges.len() {
                assert(b.edges[i] == a.edges[i]);
            } else {
                assert(b.edges[i] == a.edges[i]);
                assert(b.edges[j] == a.edges[j]);
            }
        }
    }
}

/// Removing a resource and its incident edges keeps the invariant.
proof fn lemma_remove_keeps_well_formed(a: ArchView, b: ArchView, id: Seq<char>)
    requires
        b.resources == a.resources.filter(other_resource(id)),
        b.edges == a.edges.filter(edge_avoids(id)),
        b.counters == a.counters,
    ensures
        well_formed(a) ==> well_formed(b),
{
    let keep_r = other_resource(id);
    let keep_e = edge_avoids(id);
    if well_formed(a) {
        lemma_filter_pairwise(a.resources, keep_r, |x: ResourceView, y: ResourceView| x.id == y.id);
        lemma_filter_pairwise(
            a.edges,
            keep_e,
            |x: EdgeView, y: EdgeView| x.from == y.from && x.to == y.to,
        );
        assert forall|i: int| 0 <= i < b.edges.len() implies has_id(
            b.resources,
            #[trigger] b.edges[i].from,
        ) && has_id(b.resources, b.edges[i].to) by {
            lemma_filter_member(a.edges, keep_e, i);
            let e = choose|e: int| 0 <= e < a.edges.len() && a.edges[e] == b.edges[i];
            let k = choose|k: int| 0 <= k < a.resources.len() && a.resources[k].id == a.edges[e].from;
            lemma_filter_keeps(a.resources, keep_r, k);
            let k2 = choose|k2: int| 0 <= k2 < b.resources.len() && b.resources[k2] == a.resources[k];
            let m = choose|m: int| 0 <= m < a.resources.len() && a.resources[m].id == a.edges[e].to;
            lemma_filter_keeps(a.resources, keep_r, m);
            let m2 = choose|m2: int| 0 <= m2 < b.resources.len() && b.resources[m2] == a.resources[m];
        }
        assert forall|i: int| 0 <= i < b.edges.len() implies #[trigger] b.edges[i].from
            != b.edges[i].to by {
            lemma_filter_member(a.edges, keep_e, i);
        }
        assert forall|i: int, k: ResourceKind, n: nat|
            #![trigger b.resources[i], kind_id(k, n)]
            0 <= i < b.resources.len() && b.resources[i].id == kind_id(k, n) implies n
                <= counter_of(b.counters, spec_slug(k)) by {
            lemma_filter_member(a.resources, keep_r, i);
            let j = choose|j: int| 0 <= j < a.resources.len() && a.resources[j] == b.resources[i];
            assert(a.resources[j].id == kind_id(k, n));
        }
    }
}

/// Two generated ids are equal only when they name the same kind and number.
/// Generated ids are never handed out twice: in a well-formed architecture
/// the id the next `add_resource` of a kind generates differs from every id of
/// that kind already present, and removing resources keeps the counters, so a
/// removed id is not generated again either.
pub proof fn law_next_id_is_new(a: ArchView, k: ResourceKind, n: nat)
    requires
        well_formed(a),
        has_id(a.resources, kind_id(k, n)),
    ensures
        kind_id(k, counter_of(a.counters, spec_slug(k)) + 1) != kind_id(k, n),
{
    let i = choose|i: int| 0 <= i < a.resources.len() && a.resources[i].id == kind_id(k, n);
    assert(a.resources[i].id == kind_id(k, n));
    if kind_id(k, counter_of(a.counters, spec_slug(k)) + 1) == kind_id(k, n) {
        lemma_kind_id_injective(k, counter_of(a.counters, spec_slug(k)) + 1, k, n);
    }
}

pub proof fn lemma_kind_id_injective(k1: ResourceKind, n1: nat, k2: ResourceKind, n2: nat)
    requires
        kind_id(k1, n1) == kind_id(k2, n2),
    ensures
        k1 == k2,
        n1 == n2,
{
    reveal_strlit("-");
    lemma_slug_shape(k1);
    lemma_slug_shape(k2);
    crate::text::lemma_dec_digits(n1);
    crate::text::lemma_dec_digits(n2);
    let s1 = spec_slug(k1);
    let s2 = spec_slug(k2);
    let w = kind_id(k1, n1);
    let l1 = s1.len() as int;
    let l2 = s2.len() as int;
    if l1 < l2 {
        assert(kind_id(k2, n2)[l2] == '-');
        assert(w[l2] == dec(n1)[l2 - l1 - 1]);
    } else if l2 < l1 {
        assert(w[l1] == '-');
        assert(kind_id(k2, n2)[l1] == dec(n2)[l1 - l2 - 1]);
    } else {
        assert(s1 =~= w.take(l1));
        assert(s2 =~= kind_id(k2, n2).take(l1));
        lemma_slug_injective(k1, k2);
        assert(dec(n1) =~= w.skip(l1 + 1));
        assert(dec(n2) =~= kind_id(k2, n2).skip(l1 + 1));
        crate::text::lemma_dec_injective(n1, n2);
    }
}

proof fn lemma_slug_shape(k: ResourceKind)
    ensures
        spec_slug(k).len() > 0,
{
    reveal_strlit("compute");
    reveal_strlit("database");
    reveal_strlit("queue");
    reveal_strlit("load-balancer");
    reveal_strlit("object-store");
    reveal_strlit("cache");
    reveal_strlit("cdn");
    reveal_strlit("dns");
    reveal_strlit("functions");
    reveal_strlit("api-gateway");
}

/// Distinct kinds have distinct slugs.
pub proof fn lemma_slug_injective(k1: ResourceKind, k2: ResourceKind)
    requires
        spec_slug(k1) == spec_slug(k2),
    ensures
        k1 == k2,
{
    reveal_strlit("compute");
    reveal_strlit("database");
    reveal_strlit("queue");
    reveal_strlit("load-balancer");
    reveal_strlit("object-store");
    reveal_strlit("cache");
    reveal_strlit("cdn");
    reveal_strlit("dns");
    reveal_strlit("functions");
    reveal_strlit("api-gateway");
    if k1 != k2 {
        let a = spec_slug(k1);
        let b = spec_slug(k2);
        assert(a.len() != b.len() || a[0] != b[0]);
    }
}

/// Adding a resource under a fresh generated id keeps the invariant.
proof fn lemma_add_keeps_well_formed(a: ArchView, b: ArchView, kind: ResourceKind)
    requires
        b.resources.len() == a.resources.len() + 1,
        forall|i: int| 0 <= i < a.resources.len() ==> b.resources[i] == a.resources[i],
        b.resources[a.resources.len() as int].id == kind_id(
            kind,
            counter_of(a.counters, spec_slug(kind)) + 1,
        ),
        b.edges == a.edges,
        forall|key: Seq<char>|
            #[trigger] counter_of(b.counters, key) == if key == spec_slug(kind) {
                counter_of(a.counters, key) + 1
            } else {
                counter_of(a.counters, key)
            },
    ensures
        well_formed(a) ==> !has_id(a.resources, b.resources[a.resources.len() as int].id),
        well_formed(a) ==> well_formed(b),
{
    let c = counter_of(a.counters, spec_slug(kind));
    let new_id = kind_id(kind, c + 1);
    let last = a.resources.len() as int;
    if well_formed(a) {
        assert forall|i: int| 0 <= i < a.resources.len() implies a.resources[i].id != new_id by {
            if a.resources[i].id == new_id {
                assert(c + 1 <= counter_of(a.counters, spec_slug(kind)));
            }
        }
        assert forall|i: int, j: int|
            0 <= i < b.resources.len() && 0 <= j < b.resources.len() && i != j implies
            b.resources[i].id != b.resources[j].id by {
            if i < last && j < last {
                assert(b.resources[i] == a.resources[i]);
                assert(b.resources[j] == a.resources[j]);
            } else if i < last {
                assert(b.resources[i] == a.resources[i]);
            } else {
                assert(b.resources[j] == a.resources[j]);
            }
        }
        assert forall|i: int| 0 <= i < b.edges.len() implies has_id(
            b.resources,
            #[trigger] b.edges[i].from,
        ) && has_id(b.resources, b.edges[i].to) by {
            let k = choose|k: int| 0 <= k < a.resources.len() && a.resources[k].id == a.edges[i].from;
            assert(b.resources[k] == a.resources[k]);
            let m = choose|m: int| 0 <= m < a.resources.len() && a.resources[m].id == a.edges[i].to;
            assert(b.resources[m] == a.resources[m]);
        }
        assert forall|i: int, k: ResourceKind, n: nat|
            #![trigger b.resources[i], kind_id(k, n)]
            0 <= i < b.resources.len() && b.resources[i].id == kind_id(k, n) implies n
                <= counter_of(b.counters, spec_slug(k)) by {
            let _ = counter_of(b.counters, spec_slug(k));
            if i < last {
                assert(b.resources[i] == a.resources[i]);
                assert(n <= counter_of(a.counters, spec_slug(k)));
            } else {
                lemma_kind_id_injective(kind, c + 1, k, n);
            }
        }
    }
}

} // verus!
