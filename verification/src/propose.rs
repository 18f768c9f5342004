//! Turn a one-line requirements sentence into a starting architecture by
//! deterministic keyword matching: a wired, configured, placed topology
//! that the human then adjusts.

use vstd::prelude::*;

use crate::text::{cat, has_sub, owned, str_contains};
use crate::{
    clone_opt, counter_of, has_edge, has_id, is_first, kind_id, opt_view, spec_slug, well_formed,
    Architecture, EdgeView, PlacementView, ResourceKind, ResourceView,
};

verus! {

// ---------------------------------------------------------------------------
// Lowercasing (Unicode case mapping, from std)
// ---------------------------------------------------------------------------

/// The Unicode lowercase mapping of a string, as `str::to_lowercase` computes it.
pub uninterp spec fn lowercase(s: Seq<char>) -> Seq<char>;

/// Trusted: calls `str::to_lowercase`, whose result depends on the string
/// alone (the Unicode lowercase mapping); the contract names that result and
/// says nothing more about it.
#[verifier::external_body]
fn to_lowercase(s: &str) -> (r: String)
    ensures
        r@ == lowercase(s@),
{
    s.to_lowercase()
}

// ---------------------------------------------------------------------------
// Keywords
// ---------------------------------------------------------------------------

/// Some needle occurs in `req`.
pub open spec fn has_any(req: Seq<char>, needles: Seq<Seq<char>>) -> bool {
    exists|i: int| 0 <= i < needles.len() && has_sub(req, #[trigger] needles[i])
}

fn has_any_exec(req: &str, needles: &[&str]) -> (b: bool)
    ensures
        b == has_any(req@, needles@.map_values(|n: &str| n@)),
{
    let ghost ns = needles@.map_values(|n: &str| n@);
    let mut i: usize = 0;
    while i < needles.len()
        invariant
            ns == needles@.map_values(|n: &str| n@),
            0 <= i <= ns.len(),
            forall|j: int| 0 <= j < i ==> !has_sub(req@, #[trigger] ns[j]),
        decreases ns.len() - i,
    {
        if str_contains(req, needles[i]) {
            assert(has_sub(req@, ns[i as int]));
            return true;
        }
        i = i + 1;
    }
    false
}

pub open spec fn europe_words() -> Seq<Seq<char>> {
    seq!["eu-west-1"@, "europe"@, "ireland"@, "frankfurt"@, " eu "@]
}

pub open spec fn budget_words() -> Seq<Seq<char>> {
    seq!["prototype"@, "cheap"@, "quick"@, "throwaway"@, "demo"@, "single-az"@, "minimal"@]
}

pub open spec fn serverless_words() -> Seq<Seq<char>> {
    seq!["serverless"@, "lambda"@, "functions"@, "api gateway"@, "api-gateway"@]
}

pub open spec fn cache_words() -> Seq<Seq<char>> {
    seq!["cache"@, "read-heavy"@, "read heavy"@, "sessions"@, "hot key"@, "latency"@]
}

pub open spec fn queue_words() -> Seq<Seq<char>> {
    seq![
        "queue"@,
        "async"@,
        "asynchronous"@,
        "worker"@,
        "background"@,
        "job"@,
        "email"@,
        "notification"@,
        "event"@,
        "decouple"@,
    ]
}

pub open spec fn static_words() -> Seq<Seq<char>> {
    seq![
        "static"@,
        "spa"@,
        "frontend"@,
        "front-end"@,
        "assets"@,
        "images"@,
        "uploads"@,
        "cdn"@,
        "media"@,
    ]
}

pub open spec fn dr_words() -> Seq<Seq<char>> {
    seq![
        "multi-region"@,
        "multi region"@,
        "disaster recovery"@,
        " dr "@,
        "region outage"@,
        "regional outage"@,
        "survive a region"@,
        "failover"@,
        "fail over"@,
    ]
}

pub open spec fn key_value_words() -> Seq<Seq<char>> {
    seq!["dynamodb"@, "dynamo"@, "key-value"@, "key value"@, "nosql"@]
}

/// What the prompt asks for.
pub struct Wants {
    pub europe: bool,
    pub budget: bool,
    pub serverless: bool,
    pub cache: bool,
    pub queue: bool,
    pub statics: bool,
    pub dr: bool,
    pub key_value: bool,
}

/// The keywords found in a (lowercased) prompt.
pub open spec fn spec_wants(req: Seq<char>) -> Wants {
    Wants {
        europe: has_any(req, europe_words()),
        budget: has_any(req, budget_words()),
        serverless: has_any(req, serverless_words()),
        cache: has_any(req, cache_words()),
        queue: has_any(req, queue_words()),
        statics: has_any(req, static_words()),
        dr: has_any(req, dr_words()),
        key_value: has_any(req, key_value_words()),
    }
}

fn wants_of(req: &str) -> (w: Wants)
    ensures
        w == spec_wants(req@),
{
    let europe: [&str; 5] = ["eu-west-1", "europe", "ireland", "frankfurt", " eu "];
    let budget: [&str; 7] = ["prototype", "cheap", "quick", "throwaway", "demo", "single-az", "minimal"];
    let serverless: [&str; 5] = ["serverless", "lambda", "functions", "api gateway", "api-gateway"];
    let cache: [&str; 6] = ["cache", "read-heavy", "read heavy", "sessions", "hot key", "latency"];
    let queue: [&str; 10] = [
        "queue",
        "async",
        "asynchronous",
        "worker",
        "background",
        "job",
        "email",
        "notification",
        "event",
        "decouple",
    ];
    let statics: [&str; 9] = [
        "static",
        "spa",
        "frontend",
        "front-end",
        "assets",
        "images",
        "uploads",
        "cdn",
        "media",
    ];
    let dr: [&str; 9] = [
        "multi-region",
        "multi region",
        "disaster recovery",
        " dr ",
        "region outage",
        "regional outage",
        "survive a region",
        "failover",
        "fail over",
    ];
    let key_value: [&str; 5] = ["dynamodb", "dynamo", "key-value", "key value", "nosql"];
    proof {
        assert(europe@.map_values(|n: &str| n@) =~= europe_words());
        assert(budget@.map_values(|n: &str| n@) =~= budget_words());
        assert(serverless@.map_values(|n: &str| n@) =~= serverless_words());
        assert(cache@.map_values(|n: &str| n@) =~= cache_words());
        assert(queue@.map_values(|n: &str| n@) =~= queue_words());
        assert(statics@.map_values(|n: &str| n@) =~= static_words());
        assert(dr@.map_values(|n: &str| n@) =~= dr_words());
        assert(key_value@.map_values(|n: &str| n@) =~= key_value_words());
    }
    Wants {
        europe: has_any_exec(req, europe.as_slice()),
        budget: has_any_exec(req, budget.as_slice()),
        serverless: has_any_exec(req, serverless.as_slice()),
        cache: has_any_exec(req, cache.as_slice()),
        queue: has_any_exec(req, queue.as_slice()),
        statics: has_any_exec(req, statics.as_slice()),
        dr: has_any_exec(req, dr.as_slice()),
        key_value: has_any_exec(req, key_value.as_slice()),
    }
}


// ---------------------------------------------------------------------------
// Canvas coordinates: the IEEE-754 encoding of a whole number
// ---------------------------------------------------------------------------

/// Two to the power `e`.
pub open spec fn pow2(e: nat) -> nat
    decreases e,
{
    if e == 0 {
        1
    } else {
        2 * pow2((e - 1) as nat)
    }
}

/// The position of the highest set bit of `n` (zero for `n <= 1`).
pub open spec fn ilog2(n: nat) -> nat
    decreases n,
{
    if n <= 1 {
        0
    } else {
        1 + ilog2(n / 2)
    }
}

/// The bit pattern of the `f64` equal to the whole number `n` (`n < 2^53`):
/// sign 0, biased exponent `1023 + e`, and the bits of `n` below its leading
/// one shifted up into the 52-bit fraction, where `e = ilog2(n)`.
pub open spec fn f64_bits(n: nat) -> nat {
    if n == 0 {
        0
    } else {
        let e = ilog2(n);
        ((1023 + e) * pow2(52) + (n - pow2(e)) * pow2((52 - e) as nat)) as nat
    }
}

proof fn lemma_pow2_pos(e: nat)
    ensures
        pow2(e) >= 1,
    decreases e,
{
    if e > 0 {
        lemma_pow2_pos((e - 1) as nat);
    }
}

proof fn lemma_pow2_mono(a: nat, b: nat)
    requires
        a <= b,
    ensures
        pow2(a) <= pow2(b),
    decreases b,
{
    if a < b {
        lemma_pow2_mono(a, (b - 1) as nat);
        lemma_pow2_pos((b - 1) as nat);
    }
}

/// `e` is the highest set bit of `n` exactly when `2^e <= n < 2^(e+1)`.
proof fn lemma_ilog2_of(n: nat, e: nat)
    requires
        pow2(e) <= n < pow2(e + 1),
    ensures
        ilog2(n) == e,
    decreases e,
{
    if e > 0 {
        assert(pow2(e) == 2 * pow2((e - 1) as nat));
        assert(pow2(e + 1) == 2 * pow2(e));
        assert(pow2((e - 1) as nat) <= n / 2 < pow2(e));
        lemma_ilog2_of(n / 2, (e - 1) as nat);
        lemma_pow2_pos((e - 1) as nat);
    } else {
        assert(pow2(1) == 2);
    }
}

proof fn lemma_pow2_52()
    ensures
        pow2(52) == 4503599627370496,
        pow2(53) == 9007199254740992,
{
    reveal_with_fuel(pow2, 54);
}

/// The bit pattern of the `f64` equal to `n`.
fn whole_f64_bits(n: u64) -> (r: u64)
    requires
        n < pow2(53),
    ensures
        r as nat == f64_bits(n as nat),
{
    if n == 0 {
        return 0;
    }
    proof {
        lemma_pow2_52();
    }
    let mut p: u64 = 1;
    let mut e: u64 = 0;
    while p <= n / 2
        invariant
            1 <= p <= n,
            p == pow2(e as nat),
            e <= 52,
            n < pow2(53),
            pow2(53) == 9007199254740992,
        decreases n - p,
    {
        proof {
            if e >= 52 {
                lemma_pow2_mono(53, (e + 1) as nat);
            }
        }
        p = p * 2;
        e = e + 1;
    }
    assert(pow2(e as nat + 1) == 2 * pow2(e as nat));
    proof {
        lemma_ilog2_of(n as nat, e as nat);
    }
    let mut m: u64 = n - p;
    let mut k: u64 = e;
    assert(pow2((k - e) as nat) == 1);
    assert(m == (n - p) * pow2((k - e) as nat));
    while k < 52
        invariant
            e <= k <= 52,
            m == (n - p) * pow2((k - e) as nat),
            m < pow2(k as nat),
            n - p < p,
            p == pow2(e as nat),
            pow2(52) == 4503599627370496,
        decreases 52 - k,
    {
        proof {
            lemma_pow2_mono((k + 1) as nat, 52);
            let lo = pow2((k - e) as nat);
            let hi = pow2((k + 1 - e) as nat);
            assert(hi == 2 * lo);
            let d: int = n - p;
            assert(d * hi == 2 * (d * lo)) by (nonlinear_arith)
                requires
                    hi == 2 * lo,
            ;
        }
        m = m * 2;
        k = k + 1;
    }
    (1023 + e) * 4503599627370496 + m
}


// ---------------------------------------------------------------------------
// Plans: the resources and links of a proposal, before ids exist
// ---------------------------------------------------------------------------

/// One resource of a plan: what `add_resource`, `set_variant` and `place`
/// will be told about it.
pub struct Node {
    pub kind: ResourceKind,
    pub label: String,
    pub variant: String,
    pub region: Option<String>,
    pub az: Option<String>,
}

pub struct NodeView {
    pub kind: ResourceKind,
    pub label: Seq<char>,
    pub variant: Seq<char>,
    pub region: Option<Seq<char>>,
    pub az: Option<Seq<char>>,
}

impl View for Node {
    type V = NodeView;

    open spec fn view(&self) -> NodeView {
        NodeView {
            kind: self.kind,
            label: self.label@,
            variant: self.variant@,
            region: opt_view(self.region),
            az: opt_view(self.az),
        }
    }
}

pub open spec fn nodes_view(v: Seq<Node>) -> Seq<NodeView> {
    v.map_values(|n: Node| n@)
}

/// How many of these nodes have a kind whose slug is `key`.
pub open spec fn slug_count(ns: Seq<NodeView>, key: Seq<char>) -> nat
    decreases ns.len(),
{
    if ns.len() == 0 {
        0
    } else {
        slug_count(ns.drop_last(), key) + if spec_slug(ns.last().kind) == key {
            1nat
        } else {
            0nat
        }
    }
}

/// The id the `i`-th node receives: its kind's slug numbered one past the
/// nodes of that kind before it.
pub open spec fn node_id(ns: Seq<NodeView>, i: int) -> Seq<char> {
    kind_id(ns[i].kind, slug_count(ns.take(i), spec_slug(ns[i].kind)) + 1)
}

/// The resource the `i`-th node becomes, before layout.
pub open spec fn node_resource(ns: Seq<NodeView>, i: int) -> ResourceView {
    ResourceView {
        id: node_id(ns, i),
        kind: ns[i].kind,
        label: ns[i].label,
        x_bits: 0,
        y_bits: 0,
        variant: Some(ns[i].variant),
        placement: PlacementView { region: ns[i].region, az: ns[i].az },
    }
}

/// The resources a plan's nodes become, in order.
pub open spec fn materialize(ns: Seq<NodeView>) -> Seq<ResourceView> {
    Seq::new(ns.len(), |i: int| node_resource(ns, i))
}

/// The edge a link `(from, to)` between two nodes becomes.
pub open spec fn link_edge(ns: Seq<NodeView>, l: (usize, usize)) -> EdgeView {
    EdgeView { from: node_id(ns, l.0 as int), to: node_id(ns, l.1 as int) }
}

/// The edges a plan's links become, in order.
pub open spec fn link_edges(ns: Seq<NodeView>, links: Seq<(usize, usize)>) -> Seq<EdgeView> {
    links.map_values(|l: (usize, usize)| link_edge(ns, l))
}

/// No node has a zone without a region.
pub open spec fn nodes_ok(ns: Seq<NodeView>) -> bool {
    forall|i: int| 0 <= i < ns.len() ==> (#[trigger] ns[i]).az is Some ==> ns[i].region is Some
}

/// Every link joins two different nodes, and no link is repeated.
pub open spec fn links_ok(n: nat, links: Seq<(usize, usize)>) -> bool {
    &&& forall|j: int|
        0 <= j < links.len() ==> (#[trigger] links[j]).0 < n && links[j].1 < n && links[j].0
            != links[j].1
    &&& forall|j1: int, j2: int|
        0 <= j1 < links.len() && 0 <= j2 < links.len() && j1 != j2 ==> links[j1] != links[j2]
}

proof fn lemma_slug_count_bound(ns: Seq<NodeView>, key: Seq<char>)
    ensures
        slug_count(ns, key) <= ns.len(),
    decreases ns.len(),
{
    if ns.len() > 0 {
        lemma_slug_count_bound(ns.drop_last(), key);
    }
}

/// The one position holding a freshly appended id is the last.
proof fn lemma_first_is_last(rs: Seq<ResourceView>, r: ResourceView, i: int)
    requires
        !has_id(rs, r.id),
        is_first(rs.push(r), r.id, i),
    ensures
        i == rs.len(),
{
    if i < rs.len() {
        assert(rs.push(r)[i] == rs[i]);
        assert(has_id(rs, r.id));
    }
}

/// Add every node (with its variant and placement), then connect every link.
fn build(nodes: &Vec<Node>, links: &Vec<(usize, usize)>) -> (a: Architecture)
    requires
        nodes@.len() < u32::MAX,
        nodes_ok(nodes_view(nodes@)),
        links_ok(nodes@.len(), links@),
    ensures
        a@.resources == materialize(nodes_view(nodes@)),
        a@.edges == link_edges(nodes_view(nodes@), links@),
        forall|key: Seq<char>|
            #[trigger] counter_of(a@.counters, key) == slug_count(nodes_view(nodes@), key),
        well_formed(a@),
{
    let ghost ns = nodes_view(nodes@);
    let mut a = Architecture::new();
    let mut ids: Vec<String> = Vec::new();
    let mut i: usize = 0;
    while i < nodes.len()
        invariant
            ns == nodes_view(nodes@),
            nodes_ok(ns),
            nodes@.len() < u32::MAX,
            0 <= i <= nodes@.len(),
            a@.resources.len() == i,
            forall|j: int| 0 <= j < i ==> a@.resources[j] == node_resource(ns, j),
            a@.edges.len() == 0,
            forall|key: Seq<char>|
                #[trigger] counter_of(a@.counters, key) == slug_count(ns.take(i as int), key),
            well_formed(a@),
            ids@.len() == i,
            forall|j: int| 0 <= j < i ==> ids@[j]@ == node_id(ns, j),
        decreases nodes@.len() - i,
    {
        let ghost before = a@;
        let ghost nv = ns[i as int];
        assert(nodes@[i as int]@ == nv);
        proof {
            lemma_slug_count_bound(ns.take(i as int), spec_slug(nv.kind));
        }
        let id = a.add_resource(nodes[i].kind, nodes[i].label.as_str(), 0, 0);
        let ghost added = a@;
        assert(id@ == node_id(ns, i as int));
        let _ = a.set_variant(id.as_str(), Some(nodes[i].variant.clone()));
        let ghost varied = a@;
        proof {
            let k = choose|k: int|
                is_first(added.resources, id@, k) && varied.resources == added.resources.update(
                    k,
                    ResourceView { variant: Some(nv.variant), ..added.resources[k] },
                );
            lemma_first_is_last(before.resources, added.resources.last(), k);
        }
        let _ = a.place(id.as_str(), clone_opt(&nodes[i].region), clone_opt(&nodes[i].az));
        proof {
            assert(varied.resources == before.resources.push(varied.resources.last()));
            let k = choose|k: int|
                is_first(varied.resources, id@, k) && a@.resources == varied.resources.update(
                    k,
                    ResourceView {
                        placement: PlacementView { region: nv.region, az: nv.az },
                        ..varied.resources[k]
                    },
                );
            lemma_first_is_last(before.resources, varied.resources.last(), k);
            assert(a@.resources[i as int] == node_resource(ns, i as int));
            assert forall|j: int| 0 <= j < i implies a@.resources[j] == node_resource(ns, j) by {
                assert(a@.resources[j] == before.resources[j]);
            }
            assert(ns.take(i + 1).drop_last() =~= ns.take(i as int));
            assert(ns.take(i + 1).last() == nv);
        }
        ids.push(id);
        i = i + 1;
    }
    assert(ns.take(ns.len() as int) =~= ns);
    assert(a@.resources =~= materialize(ns));
    let ghost rs = a@.resources;
    let ghost cs = a@.counters;
    let mut j: usize = 0;
    while j < links.len()
        invariant
            ns == nodes_view(nodes@),
            links_ok(nodes@.len(), links@),
            rs == materialize(ns),
            a@.resources == rs,
            a@.counters == cs,
            0 <= j <= links@.len(),
            a@.edges.len() == j,
            forall|m: int| 0 <= m < j ==> a@.edges[m] == link_edge(ns, links@[m]),
            well_formed(a@),
            ids@.len() == nodes@.len(),
            forall|m: int| 0 <= m < ids@.len() ==> ids@[m]@ == node_id(ns, m),
        decreases links@.len() - j,
    {
        let ghost before = a@;
        let p = links[j].0;
        let q = links[j].1;
        proof {
            assert(links@[j as int].0 == p && links@[j as int].1 == q);
            assert(rs[p as int].id == node_id(ns, p as int));
            assert(rs[q as int].id == node_id(ns, q as int));
            assert(has_id(rs, node_id(ns, p as int)));
            assert(has_id(rs, node_id(ns, q as int)));
            assert(node_id(ns, p as int) != node_id(ns, q as int));
            if has_edge(before.edges, node_id(ns, p as int), node_id(ns, q as int)) {
                let m = choose|m: int|
                    0 <= m < before.edges.len() && before.edges[m].from == node_id(ns, p as int)
                        && before.edges[m].to == node_id(ns, q as int);
                let lm = links@[m];
                assert(rs[lm.0 as int].id == node_id(ns, lm.0 as int));
                assert(rs[lm.1 as int].id == node_id(ns, lm.1 as int));
                assert(lm.0 == p && lm.1 == q);
                assert(links@[m] == links@[j as int]);
            }
        }
        let _ = a.connect(ids[p].as_str(), ids[q].as_str());
        proof {
            assert forall|m: int| 0 <= m < j + 1 implies a@.edges[m] == link_edge(ns, links@[m]) by {
                if m < j {
                    assert(a@.edges[m] == before.edges[m]);
                }
            }
        }
        j = j + 1;
    }
    assert(a@.edges =~= link_edges(ns, links@));
    a
}


// ---------------------------------------------------------------------------
// The proposal plan
// ---------------------------------------------------------------------------

/// `s` when `b` holds, else nothing.
pub open spec fn opt_seq<T>(b: bool, s: Seq<T>) -> Seq<T> {
    if b {
        s
    } else {
        Seq::empty()
    }
}

/// The region a prompt asks for: Ireland for European prompts, else
/// North Virginia.
pub open spec fn region_of(w: Wants) -> Seq<char> {
    if w.europe {
        "eu-west-1"@
    } else {
        "us-east-1"@
    }
}

pub open spec fn node_of(
    kind: ResourceKind,
    label: Seq<char>,
    variant: Seq<char>,
    region: Option<Seq<char>>,
    az: Option<Seq<char>>,
) -> NodeView {
    NodeView { kind, label, variant, region, az }
}

/// The DNS router, present for disaster recovery.
pub open spec fn dns_nodes(w: Wants) -> Seq<NodeView> {
    opt_seq(w.dr, seq![node_of(ResourceKind::Dns, "router"@, "route53"@, None, None)])
}

/// The front door, the application tier and the datastore.
pub open spec fn core_nodes(w: Wants) -> Seq<NodeView> {
    let r = Some(region_of(w));
    let front = if w.serverless {
        node_of(ResourceKind::ApiGateway, "api gateway"@, "apigw-http"@, r, None)
    } else {
        node_of(ResourceKind::LoadBalancer, "load balancer"@, "alb"@, r, None)
    };
    let app = if w.serverless {
        node_of(ResourceKind::Functions, "api"@, "lambda"@, r, None)
    } else {
        node_of(ResourceKind::Compute, "api"@, "ec2-asg"@, r, None)
    };
    let db = if w.key_value {
        node_of(ResourceKind::Database, "primary datastore"@, "dynamodb"@, r, None)
    } else if w.budget {
        node_of(
            ResourceKind::Database,
            "primary datastore"@,
            "rds-single-az"@,
            r,
            Some(region_of(w) + "a"@),
        )
    } else {
        node_of(ResourceKind::Database, "primary datastore"@, "rds-multi-az"@, r, None)
    };
    seq![front, app, db]
}

pub open spec fn cache_nodes(w: Wants) -> Seq<NodeView> {
    opt_seq(
        w.cache,
        seq![node_of(ResourceKind::Cache, "cache"@, "elasticache"@, Some(region_of(w)), None)],
    )
}

pub open spec fn queue_nodes(w: Wants) -> Seq<NodeView> {
    opt_seq(
        w.queue,
        seq![
            node_of(ResourceKind::Queue, "job queue"@, "sqs"@, Some(region_of(w)), None),
            node_of(ResourceKind::Functions, "worker"@, "lambda"@, Some(region_of(w)), None),
        ],
    )
}

pub open spec fn static_nodes(w: Wants) -> Seq<NodeView> {
    opt_seq(
        w.statics,
        seq![
            node_of(ResourceKind::ObjectStore, "asset store"@, "s3"@, Some(region_of(w)), None),
            node_of(ResourceKind::Cdn, "cdn"@, "cloudfront"@, None, None),
        ],
    )
}

/// The nodes of the proposal for these wants, in the order they are added:
/// DNS (for disaster recovery), the front door, the application tier, the
/// datastore, then cache, queue with its worker, and asset store with its CDN.
pub open spec fn plan_nodes(w: Wants) -> Seq<NodeView> {
    dns_nodes(w) + core_nodes(w) + cache_nodes(w) + queue_nodes(w) + static_nodes(w)
}

/// Position of the first node after the datastore.
pub open spec fn after_core(w: Wants) -> usize {
    if w.dr {
        4
    } else {
        3
    }
}

/// Position of the queue (if any).
pub open spec fn queue_at(w: Wants) -> usize {
    (after_core(w) + if w.cache {
        1usize
    } else {
        0usize
    }) as usize
}

/// Position of the asset store (if any).
pub open spec fn store_at(w: Wants) -> usize {
    (queue_at(w) + if w.queue {
        2usize
    } else {
        0usize
    }) as usize
}

pub open spec fn core_links(w: Wants) -> Seq<(usize, usize)> {
    let d: usize = if w.dr {
        1
    } else {
        0
    };
    opt_seq(w.dr, seq![(0usize, d)]) + seq![(d, (d + 1) as usize), ((d + 1) as usize, (d + 2) as usize)]
}

pub open spec fn cache_links(w: Wants) -> Seq<(usize, usize)> {
    let app = (after_core(w) - 2) as usize;
    opt_seq(w.cache, seq![(app, after_core(w))])
}

pub open spec fn queue_links(w: Wants) -> Seq<(usize, usize)> {
    let app = (after_core(w) - 2) as usize;
    let db = (after_core(w) - 1) as usize;
    let q = queue_at(w);
    opt_seq(w.queue, seq![(app, q), ((q + 1) as usize, q), ((q + 1) as usize, db)])
}

/// The CDN serves the asset store. DNS, where there is one, fronts the CDN;
/// where there is none, the application (which writes the assets) depends on
/// the asset store, so the static tier joins the rest of the design either
/// way.
pub open spec fn static_links(w: Wants) -> Seq<(usize, usize)> {
    let app = (after_core(w) - 2) as usize;
    let st = store_at(w);
    opt_seq(w.statics && !w.dr, seq![(app, st)]) + opt_seq(
        w.statics,
        seq![((st + 1) as usize, st)],
    ) + opt_seq(w.dr && w.statics, seq![(0usize, (st + 1) as usize)])
}

/// The links of the proposal, as positions in `plan_nodes(w)`, in the order
/// they are connected: DNS to the front door, front door to the application,
/// application to the datastore, cache and queue, worker to queue and
/// datastore, application to the asset store (without DNS), CDN to the asset
/// store, DNS to the CDN.
pub open spec fn plan_links(w: Wants) -> Seq<(usize, usize)> {
    core_links(w) + cache_links(w) + queue_links(w) + static_links(w)
}

#[verifier::rlimit(30)]
proof fn lemma_links_ok_case(w: Wants)
    ensures
        links_ok(plan_nodes(w).len(), plan_links(w)),
{
    let n = plan_nodes(w).len();
    let ls = plan_links(w);
    assert(n == 3 + (if w.dr { 1int } else { 0int }) + (if w.cache { 1int } else { 0int }) + (if w.queue { 2int } else { 0int }) + (if w.statics { 2int } else { 0int }));
    assert(links_ok(n, ls));
}

proof fn lemma_plan_ok(w: Wants)
    ensures
        plan_nodes(w).len() <= 9,
        nodes_ok(plan_nodes(w)),
        links_ok(plan_nodes(w).len(), plan_links(w)),
{
    let ns = plan_nodes(w);
    assert(nodes_ok(ns)) by {
        assert forall|i: int| 0 <= i < ns.len() && (#[trigger] ns[i]).az is Some implies ns[i].region is Some by {
            let a = dns_nodes(w);
            let b = core_nodes(w);
            let c = cache_nodes(w);
            let d = queue_nodes(w);
            let e = static_nodes(w);
            assert(ns == a + b + c + d + e);
        }
    }
    lemma_links_ok_case(w);
}

fn node(kind: ResourceKind, label: &str, variant: &str, region: Option<String>, az: Option<String>) -> (n: Node)
    ensures
        n@ == node_of(kind, label@, variant@, opt_view(region), opt_view(az)),
{
    Node { kind, label: owned(label), variant: owned(variant), region, az }
}

fn push_node(v: &mut Vec<Node>, n: Node)
    ensures
        nodes_view(final(v)@) == nodes_view(old(v)@).push(n@),
{
    let ghost before = nodes_view(v@);
    let ghost nv = n@;
    v.push(n);
    assert(nodes_view(v@) =~= before.push(nv));
}

fn push_dns(w: &Wants, nodes: &mut Vec<Node>)
    ensures
        nodes_view(final(nodes)@) == nodes_view(old(nodes)@) + dns_nodes(*w),
{
    let ghost before = nodes_view(nodes@);
    if w.dr {
        push_node(nodes, node(ResourceKind::Dns, "router", "route53", None, None));
    }
    assert(nodes_view(nodes@) =~= before + dns_nodes(*w));
}

fn push_core(w: &Wants, region: &str, nodes: &mut Vec<Node>)
    requires
        region@ == region_of(*w),
    ensures
        nodes_view(final(nodes)@) == nodes_view(old(nodes)@) + core_nodes(*w),
{
    let ghost before = nodes_view(nodes@);
    let front = if w.serverless {
        node(ResourceKind::ApiGateway, "api gateway", "apigw-http", Some(owned(region)), None)
    } else {
        node(ResourceKind::LoadBalancer, "load balancer", "alb", Some(owned(region)), None)
    };
    let app = if w.serverless {
        node(ResourceKind::Functions, "api", "lambda", Some(owned(region)), None)
    } else {
        node(ResourceKind::Compute, "api", "ec2-asg", Some(owned(region)), None)
    };
    let db = if w.key_value {
        node(ResourceKind::Database, "primary datastore", "dynamodb", Some(owned(region)), None)
    } else if w.budget {
        let zone = cat(region, "a");
        node(ResourceKind::Database, "primary datastore", "rds-single-az", Some(owned(region)), Some(zone))
    } else {
        node(ResourceKind::Database, "primary datastore", "rds-multi-az", Some(owned(region)), None)
    };
    let ghost c = seq![front@, app@, db@];
    assert(c =~= core_nodes(*w));
    push_node(nodes, front);
    push_node(nodes, app);
    push_node(nodes, db);
    assert(nodes_view(nodes@) =~= before + c);
}

fn push_cache(w: &Wants, region: &str, nodes: &mut Vec<Node>)
    requires
        region@ == region_of(*w),
    ensures
        nodes_view(final(nodes)@) == nodes_view(old(nodes)@) + cache_nodes(*w),
{
    let ghost before = nodes_view(nodes@);
    if w.cache {
        push_node(nodes, node(ResourceKind::Cache, "cache", "elasticache", Some(owned(region)), None));
    }
    assert(nodes_view(nodes@) =~= before + cache_nodes(*w));
}

fn push_queue(w: &Wants, region: &str, nodes: &mut Vec<Node>)
    requires
        region@ == region_of(*w),
    ensures
        nodes_view(final(nodes)@) == nodes_view(old(nodes)@) + queue_nodes(*w),
{
    let ghost before = nodes_view(nodes@);
    if w.queue {
        push_node(nodes, node(ResourceKind::Queue, "job queue", "sqs", Some(owned(region)), None));
        push_node(nodes, node(ResourceKind::Functions, "worker", "lambda", Some(owned(region)), None));
    }
    assert(nodes_view(nodes@) =~= before + queue_nodes(*w));
}

fn push_static(w: &Wants, region: &str, nodes: &mut Vec<Node>)
    requires
        region@ == region_of(*w),
    ensures
        nodes_view(final(nodes)@) == nodes_view(old(nodes)@) + static_nodes(*w),
{
    let ghost before = nodes_view(nodes@);
    if w.statics {
        push_node(nodes, node(ResourceKind::ObjectStore, "asset store", "s3", Some(owned(region)), None));
        push_node(nodes, node(ResourceKind::Cdn, "cdn", "cloudfront", None, None));
    }
    assert(nodes_view(nodes@) =~= before + static_nodes(*w));
}

/// The links of the plan, as positions.
fn plan_link_list(w: &Wants) -> (links: Vec<(usize, usize)>)
    ensures
        links@ == plan_links(*w),
{
    let mut links: Vec<(usize, usize)> = Vec::new();
    let d: usize = if w.dr {
        1
    } else {
        0
    };
    let app = d + 1;
    let db = d + 2;
    if w.dr {
        links.push((0, d));
    }
    links.push((d, app));
    links.push((app, db));
    assert(links@ =~= core_links(*w));
    let ghost l1 = links@;
    let mut next = d + 3;
    if w.cache {
        links.push((app, next));
        next = next + 1;
    }
    assert(links@ =~= l1 + cache_links(*w));
    let ghost l2 = links@;
    let queue = next;
    if w.queue {
        links.push((app, queue));
        links.push((queue + 1, queue));
        links.push((queue + 1, db));
        next = next + 2;
    }
    assert(links@ =~= l2 + queue_links(*w));
    let ghost l3 = links@;
    let store = next;
    if w.statics {
        if !w.dr {
            links.push((app, store));
        }
        links.push((store + 1, store));
        if w.dr {
            links.push((0, store + 1));
        }
    }
    assert(links@ =~= l3 + static_links(*w));
    links
}

/// The nodes and links of the proposal for these wants.
fn plan(w: &Wants) -> (r: (Vec<Node>, Vec<(usize, usize)>))
    ensures
        nodes_view(r.0@) == plan_nodes(*w),
        r.1@ == plan_links(*w),
{
    let region = if w.europe {
        "eu-west-1"
    } else {
        "us-east-1"
    };
    let mut nodes: Vec<Node> = Vec::new();
    assert(nodes_view(nodes@) =~= Seq::<NodeView>::empty());
    push_dns(w, &mut nodes);
    push_core(w, region, &mut nodes);
    push_cache(w, region, &mut nodes);
    push_queue(w, region, &mut nodes);
    push_static(w, region, &mut nodes);
    assert(nodes_view(nodes@) =~= plan_nodes(*w));
    (nodes, plan_link_list(w))
}


// ---------------------------------------------------------------------------
// Layout
// ---------------------------------------------------------------------------

/// The canvas row of a kind: ingress at the top, data at the bottom.
pub open spec fn tier(k: ResourceKind) -> nat {
    match k {
        ResourceKind::Dns | ResourceKind::Cdn => 0,
        ResourceKind::LoadBalancer | ResourceKind::ApiGateway => 1,
        ResourceKind::Compute | ResourceKind::Functions => 2,
        ResourceKind::Cache | ResourceKind::Queue => 3,
        ResourceKind::Database | ResourceKind::ObjectStore => 4,
    }
}

fn tier_of(k: ResourceKind) -> (t: usize)
    ensures
        t == tier(k),
{
    match k {
        ResourceKind::Dns | ResourceKind::Cdn => 0,
        ResourceKind::LoadBalancer | ResourceKind::ApiGateway => 1,
        ResourceKind::Compute | ResourceKind::Functions => 2,
        ResourceKind::Cache | ResourceKind::Queue => 3,
        ResourceKind::Database | ResourceKind::ObjectStore => 4,
    }
}

/// How many of these resources sit in row `t`.
pub open spec fn tier_count(rs: Seq<ResourceView>, t: nat) -> nat
    decreases rs.len(),
{
    if rs.len() == 0 {
        0
    } else {
        tier_count(rs.drop_last(), t) + if tier(rs.last().kind) == t {
            1nat
        } else {
            0nat
        }
    }
}

/// The column of the `i`-th resource: how many resources of its row come
/// before it.
pub open spec fn column(rs: Seq<ResourceView>, i: int) -> nat {
    tier_count(rs.take(i), tier(rs[i].kind))
}

/// Each resource placed at `x = 40 + 168 * column`, `y = 24 + 104 * row`
/// (as `f64` bit patterns); nothing else changes.
pub open spec fn spec_layout(rs: Seq<ResourceView>) -> Seq<ResourceView> {
    Seq::new(
        rs.len(),
        |i: int|
            ResourceView {
                x_bits: f64_bits(40 + 168 * column(rs, i)) as u64,
                y_bits: f64_bits(24 + 104 * tier(rs[i].kind)) as u64,
                ..rs[i]
            },
    )
}

proof fn lemma_tier_count_bound(rs: Seq<ResourceView>, t: nat)
    ensures
        tier_count(rs, t) <= rs.len(),
    decreases rs.len(),
{
    if rs.len() > 0 {
        lemma_tier_count_bound(rs.drop_last(), t);
    }
}

/// Assign canvas positions by dependency row, siblings spread left to right
/// in the order they were added.
fn layout(a: &mut Architecture)
    requires
        old(a)@.resources.len() < 1_000_000_000,
    ensures
        final(a)@.resources == spec_layout(old(a)@.resources),
        final(a)@.edges == old(a)@.edges,
        final(a)@.counters == old(a)@.counters,
        well_formed(old(a)@) ==> well_formed(final(a)@),
{
    let ghost orig = a@;
    let ghost rs = a@.resources;
    let mut cols: Vec<u64> = vec![0, 0, 0, 0, 0];
    let n = a.resources.len();
    let mut i: usize = 0;
    while i < n
        invariant
            n == rs.len(),
            n < 1_000_000_000,
            rs == orig.resources,
            cols@.len() == 5,
            forall|t: int| 0 <= t < 5 ==> cols@[t] == tier_count(rs.take(i as int), t as nat),
            0 <= i <= n,
            a@.resources.len() == n,
            forall|j: int| 0 <= j < i ==> a@.resources[j] == spec_layout(rs)[j],
            forall|j: int| i <= j < n ==> a@.resources[j] == rs[j],
            a@.edges == orig.edges,
            a@.counters == orig.counters,
        decreases n - i,
    {
        let ghost before = a@.resources;
        let t = tier_of(a.resources[i].kind);
        let c = cols[t];
        proof {
            lemma_tier_count_bound(rs.take(i as int), t as nat);
            lemma_pow2_52();
            assert(c == column(rs, i as int));
        }
        let x = whole_f64_bits(40 + 168 * c);
        let y = whole_f64_bits(24 + 104 * (t as u64));
        a.resources[i].x_bits = x;
        a.resources[i].y_bits = y;
        cols.set(t, c + 1);
        proof {
            assert(rs.take(i + 1).drop_last() =~= rs.take(i as int));
            assert(a@.resources[i as int] == spec_layout(rs)[i as int]);
            assert forall|j: int| 0 <= j < n && j != i implies a@.resources[j] == before[j] by {}
        }
        i = i + 1;
    }
    proof {
        assert(a@.resources =~= spec_layout(rs));
        crate::lemma_same_ids_keep_well_formed(orig, a@);
    }
}

// ---------------------------------------------------------------------------
// Proposals
// ---------------------------------------------------------------------------

/// The resources proposed for a (lowercased) prompt.
pub open spec fn proposed_resources(req: Seq<char>) -> Seq<ResourceView> {
    spec_layout(materialize(plan_nodes(spec_wants(req))))
}

/// The edges proposed for a (lowercased) prompt.
pub open spec fn proposed_edges(req: Seq<char>) -> Seq<EdgeView> {
    link_edges(plan_nodes(spec_wants(req)), plan_links(spec_wants(req)))
}

/// The starting architecture for an already lowercased prompt.
pub fn propose_from_lowercase(req: &str) -> (a: Architecture)
    ensures
        a@.resources == proposed_resources(req@),
        a@.edges == proposed_edges(req@),
        forall|key: Seq<char>|
            #[trigger] counter_of(a@.counters, key) == slug_count(plan_nodes(spec_wants(req@)), key),
        well_formed(a@),
{
    let w = wants_of(req);
    let (nodes, links) = plan(&w);
    proof {
        lemma_plan_ok(w);
    }
    let mut a = build(&nodes, &links);
    layout(&mut a);
    a
}

/// Build a starting architecture from a free-text requirements sentence:
/// the sentence is lowercased, then read for keywords.
pub fn propose(requirements: &str) -> (a: Architecture)
    ensures
        a@.resources == proposed_resources(lowercase(requirements@)),
        a@.edges == proposed_edges(lowercase(requirements@)),
        forall|key: Seq<char>|
            #[trigger] counter_of(a@.counters, key) == slug_count(
                plan_nodes(spec_wants(lowercase(requirements@))),
                key,
            ),
        well_formed(a@),
{
    let req = to_lowercase(requirements);
    propose_from_lowercase(req.as_str())
}


/// The placement a prompt's region gives a resource of this kind: none for
/// the global kinds (CDN, DNS), the region otherwise.
pub open spec fn regional(k: ResourceKind, region: Seq<char>) -> Option<Seq<char>> {
    if k == ResourceKind::Cdn || k == ResourceKind::Dns {
        None
    } else {
        Some(region)
    }
}

/// Every node is placed as `regional` says for its kind.
pub open spec fn all_regional(ns: Seq<NodeView>, region: Seq<char>) -> bool {
    forall|i: int| 0 <= i < ns.len() ==> (#[trigger] ns[i]).region == regional(ns[i].kind, region)
}

proof fn lemma_all_regional_concat(a: Seq<NodeView>, b: Seq<NodeView>, region: Seq<char>)
    requires
        all_regional(a, region),
        all_regional(b, region),
    ensures
        all_regional(a + b, region),
{
    assert forall|i: int| 0 <= i < (a + b).len() implies (#[trigger] (a + b)[i]).region == regional(
        (a + b)[i].kind,
        region,
    ) by {
        if i < a.len() {
            assert((a + b)[i] == a[i]);
        } else {
            assert((a + b)[i] == b[i - a.len()]);
        }
    }
}

proof fn lemma_plan_regional(w: Wants)
    ensures
        all_regional(plan_nodes(w), region_of(w)),
{
    let r = region_of(w);
    assert(all_regional(dns_nodes(w), r));
    assert(all_regional(core_nodes(w), r));
    assert(all_regional(cache_nodes(w), r));
    assert(all_regional(queue_nodes(w), r));
    assert(all_regional(static_nodes(w), r));
    lemma_all_regional_concat(dns_nodes(w), core_nodes(w), r);
    lemma_all_regional_concat(dns_nodes(w) + core_nodes(w), cache_nodes(w), r);
    lemma_all_regional_concat(dns_nodes(w) + core_nodes(w) + cache_nodes(w), queue_nodes(w), r);
    lemma_all_regional_concat(
        dns_nodes(w) + core_nodes(w) + cache_nodes(w) + queue_nodes(w),
        static_nodes(w),
        r,
    );
}

/// Every proposed resource that is not global sits in the region the prompt
/// asks for (Ireland for European prompts, else North Virginia); the global
/// ones (CDN, DNS) are left unplaced.
pub proof fn law_proposal_in_one_region(req: Seq<char>)
    ensures
        forall|i: int|
            0 <= i < proposed_resources(req).len() ==> (#[trigger] proposed_resources(
                req,
            )[i]).placement.region == regional(
                proposed_resources(req)[i].kind,
                region_of(spec_wants(req)),
            ),
{
    let w = spec_wants(req);
    let ns = plan_nodes(w);
    lemma_plan_regional(w);
    assert forall|i: int| 0 <= i < proposed_resources(req).len() implies (#[trigger] proposed_resources(
        req,
    )[i]).placement.region == regional(proposed_resources(req)[i].kind, region_of(w)) by {
        assert(materialize(ns)[i] == node_resource(ns, i));
        assert(ns[i].region == regional(ns[i].kind, region_of(w)));
    }
}


// ---------------------------------------------------------------------------
// Connectedness
// ---------------------------------------------------------------------------

/// Resources `i` and `j` are joined by an edge, in either direction.
pub open spec fn adjacent(rs: Seq<ResourceView>, es: Seq<EdgeView>, i: int, j: int) -> bool {
    exists|k: int|
        0 <= k < es.len() && (((#[trigger] es[k]).from == rs[i].id && es[k].to == rs[j].id) || (
        es[k].from == rs[j].id && es[k].to == rs[i].id))
}

/// `p` is a walk through resource positions, each step along an edge in
/// either direction.
pub open spec fn is_walk(rs: Seq<ResourceView>, es: Seq<EdgeView>, p: Seq<int>) -> bool {
    &&& p.len() > 0
    &&& forall|k: int| 0 <= k < p.len() ==> 0 <= #[trigger] p[k] < rs.len()
    &&& forall|k: int| 0 <= k < p.len() - 1 ==> adjacent(rs, es, #[trigger] p[k], p[k + 1])
}

/// Resource `i` is reached from the first resource by a walk.
pub open spec fn reached(rs: Seq<ResourceView>, es: Seq<EdgeView>, i: int) -> bool {
    exists|p: Seq<int>| is_walk(rs, es, p) && p[0] == 0 && p.last() == i
}

/// Every resource is reached from the first by a walk: ignoring edge
/// direction, the design is one connected graph.
pub open spec fn connected(rs: Seq<ResourceView>, es: Seq<EdgeView>) -> bool {
    forall|i: int| 0 <= i < rs.len() ==> #[trigger] reached(rs, es, i)
}

/// Resource `k` shares an edge with a resource of lower rank.
pub open spec fn has_lower_neighbour(
    rs: Seq<ResourceView>,
    es: Seq<EdgeView>,
    rank: spec_fn(int) -> int,
    k: int,
) -> bool {
    exists|m: int| 0 <= m < rs.len() && rank(m) < rank(k) && adjacent(rs, es, m, k)
}

/// When every resource after the first shares an edge with one of lower
/// (non-negative) rank, each is reached from the first.
proof fn lemma_walk_from_first(
    rs: Seq<ResourceView>,
    es: Seq<EdgeView>,
    rank: spec_fn(int) -> int,
    i: int,
)
    requires
        0 <= i < rs.len(),
        forall|k: int| 0 <= k < rs.len() ==> #[trigger] rank(k) >= 0,
        forall|k: int| 0 < k < rs.len() ==> #[trigger] has_lower_neighbour(rs, es, rank, k),
    ensures
        reached(rs, es, i),
    decreases rank(i),
{
    if i == 0 {
        let p = seq![0int];
        assert(is_walk(rs, es, p) && p[0] == 0 && p.last() == i);
    } else {
        assert(has_lower_neighbour(rs, es, rank, i));
        let m = choose|m: int| 0 <= m < rs.len() && rank(m) < rank(i) && adjacent(rs, es, m, i);
        assert(rank(m) >= 0);
        lemma_walk_from_first(rs, es, rank, m);
        assert(reached(rs, es, m));
        let q = choose|q: Seq<int>| is_walk(rs, es, q) && q[0] == 0 && q.last() == m;
        let p = q.push(i);
        assert forall|k: int| 0 <= k < p.len() implies 0 <= #[trigger] p[k] < rs.len() by {
            if k < q.len() {
                assert(p[k] == q[k]);
            }
        }
        assert forall|k: int| 0 <= k < p.len() - 1 implies adjacent(rs, es, #[trigger] p[k], p[k + 1]) by {
            if k < q.len() - 1 {
                assert(p[k] == q[k] && p[k + 1] == q[k + 1]);
            } else {
                assert(p[k] == m && p[k + 1] == i);
            }
        }
        assert(is_walk(rs, es, p) && p[0] == 0 && p.last() == i);
    }
}

/// The order in which a plan's nodes join the design: their position, except
/// that with DNS in front of a static tier the CDN comes before the asset
/// store it serves.
pub open spec fn plan_rank(w: Wants, k: int) -> int {
    let sa = store_at(w) as int;
    if w.dr && w.statics && k == sa {
        sa + 1
    } else if w.dr && w.statics && k == sa + 1 {
        sa
    } else {
        k
    }
}

/// Link `j` joins node `k` to a node of lower rank.
pub open spec fn parent_link(w: Wants, ls: Seq<(usize, usize)>, j: int, k: int) -> bool {
    &&& 0 <= j < ls.len()
    &&& ((ls[j].0 == k && plan_rank(w, ls[j].1 as int) < plan_rank(w, k)) || (ls[j].1 == k
        && plan_rank(w, ls[j].0 as int) < plan_rank(w, k)))
}

/// Every node of a plan after the first is linked to a node of lower rank.
#[verifier::rlimit(60)]
proof fn lemma_plan_parents(w: Wants, k: int)
    requires
        0 < k < plan_nodes(w).len(),
    ensures
        exists|j: int| parent_link(w, plan_links(w), j, k),
{
    let ls = plan_links(w);
    let c = core_links(w);
    let cl = cache_links(w);
    let q = queue_links(w);
    let st = static_links(w);
    assert(ls == c + cl + q + st);
    let d: int = if w.dr {
        1
    } else {
        0
    };
    let n0 = c.len() as int;
    let n1 = n0 + cl.len();
    let n2 = n1 + q.len();
    let qa = queue_at(w) as int;
    let sa = store_at(w) as int;
    assert(plan_nodes(w).len() == 3 + d + (if w.cache { 1int } else { 0int }) + (if w.queue {
        2int
    } else {
        0int
    }) + (if w.statics { 2int } else { 0int }));
    assert(sa == d + 3 + (if w.cache { 1int } else { 0int }) + (if w.queue { 2int } else { 0int }));
    if k <= d + 2 {
        let j = k - 1;
        assert(ls[j] == c[j]);
        assert(parent_link(w, ls, j, k));
    } else if w.cache && k == d + 3 {
        assert(ls[n0] == cl[0]);
        assert(parent_link(w, ls, n0, k));
    } else if w.queue && k == qa {
        assert(ls[n1] == q[0]);
        assert(parent_link(w, ls, n1, k));
    } else if w.queue && k == qa + 1 {
        assert(ls[n1 + 1] == q[1]);
        assert(parent_link(w, ls, n1 + 1, k));
    } else if k == sa {
        assert(ls[n2] == st[0]);
        assert(parent_link(w, ls, n2, k));
    } else {
        assert(w.statics && k == sa + 1);
        assert(ls[n2 + 1] == st[1]);
        assert(parent_link(w, ls, n2 + 1, k));
    }
}

/// A proposal is one connected design: ignoring edge direction, every
/// proposed resource is reached from the first along proposed edges.
pub proof fn law_proposal_connected(req: Seq<char>)
    ensures
        connected(proposed_resources(req), proposed_edges(req)),
{
    let w = spec_wants(req);
    let ns = plan_nodes(w);
    let ls = plan_links(w);
    let rs = proposed_resources(req);
    let es = proposed_edges(req);
    let rank = |k: int| plan_rank(w, k);
    assert forall|k: int| 0 <= k < rs.len() implies #[trigger] rank(k) >= 0 by {}
    assert forall|k: int| 0 < k < rs.len() implies #[trigger] has_lower_neighbour(rs, es, rank, k) by {
        lemma_plan_parents(w, k);
        let j = choose|j: int| parent_link(w, ls, j, k);
        let l = ls[j];
        assert(es[j] == link_edge(ns, l));
        assert(rs[l.0 as int].id == node_id(ns, l.0 as int));
        assert(rs[l.1 as int].id == node_id(ns, l.1 as int));
        assert(rs[k].id == node_id(ns, k));
        if l.0 == k {
            assert(adjacent(rs, es, l.1 as int, k));
        } else {
            assert(adjacent(rs, es, l.0 as int, k));
        }
    }
    assert forall|i: int| 0 <= i < rs.len() implies #[trigger] reached(rs, es, i) by {
        lemma_walk_from_first(rs, es, rank, i);
    }
}

} // verus!
