//! Provider profiles: the per-cloud catalogue of concrete services
//! ([`Variant`]s) for each vendor-neutral kind, plus the region and
//! availability-zone topology used by failure analysis.

use vstd::prelude::*;

use crate::text::{owned, str_eq};
use crate::{spec_slug, ResourceKind};

verus! {

/// A concrete cloud provider's service catalogue and topology.
#[derive(Debug, Clone, PartialEq)]
pub struct ProviderProfile {
    pub provider: String,
    pub display_name: String,
    pub regions: Vec<Region>,
    /// One entry per kind slug (see [`ResourceKind::slug`]).
    pub variants: Vec<KindVariants>,
}

/// The variants offered for one kind, keyed by the kind's slug.
#[derive(Debug, Clone, PartialEq)]
pub struct KindVariants {
    pub kind: String,
    pub variants: Vec<Variant>,
}

/// A region and the availability zones it contains.
#[derive(Debug, Clone, PartialEq)]
pub struct Region {
    pub id: String,
    pub azs: Vec<String>,
}

/// One concrete service a kind can be realised as.
#[derive(Debug, Clone, PartialEq)]
pub struct Variant {
    pub id: String,
    pub display_name: String,
    /// A single point of failure by construction (single zone, no built-in
    /// redundancy).
    pub spof: bool,
    /// How long a zone-loss failover typically takes, if it fails over.
    pub failover_seconds: Option<u32>,
    /// Illustrative monthly price, in US cents.
    pub monthly_cents: Option<u64>,
}

#[verifier::ext_equal]
pub struct VariantView {
    pub id: Seq<char>,
    pub display_name: Seq<char>,
    pub spof: bool,
    pub failover_seconds: Option<u32>,
    pub monthly_cents: Option<u64>,
}

impl View for Variant {
    type V = VariantView;

    open spec fn view(&self) -> VariantView {
        VariantView {
            id: self.id@,
            display_name: self.display_name@,
            spof: self.spof,
            failover_seconds: self.failover_seconds,
            monthly_cents: self.monthly_cents,
        }
    }
}

#[verifier::ext_equal]
pub struct RegionView {
    pub id: Seq<char>,
    pub azs: Seq<Seq<char>>,
}

impl View for Region {
    type V = RegionView;

    open spec fn view(&self) -> RegionView {
        RegionView { id: self.id@, azs: self.azs@.map_values(|a: String| a@) }
    }
}

#[verifier::ext_equal]
pub struct ProfileView {
    pub provider: Seq<char>,
    pub display_name: Seq<char>,
    pub regions: Seq<RegionView>,
    pub variants: Seq<(Seq<char>, Seq<VariantView>)>,
}

impl View for ProviderProfile {
    type V = ProfileView;

    open spec fn view(&self) -> ProfileView {
        ProfileView {
            provider: self.provider@,
            display_name: self.display_name@,
            regions: self.regions@.map_values(|r: Region| r@),
            variants: self.variants@.map_values(
                |g: KindVariants| (g.kind@, g.variants@.map_values(|v: Variant| v@)),
            ),
        }
    }
}

/// The variants listed under `key` (the first entry with that key).
pub open spec fn find_group(gs: Seq<(Seq<char>, Seq<VariantView>)>, key: Seq<char>) -> Option<
    Seq<VariantView>,
>
    decreases gs.len(),
{
    if gs.len() == 0 {
        None
    } else if gs[0].0 == key {
        Some(gs[0].1)
    } else {
        find_group(gs.drop_first(), key)
    }
}

/// The first variant with this id.
pub open spec fn find_variant(vs: Seq<VariantView>, id: Seq<char>) -> Option<VariantView>
    decreases vs.len(),
{
    if vs.len() == 0 {
        None
    } else if vs[0].id == id {
        Some(vs[0])
    } else {
        find_variant(vs.drop_first(), id)
    }
}

/// The first region with this id.
pub open spec fn find_region(rs: Seq<RegionView>, id: Seq<char>) -> Option<RegionView>
    decreases rs.len(),
{
    if rs.len() == 0 {
        None
    } else if rs[0].id == id {
        Some(rs[0])
    } else {
        find_region(rs.drop_first(), id)
    }
}

/// The variant of `kind` with id `id` in profile `p`.
pub open spec fn spec_variant(p: ProfileView, kind: ResourceKind, id: Seq<char>) -> Option<
    VariantView,
> {
    match find_group(p.variants, spec_slug(kind)) {
        Some(vs) => find_variant(vs, id),
        None => None,
    }
}

/// `az` is a zone of region `region` in profile `p`.
pub open spec fn spec_has_az(p: ProfileView, region: Seq<char>, az: Seq<char>) -> bool {
    match find_region(p.regions, region) {
        Some(r) => r.azs.contains(az),
        None => false,
    }
}

impl ProviderProfile {
    /// Look up a variant by kind and id.
    pub fn variant(&self, kind: ResourceKind, id: &str) -> (r: Option<&Variant>)
        ensures
            match r {
                Some(v) => spec_variant(self@, kind, id@) == Some(v@),
                None => spec_variant(self@, kind, id@) is None,
            },
    {
        let slug = kind.slug();
        let ghost gs = self@.variants;
        assert(gs.skip(0) =~= gs);
        let mut i: usize = 0;
        while i < self.variants.len()
            invariant
                gs == self@.variants,
                slug@ == spec_slug(kind),
                0 <= i <= gs.len(),
                find_group(gs, slug@) == find_group(gs.skip(i as int), slug@),
            decreases gs.len() - i,
        {
            assert(gs.skip(i as int).drop_first() =~= gs.skip(i + 1));
            assert(gs.skip(i as int)[0] == gs[i as int]);
            if str_eq(self.variants[i].kind.as_str(), slug) {
                assert(find_group(gs.skip(i as int), slug@) == Some(gs[i as int].1));
                let group = &self.variants[i].variants;
                let ghost vs = gs[i as int].1;
                assert(vs.skip(0) =~= vs);
                let mut j: usize = 0;
                while j < group.len()
                    invariant
                        vs == group@.map_values(|v: Variant| v@),
                        find_group(self@.variants, spec_slug(kind)) == Some(vs),
                        0 <= j <= vs.len(),
                        find_variant(vs, id@) == find_variant(vs.skip(j as int), id@),
                    decreases vs.len() - j,
                {
                    assert(vs.skip(j as int).drop_first() =~= vs.skip(j + 1));
                    assert(vs.skip(j as int)[0] == vs[j as int]);
                    if str_eq(group[j].id.as_str(), id) {
                        assert(vs[j as int] == group@[j as int]@);
                        return Some(&group[j]);
                    }
                    j = j + 1;
                }
                return None;
            }
            i = i + 1;
        }
        None
    }

    /// Look up a region by id.
    pub fn region(&self, id: &str) -> (r: Option<&Region>)
        ensures
            match r {
                Some(reg) => find_region(self@.regions, id@) == Some(reg@),
                None => find_region(self@.regions, id@) is None,
            },
    {
        let ghost rs = self@.regions;
        assert(rs.skip(0) =~= rs);
        let mut i: usize = 0;
        while i < self.regions.len()
            invariant
                rs == self@.regions,
                0 <= i <= rs.len(),
                find_region(rs, id@) == find_region(rs.skip(i as int), id@),
            decreases rs.len() - i,
        {
            assert(rs.skip(i as int).drop_first() =~= rs.skip(i + 1));
            assert(rs.skip(i as int)[0] == rs[i as int]);
            if str_eq(self.regions[i].id.as_str(), id) {
                return Some(&self.regions[i]);
            }
            i = i + 1;
        }
        None
    }

    /// Whether `az` is a real zone of `region` in this profile.
    pub fn has_az(&self, region: &str, az: &str) -> (b: bool)
        ensures
            b == spec_has_az(self@, region@, az@),
    {
        match self.region(region) {
            None => false,
            Some(r) => {
                let ghost azs = r@.azs;
                let mut i: usize = 0;
                while i < r.azs.len()
                    invariant
                        azs == r.azs@.map_values(|a: String| a@),
                        find_region(self@.regions, region@) == Some(r@),
                        0 <= i <= azs.len(),
                        forall|j: int| 0 <= j < i ==> azs[j] != az@,
                    decreases azs.len() - i,
                {
                    if str_eq(r.azs[i].as_str(), az) {
                        assert(azs[i as int] == az@);
                        assert(azs.contains(az@));
                        assert(r@.azs == azs);
                        return true;
                    }
                    i = i + 1;
                }
                false
            },
        }
    }
}


/// A variant's view, built from its parts.
pub open spec fn vv(
    id: Seq<char>,
    display_name: Seq<char>,
    spof: bool,
    failover_seconds: Option<u32>,
    cents: u64,
) -> VariantView {
    VariantView { id, display_name, spof, failover_seconds, monthly_cents: Some(cents) }
}

/// The bundled AWS catalogue and topology.
pub open spec fn spec_aws() -> ProfileView {
    ProfileView {
        provider: "aws"@,
        display_name: "Amazon Web Services"@,
        regions: seq![
            RegionView { id: "us-east-1"@, azs: seq!["us-east-1a"@, "us-east-1b"@, "us-east-1c"@] },
            RegionView { id: "eu-west-1"@, azs: seq!["eu-west-1a"@, "eu-west-1b"@, "eu-west-1c"@] },
        ],
        variants: seq![
            ("compute"@, seq![
                vv("ec2-asg"@, "EC2 + Auto Scaling Group"@, false, None, 6200u64),
                vv("fargate"@, "ECS on Fargate"@, false, None, 4500u64),
            ]),
            ("database"@, seq![
                vv("rds-single-az"@, "RDS (Single-AZ)"@, true, None, 7800u64),
                vv("rds-multi-az"@, "RDS (Multi-AZ)"@, false, Some(90u32), 15600u64),
                vv("aurora"@, "Aurora"@, false, Some(30u32), 22000u64),
                vv("aurora-serverless"@, "Aurora Serverless v2"@, false, Some(30u32), 9000u64),
                vv("dynamodb"@, "DynamoDB"@, false, None, 2500u64),
            ]),
            ("queue"@, seq![
                vv("sqs"@, "SQS"@, false, None, 100u64),
            ]),
            ("load-balancer"@, seq![
                vv("alb"@, "Application Load Balancer"@, false, None, 2300u64),
                vv("nlb"@, "Network Load Balancer"@, false, None, 2200u64),
            ]),
            ("object-store"@, seq![
                vv("s3"@, "S3"@, false, None, 500u64),
            ]),
            ("cache"@, seq![
                vv("elasticache"@, "ElastiCache (Multi-AZ)"@, false, Some(60u32), 5000u64),
                vv("elasticache-single"@, "ElastiCache (single node)"@, true, None, 2500u64),
            ]),
            ("cdn"@, seq![
                vv("cloudfront"@, "CloudFront"@, false, None, 1500u64),
            ]),
            ("dns"@, seq![
                vv("route53"@, "Route 53"@, false, Some(60u32), 100u64),
            ]),
            ("functions"@, seq![
                vv("lambda"@, "Lambda"@, false, None, 500u64),
            ]),
            ("api-gateway"@, seq![
                vv("apigw-http"@, "API Gateway (HTTP API)"@, false, None, 400u64),
            ]),
        ],
    }
}

fn mk_variant(id: &str, display_name: &str, spof: bool, failover_seconds: Option<u32>, cents: u64) -> (v:
    Variant)
    ensures
        v@ == vv(id@, display_name@, spof, failover_seconds, cents),
{
    Variant {
        id: owned(id),
        display_name: owned(display_name),
        spof,
        failover_seconds,
        monthly_cents: Some(cents),
    }
}

fn mk_group(kind: &str, variants: Vec<Variant>) -> (g: KindVariants)
    ensures
        g.kind@ == kind@,
        g.variants == variants,
{
    KindVariants { kind: owned(kind), variants }
}

fn mk_region(id: &str, a: &str, b: &str, c: &str) -> (r: Region)
    ensures
        r@ == (RegionView { id: id@, azs: seq![a@, b@, c@] }),
{
    let r = Region { id: owned(id), azs: vec![owned(a), owned(b), owned(c)] };
    assert(r@.azs =~= seq![a@, b@, c@]);
    r
}

impl ProviderProfile {
    /// The bundled AWS profile.
    pub fn aws() -> (p: ProviderProfile)
        ensures
            p@ == spec_aws(),
    {
        let regions = vec![
            mk_region("us-east-1", "us-east-1a", "us-east-1b", "us-east-1c"),
            mk_region("eu-west-1", "eu-west-1a", "eu-west-1b", "eu-west-1c"),
        ];
        let variants = vec![
            mk_group("compute", vec![
                mk_variant("ec2-asg", "EC2 + Auto Scaling Group", false, None, 6200),
                mk_variant("fargate", "ECS on Fargate", false, None, 4500),
            ]),
            mk_group("database", vec![
                mk_variant("rds-single-az", "RDS (Single-AZ)", true, None, 7800),
                mk_variant("rds-multi-az", "RDS (Multi-AZ)", false, Some(90), 15600),
                mk_variant("aurora", "Aurora", false, Some(30), 22000),
                mk_variant("aurora-serverless", "Aurora Serverless v2", false, Some(30), 9000),
                mk_variant("dynamodb", "DynamoDB", false, None, 2500),
            ]),
            mk_group("queue", vec![
                mk_variant("sqs", "SQS", false, None, 100),
            ]),
            mk_group("load-balancer", vec![
                mk_variant("alb", "Application Load Balancer", false, None, 2300),
                mk_variant("nlb", "Network Load Balancer", false, None, 2200),
            ]),
            mk_group("object-store", vec![
                mk_variant("s3", "S3", false, None, 500),
            ]),
            mk_group("cache", vec![
                mk_variant("elasticache", "ElastiCache (Multi-AZ)", false, Some(60), 5000),
                mk_variant("elasticache-single", "ElastiCache (single node)", true, None, 2500),
            ]),
            mk_group("cdn", vec![
                mk_variant("cloudfront", "CloudFront", false, None, 1500),
            ]),
            mk_group("dns", vec![
                mk_variant("route53", "Route 53", false, Some(60), 100),
            ]),
            mk_group("functions", vec![
                mk_variant("lambda", "Lambda", false, None, 500),
            ]),
            mk_group("api-gateway", vec![
                mk_variant("apigw-http", "API Gateway (HTTP API)", false, None, 400),
            ]),
        ];
        let p = ProviderProfile {
            provider: owned("aws"),
            display_name: owned("Amazon Web Services"),
            regions,
            variants,
        };
        assert(p@ =~~= spec_aws());
        p
    }
}

} // verus!
