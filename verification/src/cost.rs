//! Rough monthly cost estimate: each configured resource contributes its
//! variant's bundled monthly price from the active [`ProviderProfile`]. Prices
//! are kept in whole US cents. An order-of-magnitude figure for comparing
//! designs, not a bill.

use vstd::prelude::*;

use crate::order::{is_stable_sort, stable_sort, stably_sorted_by, total_preorder};
use crate::profile::{spec_variant, ProfileView, ProviderProfile};
use crate::text::{
    lemma_lex_total, lemma_lex_transitive, lex_le, lex_lt, owned, str_eq, str_lt, views,
};
use crate::{Architecture, ResourceView};

verus! {

/// One priced resource.
#[derive(Debug, Clone, PartialEq)]
pub struct CostLine {
    pub resource: String,
    pub label: String,
    pub variant: String,
    pub monthly_cents: u64,
}

#[verifier::ext_equal]
pub struct CostLineView {
    pub resource: Seq<char>,
    pub label: Seq<char>,
    pub variant: Seq<char>,
    pub monthly_cents: nat,
}

impl View for CostLine {
    type V = CostLineView;

    open spec fn view(&self) -> CostLineView {
        CostLineView {
            resource: self.resource@,
            label: self.label@,
            variant: self.variant@,
            monthly_cents: self.monthly_cents as nat,
        }
    }
}

/// The estimate for a whole design.
#[derive(Debug, Clone, PartialEq)]
pub struct CostReport {
    pub total_monthly_cents: u64,
    pub lines: Vec<CostLine>,
    /// Resource ids with no variant, or a variant the profile does not price.
    pub unpriced: Vec<String>,
}

/// Variants already multi-AZ by construction: a regional placement does not
/// double their cost.
pub open spec fn spec_already_redundant(v: Seq<char>) -> bool {
    ||| v == "rds-multi-az"@
    ||| v == "aurora"@
    ||| v == "aurora-serverless"@
    ||| v == "dynamodb"@
    ||| v == "elasticache"@
    ||| v == "s3"@
    ||| v == "alb"@
    ||| v == "nlb"@
    ||| v == "apigw-http"@
    ||| v == "sqs"@
    ||| v == "cloudfront"@
    ||| v == "route53"@
    ||| v == "lambda"@
    ||| v == "fargate"@
}

/// Whether the variant is already multi-AZ by construction.
pub fn already_redundant(variant_id: &str) -> (b: bool)
    ensures
        b == spec_already_redundant(variant_id@),
{
    str_eq(variant_id, "rds-multi-az") || str_eq(variant_id, "aurora") || str_eq(
        variant_id,
        "aurora-serverless",
    ) || str_eq(variant_id, "dynamodb") || str_eq(variant_id, "elasticache") || str_eq(
        variant_id,
        "s3",
    ) || str_eq(variant_id, "alb") || str_eq(variant_id, "nlb") || str_eq(
        variant_id,
        "apigw-http",
    ) || str_eq(variant_id, "sqs") || str_eq(variant_id, "cloudfront") || str_eq(
        variant_id,
        "route53",
    ) || str_eq(variant_id, "lambda") || str_eq(variant_id, "fargate")
}

/// The monthly price of a resource's variant, if it has a priced one.
pub open spec fn price_of(p: ProfileView, r: ResourceView) -> Option<nat> {
    match r.variant {
        Some(v) => match spec_variant(p, r.kind, v) {
            Some(var) => match var.monthly_cents {
                Some(c) => Some(c as nat),
                None => None,
            },
            None => None,
        },
        None => None,
    }
}

/// The line for a priced resource: a regional placement of a variant that is
/// not already redundant counts as two copies.
pub open spec fn cost_line(p: ProfileView, r: ResourceView) -> Option<CostLineView> {
    match price_of(p, r) {
        Some(c) => {
            let v = r.variant->0;
            let regional = r.placement.region is Some && r.placement.az is None;
            let mult: nat = if regional && !spec_already_redundant(v) {
                2
            } else {
                1
            };
            Some(CostLineView { resource: r.id, label: r.label, variant: v, monthly_cents: c * mult })
        },
        None => None,
    }
}

/// The id of a resource that cannot be priced.
pub open spec fn unpriced_id(p: ProfileView, r: ResourceView) -> Option<Seq<char>> {
    if price_of(p, r) is None {
        Some(r.id)
    } else {
        None
    }
}

/// The sum of the lines' prices.
pub open spec fn sum_cents(s: Seq<CostLineView>) -> nat
    decreases s.len(),
{
    if s.len() == 0 {
        0
    } else {
        sum_cents(s.drop_last()) + s.last().monthly_cents
    }
}

/// The lines, in resource order, before sorting.
pub open spec fn spec_lines(a: crate::ArchView, p: ProfileView) -> Seq<CostLineView> {
    a.resources.filter_map(|r: ResourceView| cost_line(p, r))
}

/// Most expensive first, then by resource id.
pub open spec fn line_le(a: CostLineView, b: CostLineView) -> bool {
    a.monthly_cents > b.monthly_cents || (a.monthly_cents == b.monthly_cents && lex_le(
        a.resource,
        b.resource,
    ))
}

/// The views of a list of lines.
pub open spec fn lviews(s: Seq<CostLine>) -> Seq<CostLineView> {
    s.map_values(|l: CostLine| l@)
}

proof fn lemma_line_le_total_preorder()
    ensures
        total_preorder(|a: CostLine, b: CostLine| line_le(a@, b@)),
{
    let le = |a: CostLine, b: CostLine| line_le(a@, b@);
    assert forall|a: CostLine, b: CostLine| #[trigger] le(a, b) || le(b, a) by {
        lemma_lex_total(a.resource@, b.resource@);
    }
    assert forall|a: CostLine, b: CostLine, c: CostLine|
        #[trigger] le(a, b) && #[trigger] le(b, c) implies le(a, c) by {
        if lex_lt(a.resource@, b.resource@) && lex_lt(b.resource@, c.resource@) {
            lemma_lex_transitive(a.resource@, b.resource@, c.resource@);
        }
    }
}

proof fn lemma_string_le_total_preorder()
    ensures
        total_preorder(|a: String, b: String| lex_le(a@, b@)),
{
    let le = |a: String, b: String| lex_le(a@, b@);
    assert forall|a: String, b: String| #[trigger] le(a, b) || le(b, a) by {
        lemma_lex_total(a@, b@);
    }
    assert forall|a: String, b: String, c: String|
        #[trigger] le(a, b) && #[trigger] le(b, c) implies le(a, c) by {
        if lex_lt(a@, b@) && lex_lt(b@, c@) {
            lemma_lex_transitive(a@, b@, c@);
        }
    }
}

fn line_le_exec(a: &CostLine, b: &CostLine) -> (r: bool)
    ensures
        r == line_le(a@, b@),
{
    a.monthly_cents > b.monthly_cents || (a.monthly_cents == b.monthly_cents && (str_eq(
        a.resource.as_str(),
        b.resource.as_str(),
    ) || str_lt(a.resource.as_str(), b.resource.as_str())))
}

fn string_le_exec(a: &String, b: &String) -> (r: bool)
    ensures
        r == lex_le(a@, b@),
{
    str_eq(a.as_str(), b.as_str()) || str_lt(a.as_str(), b.as_str())
}

/// Estimate the design's monthly cost. Lines come most expensive first (ties by
/// resource id, then in resource order); unpriced ids come sorted.
pub fn estimate(arch: &Architecture, profile: &ProviderProfile) -> (report: CostReport)
    requires
        sum_cents(spec_lines(arch@, profile@)) <= u64::MAX,
    ensures
        report.total_monthly_cents == sum_cents(spec_lines(arch@, profile@)),
        is_stable_sort(
            spec_lines(arch@, profile@),
            lviews(report.lines@),
            |a: CostLineView, b: CostLineView| line_le(a, b),
        ),
        is_stable_sort(
            arch@.resources.filter_map(|r: ResourceView| unpriced_id(profile@, r)),
            views(report.unpriced@),
            |a: Seq<char>, b: Seq<char>| lex_le(a, b),
        ),
{
    let ghost rs = arch@.resources;
    let ghost f = |r: ResourceView| cost_line(profile@, r);
    let ghost g = |r: ResourceView| unpriced_id(profile@, r);
    let mut lines: Vec<CostLine> = Vec::new();
    let mut unpriced: Vec<String> = Vec::new();
    let mut total: u64 = 0;
    let mut i: usize = 0;
    while i < arch.resources.len()
        invariant
            rs == arch@.resources,
            f == (|r: ResourceView| cost_line(profile@, r)),
            g == (|r: ResourceView| unpriced_id(profile@, r)),
            0 <= i <= rs.len(),
            lviews(lines@) == rs.take(i as int).filter_map(f),
            views(unpriced@) == rs.take(i as int).filter_map(g),
            total == sum_cents(lviews(lines@)),
            sum_cents(rs.filter_map(f)) <= u64::MAX,
        decreases rs.len() - i,
    {
        proof {
            rs.lemma_filter_map_take_succ(f, i as int);
            rs.lemma_filter_map_take_succ(g, i as int);
            lemma_sum_prefix(rs, f, i as int + 1);
        }
        let ghost prev_l = lviews(lines@);
        let ghost prev_u = views(unpriced@);
        let r = &arch.resources[i];
        let price: Option<u64> = match &r.variant {
            Some(v) => match profile.variant(r.kind, v.as_str()) {
                Some(var) => var.monthly_cents,
                None => None,
            },
            None => None,
        };
        match price {
            None => {
                unpriced.push(r.id.clone());
                assert(views(unpriced@) =~= prev_u + seq![rs[i as int].id]);
                assert(lviews(lines@) =~= prev_l + Seq::<CostLineView>::empty());
            },
            Some(c) => {
                let v = match &r.variant {
                    Some(v) => v.as_str(),
                    None => "",
                };
                let regional = r.placement.region.is_some() && r.placement.az.is_none();
                let ghost line = f(rs[i as int])->0;
                assert(prev_l.push(line).drop_last() =~= prev_l);
                assert(sum_cents(prev_l.push(line)) == sum_cents(prev_l) + line.monthly_cents);
                assert(rs.take(i + 1).filter_map(f) =~= prev_l.push(line));
                assert(c == price_of(profile@, rs[i as int])->0);
                assert(line.monthly_cents <= u64::MAX);
                let cents = if regional && !already_redundant(v) {
                    c * 2
                } else {
                    c
                };
                total = total + cents;
                lines.push(
                    CostLine {
                        resource: r.id.clone(),
                        label: r.label.clone(),
                        variant: owned(v),
                        monthly_cents: cents,
                    },
                );
                assert(lviews(lines@) =~= prev_l.push(line));
                assert(views(unpriced@) =~= prev_u + Seq::<Seq<char>>::empty());
            },
        }
        i = i + 1;
    }
    assert(rs.take(rs.len() as int) =~= rs);

    let ghost lin = lines@;
    let ghost le_l = |a: CostLine, b: CostLine| line_le(a@, b@);
    proof {
        lemma_line_le_total_preorder();
    }
    let sorted_lines = stable_sort(
        lines,
        (|a: &CostLine, b: &CostLine| -> (r: bool)
            ensures
                r == line_le(a@, b@),
            { line_le_exec(a, b) }),
        Ghost(le_l),
    );
    proof {
        let perm = choose|perm: Seq<int>| stably_sorted_by(lin, sorted_lines@, perm, le_l);
        assert(stably_sorted_by(
            lviews(lin),
            lviews(sorted_lines@),
            perm,
            |a: CostLineView, b: CostLineView| line_le(a, b),
        ));
    }

    let ghost uin = unpriced@;
    let ghost le_s = |a: String, b: String| lex_le(a@, b@);
    proof {
        lemma_string_le_total_preorder();
    }
    let sorted_unpriced = stable_sort(
        unpriced,
        (|a: &String, b: &String| -> (r: bool)
            ensures
                r == lex_le(a@, b@),
            { string_le_exec(a, b) }),
        Ghost(le_s),
    );
    proof {
        let perm = choose|perm: Seq<int>| stably_sorted_by(uin, sorted_unpriced@, perm, le_s);
        assert(stably_sorted_by(
            views(uin),
            views(sorted_unpriced@),
            perm,
            |a: Seq<char>, b: Seq<char>| lex_le(a, b),
        ));
    }
    CostReport { total_monthly_cents: total, lines: sorted_lines, unpriced: sorted_unpriced }
}

/// The sum over a prefix is at most the sum over the whole.
proof fn lemma_sum_prefix(rs: Seq<ResourceView>, f: spec_fn(ResourceView) -> Option<CostLineView>, n: int)
    requires
        0 <= n <= rs.len(),
    ensures
        sum_cents(rs.take(n).filter_map(f)) <= sum_cents(rs.filter_map(f)),
    decreases rs.len() - n,
{
    if n < rs.len() {
        rs.lemma_filter_map_take_succ(f, n);
        let a = rs.take(n).filter_map(f);
        let b = rs.take(n + 1).filter_map(f);
        if let Some(l) = f(rs[n]) {
            assert(b =~= a.push(l));
            assert(b.drop_last() =~= a);
        } else {
            assert(b =~= a);
        }
        lemma_sum_prefix(rs, f, n + 1);
    } else {
        assert(rs.take(n) =~= rs);
    }
}

/// A priced resource gets one line, for its id and variant. Its price is its
/// variant's monthly price when the variant is multi-AZ by construction
/// (RDS Multi-AZ, Aurora, Aurora Serverless, DynamoDB, ElastiCache Multi-AZ,
/// S3, ALB, NLB, API Gateway HTTP, SQS, CloudFront, Route 53, Lambda,
/// Fargate) or the resource is not placed regionally; any other variant
/// placed regionally (a region and no zone) counts as two copies.
pub proof fn law_regional_price(p: ProfileView, r: ResourceView, v: Seq<char>, c: u64)
    requires
        r.variant == Some(v),
        spec_variant(p, r.kind, v) is Some,
        spec_variant(p, r.kind, v)->0.monthly_cents == Some(c),
    ensures
        cost_line(p, r) is Some,
        cost_line(p, r)->0.resource == r.id,
        cost_line(p, r)->0.variant == v,
        ({
            let multi_az = v == "rds-multi-az"@ || v == "aurora"@ || v == "aurora-serverless"@ || v
                == "dynamodb"@ || v == "elasticache"@ || v == "s3"@ || v == "alb"@ || v == "nlb"@
                || v == "apigw-http"@ || v == "sqs"@ || v == "cloudfront"@ || v == "route53"@ || v
                == "lambda"@ || v == "fargate"@;
            let regional = r.placement.region is Some && r.placement.az is None;
            &&& multi_az ==> cost_line(p, r)->0.monthly_cents == c
            &&& !regional ==> cost_line(p, r)->0.monthly_cents == c
            &&& !multi_az && regional ==> cost_line(p, r)->0.monthly_cents == 2 * c
        }),
{
}

} // verus!
