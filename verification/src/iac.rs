//! Terraform HCL emitter: the architecture graph becomes a single `.tf`
//! document. Deterministic: resources in id order, `depends_on` lists sorted
//! and free of repeats, only the input variables actually referenced.
//!
//! Network (VPC, subnets, security groups) and IAM are referenced as `var.*`
//! input variables, never generated. Edge convention as everywhere: `a -> b`
//! means "a depends on b".

pub mod align;
pub mod blocks;
pub mod deps;
pub mod hcl;

use vstd::prelude::*;

pub use self::hcl::{Hcl, HclOp};

use self::align::{align, spec_align};
use self::blocks::{emit_resource, lemma_resource_ops_order_free, ready, resource_ops, resource_vars};
use self::deps::{
    depends_on_ops, inbound_target_groups, lemma_deps_order_free,
    resolved_deps,
};
use self::hcl::render;
use crate::order::{
    is_stable_sort, lemma_sorted_by, lemma_stable_sort_exists, sorted_by, stable_sort,
    stably_sorted_by, total_preorder,
};
use crate::profile::{spec_variant, ProfileView, ProviderProfile};
use crate::text::{
    cat, cat3, insert_sorted, lemma_lex_asymmetric, lemma_lex_total, lemma_lex_transitive, lex_le,
    sorted_set, str_eq,
    str_lt, strictly_sorted, trim_end, trim_end_exec, views, lemma_sorted_set,
};
use crate::{distinct_ids, spec_slug, ArchView, Architecture, Resource, ResourceView};

verus! {

broadcast use vstd::string::group_string_axioms;

// ---------------------------------------------------------------------------
// Input variables
// ---------------------------------------------------------------------------

/// The Terraform type of a generated input variable.
pub open spec fn spec_var_type(name: Seq<char>) -> Seq<char> {
    if name == "subnet_ids"@ || name == "security_group_ids"@ {
        "list(string)"@
    } else {
        "string"@
    }
}

/// Terraform type for a generated input variable.
pub fn var_type(name: &str) -> (t: &'static str)
    ensures
        t@ == spec_var_type(name@),
{
    if str_eq(name, "subnet_ids") || str_eq(name, "security_group_ids") {
        "list(string)"
    } else {
        "string"
    }
}

/// One `variable` block per name, in order.
pub open spec fn variable_ops(vs: Seq<Seq<char>>) -> Seq<HclOp>
    decreases vs.len(),
{
    if vs.len() == 0 {
        Seq::empty()
    } else {
        variable_ops(vs.drop_last()) + seq![
            HclOp::Open("variable \""@ + vs.last() + "\""@),
            HclOp::Attr("type"@, spec_var_type(vs.last())),
            HclOp::Close,
            HclOp::Blank,
        ]
    }
}

/// The provider scaffold every document starts with.
pub open spec fn scaffold_ops() -> Seq<HclOp> {
    seq![
        HclOp::Open("terraform"@),
        HclOp::Open("required_providers"@),
        HclOp::Open("aws ="@),
        HclOp::Attr("source"@, "\"hashicorp/aws\""@),
        HclOp::Attr("version"@, "\"~> 5.0\""@),
        HclOp::Close,
        HclOp::Close,
        HclOp::Close,
        HclOp::Blank,
        HclOp::Open("provider \"aws\""@),
        HclOp::Attr("region"@, "var.aws_region"@),
        HclOp::Close,
        HclOp::Blank,
    ]
}

// ---------------------------------------------------------------------------
// The document
// ---------------------------------------------------------------------------

/// Resources by id.
pub open spec fn id_le() -> spec_fn(ResourceView, ResourceView) -> bool {
    |a: ResourceView, b: ResourceView| lex_le(a.id, b.id)
}

/// The resources in id order (a stable sort: equal ids keep their order).
pub open spec fn by_id(rs: Seq<ResourceView>) -> Seq<ResourceView> {
    sorted_by(rs, id_le())
}

/// The body section of one resource: its blocks and a blank line, or a note
/// saying why it has none.
pub open spec fn section_ops(a: ArchView, p: ProfileView, r: ResourceView) -> Seq<HclOp> {
    match r.variant {
        None => seq![
            HclOp::Comment(
                r.id + " ("@ + spec_slug(r.kind) + ") has no "@ + p.display_name
                    + " variant — run configure-resource"@,
            ),
            HclOp::Blank,
        ],
        Some(v) => if spec_variant(p, r.kind, v) is None {
            seq![
                HclOp::Comment(
                    r.id + " ("@ + spec_slug(r.kind) + ") has an unrecognised variant \""@ + v
                        + "\" — skipped"@,
                ),
                HclOp::Blank,
            ]
        } else {
            resource_ops(a, r, v) + seq![HclOp::Blank]
        },
    }
}

/// The input variables one resource's section references.
pub open spec fn section_vars(a: ArchView, p: ProfileView, r: ResourceView) -> Set<Seq<char>> {
    match r.variant {
        Some(v) => if spec_variant(p, r.kind, v) is None {
            Set::empty()
        } else {
            resource_vars(a, r, v)
        },
        None => Set::empty(),
    }
}

/// The sections of these resources, in order.
pub open spec fn body_ops(a: ArchView, p: ProfileView, rs: Seq<ResourceView>) -> Seq<HclOp>
    decreases rs.len(),
{
    if rs.len() == 0 {
        Seq::empty()
    } else {
        body_ops(a, p, rs.drop_last()) + section_ops(a, p, rs.last())
    }
}

/// The region variable plus every variable these resources reference.
pub open spec fn body_vars(a: ArchView, p: ProfileView, rs: Seq<ResourceView>) -> Set<Seq<char>>
    decreases rs.len(),
{
    if rs.len() == 0 {
        set!["aws_region"@]
    } else {
        body_vars(a, p, rs.drop_last()) + section_vars(a, p, rs.last())
    }
}

/// The resource has a variant that the profile recognises (whether or not
/// the emitter has blocks for it yet).
pub open spec fn recognised(p: ProfileView, r: ResourceView) -> bool {
    match r.variant {
        Some(v) => spec_variant(p, r.kind, v) is Some,
        None => false,
    }
}

/// Some of these resources has a recognised variant.
pub open spec fn any_recognised(p: ProfileView, rs: Seq<ResourceView>) -> bool {
    exists|i: int| 0 <= i < rs.len() && recognised(p, #[trigger] rs[i])
}

/// The note closing a document in which no resource has a recognised variant.
pub open spec fn no_resources_note() -> Seq<char> {
    "# no resources yet — add and configure resources, then regenerate\n"@
}

/// The whole Terraform document: the scaffold, one `variable` block per
/// referenced variable (sorted), then the resource sections in id order,
/// followed by a `# no resources` note when no resource has a recognised
/// variant (an empty or all-unconfigured design); trailing whitespace dropped, `=` signs
/// aligned, one final newline.
pub open spec fn spec_terraform(a: ArchView, p: ProfileView) -> Seq<char> {
    let rs = by_id(a.resources);
    let body = render(body_ops(a, p, rs));
    let head = render(scaffold_ops() + variable_ops(sorted_set(body_vars(a, p, rs))));
    let doc = if any_recognised(p, rs) {
        head + body
    } else {
        head + body + no_resources_note()
    };
    spec_align(trim_end(doc)) + "\n"@
}

proof fn lemma_id_le_total_preorder()
    ensures
        total_preorder(|a: Resource, b: Resource| lex_le(a@.id, b@.id)),
{
    assert forall|a: Resource, b: Resource| lex_le(a@.id, b@.id) || lex_le(b@.id, a@.id) by {
        lemma_lex_total(a@.id, b@.id);
    }
    assert forall|a: Resource, b: Resource, c: Resource|
        lex_le(a@.id, b@.id) && lex_le(b@.id, c@.id) implies lex_le(a@.id, c@.id) by {
        if a@.id != b@.id && b@.id != c@.id {
            lemma_lex_transitive(a@.id, b@.id, c@.id);
        }
    }
}

proof fn lemma_id_le_view_total_preorder()
    ensures
        total_preorder(id_le()),
{
    let le = id_le();
    assert forall|a: ResourceView, b: ResourceView| #[trigger] le(a, b) || le(b, a) by {
        lemma_lex_total(a.id, b.id);
    }
    assert forall|a: ResourceView, b: ResourceView, c: ResourceView|
        #[trigger] le(a, b) && #[trigger] le(b, c) implies le(a, c) by {
        if a.id != b.id && b.id != c.id {
            lemma_lex_transitive(a.id, b.id, c.id);
        }
    }
}

pub open spec fn rviews(v: Seq<Resource>) -> Seq<ResourceView> {
    v.map_values(|r: Resource| r@)
}

/// Copies of the resources, in id order.
fn resources_by_id(arch: &Architecture) -> (out: Vec<Resource>)
    ensures
        rviews(out@) == by_id(arch@.resources),
{
    let mut copies: Vec<Resource> = Vec::new();
    let mut i: usize = 0;
    while i < arch.resources.len()
        invariant
            0 <= i <= arch@.resources.len(),
            rviews(copies@) == arch@.resources.take(i as int),
        decreases arch@.resources.len() - i,
    {
        let ghost prev = rviews(copies@);
        assert(arch.resources@[i as int]@ == arch@.resources[i as int]);
        let c = arch.resources[i].clone_resource();
        let ghost cv = c@;
        copies.push(c);
        assert(rviews(copies@) =~= prev.push(cv));
        assert(arch@.resources.take(i + 1) =~= arch@.resources.take(i as int).push(cv));
        i = i + 1;
    }
    assert(arch@.resources.take(i as int) =~= arch@.resources);
    let ghost input = copies@;
    let ghost le = |a: Resource, b: Resource| lex_le(a@.id, b@.id);
    proof {
        lemma_id_le_total_preorder();
    }
    let sorted = stable_sort(
        copies,
        (|a: &Resource, b: &Resource| -> (r: bool)
            ensures
                r == lex_le(a@.id, b@.id),
            { str_eq(a.id.as_str(), b.id.as_str()) || str_lt(a.id.as_str(), b.id.as_str()) }),
        Ghost(le),
    );
    proof {
        let perm = choose|perm: Seq<int>| stably_sorted_by(input, sorted@, perm, le);
        assert(stably_sorted_by(rviews(input), rviews(sorted@), perm, id_le()));
        lemma_id_le_view_total_preorder();
        lemma_sorted_by(rviews(input), rviews(sorted@), id_le());
    }
    sorted
}

/// The note for an unconfigured resource.
fn write_unconfigured(h: &mut Hcl, r: &Resource, provider: &str)
    requires
        old(h).wf(),
    ensures
        final(h).wf(),
        final(h).indent == old(h).indent,
        final(h).ops@ == old(h).ops@.push(
            HclOp::Comment(
                r@.id + " ("@ + spec_slug(r@.kind) + ") has no "@ + provider@
                    + " variant — run configure-resource"@,
            ),
        ),
{
    let a = cat3(r.id.as_str(), " (", r.kind.slug());
    let b = cat3(a.as_str(), ") has no ", provider);
    let msg = cat(b.as_str(), " variant — run configure-resource");
    h.comment(msg.as_str());
}

/// The note for a resource whose variant the profile does not know.
fn write_unrecognised(h: &mut Hcl, r: &Resource, variant: &str)
    requires
        old(h).wf(),
    ensures
        final(h).wf(),
        final(h).indent == old(h).indent,
        final(h).ops@ == old(h).ops@.push(
            HclOp::Comment(
                r@.id + " ("@ + spec_slug(r@.kind) + ") has an unrecognised variant \""@ + variant@
                    + "\" — skipped"@,
            ),
        ),
{
    let a = cat3(r.id.as_str(), " (", r.kind.slug());
    let b = cat3(a.as_str(), ") has an unrecognised variant \"", variant);
    let msg = cat(b.as_str(), "\" — skipped");
    h.comment(msg.as_str());
}

/// Emit the whole architecture as one Terraform HCL document. Infallible: an
/// empty or all-unconfigured architecture yields the provider scaffold plus a
/// `# no resources` note.
pub fn emit_terraform(arch: &Architecture, profile: &ProviderProfile) -> (doc: String)
    ensures
        doc@ == spec_terraform(arch@, profile@),
{
    let resources = resources_by_id(arch);
    let ghost rs = rviews(resources@);
    let ghost a = arch@;
    let ghost p = profile@;
    let mut vars: Vec<String> = Vec::new();
    insert_sorted(&mut vars, "aws_region");
    assert(views(vars@).to_set() =~= set!["aws_region"@]);
    let mut body = Hcl::new();
    let mut blocks = false;
    let mut i: usize = 0;
    while i < resources.len()
        invariant
            rs == rviews(resources@),
            a == arch@,
            p == profile@,
            0 <= i <= rs.len(),
            blocks == any_recognised(p, rs.take(i as int)),
            ready(body, vars@),
            body.indent == 0,
            body.ops@ == body_ops(a, p, rs.take(i as int)),
            views(vars@).to_set() == body_vars(a, p, rs.take(i as int)),
        decreases rs.len() - i,
    {
        let r = &resources[i];
        let ghost rv = rs[i as int];
        assert(r@ == rv);
        proof {
            assert(rs.take(i + 1).drop_last() =~= rs.take(i as int));
            assert(rs.take(i + 1).last() == rv);
        }
        let ghost ops0 = body.ops@;
        let ghost vs0 = views(vars@).to_set();
        match &r.variant {
            None => {
                write_unconfigured(&mut body, r, profile.display_name.as_str());
                body.blank();
                assert(vs0 + section_vars(a, p, rv) =~= vs0);
            },
            Some(v) => {
                if profile.variant(r.kind, v.as_str()).is_none() {
                    write_unrecognised(&mut body, r, v.as_str());
                    body.blank();
                    assert(vs0 + section_vars(a, p, rv) =~= vs0);
                } else {
                    blocks = true;
                    emit_resource(&mut body, arch, r, v.as_str(), &mut vars);
                    body.blank();
                }
            },
        }
        assert(body.ops@ =~= ops0 + section_ops(a, p, rv));
        proof {
            let pre = rs.take(i as int);
            let post = rs.take(i + 1);
            assert forall|j: int| 0 <= j < pre.len() implies post[j] == pre[j] by {}
            if recognised(p, rv) {
                assert(post[i as int] == rv);
            }
            if any_recognised(p, pre) {
                let j = choose|j: int| 0 <= j < pre.len() && recognised(p, #[trigger] pre[j]);
                assert(post[j] == pre[j]);
            }
            if any_recognised(p, post) {
                let j = choose|j: int| 0 <= j < post.len() && recognised(p, #[trigger] post[j]);
                if j < i {
                    assert(pre[j] == post[j]);
                }
            }
        }
        i = i + 1;
    }
    assert(rs.take(rs.len() as int) =~= rs);
    let mut out = Hcl::new();
    out.open("terraform");
    out.open("required_providers");
    out.open("aws =");
    out.attr("source", "\"hashicorp/aws\"");
    out.attr("version", "\"~> 5.0\"");
    out.close();
    out.close();
    out.close();
    out.blank();
    out.open("provider \"aws\"");
    out.attr("region", "var.aws_region");
    out.close();
    out.blank();
    assert(out.ops@ =~= scaffold_ops());
    let ghost vs = views(vars@);
    proof {
        lemma_sorted_set(vs, body_vars(a, p, rs));
    }
    let mut k: usize = 0;
    while k < vars.len()
        invariant
            vs == views(vars@),
            0 <= k <= vs.len(),
            out.wf(),
            out.indent == 0,
            out.ops@ == scaffold_ops() + variable_ops(vs.take(k as int)),
        decreases vs.len() - k,
    {
        let ghost ops0 = out.ops@;
        let name = vars[k].as_str();
        out.open(cat3("variable \"", name, "\"").as_str());
        out.attr("type", var_type(name));
        out.close();
        out.blank();
        proof {
            assert(vs.take(k + 1).drop_last() =~= vs.take(k as int));
            assert(vs.take(k + 1).last() == name@);
            assert(out.ops@ =~= scaffold_ops() + variable_ops(vs.take(k + 1)));
        }
        k = k + 1;
    }
    assert(vs.take(vs.len() as int) =~= vs);
    proof {
        body.lemma_text();
        out.lemma_text();
    }
    let body_text = body.buf;
    let mut s = out.buf;
    s.append(body_text.as_str());
    if !blocks {
        s.append("# no resources yet — add and configure resources, then regenerate\n");
    }
    let t = trim_end_exec(s.as_str());
    let aligned = align(t.as_str());
    cat(aligned.as_str(), "\n")
}

// ---------------------------------------------------------------------------
// Independence of input order
// ---------------------------------------------------------------------------

/// Resources with distinct ids, listed in another order, come out in the
/// same id order.
proof fn lemma_by_id_perm(a: Seq<ResourceView>, b: Seq<ResourceView>)
    requires
        distinct_ids(a),
        a.to_multiset() == b.to_multiset(),
    ensures
        by_id(a) == by_id(b),
{
    broadcast use vstd::seq_lib::group_to_multiset_ensures;

    let le = id_le();
    lemma_id_le_view_total_preorder();
    lemma_stable_sort_exists(a, le);
    let out = by_id(a);
    assert(is_stable_sort(a, out, le));
    let pa = choose|p: Seq<int>| stably_sorted_by(a, out, p, le);
    let n = a.len();
    assert(a.len() == a.to_multiset().len());
    assert(b.len() == b.to_multiset().len());
    assert forall|k: int| 0 <= k < n implies #[trigger] b.contains(out[k]) by {
        assert(out[k] == a[pa[k]]);
        assert(a.contains(a[pa[k]]));
        assert(a.to_multiset().count(out[k]) > 0);
    }
    let pb = Seq::new(n, |k: int| choose|j: int| 0 <= j < n && b[j] == out[k]);
    assert forall|k: int| 0 <= k < n implies 0 <= #[trigger] pb[k] < n && b[pb[k]] == out[k] by {
        assert(b.contains(out[k]));
    }
    assert forall|k: int, l: int| 0 <= k < n && 0 <= l < n && k != l implies pb[k] != pb[l] by {
        assert(b[pb[k]] == out[k] && b[pb[l]] == out[l]);
        if pb[k] == pb[l] {
            assert(out[k] == a[pa[k]] && out[l] == a[pa[l]]);
            assert(pa[k] != pa[l]);
        }
    }
    assert forall|k: int, l: int|
        0 <= k < l < out.len() implies le(#[trigger] out[k], #[trigger] out[l]) && (le(out[l], out[k])
        ==> pb[k] < pb[l]) by {
        assert(le(out[k], out[l]));
        if le(out[l], out[k]) {
            if out[k].id != out[l].id {
                lemma_lex_asymmetric(out[k].id, out[l].id);
            }
            assert(out[k] == a[pa[k]] && out[l] == a[pa[l]]);
            assert(pa[k] != pa[l]);
        }
    }
    assert(stably_sorted_by(b, out, pb, le));
    lemma_sorted_by(b, out, le);
}

proof fn lemma_body_order_free(a: ArchView, b: ArchView, p: ProfileView, rs: Seq<ResourceView>)
    requires
        forall|id: Seq<char>| #[trigger] resolved_deps(a, id) == resolved_deps(b, id),
        forall|id: Seq<char>| #[trigger] inbound_target_groups(a, id) == inbound_target_groups(b, id),
        forall|id: Seq<char>, w: Seq<Seq<char>>| #[trigger] depends_on_ops(a, id, w) == depends_on_ops(b, id, w),
    ensures
        body_ops(a, p, rs) == body_ops(b, p, rs),
        body_vars(a, p, rs) == body_vars(b, p, rs),
    decreases rs.len(),
{
    if rs.len() > 0 {
        lemma_body_order_free(a, b, p, rs.drop_last());
        let r = rs.last();
        if let Some(v) = r.variant {
            lemma_resource_ops_order_free(a, b, r, v);
        }
    }
}

/// The Terraform text depends on the design's resources and edges, not on
/// the order they are listed in: listing resources (with distinct ids) and
/// edges in another order gives the same document.
pub proof fn law_terraform_order_free(a: ArchView, b: ArchView, p: ProfileView)
    requires
        distinct_ids(a.resources),
        distinct_ids(b.resources),
        a.resources.to_multiset() == b.resources.to_multiset(),
        a.edges.to_multiset() == b.edges.to_multiset(),
    ensures
        spec_terraform(a, p) == spec_terraform(b, p),
{
    lemma_by_id_perm(a.resources, b.resources);
    lemma_deps_order_free(a, b);
    lemma_body_order_free(a, b, p, by_id(a.resources));
}

} // verus!
