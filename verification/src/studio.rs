//! The live design document the UI and the agent tools both edit: an
//! architecture plus the provider profile it is checked against. The
//! operations here are those with rules of their own (parsing a kind,
//! validating a configuration against the profile, choosing an emitter).

use vstd::prelude::*;

use crate::analysis::{
    az_failure_seed, blast_radius, first_index, in_zone, lemma_first_index, spec_degraded,
    spec_down, spec_healthy, spec_notes, ids_where, BlastReport,
};
use crate::iac::{emit_terraform, spec_terraform};
use crate::profile::{find_region, spec_aws, spec_has_az, spec_variant, ProviderProfile};
use crate::text::{cat, cat3, str_eq, strictly_sorted, views};
use crate::{
    counter_of, edit_step, has_id, is_first, kind_id, opt_view, spec_message, spec_slug, well_formed,
    ArchErrorView, Architecture, PlacementView, ResourceKind, ResourceView,
};

verus! {

/// An architecture being designed, with its provider profile.
pub struct Studio {
    pub inner: Architecture,
    pub profile: ProviderProfile,
}

/// `Some(s)` when `s` is present and not empty.
pub open spec fn nonempty(o: Option<Seq<char>>) -> Option<Seq<char>> {
    match o {
        Some(s) => if s.len() > 0 {
            Some(s)
        } else {
            None
        },
        None => None,
    }
}

/// The error view of a message result.
pub open spec fn msg_view(r: Result<(), String>) -> Result<(), Seq<char>> {
    match r {
        Ok(_) => Ok(()),
        Err(m) => Err(m@),
    }
}

/// What `configure` does to the resources, and what it answers: set the
/// variant (when one is given; it must be in the profile), then the placement
/// (when a region is given: a zone must belong to it, else the region must
/// exist). A rejected placement keeps the variant already set.
pub open spec fn configure_outcome(
    rs: Seq<ResourceView>,
    p: crate::profile::ProfileView,
    id: Seq<char>,
    variant: Option<Seq<char>>,
    region: Option<Seq<char>>,
    az: Option<Seq<char>>,
) -> (Result<(), Seq<char>>, Seq<ResourceView>) {
    if !has_id(rs, id) {
        (Err("no such resource: "@ + id), rs)
    } else {
        let i = first_index(rs, id);
        let k = rs[i].kind;
        let v = nonempty(variant);
        if v is Some && spec_variant(p, k, v->0) is None {
            (
                Err("unknown "@ + spec_slug(k) + " variant for "@ + p.display_name + ": "@ + v->0),
                rs,
            )
        } else {
            let rs1 = if v is Some {
                rs.update(i, ResourceView { variant: v, ..rs[i] })
            } else {
                rs
            };
            match nonempty(region) {
                None => (Ok(()), rs1),
                Some(rg) => match nonempty(az) {
                    Some(z) => if !spec_has_az(p, rg, z) {
                        (Err(z + " is not an availability zone of "@ + rg), rs1)
                    } else {
                        (
                            Ok(()),
                            rs1.update(
                                i,
                                ResourceView {
                                    placement: PlacementView { region: Some(rg), az: Some(z) },
                                    ..rs1[i]
                                },
                            ),
                        )
                    },
                    None => if find_region(p.regions, rg) is None {
                        (Err("unknown region: "@ + rg), rs1)
                    } else {
                        (
                            Ok(()),
                            rs1.update(
                                i,
                                ResourceView {
                                    placement: PlacementView { region: Some(rg), az: None },
                                    ..rs1[i]
                                },
                            ),
                        )
                    },
                },
            }
        }
    }
}

/// The present, non-empty string of an option.
fn filled(o: Option<String>) -> (r: Option<String>)
    ensures
        opt_view(r) == nonempty(opt_view(o)),
{
    match o {
        Some(s) => if s.as_str().unicode_len() > 0 {
            Some(s)
        } else {
            None
        },
        None => None,
    }
}

impl Studio {
    /// An empty design checked against the bundled AWS profile.
    pub fn new() -> (s: Studio)
        ensures
            s.inner@.resources.len() == 0,
            s.inner@.edges.len() == 0,
            s.inner@.counters.len() == 0,
            well_formed(s.inner@),
            s.profile@ == spec_aws(),
    {
        Studio { inner: Architecture::new(), profile: ProviderProfile::aws() }
    }

    /// Add a resource of the kind named `kind`; returns its generated id, or
    /// the unknown-kind message.
    pub fn add_resource(&mut self, kind: &str, label: &str, x_bits: u64, y_bits: u64) -> (r: Result<
        String,
        String,
    >)
        requires
            counter_of(old(self).inner@.counters, kind@) < u32::MAX,
        ensures
            r is Ok <==> exists|k: ResourceKind| spec_slug(k) == kind@,
            match r {
                Ok(id) => forall|k: ResourceKind|
                    spec_slug(k) == kind@ ==> {
                        &&& id@ == kind_id(k, counter_of(old(self).inner@.counters, kind@) + 1)
                        &&& final(self).inner@.resources == old(self).inner@.resources.push(
                            ResourceView {
                                id: id@,
                                kind: k,
                                label: label@,
                                x_bits,
                                y_bits,
                                variant: None,
                                placement: PlacementView { region: None, az: None },
                            },
                        )
                    },
                Err(m) => m@ == spec_message(ArchErrorView::UnknownKind(kind@))
                    && final(self).inner@ == old(self).inner@,
            },
            r is Ok ==> forall|key: Seq<char>|
                #[trigger] counter_of(final(self).inner@.counters, key) == if key == kind@ {
                    counter_of(old(self).inner@.counters, key) + 1
                } else {
                    counter_of(old(self).inner@.counters, key)
                },
            final(self).inner@.edges == old(self).inner@.edges,
            final(self).profile@ == old(self).profile@,
            well_formed(old(self).inner@) ==> well_formed(final(self).inner@),
            edit_step(old(self).inner@, final(self).inner@),
    {
        match ResourceKind::parse(kind) {
            Err(e) => Err(e.to_string()),
            Ok(k) => {
                proof {
                    assert forall|k2: ResourceKind| spec_slug(k2) == kind@ implies k2 == k by {
                        crate::lemma_slug_injective(k, k2);
                    }
                }
                Ok(self.inner.add_resource(k, label, x_bits, y_bits))
            },
        }
    }

    /// Set a resource's provider variant and/or placement. An empty or absent
    /// `variant` leaves the variant unchanged, otherwise it is validated
    /// against the profile; an empty or absent `region` leaves the placement
    /// unchanged; a region without a zone is regional, with a zone zonal.
    pub fn configure(
        &mut self,
        id: &str,
        variant: Option<String>,
        region: Option<String>,
        az: Option<String>,
    ) -> (r: Result<(), String>)
        ensures
            (msg_view(r), final(self).inner@.resources) == configure_outcome(
                old(self).inner@.resources,
                old(self).profile@,
                id@,
                opt_view(variant),
                opt_view(region),
                opt_view(az),
            ),
            final(self).inner@.edges == old(self).inner@.edges,
            final(self).inner@.counters == old(self).inner@.counters,
            final(self).profile@ == old(self).profile@,
            well_formed(old(self).inner@) ==> well_formed(final(self).inner@),
    {
        let ghost rs = self.inner@.resources;
        let ghost p = self.profile@;
        let kind = match self.inner.find(id) {
            None => {
                return Err(cat("no such resource: ", id));
            },
            Some(i) => {
                proof {
                    lemma_first_index(rs, id@, i as int);
                }
                self.inner.resources[i].kind
            },
        };
        let ghost i = first_index(rs, id@);
        let variant = filled(variant);
        match variant {
            Some(v) => {
                if self.profile.variant(kind, v.as_str()).is_none() {
                    let a = cat3("unknown ", kind.slug(), " variant for ");
                    let b = cat3(a.as_str(), self.profile.display_name.as_str(), ": ");
                    return Err(cat(b.as_str(), v.as_str()));
                }
                let ghost vv = v@;
                let _ = self.inner.set_variant(id, Some(v));
                proof {
                    let j = choose|j: int|
                        is_first(rs, id@, j) && self.inner@.resources == rs.update(
                            j,
                            ResourceView { variant: Some(vv), ..rs[j] },
                        );
                    lemma_first_index(rs, id@, j);
                }
            },
            None => {},
        }
        let ghost rs1 = self.inner@.resources;
        assert(is_first(rs1, id@, i));
        match filled(region) {
            None => Ok(()),
            Some(region) => {
                let az = filled(az);
                match &az {
                    Some(z) => {
                        if !self.profile.has_az(region.as_str(), z.as_str()) {
                            return Err(cat3(z.as_str(), " is not an availability zone of ", region.as_str()));
                        }
                    },
                    None => {
                        if self.profile.region(region.as_str()).is_none() {
                            return Err(cat("unknown region: ", region.as_str()));
                        }
                    },
                }
                let ghost rg = region@;
                let ghost zv = opt_view(az);
                let _ = self.inner.place(id, Some(region), az);
                proof {
                    let j = choose|j: int|
                        is_first(rs1, id@, j) && self.inner@.resources == rs1.update(
                            j,
                            ResourceView {
                                placement: PlacementView { region: Some(rg), az: zv },
                                ..rs1[j]
                            },
                        );
                    lemma_first_index(rs1, id@, j);
                    lemma_first_index(rs1, id@, i);
                }
                Ok(())
            },
        }
    }

    /// Simulate the loss of availability zone `az` in `region`: everything
    /// placed in that zone goes down first.
    pub fn simulate_failure(&self, region: &str, az: &str) -> (r: Result<BlastReport, String>)
        ensures
            r is Ok <==> spec_has_az(self.profile@, region@, az@),
            match r {
                Ok(report) => {
                    let seed = ids_where(self.inner@.resources, in_zone(az@)).to_set();
                    &&& report.target@ == "AZ "@ + az@
                    &&& strictly_sorted(views(report.down@))
                    &&& views(report.down@).to_set() == spec_down(self.inner@, seed)
                    &&& strictly_sorted(views(report.degraded@))
                    &&& views(report.degraded@).to_set() == spec_degraded(
                        self.inner@,
                        self.profile@,
                        views(report.down@).to_set(),
                        Some(region@),
                    )
                    &&& strictly_sorted(views(report.healthy@))
                    &&& views(report.healthy@).to_set() == spec_healthy(
                        self.inner@,
                        views(report.down@).to_set(),
                        views(report.degraded@).to_set(),
                    )
                    &&& views(report.notes@) == spec_notes(
                        self.inner@,
                        self.profile@,
                        views(report.down@).to_set(),
                        Some(region@),
                        self.inner@.resources,
                    )
                },
                Err(m) => m@ == az@ + " is not an availability zone of "@ + region@,
            },
    {
        if !self.profile.has_az(region, az) {
            return Err(cat3(az, " is not an availability zone of ", region));
        }
        let seed = az_failure_seed(&self.inner, az);
        let target = cat("AZ ", az);
        let report = blast_radius(&self.inner, &self.profile, seed.as_slice(), Some(region), target.as_str());
        Ok(report)
    }

    /// The design as infrastructure-as-code. Only `"terraform"` (or `""`, the
    /// default) is supported.
    pub fn generate_iac(&self, target: &str) -> (r: Result<String, String>)
        ensures
            r is Ok <==> (target@ == ""@ || target@ == "terraform"@),
            match r {
                Ok(doc) => doc@ == spec_terraform(self.inner@, self.profile@),
                Err(m) => m@ == "unknown target: "@ + target@ + ". Supported: terraform"@,
            },
    {
        if str_eq(target, "") || str_eq(target, "terraform") {
            Ok(emit_terraform(&self.inner, &self.profile))
        } else {
            Err(cat3("unknown target: ", target, ". Supported: terraform"))
        }
    }
}

} // verus!
