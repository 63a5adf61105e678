//! The run's descriptive summary: cluster version, context label, the
//! sorted list of API version strings, the per-group preferred versions,
//! and the full catalog.

use vstd::prelude::*;
use vstd::string::StringExecFns;
use crate::catalog::{
    AugmentationTable, MyApiResource, api_resources, catalog_spec, catalog_view,
};
use crate::discovery::{DiscoverySnapshot, GroupModel, VersionModel, preferred_version_of};
use crate::json::{JsonValue, fields_view, lookup_key, text_of};
use crate::order::{sort_strings, sorted_views};
use crate::verbs::views_of;

verus! {

/// The version strings one group contributes: bare versions for the core
/// group, `name/version` otherwise.
pub open spec fn version_strings(name: Seq<char>, vs: Seq<VersionModel>) -> Seq<Seq<char>>
    decreases vs.len(),
{
    if vs.len() == 0 {
        Seq::empty()
    } else {
        version_strings(name, vs.drop_last()).push(
            if name.len() == 0 {
                vs.last().version
            } else {
                name + "/"@ + vs.last().version
            },
        )
    }
}

/// Every version string of every group, in discovery order (unsorted).
pub open spec fn api_versions_spec(gs: Seq<GroupModel>) -> Seq<Seq<char>>
    decreases gs.len(),
{
    if gs.len() == 0 {
        Seq::empty()
    } else {
        api_versions_spec(gs.drop_last()) + version_strings(gs.last().name, gs.last().versions)
    }
}

/// The list of all discovered API version strings, sorted lexically.
pub fn api_versions(discovery: &DiscoverySnapshot) -> (r: Vec<String>)
    ensures
        sorted_views(r@),
        views_of(r@).to_multiset() == api_versions_spec(discovery@.groups).to_multiset(),
{
    let mut out: Vec<String> = Vec::new();
    proof {
        assert(views_of(out@) =~= api_versions_spec(discovery@.groups.take(0)));
    }
    let mut gi: usize = 0;
    while gi < discovery.groups.len()
        invariant
            0 <= gi <= discovery@.groups.len(),
            views_of(out@) == api_versions_spec(discovery@.groups.take(gi as int)),
        decreases discovery@.groups.len() - gi,
    {
        let g = &discovery.groups[gi];
        proof {
            assert(discovery@.groups.take(gi + 1).drop_last() =~= discovery@.groups.take(
                gi as int,
            ));
            assert(discovery@.groups.take(gi + 1).last() == g@);
        }
        let ghost base = views_of(out@);
        let core = g.name.as_str().is_empty();
        let mut vi: usize = 0;
        while vi < g.versions.len()
            invariant
                0 <= vi <= g@.versions.len(),
                core == (g@.name.len() == 0),
                views_of(out@) == base + version_strings(g@.name, g@.versions.take(vi as int)),
            decreases g@.versions.len() - vi,
        {
            proof {
                assert(g@.versions.take(vi + 1).drop_last() =~= g@.versions.take(vi as int));
                assert(g@.versions.take(vi + 1).last() == g@.versions[vi as int]);
            }
            let s: String = if core {
                g.versions[vi].version.clone()
            } else {
                let mut s = g.name.clone();
                s.append("/");
                s.append(g.versions[vi].version.as_str());
                s
            };
            let ghost before = views_of(out@);
            out.push(s);
            proof {
                assert(views_of(out@) =~= before.push(s@));
                assert(views_of(out@) =~= base + version_strings(
                    g@.name,
                    g@.versions.take(vi + 1),
                ));
            }
            vi = vi + 1;
        }
        proof {
            assert(g@.versions.take(g@.versions.len() as int) =~= g@.versions);
            assert(views_of(out@) =~= api_versions_spec(discovery@.groups.take(gi + 1)));
        }
        gi = gi + 1;
    }
    proof {
        assert(discovery@.groups.take(discovery@.groups.len() as int) =~= discovery@.groups);
    }
    sort_strings(out)
}

/// The `(group, preferred version)` pairs of every non-core group, in
/// discovery order.
pub open spec fn preferred_versions_spec(gs: Seq<GroupModel>) -> Seq<(Seq<char>, Seq<char>)>
    decreases gs.len(),
{
    if gs.len() == 0 {
        Seq::empty()
    } else {
        let rest = preferred_versions_spec(gs.drop_last());
        if gs.last().name.len() == 0 {
            rest
        } else {
            rest.push((gs.last().name, preferred_version_of(gs.last())))
        }
    }
}

/// The pairs of a vector of strings, as character sequences.
pub open spec fn pairs_view(s: Seq<(String, String)>) -> Seq<(Seq<char>, Seq<char>)> {
    s.map_values(|p: (String, String)| (p.0@, p.1@))
}

/// For each non-core group, its preferred version (declared, or first
/// listed). The core group is left out, as it has no group name to key by.
pub fn preferred_api_versions(discovery: &DiscoverySnapshot) -> (r: Vec<(String, String)>)
    ensures
        pairs_view(r@) == preferred_versions_spec(discovery@.groups),
{
    let mut out: Vec<(String, String)> = Vec::new();
    proof {
        assert(pairs_view(out@) =~= preferred_versions_spec(discovery@.groups.take(0)));
    }
    let mut gi: usize = 0;
    while gi < discovery.groups.len()
        invariant
            0 <= gi <= discovery@.groups.len(),
            pairs_view(out@) == preferred_versions_spec(discovery@.groups.take(gi as int)),
        decreases discovery@.groups.len() - gi,
    {
        let g = &discovery.groups[gi];
        proof {
            assert(discovery@.groups.take(gi + 1).drop_last() =~= discovery@.groups.take(
                gi as int,
            ));
            assert(discovery@.groups.take(gi + 1).last() == g@);
        }
        if !g.name.as_str().is_empty() {
            let pv: String = match &g.preferred_version {
                Some(p) => p.clone(),
                None => {
                    if g.versions.len() > 0 {
                        g.versions[0].version.clone()
                    } else {
                        String::new()
                    }
                },
            };
            let ghost before = pairs_view(out@);
            proof {
                assert(pv@ == preferred_version_of(g@));
            }
            out.push((g.name.clone(), pv));
            proof {
                assert(pairs_view(out@) =~= before.push((g@.name, preferred_version_of(g@))));
            }
        }
        gi = gi + 1;
    }
    proof {
        assert(discovery@.groups.take(discovery@.groups.len() as int) =~= discovery@.groups);
    }
    out
}

/// The context label for the run. `None` as input means no client
/// configuration could be read at all: that case is recovered with the
/// fixed `in-cluster` label. A configuration that was read but names no
/// current context is the one fatal case, reported as `None`.
pub fn context_label(current_context: Option<Option<String>>) -> (r: Option<String>)
    ensures
        match current_context {
            Option::None => r matches Option::Some(s) && s@ == "in-cluster"@,
            Option::Some(Option::None) => r is None,
            Option::Some(Option::Some(c)) => r == Option::Some(c),
        },
{
    match current_context {
        None => Some(String::from_str("in-cluster")),
        Some(None) => None,
        Some(Some(c)) => Some(c),
    }
}

/// The cluster version read from a version-info document: the value of its
/// `gitVersion` field, which must be a string. Anything else is reported as
/// `None`, the fatal case.
pub fn version_from_info(info: &JsonValue) -> (r: Option<String>)
    ensures
        match r {
            Option::Some(s) => info is Object && text_of(
                lookup_key(fields_view(info->Object_0@), "gitVersion"@),
            ) == Option::Some(s@),
            Option::None => !(info is Object) || text_of(
                lookup_key(fields_view(info->Object_0@), "gitVersion"@),
            ) is None,
        },
{
    match info {
        JsonValue::Object(fields) => {
            match crate::json::find_field(fields, &String::from_str("gitVersion")) {
                Some(JsonValue::Text(s)) => Some(s.clone()),
                _ => None,
            }
        },
        _ => None,
    }
}

/// The run's metadata document, as persisted.
pub struct Metadata {
    /// Cluster version string.
    pub kube_version: String,
    /// Resolved context label, or `in-cluster`.
    pub context_name: String,
    /// All API version strings, sorted lexically.
    pub api_versions: Vec<String>,
    /// Non-core groups with their preferred versions.
    pub preferred_versions: Vec<(String, String)>,
    /// The full resource catalog.
    pub api_resources: Vec<MyApiResource>,
}

/// Assemble the metadata document from the cluster version, the context
/// label and the discovery snapshot. Computable whether or not any listing
/// succeeds.
pub fn build_metadata(
    kube_version: String,
    context_name: String,
    discovery: &DiscoverySnapshot,
    table: &AugmentationTable,
    synthetic: &Vec<MyApiResource>,
) -> (m: Metadata)
    ensures
        m.kube_version == kube_version,
        m.context_name == context_name,
        sorted_views(m.api_versions@),
        views_of(m.api_versions@).to_multiset() == api_versions_spec(
            discovery@.groups,
        ).to_multiset(),
        pairs_view(m.preferred_versions@) == preferred_versions_spec(discovery@.groups),
        catalog_view(m.api_resources@) == catalog_spec(discovery@, table@, catalog_view(synthetic@)),
{
    Metadata {
        kube_version,
        context_name,
        api_versions: api_versions(discovery),
        preferred_versions: preferred_api_versions(discovery),
        api_resources: api_resources(discovery, table, synthetic),
    }
}

} // verus!
