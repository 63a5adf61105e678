//! The discovery snapshot: what the cluster reports about its API groups,
//! versions, and resource types.
//!
//! The snapshot is plain data. The caller obtains it from the cluster and
//! converts it into these types; everything computed from it here is
//! verified against the ghost models below.

use vstd::prelude::*;
use vstd::string::StringExecFns;
use crate::verbs::view_set;

verus! {

/// A secondary facet of a resource type (for example `status` or `scale`).
pub struct SubResource {
    /// The subresource's own plural name (without the parent prefix).
    pub plural: String,
    /// The full api-version string the subresource belongs to.
    pub api_version: String,
    /// The subresource's object kind.
    pub kind: String,
    /// Whether instances live inside a namespace.
    pub namespaced: bool,
    /// The verbs the cluster reports for the subresource.
    pub verbs: Vec<String>,
}

/// One resource type of one group version, as the cluster reports it.
pub struct DiscoveredResource {
    /// Plural name, e.g. `pods`.
    pub plural: String,
    /// Full api-version string: `group/version`, or bare `version` for the
    /// core group.
    pub api_version: String,
    /// Bare group name; empty for the core group.
    pub group: String,
    /// Object kind, e.g. `Pod`.
    pub kind: String,
    /// Whether instances live inside a namespace.
    pub namespaced: bool,
    /// The verbs the cluster reports.
    pub verbs: Vec<String>,
    /// The subresources this resource type declares.
    pub subresources: Vec<SubResource>,
}

/// The resource types one version of a group offers.
pub struct VersionResources {
    /// The version string, e.g. `v1` or `v1beta1`.
    pub version: String,
    /// The resource types of this version.
    pub resources: Vec<DiscoveredResource>,
}

/// One API group with all its discovered versions.
pub struct ApiGroupData {
    /// Group name; empty for the core/legacy group.
    pub name: String,
    /// The version the group declares as preferred, if any.
    pub preferred_version: Option<String>,
    /// The group's versions, best first, as the cluster orders them.
    pub versions: Vec<VersionResources>,
}

/// Everything discovery reported, read-only input to the catalog builder.
pub struct DiscoverySnapshot {
    /// All discovered groups.
    pub groups: Vec<ApiGroupData>,
}

/// Ghost model of a subresource.
pub ghost struct SubResourceModel {
    pub plural: Seq<char>,
    pub api_version: Seq<char>,
    pub kind: Seq<char>,
    pub namespaced: bool,
    pub verbs: Set<Seq<char>>,
}

/// Ghost model of a discovered resource type.
pub ghost struct ResourceModel {
    pub plural: Seq<char>,
    pub api_version: Seq<char>,
    pub group: Seq<char>,
    pub kind: Seq<char>,
    pub namespaced: bool,
    pub verbs: Set<Seq<char>>,
    pub subresources: Seq<SubResourceModel>,
}

/// Ghost model of one version of a group.
pub ghost struct VersionModel {
    pub version: Seq<char>,
    pub resources: Seq<ResourceModel>,
}

/// Ghost model of a group.
pub ghost struct GroupModel {
    pub name: Seq<char>,
    pub preferred_version: Option<Seq<char>>,
    pub versions: Seq<VersionModel>,
}

/// Ghost model of the whole snapshot.
pub ghost struct SnapshotModel {
    pub groups: Seq<GroupModel>,
}

impl View for SubResource {
    type V = SubResourceModel;

    open spec fn view(&self) -> SubResourceModel {
        SubResourceModel {
            plural: self.plural@,
            api_version: self.api_version@,
            kind: self.kind@,
            namespaced: self.namespaced,
            verbs: view_set(self.verbs@),
        }
    }
}

impl View for DiscoveredResource {
    type V = ResourceModel;

    open spec fn view(&self) -> ResourceModel {
        ResourceModel {
            plural: self.plural@,
            api_version: self.api_version@,
            group: self.group@,
            kind: self.kind@,
            namespaced: self.namespaced,
            verbs: view_set(self.verbs@),
            subresources: self.subresources@.map_values(|s: SubResource| s@),
        }
    }
}

impl View for VersionResources {
    type V = VersionModel;

    open spec fn view(&self) -> VersionModel {
        VersionModel {
            version: self.version@,
            resources: self.resources@.map_values(|r: DiscoveredResource| r@),
        }
    }
}

impl View for ApiGroupData {
    type V = GroupModel;

    open spec fn view(&self) -> GroupModel {
        GroupModel {
            name: self.name@,
            preferred_version: match self.preferred_version {
                Option::Some(p) => Option::Some(p@),
                Option::None => Option::None,
            },
            versions: self.versions@.map_values(|v: VersionResources| v@),
        }
    }
}

impl View for DiscoverySnapshot {
    type V = SnapshotModel;

    open spec fn view(&self) -> SnapshotModel {
        SnapshotModel { groups: self.groups@.map_values(|g: ApiGroupData| g@) }
    }
}

/// The version of a group whose resources clients should use by default:
/// the declared preferred version, or the first (best) listed version when
/// none is declared. Meaningless for a group without versions, which
/// contributes nothing anywhere.
pub open spec fn preferred_version_of(g: GroupModel) -> Seq<char> {
    match g.preferred_version {
        Option::Some(p) => p,
        Option::None => if g.versions.len() > 0 {
            g.versions[0].version
        } else {
            Seq::empty()
        },
    }
}

/// Whether a group denotes the core/legacy group.
pub open spec fn is_core_group(g: GroupModel) -> bool {
    g.name.len() == 0
}

/// The index of the first version of `vs` whose version string equals
/// `pref`: the version whose resources are the group's recommended ones.
pub open spec fn first_version_match(vs: Seq<VersionModel>, pref: Seq<char>) -> Option<int>
    decreases vs.len(),
{
    if vs.len() == 0 {
        Option::None
    } else if vs[0].version == pref {
        Option::Some(0)
    } else {
        match first_version_match(vs.drop_first(), pref) {
            Option::Some(i) => Option::Some(i + 1),
            Option::None => Option::None,
        }
    }
}

/// The index of the version holding the group's recommended resources.
pub open spec fn recommended_version_index(g: GroupModel) -> Option<int> {
    first_version_match(g.versions, preferred_version_of(g))
}

/// The index of the last resource of `rs` whose kind is `Namespace`.
pub open spec fn last_namespace_index(rs: Seq<ResourceModel>) -> Option<int>
    decreases rs.len(),
{
    if rs.len() == 0 {
        Option::None
    } else if rs.last().kind == "Namespace"@ {
        Option::Some(rs.len() - 1)
    } else {
        last_namespace_index(rs.drop_last())
    }
}

/// Which resource type the namespace list is read from: walking the groups
/// in order, every core group's recommended `Namespace` resource is
/// considered and the last one found wins, mirroring how repeated discovery
/// matches overwrite one another.
pub open spec fn namespace_source_spec(groups: Seq<GroupModel>) -> Option<(int, int, int)>
    decreases groups.len(),
{
    if groups.len() == 0 {
        Option::None
    } else {
        let rest = namespace_source_spec(groups.drop_last());
        let g = groups.last();
        if is_core_group(g) {
            match recommended_version_index(g) {
                Option::Some(vi) => match last_namespace_index(g.versions[vi].resources) {
                    Option::Some(ri) => Option::Some(((groups.len() - 1) as int, vi, ri)),
                    Option::None => rest,
                },
                Option::None => rest,
            }
        } else {
            rest
        }
    }
}

/// Find the index of the version holding `g`'s recommended resources.
pub fn recommended_index(g: &ApiGroupData) -> (r: Option<usize>)
    ensures
        match r {
            Option::Some(i) => i < g.versions.len() && recommended_version_index(g@)
                == Option::Some(i as int),
            Option::None => recommended_version_index(g@) == Option::<int>::None,
        },
{
    let pref: &String = match &g.preferred_version {
        Option::Some(p) => p,
        Option::None => {
            if g.versions.len() > 0 {
                &g.versions[0].version
            } else {
                proof {
                    assert(g@.versions.len() == 0);
                }
                return None;
            }
        },
    };
    proof {
        assert(pref@ == preferred_version_of(g@));
        assert(g@.versions.skip(0) =~= g@.versions);
    }
    let mut i: usize = 0;
    while i < g.versions.len()
        invariant
            0 <= i <= g@.versions.len(),
            pref@ == preferred_version_of(g@),
            forall|j: int| 0 <= j < i ==> g@.versions[j].version != pref@,
            first_version_match(g@.versions.skip(i as int), pref@) matches Option::Some(k)
                ==> first_version_match(g@.versions, pref@) == Option::Some(k + i as int),
            first_version_match(g@.versions.skip(i as int), pref@) is None
                ==> first_version_match(g@.versions, pref@) is None,
        decreases g@.versions.len() - i,
    {
        proof {
            assert(g@.versions.skip(i as int)[0] == g@.versions[i as int]);
            assert(g@.versions.skip(i as int).drop_first() =~= g@.versions.skip(i + 1));
        }
        if g.versions[i].version.eq(pref) {
            return Some(i);
        }
        i = i + 1;
    }
    proof {
        assert(g@.versions.skip(i as int).len() == 0);
    }
    None
}

/// Locate the resource type whose listing supplies the namespace names:
/// group index, version index, and resource index into the snapshot, or
/// `None` when no core group offers a recommended `Namespace` resource.
pub fn namespace_source(snap: &DiscoverySnapshot) -> (r: Option<(usize, usize, usize)>)
    ensures
        match r {
            Option::Some(t) => namespace_source_spec(snap@.groups) == Option::Some(
                (t.0 as int, t.1 as int, t.2 as int),
            ),
            Option::None => namespace_source_spec(snap@.groups) == Option::<(int, int, int)>::None,
        },
{
    let mut found: Option<(usize, usize, usize)> = None;
    let mut gi: usize = 0;
    while gi < snap.groups.len()
        invariant
            0 <= gi <= snap@.groups.len(),
            match found {
                Option::Some(t) => namespace_source_spec(snap@.groups.take(gi as int))
                    == Option::Some((t.0 as int, t.1 as int, t.2 as int)),
                Option::None => namespace_source_spec(snap@.groups.take(gi as int)) == Option::<(
                    int,
                    int,
                    int,
                )>::None,
            },
        decreases snap@.groups.len() - gi,
    {
        let g = &snap.groups[gi];
        proof {
            assert(snap@.groups.take(gi + 1).drop_last() =~= snap@.groups.take(gi as int));
            assert(snap@.groups.take(gi + 1).last() == snap@.groups[gi as int]);
        }
        if g.name.as_str().is_empty() {
            if let Some(vi) = recommended_index(g) {
                proof {
                    assert(g@.versions[vi as int].resources == g.versions@[vi as int]@.resources);
                }
                if let Some(ri) = last_namespace_in(&g.versions[vi].resources) {
                    found = Some((gi, vi, ri));
                }
            }
        }
        gi = gi + 1;
    }
    proof {
        assert(snap@.groups.take(snap@.groups.len() as int) =~= snap@.groups);
    }
    found
}

/// Find the last resource of `rs` whose kind is `Namespace`.
fn last_namespace_in(rs: &Vec<DiscoveredResource>) -> (r: Option<usize>)
    ensures
        match r {
            Option::Some(i) => i < rs.len() && last_namespace_index(
                rs@.map_values(|x: DiscoveredResource| x@),
            ) == Option::Some(i as int),
            Option::None => last_namespace_index(rs@.map_values(|x: DiscoveredResource| x@))
                == Option::<int>::None,
        },
{
    let target = String::from_str("Namespace");
    let ghost rsm = rs@.map_values(|x: DiscoveredResource| x@);
    proof {
        assert(rsm.take(rs@.len() as int) =~= rsm);
    }
    let mut i: usize = rs.len();
    while i > 0
        invariant
            0 <= i <= rs@.len(),
            target@ == "Namespace"@,
            rsm == rs@.map_values(|x: DiscoveredResource| x@),
            last_namespace_index(rsm.take(i as int)) == last_namespace_index(rsm),
        decreases i,
    {
        i = i - 1;
        proof {
            assert(rsm.take(i + 1).drop_last() =~= rsm.take(i as int));
            assert(rsm.take(i + 1).last() == rsm[i as int]);
        }
        if rs[i].kind.eq(&target) {
            return Some(i);
        }
    }
    proof {
        assert(rsm.take(0) =~= Seq::<ResourceModel>::empty());
    }
    None
}

} // verus!
