//! Building the resource catalog: every discovered resource type of every
//! group version, verb augmentation, subresource entries, and the synthetic
//! resources injected when discovery does not surface them.

use vstd::prelude::*;
use vstd::string::StringExecFns;
use crate::discovery::{
    DiscoveredResource, DiscoverySnapshot, GroupModel, ResourceModel, SnapshotModel, SubResource,
    SubResourceModel, VersionModel, preferred_version_of,
};
use crate::verbs::{merge_vecs, view_set, views_of};

verus! {

/// One catalog entry, shaped exactly as the metadata file records it.
pub struct MyApiResource {
    /// Plural name; subresources get `"<parent>/<sub>"`.
    pub name: String,
    /// Whether instances live inside a namespace.
    pub namespaced: bool,
    /// Full api-version string the entry belongs to.
    pub group: String,
    /// Object kind.
    pub kind: String,
    /// Effective verbs; order carries no meaning.
    pub verbs: Vec<String>,
    /// Whether the entry's version is its group's preferred version.
    pub preferred: bool,
}

/// Ghost model of a catalog entry: strings as character sequences, verbs as
/// the set they denote.
pub ghost struct DescriptorModel {
    pub name: Seq<char>,
    pub namespaced: bool,
    pub group: Seq<char>,
    pub kind: Seq<char>,
    pub verbs: Set<Seq<char>>,
    pub preferred: bool,
}

impl View for MyApiResource {
    type V = DescriptorModel;

    open spec fn view(&self) -> DescriptorModel {
        DescriptorModel {
            name: self.name@,
            namespaced: self.namespaced,
            group: self.group@,
            kind: self.kind@,
            verbs: view_set(self.verbs@),
            preferred: self.preferred,
        }
    }
}

/// The catalog as a sequence of entry models.
pub open spec fn catalog_view(s: Seq<MyApiResource>) -> Seq<DescriptorModel> {
    s.map_values(|m: MyApiResource| m@)
}

/// Static table of extra verbs implied by the authorization model, keyed by
/// plural name alone, independent of group.
pub struct AugmentationTable {
    /// Pairs of plural name and the verbs to add for it.
    pub entries: Vec<(String, Vec<String>)>,
}

impl View for AugmentationTable {
    type V = Seq<(Seq<char>, Set<Seq<char>>)>;

    open spec fn view(&self) -> Seq<(Seq<char>, Set<Seq<char>>)> {
        self.entries@.map_values(|p: (String, Vec<String>)| (p.0@, view_set(p.1@)))
    }
}

/// The first table entry for `plural`, if any.
pub open spec fn table_lookup(
    t: Seq<(Seq<char>, Set<Seq<char>>)>,
    plural: Seq<char>,
) -> Option<Set<Seq<char>>>
    decreases t.len(),
{
    if t.len() == 0 {
        Option::None
    } else if t[0].0 == plural {
        Option::Some(t[0].1)
    } else {
        table_lookup(t.drop_first(), plural)
    }
}

/// The verb set a resource ends up with: its native verbs, plus the table's
/// verbs when its plural name is listed there.
pub open spec fn effective_verbs(
    t: Seq<(Seq<char>, Set<Seq<char>>)>,
    plural: Seq<char>,
    native: Set<Seq<char>>,
) -> Set<Seq<char>> {
    match table_lookup(t, plural) {
        Option::Some(extra) => native.union(extra),
        Option::None => native,
    }
}

/// The catalog entry for a resource type itself.
pub open spec fn main_descriptor(
    r: ResourceModel,
    t: Seq<(Seq<char>, Set<Seq<char>>)>,
    preferred: bool,
) -> DescriptorModel {
    DescriptorModel {
        name: r.plural,
        namespaced: r.namespaced,
        group: r.api_version,
        kind: r.kind,
        verbs: effective_verbs(t, r.plural, r.verbs),
        preferred,
    }
}

/// The catalog entry for one subresource of `r`: compound name, the
/// subresource's own capabilities, the parent's preferred flag, and no verb
/// augmentation.
pub open spec fn sub_descriptor(
    r: ResourceModel,
    s: SubResourceModel,
    preferred: bool,
) -> DescriptorModel {
    DescriptorModel {
        name: r.plural + "/"@ + s.plural,
        namespaced: s.namespaced,
        group: s.api_version,
        kind: s.kind,
        verbs: s.verbs,
        preferred,
    }
}

/// All entries one resource type contributes: itself, then its subresources.
pub open spec fn resource_entries(
    r: ResourceModel,
    t: Seq<(Seq<char>, Set<Seq<char>>)>,
    preferred: bool,
) -> Seq<DescriptorModel> {
    seq![main_descriptor(r, t, preferred)] + r.subresources.map_values(
        |s: SubResourceModel| sub_descriptor(r, s, preferred),
    )
}

/// Entries of a sequence of resource types, in order.
pub open spec fn resources_entries(
    rs: Seq<ResourceModel>,
    t: Seq<(Seq<char>, Set<Seq<char>>)>,
    preferred: bool,
) -> Seq<DescriptorModel>
    decreases rs.len(),
{
    if rs.len() == 0 {
        Seq::empty()
    } else {
        resources_entries(rs.drop_last(), t, preferred) + resource_entries(rs.last(), t, preferred)
    }
}

/// Entries of a group's versions, each version's entries flagged preferred
/// exactly when its version string equals `pref`.
pub open spec fn versions_entries(
    vs: Seq<VersionModel>,
    pref: Seq<char>,
    t: Seq<(Seq<char>, Set<Seq<char>>)>,
) -> Seq<DescriptorModel>
    decreases vs.len(),
{
    if vs.len() == 0 {
        Seq::empty()
    } else {
        versions_entries(vs.drop_last(), pref, t) + resources_entries(
            vs.last().resources,
            t,
            vs.last().version == pref,
        )
    }
}

/// All entries one group contributes.
pub open spec fn group_entries(
    g: GroupModel,
    t: Seq<(Seq<char>, Set<Seq<char>>)>,
) -> Seq<DescriptorModel> {
    versions_entries(g.versions, preferred_version_of(g), t)
}

/// All entries the discovered groups contribute, in order.
pub open spec fn groups_entries(
    gs: Seq<GroupModel>,
    t: Seq<(Seq<char>, Set<Seq<char>>)>,
) -> Seq<DescriptorModel>
    decreases gs.len(),
{
    if gs.len() == 0 {
        Seq::empty()
    } else {
        groups_entries(gs.drop_last(), t) + group_entries(gs.last(), t)
    }
}

/// The catalog before synthetic injection.
pub open spec fn discovered_entries(
    snap: SnapshotModel,
    t: Seq<(Seq<char>, Set<Seq<char>>)>,
) -> Seq<DescriptorModel> {
    groups_entries(snap.groups, t)
}

/// Whether some entry of `s` carries `name`.
pub open spec fn has_name(s: Seq<DescriptorModel>, name: Seq<char>) -> bool {
    exists|i: int| 0 <= i < s.len() && s[i].name == name
}

/// Append each synthetic entry, in order, unless the accumulated catalog
/// already holds an entry of the same name.
pub open spec fn inject_synthetics(
    s: Seq<DescriptorModel>,
    synth: Seq<DescriptorModel>,
) -> Seq<DescriptorModel>
    decreases synth.len(),
{
    if synth.len() == 0 {
        s
    } else {
        let t = inject_synthetics(s, synth.drop_last());
        if has_name(t, synth.last().name) {
            t
        } else {
            t.push(synth.last())
        }
    }
}

/// The full catalog: discovered entries, then injected synthetics.
pub open spec fn catalog_spec(
    snap: SnapshotModel,
    t: Seq<(Seq<char>, Set<Seq<char>>)>,
    synth: Seq<DescriptorModel>,
) -> Seq<DescriptorModel> {
    inject_synthetics(discovered_entries(snap, t), synth)
}

/// Build a one-verb list.
fn one_verb(a: &str) -> (r: Vec<String>)
    ensures
        view_set(r@) == set![a@],
{
    let mut r: Vec<String> = Vec::new();
    r.push(String::from_str(a));
    proof {
        assert forall|z: Seq<char>| view_set(r@).contains(z) implies set![a@].contains(z) by {
            crate::verbs::lemma_view_set_elems(r@);
        }
        assert(view_set(r@).contains(a@)) by {
            crate::verbs::lemma_view_set_elems(r@);
            assert(r@[0]@ == a@);
        }
        assert(view_set(r@) =~= set![a@]);
    }
    r
}

/// Build a two-verb list.
fn two_verbs(a: &str, b: &str) -> (r: Vec<String>)
    ensures
        view_set(r@) == set![a@, b@],
{
    let mut r: Vec<String> = Vec::new();
    r.push(String::from_str(a));
    r.push(String::from_str(b));
    proof {
        assert forall|z: Seq<char>| view_set(r@).contains(z) implies set![a@, b@].contains(z) by {
            crate::verbs::lemma_view_set_elems(r@);
        }
        assert(view_set(r@).contains(a@)) by {
            crate::verbs::lemma_view_set_elems(r@);
            assert(r@[0]@ == a@);
        }
        assert(view_set(r@).contains(b@)) by {
            crate::verbs::lemma_view_set_elems(r@);
            assert(r@[1]@ == b@);
        }
        assert(view_set(r@) =~= set![a@, b@]);
    }
    r
}

/// The augmentation table the system runs with: RBAC `bind`/`escalate` on
/// role resources and `impersonate` on identity-like resources.
pub open spec fn default_augmentations_spec() -> Seq<(Seq<char>, Set<Seq<char>>)> {
    seq![
        ("roles"@, set!["bind"@, "escalate"@]),
        ("clusterroles"@, set!["bind"@, "escalate"@]),
        ("serviceaccounts"@, set!["impersonate"@]),
        ("users"@, set!["impersonate"@]),
        ("groups"@, set!["impersonate"@]),
    ]
}

/// Build the default augmentation table.
pub fn default_augmentations() -> (t: AugmentationTable)
    ensures
        t@ == default_augmentations_spec(),
{
    let mut entries: Vec<(String, Vec<String>)> = Vec::new();
    entries.push((String::from_str("roles"), two_verbs("bind", "escalate")));
    entries.push((String::from_str("clusterroles"), two_verbs("bind", "escalate")));
    entries.push((String::from_str("serviceaccounts"), one_verb("impersonate")));
    entries.push((String::from_str("users"), one_verb("impersonate")));
    entries.push((String::from_str("groups"), one_verb("impersonate")));
    let t = AugmentationTable { entries };
    proof {
        assert(t@ =~= default_augmentations_spec());
    }
    t
}

/// The synthetic entries the system runs with: `users`, `groups` and
/// `signers`, which exist in the authorization and cert-signing model but
/// have no listable API object.
pub open spec fn default_synthetics_spec() -> Seq<DescriptorModel> {
    seq![
        (DescriptorModel {
            name: "users"@,
            namespaced: false,
            group: ""@,
            kind: "User"@,
            verbs: set!["impersonate"@],
            preferred: true,
        }),
        (DescriptorModel {
            name: "groups"@,
            namespaced: false,
            group: ""@,
            kind: "Group"@,
            verbs: set!["impersonate"@],
            preferred: true,
        }),
        (DescriptorModel {
            name: "signers"@,
            namespaced: false,
            group: "certificates.k8s.io/v1"@,
            kind: "Signer"@,
            verbs: set!["approve"@, "sign"@],
            preferred: true,
        }),
    ]
}

/// Build the default synthetic entries.
pub fn default_synthetics() -> (r: Vec<MyApiResource>)
    ensures
        catalog_view(r@) == default_synthetics_spec(),
{
    let mut r: Vec<MyApiResource> = Vec::new();
    r.push(
        MyApiResource {
            name: String::from_str("users"),
            namespaced: false,
            group: String::from_str(""),
            kind: String::from_str("User"),
            verbs: one_verb("impersonate"),
            preferred: true,
        },
    );
    r.push(
        MyApiResource {
            name: String::from_str("groups"),
            namespaced: false,
            group: String::from_str(""),
            kind: String::from_str("Group"),
            verbs: one_verb("impersonate"),
            preferred: true,
        },
    );
    r.push(
        MyApiResource {
            name: String::from_str("signers"),
            namespaced: false,
            group: String::from_str("certificates.k8s.io/v1"),
            kind: String::from_str("Signer"),
            verbs: two_verbs("approve", "sign"),
            preferred: true,
        },
    );
    proof {
        assert(catalog_view(r@) =~= default_synthetics_spec());
    }
    r
}

/// Copy a vector of verb strings.
fn clone_verbs(v: &Vec<String>) -> (r: Vec<String>)
    ensures
        views_of(r@) == views_of(v@),
        r@.len() == v@.len(),
{
    let mut r: Vec<String> = Vec::new();
    let mut i: usize = 0;
    while i < v.len()
        invariant
            0 <= i <= v@.len(),
            r@.len() == i,
            forall|j: int| 0 <= j < i ==> r@[j]@ == v@[j]@,
        decreases v@.len() - i,
    {
        r.push(v[i].clone());
        i = i + 1;
    }
    proof {
        assert(views_of(r@) =~= views_of(v@));
    }
    r
}

/// Find the extra verbs for `plural` in the augmentation table.
fn lookup_table<'a>(table: &'a AugmentationTable, plural: &String) -> (r: Option<&'a Vec<String>>)
    ensures
        match r {
            Option::Some(v) => table_lookup(table@, plural@) == Option::Some(view_set(v@)),
            Option::None => table_lookup(table@, plural@) is None,
        },
{
    proof {
        assert(table@.skip(0) =~= table@);
    }
    let mut i: usize = 0;
    while i < table.entries.len()
        invariant
            0 <= i <= table@.len(),
            table@.len() == table.entries@.len(),
            table_lookup(table@.skip(i as int), plural@) == table_lookup(table@, plural@),
        decreases table@.len() - i,
    {
        proof {
            assert(table@.skip(i as int)[0] == table@[i as int]);
            assert(table@.skip(i as int).drop_first() =~= table@.skip(i + 1));
        }
        if table.entries[i].0.eq(plural) {
            return Some(&table.entries[i].1);
        }
        i = i + 1;
    }
    proof {
        assert(table@.skip(i as int).len() == 0);
    }
    None
}

/// Build the catalog entry for a resource type, applying verb augmentation.
fn build_main(res: &DiscoveredResource, table: &AugmentationTable, preferred: bool) -> (d:
    MyApiResource)
    ensures
        d@ == main_descriptor(res@, table@, preferred),
{
    let verbs = match lookup_table(table, &res.plural) {
        Some(extra) => merge_vecs(clone_verbs(&res.verbs), clone_verbs(extra)),
        None => clone_verbs(&res.verbs),
    };
    MyApiResource {
        name: res.plural.clone(),
        namespaced: res.namespaced,
        group: res.api_version.clone(),
        kind: res.kind.clone(),
        verbs,
        preferred,
    }
}

/// Build the catalog entry for one subresource of `res`.
fn build_sub(res: &DiscoveredResource, sub: &SubResource, preferred: bool) -> (d: MyApiResource)
    ensures
        d@ == sub_descriptor(res@, sub@, preferred),
{
    let mut name = res.plural.clone();
    name.append("/");
    name.append(sub.plural.as_str());
    MyApiResource {
        name,
        namespaced: sub.namespaced,
        group: sub.api_version.clone(),
        kind: sub.kind.clone(),
        verbs: clone_verbs(&sub.verbs),
        preferred,
    }
}

/// Whether the accumulated catalog already holds an entry named `name`.
fn catalog_has_name(out: &Vec<MyApiResource>, name: &String) -> (r: bool)
    ensures
        r == has_name(catalog_view(out@), name@),
{
    let mut i: usize = 0;
    while i < out.len()
        invariant
            0 <= i <= out@.len(),
            forall|j: int| 0 <= j < i ==> catalog_view(out@)[j].name != name@,
        decreases out@.len() - i,
    {
        if out[i].name.eq(name) {
            proof {
                assert(catalog_view(out@)[i as int].name == name@);
            }
            return true;
        }
        i = i + 1;
    }
    proof {
        assert(!has_name(catalog_view(out@), name@));
    }
    false
}

/// Copy a catalog entry.
fn copy_descriptor(m: &MyApiResource) -> (r: MyApiResource)
    ensures
        r@ == m@,
{
    MyApiResource {
        name: m.name.clone(),
        namespaced: m.namespaced,
        group: m.group.clone(),
        kind: m.kind.clone(),
        verbs: clone_verbs(&m.verbs),
        preferred: m.preferred,
    }
}

/// Build the full resource catalog from a discovery snapshot, an
/// augmentation table and a list of synthetic entries: every resource type
/// of every version of every group contributes itself and its subresources,
/// table-listed plural names get their extra verbs merged in, entries of a
/// group's preferred version are flagged, and each synthetic entry is
/// appended unless a same-named entry already exists anywhere in the
/// accumulated catalog.
pub fn api_resources(
    discovery: &DiscoverySnapshot,
    table: &AugmentationTable,
    synthetic: &Vec<MyApiResource>,
) -> (r: Vec<MyApiResource>)
    ensures
        catalog_view(r@) == catalog_spec(discovery@, table@, catalog_view(synthetic@)),
{
    let mut out: Vec<MyApiResource> = Vec::new();
    proof {
        assert(catalog_view(out@) =~= Seq::<DescriptorModel>::empty());
    }
    let mut gi: usize = 0;
    while gi < discovery.groups.len()
        invariant
            0 <= gi <= discovery@.groups.len(),
            catalog_view(out@) == groups_entries(discovery@.groups.take(gi as int), table@),
        decreases discovery@.groups.len() - gi,
    {
        let g = &discovery.groups[gi];
        proof {
            assert(discovery@.groups.take(gi + 1).drop_last() =~= discovery@.groups.take(
                gi as int,
            ));
            assert(discovery@.groups.take(gi + 1).last() == g@);
        }
        let ghost base = catalog_view(out@);
        if g.versions.len() > 0 {
            let pref: &String = match &g.preferred_version {
                Some(p) => p,
                None => &g.versions[0].version,
            };
            proof {
                assert(pref@ == preferred_version_of(g@));
            }
            let mut vi: usize = 0;
            while vi < g.versions.len()
                invariant
                    0 <= vi <= g@.versions.len(),
                    pref@ == preferred_version_of(g@),
                    catalog_view(out@) == base + versions_entries(
                        g@.versions.take(vi as int),
                        pref@,
                        table@,
                    ),
                decreases g@.versions.len() - vi,
            {
                let v = &g.versions[vi];
                proof {
                    assert(g@.versions.take(vi + 1).drop_last() =~= g@.versions.take(vi as int));
                    assert(g@.versions.take(vi + 1).last() == v@);
                }
                let preferred = v.version.eq(pref);
                let ghost vbase = catalog_view(out@);
                let mut ri: usize = 0;
                while ri < v.resources.len()
                    invariant
                        0 <= ri <= v@.resources.len(),
                        catalog_view(out@) == vbase + resources_entries(
                            v@.resources.take(ri as int),
                            table@,
                            preferred,
                        ),
                    decreases v@.resources.len() - ri,
                {
                    let res = &v.resources[ri];
                    proof {
                        assert(v@.resources.take(ri + 1).drop_last() =~= v@.resources.take(
                            ri as int,
                        ));
                        assert(v@.resources.take(ri + 1).last() == res@);
                    }
                    let ghost rbase = catalog_view(out@);
                    let d = build_main(res, table, preferred);
                    out.push(d);
                    proof {
                        assert(catalog_view(out@) =~= rbase.push(
                            main_descriptor(res@, table@, preferred),
                        ));
                        assert(rbase.push(main_descriptor(res@, table@, preferred)) =~= rbase
                            + seq![main_descriptor(res@, table@, preferred)]);
                    }
                    let ghost mbase = catalog_view(out@);
                    let mut si: usize = 0;
                    while si < res.subresources.len()
                        invariant
                            0 <= si <= res@.subresources.len(),
                            catalog_view(out@) == mbase + res@.subresources.take(
                                si as int,
                            ).map_values(
                                |s: SubResourceModel| sub_descriptor(res@, s, preferred),
                            ),
                        decreases res@.subresources.len() - si,
                    {
                        let sd = build_sub(res, &res.subresources[si], preferred);
                        let ghost sbase = catalog_view(out@);
                        out.push(sd);
                        proof {
                            assert(res@.subresources[si as int] == res.subresources@[si as int]@);
                            assert(catalog_view(out@) =~= sbase.push(
                                sub_descriptor(res@, res@.subresources[si as int], preferred),
                            ));
                            assert(res@.subresources.take(si + 1) =~= res@.subresources.take(
                                si as int,
                            ).push(res@.subresources[si as int]));
                            assert(res@.subresources.take(si + 1).map_values(
                                |s: SubResourceModel| sub_descriptor(res@, s, preferred),
                            ) =~= res@.subresources.take(si as int).map_values(
                                |s: SubResourceModel| sub_descriptor(res@, s, preferred),
                            ).push(sub_descriptor(res@, res@.subresources[si as int], preferred)));
                            assert(catalog_view(out@) =~= mbase + res@.subresources.take(
                                si + 1,
                            ).map_values(|s: SubResourceModel| sub_descriptor(res@, s, preferred)));
                        }
                        si = si + 1;
                    }
                    proof {
                        assert(res@.subresources.take(res@.subresources.len() as int)
                            =~= res@.subresources);
                        assert(catalog_view(out@) =~= vbase + resources_entries(
                            v@.resources.take(ri + 1),
                            table@,
                            preferred,
                        ));
                    }
                    ri = ri + 1;
                }
                proof {
                    assert(v@.resources.take(v@.resources.len() as int) =~= v@.resources);
                    assert(catalog_view(out@) =~= base + versions_entries(
                        g@.versions.take(vi + 1),
                        pref@,
                        table@,
                    ));
                }
                vi = vi + 1;
            }
            proof {
                assert(g@.versions.take(g@.versions.len() as int) =~= g@.versions);
                assert(catalog_view(out@) =~= groups_entries(
                    discovery@.groups.take(gi + 1),
                    table@,
                ));
            }
        } else {
            proof {
                assert(g@.versions.len() == 0);
                assert(group_entries(g@, table@) =~= Seq::<DescriptorModel>::empty());
                assert(catalog_view(out@) =~= groups_entries(
                    discovery@.groups.take(gi + 1),
                    table@,
                ));
            }
        }
        gi = gi + 1;
    }
    proof {
        assert(discovery@.groups.take(discovery@.groups.len() as int) =~= discovery@.groups);
    }
    let ghost disc = catalog_view(out@);
    let mut si: usize = 0;
    while si < synthetic.len()
        invariant
            0 <= si <= synthetic@.len(),
            disc == discovered_entries(discovery@, table@),
            catalog_view(out@) == inject_synthetics(disc, catalog_view(synthetic@).take(si as int)),
        decreases synthetic@.len() - si,
    {
        let s = &synthetic[si];
        proof {
            assert(catalog_view(synthetic@).take(si + 1).drop_last() =~= catalog_view(
                synthetic@,
            ).take(si as int));
            assert(catalog_view(synthetic@).take(si + 1).last() == s@);
        }
        if !catalog_has_name(&out, &s.name) {
            let ghost before = catalog_view(out@);
            out.push(copy_descriptor(s));
            proof {
                assert(catalog_view(out@) =~= before.push(s@));
            }
        }
        si = si + 1;
    }
    proof {
        assert(catalog_view(synthetic@).take(synthetic@.len() as int) =~= catalog_view(
            synthetic@,
        ));
    }
    out
}

/// The shipped synthetic table names three distinct resources, so the
/// uniqueness law below applies to it.
pub proof fn lemma_default_synthetics_distinct()
    ensures
        distinct_names(default_synthetics_spec()),
{
    reveal_strlit("users");
    reveal_strlit("groups");
    reveal_strlit("signers");
    assert("users"@.len() == 5);
    assert("groups"@.len() == 6);
    assert("signers"@.len() == 7);
}

/// Whether no two entries of `s` share a name.
pub open spec fn distinct_names(s: Seq<DescriptorModel>) -> bool {
    forall|i: int, j: int| 0 <= i < j < s.len() ==> s[i].name != s[j].name
}

/// How many entries of `s` carry `name`.
pub open spec fn count_named(s: Seq<DescriptorModel>, name: Seq<char>) -> nat
    decreases s.len(),
{
    if s.len() == 0 {
        0
    } else {
        count_named(s.drop_last(), name) + (if s.last().name == name {
            1nat
        } else {
            0nat
        })
    }
}

proof fn lemma_count_has(s: Seq<DescriptorModel>, name: Seq<char>)
    ensures
        (count_named(s, name) == 0) <==> !has_name(s, name),
    decreases s.len(),
{
    if s.len() == 0 {
    } else {
        lemma_count_has(s.drop_last(), name);
        if has_name(s, name) {
            let i = choose|i: int| 0 <= i < s.len() && s[i].name == name;
            if i < s.len() - 1 {
                assert(s.drop_last()[i].name == name);
                assert(has_name(s.drop_last(), name));
            }
        }
        if has_name(s.drop_last(), name) {
            let i = choose|i: int| 0 <= i < s.drop_last().len() && s.drop_last()[i].name == name;
            assert(s[i].name == name);
            assert(has_name(s, name));
        }
        if s.last().name == name {
            assert(has_name(s, name));
        }
    }
}

proof fn lemma_has_name_push(s: Seq<DescriptorModel>, d: DescriptorModel, name: Seq<char>)
    ensures
        has_name(s.push(d), name) <==> (has_name(s, name) || d.name == name),
{
    if has_name(s, name) {
        let i = choose|i: int| 0 <= i < s.len() && s[i].name == name;
        assert(s.push(d)[i].name == name);
    }
    if d.name == name {
        assert(s.push(d)[s.len() as int].name == name);
    }
    if has_name(s.push(d), name) {
        let i = choose|i: int| 0 <= i < s.push(d).len() && s.push(d)[i].name == name;
        if i < s.len() {
            assert(s[i].name == name);
        }
    }
}

proof fn lemma_count_push(s: Seq<DescriptorModel>, d: DescriptorModel, name: Seq<char>)
    ensures
        count_named(s.push(d), name) == count_named(s, name) + (if d.name == name {
            1nat
        } else {
            0nat
        }),
{
    assert(s.push(d).drop_last() =~= s);
    assert(s.push(d).last() == d);
}

proof fn lemma_inject_monotone(s: Seq<DescriptorModel>, synth: Seq<DescriptorModel>, name: Seq<char>)
    requires
        has_name(s, name),
    ensures
        has_name(inject_synthetics(s, synth), name),
    decreases synth.len(),
{
    if synth.len() == 0 {
    } else {
        lemma_inject_monotone(s, synth.drop_last(), name);
        let t = inject_synthetics(s, synth.drop_last());
        if !has_name(t, synth.last().name) {
            lemma_has_name_push(t, synth.last(), name);
        }
    }
}

/// Law: a synthetic entry is injected only when no same-named entry exists,
/// and then exactly once. For every name: if discovery surfaced it, the
/// catalog keeps exactly the discovered entries of that name; otherwise the
/// catalog gains one entry of that name when the synthetic table lists it,
/// and none when it does not.
pub proof fn lemma_synthetic_injection(
    s: Seq<DescriptorModel>,
    synth: Seq<DescriptorModel>,
    name: Seq<char>,
)
    requires
        distinct_names(synth),
    ensures
        has_name(s, name) ==> count_named(inject_synthetics(s, synth), name) == count_named(
            s,
            name,
        ),
        !has_name(s, name) && has_name(synth, name) ==> count_named(
            inject_synthetics(s, synth),
            name,
        ) == 1,
        !has_name(s, name) && !has_name(synth, name) ==> count_named(
            inject_synthetics(s, synth),
            name,
        ) == 0,
    decreases synth.len(),
{
    lemma_count_has(s, name);
    if synth.len() == 0 {
    } else {
        let pre = synth.drop_last();
        let d = synth.last();
        assert(distinct_names(pre)) by {
            assert(forall|i: int| 0 <= i < pre.len() ==> pre[i] == synth[i]);
        }
        lemma_synthetic_injection(s, pre, name);
        let t = inject_synthetics(s, pre);
        lemma_count_has(t, name);
        if has_name(pre, name) {
            let i = choose|i: int| 0 <= i < pre.len() && pre[i].name == name;
            assert(synth[i].name == name);
            assert(has_name(synth, name));
        }
        if d.name == name {
            assert(has_name(synth, name)) by {
                assert(synth[synth.len() - 1].name == name);
            }
            assert(!has_name(pre, name)) by {
                if has_name(pre, name) {
                    let i = choose|i: int| 0 <= i < pre.len() && pre[i].name == name;
                    assert(synth[i].name == synth[synth.len() - 1].name);
                }
            }
        }
        if has_name(synth, name) && d.name != name {
            let i = choose|i: int| 0 <= i < synth.len() && synth[i].name == name;
            assert(pre[i].name == name);
            assert(has_name(pre, name));
        }
        if !has_name(t, d.name) {
            lemma_count_push(t, d, name);
            lemma_has_name_push(t, d, name);
        }
    }
}

/// Law, applied to a whole built catalog: when discovery did not surface a
/// synthetic name, the catalog holds at most one entry of that name; when it
/// did, injection never occurs and the discovered entries stand unchanged.
pub proof fn lemma_catalog_synthetic_unique(
    snap: SnapshotModel,
    t: Seq<(Seq<char>, Set<Seq<char>>)>,
    synth: Seq<DescriptorModel>,
    name: Seq<char>,
)
    requires
        distinct_names(synth),
    ensures
        !has_name(discovered_entries(snap, t), name) ==> count_named(
            catalog_spec(snap, t, synth),
            name,
        ) <= 1,
        has_name(discovered_entries(snap, t), name) ==> count_named(
            catalog_spec(snap, t, synth),
            name,
        ) == count_named(discovered_entries(snap, t), name),
{
    lemma_synthetic_injection(discovered_entries(snap, t), synth, name);
}

/// Law, for the catalog the system actually builds (the shipped synthetic
/// table): any name discovery did not surface — `users`, `groups` and
/// `signers` among them — appears at most once in the final catalog, and a
/// name discovery did surface keeps exactly its discovered entries.
pub proof fn lemma_default_catalog_unique(
    snap: SnapshotModel,
    t: Seq<(Seq<char>, Set<Seq<char>>)>,
    name: Seq<char>,
)
    ensures
        !has_name(discovered_entries(snap, t), name) ==> count_named(
            catalog_spec(snap, t, default_synthetics_spec()),
            name,
        ) <= 1,
        has_name(discovered_entries(snap, t), name) ==> count_named(
            catalog_spec(snap, t, default_synthetics_spec()),
            name,
        ) == count_named(discovered_entries(snap, t), name),
{
    lemma_default_synthetics_distinct();
    lemma_catalog_synthetic_unique(snap, t, default_synthetics_spec(), name);
}

proof fn lemma_resources_preferred(
    rs: Seq<ResourceModel>,
    t: Seq<(Seq<char>, Set<Seq<char>>)>,
    p: bool,
)
    ensures
        forall|i: int|
            0 <= i < resources_entries(rs, t, p).len() ==> resources_entries(rs, t, p)[i].preferred
                == p,
    decreases rs.len(),
{
    if rs.len() == 0 {
    } else {
        lemma_resources_preferred(rs.drop_last(), t, p);
        let front = resources_entries(rs.drop_last(), t, p);
        let own = resource_entries(rs.last(), t, p);
        let whole = resources_entries(rs, t, p);
        let subs = rs.last().subresources.map_values(
            |s: SubResourceModel| sub_descriptor(rs.last(), s, p),
        );
        assert forall|i: int| 0 <= i < whole.len() implies whole[i].preferred == p by {
            if i < front.len() {
                assert(whole[i] == front[i]);
            } else {
                let j = i - front.len();
                assert(whole[i] == own[j]);
                if j == 0 {
                    assert(own[0] == main_descriptor(rs.last(), t, p));
                } else {
                    assert(own[j] == subs[j - 1]);
                    assert(subs[j - 1] == sub_descriptor(
                        rs.last(),
                        rs.last().subresources[j - 1],
                        p,
                    ));
                }
            }
        }
    }
}

proof fn lemma_versions_entry_source(
    vs: Seq<VersionModel>,
    pref: Seq<char>,
    t: Seq<(Seq<char>, Set<Seq<char>>)>,
    i: int,
)
    requires
        0 <= i < versions_entries(vs, pref, t).len(),
    ensures
        exists|vi: int|
            0 <= vi < vs.len() && resources_entries(
                vs[vi].resources,
                t,
                vs[vi].version == pref,
            ).contains(versions_entries(vs, pref, t)[i]) && versions_entries(vs, pref, t)[i].preferred
                == (vs[vi].version == pref),
    decreases vs.len(),
{
    let whole = versions_entries(vs, pref, t);
    let front = versions_entries(vs.drop_last(), pref, t);
    let seg = resources_entries(vs.last().resources, t, vs.last().version == pref);
    if i < front.len() {
        lemma_versions_entry_source(vs.drop_last(), pref, t, i);
        let vi = choose|vi: int|
            0 <= vi < vs.drop_last().len() && resources_entries(
                vs.drop_last()[vi].resources,
                t,
                vs.drop_last()[vi].version == pref,
            ).contains(front[i]) && front[i].preferred == (vs.drop_last()[vi].version == pref);
        assert(vs[vi] == vs.drop_last()[vi]);
        assert(whole[i] == front[i]);
    } else {
        let vi = vs.len() - 1;
        lemma_resources_preferred(vs.last().resources, t, vs.last().version == pref);
        assert(whole[i] == seg[i - front.len()]);
        assert(seg.contains(whole[i]));
        assert(whole[i].preferred == (vs[vi].version == pref));
    }
}

/// Law: every entry a group contributes comes from one of the group's
/// versions and is flagged preferred exactly when that version's string is
/// the group's preferred version (the declared one, or the first listed when
/// none is declared).
pub proof fn lemma_group_preferred_marks(g: GroupModel, t: Seq<(Seq<char>, Set<Seq<char>>)>, i: int)
    requires
        0 <= i < group_entries(g, t).len(),
    ensures
        exists|vi: int|
            0 <= vi < g.versions.len() && resources_entries(
                g.versions[vi].resources,
                t,
                g.versions[vi].version == preferred_version_of(g),
            ).contains(group_entries(g, t)[i]) && group_entries(g, t)[i].preferred == (
            g.versions[vi].version == preferred_version_of(g)),
{
    lemma_versions_entry_source(g.versions, preferred_version_of(g), t, i);
}

/// Law: when a group's version strings are distinct, at most one of its
/// versions — the preferred one — can contribute entries flagged preferred.
pub proof fn lemma_one_preferred_version(g: GroupModel)
    requires
        forall|i: int, j: int|
            0 <= i < j < g.versions.len() ==> g.versions[i].version != g.versions[j].version,
    ensures
        forall|i: int, j: int|
            0 <= i < g.versions.len() && 0 <= j < g.versions.len() && g.versions[i].version
                == preferred_version_of(g) && g.versions[j].version == preferred_version_of(g)
                ==> i == j,
{
}

} // verus!
