//! The on-disk shape of the metadata document, and the round trip on it:
//! writing the catalog into the document and reading its `(name, group)`
//! keys back.

use vstd::prelude::*;
use vstd::string::StringExecFns;
use crate::catalog::{DescriptorModel, MyApiResource, catalog_view};
use crate::json::{JsonValue, fields_view, find_field, lookup_key, text_of};
use crate::metadata::{Metadata, pairs_view};
use crate::verbs::views_of;

verus! {

/// The looked-up boolean, if any.
pub open spec fn bool_of(v: Option<JsonValue>) -> Option<bool> {
    match v {
        Option::Some(JsonValue::Bool(b)) => Option::Some(b),
        _ => Option::None,
    }
}

/// The character sequences of an all-text array.
pub open spec fn texts_of(items: Seq<JsonValue>) -> Option<Seq<Seq<char>>>
    decreases items.len(),
{
    if items.len() == 0 {
        Option::Some(Seq::empty())
    } else {
        match (texts_of(items.drop_last()), items.last()) {
            (Option::Some(rest), JsonValue::Text(s)) => Option::Some(rest.push(s@)),
            _ => Option::None,
        }
    }
}

/// The key/value texts of an all-text object.
pub open spec fn obj_texts(fv: Seq<(Seq<char>, JsonValue)>) -> Option<
    Seq<(Seq<char>, Seq<char>)>,
>
    decreases fv.len(),
{
    if fv.len() == 0 {
        Option::Some(Seq::empty())
    } else {
        match (obj_texts(fv.drop_last()), fv.last().1) {
            (Option::Some(rest), JsonValue::Text(s)) => Option::Some(
                rest.push((fv.last().0, s@)),
            ),
            _ => Option::None,
        }
    }
}

/// The descriptor a resource entry of the document decodes to, if it has
/// the persisted shape.
pub open spec fn entry_descriptor(j: JsonValue) -> Option<DescriptorModel> {
    match j {
        JsonValue::Object(fields) => {
            let fv = fields_view(fields@);
            match (
                text_of(lookup_key(fv, "name"@)),
                bool_of(lookup_key(fv, "namespaced"@)),
                text_of(lookup_key(fv, "group"@)),
                text_of(lookup_key(fv, "kind"@)),
                lookup_key(fv, "verbs"@),
                bool_of(lookup_key(fv, "preferred"@)),
            ) {
                (
                    Option::Some(name),
                    Option::Some(namespaced),
                    Option::Some(group),
                    Option::Some(kind),
                    Option::Some(JsonValue::Array(vitems)),
                    Option::Some(preferred),
                ) => match texts_of(vitems@) {
                    Option::Some(vtexts) => Option::Some(
                        DescriptorModel {
                            name,
                            namespaced,
                            group,
                            kind,
                            verbs: vtexts.to_set(),
                            preferred,
                        },
                    ),
                    Option::None => Option::None,
                },
                _ => Option::None,
            }
        },
        _ => Option::None,
    }
}

/// The `(name, group)` key a resource entry decodes to, if any.
pub open spec fn entry_key(j: JsonValue) -> Option<(Seq<char>, Seq<char>)> {
    match j {
        JsonValue::Object(fields) => {
            let fv = fields_view(fields@);
            match (text_of(lookup_key(fv, "name"@)), text_of(lookup_key(fv, "group"@))) {
                (Option::Some(n), Option::Some(g)) => Option::Some((n, g)),
                _ => Option::None,
            }
        },
        _ => Option::None,
    }
}

/// All descriptors of a resource entry array, if every entry decodes.
pub open spec fn descriptors_of_entries(items: Seq<JsonValue>) -> Option<Seq<DescriptorModel>>
    decreases items.len(),
{
    if items.len() == 0 {
        Option::Some(Seq::empty())
    } else {
        match (descriptors_of_entries(items.drop_last()), entry_descriptor(items.last())) {
            (Option::Some(rest), Option::Some(d)) => Option::Some(rest.push(d)),
            _ => Option::None,
        }
    }
}

/// All keys of a resource entry array, if every entry decodes.
pub open spec fn keys_of_entries(items: Seq<JsonValue>) -> Option<Seq<(Seq<char>, Seq<char>)>>
    decreases items.len(),
{
    if items.len() == 0 {
        Option::Some(Seq::empty())
    } else {
        match (keys_of_entries(items.drop_last()), entry_key(items.last())) {
            (Option::Some(rest), Option::Some(k)) => Option::Some(rest.push(k)),
            _ => Option::None,
        }
    }
}

/// The catalog a metadata document records, if it has the persisted shape.
pub open spec fn metadata_resource_descriptors(j: JsonValue) -> Option<Seq<DescriptorModel>> {
    match j {
        JsonValue::Object(fields) => match lookup_key(fields_view(fields@), "api_resources"@) {
            Option::Some(JsonValue::Array(items)) => descriptors_of_entries(items@),
            _ => Option::None,
        },
        _ => Option::None,
    }
}

/// The catalog keys a metadata document records, if it has the shape.
pub open spec fn metadata_resource_keys(j: JsonValue) -> Option<Seq<(Seq<char>, Seq<char>)>> {
    match j {
        JsonValue::Object(fields) => match lookup_key(fields_view(fields@), "api_resources"@) {
            Option::Some(JsonValue::Array(items)) => keys_of_entries(items@),
            _ => Option::None,
        },
        _ => Option::None,
    }
}

/// The `(name, group)` keys of a catalog.
pub open spec fn catalog_keys(ds: Seq<DescriptorModel>) -> Seq<(Seq<char>, Seq<char>)> {
    ds.map_values(|d: DescriptorModel| (d.name, d.group))
}

/// Turn verb strings into a JSON text array.
fn texts_array(v: &Vec<String>) -> (r: Vec<JsonValue>)
    ensures
        texts_of(r@) == Option::Some(views_of(v@)),
{
    let mut r: Vec<JsonValue> = Vec::new();
    proof {
        assert(views_of(v@.take(0)) =~= Seq::<Seq<char>>::empty());
    }
    let mut i: usize = 0;
    while i < v.len()
        invariant
            0 <= i <= v@.len(),
            texts_of(r@) == Option::Some(views_of(v@.take(i as int))),
        decreases v@.len() - i,
    {
        let ghost before = r@;
        r.push(JsonValue::Text(v[i].clone()));
        proof {
            assert(r@.drop_last() =~= before);
            assert(views_of(v@.take(i + 1)) =~= views_of(v@.take(i as int)).push(v@[i as int]@));
        }
        i = i + 1;
    }
    proof {
        assert(v@.take(v@.len() as int) =~= v@);
    }
    r
}

/// Turn the preferred-version pairs into a JSON object's fields.
fn pairs_fields(v: &Vec<(String, String)>) -> (r: Vec<(String, JsonValue)>)
    ensures
        obj_texts(fields_view(r@)) == Option::Some(pairs_view(v@)),
{
    let mut r: Vec<(String, JsonValue)> = Vec::new();
    proof {
        assert(pairs_view(v@.take(0)) =~= Seq::<(Seq<char>, Seq<char>)>::empty());
        assert(fields_view(r@) =~= Seq::<(Seq<char>, JsonValue)>::empty());
    }
    let mut i: usize = 0;
    while i < v.len()
        invariant
            0 <= i <= v@.len(),
            obj_texts(fields_view(r@)) == Option::Some(pairs_view(v@.take(i as int))),
        decreases v@.len() - i,
    {
        let ghost before = fields_view(r@);
        r.push((v[i].0.clone(), JsonValue::Text(v[i].1.clone())));
        proof {
            assert(fields_view(r@).drop_last() =~= before);
            assert(fields_view(r@).last().0 == v@[i as int].0@);
            assert(pairs_view(v@.take(i + 1)) =~= pairs_view(v@.take(i as int)).push(
                (v@[i as int].0@, v@[i as int].1@),
            ));
        }
        i = i + 1;
    }
    proof {
        assert(v@.take(v@.len() as int) =~= v@);
    }
    r
}

/// Write one catalog entry as its persisted JSON object.
fn entry_to_json(res: &MyApiResource) -> (j: JsonValue)
    ensures
        entry_descriptor(j) == Option::Some(res@),
        entry_key(j) == Option::Some((res@.name, res@.group)),
{
    let mut fields: Vec<(String, JsonValue)> = Vec::new();
    fields.push((String::from_str("name"), JsonValue::Text(res.name.clone())));
    fields.push((String::from_str("namespaced"), JsonValue::Bool(res.namespaced)));
    fields.push((String::from_str("group"), JsonValue::Text(res.group.clone())));
    fields.push((String::from_str("kind"), JsonValue::Text(res.kind.clone())));
    fields.push((String::from_str("verbs"), JsonValue::Array(texts_array(&res.verbs))));
    fields.push((String::from_str("preferred"), JsonValue::Bool(res.preferred)));
    let j = JsonValue::Object(fields);
    proof {
        reveal_strlit("name");
        reveal_strlit("namespaced");
        reveal_strlit("group");
        reveal_strlit("kind");
        reveal_strlit("verbs");
        reveal_strlit("preferred");
        let fv = fields_view(fields@);
        assert(fv.len() == 6);
        assert(fv[0].0 == "name"@);
        assert(fv[1].0 == "namespaced"@);
        assert(fv[2].0 == "group"@);
        assert(fv[3].0 == "kind"@);
        assert(fv[4].0 == "verbs"@);
        assert(fv[5].0 == "preferred"@);
        assert("name"@ != "kind"@) by {
            assert("name"@[0] == 'n');
            assert("kind"@[0] == 'k');
        }
        assert("group"@ != "verbs"@) by {
            assert("group"@[0] == 'g');
            assert("verbs"@[0] == 'v');
        }
        lemma_lookup_fields(fv, "name"@, 0);
        lemma_lookup_fields(fv, "namespaced"@, 1);
        lemma_lookup_fields(fv, "group"@, 2);
        lemma_lookup_fields(fv, "kind"@, 3);
        lemma_lookup_fields(fv, "verbs"@, 4);
        lemma_lookup_fields(fv, "preferred"@, 5);
        assert(text_of(lookup_key(fv, "name"@)) == Option::Some(res.name@));
        assert(bool_of(lookup_key(fv, "namespaced"@)) == Option::Some(res.namespaced));
        assert(views_of(res.verbs@).to_set() == crate::verbs::view_set(res.verbs@));
        assert(entry_descriptor(j) == Option::Some(res@));
    }
    j
}

proof fn lemma_lookup_fields(fv: Seq<(Seq<char>, JsonValue)>, k: Seq<char>, i: int)
    requires
        0 <= i < fv.len(),
        fv[i].0 == k,
        forall|j: int| i < j < fv.len() ==> fv[j].0 != k,
    ensures
        lookup_key(fv, k) == Option::Some(fv[i].1),
    decreases fv.len(),
{
    if i == fv.len() - 1 {
    } else {
        assert(forall|j: int| 0 <= j < fv.len() - 1 ==> fv.drop_last()[j] == fv[j]);
        lemma_lookup_fields(fv.drop_last(), k, i);
    }
}

/// Write the metadata document as its persisted JSON object: the cluster
/// version and context label as strings, the version list as a text array,
/// the preferred versions as a text object, and the catalog as an array of
/// resource entries. The recorded catalog decodes back to exactly the
/// catalog model of `m.api_resources`.
pub fn metadata_to_json(m: &Metadata) -> (r: JsonValue)
    ensures
        r is Object,
        text_of(lookup_key(fields_view(r->Object_0@), "kube_version"@)) == Option::Some(
            m.kube_version@,
        ),
        text_of(lookup_key(fields_view(r->Object_0@), "context_name"@)) == Option::Some(
            m.context_name@,
        ),
        (match lookup_key(fields_view(r->Object_0@), "api_versions"@) {
            Option::Some(JsonValue::Array(items)) => texts_of(items@) == Option::Some(
                views_of(m.api_versions@),
            ),
            _ => false,
        }),
        (match lookup_key(fields_view(r->Object_0@), "preferred_versions"@) {
            Option::Some(JsonValue::Object(pf)) => obj_texts(fields_view(pf@)) == Option::Some(
                pairs_view(m.preferred_versions@),
            ),
            _ => false,
        }),
        metadata_resource_descriptors(r) == Option::Some(catalog_view(m.api_resources@)),
{
    let mut entries: Vec<JsonValue> = Vec::new();
    proof {
        assert(catalog_view(m.api_resources@.take(0)) =~= Seq::<DescriptorModel>::empty());
    }
    let mut i: usize = 0;
    while i < m.api_resources.len()
        invariant
            0 <= i <= m.api_resources@.len(),
            descriptors_of_entries(entries@) == Option::Some(
                catalog_view(m.api_resources@.take(i as int)),
            ),
        decreases m.api_resources@.len() - i,
    {
        let ghost before = entries@;
        entries.push(entry_to_json(&m.api_resources[i]));
        proof {
            assert(entries@.drop_last() =~= before);
            assert(catalog_view(m.api_resources@.take(i + 1)) =~= catalog_view(
                m.api_resources@.take(i as int),
            ).push(m.api_resources@[i as int]@));
        }
        i = i + 1;
    }
    proof {
        assert(m.api_resources@.take(m.api_resources@.len() as int) =~= m.api_resources@);
    }
    let mut fields: Vec<(String, JsonValue)> = Vec::new();
    fields.push((String::from_str("kube_version"), JsonValue::Text(m.kube_version.clone())));
    fields.push((String::from_str("context_name"), JsonValue::Text(m.context_name.clone())));
    fields.push((String::from_str("api_versions"), JsonValue::Array(texts_array(&m.api_versions))));
    fields.push(
        (
            String::from_str("preferred_versions"),
            JsonValue::Object(pairs_fields(&m.preferred_versions)),
        ),
    );
    fields.push((String::from_str("api_resources"), JsonValue::Array(entries)));
    let r = JsonValue::Object(fields);
    proof {
        reveal_strlit("kube_version");
        reveal_strlit("context_name");
        reveal_strlit("api_versions");
        reveal_strlit("preferred_versions");
        reveal_strlit("api_resources");
        let fv = fields_view(fields@);
        assert(fv.len() == 5);
        assert(fv[0].0 == "kube_version"@);
        assert(fv[1].0 == "context_name"@);
        assert(fv[2].0 == "api_versions"@);
        assert(fv[3].0 == "preferred_versions"@);
        assert(fv[4].0 == "api_resources"@);
        assert("kube_version"@ != "context_name"@) by {
            assert("kube_version"@[0] == 'k');
            assert("context_name"@[0] == 'c');
        }
        assert("kube_version"@ != "api_versions"@) by {
            assert("kube_version"@[0] == 'k');
            assert("api_versions"@[0] == 'a');
        }
        assert("context_name"@ != "api_versions"@) by {
            assert("context_name"@[0] == 'c');
            assert("api_versions"@[0] == 'a');
        }
        lemma_lookup_fields(fv, "kube_version"@, 0);
        lemma_lookup_fields(fv, "context_name"@, 1);
        lemma_lookup_fields(fv, "api_versions"@, 2);
        lemma_lookup_fields(fv, "preferred_versions"@, 3);
        lemma_lookup_fields(fv, "api_resources"@, 4);
    }
    r
}

proof fn lemma_keys_follow(items: Seq<JsonValue>)
    ensures
        descriptors_of_entries(items) matches Option::Some(ds) ==> keys_of_entries(items)
            == Option::Some(catalog_keys(ds)),
    decreases items.len(),
{
    if items.len() == 0 {
        assert(catalog_keys(Seq::<DescriptorModel>::empty()) =~= Seq::<
            (Seq<char>, Seq<char>),
        >::empty());
    } else {
        lemma_keys_follow(items.drop_last());
        if descriptors_of_entries(items) matches Option::Some(ds) {
            let rest = descriptors_of_entries(items.drop_last())->Some_0;
            let d = entry_descriptor(items.last())->Some_0;
            assert(entry_key(items.last()) == Option::Some((d.name, d.group)));
            assert(catalog_keys(rest.push(d)) =~= catalog_keys(rest).push((d.name, d.group)));
        }
    }
}

/// Law (round trip): a metadata document whose resource entries decode to
/// the catalog `ds` — as every document written by `metadata_to_json`
/// does — yields, when parsed for keys, exactly the catalog's
/// `(name, group)` keys.
pub proof fn lemma_metadata_round_trip(j: JsonValue, ds: Seq<DescriptorModel>)
    requires
        metadata_resource_descriptors(j) == Option::Some(ds),
    ensures
        metadata_resource_keys(j) == Option::Some(catalog_keys(ds)),
{
    match j {
        JsonValue::Object(fields) => {
            match lookup_key(fields_view(fields@), "api_resources"@) {
                Option::Some(JsonValue::Array(items)) => {
                    lemma_keys_follow(items@);
                },
                _ => {},
            }
        },
        _ => {},
    }
}

proof fn lemma_keys_none(items: Seq<JsonValue>, i: int)
    requires
        0 <= i < items.len(),
        entry_key(items[i]) is None,
    ensures
        keys_of_entries(items) is None,
    decreases items.len(),
{
    if i == items.len() - 1 {
    } else {
        lemma_keys_none(items.drop_last(), i);
    }
}

/// Read the catalog's `(name, group)` keys back out of a parsed metadata
/// document; `None` exactly when the document does not have the persisted
/// shape.
#[verifier::loop_isolation(false)]
pub fn resource_keys_from_json(j: &JsonValue) -> (r: Option<Vec<(String, String)>>)
    ensures
        match r {
            Option::Some(ks) => metadata_resource_keys(*j) == Option::Some(pairs_view(ks@)),
            Option::None => metadata_resource_keys(*j) is None,
        },
{
    match j {
        JsonValue::Object(fields) => {
            match find_field(fields, &String::from_str("api_resources")) {
                Some(JsonValue::Array(items)) => {
                    let mut ks: Vec<(String, String)> = Vec::new();
                    proof {
                        assert(keys_of_entries(items@.take(0)) =~= Option::Some(
                            Seq::<(Seq<char>, Seq<char>)>::empty(),
                        ));
                        assert(pairs_view(ks@) =~= Seq::<(Seq<char>, Seq<char>)>::empty());
                    }
                    let mut i: usize = 0;
                    while i < items.len()
                        invariant
                            0 <= i <= items@.len(),
                            keys_of_entries(items@.take(i as int)) == Option::Some(
                                pairs_view(ks@),
                            ),
                        decreases items@.len() - i,
                    {
                        proof {
                            assert(items@.take(i + 1).drop_last() =~= items@.take(i as int));
                            assert(items@.take(i + 1).last() == items@[i as int]);
                        }
                        match &items[i] {
                            JsonValue::Object(efields) => {
                                let n = find_field(efields, &String::from_str("name"));
                                let g = find_field(efields, &String::from_str("group"));
                                match (n, g) {
                                    (
                                        Some(JsonValue::Text(ns)),
                                        Some(JsonValue::Text(gs)),
                                    ) => {
                                        let ghost before = pairs_view(ks@);
                                        ks.push((ns.clone(), gs.clone()));
                                        proof {
                                            assert(pairs_view(ks@) =~= before.push(
                                                (ns@, gs@),
                                            ));
                                        }
                                    },
                                    _ => {
                                        proof {
                                            assert(items@[i as int] is Object);
                                            assert(text_of(
                                                lookup_key(fields_view(efields@), "name"@),
                                            ) is None || text_of(
                                                lookup_key(fields_view(efields@), "group"@),
                                            ) is None);
                                            assert(entry_key(items@[i as int]) is None);
                                            lemma_keys_none(items@, i as int);
                                        }
                                        return None;
                                    },
                                }
                            },
                            _ => {
                                proof {
                                    assert(!(items@[i as int] is Object));
                                    assert(entry_key(items@[i as int]) is None);
                                    lemma_keys_none(items@, i as int);
                                }
                                return None;
                            },
                        }
                        i = i + 1;
                    }
                    proof {
                        assert(items@.take(items@.len() as int) =~= items@);
                    }
                    Some(ks)
                },
                _ => None,
            }
        },
        _ => None,
    }
}

} // verus!
