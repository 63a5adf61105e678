//! The dump driver's decisions: which resource types are listed, over which
//! scopes, what each fetched object is stamped with, and where the result
//! is written. The caller performs the listing and the writes; everything
//! decided here is verified.

use vstd::prelude::*;
use vstd::string::{StringExecFns, StrSliceExecFns};
use crate::discovery::{
    DiscoveredResource, DiscoverySnapshot, GroupModel, ResourceModel, recommended_version_index,
};
use crate::json::{
    JsonValue, fields_view, has_key, lemma_lookup_push, lemma_lookup_remove_other, lookup_key,
    remove_key, set_key, stamp_object, stamped_fields, text_of,
};
use crate::verbs::has_verb;

verus! {

/// One listing task: a resource type of its group's recommended version
/// that supports `list`.
pub struct DumpTask {
    /// Plural name of the resource type.
    pub plural: String,
    /// Full api-version string, stamped into every dumped object.
    pub api_version: String,
    /// Bare group name, used for the output file name.
    pub group: String,
    /// Object kind, stamped into every dumped object.
    pub kind: String,
    /// Whether listing fans out over namespaces.
    pub namespaced: bool,
    /// Whether the `data` field of every object is removed before writing.
    pub redact: bool,
}

/// Ghost model of a listing task.
pub ghost struct DumpTaskModel {
    pub plural: Seq<char>,
    pub api_version: Seq<char>,
    pub group: Seq<char>,
    pub kind: Seq<char>,
    pub namespaced: bool,
    pub redact: bool,
}

impl View for DumpTask {
    type V = DumpTaskModel;

    open spec fn view(&self) -> DumpTaskModel {
        DumpTaskModel {
            plural: self.plural@,
            api_version: self.api_version@,
            group: self.group@,
            kind: self.kind@,
            namespaced: self.namespaced,
            redact: self.redact,
        }
    }
}

/// The tasks as a sequence of models.
pub open spec fn tasks_view(s: Seq<DumpTask>) -> Seq<DumpTaskModel> {
    s.map_values(|t: DumpTask| t@)
}

/// The task a resource type yields: its identity, and redaction exactly for
/// the resource type whose plural name is `secrets` — never for a
/// subresource or any other name.
pub open spec fn task_of(r: ResourceModel) -> DumpTaskModel {
    DumpTaskModel {
        plural: r.plural,
        api_version: r.api_version,
        group: r.group,
        kind: r.kind,
        namespaced: r.namespaced,
        redact: r.plural == "secrets"@,
    }
}

/// The tasks of a version's resource types: one per type supporting `list`.
pub open spec fn tasks_of_resources(rs: Seq<ResourceModel>) -> Seq<DumpTaskModel>
    decreases rs.len(),
{
    if rs.len() == 0 {
        Seq::empty()
    } else {
        let rest = tasks_of_resources(rs.drop_last());
        if rs.last().verbs.contains("list"@) {
            rest.push(task_of(rs.last()))
        } else {
            rest
        }
    }
}

/// The full dump plan: for every group, the listable resource types of its
/// recommended version, in discovery order.
pub open spec fn dump_plan_spec(gs: Seq<GroupModel>) -> Seq<DumpTaskModel>
    decreases gs.len(),
{
    if gs.len() == 0 {
        Seq::empty()
    } else {
        dump_plan_spec(gs.drop_last()) + (match recommended_version_index(gs.last()) {
            Option::Some(vi) => tasks_of_resources(gs.last().versions[vi].resources),
            Option::None => Seq::empty(),
        })
    }
}

/// Build one task from a resource type.
fn build_task(res: &DiscoveredResource) -> (t: DumpTask)
    ensures
        t@ == task_of(res@),
{
    DumpTask {
        plural: res.plural.clone(),
        api_version: res.api_version.clone(),
        group: res.group.clone(),
        kind: res.kind.clone(),
        namespaced: res.namespaced,
        redact: res.plural.eq(&String::from_str("secrets")),
    }
}

/// Compute the dump plan from the discovery snapshot.
pub fn dump_plan(discovery: &DiscoverySnapshot) -> (r: Vec<DumpTask>)
    ensures
        tasks_view(r@) == dump_plan_spec(discovery@.groups),
{
    let list_verb = String::from_str("list");
    let mut out: Vec<DumpTask> = Vec::new();
    proof {
        assert(tasks_view(out@) =~= dump_plan_spec(discovery@.groups.take(0)));
    }
    let mut gi: usize = 0;
    while gi < discovery.groups.len()
        invariant
            0 <= gi <= discovery@.groups.len(),
            list_verb@ == "list"@,
            tasks_view(out@) == dump_plan_spec(discovery@.groups.take(gi as int)),
        decreases discovery@.groups.len() - gi,
    {
        let g = &discovery.groups[gi];
        proof {
            assert(discovery@.groups.take(gi + 1).drop_last() =~= discovery@.groups.take(
                gi as int,
            ));
            assert(discovery@.groups.take(gi + 1).last() == g@);
        }
        let ghost base = tasks_view(out@);
        if let Some(vi) = crate::discovery::recommended_index(g) {
            let rs = &g.versions[vi].resources;
            proof {
                assert(g@.versions[vi as int].resources == rs@.map_values(
                    |x: DiscoveredResource| x@,
                ));
                assert(tasks_of_resources(rs@.map_values(|x: DiscoveredResource| x@).take(0))
                    =~= Seq::<DumpTaskModel>::empty());
            }
            let ghost rsm = rs@.map_values(|x: DiscoveredResource| x@);
            let mut ri: usize = 0;
            while ri < rs.len()
                invariant
                    0 <= ri <= rsm.len(),
                    rsm == rs@.map_values(|x: DiscoveredResource| x@),
                    rsm.len() == rs@.len(),
                    list_verb@ == "list"@,
                    tasks_view(out@) == base + tasks_of_resources(rsm.take(ri as int)),
                decreases rsm.len() - ri,
            {
                proof {
                    assert(rsm.take(ri + 1).drop_last() =~= rsm.take(ri as int));
                    assert(rsm.take(ri + 1).last() == rsm[ri as int]);
                }
                if has_verb(&rs[ri].verbs, &list_verb) {
                    let ghost before = tasks_view(out@);
                    out.push(build_task(&rs[ri]));
                    proof {
                        assert(tasks_view(out@) =~= before.push(task_of(rsm[ri as int])));
                    }
                }
                ri = ri + 1;
            }
            proof {
                assert(rsm.take(rsm.len() as int) =~= rsm);
                assert(tasks_view(out@) =~= dump_plan_spec(discovery@.groups.take(gi + 1)));
            }
        } else {
            proof {
                assert(tasks_view(out@) =~= dump_plan_spec(discovery@.groups.take(gi + 1)));
            }
        }
        gi = gi + 1;
    }
    proof {
        assert(discovery@.groups.take(discovery@.groups.len() as int) =~= discovery@.groups);
    }
    out
}

/// The scopes a task's listing fans out over: every namespace in order for
/// a namespaced resource type, one cluster-wide listing otherwise.
pub fn list_scopes(namespaced: bool, namespaces: &Vec<String>) -> (r: Vec<Option<String>>)
    ensures
        namespaced ==> r@.len() == namespaces@.len() && forall|i: int|
            0 <= i < r@.len() ==> (#[trigger] r@[i] matches Option::Some(n) && n@
                == namespaces@[i]@),
        !namespaced ==> r@.len() == 1 && r@[0] is None,
{
    let mut out: Vec<Option<String>> = Vec::new();
    if namespaced {
        let mut i: usize = 0;
        while i < namespaces.len()
            invariant
                0 <= i <= namespaces@.len(),
                out@.len() == i,
                forall|j: int|
                    0 <= j < i ==> (#[trigger] out@[j] matches Option::Some(n) && n@
                        == namespaces@[j]@),
            decreases namespaces@.len() - i,
        {
            out.push(Some(namespaces[i].clone()));
            i = i + 1;
        }
    } else {
        out.push(None);
    }
    out
}

/// What concatenating per-scope listings yields: all items of all batches,
/// batch order kept.
pub open spec fn concat_batches(bs: Seq<Vec<JsonValue>>) -> Seq<JsonValue>
    decreases bs.len(),
{
    if bs.len() == 0 {
        Seq::empty()
    } else {
        concat_batches(bs.drop_last()) + bs.last()@
    }
}

/// Concatenate the per-scope listings of one task into the single
/// collection written for it: a namespace that contributed nothing adds
/// nothing, while the others' items are kept in order.
pub fn aggregate_items(batches: Vec<Vec<JsonValue>>) -> (r: Vec<JsonValue>)
    ensures
        r@ == concat_batches(batches@),
{
    let mut rest = batches;
    let mut out: Vec<JsonValue> = Vec::new();
    let ghost orig = rest@;
    let ghost mut done = Seq::<Vec<JsonValue>>::empty();
    proof {
        assert(done + rest@ =~= orig);
        assert(out@ =~= concat_batches(done));
    }
    while rest.len() > 0
        invariant
            orig == done + rest@,
            out@ == concat_batches(done),
        decreases rest@.len(),
    {
        let ghost prev = rest@;
        let ghost done_prev = done;
        let mut b = rest.remove(0);
        proof {
            done = done.push(b);
            assert(prev =~= seq![b] + rest@);
            assert(done_prev + prev =~= done + rest@);
            assert(done.drop_last() =~= done_prev);
        }
        out.append(&mut b);
    }
    proof {
        assert(rest@ =~= Seq::<Vec<JsonValue>>::empty());
        assert(done =~= orig);
    }
    out
}

/// Whether a file is written for a task's aggregated items: exactly when
/// the aggregate over all scopes is non-empty.
pub fn should_dump(items: &Vec<JsonValue>) -> (r: bool)
    ensures
        r == (items@.len() > 0),
{
    items.len() > 0
}

/// The output file name of a task: `<name>.json` for the core group (empty
/// group string), `<name>.<group>.json` otherwise. Distinct tasks may
/// resolve to the same name; the last write then wins, a documented
/// limitation kept as is.
pub fn output_filename(plural: &String, group: &String) -> (r: String)
    ensures
        group@.len() == 0 ==> r@ == plural@ + ".json"@,
        group@.len() > 0 ==> r@ == plural@ + "."@ + group@ + ".json"@,
{
    let mut s = plural.clone();
    if !group.as_str().is_empty() {
        s.append(".");
        s.append(group.as_str());
    }
    s.append(".json");
    s
}

/// What the stamped fields read as, at every key.
pub proof fn lemma_stamped_lookup(
    fv: Seq<(Seq<char>, JsonValue)>,
    a: String,
    k: String,
    redact: bool,
)
    ensures
        text_of(lookup_key(stamped_fields(fv, a, k, redact), "apiVersion"@)) == Option::Some(a@),
        text_of(lookup_key(stamped_fields(fv, a, k, redact), "kind"@)) == Option::Some(k@),
{
    reveal_strlit("apiVersion");
    reveal_strlit("kind");
    reveal_strlit("data");
    assert("apiVersion"@ != "kind"@) by {
        assert("apiVersion"@.len() == 10);
        assert("kind"@.len() == 4);
    }
    assert("kind"@ != "data"@) by {
        assert("kind"@[0] == 'k');
        assert("data"@[0] == 'd');
    }
    assert("apiVersion"@ != "data"@) by {
        assert("apiVersion"@.len() == 10);
        assert("data"@.len() == 4);
    }
    let f1 = set_key(fv, "apiVersion"@, JsonValue::Text(a));
    let f2 = set_key(f1, "kind"@, JsonValue::Text(k));
    lemma_lookup_push(remove_key(fv, "apiVersion"@), ("apiVersion"@, JsonValue::Text(a)), "apiVersion"@);
    lemma_lookup_push(remove_key(f1, "kind"@), ("kind"@, JsonValue::Text(k)), "apiVersion"@);
    lemma_lookup_remove_other(f1, "kind"@, "apiVersion"@);
    lemma_lookup_push(remove_key(f1, "kind"@), ("kind"@, JsonValue::Text(k)), "kind"@);
    if redact {
        lemma_lookup_remove_other(f2, "data"@, "apiVersion"@);
        lemma_lookup_remove_other(f2, "data"@, "kind"@);
    }
}

/// Stamp every fetched object of one task: each object gets the task's
/// api-version and kind written into it, and its `data` field removed
/// exactly when the task is the redacted one. Every object a listing
/// returns is a JSON object, so the items are required to be ones.
pub fn stamp_items(items: Vec<JsonValue>, api_version: &String, kind: &String, redact: bool) -> (r:
    Vec<JsonValue>)
    requires
        forall|i: int| 0 <= i < items@.len() ==> items@[i] is Object,
    ensures
        r@.len() == items@.len(),
        forall|i: int|
            0 <= i < r@.len() ==> r@[i] is Object && text_of(
                #[trigger] lookup_key(fields_view(r@[i]->Object_0@), "apiVersion"@),
            ) == Option::Some(api_version@) && text_of(
                lookup_key(fields_view(r@[i]->Object_0@), "kind"@),
            ) == Option::Some(kind@) && (redact ==> !has_key(
                fields_view(r@[i]->Object_0@),
                "data"@,
            )) && (forall|key: Seq<char>|
                key != "apiVersion"@ && key != "kind"@ && !(redact && key == "data"@)
                    ==> lookup_key(fields_view(r@[i]->Object_0@), key) == lookup_key(
                    fields_view(items@[i]->Object_0@),
                    key,
                )),
{
    let mut rest = items;
    let mut out: Vec<JsonValue> = Vec::new();
    let ghost orig = rest@;
    let ghost mut done: int = 0;
    while rest.len() > 0
        invariant
            0 <= done,
            orig.len() == done + rest@.len(),
            forall|i: int| 0 <= i < rest@.len() ==> orig[done + i] == rest@[i],
            forall|i: int| 0 <= i < orig.len() ==> orig[i] is Object,
            out@.len() == done,
            forall|i: int|
                0 <= i < out@.len() ==> out@[i] is Object && text_of(
                    #[trigger] lookup_key(fields_view(out@[i]->Object_0@), "apiVersion"@),
                ) == Option::Some(api_version@) && text_of(
                    lookup_key(fields_view(out@[i]->Object_0@), "kind"@),
                ) == Option::Some(kind@) && (redact ==> !has_key(
                    fields_view(out@[i]->Object_0@),
                    "data"@,
                )) && (forall|key: Seq<char>|
                    key != "apiVersion"@ && key != "kind"@ && !(redact && key == "data"@)
                        ==> lookup_key(fields_view(out@[i]->Object_0@), key) == lookup_key(
                        fields_view(orig[i]->Object_0@),
                        key,
                    )),
        decreases rest@.len(),
    {
        let x = rest.remove(0);
        let av = api_version.clone();
        let kv = kind.clone();
        let ghost xg = x;
        let ghost avg = av;
        let ghost kvg = kv;
        let stamped = stamp_object(x, av, kv, redact);
        proof {
            let xfv = fields_view(xg->Object_0@);
            lemma_stamped_lookup(xfv, avg, kvg, redact);
            assert forall|key: Seq<char>|
                key != "apiVersion"@ && key != "kind"@ && !(redact && key == "data"@)
                    implies lookup_key(fields_view(stamped->Object_0@), key) == lookup_key(
                xfv,
                key,
            ) by {
                crate::json::lemma_redaction(xfv, avg, kvg, key);
            }
            crate::json::lemma_redaction(xfv, avg, kvg, "data"@);
        }
        out.push(stamped);
        proof {
            done = done + 1;
        }
    }
    out
}

} // verus!
