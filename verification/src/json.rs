//! A semi-structured value: the shape of the JSON documents the dumper
//! writes. Objects are association lists; numbers carry their literal text,
//! since nothing here computes with them.
//!
//! The two mutations the system needs — setting a field and removing a
//! field — are verified here, together with the object stamping and the
//! `secrets` redaction rule applied to every dumped object.

use vstd::prelude::*;
use vstd::string::StringExecFns;

verus! {

/// A JSON-like value.
pub enum JsonValue {
    /// The null value.
    Null,
    /// A boolean.
    Bool(bool),
    /// A number, kept as its literal text.
    Number(String),
    /// A string.
    Text(String),
    /// An array.
    Array(Vec<JsonValue>),
    /// An object: fields in order, later fields winning on a repeated key.
    Object(Vec<(String, JsonValue)>),
}

/// An object's fields with their keys as character sequences.
pub open spec fn fields_view(fields: Seq<(String, JsonValue)>) -> Seq<(Seq<char>, JsonValue)> {
    fields.map_values(|p: (String, JsonValue)| (p.0@, p.1))
}

/// Whether some field of `fv` carries `key`.
pub open spec fn has_key(fv: Seq<(Seq<char>, JsonValue)>, key: Seq<char>) -> bool {
    exists|i: int| 0 <= i < fv.len() && fv[i].0 == key
}

/// The value stored under `key`: the last field with that key, as reading a
/// JSON object with repeated keys does.
pub open spec fn lookup_key(fv: Seq<(Seq<char>, JsonValue)>, key: Seq<char>) -> Option<JsonValue>
    decreases fv.len(),
{
    if fv.len() == 0 {
        Option::None
    } else if fv.last().0 == key {
        Option::Some(fv.last().1)
    } else {
        lookup_key(fv.drop_last(), key)
    }
}

/// The fields with every field keyed `key` dropped, order kept.
pub open spec fn remove_key(
    fv: Seq<(Seq<char>, JsonValue)>,
    key: Seq<char>,
) -> Seq<(Seq<char>, JsonValue)>
    decreases fv.len(),
{
    if fv.len() == 0 {
        Seq::empty()
    } else {
        let rest = remove_key(fv.drop_last(), key);
        if fv.last().0 == key {
            rest
        } else {
            rest.push(fv.last())
        }
    }
}

/// The fields after storing `val` under `key`: any previous field of that
/// key is dropped and the new one appended.
pub open spec fn set_key(
    fv: Seq<(Seq<char>, JsonValue)>,
    key: Seq<char>,
    val: JsonValue,
) -> Seq<(Seq<char>, JsonValue)> {
    remove_key(fv, key).push((key, val))
}

/// The character sequence held by a looked-up text value, if any.
pub open spec fn text_of(v: Option<JsonValue>) -> Option<Seq<char>> {
    match v {
        Option::Some(JsonValue::Text(s)) => Option::Some(s@),
        _ => Option::None,
    }
}

/// Find the value stored under `key`, scanning from the back so that of a
/// repeated key the last field wins, as `lookup_key` reads it.
pub fn find_field<'a>(fields: &'a Vec<(String, JsonValue)>, key: &String) -> (r: Option<
    &'a JsonValue>)
    ensures
        match r {
            Option::Some(v) => lookup_key(fields_view(fields@), key@) == Option::Some(*v),
            Option::None => lookup_key(fields_view(fields@), key@) is None,
        },
{
    let ghost fv = fields_view(fields@);
    proof {
        assert(fv.take(fields@.len() as int) =~= fv);
    }
    let mut i: usize = fields.len();
    while i > 0
        invariant
            0 <= i <= fields@.len(),
            fv == fields_view(fields@),
            lookup_key(fv.take(i as int), key@) == lookup_key(fv, key@),
        decreases i,
    {
        i = i - 1;
        proof {
            assert(fv.take(i + 1).drop_last() =~= fv.take(i as int));
            assert(fv.take(i + 1).last() == fv[i as int]);
        }
        if fields[i].0.eq(key) {
            return Some(&fields[i].1);
        }
    }
    proof {
        assert(fv.take(0) =~= Seq::<(Seq<char>, JsonValue)>::empty());
    }
    None
}

/// Drop every field of `fields` keyed `key`.
fn obj_remove_key(fields: Vec<(String, JsonValue)>, key: &String) -> (r: Vec<(String, JsonValue)>)
    ensures
        fields_view(r@) == remove_key(fields_view(fields@), key@),
{
    let mut rest = fields;
    let mut out: Vec<(String, JsonValue)> = Vec::new();
    let ghost orig = fields_view(rest@);
    let ghost mut done = Seq::<(Seq<char>, JsonValue)>::empty();
    proof {
        assert(done + fields_view(rest@) =~= orig);
        assert(fields_view(out@) =~= remove_key(done, key@));
    }
    while rest.len() > 0
        invariant
            orig == done + fields_view(rest@),
            fields_view(out@) == remove_key(done, key@),
        decreases rest@.len(),
    {
        let ghost prev = fields_view(rest@);
        let ghost done_prev = done;
        let p = rest.remove(0);
        let ghost pv = (p.0@, p.1);
        proof {
            done = done.push(pv);
            assert(prev =~= seq![pv] + fields_view(rest@));
            assert(done_prev + prev =~= done + fields_view(rest@));
            assert(done.drop_last() =~= done_prev);
        }
        let keep = !p.0.eq(key);
        if keep {
            out.push(p);
            proof {
                assert(fields_view(out@) =~= remove_key(done_prev, key@).push(pv));
                assert(fields_view(out@) =~= remove_key(done, key@));
            }
        } else {
            proof {
                assert(fields_view(out@) =~= remove_key(done, key@));
            }
        }
    }
    proof {
        assert(fields_view(rest@) =~= Seq::<(Seq<char>, JsonValue)>::empty());
        assert(done =~= orig);
    }
    out
}

/// Store `val` under `key`, dropping any previous field of that key.
fn obj_set_key(fields: Vec<(String, JsonValue)>, key: String, val: JsonValue) -> (r: Vec<
    (String, JsonValue)>)
    ensures
        fields_view(r@) == set_key(fields_view(fields@), key@, val),
{
    let ghost keyv = key@;
    let mut out = obj_remove_key(fields, &key);
    out.push((key, val));
    proof {
        assert(fields_view(out@) =~= set_key(fields_view(fields@), keyv, val));
    }
    out
}

/// The fields of a stamped object: `apiVersion` and `kind` stored, and the
/// `data` field removed exactly when the object belongs to the redacted
/// resource type.
pub open spec fn stamped_fields(
    fv: Seq<(Seq<char>, JsonValue)>,
    api_version: String,
    kind: String,
    redact: bool,
) -> Seq<(Seq<char>, JsonValue)> {
    let f1 = set_key(fv, "apiVersion"@, JsonValue::Text(api_version));
    let f2 = set_key(f1, "kind"@, JsonValue::Text(kind));
    if redact {
        remove_key(f2, "data"@)
    } else {
        f2
    }
}

/// Stamp one dumped object with its resource type's identity, removing its
/// `data` field when `redact` is set. Only objects are dumped, so the value
/// is required to be one.
pub fn stamp_object(obj: JsonValue, api_version: String, kind: String, redact: bool) -> (r:
    JsonValue)
    requires
        obj is Object,
    ensures
        r is Object,
        fields_view(r->Object_0@) == stamped_fields(
            fields_view(obj->Object_0@),
            api_version,
            kind,
            redact,
        ),
{
    match obj {
        JsonValue::Object(fields) => {
            let f1 = obj_set_key(fields, String::from_str("apiVersion"), JsonValue::Text(api_version));
            let f2 = obj_set_key(f1, String::from_str("kind"), JsonValue::Text(kind));
            if redact {
                let f3 = obj_remove_key(f2, &String::from_str("data"));
                JsonValue::Object(f3)
            } else {
                JsonValue::Object(f2)
            }
        },
        _ => vstd::pervasive::unreached(),
    }
}

pub proof fn lemma_lookup_push(fv: Seq<(Seq<char>, JsonValue)>, p: (Seq<char>, JsonValue), k: Seq<char>)
    ensures
        lookup_key(fv.push(p), k) == if p.0 == k {
            Option::Some(p.1)
        } else {
            lookup_key(fv, k)
        },
{
    assert(fv.push(p).drop_last() =~= fv);
}

pub proof fn lemma_lookup_remove_other(fv: Seq<(Seq<char>, JsonValue)>, k1: Seq<char>, k2: Seq<char>)
    requires
        k1 != k2,
    ensures
        lookup_key(remove_key(fv, k1), k2) == lookup_key(fv, k2),
    decreases fv.len(),
{
    if fv.len() == 0 {
    } else {
        lemma_lookup_remove_other(fv.drop_last(), k1, k2);
        if fv.last().0 == k1 {
        } else {
            lemma_lookup_push(remove_key(fv.drop_last(), k1), fv.last(), k2);
        }
    }
}

pub proof fn lemma_remove_has_none(fv: Seq<(Seq<char>, JsonValue)>, k: Seq<char>)
    ensures
        !has_key(remove_key(fv, k), k),
    decreases fv.len(),
{
    if fv.len() == 0 {
    } else {
        lemma_remove_has_none(fv.drop_last(), k);
        let rest = remove_key(fv.drop_last(), k);
        if fv.last().0 == k {
        } else {
            if has_key(rest.push(fv.last()), k) {
                let i = choose|i: int| 0 <= i < rest.push(fv.last()).len() && rest.push(
                    fv.last(),
                )[i].0 == k;
                if i < rest.len() {
                    assert(rest[i].0 == k);
                }
            }
        }
    }
}

/// Law: redaction removes exactly the `data` field. A stamped object of the
/// redacted resource type never carries a `data` key; for every other
/// resource type nothing is removed, and in either case every field other
/// than the stamped `apiVersion` and `kind` reads as it did before.
pub proof fn lemma_redaction(
    fv: Seq<(Seq<char>, JsonValue)>,
    api_version: String,
    kind: String,
    k: Seq<char>,
)
    ensures
        !has_key(stamped_fields(fv, api_version, kind, true), "data"@),
        k != "apiVersion"@ && k != "kind"@ ==> lookup_key(
            stamped_fields(fv, api_version, kind, false),
            k,
        ) == lookup_key(fv, k),
        k != "apiVersion"@ && k != "kind"@ && k != "data"@ ==> lookup_key(
            stamped_fields(fv, api_version, kind, true),
            k,
        ) == lookup_key(fv, k),
{
    let f1 = set_key(fv, "apiVersion"@, JsonValue::Text(api_version));
    let f2 = set_key(f1, "kind"@, JsonValue::Text(kind));
    lemma_remove_has_none(f2, "data"@);
    if k != "apiVersion"@ && k != "kind"@ {
        lemma_lookup_remove_other(fv, "apiVersion"@, k);
        lemma_lookup_push(remove_key(fv, "apiVersion"@), ("apiVersion"@, JsonValue::Text(api_version)), k);
        lemma_lookup_remove_other(f1, "kind"@, k);
        lemma_lookup_push(remove_key(f1, "kind"@), ("kind"@, JsonValue::Text(kind)), k);
        if k != "data"@ {
            lemma_lookup_remove_other(f2, "data"@, k);
        }
    }
}

} // verus!
