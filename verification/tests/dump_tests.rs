use kubedump::discovery::{
    ApiGroupData, DiscoveredResource, DiscoverySnapshot, VersionResources, namespace_source,
};
use kubedump::dump::{
    aggregate_items, dump_plan, list_scopes, output_filename, should_dump, stamp_items,
};
use kubedump::json::{JsonValue, find_field};

fn strs(xs: &[&str]) -> Vec<String> {
    xs.iter().map(|s| s.to_string()).collect()
}

fn res(
    plural: &str,
    api_version: &str,
    group: &str,
    kind: &str,
    namespaced: bool,
    verbs: &[&str],
) -> DiscoveredResource {
    DiscoveredResource {
        plural: plural.to_string(),
        api_version: api_version.to_string(),
        group: group.to_string(),
        kind: kind.to_string(),
        namespaced,
        verbs: strs(verbs),
        subresources: Vec::new(),
    }
}

fn obj(fields: Vec<(&str, JsonValue)>) -> JsonValue {
    JsonValue::Object(fields.into_iter().map(|(k, v)| (k.to_string(), v)).collect())
}

fn text(s: &str) -> JsonValue {
    JsonValue::Text(s.to_string())
}

fn get<'a>(o: &'a JsonValue, key: &str) -> Option<&'a JsonValue> {
    match o {
        JsonValue::Object(fields) => find_field(fields, &key.to_string()),
        _ => panic!("not an object"),
    }
}

fn text_value(v: &JsonValue) -> String {
    match v {
        JsonValue::Text(s) => s.clone(),
        _ => panic!("not a text value"),
    }
}

#[test]
fn secrets_objects_lose_their_data_field() {
    let o = obj(vec![
        ("data", text("c2VjcmV0")),
        ("metadata", obj(vec![("name", text("token"))])),
    ]);
    let stamped = stamp_items(vec![o], &"v1".to_string(), &"Secret".to_string(), true);
    assert_eq!(stamped.len(), 1);
    assert!(get(&stamped[0], "data").is_none());
    assert_eq!(text_value(get(&stamped[0], "apiVersion").unwrap()), "v1");
    assert_eq!(text_value(get(&stamped[0], "kind").unwrap()), "Secret");
    assert!(get(&stamped[0], "metadata").is_some());
}

#[test]
fn unredacted_objects_keep_every_field() {
    let o = obj(vec![
        ("data", text("kept")),
        ("metadata", obj(vec![("name", text("cm"))])),
    ]);
    let stamped = stamp_items(vec![o], &"v1".to_string(), &"ConfigMap".to_string(), false);
    assert_eq!(text_value(get(&stamped[0], "data").unwrap()), "kept");
    assert_eq!(text_value(get(&stamped[0], "apiVersion").unwrap()), "v1");
    assert_eq!(text_value(get(&stamped[0], "kind").unwrap()), "ConfigMap");
}

#[test]
fn only_the_secrets_resource_type_is_redacted() {
    let snap = DiscoverySnapshot {
        groups: vec![ApiGroupData {
            name: "".to_string(),
            preferred_version: None,
            versions: vec![VersionResources {
                version: "v1".to_string(),
                resources: vec![
                    res("secrets", "v1", "", "Secret", true, &["list", "get"]),
                    res("configmaps", "v1", "", "ConfigMap", true, &["list", "get"]),
                    res("events", "v1", "", "Event", true, &["get"]),
                ],
            }],
        }],
    };
    let plan = dump_plan(&snap);
    assert_eq!(plan.len(), 2);
    assert_eq!(plan[0].plural, "secrets");
    assert!(plan[0].redact);
    assert_eq!(plan[1].plural, "configmaps");
    assert!(!plan[1].redact);
}

#[test]
fn aggregate_keeps_nonempty_namespaces_and_writes() {
    let o1 = obj(vec![("metadata", obj(vec![("name", text("a"))]))]);
    let o2 = obj(vec![("metadata", obj(vec![("name", text("b"))]))]);
    let all = aggregate_items(vec![vec![o1, o2], vec![]]);
    assert_eq!(all.len(), 2);
    assert!(should_dump(&all));
    assert_eq!(output_filename(&"pods".to_string(), &"".to_string()), "pods.json");
}

#[test]
fn empty_aggregate_writes_no_file() {
    let all = aggregate_items(vec![vec![], vec![]]);
    assert!(all.is_empty());
    assert!(!should_dump(&all));
}

#[test]
fn non_core_filenames_carry_the_group() {
    assert_eq!(
        output_filename(&"deployments".to_string(), &"apps".to_string()),
        "deployments.apps.json"
    );
}

#[test]
fn scopes_fan_out_per_namespace() {
    let scopes = list_scopes(true, &strs(&["default", "kube-system"]));
    assert_eq!(scopes.len(), 2);
    assert_eq!(scopes[0].as_deref(), Some("default"));
    assert_eq!(scopes[1].as_deref(), Some("kube-system"));
    let cluster = list_scopes(false, &strs(&["default"]));
    assert_eq!(cluster.len(), 1);
    assert!(cluster[0].is_none());
}

#[test]
fn namespace_source_finds_the_core_namespace_resource() {
    let snap = DiscoverySnapshot {
        groups: vec![ApiGroupData {
            name: "".to_string(),
            preferred_version: None,
            versions: vec![VersionResources {
                version: "v1".to_string(),
                resources: vec![
                    res("pods", "v1", "", "Pod", true, &["list"]),
                    res("namespaces", "v1", "", "Namespace", false, &["list", "get"]),
                ],
            }],
        }],
    };
    assert_eq!(namespace_source(&snap), Some((0, 0, 1)));

    let empty = DiscoverySnapshot { groups: Vec::new() };
    assert_eq!(namespace_source(&empty), None);
}
