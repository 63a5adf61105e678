use kubedump::catalog::{default_augmentations, default_synthetics};
use kubedump::discovery::{
    ApiGroupData, DiscoveredResource, DiscoverySnapshot, VersionResources,
};
use kubedump::codec::{metadata_to_json, resource_keys_from_json};
use kubedump::json::JsonValue;
use kubedump::metadata::{
    api_versions, build_metadata, context_label, preferred_api_versions, version_from_info,
};

fn strs(xs: &[&str]) -> Vec<String> {
    xs.iter().map(|s| s.to_string()).collect()
}

fn res(
    plural: &str,
    api_version: &str,
    group: &str,
    kind: &str,
    namespaced: bool,
    verbs: &[&str],
) -> DiscoveredResource {
    DiscoveredResource {
        plural: plural.to_string(),
        api_version: api_version.to_string(),
        group: group.to_string(),
        kind: kind.to_string(),
        namespaced,
        verbs: strs(verbs),
        subresources: Vec::new(),
    }
}

fn sample_snapshot() -> DiscoverySnapshot {
    DiscoverySnapshot {
        groups: vec![
            ApiGroupData {
                name: "".to_string(),
                preferred_version: None,
                versions: vec![VersionResources {
                    version: "v1".to_string(),
                    resources: vec![
                        res("pods", "v1", "", "Pod", true, &["list", "get"]),
                        res("secrets", "v1", "", "Secret", true, &["list"]),
                    ],
                }],
            },
            ApiGroupData {
                name: "apps".to_string(),
                preferred_version: Some("v1".to_string()),
                versions: vec![
                    VersionResources {
                        version: "v1".to_string(),
                        resources: vec![res(
                            "deployments",
                            "apps/v1",
                            "apps",
                            "Deployment",
                            true,
                            &["list", "get"],
                        )],
                    },
                    VersionResources {
                        version: "v1beta1".to_string(),
                        resources: vec![],
                    },
                ],
            },
        ],
    }
}

fn to_serde(v: &JsonValue) -> serde_json::Value {
    match v {
        JsonValue::Null => serde_json::Value::Null,
        JsonValue::Bool(b) => serde_json::Value::Bool(*b),
        JsonValue::Number(s) => serde_json::Value::Number(s.parse().unwrap()),
        JsonValue::Text(s) => serde_json::Value::String(s.clone()),
        JsonValue::Array(items) => serde_json::Value::Array(items.iter().map(to_serde).collect()),
        JsonValue::Object(fields) => {
            let mut map = serde_json::Map::new();
            for (k, val) in fields {
                map.insert(k.clone(), to_serde(val));
            }
            serde_json::Value::Object(map)
        },
    }
}

fn from_serde(v: &serde_json::Value) -> JsonValue {
    match v {
        serde_json::Value::Null => JsonValue::Null,
        serde_json::Value::Bool(b) => JsonValue::Bool(*b),
        serde_json::Value::Number(n) => JsonValue::Number(n.to_string()),
        serde_json::Value::String(s) => JsonValue::Text(s.clone()),
        serde_json::Value::Array(items) => {
            JsonValue::Array(items.iter().map(from_serde).collect())
        },
        serde_json::Value::Object(map) => JsonValue::Object(
            map.iter().map(|(k, val)| (k.clone(), from_serde(val))).collect(),
        ),
    }
}

#[test]
fn api_versions_are_sorted_and_complete() {
    let snap = sample_snapshot();
    let versions = api_versions(&snap);
    assert_eq!(versions, strs(&["apps/v1", "apps/v1beta1", "v1"]));
}

#[test]
fn preferred_versions_skip_the_core_group() {
    let snap = sample_snapshot();
    let preferred = preferred_api_versions(&snap);
    assert_eq!(preferred.len(), 1);
    assert_eq!(preferred[0].0, "apps");
    assert_eq!(preferred[0].1, "v1");
}

#[test]
fn version_info_extraction() {
    let ok = JsonValue::Object(vec![(
        "gitVersion".to_string(),
        JsonValue::Text("v1.29.1".to_string()),
    )]);
    assert_eq!(version_from_info(&ok), Some("v1.29.1".to_string()));

    let missing = JsonValue::Object(vec![(
        "buildDate".to_string(),
        JsonValue::Text("today".to_string()),
    )]);
    assert_eq!(version_from_info(&missing), None);

    let wrong_type = JsonValue::Object(vec![(
        "gitVersion".to_string(),
        JsonValue::Number("29".to_string()),
    )]);
    assert_eq!(version_from_info(&wrong_type), None);

    assert_eq!(version_from_info(&JsonValue::Null), None);
}

#[test]
fn context_label_cases() {
    assert_eq!(context_label(None), Some("in-cluster".to_string()));
    assert_eq!(context_label(Some(None)), None);
    assert_eq!(
        context_label(Some(Some("prod".to_string()))),
        Some("prod".to_string())
    );
}

#[test]
fn metadata_round_trip_keeps_catalog_keys() {
    let snap = sample_snapshot();
    let table = default_augmentations();
    let synthetic = default_synthetics();
    let m = build_metadata(
        "v1.29.1".to_string(),
        "in-cluster".to_string(),
        &snap,
        &table,
        &synthetic,
    );
    let in_memory_keys: Vec<(String, String)> = m
        .api_resources
        .iter()
        .map(|r| (r.name.clone(), r.group.clone()))
        .collect();

    let doc = metadata_to_json(&m);
    let rendered = serde_json::to_string(&to_serde(&doc)).unwrap();
    let reparsed: serde_json::Value = serde_json::from_str(&rendered).unwrap();
    let back = from_serde(&reparsed);
    let recovered = resource_keys_from_json(&back).unwrap();
    assert_eq!(recovered, in_memory_keys);
}

#[test]
fn undeclared_preferred_version_falls_back_to_first_listed() {
    let snap = DiscoverySnapshot {
        groups: vec![ApiGroupData {
            name: "batch".to_string(),
            preferred_version: None,
            versions: vec![
                VersionResources { version: "v2".to_string(), resources: vec![] },
                VersionResources { version: "v1".to_string(), resources: vec![] },
            ],
        }],
    };
    let preferred = preferred_api_versions(&snap);
    assert_eq!(preferred.len(), 1);
    assert_eq!(preferred[0].0, "batch");
    assert_eq!(preferred[0].1, "v2");
}

#[test]
fn metadata_document_carries_every_field() {
    let snap = sample_snapshot();
    let table = default_augmentations();
    let synthetic = default_synthetics();
    let m = build_metadata(
        "v1.29.1".to_string(),
        "prod".to_string(),
        &snap,
        &table,
        &synthetic,
    );
    let doc = metadata_to_json(&m);
    let fields = match &doc {
        JsonValue::Object(fields) => fields,
        _ => panic!("metadata document must be an object"),
    };
    let text = |key: &str| -> String {
        match kubedump::json::find_field(fields, &key.to_string()) {
            Some(JsonValue::Text(s)) => s.clone(),
            other => panic!("field {} missing or not text: {:?}", key, other.is_some()),
        }
    };
    assert_eq!(text("kube_version"), "v1.29.1");
    assert_eq!(text("context_name"), "prod");
    match kubedump::json::find_field(fields, &"api_versions".to_string()) {
        Some(JsonValue::Array(items)) => assert_eq!(items.len(), m.api_versions.len()),
        _ => panic!("api_versions missing"),
    }
    match kubedump::json::find_field(fields, &"preferred_versions".to_string()) {
        Some(JsonValue::Object(pf)) => assert_eq!(pf.len(), m.preferred_versions.len()),
        _ => panic!("preferred_versions missing"),
    }
    match kubedump::json::find_field(fields, &"api_resources".to_string()) {
        Some(JsonValue::Array(items)) => assert_eq!(items.len(), m.api_resources.len()),
        _ => panic!("api_resources missing"),
    }
}

#[test]
fn malformed_metadata_yields_no_keys() {
    let no_resources = JsonValue::Object(vec![(
        "kube_version".to_string(),
        JsonValue::Text("v1".to_string()),
    )]);
    assert!(resource_keys_from_json(&no_resources).is_none());

    let bad_entry = JsonValue::Object(vec![(
        "api_resources".to_string(),
        JsonValue::Array(vec![JsonValue::Object(vec![(
            "group".to_string(),
            JsonValue::Text("apps".to_string()),
        )])]),
    )]);
    assert!(resource_keys_from_json(&bad_entry).is_none());
}
