use kubedump::catalog::{api_resources, default_augmentations, default_synthetics, MyApiResource};
use kubedump::discovery::{
    ApiGroupData, DiscoveredResource, DiscoverySnapshot, SubResource, VersionResources,
};
use kubedump::metadata::context_label;
use kubedump::verbs::verb_sets_equal;

fn strs(xs: &[&str]) -> Vec<String> {
    xs.iter().map(|s| s.to_string()).collect()
}

fn res(
    plural: &str,
    api_version: &str,
    group: &str,
    kind: &str,
    namespaced: bool,
    verbs: &[&str],
) -> DiscoveredResource {
    DiscoveredResource {
        plural: plural.to_string(),
        api_version: api_version.to_string(),
        group: group.to_string(),
        kind: kind.to_string(),
        namespaced,
        verbs: strs(verbs),
        subresources: Vec::new(),
    }
}

fn group(name: &str, preferred: Option<&str>, versions: Vec<VersionResources>) -> ApiGroupData {
    ApiGroupData {
        name: name.to_string(),
        preferred_version: preferred.map(|s| s.to_string()),
        versions,
    }
}

fn version(v: &str, resources: Vec<DiscoveredResource>) -> VersionResources {
    VersionResources { version: v.to_string(), resources }
}

fn build(snap: &DiscoverySnapshot) -> Vec<MyApiResource> {
    api_resources(snap, &default_augmentations(), &default_synthetics())
}

fn names(catalog: &[MyApiResource]) -> Vec<String> {
    catalog.iter().map(|r| r.name.clone()).collect()
}

#[test]
fn core_cluster_scenario() {
    let snap = DiscoverySnapshot {
        groups: vec![group(
            "",
            None,
            vec![version(
                "v1",
                vec![
                    res("namespaces", "v1", "", "Namespace", false, &["list", "get"]),
                    res("pods", "v1", "", "Pod", true, &["list", "get", "delete"]),
                ],
            )],
        )],
    };
    let catalog = build(&snap);
    assert_eq!(
        names(&catalog),
        strs(&["namespaces", "pods", "users", "groups", "signers"])
    );
    let pods = &catalog[1];
    assert_eq!(pods.group, "v1");
    assert_eq!(pods.kind, "Pod");
    assert!(pods.namespaced);
    assert!(pods.preferred);
    assert!(verb_sets_equal(&pods.verbs, &strs(&["list", "get", "delete"])));
    let users = &catalog[2];
    assert_eq!(users.kind, "User");
    assert_eq!(users.group, "");
    assert!(!users.namespaced);
    assert!(users.preferred);
    assert!(verb_sets_equal(&users.verbs, &strs(&["impersonate"])));
    let signers = &catalog[4];
    assert_eq!(signers.group, "certificates.k8s.io/v1");
    assert!(verb_sets_equal(&signers.verbs, &strs(&["approve", "sign"])));

    let ctx = context_label(None).unwrap();
    assert_eq!(ctx, "in-cluster");
}

#[test]
fn discovered_users_suppresses_injection() {
    let snap = DiscoverySnapshot {
        groups: vec![group(
            "identity.example.com",
            None,
            vec![version(
                "v1",
                vec![res(
                    "users",
                    "identity.example.com/v1",
                    "identity.example.com",
                    "CustomUser",
                    false,
                    &["list"],
                )],
            )],
        )],
    };
    let catalog = build(&snap);
    let user_entries: Vec<&MyApiResource> =
        catalog.iter().filter(|r| r.name == "users").collect();
    assert_eq!(user_entries.len(), 1);
    assert_eq!(user_entries[0].kind, "CustomUser");
    assert!(catalog.iter().any(|r| r.name == "groups" && r.kind == "Group"));
    assert!(catalog.iter().any(|r| r.name == "signers" && r.kind == "Signer"));
}

#[test]
fn preferred_flag_marks_first_version_when_none_declared() {
    let snap = DiscoverySnapshot {
        groups: vec![group(
            "apps",
            None,
            vec![
                version(
                    "v2",
                    vec![res("deployments", "apps/v2", "apps", "Deployment", true, &["list"])],
                ),
                version(
                    "v1",
                    vec![res("deployments", "apps/v1", "apps", "Deployment", true, &["list"])],
                ),
            ],
        )],
    };
    let catalog = build(&snap);
    let v2 = catalog.iter().find(|r| r.group == "apps/v2").unwrap();
    let v1 = catalog.iter().find(|r| r.group == "apps/v1").unwrap();
    assert!(v2.preferred);
    assert!(!v1.preferred);
}

#[test]
fn preferred_flag_follows_declared_version() {
    let snap = DiscoverySnapshot {
        groups: vec![group(
            "apps",
            Some("v1"),
            vec![
                version(
                    "v2",
                    vec![res("deployments", "apps/v2", "apps", "Deployment", true, &["list"])],
                ),
                version(
                    "v1",
                    vec![res("deployments", "apps/v1", "apps", "Deployment", true, &["list"])],
                ),
            ],
        )],
    };
    let catalog = build(&snap);
    let v2 = catalog.iter().find(|r| r.group == "apps/v2").unwrap();
    let v1 = catalog.iter().find(|r| r.group == "apps/v1").unwrap();
    assert!(!v2.preferred);
    assert!(v1.preferred);
}

#[test]
fn roles_get_bind_and_escalate() {
    let snap = DiscoverySnapshot {
        groups: vec![group(
            "rbac.authorization.k8s.io",
            None,
            vec![version(
                "v1",
                vec![res(
                    "roles",
                    "rbac.authorization.k8s.io/v1",
                    "rbac.authorization.k8s.io",
                    "Role",
                    true,
                    &["list", "get"],
                )],
            )],
        )],
    };
    let catalog = build(&snap);
    let roles = catalog.iter().find(|r| r.name == "roles").unwrap();
    assert!(verb_sets_equal(
        &roles.verbs,
        &strs(&["list", "get", "bind", "escalate"])
    ));
}

#[test]
fn subresources_become_compound_entries() {
    let mut pods = res("pods", "v1", "", "Pod", true, &["list", "get"]);
    pods.subresources = vec![SubResource {
        plural: "status".to_string(),
        api_version: "v1".to_string(),
        kind: "Pod".to_string(),
        namespaced: true,
        verbs: strs(&["get", "patch"]),
    }];
    let snap = DiscoverySnapshot {
        groups: vec![group("", None, vec![version("v1", vec![pods])])],
    };
    let catalog = build(&snap);
    let sub = catalog.iter().find(|r| r.name == "pods/status").unwrap();
    assert_eq!(sub.group, "v1");
    assert_eq!(sub.kind, "Pod");
    assert!(sub.preferred);
    assert!(verb_sets_equal(&sub.verbs, &strs(&["get", "patch"])));
}

#[test]
fn empty_snapshot_yields_only_synthetics() {
    let snap = DiscoverySnapshot { groups: Vec::new() };
    let catalog = build(&snap);
    assert_eq!(names(&catalog), strs(&["users", "groups", "signers"]));
}

#[test]
fn group_without_versions_contributes_nothing() {
    let snap = DiscoverySnapshot {
        groups: vec![group("empty.example.com", None, Vec::new())],
    };
    let catalog = build(&snap);
    assert_eq!(names(&catalog), strs(&["users", "groups", "signers"]));
}
