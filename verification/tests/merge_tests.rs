use kubedump::verbs::{merge_vecs, verb_sets_equal};

fn strs(xs: &[&str]) -> Vec<String> {
    xs.iter().map(|s| s.to_string()).collect()
}

#[test]
fn merge_deduplicates() {
    let r = merge_vecs(strs(&["list", "get", "get"]), strs(&["get"]));
    assert_eq!(r.len(), 2);
    assert!(verb_sets_equal(&r, &strs(&["get", "list"])));
}

#[test]
fn merge_is_commutative_as_sets() {
    let a = strs(&["list", "get", "delete"]);
    let b = strs(&["get", "impersonate"]);
    let ab = merge_vecs(a.clone(), b.clone());
    let ba = merge_vecs(b, a);
    assert!(verb_sets_equal(&ab, &ba));
}

#[test]
fn merge_is_idempotent_on_repeated_application() {
    let a = strs(&["list", "get"]);
    let b = strs(&["get", "impersonate"]);
    let m = merge_vecs(a, b.clone());
    let again = merge_vecs(m.clone(), b);
    assert!(verb_sets_equal(&again, &m));
    assert_eq!(again.len(), m.len());
}

#[test]
fn merge_size_is_bounded() {
    let a = strs(&["list", "get", "watch"]);
    let b = strs(&["get", "watch", "bind"]);
    let r = merge_vecs(a.clone(), b.clone());
    assert!(r.len() <= a.len() + b.len());
}

#[test]
fn merge_of_empty_inputs() {
    let r = merge_vecs(Vec::new(), Vec::new());
    assert!(r.is_empty());
    let r = merge_vecs(strs(&["list"]), Vec::new());
    assert!(verb_sets_equal(&r, &strs(&["list"])));
}

#[test]
fn serviceaccounts_augmentation_merges_impersonate() {
    let merged = merge_vecs(strs(&["list", "get"]), strs(&["impersonate"]));
    assert!(verb_sets_equal(&merged, &strs(&["list", "get", "impersonate"])));
}
