use teshi::storage::{
    delete_feature, delete_file, list_features, list_files, load_feature, load_file, load_settings,
    save_feature, save_file, save_settings, StorageRequest,
};

fn store(key: &str, value: &str) -> StorageRequest {
    StorageRequest::Store { key: key.to_string(), value: value.to_string() }
}

fn load(key: &str) -> StorageRequest {
    StorageRequest::Load { key: key.to_string() }
}

fn remove(key: &str) -> StorageRequest {
    StorageRequest::Remove { key: key.to_string() }
}

#[test]
fn file_requests_use_namespaced_keys() {
    assert_eq!(save_file("notes", "hello"), store("teshi:notes", "hello"));
    assert_eq!(load_file("notes"), load("teshi:notes"));
    assert_eq!(delete_file("notes"), remove("teshi:notes"));
}

#[test]
fn feature_requests_use_feature_keys() {
    assert_eq!(
        save_feature("features/login.feature", "Feature: Login"),
        store("teshi:feature:features/login.feature", "Feature: Login")
    );
    assert_eq!(load_feature("features/login.feature"), load("teshi:feature:features/login.feature"));
    assert_eq!(delete_feature("a.feature"), remove("teshi:feature:a.feature"));
}

#[test]
fn settings_requests_use_settings_key() {
    assert_eq!(save_settings("{\"k\":1}"), store("teshi:settings", "{\"k\":1}"));
    assert_eq!(load_settings(), load("teshi:settings"));
}

#[test]
fn empty_name_and_content_are_kept() {
    assert_eq!(save_file("", ""), store("teshi:", ""));
}

#[test]
fn list_files_strips_prefix_and_skips_foreign_keys() {
    let keys = vec![
        "teshi:feature:a.feature".to_string(),
        "other:thing".to_string(),
        "teshi:settings".to_string(),
        "teshi".to_string(),
        "teshi:".to_string(),
    ];
    assert_eq!(list_files(&keys), vec!["feature:a.feature", "settings", ""]);
}

#[test]
fn list_features_strips_feature_prefix() {
    let files = vec![
        "feature:a.feature".to_string(),
        "settings".to_string(),
        "feature:dir/b.feature".to_string(),
    ];
    assert_eq!(list_features(&files), vec!["a.feature", "dir/b.feature"]);
}

#[test]
fn saved_feature_is_listed_back() {
    let name = "features/checkout.feature";
    let key = match save_feature(name, "Feature: Checkout") {
        StorageRequest::Store { key, .. } => key,
        other => panic!("unexpected request {:?}", other),
    };
    let keys = vec!["unrelated".to_string(), key, "teshi:settings".to_string()];
    let files = list_files(&keys);
    assert_eq!(list_features(&files), vec![name]);
}

/// Runs a request against a map standing in for the browser's storage.
fn run(m: &mut std::collections::BTreeMap<String, String>, r: StorageRequest) -> Option<String> {
    match r {
        StorageRequest::Store { key, value } => {
            m.insert(key, value);
            None
        }
        StorageRequest::Load { key } => m.get(&key).cloned(),
        StorageRequest::Remove { key } => {
            m.remove(&key);
            None
        }
    }
}

#[test]
fn storage_reads_back_what_was_saved() {
    let mut m = std::collections::BTreeMap::new();
    run(&mut m, save_feature("login.feature", "Feature: Login"));
    run(&mut m, save_settings("{\"theme\":\"dark\"}"));
    run(&mut m, save_file("notes", "hi"));
    assert_eq!(run(&mut m, load_feature("login.feature")), Some("Feature: Login".to_string()));
    assert_eq!(run(&mut m, load_settings()), Some("{\"theme\":\"dark\"}".to_string()));
    assert_eq!(run(&mut m, load_file("notes")), Some("hi".to_string()));

    run(&mut m, delete_feature("login.feature"));
    assert_eq!(run(&mut m, load_feature("login.feature")), None);
    assert_eq!(run(&mut m, load_file("notes")), Some("hi".to_string()));
    let keys: Vec<String> = m.keys().cloned().collect();
    assert!(!list_features(&list_files(&keys)).contains(&"login.feature".to_string()));

    run(&mut m, delete_file("notes"));
    assert_eq!(run(&mut m, load_file("notes")), None);
}
