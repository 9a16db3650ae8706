use serde_yaml_ng::Value;
use unity_scope::merge::load_container;
use unity_scope::merge::save_merge;
use unity_scope::ScopeError;

const DOC: &str = "# one\n# two\n# three\nMonoBehaviour:\n  a: 1\n  b: 2\nother: 5\n";

fn updates(pairs: Vec<(&str, Value)>) -> Vec<(String, Value)> {
    pairs.into_iter().map(|(k, v)| (k.to_string(), v)).collect()
}

#[test]
fn test_merge_scenario_upsert() {
    let out = save_merge(DOC, &updates(vec![("b", Value::from(3i64))])).unwrap();
    let doc: Value = serde_yaml_ng::from_str(&out).unwrap();
    assert_eq!(doc["MonoBehaviour"]["a"], Value::from(1i64));
    assert_eq!(doc["MonoBehaviour"]["b"], Value::from(3i64));
}

#[test]
fn test_merge_preserves_header_and_unrelated_fields() {
    let out = save_merge(DOC, &updates(vec![("b", Value::from(3i64))])).unwrap();
    let head: Vec<&str> = out.split('\n').take(3).collect();
    assert_eq!(head, vec!["# one", "# two", "# three"]);
    let doc: Value = serde_yaml_ng::from_str(&out).unwrap();
    assert_eq!(doc["other"], Value::from(5i64));
    assert_eq!(doc["MonoBehaviour"]["a"], Value::from(1i64));
}

#[test]
fn test_merge_appends_new_fields_in_order() {
    let out = save_merge(
        DOC,
        &updates(vec![
            ("b", Value::from(9i64)),
            ("d", Value::String("new".to_string())),
        ]),
    )
    .unwrap();
    let doc: Value = serde_yaml_ng::from_str(&out).unwrap();
    let mapping = doc["MonoBehaviour"].as_mapping().unwrap();
    let keys: Vec<String> = mapping
        .iter()
        .map(|(k, _)| k.as_str().unwrap().to_string())
        .collect();
    assert_eq!(keys, vec!["a", "b", "d"]);
    assert_eq!(doc["MonoBehaviour"]["b"], Value::from(9i64));
    assert_eq!(doc["MonoBehaviour"]["d"], Value::String("new".to_string()));
}

#[test]
fn test_save_then_load_returns_saved_fields() {
    let saved = updates(vec![
        ("name", Value::String("coconut".to_string())),
        ("count", Value::from(7i64)),
        ("b", Value::from(4i64)),
    ]);
    let out = save_merge(DOC, &saved).unwrap();
    let loaded = load_container(&out).unwrap();
    for (k, v) in &saved {
        assert_eq!(loaded.get(k.as_str()).unwrap(), v);
    }
}

#[test]
fn test_load_container_reads_existing_fields() {
    let loaded = load_container(DOC).unwrap();
    assert_eq!(loaded.get("a").unwrap(), &Value::from(1i64));
    assert_eq!(loaded.get("b").unwrap(), &Value::from(2i64));
}

#[test]
fn test_save_invalid_yaml_fails() {
    let r = save_merge("a: [1, 2\n", &updates(vec![]));
    assert!(matches!(r, Err(ScopeError::YamlError(_))));
}

#[test]
fn test_load_invalid_yaml_fails() {
    let r = load_container("a: [1, 2\n");
    assert!(matches!(r, Err(ScopeError::YamlError(_))));
}

#[test]
fn test_save_missing_container_fails() {
    let r = save_merge("foo: 1\n", &updates(vec![("a", Value::from(1i64))]));
    assert!(matches!(r, Err(ScopeError::GenericInvalidFormat)));
}

#[test]
fn test_save_container_not_mapping_fails() {
    let r = save_merge("MonoBehaviour: 5\n", &updates(vec![("a", Value::from(1i64))]));
    assert!(matches!(r, Err(ScopeError::GenericInvalidFormat)));
}

#[test]
fn test_load_missing_container_fails() {
    let r = load_container("foo: 1\n");
    assert!(matches!(r, Err(ScopeError::GenericInvalidFormat)));
}

const SCRIPTABLE_DOC: &str = "# h1\n# h2\n# h3\nMonoBehaviour:\n  longStringVal: hello\n  debugEnumVal: 0\n  stringListVal: []\n";

#[test]
fn test_load_scriptable_object() {
    let loaded = load_container(SCRIPTABLE_DOC).unwrap();
    assert_eq!(
        loaded.get("longStringVal").unwrap(),
        &Value::String("hello".to_string())
    );
    assert_eq!(loaded.get("debugEnumVal").unwrap(), &Value::from(0i64));
}

#[test]
fn test_save_scriptable_object() {
    let list = Value::Sequence(vec![Value::String("Str".to_string())]);
    let out = save_merge(
        SCRIPTABLE_DOC,
        &updates(vec![
            (
                "longStringVal",
                Value::String("This is an another new value!".to_string()),
            ),
            ("debugEnumVal", Value::from(1i64)),
            ("stringListVal", list.clone()),
        ]),
    )
    .unwrap();
    let reloaded = load_container(&out).unwrap();
    assert_eq!(
        reloaded.get("longStringVal").unwrap(),
        &Value::String("This is an another new value!".to_string())
    );
    assert_eq!(reloaded.get("debugEnumVal").unwrap(), &Value::from(1i64));
    assert_eq!(reloaded.get("stringListVal").unwrap(), &list);
}

#[test]
fn test_short_document_header_is_whole_text() {
    let text = "MonoBehaviour:\n  a: 1";
    let out = save_merge(text, &updates(vec![("a", Value::from(2i64))])).unwrap();
    assert!(out.starts_with("MonoBehaviour:\n  a: 1\n"));
    let doc: Value = serde_yaml_ng::from_str(out.split_once("a: 1\n").unwrap().1).unwrap();
    assert_eq!(doc["MonoBehaviour"]["a"], Value::from(2i64));
}
