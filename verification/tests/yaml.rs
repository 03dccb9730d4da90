use dnf_generator::yaml::{array_to_nix, deep_merge, YamlEntry, YamlKey, YamlNumber, YamlValue};
use serde_yaml::Value;

fn number(n: &serde_yaml::Number) -> YamlNumber {
    if let Some(u) = n.as_u64() {
        YamlNumber::PosInt(u)
    } else if let Some(i) = n.as_i64() {
        YamlNumber::NegInt(i)
    } else {
        YamlNumber::Float(n.as_f64().map(|f| f.to_string()).unwrap_or_default())
    }
}

fn float_text(n: &serde_yaml::Number) -> String {
    n.as_f64().map(|f| f.to_string()).unwrap_or_default()
}

fn key(k: &Value) -> YamlKey {
    match k {
        Value::Null => YamlKey::Null,
        Value::Bool(b) => YamlKey::Bool(*b),
        Value::Number(n) => YamlKey::Number(number(n)),
        Value::String(s) => YamlKey::Str(s.clone()),
        other => YamlKey::Other(serde_yaml::to_string(other).unwrap_or_default()),
    }
}

fn to_yaml(v: &Value) -> YamlValue {
    match v {
        Value::Null => YamlValue::Null,
        Value::Bool(b) => YamlValue::Bool(*b),
        Value::Number(n) => YamlValue::Number(number(n), float_text(n)),
        Value::String(s) => YamlValue::Str(s.clone()),
        Value::Sequence(items) => YamlValue::Sequence(items.iter().map(to_yaml).collect()),
        Value::Mapping(m) => YamlValue::Mapping(
            m.iter()
                .map(|(k, v)| YamlEntry { key: key(k), key_text: format!("{k:?}"), value: to_yaml(v) })
                .collect(),
        ),
        Value::Tagged(t) => YamlValue::Tagged(t.tag.to_string(), Box::new(to_yaml(&t.value))),
    }
}

fn key_value(k: &YamlKey) -> Value {
    match k {
        YamlKey::Null => Value::Null,
        YamlKey::Bool(b) => Value::Bool(*b),
        YamlKey::Number(n) => number_value(n),
        YamlKey::Str(s) => Value::String(s.clone()),
        YamlKey::Other(t) => serde_yaml::from_str(t).unwrap_or(Value::Null),
    }
}

fn number_value(n: &YamlNumber) -> Value {
    match n {
        YamlNumber::PosInt(u) => Value::from(*u),
        YamlNumber::NegInt(i) => Value::from(*i),
        YamlNumber::Float(t) => Value::from(t.parse::<f64>().unwrap_or(f64::NAN)),
    }
}

fn from_yaml(v: &YamlValue) -> Value {
    match v {
        YamlValue::Null => Value::Null,
        YamlValue::Bool(b) => Value::Bool(*b),
        YamlValue::Number(n, _) => number_value(n),
        YamlValue::Str(s) => Value::String(s.clone()),
        YamlValue::Sequence(items) => Value::Sequence(items.iter().map(from_yaml).collect()),
        YamlValue::Mapping(es) => {
            let mut m = serde_yaml::Mapping::new();
            for e in es {
                m.insert(key_value(&e.key), from_yaml(&e.value));
            }
            Value::Mapping(m)
        },
        YamlValue::Tagged(_, inner) => from_yaml(inner),
    }
}

fn yaml(src: &str) -> YamlValue {
    to_yaml(&serde_yaml::from_str::<Value>(src).unwrap())
}

fn nix(src: &str) -> String {
    array_to_nix(&yaml(src)).to_string()
}

#[test]
fn deep_merge_overlay_wins() {
    let base = yaml("a: 1\nb:\n  x: old\n  y: kept\n");
    let overlay = yaml("b:\n  x: new\nc: 3\n");
    let merged = from_yaml(&deep_merge(base, overlay));
    let m = merged.as_mapping().unwrap();
    let b = m.get(Value::from("b")).unwrap().as_mapping().unwrap();
    assert_eq!(b.get(Value::from("x")).unwrap().as_str(), Some("new"));
    assert_eq!(b.get(Value::from("y")).unwrap().as_str(), Some("kept"));
    assert_eq!(m.get(Value::from("c")).unwrap().as_i64(), Some(3));
}

#[test]
fn deep_merge_matches_serde_yaml_order() {
    // `b` is taken out (the last key moves into its slot) and goes last.
    let base = yaml("a: 1\nb: 2\nc: 3\n");
    let overlay = yaml("b: 20\nd: 4\n");
    let merged = deep_merge(base, overlay);
    let keys: Vec<String> = match &merged {
        YamlValue::Mapping(es) => es
            .iter()
            .map(|e| match &e.key {
                YamlKey::Str(s) => s.clone(),
                _ => String::new(),
            })
            .collect(),
        _ => panic!("expected a mapping"),
    };
    assert_eq!(keys, vec!["a", "c", "b", "d"]);
    assert_eq!(from_yaml(&merged).get("b").unwrap().as_i64(), Some(20));
}

#[test]
fn deep_merge_non_mapping_overlay_replaces() {
    let merged = deep_merge(yaml("a: 1"), yaml("- x"));
    assert_eq!(array_to_nix(&merged).to_string(), r#"[ "x" ]"#);
    let merged = deep_merge(yaml("- x"), yaml("a: 1"));
    assert_eq!(array_to_nix(&merged).to_string(), "{ a = 1; }");
}

#[test]
fn string_scalar() {
    assert_eq!(nix("hello"), r#""hello""#);
}

#[test]
fn bool_true() {
    assert_eq!(nix("true"), "true");
}

#[test]
fn int_scalar() {
    assert_eq!(nix("42"), "42");
}

#[test]
fn sequence_becomes_list() {
    assert_eq!(nix("- a\n- b"), r#"[ "a" "b" ]"#);
}

#[test]
fn mapping_becomes_attr_set() {
    assert_eq!(nix("key: val"), r#"{ key = "val"; }"#);
}

#[test]
fn null_becomes_empty_attr_set() {
    assert_eq!(nix("~"), "{ }");
}

#[test]
fn nested_mapping() {
    assert_eq!(nix("outer:\n  inner: 1"), "{ outer = { inner = 1; }; }");
}

#[test]
fn mixed_types_in_mapping() {
    let out = nix("name: foo\nenabled: true\ncount: 3");
    assert!(out.contains(r#"name = "foo""#));
    assert!(out.contains("enabled = true"));
    assert!(out.contains("count = 3"));
}

#[test]
fn numbers_beyond_i64_and_floats_use_float_text() {
    assert_eq!(nix("-5"), "-5");
    assert_eq!(nix("1.5"), "1.5");
    assert_eq!(nix("18446744073709551615"), "18446744073709552000");
}

#[test]
fn non_string_key_uses_debug_text() {
    assert_eq!(nix("1: a"), r#"{ "Number(1)" = "a"; }"#);
}

#[test]
fn deep_merge_keys_are_base_and_overlay_keys() {
    let merged = from_yaml(&deep_merge(yaml("a: 1\nb: 2\n"), yaml("b: 3\nc: 4\n")));
    let mut keys: Vec<String> =
        merged.as_mapping().unwrap().keys().map(|k| k.as_str().unwrap().to_string()).collect();
    keys.sort();
    assert_eq!(keys, vec!["a", "b", "c"]);
}
