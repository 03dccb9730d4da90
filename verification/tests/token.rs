use dnf_generator::token::{NixAttrSet, NixItem, NixList, NixValue};

#[test]
fn empty_list() {
    assert_eq!(NixList::new().to_string(), "[ ]");
}

#[test]
fn list_with_strings() {
    let mut list = NixList::new();
    list.add_string("alpha");
    list.add_string("beta");
    assert_eq!(list.to_string(), r#"[ "alpha" "beta" ]"#);
}

#[test]
fn from_strings_helper() {
    let list = NixList::from_strings(&["a", "b", "c"]);
    assert_eq!(list.to_string(), r#"[ "a" "b" "c" ]"#);
}

#[test]
fn empty_attr_set() {
    assert_eq!(NixAttrSet::new().to_string(), "{ }");
}

#[test]
fn simple_key() {
    let mut s = NixAttrSet::new();
    s.set_string("name", "alice");
    assert_eq!(s.to_string(), r#"{ name = "alice"; }"#);
}

#[test]
fn complex_key_with_dots() {
    let mut s = NixAttrSet::new();
    s.set_string("10.0.0.1", "gateway");
    assert_eq!(s.to_string(), r#"{ "10.0.0.1" = "gateway"; }"#);
}

#[test]
fn bool_value() {
    let mut s = NixAttrSet::new();
    s.set_bool("enable", true);
    assert_eq!(s.to_string(), "{ enable = true; }");
}

#[test]
fn int_value() {
    let mut s = NixAttrSet::new();
    s.set_int("uid", 1000);
    assert_eq!(s.to_string(), "{ uid = 1000; }");
}

#[test]
fn nested_attr_set() {
    let mut inner = NixAttrSet::new();
    inner.set_bool("enable", true);
    let mut outer = NixAttrSet::new();
    outer.set("service", NixItem::AttrSet(inner));
    assert_eq!(outer.to_string(), "{ service = { enable = true; }; }");
}

#[test]
fn insertion_order_preserved() {
    let mut s = NixAttrSet::new();
    s.set_string("z", "last");
    s.set_string("a", "first");
    let out = s.to_string();
    assert!(out.find("z =").unwrap() < out.find("a =").unwrap());
}

#[test]
fn string_display() {
    assert_eq!(NixValue::string("hello").to_string(), r#""hello""#);
}

#[test]
fn string_with_quotes_escaped() {
    assert_eq!(NixValue::string(r#"say "hi""#).to_string(), r#""say \"hi\"""#);
}

#[test]
fn bool_display() {
    assert_eq!(NixValue::bool(true).to_string(), "true");
    assert_eq!(NixValue::bool(false).to_string(), "false");
}

#[test]
fn int_display() {
    assert_eq!(NixValue::integer(42).to_string(), "42");
}

#[test]
fn float_display() {
    let pi = std::f64::consts::PI;
    assert_eq!(NixValue::Float(pi.to_string()).to_string(), "3.141592653589793");
}

#[test]
fn set_again_keeps_position_and_takes_new_value() {
    let mut s = NixAttrSet::new();
    s.set_string("a", "one");
    s.set_string("b", "two");
    s.set_string("a", "three");
    assert_eq!(s.to_string(), r#"{ a = "three"; b = "two"; }"#);
}

#[test]
fn backslash_escaped_before_quote() {
    assert_eq!(NixValue::string(r#"a\"b"#).to_string(), r#""a\\\"b""#);
}

#[test]
fn negative_int_and_nested_list() {
    let mut l = NixList::new();
    l.add(NixItem::Value(NixValue::integer(-7)));
    l.add(NixItem::List(NixList::from_strings(&["x"])));
    assert_eq!(NixItem::List(l).to_string(), r#"[ -7 [ "x" ] ]"#);
}
