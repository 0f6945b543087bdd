use json_ld::compaction::add_value;
use json_ld::json::{json_ld_eq, reversed, Number, Object, Value, ValueRef};
use json_ld::object::node::Node;
use json_ld::object::value::{LangString, Literal, Value as DocValue};
use json_ld::object::{Indexed, Object as Doc};
use json_ld::lang::LanguageTagBuf;

fn s(x: &str) -> Value {
    Value::String(x.to_string())
}

fn n(x: i64) -> Value {
    Value::Number(Number::from_i64(x))
}

fn object(entries: Vec<(&str, Value)>) -> Value {
    let mut o = Object::new();
    for (k, v) in entries {
        o.insert(k.to_string(), v);
    }
    Value::Object(o)
}

#[test]
fn number_from_integer() {
    assert_eq!(Number::from_i64(0), Number { positive: true, mantissa: 0, exponent: 0 });
    assert_eq!(Number::from_i64(42), Number { positive: true, mantissa: 42, exponent: 0 });
    assert_eq!(Number::from_i64(-42), Number { positive: false, mantissa: 42, exponent: 0 });
    assert_eq!(
        Number::from_i64(i64::MIN),
        Number { positive: false, mantissa: 9223372036854775808, exponent: 0 }
    );
    assert!(Number::from_i64(0).is_zero());
    assert!(!Number::from_i64(1).is_zero());
}

#[test]
fn object_keeps_the_order_of_its_keys() {
    let mut o = Object::new();
    assert!(o.is_empty());
    o.insert("b".to_string(), n(1));
    o.insert("a".to_string(), n(2));
    o.insert("b".to_string(), n(3));
    assert_eq!(o.len(), 2);
    assert_eq!(o.entries, vec![("b".to_string(), n(3)), ("a".to_string(), n(2))]);
    assert_eq!(o.get("a"), Some(&n(2)));
    assert_eq!(o.get("c"), None);
    assert_eq!(o.index_of("a"), Some(1));
    assert!(o.contains_key("b"));
    assert_eq!(o.replace_at(0, s("x")), n(3));
    assert_eq!(o.remove("b"), Some(s("x")));
    assert_eq!(o.remove("b"), None);
    assert_eq!(o.entries, vec![("a".to_string(), n(2))]);
}

#[test]
fn clone_is_deep() {
    let v = object(vec![("a", Value::Array(vec![n(1), object(vec![("b", Value::Null)])]))]);
    let c = v.clone();
    assert_eq!(c, v);
}

#[test]
fn kinds_of_values() {
    let v = object(vec![("a", n(1))]);
    assert!(v.is_object() && !v.is_array() && !v.is_null() && !v.is_string());
    assert_eq!(v.get("a"), Some(&n(1)));
    assert_eq!(n(1).get("a"), None);
    assert_eq!(s("x").as_str(), Some("x"));
    assert_eq!(n(1).as_str(), None);
    assert_eq!(Value::Boolean(true).as_bool(), Some(true));
    assert_eq!(n(5).as_number(), Some(&Number::from_i64(5)));
    assert!(v.as_object().is_some());
    assert!(Value::Null.as_ref().is_null());
    assert!(n(1).as_ref().is_number());
    assert!(matches!(s("x").as_ref(), ValueRef::String("x")));
}

#[test]
fn empty_values() {
    for v in [Value::Null, Value::Boolean(false), n(0), s(""), Value::Array(vec![]), object(vec![])] {
        assert!(v.is_empty(), "{:?}", v);
    }
    for v in [Value::Boolean(true), n(1), s("x"), Value::Array(vec![Value::Null]), object(vec![("a", Value::Null)])] {
        assert!(!v.is_empty(), "{:?}", v);
    }
}

#[test]
fn reversed_items() {
    assert_eq!(reversed(vec![1, 2, 3]), vec![3, 2, 1]);
    assert_eq!(reversed(Vec::<u8>::new()), Vec::<u8>::new());
}

#[test]
fn first_value_stands_alone() {
    let mut o = Object::new();
    add_value(&mut o, "k", s("a"), false);
    assert_eq!(Value::Object(o), object(vec![("k", s("a"))]));
}

#[test]
fn first_value_in_an_array_when_asked() {
    let mut o = Object::new();
    add_value(&mut o, "k", s("a"), true);
    assert_eq!(Value::Object(o), object(vec![("k", Value::Array(vec![s("a")]))]));
}

#[test]
fn second_value_makes_an_array() {
    let mut o = Object::new();
    add_value(&mut o, "k", s("a"), false);
    add_value(&mut o, "other", n(0), false);
    add_value(&mut o, "k", s("b"), false);
    add_value(&mut o, "k", s("c"), false);
    assert_eq!(
        Value::Object(o),
        object(vec![("k", Value::Array(vec![s("a"), s("b"), s("c")])), ("other", n(0))])
    );
}

#[test]
fn array_is_added_item_by_item() {
    let mut o = Object::new();
    add_value(&mut o, "k", s("a"), false);
    add_value(&mut o, "k", Value::Array(vec![s("b"), Value::Array(vec![s("c"), s("d")])]), false);
    assert_eq!(
        Value::Object(o),
        object(vec![("k", Value::Array(vec![s("a"), s("b"), s("c"), s("d")]))])
    );
}

#[test]
fn empty_array_adds_nothing_unless_asked() {
    let mut o = Object::new();
    add_value(&mut o, "k", Value::Array(vec![]), false);
    assert_eq!(Value::Object(o), object(vec![]));
    let mut o = Object::new();
    add_value(&mut o, "k", Value::Array(vec![]), true);
    assert_eq!(Value::Object(o), object(vec![("k", Value::Array(vec![]))]));
    let mut o = Object::new();
    add_value(&mut o, "k", s("a"), false);
    add_value(&mut o, "k", Value::Array(vec![]), false);
    assert_eq!(Value::Object(o), object(vec![("k", Value::Array(vec![s("a")]))]));
}

#[test]
fn single_item_array_added_to_nothing_stands_alone() {
    let mut o = Object::new();
    add_value(&mut o, "k", Value::Array(vec![s("a")]), false);
    assert_eq!(Value::Object(o), object(vec![("k", s("a"))]));
}

#[test]
fn documents_are_the_same_whatever_the_order_in_arrays() {
    let a = object(vec![("x", Value::Array(vec![n(1), n(2), s("a")])), ("y", Value::Null)]);
    let b = object(vec![("y", Value::Null), ("x", Value::Array(vec![s("a"), n(1), n(2)]))]);
    assert!(json_ld_eq(&a, &b));
    let c = object(vec![("y", Value::Null), ("x", Value::Array(vec![s("a"), n(1), n(1)]))]);
    assert!(!json_ld_eq(&a, &c));
    assert!(!json_ld_eq(&a, &object(vec![("x", Value::Array(vec![n(1), n(2), s("a")]))])));
    assert!(!json_ld_eq(&n(1), &s("1")));
}

#[test]
fn lists_are_compared_in_their_order() {
    let a = object(vec![("@list", Value::Array(vec![n(1), n(2)]))]);
    let b = object(vec![("@list", Value::Array(vec![n(2), n(1)]))]);
    assert!(json_ld_eq(&a, &a.clone()));
    assert!(!json_ld_eq(&a, &b));
    let c = object(vec![("other", Value::Array(vec![n(1), n(2)]))]);
    let d = object(vec![("other", Value::Array(vec![n(2), n(1)]))]);
    assert!(json_ld_eq(&c, &d));
}

#[test]
fn booleans_never_count_as_the_same() {
    assert!(!json_ld_eq(&Value::Boolean(true), &Value::Boolean(true)));
    assert!(json_ld_eq(&Value::Null, &Value::Null));
}

#[test]
fn value_objects_in_expanded_form() {
    let typed = DocValue::Literal(Literal::Number(Number::from_i64(1)), Some("http://ex/T".to_string()));
    assert_eq!(
        Value::Object(typed.as_json()),
        object(vec![("@value", n(1)), ("@type", s("http://ex/T"))])
    );
    let tag = LanguageTagBuf::parse("en").unwrap();
    let ls = DocValue::LangString(
        LangString::new("Hi".to_string(), Some(tag), Some(json_ld::direction::Direction::Ltr)).unwrap(),
    );
    assert_eq!(
        Value::Object(ls.as_json()),
        object(vec![("@value", s("Hi")), ("@language", s("en")), ("@direction", s("ltr"))])
    );
    let j = DocValue::Json(object(vec![("a", n(1))]));
    assert_eq!(
        Value::Object(j.as_json()),
        object(vec![("@value", object(vec![("a", n(1))])), ("@type", s("@json"))])
    );
}

#[test]
fn node_in_expanded_form() {
    let text = |x: &str| Indexed::new(Doc::Value(DocValue::Literal(Literal::String(x.to_string()), None)), None);
    let mut node = Node::with_id("http://ex/a".to_string());
    node.types.push("http://ex/T".to_string());
    node.insert("http://ex/name".to_string(), text("A"));
    node.insert(
        "http://ex/list".to_string(),
        Indexed::new(Doc::List(vec![text("x")]), Some("i".to_string())),
    );
    node.insert_reverse(
        "http://ex/child".to_string(),
        Indexed::new(Node::with_id("http://ex/p".to_string()), None),
    );
    node.set_graph(Some(vec![Indexed::new(Doc::Node(Node::new()), None)]));
    node.set_included(Some(vec![Indexed::new(Node::with_id("http://ex/i".to_string()), None)]));
    let expected = object(vec![
        ("@id", s("http://ex/a")),
        ("@type", Value::Array(vec![s("http://ex/T")])),
        ("@graph", Value::Array(vec![object(vec![])])),
        ("@included", Value::Array(vec![object(vec![("@id", s("http://ex/i"))])])),
        (
            "@reverse",
            object(vec![("http://ex/child", Value::Array(vec![object(vec![("@id", s("http://ex/p"))])]))]),
        ),
        ("http://ex/name", Value::Array(vec![object(vec![("@value", s("A"))])])),
        (
            "http://ex/list",
            Value::Array(vec![object(vec![
                ("@list", Value::Array(vec![object(vec![("@value", s("x"))])])),
                ("@index", s("i")),
            ])]),
        ),
    ]);
    assert_eq!(Value::Object(node.as_json()), expected);
    assert_eq!(Value::Object(Doc::Node(node).as_json()), expected);
}
