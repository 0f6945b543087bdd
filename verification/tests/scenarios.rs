use json_ld::compaction::iri::compact_iri;
use json_ld::compaction::Options;
use json_ld::context::definition::TermDefinition;
use json_ld::context::inverse::Inversible;
use json_ld::context::{Context, Resolver};
use json_ld::direction::Direction;
use json_ld::document::compact_with;
use json_ld::json::{Number, Object, Value};
use json_ld::lang::LanguageTagBuf;
use json_ld::object::node::Node;
use json_ld::object::value::{LangString, Literal};
use json_ld::object::{Indexed, Object as Doc};
use json_ld::syntax::{Container, ContainerType, Term};

fn s(x: &str) -> Value {
    Value::String(x.to_string())
}

fn num(n: i64) -> Value {
    Value::Number(Number::from_i64(n))
}

fn obj(entries: Vec<(&str, Value)>) -> Value {
    let mut o = Object::new();
    for (k, v) in entries {
        o.insert(k.to_string(), v);
    }
    Value::Object(o)
}

fn same(a: &Value, b: &Value) -> bool {
    match (a, b) {
        (Value::Object(x), Value::Object(y)) => {
            x.len() == y.len()
                && x.entries.iter().all(|(k, v)| match y.get(k) {
                    Some(w) => same(v, w),
                    None => false,
                })
        }
        (Value::Array(x), Value::Array(y)) => {
            x.len() == y.len() && x.iter().zip(y.iter()).all(|(v, w)| same(v, w))
        }
        _ => a == b,
    }
}

fn plain(text: &str) -> Indexed<Doc> {
    Indexed::new(
        Doc::Value(json_ld::object::value::Value::Literal(
            Literal::String(text.to_string()),
            None,
        )),
        None,
    )
}

fn tagged(text: &str, lang: &str) -> Indexed<Doc> {
    let tag = LanguageTagBuf::parse(lang).unwrap();
    let ls = LangString::new(text.to_string(), Some(tag), None).unwrap();
    Indexed::new(Doc::Value(json_ld::object::value::Value::LangString(ls)), None)
}

fn number(n: i64) -> Indexed<Doc> {
    Indexed::new(
        Doc::Value(json_ld::object::value::Value::Literal(
            Literal::Number(Number::from_i64(n)),
            None,
        )),
        None,
    )
}

fn with_container(iri: &str, flags: &[ContainerType]) -> TermDefinition {
    let mut d = TermDefinition::simple(iri);
    let mut c = Container::new();
    for f in flags {
        c = c.with(*f);
    }
    d.container = c;
    d
}

#[test]
fn alias_only() {
    let mut ctx = Context::new(None);
    ctx.set("name".to_string(), TermDefinition::simple("http://schema.org/name"));
    let mut node = Node::with_id("u1".to_string());
    node.insert("http://schema.org/name".to_string(), plain("Ann"));
    let expanded = vec![Indexed::new(Doc::Node(node), None)];
    let json_context = obj(vec![("name", s("http://schema.org/name"))]);
    let resolver = Resolver::new();
    let active = Inversible::new(&ctx);
    let out = compact_with(&resolver, &expanded, &active, json_context, Options::default()).unwrap();
    let expected = obj(vec![
        ("@context", obj(vec![("name", s("http://schema.org/name"))])),
        ("@id", s("u1")),
        ("name", s("Ann")),
    ]);
    assert!(same(&out, &expected), "{:?}", out);
}

#[test]
fn language_map() {
    let mut ctx = Context::new(None);
    ctx.set(
        "label".to_string(),
        with_container("http://ex/label", &[ContainerType::Language]),
    );
    let mut node = Node::new();
    node.insert("http://ex/label".to_string(), tagged("Hi", "en"));
    node.insert("http://ex/label".to_string(), tagged("Salut", "fr"));
    node.insert("http://ex/label".to_string(), plain("Hej"));
    let expanded = vec![Indexed::new(Doc::Node(node), None)];
    let resolver = Resolver::new();
    let active = Inversible::new(&ctx);
    let out = compact_with(&resolver, &expanded, &active, Value::Null, Options::default()).unwrap();
    let expected = obj(vec![(
        "label",
        obj(vec![("en", s("Hi")), ("fr", s("Salut")), ("@none", s("Hej"))]),
    )]);
    assert!(same(&out, &expected), "{:?}", out);
}

#[test]
fn list_container() {
    let mut ctx = Context::new(None);
    ctx.set(
        "items".to_string(),
        with_container("http://ex/items", &[ContainerType::List]),
    );
    let mut node = Node::new();
    node.insert(
        "http://ex/items".to_string(),
        Indexed::new(Doc::List(vec![number(1), number(2)]), None),
    );
    let expanded = vec![Indexed::new(Doc::Node(node), None)];
    let resolver = Resolver::new();
    let active = Inversible::new(&ctx);
    let out = compact_with(&resolver, &expanded, &active, Value::Null, Options::default()).unwrap();
    let expected = obj(vec![("items", Value::Array(vec![num(1), num(2)]))]);
    assert!(same(&out, &expected), "{:?}", out);
}

#[test]
fn graph_and_index() {
    let mut ctx = Context::new(None);
    ctx.set(
        "g".to_string(),
        with_container("http://ex/g", &[ContainerType::Graph, ContainerType::Index]),
    );
    let mut a = Node::new();
    a.set_graph(Some(vec![Indexed::new(
        Doc::Node(Node::with_id("http://ex/a".to_string())),
        None,
    )]));
    let mut b = Node::new();
    b.set_graph(Some(vec![Indexed::new(
        Doc::Node(Node::with_id("http://ex/b".to_string())),
        None,
    )]));
    let mut node = Node::new();
    node.insert(
        "http://ex/g".to_string(),
        Indexed::new(Doc::Node(a), Some("A".to_string())),
    );
    node.insert(
        "http://ex/g".to_string(),
        Indexed::new(Doc::Node(b), Some("B".to_string())),
    );
    let expanded = vec![Indexed::new(Doc::Node(node), None)];
    let resolver = Resolver::new();
    let active = Inversible::new(&ctx);
    let out = compact_with(&resolver, &expanded, &active, Value::Null, Options::default()).unwrap();
    let expected = obj(vec![(
        "g",
        obj(vec![
            ("A", obj(vec![("@id", s("http://ex/a"))])),
            ("B", obj(vec![("@id", s("http://ex/b"))])),
        ]),
    )]);
    assert!(same(&out, &expected), "{:?}", out);
}

#[test]
fn compact_iri_fallback() {
    let mut ctx = Context::new(None);
    let mut ex = TermDefinition::simple("http://ex/");
    ex.prefix = true;
    ctx.set("ex".to_string(), ex);
    let active = Inversible::new(&ctx);
    let out = compact_iri(
        &active,
        &Term::Ref("http://ex/foo".to_string()),
        true,
        false,
        Options::default(),
    );
    assert_eq!(out, Ok(Some("ex:foo".to_string())));
}

#[test]
fn reverse_property() {
    let mut ctx = Context::new(None);
    let mut parent = TermDefinition::simple("http://ex/child");
    parent.reverse_property = true;
    ctx.set("parent".to_string(), parent);
    let mut node = Node::new();
    node.insert_reverse(
        "http://ex/child".to_string(),
        Indexed::new(Node::with_id("u2".to_string()), None),
    );
    let expanded = vec![Indexed::new(Doc::Node(node), None)];
    let resolver = Resolver::new();
    let active = Inversible::new(&ctx);
    let out = compact_with(&resolver, &expanded, &active, Value::Null, Options::default()).unwrap();
    let expected = obj(vec![("parent", obj(vec![("@id", s("u2"))]))]);
    assert!(same(&out, &expected), "{:?}", out);
}

#[test]
fn direction_names() {
    assert_eq!(Direction::try_from("ltr"), Ok(Direction::Ltr));
    assert_eq!(Direction::try_from("rtl"), Ok(Direction::Rtl));
    assert_eq!(Direction::try_from("up"), Err("up"));
    assert_eq!(Direction::Ltr.as_str(), "ltr");
    assert_eq!(Direction::Rtl.as_str(), "rtl");
}
