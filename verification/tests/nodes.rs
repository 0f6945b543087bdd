use json_ld::compaction::node::compact_indexed_node_with;
use json_ld::compaction::{compact_collection_with, compact_indexed_with, Options};
use json_ld::context::definition::TermDefinition;
use json_ld::context::inverse::Inversible;
use json_ld::context::{Context, Resolver};
use json_ld::document::compact_with;
use json_ld::error::Error;
use json_ld::json::{Number, Object, Value as Json};
use json_ld::object::node::Node;
use json_ld::object::value::{Literal, Value};
use json_ld::object::{Indexed, Object as Doc};
use json_ld::syntax::{Container, ContainerType, Keyword, Term, Type};

fn s(x: &str) -> Json {
    Json::String(x.to_string())
}

fn n(x: i64) -> Json {
    Json::Number(Number::from_i64(x))
}

fn object(entries: Vec<(&str, Json)>) -> Json {
    let mut o = Object::new();
    for (k, v) in entries {
        o.insert(k.to_string(), v);
    }
    Json::Object(o)
}

fn text(x: &str) -> Indexed<Doc> {
    Indexed::new(Doc::Value(Value::Literal(Literal::String(x.to_string()), None)), None)
}

fn text_at(x: &str, index: &str) -> Indexed<Doc> {
    Indexed::new(
        Doc::Value(Value::Literal(Literal::String(x.to_string()), None)),
        Some(index.to_string()),
    )
}

fn number(x: i64) -> Indexed<Doc> {
    Indexed::new(Doc::Value(Value::Literal(Literal::Number(Number::from_i64(x)), None)), None)
}

fn node(n: Node) -> Indexed<Doc> {
    Indexed::new(Doc::Node(n), None)
}

fn term(iri: &str, flags: &[ContainerType]) -> TermDefinition {
    let mut d = TermDefinition::simple(iri);
    let mut c = Container::new();
    for f in flags {
        c = c.with(*f);
    }
    d.container = c;
    d
}

fn run(ctx: &Context, n: &Node, options: Options) -> Result<Json, Error> {
    let resolver = Resolver::new();
    let active = Inversible::new(ctx);
    compact_indexed_node_with(&resolver, n, None, &active, &active, None, options)
}

fn compacted(ctx: &Context, n: &Node) -> Json {
    run(ctx, n, Options::default()).unwrap()
}

#[test]
fn empty_node_is_an_empty_object() {
    let ctx = Context::new(None);
    assert_eq!(compacted(&ctx, &Node::new()), object(vec![]));
}

#[test]
fn types_are_compacted() {
    let mut ctx = Context::new(None);
    ctx.set("Person".to_string(), TermDefinition::simple("http://ex/Person"));
    let mut one = Node::with_id("http://ex/a".to_string());
    one.types.push("http://ex/Person".to_string());
    assert_eq!(
        compacted(&ctx, &one),
        object(vec![("@id", s("http://ex/a")), ("@type", s("Person"))])
    );
    one.types.push("http://ex/Agent".to_string());
    assert_eq!(
        compacted(&ctx, &one),
        object(vec![
            ("@id", s("http://ex/a")),
            ("@type", Json::Array(vec![s("Person"), s("http://ex/Agent")])),
        ])
    );
}

#[test]
fn type_alias_with_set_container_gives_an_array() {
    let mut ctx = Context::new(None);
    let mut alias = TermDefinition::default();
    alias.value = Some(Term::Keyword(Keyword::Type));
    alias.container = Container::new().with(ContainerType::SetOf);
    ctx.set("type".to_string(), alias);
    let mut one = Node::new();
    one.types.push("http://ex/Person".to_string());
    assert_eq!(
        compacted(&ctx, &one),
        object(vec![("type", Json::Array(vec![s("http://ex/Person")]))])
    );
}

#[test]
fn several_values_make_an_array() {
    let mut ctx = Context::new(None);
    ctx.set("name".to_string(), TermDefinition::simple("http://ex/name"));
    let mut one = Node::new();
    one.insert("http://ex/name".to_string(), text("A"));
    one.insert("http://ex/name".to_string(), text("B"));
    one.insert("http://ex/name".to_string(), text("C"));
    assert_eq!(
        compacted(&ctx, &one),
        object(vec![("name", Json::Array(vec![s("A"), s("B"), s("C")]))])
    );
}

#[test]
fn set_container_always_gives_an_array() {
    let mut ctx = Context::new(None);
    ctx.set("tags".to_string(), term("http://ex/tag", &[ContainerType::SetOf]));
    let mut one = Node::new();
    one.insert("http://ex/tag".to_string(), text("x"));
    assert_eq!(compacted(&ctx, &one), object(vec![("tags", Json::Array(vec![s("x")]))]));
}

#[test]
fn property_without_values_gives_an_empty_array() {
    let mut ctx = Context::new(None);
    ctx.set("name".to_string(), TermDefinition::simple("http://ex/name"));
    let mut one = Node::new();
    one.insert_all("http://ex/name".to_string(), vec![]);
    assert_eq!(compacted(&ctx, &one), object(vec![("name", Json::Array(vec![]))]));
}

#[test]
fn arrays_are_kept_when_asked() {
    let mut ctx = Context::new(None);
    ctx.set("name".to_string(), TermDefinition::simple("http://ex/name"));
    let mut one = Node::new();
    one.types.push("http://ex/T".to_string());
    one.insert("http://ex/name".to_string(), text("A"));
    let mut options = Options::default();
    options.compact_arrays = false;
    assert_eq!(
        run(&ctx, &one, options),
        Ok(object(vec![
            ("@type", Json::Array(vec![s("http://ex/T")])),
            ("name", Json::Array(vec![s("A")])),
        ]))
    );
}

#[test]
fn id_container() {
    let mut ctx = Context::new(None);
    ctx.set("people".to_string(), term("http://ex/p", &[ContainerType::Id]));
    ctx.set("name".to_string(), TermDefinition::simple("http://ex/name"));
    let mut alice = Node::with_id("http://ex/alice".to_string());
    alice.insert("http://ex/name".to_string(), text("A"));
    let mut nobody = Node::new();
    nobody.insert("http://ex/name".to_string(), text("N"));
    let mut one = Node::new();
    one.insert("http://ex/p".to_string(), node(alice));
    one.insert("http://ex/p".to_string(), node(nobody));
    assert_eq!(
        compacted(&ctx, &one),
        object(vec![(
            "people",
            object(vec![
                ("http://ex/alice", object(vec![("name", s("A"))])),
                ("@none", object(vec![("name", s("N"))])),
            ]),
        )])
    );
}

#[test]
fn type_container() {
    let mut ctx = Context::new(None);
    ctx.set("byType".to_string(), term("http://ex/t", &[ContainerType::Type]));
    let mut a = Node::with_id("http://ex/a".to_string());
    a.types.push("http://ex/Person".to_string());
    let mut b = Node::with_id("http://ex/b".to_string());
    b.types.push("http://ex/Person".to_string());
    b.types.push("http://ex/Agent".to_string());
    b.types.push("http://ex/Thing".to_string());
    let mut one = Node::new();
    one.insert("http://ex/t".to_string(), node(a));
    one.insert("http://ex/t".to_string(), node(b));
    assert_eq!(
        compacted(&ctx, &one),
        object(vec![(
            "byType",
            object(vec![(
                "http://ex/Person",
                Json::Array(vec![
                    object(vec![("@id", s("http://ex/a"))]),
                    object(vec![
                        ("@id", s("http://ex/b")),
                        ("@type", Json::Array(vec![s("http://ex/Agent"), s("http://ex/Thing")])),
                    ]),
                ]),
            )]),
        )])
    );
}

#[test]
fn index_container() {
    let mut ctx = Context::new(None);
    ctx.set("byIndex".to_string(), term("http://ex/i", &[ContainerType::Index]));
    let mut one = Node::new();
    one.insert("http://ex/i".to_string(), text_at("x", "k1"));
    one.insert("http://ex/i".to_string(), text_at("y", "k2"));
    one.insert("http://ex/i".to_string(), text_at("z", "k1"));
    one.insert("http://ex/i".to_string(), text("w"));
    assert_eq!(
        compacted(&ctx, &one),
        object(vec![(
            "byIndex",
            object(vec![
                ("k1", Json::Array(vec![s("x"), s("z")])),
                ("k2", s("y")),
                ("@none", s("w")),
            ]),
        )])
    );
}

#[test]
fn index_container_by_a_property() {
    let mut ctx = Context::new(None);
    let mut by = term("http://ex/items", &[ContainerType::Index]);
    by.index = Some("http://ex/cat".to_string());
    ctx.set("byCat".to_string(), by);
    ctx.set("cat".to_string(), TermDefinition::simple("http://ex/cat"));
    let mut a = Node::with_id("http://ex/a".to_string());
    a.insert("http://ex/cat".to_string(), text("c1"));
    a.insert("http://ex/cat".to_string(), text("c2"));
    let mut one = Node::new();
    one.insert("http://ex/items".to_string(), node(a));
    assert_eq!(
        compacted(&ctx, &one),
        object(vec![(
            "byCat",
            object(vec![("c1", object(vec![("@id", s("http://ex/a")), ("cat", s("c2"))]))]),
        )])
    );
}

#[test]
fn list_outside_a_list_container_keeps_its_wrapper() {
    let mut ctx = Context::new(None);
    ctx.set("l".to_string(), TermDefinition::simple("http://ex/l"));
    let mut one = Node::new();
    one.insert(
        "http://ex/l".to_string(),
        Indexed::new(Doc::List(vec![number(1)]), Some("i".to_string())),
    );
    assert_eq!(
        compacted(&ctx, &one),
        object(vec![("l", object(vec![("@list", Json::Array(vec![n(1)])), ("@index", s("i"))]))])
    );
}

#[test]
fn empty_list_in_a_list_container() {
    let mut ctx = Context::new(None);
    ctx.set("items".to_string(), term("http://ex/items", &[ContainerType::List]));
    let mut one = Node::new();
    one.insert("http://ex/items".to_string(), Indexed::new(Doc::List(vec![]), None));
    assert_eq!(compacted(&ctx, &one), object(vec![("items", Json::Array(vec![]))]));
}

#[test]
fn list_object_on_its_own() {
    let ctx = Context::new(None);
    let resolver = Resolver::new();
    let active = Inversible::new(&ctx);
    let list = Indexed::new(Doc::List(vec![number(1), number(2)]), Some("i".to_string()));
    assert_eq!(
        compact_indexed_with(&resolver, &list, &active, &active, None, Options::default()),
        Ok(object(vec![("@list", Json::Array(vec![n(1), n(2)])), ("@index", s("i"))]))
    );
}

#[test]
fn list_of_lists_is_an_error() {
    let mut ctx = Context::new(None);
    ctx.set("l".to_string(), TermDefinition::simple("http://ex/l"));
    let mut one = Node::new();
    one.insert(
        "http://ex/l".to_string(),
        Indexed::new(Doc::List(vec![Indexed::new(Doc::List(vec![number(1)]), None)]), None),
    );
    assert_eq!(run(&ctx, &one, Options::default()), Err(Error::CompactionToListOfLists));
    let resolver = Resolver::new();
    let active = Inversible::new(&ctx);
    let nested = Indexed::new(Doc::List(vec![Indexed::new(Doc::List(vec![]), None)]), None);
    assert_eq!(
        compact_indexed_with(&resolver, &nested, &active, &active, None, Options::default()),
        Err(Error::CompactionToListOfLists)
    );
}

fn graph_of(id: Option<&str>, content: &str) -> Node {
    let mut g = match id {
        Some(id) => Node::with_id(id.to_string()),
        None => Node::new(),
    };
    g.set_graph(Some(vec![node(Node::with_id(content.to_string()))]));
    g
}

#[test]
fn graph_without_container_keeps_its_wrapper() {
    let mut ctx = Context::new(None);
    ctx.set("g".to_string(), TermDefinition::simple("http://ex/g"));
    let mut one = Node::new();
    one.insert("http://ex/g".to_string(), node(graph_of(Some("http://ex/G"), "http://ex/a")));
    assert_eq!(
        compacted(&ctx, &one),
        object(vec![(
            "g",
            object(vec![
                ("@graph", object(vec![("@id", s("http://ex/a"))])),
                ("@id", s("http://ex/G")),
            ]),
        )])
    );
}

#[test]
fn simple_graph_in_a_graph_container_is_bare() {
    let mut ctx = Context::new(None);
    ctx.set("g".to_string(), term("http://ex/g", &[ContainerType::Graph]));
    let mut one = Node::new();
    one.insert("http://ex/g".to_string(), node(graph_of(None, "http://ex/a")));
    assert_eq!(
        compacted(&ctx, &one),
        object(vec![("g", object(vec![("@id", s("http://ex/a"))]))])
    );
}

#[test]
fn graph_and_id_container() {
    let mut ctx = Context::new(None);
    ctx.set("g".to_string(), term("http://ex/g", &[ContainerType::Graph, ContainerType::Id]));
    let mut one = Node::new();
    one.insert("http://ex/g".to_string(), node(graph_of(Some("http://ex/G"), "http://ex/a")));
    one.insert("http://ex/g".to_string(), node(graph_of(None, "http://ex/b")));
    assert_eq!(
        compacted(&ctx, &one),
        object(vec![(
            "g",
            object(vec![
                ("http://ex/G", object(vec![("@id", s("http://ex/a"))])),
                ("@none", object(vec![("@id", s("http://ex/b"))])),
            ]),
        )])
    );
}

#[test]
fn reference_under_an_id_type_mapping_is_its_identifier() {
    let mut ctx = Context::new(Some("http://ex/".to_string()));
    let mut knows = TermDefinition::simple("http://ex/knows");
    knows.typ = Some(Type::Id);
    ctx.set("knows".to_string(), knows);
    let mut likes = TermDefinition::simple("http://ex/likes");
    likes.typ = Some(Type::Vocab);
    ctx.set("likes".to_string(), likes);
    ctx.set("bob".to_string(), TermDefinition::simple("http://ex/bob"));
    let mut one = Node::new();
    one.insert("http://ex/knows".to_string(), node(Node::with_id("http://ex/bob".to_string())));
    one.insert("http://ex/likes".to_string(), node(Node::with_id("http://ex/bob".to_string())));
    assert_eq!(compacted(&ctx, &one), object(vec![("knows", s("bob")), ("likes", s("bob"))]));
}

#[test]
fn reference_without_type_mapping_is_an_object() {
    let mut ctx = Context::new(None);
    ctx.set("knows".to_string(), TermDefinition::simple("http://ex/knows"));
    let mut one = Node::new();
    one.insert("http://ex/knows".to_string(), node(Node::with_id("http://ex/bob".to_string())));
    assert_eq!(
        compacted(&ctx, &one),
        object(vec![("knows", object(vec![("@id", s("http://ex/bob"))]))])
    );
}

#[test]
fn included_nodes() {
    let ctx = Context::new(None);
    let mut one = Node::with_id("http://ex/a".to_string());
    one.set_included(Some(vec![Indexed::new(Node::with_id("http://ex/b".to_string()), None)]));
    assert_eq!(
        compacted(&ctx, &one),
        object(vec![
            ("@id", s("http://ex/a")),
            ("@included", object(vec![("@id", s("http://ex/b"))])),
        ])
    );
    one.set_included(Some(vec![
        Indexed::new(Node::with_id("http://ex/b".to_string()), None),
        Indexed::new(Node::with_id("http://ex/c".to_string()), None),
    ]));
    assert_eq!(
        compacted(&ctx, &one),
        object(vec![
            ("@id", s("http://ex/a")),
            (
                "@included",
                Json::Array(vec![
                    object(vec![("@id", s("http://ex/b"))]),
                    object(vec![("@id", s("http://ex/c"))]),
                ]),
            ),
        ])
    );
}

#[test]
fn graph_of_a_node_with_other_entries() {
    let ctx = Context::new(None);
    let mut one = Node::with_id("http://ex/a".to_string());
    one.types.push("http://ex/T".to_string());
    one.set_graph(Some(vec![node(Node::with_id("http://ex/b".to_string()))]));
    assert_eq!(
        compacted(&ctx, &one),
        object(vec![
            ("@id", s("http://ex/a")),
            ("@type", s("http://ex/T")),
            ("@graph", Json::Array(vec![object(vec![("@id", s("http://ex/b"))])])),
        ])
    );
}

#[test]
fn reverse_property_without_a_reverse_term() {
    let mut ctx = Context::new(None);
    ctx.set("child".to_string(), TermDefinition::simple("http://ex/child"));
    let mut one = Node::with_id("http://ex/a".to_string());
    one.insert_reverse(
        "http://ex/child".to_string(),
        Indexed::new(Node::with_id("http://ex/p".to_string()), None),
    );
    assert_eq!(
        compacted(&ctx, &one),
        object(vec![
            ("@id", s("http://ex/a")),
            ("@reverse", object(vec![("child", object(vec![("@id", s("http://ex/p"))]))])),
        ])
    );
}

#[test]
fn reverse_term_with_set_container() {
    let mut ctx = Context::new(None);
    let mut parent = term("http://ex/child", &[ContainerType::SetOf]);
    parent.reverse_property = true;
    ctx.set("parents".to_string(), parent);
    let mut one = Node::new();
    one.insert_reverse(
        "http://ex/child".to_string(),
        Indexed::new(Node::with_id("http://ex/p".to_string()), None),
    );
    assert_eq!(
        compacted(&ctx, &one),
        object(vec![("parents", Json::Array(vec![object(vec![("@id", s("http://ex/p"))])]))])
    );
}

#[test]
fn reverse_term_with_a_list_container_is_an_error() {
    let mut ctx = Context::new(None);
    let mut bad = term("http://ex/other", &[ContainerType::List]);
    bad.reverse_property = true;
    ctx.set("rev".to_string(), bad);
    let mut one = Node::new();
    one.insert_reverse(
        "rev".to_string(),
        Indexed::new(Node::with_id("http://ex/p".to_string()), None),
    );
    assert_eq!(run(&ctx, &one, Options::default()), Err(Error::InvalidReversePropertyMap));
}

#[test]
fn keyword_as_a_property_is_an_error() {
    let ctx = Context::new(None);
    let mut one = Node::new();
    one.insert("@id".to_string(), text("x"));
    assert_eq!(run(&ctx, &one, Options::default()), Err(Error::UnexpectedObjectShape));
    let mut two = Node::new();
    two.insert_reverse("@type".to_string(), Indexed::new(Node::new(), None));
    assert_eq!(run(&ctx, &two, Options::default()), Err(Error::UnexpectedObjectShape));
}

#[test]
fn malformed_identifier_with_a_base_is_an_error() {
    let ctx = Context::new(Some("http://ex/".to_string()));
    let one = Node::with_id("no iri".to_string());
    assert_eq!(run(&ctx, &one, Options::default()), Err(Error::InvalidIriRef));
    let fine = Node::with_id("http://ex/a".to_string());
    assert_eq!(run(&ctx, &fine, Options::default()), Ok(object(vec![("@id", s("a"))])));
}

#[test]
fn index_of_a_node_is_kept() {
    let ctx = Context::new(None);
    let resolver = Resolver::new();
    let active = Inversible::new(&ctx);
    let one = Node::with_id("http://ex/a".to_string());
    assert_eq!(
        compact_indexed_node_with(
            &resolver,
            &one,
            Some("i"),
            &active,
            &active,
            None,
            Options::default()
        ),
        Ok(object(vec![("@id", s("http://ex/a")), ("@index", s("i"))]))
    );
}

#[test]
fn properties_in_ascending_order_when_asked() {
    let mut ctx = Context::new(None);
    ctx.set("b".to_string(), TermDefinition::simple("http://ex/b"));
    ctx.set("a".to_string(), TermDefinition::simple("http://ex/a"));
    ctx.set("c".to_string(), TermDefinition::simple("http://ex/c"));
    let mut one = Node::new();
    one.insert("http://ex/b".to_string(), text("2"));
    one.insert("http://ex/c".to_string(), text("3"));
    one.insert("http://ex/a".to_string(), text("1"));
    let stored = object(vec![("b", s("2")), ("c", s("3")), ("a", s("1"))]);
    let sorted = object(vec![("a", s("1")), ("b", s("2")), ("c", s("3"))]);
    assert_eq!(run(&ctx, &one, Options::default()), Ok(stored));
    let mut ordered = Options::default();
    ordered.ordered = true;
    assert_eq!(run(&ctx, &one, ordered), Ok(sorted.clone()));
    // A second run gives the very same.
    assert_eq!(run(&ctx, &one, ordered), Ok(sorted));
}

#[test]
fn term_scoped_context_ends_with_a_node() {
    let mut before = Context::new(None);
    before.set("name".to_string(), TermDefinition::simple("http://ex/name"));
    let mut scoped = Context::new(None);
    scoped.set("nm".to_string(), TermDefinition::simple("http://ex/name"));
    scoped.previous_context = Some(Box::new(before));
    let mut one = Node::new();
    one.insert("http://ex/name".to_string(), text("A"));
    assert_eq!(compacted(&scoped, &one), object(vec![("name", s("A"))]));
}

#[test]
fn local_context_of_a_property_is_in_force_inside() {
    let mut inner = Context::new(None);
    inner.set("n".to_string(), TermDefinition::simple("http://ex/name"));
    let mut resolver = Resolver::new();
    let id = resolver.add(Ok(inner));
    let mut ctx = Context::new(None);
    let mut prop = TermDefinition::simple("http://ex/prop");
    prop.context = Some(id);
    ctx.set("prop".to_string(), prop);
    ctx.set("name".to_string(), TermDefinition::simple("http://ex/name"));
    let mut child = Node::new();
    child.insert("http://ex/name".to_string(), text("A"));
    let mut one = Node::new();
    one.insert("http://ex/name".to_string(), text("B"));
    one.insert("http://ex/prop".to_string(), node(child));
    let active = Inversible::new(&ctx);
    assert_eq!(
        compact_indexed_node_with(&resolver, &one, None, &active, &active, None, Options::default()),
        Ok(object(vec![("name", s("B")), ("prop", object(vec![("n", s("A"))]))]))
    );
}

#[test]
fn set_of_objects() {
    let mut ctx = Context::new(None);
    ctx.set("tags".to_string(), term("http://ex/tag", &[ContainerType::SetOf]));
    ctx.set("p".to_string(), TermDefinition::simple("http://ex/p"));
    let resolver = Resolver::new();
    let active = Inversible::new(&ctx);
    let go = |items: &Vec<Indexed<Doc>>, property: Option<&str>, options: Options| {
        compact_collection_with(&resolver, items, &active, &active, property, options).unwrap()
    };
    let one = vec![text("x")];
    let two = vec![text("x"), text("y")];
    let with_null = vec![
        Indexed::new(Doc::Value(Value::Literal(Literal::Null, None)), None),
        text("x"),
    ];
    assert_eq!(go(&vec![], Some("p"), Options::default()), Json::Array(vec![]));
    assert_eq!(go(&one, Some("p"), Options::default()), s("x"));
    assert_eq!(go(&one, None, Options::default()), s("x"));
    assert_eq!(go(&two, Some("p"), Options::default()), Json::Array(vec![s("x"), s("y")]));
    assert_eq!(go(&with_null, Some("p"), Options::default()), s("x"));
    assert_eq!(go(&one, Some("tags"), Options::default()), Json::Array(vec![s("x")]));
    assert_eq!(go(&one, Some("@graph"), Options::default()), Json::Array(vec![s("x")]));
    assert_eq!(go(&one, Some("@set"), Options::default()), Json::Array(vec![s("x")]));
    let mut keep = Options::default();
    keep.compact_arrays = false;
    assert_eq!(go(&one, Some("p"), keep), Json::Array(vec![s("x")]));
}

fn named(id: &str) -> Indexed<Doc> {
    node(Node::with_id(id.to_string()))
}

#[test]
fn several_top_level_objects_go_under_graph() {
    let ctx = Context::new(None);
    let resolver = Resolver::new();
    let active = Inversible::new(&ctx);
    let expanded = vec![named("http://ex/a"), named("http://ex/b")];
    let json_context = object(vec![("x", s("http://ex/x"))]);
    assert_eq!(
        compact_with(&resolver, &expanded, &active, json_context.clone(), Options::default()),
        Ok(object(vec![
            (
                "@graph",
                Json::Array(vec![
                    object(vec![("@id", s("http://ex/a"))]),
                    object(vec![("@id", s("http://ex/b"))]),
                ]),
            ),
            ("@context", json_context),
        ]))
    );
}

#[test]
fn single_object_stays_in_an_array_when_arrays_are_kept() {
    let ctx = Context::new(None);
    let resolver = Resolver::new();
    let active = Inversible::new(&ctx);
    let expanded = vec![named("http://ex/a")];
    let mut keep = Options::default();
    keep.compact_arrays = false;
    assert_eq!(
        compact_with(&resolver, &expanded, &active, Json::Null, keep),
        Ok(object(vec![("@graph", Json::Array(vec![object(vec![("@id", s("http://ex/a"))])]))]))
    );
    assert_eq!(
        compact_with(&resolver, &expanded, &active, Json::Null, Options::default()),
        Ok(object(vec![("@id", s("http://ex/a"))]))
    );
}

#[test]
fn context_is_attached_only_where_it_says_something() {
    let ctx = Context::new(None);
    let resolver = Resolver::new();
    let active = Inversible::new(&ctx);
    let expanded = vec![named("http://ex/a")];
    let bare = object(vec![("@id", s("http://ex/a"))]);
    for empty in [Json::Null, object(vec![]), Json::Array(vec![]), s("")] {
        assert_eq!(
            compact_with(&resolver, &expanded, &active, empty, Options::default()),
            Ok(bare.clone())
        );
    }
    assert_eq!(
        compact_with(&resolver, &expanded, &active, s("http://ex/context"), Options::default()),
        Ok(object(vec![("@id", s("http://ex/a")), ("@context", s("http://ex/context"))]))
    );
    // The context is attached to an empty document too.
    assert_eq!(
        compact_with(&resolver, &vec![], &active, s("http://ex/context"), Options::default()),
        Ok(object(vec![("@context", s("http://ex/context"))]))
    );
    assert_eq!(
        compact_with(&resolver, &vec![node(Node::new())], &active, s("c"), Options::default()),
        Ok(object(vec![("@context", s("c"))]))
    );
    assert_eq!(
        compact_with(&resolver, &vec![], &active, Json::Null, Options::default()),
        Ok(object(vec![]))
    );
}

#[test]
fn context_key_is_aliased() {
    let mut ctx = Context::new(None);
    let mut alias = TermDefinition::default();
    alias.value = Some(Term::Keyword(Keyword::Context));
    ctx.set("ctx".to_string(), alias);
    let mut graph = TermDefinition::default();
    graph.value = Some(Term::Keyword(Keyword::Graph));
    ctx.set("data".to_string(), graph);
    let resolver = Resolver::new();
    let active = Inversible::new(&ctx);
    let expanded = vec![named("http://ex/a"), named("http://ex/b")];
    assert_eq!(
        compact_with(&resolver, &expanded, &active, s("c"), Options::default()),
        Ok(object(vec![
            (
                "data",
                Json::Array(vec![
                    object(vec![("@id", s("http://ex/a"))]),
                    object(vec![("@id", s("http://ex/b"))]),
                ]),
            ),
            ("ctx", s("c")),
        ]))
    );
}

#[test]
fn dangling_value_at_the_top_is_an_error() {
    let ctx = Context::new(None);
    let resolver = Resolver::new();
    let active = Inversible::new(&ctx);
    let expanded = vec![text("x")];
    assert_eq!(
        compact_with(&resolver, &expanded, &active, Json::Null, Options::default()),
        Err(Error::UnexpectedObjectShape)
    );
}

#[test]
fn types_are_compacted_under_the_type_scoped_context() {
    let mut active_ctx = Context::new(None);
    active_ctx.set("P".to_string(), TermDefinition::simple("http://ex/Person"));
    active_ctx.set("name".to_string(), TermDefinition::simple("http://ex/name"));
    let mut scoped_ctx = Context::new(None);
    scoped_ctx.set("Person".to_string(), TermDefinition::simple("http://ex/Person"));
    scoped_ctx.set("n".to_string(), TermDefinition::simple("http://ex/name"));
    let resolver = Resolver::new();
    let active = Inversible::new(&active_ctx);
    let type_scoped = Inversible::new(&scoped_ctx);
    let mut one = Node::new();
    one.types.push("http://ex/Person".to_string());
    one.insert("http://ex/name".to_string(), text("A"));
    assert_eq!(
        compact_indexed_node_with(
            &resolver,
            &one,
            None,
            &active,
            &type_scoped,
            None,
            Options::default()
        ),
        Ok(object(vec![("@type", s("Person")), ("name", s("A"))]))
    );
}

#[test]
fn list_container_is_looked_up_in_the_type_scoped_context() {
    let mut active_ctx = Context::new(None);
    active_ctx.set("items".to_string(), TermDefinition::simple("http://ex/items"));
    let mut scoped_ctx = Context::new(None);
    scoped_ctx.set("items".to_string(), term("http://ex/items", &[ContainerType::List]));
    let resolver = Resolver::new();
    let active = Inversible::new(&active_ctx);
    let type_scoped = Inversible::new(&scoped_ctx);
    let list = Indexed::new(Doc::List(vec![number(1), number(2)]), None);
    assert_eq!(
        compact_indexed_with(&resolver, &list, &active, &type_scoped, Some("items"), Options::default()),
        Ok(Json::Array(vec![n(1), n(2)]))
    );
    assert_eq!(
        compact_indexed_with(&resolver, &list, &active, &active, Some("items"), Options::default()),
        Ok(object(vec![("@list", Json::Array(vec![n(1), n(2)]))]))
    );
}

#[test]
fn reverse_properties_in_ascending_order_when_asked() {
    let ctx = Context::new(None);
    let mut one = Node::new();
    one.insert_reverse("http://ex/b".to_string(), Indexed::new(Node::with_id("x".to_string()), None));
    one.insert_reverse("http://ex/a".to_string(), Indexed::new(Node::with_id("y".to_string()), None));
    let mut ordered = Options::default();
    ordered.ordered = true;
    assert_eq!(
        run(&ctx, &one, ordered),
        Ok(object(vec![(
            "@reverse",
            object(vec![
                ("http://ex/a", object(vec![("@id", s("y"))])),
                ("http://ex/b", object(vec![("@id", s("x"))])),
            ]),
        )]))
    );
    assert_eq!(
        run(&ctx, &one, Options::default()),
        Ok(object(vec![(
            "@reverse",
            object(vec![
                ("http://ex/b", object(vec![("@id", s("x"))])),
                ("http://ex/a", object(vec![("@id", s("y"))])),
            ]),
        )]))
    );
}

#[test]
fn term_with_the_language_of_the_value_wins_over_a_shorter_bare_term() {
    let mut ctx = Context::new(None);
    ctx.set("l".to_string(), TermDefinition::simple("http://ex/label"));
    let mut en = TermDefinition::simple("http://ex/label");
    en.language = Some(json_ld::syntax::Nullable::Value(
        json_ld::lang::LanguageTagBuf::parse("en").unwrap(),
    ));
    ctx.set("label_en".to_string(), en);
    let tagged = |text: &str, lang: &str| {
        let tag = json_ld::lang::LanguageTagBuf::parse(lang).unwrap();
        let ls = json_ld::object::value::LangString::new(text.to_string(), Some(tag), None).unwrap();
        Indexed::new(Doc::Value(Value::LangString(ls)), None)
    };
    let mut one = Node::new();
    one.insert("http://ex/label".to_string(), tagged("Hi", "EN"));
    one.insert("http://ex/label".to_string(), tagged("Salut", "fr"));
    one.insert("http://ex/label".to_string(), text("plain"));
    assert_eq!(
        compacted(&ctx, &one),
        object(vec![
            ("label_en", s("Hi")),
            (
                "l",
                Json::Array(vec![
                    object(vec![("@value", s("Salut")), ("@language", s("fr"))]),
                    s("plain"),
                ]),
            ),
        ])
    );
}

#[test]
fn term_with_the_type_of_the_value_wins_over_a_shorter_plain_term() {
    let mut ctx = Context::new(None);
    ctx.set("d".to_string(), TermDefinition::simple("http://ex/date"));
    let mut typed = TermDefinition::simple("http://ex/date");
    typed.typ = Some(Type::Ref("http://ex/Date".to_string()));
    ctx.set("date".to_string(), typed);
    let mut one = Node::new();
    one.insert(
        "http://ex/date".to_string(),
        Indexed::new(
            Doc::Value(Value::Literal(
                Literal::String("2020".to_string()),
                Some("http://ex/Date".to_string()),
            )),
            None,
        ),
    );
    one.insert("http://ex/date".to_string(), text("someday"));
    assert_eq!(
        compacted(&ctx, &one),
        object(vec![("date", s("2020")), ("d", s("someday"))])
    );
}

#[test]
fn term_with_the_set_container_wins_over_a_shorter_bare_term() {
    let mut ctx = Context::new(None);
    ctx.set("t".to_string(), TermDefinition::simple("http://ex/tag"));
    ctx.set("tags".to_string(), term("http://ex/tag", &[ContainerType::SetOf]));
    let mut one = Node::new();
    one.insert("http://ex/tag".to_string(), text("x"));
    one.insert("http://ex/tag".to_string(), number(1));
    assert_eq!(
        compacted(&ctx, &one),
        object(vec![("tags", Json::Array(vec![s("x"), n(1)]))])
    );
}
