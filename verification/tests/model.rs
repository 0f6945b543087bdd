use core::hash::Hasher;
use json_ld::compaction::order::walk;
use json_ld::context::definition::TermDefinition;
use json_ld::context::inverse::{Bucket, InverseContext, Inversible, Key};
use json_ld::context::{Context, ProcessingOptions, Resolver};
use json_ld::direction::Direction;
use json_ld::document::RemoteDocument;
use json_ld::error::Error;
use json_ld::expansion::{expand, filter_top_level_item, Entry};
use json_ld::json::{Number, Value as Json};
use json_ld::lang::{same_language, LanguageTagBuf};
use json_ld::object::node::Node;
use json_ld::object::value::{LangString, Literal, Value};
use json_ld::compaction::{Compact, CompactIndexed};
use json_ld::json::{Object as JsonObject, ValueMut};
use json_ld::object::{Any, Indexed, Object as Doc, Ref};
use json_ld::syntax::{Container, ContainerType, Keyword, Nullable, ProcessingMode, Term, Type};
use json_ld::util::{as_array, combine, digest, hash_map, hash_set, hash_set_opt};
use std::collections::hash_map::DefaultHasher;

fn terms(ctx: &Context) -> Vec<&str> {
    ctx.definitions.iter().map(|(k, _)| k.as_str()).collect()
}

#[test]
fn terms_stand_shorter_first_then_in_lexicographic_order() {
    let mut ctx = Context::new(None);
    for t in ["bb", "a", "ab", "b", "ccc", "B", "é"] {
        ctx.set(t.to_string(), TermDefinition::simple("http://ex/x"));
    }
    assert_eq!(terms(&ctx), vec!["B", "a", "b", "é", "ab", "bb", "ccc"]);
}

#[test]
fn defining_a_term_again_replaces_it() {
    let mut ctx = Context::new(None);
    ctx.set("a".to_string(), TermDefinition::simple("http://ex/1"));
    ctx.set("b".to_string(), TermDefinition::simple("http://ex/2"));
    ctx.set("a".to_string(), TermDefinition::simple("http://ex/3"));
    assert_eq!(terms(&ctx), vec!["a", "b"]);
    assert!(ctx.get("a").unwrap().eq(&TermDefinition::simple("http://ex/3")));
    assert!(ctx.get("b").unwrap().eq(&TermDefinition::simple("http://ex/2")));
    assert!(ctx.get("c").is_none());
    assert!(ctx.contains("a") && !ctx.contains("c"));
}

#[test]
fn defaults_of_a_context() {
    let mut ctx = Context::new(Some("http://ex/".to_string()));
    assert_eq!(ctx.base_iri(), Some("http://ex/"));
    assert!(ctx.vocabulary().is_none());
    assert!(ctx.default_language().is_none());
    assert_eq!(ctx.default_base_direction(), None);
    assert!(ctx.previous_context().is_none());
    ctx.previous_context = Some(Box::new(Context::new(None)));
    assert_eq!(ctx.previous_context().unwrap().base_iri(), None);
}

#[test]
fn term_definitions_are_compared_without_the_protected_flag() {
    let a = TermDefinition::simple("http://ex/a");
    let mut b = TermDefinition::simple("http://ex/a");
    b.protected = true;
    assert!(a.eq(&b));
    b.prefix = true;
    assert!(!a.eq(&b));
    let mut c = TermDefinition::simple("http://ex/a");
    c.language = Some(Nullable::Value(LanguageTagBuf::parse("en").unwrap()));
    let mut d = TermDefinition::simple("http://ex/a");
    d.language = Some(Nullable::Value(LanguageTagBuf::parse("EN").unwrap()));
    assert!(c.eq(&d));
    d.language = Some(Nullable::Null);
    assert!(!c.eq(&d));
    assert!(!a.eq(&TermDefinition::simple("http://ex/b")));
    assert!(TermDefinition::default().eq(&TermDefinition::default()));
    assert_eq!(a.base_url(), None);
}

#[test]
fn inverse_index_records() {
    let mut ctx = Context::new(None);
    ctx.set("none".to_string(), TermDefinition::default());
    ctx.set("plain".to_string(), TermDefinition::simple("http://ex/p"));
    let mut typed = TermDefinition::simple("http://ex/p");
    typed.typ = Some(Type::Id);
    ctx.set("typed".to_string(), typed);
    let mut rev = TermDefinition::simple("http://ex/p");
    rev.reverse_property = true;
    ctx.set("rev".to_string(), rev);
    let inverse = InverseContext::new(&ctx);
    // Four records for the plain term, two for each of the others, none
    // for the term without IRI.
    assert_eq!(inverse.entries.len(), 8);
    let var = Term::Ref("http://ex/p".to_string());
    let none = vec![Container::new()];
    let pick = |bucket: Bucket, keys: Vec<Key>| inverse.select(&var, &none, bucket, &keys);
    assert_eq!(pick(Bucket::Type, vec![Key::Id]), Some("typed"));
    assert_eq!(pick(Bucket::Type, vec![Key::Reverse]), Some("rev"));
    assert_eq!(pick(Bucket::Type, vec![Key::NoValue]), Some("plain"));
    assert_eq!(pick(Bucket::Language, vec![Key::NoValue]), Some("plain"));
    assert_eq!(pick(Bucket::Any, vec![Key::NoValue]), Some("rev"));
    assert_eq!(pick(Bucket::Type, vec![Key::Vocab]), None);
    assert_eq!(pick(Bucket::Type, vec![Key::Vocab, Key::Id, Key::NoValue]), Some("typed"));
    assert_eq!(pick(Bucket::Type, vec![]), None);
    assert_eq!(
        inverse.select(&var, &vec![Container::new().with(ContainerType::List)], Bucket::Type, &vec![Key::Id]),
        None
    );
    assert_eq!(
        inverse.select(&Term::Ref("http://ex/q".to_string()), &none, Bucket::Type, &vec![Key::Id]),
        None
    );
}

#[test]
fn inverse_index_by_language() {
    let mut ctx = Context::new(None);
    ctx.default_language = LanguageTagBuf::parse("de");
    ctx.set("plain".to_string(), TermDefinition::simple("http://ex/p"));
    let mut en = TermDefinition::simple("http://ex/p");
    en.language = Some(Nullable::Value(LanguageTagBuf::parse("en").unwrap()));
    ctx.set("en".to_string(), en);
    let mut no = TermDefinition::simple("http://ex/p");
    no.language = Some(Nullable::Null);
    ctx.set("no".to_string(), no);
    let mut rtl = TermDefinition::simple("http://ex/p");
    rtl.direction = Some(Nullable::Value(Direction::Rtl));
    ctx.set("rtl".to_string(), rtl);
    let active = Inversible::new(&ctx);
    let var = Term::Ref("http://ex/p".to_string());
    let none = vec![Container::new()];
    let tag = |t: &str| Some(LanguageTagBuf::parse(t).unwrap());
    let pick = |key: Key| active.select(&var, &none, Bucket::Language, &vec![key]);
    assert_eq!(pick(Key::Lang(tag("EN"), None)), Some("en"));
    assert_eq!(pick(Key::Lang(tag("de"), None)), Some("plain"));
    assert_eq!(pick(Key::Lang(tag("fr"), None)), None);
    assert_eq!(pick(Key::Null), Some("no"));
    assert_eq!(pick(Key::Lang(None, Some(Direction::Rtl))), Some("rtl"));
    assert_eq!(pick(Key::Lang(None, Some(Direction::Ltr))), None);
    assert_eq!(pick(Key::NoValue), Some("plain"));
    assert_eq!(active.context().base_iri(), None);
}

#[test]
fn keys_of_the_inverse_index() {
    assert!(Key::Type("a".to_string()).same_as(&Key::Type("a".to_string())));
    assert!(!Key::Type("a".to_string()).same_as(&Key::Type("b".to_string())));
    assert!(!Key::Id.same_as(&Key::Vocab));
    assert!(Key::of_type(&Type::Json).same_as(&Key::Json));
    assert!(Key::of_type(&Type::NoType).same_as(&Key::NoValue));
    assert!(Key::of_type(&Type::Ref("t".to_string())).same_as(&Key::Type("t".to_string()).clone()));
}

#[test]
fn resolver_table() {
    let mut resolver = Resolver::new();
    assert_eq!(resolver.add(Ok(Context::new(Some("http://ex/".to_string())))), 0);
    assert_eq!(resolver.add(Err(Error::LoadingFailed)), 1);
    assert_eq!(resolver.process_local(0).unwrap().base_iri(), Some("http://ex/"));
    assert_eq!(resolver.process_local(1).err(), Some(Error::LoadingFailed));
    assert_eq!(resolver.process_local(2).err(), Some(Error::InvalidLocalContext));
}

#[test]
fn options_are_converted() {
    let c = json_ld::compaction::Options::default();
    assert_eq!(c.processing_mode, ProcessingMode::JsonLd1_1);
    assert!(c.compact_to_relative && c.compact_arrays && !c.ordered);
    let e = json_ld::expansion::Options::default();
    assert!(!e.strict && !e.ordered);
    let mut e2 = e;
    e2.ordered = true;
    e2.processing_mode = ProcessingMode::JsonLd1_0;
    let c2 = json_ld::compaction::Options::from(e2);
    assert!(c2.ordered && c2.compact_arrays && c2.compact_to_relative);
    assert_eq!(c2.processing_mode, ProcessingMode::JsonLd1_0);
    let e3 = json_ld::expansion::Options::from(c2);
    assert!(e3.ordered && !e3.strict);
    let p = ProcessingOptions::from(c2);
    assert_eq!(p.processing_mode, ProcessingMode::JsonLd1_0);
    assert!(!p.override_protected && p.propagate);
    assert!(p.with_override().override_protected);
    assert!(!p.without_propagation().propagate);
    assert_eq!(ProcessingOptions::from(e3), p);
    assert_eq!(ProcessingOptions::default().processing_mode, ProcessingMode::default());
}

#[test]
fn keywords_are_spelled() {
    let all = [
        (Keyword::Base, "@base"),
        (Keyword::Context, "@context"),
        (Keyword::Direction, "@direction"),
        (Keyword::Graph, "@graph"),
        (Keyword::Id, "@id"),
        (Keyword::Included, "@included"),
        (Keyword::Index, "@index"),
        (Keyword::Json, "@json"),
        (Keyword::Language, "@language"),
        (Keyword::List, "@list"),
        (Keyword::Nest, "@nest"),
        (Keyword::NoValue, "@none"),
        (Keyword::Reverse, "@reverse"),
        (Keyword::SetOf, "@set"),
        (Keyword::Type, "@type"),
        (Keyword::Value, "@value"),
        (Keyword::Vocab, "@vocab"),
    ];
    for (k, text) in all {
        assert_eq!(k.into_str(), text);
        assert_eq!(Keyword::parse(text), Some(k));
    }
    assert_eq!(Keyword::parse("@unknown"), None);
    assert_eq!(Keyword::parse("id"), None);
    assert_eq!(Keyword::parse(""), None);
}

#[test]
fn terms_and_types() {
    let a = Term::Ref("http://ex/a".to_string());
    assert!(a.same(&a.clone()));
    assert!(!a.same(&Term::Ref("http://ex/b".to_string())));
    assert!(!a.same(&Term::Null));
    assert!(Term::Keyword(Keyword::Id).same(&Term::Keyword(Keyword::Id)));
    assert!(!Term::Keyword(Keyword::Id).same(&Term::Keyword(Keyword::Type)));
    assert_eq!(a.as_str(), "http://ex/a");
    assert_eq!(Term::Null.as_str(), "");
    assert_eq!(Term::Keyword(Keyword::List).as_str(), "@list");
    assert!(Term::Keyword(Keyword::List).is_keyword() && !a.is_keyword());
    let t = Type::Ref("http://ex/T".to_string());
    assert!(t.same(&t.clone()) && !t.same(&Type::Id) && Type::Vocab.same(&Type::Vocab));
    assert!(t.is_ref("http://ex/T") && !t.is_ref("http://ex/U") && !Type::Json.is_ref("x"));
    assert_eq!(Nullable::Value(3).option(), Some(3));
    assert_eq!(Nullable::<u8>::Null.option(), None);
    assert!(Nullable::<u8>::Null.is_null());
}

#[test]
fn containers() {
    let c = Container::new();
    assert!(c.is_empty());
    let d = c.with(ContainerType::Graph).with(ContainerType::Index);
    assert!(d.contains(ContainerType::Graph) && d.contains(ContainerType::Index));
    assert!(!d.contains(ContainerType::SetOf) && !d.is_empty());
    assert_eq!(d, Container::new().with(ContainerType::Index).with(ContainerType::Graph));
    for f in [
        ContainerType::Graph,
        ContainerType::Id,
        ContainerType::Index,
        ContainerType::Language,
        ContainerType::List,
        ContainerType::SetOf,
        ContainerType::Type,
    ] {
        assert!(Container::new().with(f).contains(f));
        assert!(!Container::new().contains(f));
    }
}

#[test]
fn language_tags() {
    assert!(LanguageTagBuf::parse("en").is_some());
    assert!(LanguageTagBuf::parse("fr-CA").is_some());
    assert!(LanguageTagBuf::parse("").is_none());
    assert!(LanguageTagBuf::parse("not a tag").is_none());
    assert!(LanguageTagBuf::parse("e").is_none());
    let a = LanguageTagBuf::parse("en-US").unwrap();
    let b = LanguageTagBuf::parse("EN-us").unwrap();
    let c = LanguageTagBuf::parse("en-GB").unwrap();
    assert_eq!(a.as_str(), "en-US");
    assert_eq!(b.as_str(), "EN-us");
    assert!(a.same_as(&b) && b.same_as(&a));
    assert!(!a.same_as(&c));
    assert!(a.same_as(&a.clone()));
    assert!(same_language(Some(&a), Some(&b)));
    assert!(same_language(None, None));
    assert!(!same_language(Some(&a), None) && !same_language(None, Some(&a)));
}

#[test]
fn language_strings() {
    let tag = LanguageTagBuf::parse("en").unwrap();
    let s = LangString::new("Hi".to_string(), Some(tag), None).unwrap();
    assert_eq!(s.as_str(), "Hi");
    assert_eq!(s.language().unwrap().as_str(), "en");
    assert_eq!(s.direction(), None);
    assert_eq!(LangString::new("Hi".to_string(), None, None).err(), Some("Hi".to_string()));
    let d = LangString::new("Hi".to_string(), None, Some(Direction::Rtl)).unwrap();
    assert_eq!(d.direction(), Some(Direction::Rtl));
    let v = Value::LangString(d);
    assert_eq!(v.as_str(), Some("Hi"));
    assert_eq!(v.direction(), Some(Direction::Rtl));
    assert!(v.language().is_none() && v.typ().is_none());
}

#[test]
fn value_objects() {
    let lit = Value::Literal(Literal::Boolean(true), Some("http://ex/T".to_string()));
    assert_eq!(lit.as_bool(), Some(true));
    assert_eq!(lit.as_str(), None);
    assert_eq!(lit.as_number(), None);
    assert!(lit.typ().unwrap().is_ref("http://ex/T"));
    let num = Value::Literal(Literal::Number(Number::from_i64(2)), None);
    assert_eq!(num.as_number(), Some(Number::from_i64(2)));
    assert!(num.typ().is_none());
    let j = Value::Json(Json::Null);
    assert!(j.typ().unwrap().same(&Type::Json));
    assert_eq!(Literal::String("x".to_string()).as_str(), Some("x"));
    assert_eq!(Literal::Null.as_bool(), None);
    assert_eq!(Literal::Number(Number::from_i64(1)).as_number(), Some(Number::from_i64(1)));
}

fn text(x: &str) -> Indexed<Doc> {
    Indexed::new(Doc::Value(Value::Literal(Literal::String(x.to_string()), None)), None)
}

#[test]
fn nodes() {
    let mut node = Node::with_id("http://ex/a".to_string());
    assert!(node.is_empty() && !node.is_graph());
    assert_eq!(node.id(), Some("http://ex/a"));
    assert_eq!(node.as_iri(), Some("http://ex/a"));
    assert_eq!(node.as_str(), Some("http://ex/a"));
    assert!(node.has_key(&Term::Keyword(Keyword::Id)));
    assert!(!node.has_key(&Term::Keyword(Keyword::Type)));
    node.types.push("http://ex/T".to_string());
    assert!(node.has_type("http://ex/T") && !node.has_type("http://ex/U"));
    assert_eq!(node.types().len(), 1);
    assert!(node.has_key(&Term::Keyword(Keyword::Type)));
    node.insert("http://ex/p".to_string(), text("1"));
    node.insert("http://ex/q".to_string(), text("2"));
    node.insert("http://ex/p".to_string(), text("3"));
    node.insert_all("http://ex/q".to_string(), vec![text("4"), text("5")]);
    assert_eq!(node.properties.len(), 2);
    assert_eq!(node.get("http://ex/p").len(), 2);
    assert_eq!(node.get("http://ex/q").len(), 3);
    assert_eq!(node.get("http://ex/r").len(), 0);
    assert_eq!(node.get("http://ex/p").get(1).unwrap().inner().as_str(), Some("3"));
    assert!(node.get("http://ex/p").get(2).is_none());
    assert_eq!(node.get_any("http://ex/q").unwrap().inner().as_str(), Some("2"));
    assert!(node.get_any("http://ex/r").is_none());
    assert!(node.has_key(&Term::Ref("http://ex/p".to_string())));
    assert!(!node.has_key(&Term::Ref("http://ex/r".to_string())));
    assert!(!node.is_empty());
    node.insert_all_reverse("http://ex/c".to_string(), vec![Indexed::new(Node::new(), None)]);
    node.insert_reverse("http://ex/c".to_string(), Indexed::new(Node::new(), None));
    assert_eq!(node.reverse_properties[0].1.len(), 2);
    assert!(node.has_key(&Term::Keyword(Keyword::Reverse)));
    assert!(node.graph().is_none() && node.included().is_none());
    assert!(Node::try_from(Doc::Node(Node::new())).is_ok());
    assert!(Node::try_from(Doc::List(vec![])).is_err());
}

#[test]
fn identifier_that_is_no_iri() {
    let node = Node::with_id("_:b0".to_string());
    assert_eq!(node.id(), Some("_:b0"));
    assert_eq!(node.as_iri(), None);
    assert_eq!(Doc::Node(node).as_str(), None);
    assert_eq!(Node::new().as_iri(), None);
}

#[test]
fn graph_objects() {
    let mut g = Node::new();
    g.set_graph(Some(vec![text("x")]));
    assert!(g.is_graph() && g.is_simple_graph() && g.is_unnamed_graph());
    assert!(g.has_key(&Term::Keyword(Keyword::Graph)));
    let mut named = Node::with_id("http://ex/g".to_string());
    named.set_graph(Some(vec![]));
    assert!(named.is_graph() && !named.is_simple_graph() && !named.is_unnamed_graph());
    assert!(named.into_unnamed_graph().is_err());
    let mut more = Node::new();
    more.set_graph(Some(vec![]));
    more.types.push("http://ex/T".to_string());
    assert!(!more.is_graph());
    assert_eq!(g.into_unnamed_graph().unwrap().len(), 1);
}

#[test]
fn objects() {
    let v = Doc::Value(Value::Literal(Literal::String("x".to_string()), None));
    assert!(v.is_value() && !v.is_node() && !v.is_list() && !v.is_graph());
    assert_eq!(v.as_str(), Some("x"));
    assert_eq!(v.id(), None);
    assert!(v.language().is_none());
    let n = Doc::Node(Node::with_id("http://ex/a".to_string()));
    assert!(n.is_node());
    assert_eq!(n.id(), Some("http://ex/a"));
    assert_eq!(n.as_iri(), Some("http://ex/a"));
    let l = Doc::List(vec![]);
    assert!(l.is_list());
    assert_eq!(l.as_str(), None);
    assert_eq!(l.as_bool(), None);
    assert_eq!(l.as_number(), None);
    let i = Indexed::new(3u8, Some("i".to_string()));
    assert_eq!(i.index(), Some("i"));
    assert_eq!(*i.inner(), 3);
    assert_eq!(i.into_parts(), (3, Some("i".to_string())));
}

#[test]
fn top_level_of_an_expanded_document() {
    assert!(!filter_top_level_item(&text("x")));
    assert!(filter_top_level_item(&Indexed::new(Doc::Node(Node::new()), None)));
    assert!(filter_top_level_item(&Indexed::new(Doc::List(vec![]), None)));
    // A single unnamed graph gives its content, dangling values and all.
    let mut g = Node::new();
    g.set_graph(Some(vec![text("x"), Indexed::new(Doc::Node(Node::new()), None)]));
    assert_eq!(expand(vec![Indexed::new(Doc::Node(g), None)]).len(), 2);
    // A single other object stays, unless it is a value.
    assert_eq!(expand(vec![Indexed::new(Doc::Node(Node::new()), None)]).len(), 1);
    assert_eq!(expand(vec![text("x")]).len(), 0);
    assert_eq!(expand(vec![]).len(), 0);
    // Several objects: the values go, the others stay in their order.
    let out = expand(vec![
        text("x"),
        Indexed::new(Doc::Node(Node::with_id("a".to_string())), None),
        text("y"),
        Indexed::new(Doc::Node(Node::with_id("b".to_string())), None),
    ]);
    assert_eq!(out.len(), 2);
    assert_eq!(out[0].inner().id(), Some("a"));
    assert_eq!(out[1].inner().id(), Some("b"));
}

#[test]
fn entries_are_ordered_by_their_keys() {
    let (x, y) = (1u8, 2u8);
    let a = Entry("a".to_string(), &x);
    let b = Entry("b".to_string(), &y);
    let a2 = Entry("a".to_string(), &y);
    assert!(a.lt(&b) && !b.lt(&a) && !a.lt(&a2));
    assert!(a.eq(&a2) && !a.eq(&b));
    assert!(Entry("Z".to_string(), &x).lt(&a));
    assert!(Entry("a".to_string(), &x).lt(&Entry("aa".to_string(), &x)));
}

#[test]
fn walk_in_stored_and_in_ascending_order() {
    let entries = vec![
        ("b".to_string(), 0u8),
        ("a".to_string(), 1),
        ("c".to_string(), 2),
        ("a".to_string(), 3),
        ("B".to_string(), 4),
    ];
    assert_eq!(walk(&entries, false), vec![0, 1, 2, 3, 4]);
    assert_eq!(walk(&entries, true), vec![4, 1, 3, 0, 2]);
    assert_eq!(walk(&Vec::<(String, u8)>::new(), true), Vec::<usize>::new());
}

#[test]
fn digests_are_combined_by_wrapping_addition() {
    assert_eq!(combine(&vec![]), 0);
    assert_eq!(combine(&vec![1, 2, 3]), 6);
    assert_eq!(combine(&vec![u64::MAX, 2]), 1);
    assert_eq!(combine(&vec![u64::MAX, u64::MAX]), u64::MAX - 1);
    assert_eq!(combine(&vec![3, 1, 2]), combine(&vec![2, 3, 1]));
}

#[test]
fn hash_of_a_set_does_not_depend_on_the_order() {
    let finish = |items: Vec<u32>| {
        let mut h = DefaultHasher::new();
        hash_set(&items, &mut h);
        h.finish()
    };
    assert_eq!(finish(vec![1, 2, 3]), finish(vec![3, 1, 2]));
    assert_ne!(finish(vec![1, 2, 3]), finish(vec![1, 2, 4]));
    assert_ne!(finish(vec![1, 2, 3]), DefaultHasher::new().finish());
    assert_ne!(digest(&1u32), digest(&2u32));
    assert_eq!(digest(&"a"), digest(&"a"));
}

#[test]
fn hash_of_an_optional_set() {
    let mut h = DefaultHasher::new();
    hash_set_opt(&None::<Vec<u32>>, &mut h);
    assert_eq!(h.finish(), DefaultHasher::new().finish());
    let mut a = DefaultHasher::new();
    hash_set_opt(&Some(vec![1u32, 2]), &mut a);
    let mut b = DefaultHasher::new();
    hash_set(&vec![2u32, 1], &mut b);
    assert_eq!(a.finish(), b.finish());
}

#[test]
fn hash_of_a_map_does_not_depend_on_the_order() {
    let finish = |entries: Vec<(&str, u32)>| {
        let mut h = DefaultHasher::new();
        hash_map(&entries, &mut h);
        h.finish()
    };
    assert_eq!(finish(vec![("a", 1), ("b", 2)]), finish(vec![("b", 2), ("a", 1)]));
    assert_ne!(finish(vec![("a", 1), ("b", 2)]), finish(vec![("a", 2), ("b", 1)]));
}

#[test]
fn any_value_as_an_array() {
    let a = Json::Array(vec![Json::Null, Json::Boolean(true)]);
    assert_eq!(as_array(&a), &[Json::Null, Json::Boolean(true)][..]);
    let one = Json::String("x".to_string());
    assert_eq!(as_array(&one), &[Json::String("x".to_string())][..]);
    assert_eq!(as_array(&Json::Array(vec![])).len(), 0);
}

#[test]
fn remote_documents() {
    let doc = RemoteDocument::new(7u8, "http://ex/doc").unwrap();
    assert_eq!(doc.base_url(), "http://ex/doc");
    assert_eq!(*doc.document(), 7);
    assert_eq!(doc.into_parts(), (7, "http://ex/doc".to_string()));
    assert_eq!(RemoteDocument::new(7u8, "no iri").err(), Some(7));
    assert_eq!(RemoteDocument::new(8u8, "urn:x").unwrap().into_document(), 8);
}

#[test]
fn errors_have_names() {
    assert_eq!(Error::InvalidIriRef.name(), "invalid IRI reference");
    assert_eq!(Error::CompactionToListOfLists.name(), "compaction to list of lists");
    assert_ne!(Error::LoadingFailed.name(), Error::InvalidLocalContext.name());
}

#[test]
fn graph_and_included_nodes_can_be_changed_in_place() {
    let mut node = Node::new();
    assert!(node.graph_mut().is_none() && node.included_mut().is_none());
    node.set_graph(Some(vec![]));
    node.graph_mut().unwrap().push(text("x"));
    assert_eq!(node.graph().unwrap().len(), 1);
    node.set_included(Some(vec![]));
    node.included_mut().unwrap().push(Indexed::new(Node::new(), None));
    node.included_mut().unwrap().push(Indexed::new(Node::new(), None));
    assert_eq!(node.included().unwrap().len(), 2);
    assert!(node.has_key(&Term::Keyword(Keyword::Included)));
}

#[test]
fn json_values_can_be_changed_in_place() {
    let mut v = Json::Array(vec![Json::Null]);
    match v.as_mut() {
        ValueMut::Array(items) => items.push(Json::Boolean(true)),
        _ => panic!("an array"),
    }
    assert_eq!(v, Json::Array(vec![Json::Null, Json::Boolean(true)]));
    let mut s = Json::String("a".to_string());
    match s.as_mut() {
        ValueMut::String(text) => text.push('b'),
        _ => panic!("a string"),
    }
    assert_eq!(s, Json::String("ab".to_string()));
    let mut n = Json::Number(Number::from_i64(1));
    match n.as_mut() {
        ValueMut::Number(x) => x.mantissa = 5,
        _ => panic!("a number"),
    }
    assert_eq!(n, Json::Number(Number::from_i64(5)));
    let mut o = Json::Object(JsonObject::new());
    match o.as_mut() {
        ValueMut::Object(x) => x.insert("k".to_string(), Json::Null),
        _ => panic!("an object"),
    }
    assert_eq!(o.get("k"), Some(&Json::Null));
    assert!(matches!(Json::Null.as_mut(), ValueMut::Null));
    assert!(matches!(Json::Boolean(true).as_mut(), ValueMut::Boolean(true)));
}

#[test]
fn anything_that_is_an_object() {
    let v = Value::Literal(Literal::String("x".to_string()), None);
    assert!(Any::is_value(&v) && !Any::is_node(&v) && !Any::is_list(&v) && !Any::is_graph(&v));
    assert!(Any::id(&v).is_none() && Any::language(&v).is_none());
    assert!(matches!(Any::as_ref(&v), Ref::Value(_)));
    let n = Node::with_id("http://ex/a".to_string());
    assert!(Any::is_node(&n) && !Any::is_value(&n));
    assert_eq!(Any::id(&n), Some("http://ex/a"));
    let mut g = Node::new();
    g.set_graph(Some(vec![]));
    assert!(Any::is_graph(&g));
    let l = Doc::List(vec![]);
    assert!(Any::is_list(&l) && !Any::is_graph(&l));
    let tagged = Value::LangString(
        LangString::new("Hi".to_string(), LanguageTagBuf::parse("en"), None).unwrap(),
    );
    assert_eq!(Any::language(&Doc::Value(tagged)).unwrap().as_str(), "en");
}

#[test]
fn compaction_through_the_traits() {
    let mut ctx = Context::new(None);
    ctx.set("name".to_string(), TermDefinition::simple("http://ex/name"));
    let resolver = Resolver::new();
    let active = Inversible::new(&ctx);
    let mut node = Node::with_id("http://ex/a".to_string());
    node.insert("http://ex/name".to_string(), text("A"));
    let mut expected = JsonObject::new();
    expected.insert("@id".to_string(), Json::String("http://ex/a".to_string()));
    expected.insert("name".to_string(), Json::String("A".to_string()));
    let expected = Json::Object(expected);
    let options = json_ld::compaction::Options::default();
    assert_eq!(
        node.compact_indexed_with(None, &resolver, &active, &active, None, options),
        Ok(expected.clone())
    );
    let item = Indexed::new(Doc::Node(node), None);
    assert_eq!(item.compact(&resolver, &active), Ok(expected.clone()));
    assert_eq!(item.compact_with(&resolver, &active, &active, None, options), Ok(expected.clone()));
    let set = vec![item, text("x")];
    assert_eq!(
        set.compact(&resolver, &active),
        Ok(Json::Array(vec![expected, Json::String("x".to_string())]))
    );
    let v = Value::Literal(Literal::String("x".to_string()), None);
    assert_eq!(
        v.compact_indexed_with(Some("i"), &resolver, &active, &active, Some("name"), options),
        Ok({
            let mut o = JsonObject::new();
            o.insert("@value".to_string(), Json::String("x".to_string()));
            o.insert("@index".to_string(), Json::String("i".to_string()));
            Json::Object(o)
        })
    );
}

fn hash_of<T: core::hash::Hash>(item: &T) -> u64 {
    let mut h = DefaultHasher::new();
    item.hash(&mut h);
    h.finish()
}

#[test]
fn hash_of_a_node_does_not_depend_on_the_order_of_its_properties() {
    let mut a = Node::with_id("http://ex/a".to_string());
    a.insert("http://ex/p".to_string(), text("1"));
    a.insert("http://ex/q".to_string(), text("2"));
    a.set_graph(Some(vec![text("x"), text("y")]));
    let mut b = Node::with_id("http://ex/a".to_string());
    b.insert("http://ex/q".to_string(), text("2"));
    b.insert("http://ex/p".to_string(), text("1"));
    b.set_graph(Some(vec![text("y"), text("x")]));
    assert_eq!(hash_of(&a), hash_of(&b));
    assert_ne!(a, b);
    let mut c = Node::with_id("http://ex/a".to_string());
    c.insert("http://ex/p".to_string(), text("1"));
    c.insert("http://ex/q".to_string(), text("3"));
    c.set_graph(Some(vec![text("x"), text("y")]));
    assert_ne!(hash_of(&a), hash_of(&c));
    assert_ne!(hash_of(&a), hash_of(&Node::with_id("http://ex/a".to_string())));
    assert_eq!(hash_of(&Doc::Node(Node::new())), hash_of(&Doc::Node(Node::new())));
}

#[test]
fn language_tags_are_equal_and_hash_alike_whatever_their_case() {
    let a = LanguageTagBuf::parse("en-US").unwrap();
    let b = LanguageTagBuf::parse("EN-us").unwrap();
    let c = LanguageTagBuf::parse("fr").unwrap();
    assert!(a == b && a != c);
    assert_eq!(hash_of(&a), hash_of(&b));
    assert_ne!(hash_of(&a), hash_of(&c));
    let x = LangString::new("Hi".to_string(), Some(a), None).unwrap();
    let y = LangString::new("Hi".to_string(), Some(b), None).unwrap();
    assert_eq!(x, y);
    assert_eq!(Value::LangString(x), Value::LangString(y));
}

#[test]
fn direction_as_json() {
    assert_eq!(Direction::Ltr.as_json(), Json::String("ltr".to_string()));
    assert_eq!(Direction::Rtl.as_json(), Json::String("rtl".to_string()));
}
