use json_ld::compaction::value::compact_indexed_value_with;
use json_ld::compaction::{value_value, Options};
use json_ld::context::definition::TermDefinition;
use json_ld::context::inverse::Inversible;
use json_ld::context::{Context, Resolver};
use json_ld::direction::Direction;
use json_ld::error::Error;
use json_ld::json::{Number, Object, Value as Json};
use json_ld::lang::LanguageTagBuf;
use json_ld::object::value::{LangString, Literal, Value};
use json_ld::syntax::{Container, ContainerType, Keyword, Nullable, Term, Type};

fn s(x: &str) -> Json {
    Json::String(x.to_string())
}

fn object(entries: Vec<(&str, Json)>) -> Json {
    let mut o = Object::new();
    for (k, v) in entries {
        o.insert(k.to_string(), v);
    }
    Json::Object(o)
}

fn text(x: &str) -> Value {
    Value::Literal(Literal::String(x.to_string()), None)
}

fn typed(x: &str, ty: &str) -> Value {
    Value::Literal(Literal::String(x.to_string()), Some(ty.to_string()))
}

fn lang(x: &str, language: Option<&str>, direction: Option<Direction>) -> Value {
    let tag = language.map(|l| LanguageTagBuf::parse(l).unwrap());
    Value::LangString(LangString::new(x.to_string(), tag, direction).unwrap())
}

fn compact(ctx: &Context, value: &Value, index: Option<&str>, property: Option<&str>) -> Json {
    let resolver = Resolver::new();
    let active = Inversible::new(ctx);
    compact_indexed_value_with(&resolver, value, index, &active, property, Options::default())
        .unwrap()
}

#[test]
fn plain_literals_are_bare() {
    let ctx = Context::new(None);
    assert_eq!(compact(&ctx, &text("Ann"), None, None), s("Ann"));
    assert_eq!(
        compact(&ctx, &Value::Literal(Literal::Boolean(true), None), None, None),
        Json::Boolean(true)
    );
    assert_eq!(
        compact(&ctx, &Value::Literal(Literal::Number(Number::from_i64(-7)), None), None, None),
        Json::Number(Number { positive: false, mantissa: 7, exponent: 0 })
    );
    assert_eq!(compact(&ctx, &Value::Literal(Literal::Null, None), None, None), Json::Null);
}

#[test]
fn typed_literal_under_matching_type_mapping_is_bare() {
    let mut ctx = Context::new(None);
    let mut d = TermDefinition::simple("http://ex/date");
    d.typ = Some(Type::Ref("http://ex/Date".to_string()));
    ctx.set("date".to_string(), d);
    assert_eq!(
        compact(&ctx, &typed("2020", "http://ex/Date"), None, Some("date")),
        s("2020")
    );
}

#[test]
fn typed_literal_keeps_its_type_elsewhere() {
    let mut ctx = Context::new(None);
    ctx.set("Date".to_string(), TermDefinition::simple("http://ex/Date"));
    ctx.set("date".to_string(), TermDefinition::simple("http://ex/date"));
    assert_eq!(
        compact(&ctx, &typed("2020", "http://ex/Date"), None, Some("date")),
        object(vec![("@value", s("2020")), ("@type", s("Date"))])
    );
    assert_eq!(
        compact(&ctx, &typed("2020", "http://ex/Other"), None, None),
        object(vec![("@value", s("2020")), ("@type", s("http://ex/Other"))])
    );
}

#[test]
fn untyped_literal_under_a_type_mapping_is_full() {
    let mut ctx = Context::new(None);
    let mut d = TermDefinition::simple("http://ex/date");
    d.typ = Some(Type::Ref("http://ex/Date".to_string()));
    ctx.set("date".to_string(), d);
    assert_eq!(
        compact(&ctx, &text("2020"), None, Some("date")),
        object(vec![("@value", s("2020"))])
    );
}

#[test]
fn plain_string_under_a_default_language_is_full() {
    let mut ctx = Context::new(None);
    ctx.default_language = LanguageTagBuf::parse("en");
    assert_eq!(compact(&ctx, &text("Hi"), None, None), object(vec![("@value", s("Hi"))]));
    // A number says nothing of a language: it stays bare.
    assert_eq!(
        compact(&ctx, &Value::Literal(Literal::Number(Number::from_i64(3)), None), None, None),
        Json::Number(Number::from_i64(3))
    );
}

#[test]
fn plain_string_under_a_null_language_mapping_is_bare() {
    let mut ctx = Context::new(None);
    ctx.default_language = LanguageTagBuf::parse("en");
    let mut d = TermDefinition::simple("http://ex/code");
    d.language = Some(Nullable::Null);
    ctx.set("code".to_string(), d);
    assert_eq!(compact(&ctx, &text("x1"), None, Some("code")), s("x1"));
}

#[test]
fn language_string_under_its_language_is_bare() {
    let mut ctx = Context::new(None);
    let mut d = TermDefinition::simple("http://ex/label");
    d.language = Some(Nullable::Value(LanguageTagBuf::parse("en").unwrap()));
    ctx.set("label".to_string(), d);
    assert_eq!(compact(&ctx, &lang("Hi", Some("en"), None), None, Some("label")), s("Hi"));
    // The case of the letters does not matter.
    assert_eq!(compact(&ctx, &lang("Hi", Some("EN"), None), None, Some("label")), s("Hi"));
    assert_eq!(
        compact(&ctx, &lang("Salut", Some("fr"), None), None, Some("label")),
        object(vec![("@value", s("Salut")), ("@language", s("fr"))])
    );
}

#[test]
fn language_string_without_mapping_is_full() {
    let ctx = Context::new(None);
    assert_eq!(
        compact(&ctx, &lang("Hi", Some("en"), None), None, None),
        object(vec![("@value", s("Hi")), ("@language", s("en"))])
    );
    assert_eq!(
        compact(&ctx, &lang("Hi", Some("ar"), Some(Direction::Rtl)), None, None),
        object(vec![("@value", s("Hi")), ("@language", s("ar")), ("@direction", s("rtl"))])
    );
    assert_eq!(
        compact(&ctx, &lang("Hi", None, Some(Direction::Ltr)), None, None),
        object(vec![("@value", s("Hi")), ("@direction", s("ltr"))])
    );
}

#[test]
fn direction_of_the_context_is_matched() {
    let mut ctx = Context::new(None);
    ctx.default_base_direction = Some(Direction::Rtl);
    assert_eq!(compact(&ctx, &lang("Hi", None, Some(Direction::Rtl)), None, None), s("Hi"));
    assert_eq!(
        compact(&ctx, &lang("Hi", None, Some(Direction::Ltr)), None, None),
        object(vec![("@value", s("Hi")), ("@direction", s("ltr"))])
    );
}

#[test]
fn json_literal() {
    let payload = object(vec![("a", Json::Array(vec![Json::Null, Json::Boolean(false)]))]);
    let value = Value::Json(payload.clone());
    let mut ctx = Context::new(None);
    let mut d = TermDefinition::simple("http://ex/data");
    d.typ = Some(Type::Json);
    ctx.set("data".to_string(), d);
    assert_eq!(compact(&ctx, &value, None, Some("data")), payload);
    assert_eq!(
        compact(&ctx, &value, None, None),
        object(vec![("@value", payload.clone()), ("@type", s("@json"))])
    );
    assert_eq!(value_value(&value), payload);
}

#[test]
fn index_is_kept_unless_the_container_holds_it() {
    let mut ctx = Context::new(None);
    ctx.set("p".to_string(), TermDefinition::simple("http://ex/p"));
    let mut d = TermDefinition::simple("http://ex/q");
    d.container = Container::new().with(ContainerType::Index);
    ctx.set("q".to_string(), d);
    assert_eq!(
        compact(&ctx, &text("x"), Some("i1"), Some("p")),
        object(vec![("@value", s("x")), ("@index", s("i1"))])
    );
    assert_eq!(compact(&ctx, &text("x"), Some("i1"), Some("q")), s("x"));
}

#[test]
fn keys_of_a_value_object_are_aliased() {
    let mut ctx = Context::new(None);
    for (term, k) in [
        ("val", Keyword::Value),
        ("lang", Keyword::Language),
        ("dir", Keyword::Direction),
        ("idx", Keyword::Index),
        ("type", Keyword::Type),
    ] {
        let mut d = TermDefinition::default();
        d.value = Some(Term::Keyword(k));
        ctx.set(term.to_string(), d);
    }
    assert_eq!(
        compact(&ctx, &lang("Hi", Some("ar"), Some(Direction::Rtl)), Some("i"), None),
        object(vec![("val", s("Hi")), ("lang", s("ar")), ("dir", s("rtl")), ("idx", s("i"))])
    );
    assert_eq!(
        compact(&ctx, &typed("1", "http://ex/T"), None, None),
        object(vec![("val", s("1")), ("type", s("http://ex/T"))])
    );
}

#[test]
fn local_context_of_the_property_is_entered() {
    let mut inner = Context::new(None);
    let mut alias = TermDefinition::default();
    alias.value = Some(Term::Keyword(Keyword::Value));
    inner.set("v".to_string(), alias);
    let mut resolver = Resolver::new();
    let id = resolver.add(Ok(inner));
    let mut ctx = Context::new(None);
    let mut d = TermDefinition::simple("http://ex/p");
    d.context = Some(id);
    ctx.set("p".to_string(), d);
    let active = Inversible::new(&ctx);
    let out = compact_indexed_value_with(
        &resolver,
        &typed("1", "http://ex/T"),
        None,
        &active,
        Some("p"),
        Options::default(),
    );
    assert_eq!(out, Ok(object(vec![("v", s("1")), ("@type", s("http://ex/T"))])));
}

#[test]
fn local_context_that_cannot_be_had_is_an_error() {
    let mut resolver = Resolver::new();
    let failed = resolver.add(Err(Error::LoadingFailed));
    let protected = resolver.add(Err(Error::ProtectedTermRedefinition));
    let mut ctx = Context::new(None);
    for (term, id) in [("a", failed), ("b", protected), ("c", 17)] {
        let mut d = TermDefinition::simple("http://ex/p");
        d.context = Some(id);
        ctx.set(term.to_string(), d);
    }
    let active = Inversible::new(&ctx);
    let run = |property: &str| {
        compact_indexed_value_with(
            &resolver,
            &text("x"),
            None,
            &active,
            Some(property),
            Options::default(),
        )
    };
    assert_eq!(run("a"), Err(Error::LoadingFailed));
    assert_eq!(run("b"), Err(Error::ProtectedTermRedefinition));
    assert_eq!(run("c"), Err(Error::InvalidLocalContext));
    assert_eq!(run("unknown"), Ok(s("x")));
}
