use json_ld::compaction::iri::{alias_for, compact_identifier, compact_iri, compact_iri_with, Hint};
use json_ld::compaction::Options;
use json_ld::context::definition::TermDefinition;
use json_ld::context::inverse::Inversible;
use json_ld::context::Context;
use json_ld::error::Error;
use json_ld::object::value::{Literal, Value};
use json_ld::object::Ref;
use json_ld::syntax::{Container, ContainerType, Keyword, ProcessingMode, Term, Type};

fn iri(text: &str) -> Term {
    Term::Ref(text.to_string())
}

fn some(text: &str) -> Result<Option<String>, Error> {
    Ok(Some(text.to_string()))
}

#[test]
fn null_compacts_to_nothing() {
    let ctx = Context::new(None);
    let active = Inversible::new(&ctx);
    assert_eq!(compact_iri(&active, &Term::Null, true, false, Options::default()), Ok(None));
    assert_eq!(compact_iri(&active, &Term::Null, false, false, Options::default()), Ok(None));
}

#[test]
fn keyword_without_alias_is_written_as_it_is() {
    let ctx = Context::new(None);
    let active = Inversible::new(&ctx);
    assert_eq!(
        compact_iri(&active, &Term::Keyword(Keyword::Type), true, false, Options::default()),
        some("@type")
    );
    assert_eq!(
        compact_iri(&active, &Term::Keyword(Keyword::Graph), false, false, Options::default()),
        some("@graph")
    );
    assert_eq!(alias_for(&active, Keyword::NoValue, Options::default()), "@none");
}

#[test]
fn keyword_alias_is_used() {
    let mut ctx = Context::new(None);
    let mut id = TermDefinition::default();
    id.value = Some(Term::Keyword(Keyword::Id));
    ctx.set("id".to_string(), id);
    let active = Inversible::new(&ctx);
    assert_eq!(alias_for(&active, Keyword::Id, Options::default()), "id");
    assert_eq!(alias_for(&active, Keyword::Type, Options::default()), "@type");
    // Without the vocabulary the keyword stays.
    assert_eq!(
        compact_iri(&active, &Term::Keyword(Keyword::Id), false, false, Options::default()),
        some("@id")
    );
}

#[test]
fn unknown_iri_stays_verbatim() {
    let ctx = Context::new(None);
    let active = Inversible::new(&ctx);
    assert_eq!(
        compact_iri(&active, &iri("http://ex/foo"), true, false, Options::default()),
        some("http://ex/foo")
    );
    assert_eq!(
        compact_iri(&active, &iri("http://ex/foo"), false, false, Options::default()),
        some("http://ex/foo")
    );
}

#[test]
fn vocabulary_suffix() {
    let mut ctx = Context::new(None);
    ctx.vocabulary = Some(iri("http://schema.org/"));
    let active = Inversible::new(&ctx);
    assert_eq!(
        compact_iri(&active, &iri("http://schema.org/name"), true, false, Options::default()),
        some("name")
    );
    // Not a term of the vocabulary: the mapping is not used.
    assert_eq!(
        compact_iri(&active, &iri("http://schema.org/name"), false, false, Options::default()),
        some("http://schema.org/name")
    );
    // The mapping itself has no suffix.
    assert_eq!(
        compact_iri(&active, &iri("http://schema.org/"), true, false, Options::default()),
        some("http://schema.org/")
    );
}

#[test]
fn vocabulary_suffix_that_is_a_term_is_not_used() {
    let mut ctx = Context::new(None);
    ctx.vocabulary = Some(iri("http://schema.org/"));
    ctx.set("name".to_string(), TermDefinition::simple("http://other.org/name"));
    let active = Inversible::new(&ctx);
    assert_eq!(
        compact_iri(&active, &iri("http://schema.org/name"), true, false, Options::default()),
        some("http://schema.org/name")
    );
    assert_eq!(
        compact_iri(&active, &iri("http://other.org/name"), true, false, Options::default()),
        some("name")
    );
}

fn prefix(iri: &str) -> TermDefinition {
    let mut d = TermDefinition::simple(iri);
    d.prefix = true;
    d
}

#[test]
fn compact_iri_needs_the_prefix_flag() {
    let mut ctx = Context::new(None);
    ctx.set("ex".to_string(), TermDefinition::simple("http://ex/"));
    let active = Inversible::new(&ctx);
    assert_eq!(
        compact_iri(&active, &iri("http://ex/foo"), true, false, Options::default()),
        some("http://ex/foo")
    );
    // The IRI of the term itself is the term.
    assert_eq!(
        compact_iri(&active, &iri("http://ex/"), true, false, Options::default()),
        some("ex")
    );
}

#[test]
fn compact_iri_takes_the_longest_prefix() {
    let mut ctx = Context::new(None);
    ctx.set("ex".to_string(), prefix("http://ex/"));
    ctx.set("exv".to_string(), prefix("http://ex/vocab/"));
    let active = Inversible::new(&ctx);
    assert_eq!(
        compact_iri(&active, &iri("http://ex/vocab/x"), true, false, Options::default()),
        some("exv:x")
    );
    assert_eq!(
        compact_iri(&active, &iri("http://ex/other"), false, false, Options::default()),
        some("ex:other")
    );
}

#[test]
fn compact_iri_tie_goes_to_the_first_term() {
    let mut ctx = Context::new(None);
    ctx.set("b".to_string(), prefix("http://ex/"));
    ctx.set("a".to_string(), prefix("http://ex/"));
    ctx.set("cc".to_string(), prefix("http://ex/"));
    let active = Inversible::new(&ctx);
    assert_eq!(
        compact_iri(&active, &iri("http://ex/x"), false, false, Options::default()),
        some("a:x")
    );
}

#[test]
fn compact_iri_that_is_a_term_is_not_used() {
    let mut ctx = Context::new(None);
    ctx.set("ex".to_string(), prefix("http://ex/"));
    ctx.set("ex:foo".to_string(), TermDefinition::simple("http://elsewhere/"));
    let active = Inversible::new(&ctx);
    assert_eq!(
        compact_iri(&active, &iri("http://ex/foo"), true, false, Options::default()),
        some("http://ex/foo")
    );
    assert_eq!(
        compact_iri(&active, &iri("http://ex/bar"), true, false, Options::default()),
        some("ex:bar")
    );
}

#[test]
fn relative_to_the_base() {
    let ctx = Context::new(Some("http://ex/dir/".to_string()));
    let active = Inversible::new(&ctx);
    assert_eq!(
        compact_iri(&active, &iri("http://ex/dir/doc"), false, false, Options::default()),
        some("doc")
    );
    assert_eq!(
        compact_identifier(&ctx, "http://ex/other", Options::default()),
        Ok("../other".to_string())
    );
    // As a term of the vocabulary the IRI is not made relative.
    assert_eq!(
        compact_iri(&active, &iri("http://ex/dir/doc"), true, false, Options::default()),
        some("http://ex/dir/doc")
    );
    let mut absolute = Options::default();
    absolute.compact_to_relative = false;
    assert_eq!(
        compact_iri(&active, &iri("http://ex/dir/doc"), false, false, absolute),
        some("http://ex/dir/doc")
    );
}

#[test]
fn malformed_iri_cannot_be_made_relative() {
    let ctx = Context::new(Some("http://ex/dir/".to_string()));
    let active = Inversible::new(&ctx);
    assert_eq!(
        compact_iri(&active, &iri("u1"), false, false, Options::default()),
        Err(Error::InvalidIriRef)
    );
    assert_eq!(
        compact_iri(&active, &iri("not an iri"), false, false, Options::default()),
        Err(Error::InvalidIriRef)
    );
    // Without a base nothing is made relative: the text passes as it is.
    let plain = Context::new(None);
    let active = Inversible::new(&plain);
    assert_eq!(compact_iri(&active, &iri("u1"), false, false, Options::default()), some("u1"));
}

#[test]
fn malformed_base_leaves_the_iri() {
    let ctx = Context::new(Some("no base".to_string()));
    let active = Inversible::new(&ctx);
    assert_eq!(
        compact_iri(&active, &iri("http://ex/dir/doc"), false, false, Options::default()),
        some("http://ex/dir/doc")
    );
}

#[test]
fn blank_node_identifier_is_never_relative() {
    let ctx = Context::new(Some("http://ex/dir/".to_string()));
    let active = Inversible::new(&ctx);
    assert_eq!(
        compact_iri(&active, &iri("_:b0"), false, false, Options::default()),
        some("_:b0")
    );
}

fn typed(iri: &str, ty: &str) -> TermDefinition {
    let mut d = TermDefinition::simple(iri);
    d.typ = Some(Type::Ref(ty.to_string()));
    d
}

#[test]
fn term_with_the_type_of_the_value_wins() {
    let mut ctx = Context::new(None);
    ctx.set("plain".to_string(), TermDefinition::simple("http://ex/p"));
    ctx.set("typed".to_string(), typed("http://ex/p", "http://ex/T"));
    let active = Inversible::new(&ctx);
    let with_type = Value::Literal(Literal::String("x".to_string()), Some("http://ex/T".to_string()));
    let without = Value::Literal(Literal::String("x".to_string()), None);
    let other = Value::Literal(Literal::String("x".to_string()), Some("http://ex/U".to_string()));
    let pick = |v: &Value| {
        compact_iri_with(
            &active,
            &iri("http://ex/p"),
            Some(Hint { object: Ref::Value(v), indexed: false }),
            true,
            false,
            Options::default(),
        )
    };
    assert_eq!(pick(&with_type), some("typed"));
    assert_eq!(pick(&without), some("plain"));
    assert_eq!(pick(&other), some("plain"));
}

#[test]
fn term_with_the_preferred_container_wins() {
    let mut ctx = Context::new(None);
    ctx.set("tag".to_string(), TermDefinition::simple("http://ex/tag"));
    let mut tags = TermDefinition::simple("http://ex/tag");
    tags.container = Container::new().with(ContainerType::SetOf);
    ctx.set("tags".to_string(), tags);
    let active = Inversible::new(&ctx);
    let v = Value::Literal(Literal::String("x".to_string()), None);
    let picked = compact_iri_with(
        &active,
        &iri("http://ex/tag"),
        Some(Hint { object: Ref::Value(&v), indexed: false }),
        true,
        false,
        Options::default(),
    );
    assert_eq!(picked, some("tags"));
    // With no value at hand the same holds: `@set` is asked for first.
    assert_eq!(
        compact_iri(&active, &iri("http://ex/tag"), true, false, Options::default()),
        some("tags")
    );
}

#[test]
fn among_terms_recorded_alike_the_shorter_wins() {
    let mut ctx = Context::new(None);
    ctx.set("longer".to_string(), TermDefinition::simple("http://ex/p"));
    ctx.set("zz".to_string(), TermDefinition::simple("http://ex/p"));
    ctx.set("ab".to_string(), TermDefinition::simple("http://ex/p"));
    let active = Inversible::new(&ctx);
    assert_eq!(
        compact_iri(&active, &iri("http://ex/p"), true, false, Options::default()),
        some("ab")
    );
}

#[test]
fn index_container_is_not_asked_for_in_the_legacy_profile() {
    let mut ctx = Context::new(None);
    let mut by_index = TermDefinition::simple("http://ex/p");
    by_index.container = Container::new().with(ContainerType::Index);
    ctx.set("byIndex".to_string(), by_index);
    let active = Inversible::new(&ctx);
    let v = Value::Literal(Literal::String("x".to_string()), None);
    let hint = Some(Hint { object: Ref::Value(&v), indexed: false });
    assert_eq!(
        compact_iri_with(&active, &iri("http://ex/p"), hint, true, false, Options::default()),
        some("byIndex")
    );
    let mut legacy = Options::default();
    legacy.processing_mode = ProcessingMode::JsonLd1_0;
    assert_eq!(
        compact_iri_with(&active, &iri("http://ex/p"), hint, true, false, legacy),
        some("http://ex/p")
    );
}

#[test]
fn plain_number_is_chosen_by_type_and_plain_string_by_language() {
    let mut ctx = Context::new(None);
    let mut code = TermDefinition::simple("http://ex/p");
    code.language = Some(json_ld::syntax::Nullable::Null);
    ctx.set("code".to_string(), code);
    let active = Inversible::new(&ctx);
    let string = Value::Literal(Literal::String("x".to_string()), None);
    let number = Value::Literal(Literal::Number(json_ld::json::Number::from_i64(1)), None);
    let boolean = Value::Literal(Literal::Boolean(true), None);
    let pick = |v: &Value| {
        compact_iri_with(
            &active,
            &iri("http://ex/p"),
            Some(Hint { object: Ref::Value(v), indexed: false }),
            true,
            false,
            Options::default(),
        )
    };
    assert_eq!(pick(&string), some("code"));
    assert_eq!(pick(&number), some("http://ex/p"));
    assert_eq!(pick(&boolean), some("http://ex/p"));
}
