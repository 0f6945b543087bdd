//! Compaction of value objects.

use vstd::prelude::*;
use crate::compaction::iri::{alias, alias_for, term_for, vocab_term};
use crate::compaction::Options;
use crate::context::definition::TermDefinition;
use crate::context::inverse::Inversible;
use crate::context::{resolve, Context, Resolver};
use crate::direction::{direction_name, Direction};
use crate::error::Error;
use crate::json;
use crate::json::{insert, JsonView, Object, ObjectView};
use crate::lang::{opt_tags_equal, same_language, LanguageTagBuf};
use crate::object::value::{literal_json, literal_value, Literal, Value};
use crate::syntax::{Container, Keyword, Nullable, Term, Type};
use crate::text::{opt_chars, owned, str_eq};

verus! {

/// The definition of the active property in a context.
pub open spec fn property_definition(ctx: Context, active_property: Option<Seq<char>>) -> Option<
    TermDefinition,
> {
    match active_property {
        Some(p) => ctx.spec_get(p),
        None => None,
    }
}

/// The context in force inside a property: the processed local context of
/// the property's definition where it has one, else the context as it is.
pub open spec fn entered(resolver: Resolver, ctx: Context, def: Option<TermDefinition>) -> Result<
    Context,
    Error,
> {
    match def {
        Some(d) => match d.context {
            Some(local) => resolve(resolver.processed@, local),
            None => Ok(ctx),
        },
        None => Ok(ctx),
    }
}

/// The language for the values of a property: its language mapping, or
/// the default language of the context.
pub open spec fn property_language(ctx: Context, def: Option<TermDefinition>) -> Option<LanguageTagBuf> {
    match def {
        Some(d) => match d.language {
            Some(l) => l.spec_option(),
            None => ctx.default_language,
        },
        None => ctx.default_language,
    }
}

/// The direction for the values of a property: its direction mapping, or
/// the default base direction of the context.
pub open spec fn property_direction(ctx: Context, def: Option<TermDefinition>) -> Option<Direction> {
    match def {
        Some(d) => match d.direction {
            Some(x) => x.spec_option(),
            None => ctx.default_base_direction,
        },
        None => ctx.default_base_direction,
    }
}

/// The container mapping of a property: empty where it has no definition.
pub open spec fn property_container(def: Option<TermDefinition>) -> Container {
    match def {
        Some(d) => d.container,
        None => Container::spec_new(),
    }
}

/// The type mapping of a property.
pub open spec fn property_type(def: Option<TermDefinition>) -> Option<Type> {
    match def {
        Some(d) => d.typ,
        None => None,
    }
}

/// Whether the type of a literal is the type mapping of the property: both
/// are missing, or both are the same IRI.
pub open spec fn type_matches(ty: Option<String>, mapping: Option<Type>) -> bool {
    match (ty, mapping) {
        (None, None) => true,
        (Some(t), Some(Type::Ref(m))) => t@ == m@,
        _ => false,
    }
}

/// Whether the `@index` of a value is left out: it has none, or the
/// container of the property holds the values by index.
pub open spec fn index_removed(index: Option<Seq<char>>, container: Container) -> bool {
    index is None || container.index
}

/// A full value object with its `@index`, where the index is kept.
pub open spec fn with_index(
    ctx: Context,
    o: ObjectView,
    index: Option<Seq<char>>,
    container: Container,
    options: Options,
) -> JsonView {
    match index {
        Some(i) => if !index_removed(index, container) {
            JsonView::Object(insert(o, alias(ctx, Keyword::Index, options), JsonView::String(i)))
        } else {
            JsonView::Object(o)
        },
        None => JsonView::Object(o),
    }
}

/// The compact form of a typed literal.
pub open spec fn literal_in_context(
    ctx: Context,
    lit: Literal,
    ty: Option<String>,
    index: Option<Seq<char>>,
    def: Option<TermDefinition>,
    options: Options,
) -> JsonView {
    let container = property_container(def);
    let value_key = alias(ctx, Keyword::Value, options);
    if type_matches(ty, property_type(def)) && index_removed(index, container) {
        match lit {
            Literal::String(s) => if ty is Some || (property_language(ctx, def) is None
                && property_direction(ctx, def) is None) {
                JsonView::String(s@)
            } else {
                JsonView::Object(insert(Seq::empty(), value_key, JsonView::String(s@)))
            },
            _ => literal_json(lit),
        }
    } else {
        let o = insert(Seq::empty(), value_key, literal_json(lit));
        let o = match ty {
            Some(t) => insert(
                o,
                alias(ctx, Keyword::Type, options),
                JsonView::String(vocab_term(ctx, Term::Ref(t), None, false, options)),
            ),
            None => o,
        };
        with_index(ctx, o, index, container, options)
    }
}

/// The compact form of a language-tagged string.
pub open spec fn lang_string_in_context(
    ctx: Context,
    data: Seq<char>,
    language: Option<LanguageTagBuf>,
    direction: Option<Direction>,
    index: Option<Seq<char>>,
    def: Option<TermDefinition>,
    options: Options,
) -> JsonView {
    let container = property_container(def);
    if index_removed(index, container) && (language is None || opt_tags_equal(
        property_language(ctx, def),
        language,
    )) && (direction is None || property_direction(ctx, def) == direction) {
        JsonView::String(data)
    } else {
        let o = insert(Seq::empty(), alias(ctx, Keyword::Value, options), JsonView::String(data));
        let o = match language {
            Some(l) => insert(o, alias(ctx, Keyword::Language, options), JsonView::String(l@)),
            None => o,
        };
        let o = match direction {
            Some(d) => insert(
                o,
                alias(ctx, Keyword::Direction, options),
                JsonView::String(direction_name(d)),
            ),
            None => o,
        };
        with_index(ctx, o, index, container, options)
    }
}

/// The compact form of a JSON literal.
pub open spec fn json_in_context(
    ctx: Context,
    payload: JsonView,
    index: Option<Seq<char>>,
    def: Option<TermDefinition>,
    options: Options,
) -> JsonView {
    let container = property_container(def);
    if property_type(def) matches Some(Type::Json) && index_removed(index, container) {
        payload
    } else {
        let o = insert(Seq::empty(), alias(ctx, Keyword::Value, options), payload);
        let o = insert(
            o,
            alias(ctx, Keyword::Type, options),
            JsonView::String(alias(ctx, Keyword::Json, options)),
        );
        with_index(ctx, o, index, container, options)
    }
}

/// The compact form of a value object under a context in which the local
/// context of the property, if any, is in force already.
pub open spec fn value_in_context(
    ctx: Context,
    value: Value,
    index: Option<Seq<char>>,
    active_property: Option<Seq<char>>,
    options: Options,
) -> JsonView {
    let def = property_definition(ctx, active_property);
    match value {
        Value::Literal(lit, ty) => literal_in_context(ctx, lit, ty, index, def, options),
        Value::LangString(s) => lang_string_in_context(
            ctx,
            s.data@,
            s.language,
            s.direction,
            index,
            def,
            options,
        ),
        Value::Json(j) => json_in_context(ctx, j@, index, def, options),
    }
}

/// The compact form of a value object with its index under the active
/// property: the bare value where the property's definition says all that
/// the value object says, the full object with compacted keys otherwise. The
/// local context of the property is entered first; that it cannot be had is
/// the one error.
pub open spec fn compact_value(
    resolver: Resolver,
    ctx: Context,
    value: Value,
    index: Option<Seq<char>>,
    active_property: Option<Seq<char>>,
    options: Options,
) -> Result<JsonView, Error> {
    match entered(resolver, ctx, property_definition(ctx, active_property)) {
        Ok(inner) => Ok(value_in_context(inner, value, index, active_property, options)),
        Err(e) => Err(e),
    }
}

fn lookup<'a>(active: &Inversible<'a>, active_property: Option<&str>) -> (r: Option<&'a TermDefinition>)
    ensures
        owned(r) == property_definition(active@, opt_chars(active_property)),
{
    match active_property {
        Some(p) => active.context().get(p),
        None => None,
    }
}

fn language_of<'a>(ctx: &'a Context, def: Option<&'a TermDefinition>) -> (r: Option<&'a LanguageTagBuf>)
    ensures
        owned(r) == property_language(*ctx, owned(def)),
{
    match def {
        Some(d) => match &d.language {
            Some(Nullable::Value(t)) => Some(t),
            Some(Nullable::Null) => None,
            None => ctx.default_language(),
        },
        None => ctx.default_language(),
    }
}

fn direction_of(ctx: &Context, def: Option<&TermDefinition>) -> (r: Option<Direction>)
    ensures
        r == property_direction(*ctx, owned(def)),
{
    match def {
        Some(d) => match &d.direction {
            Some(Nullable::Value(x)) => Some(*x),
            Some(Nullable::Null) => None,
            None => ctx.default_base_direction(),
        },
        None => ctx.default_base_direction(),
    }
}

/// The container mapping of a property: empty where it has no definition.
pub fn container_of(def: Option<&TermDefinition>) -> (r: Container)
    ensures
        r == property_container(owned(def)),
{
    match def {
        Some(d) => d.container,
        None => Container::new(),
    }
}

fn finish_object(
    active: &Inversible,
    o: Object,
    index: Option<&str>,
    container: Container,
    options: Options,
) -> (r: json::Value)
    ensures
        r@ == with_index(active@, o@, opt_chars(index), container, options),
{
    let mut o = o;
    match index {
        Some(i) => {
            if !container.index {
                o.insert(alias_for(active, Keyword::Index, options), json::Value::string(i));
            }
        },
        None => {},
    }
    json::Value::Object(o)
}

fn compact_in_context(
    active: &Inversible,
    value: &Value,
    index: Option<&str>,
    active_property: Option<&str>,
    options: Options,
) -> (r: json::Value)
    ensures
        r@ == value_in_context(
            active@,
            *value,
            opt_chars(index),
            opt_chars(active_property),
            options,
        ),
{
    let ctx = active.context();
    let def = lookup(active, active_property);
    let language = language_of(ctx, def);
    let direction = direction_of(ctx, def);
    let container = container_of(def);
    let remove_index = index.is_none() || container.index;
    match value {
        Value::Literal(lit, ty) => {
            let same_type = match (ty, def) {
                (None, None) => true,
                (None, Some(d)) => d.typ.is_none(),
                (Some(t), Some(d)) => match &d.typ {
                    Some(Type::Ref(m)) => str_eq(t.as_str(), m.as_str()),
                    _ => false,
                },
                _ => false,
            };
            if same_type && remove_index {
                match lit {
                    Literal::String(s) => if ty.is_some() || (language.is_none()
                        && direction.is_none()) {
                        json::Value::string(s.as_str())
                    } else {
                        let mut o = Object::new();
                        o.insert(
                            alias_for(active, Keyword::Value, options),
                            json::Value::string(s.as_str()),
                        );
                        json::Value::Object(o)
                    },
                    _ => literal_value(lit),
                }
            } else {
                let mut o = Object::new();
                o.insert(alias_for(active, Keyword::Value, options), literal_value(lit));
                match ty {
                    Some(t) => {
                        let compact_ty = term_for(active, &Term::Ref(t.clone()), None, false, options);
                        o.insert(
                            alias_for(active, Keyword::Type, options),
                            json::Value::String(compact_ty),
                        );
                    },
                    None => {},
                }
                finish_object(active, o, index, container, options)
            }
        },
        Value::LangString(ls) => {
            let same_direction = match (direction, ls.direction()) {
                (_, None) => true,
                (Some(a), Some(b)) => a == b,
                (None, Some(_)) => false,
            };
            if remove_index && (ls.language().is_none() || same_language(language, ls.language()))
                && same_direction {
                json::Value::string(ls.as_str())
            } else {
                let mut o = Object::new();
                o.insert(
                    alias_for(active, Keyword::Value, options),
                    json::Value::string(ls.as_str()),
                );
                match ls.language() {
                    Some(l) => {
                        o.insert(
                            alias_for(active, Keyword::Language, options),
                            json::Value::string(l.as_str()),
                        );
                    },
                    None => {},
                }
                match ls.direction() {
                    Some(d) => {
                        o.insert(
                            alias_for(active, Keyword::Direction, options),
                            json::Value::string(d.as_str()),
                        );
                    },
                    None => {},
                }
                finish_object(active, o, index, container, options)
            }
        },
        Value::Json(payload) => {
            let json_type = match def {
                Some(d) => match &d.typ {
                    Some(Type::Json) => true,
                    _ => false,
                },
                None => false,
            };
            if json_type && remove_index {
                payload.clone()
            } else {
                let mut o = Object::new();
                o.insert(alias_for(active, Keyword::Value, options), payload.clone());
                let compact_ty = alias_for(active, Keyword::Json, options);
                o.insert(alias_for(active, Keyword::Type, options), json::Value::String(compact_ty));
                finish_object(active, o, index, container, options)
            }
        },
    }
}

/// Compact the given indexed value.
pub fn compact_indexed_value_with<'a>(
    resolver: &'a Resolver,
    value: &Value,
    index: Option<&str>,
    active: &Inversible<'a>,
    active_property: Option<&str>,
    options: Options,
) -> (r: Result<json::Value, Error>)
    ensures
        match r {
            Ok(v) => compact_value(
                *resolver,
                active@,
                *value,
                opt_chars(index),
                opt_chars(active_property),
                options,
            ) == Ok::<JsonView, Error>(v@),
            Err(e) => compact_value(
                *resolver,
                active@,
                *value,
                opt_chars(index),
                opt_chars(active_property),
                options,
            ) == Err::<JsonView, Error>(e),
        },
{
    let local = match lookup(active, active_property) {
        Some(d) => d.context,
        None => None,
    };
    match local {
        Some(local) => match resolver.process_local(local) {
            Ok(ctx) => {
                let inner = Inversible::new(ctx);
                Ok(compact_in_context(&inner, value, index, active_property, options))
            },
            Err(e) => Err(e),
        },
        None => Ok(compact_in_context(active, value, index, active_property, options)),
    }
}

} // verus!
