//! Which of several terms for one IRI a value is written under: the term
//! whose type mapping, language mapping or container the value matches wins
//! over the plain terms, whichever is shorter or comes first.

use vstd::prelude::*;
use crate::compaction::iri::{only, selection, vocab_term, Hint};
use crate::compaction::model::{compact_item, object_hint, property_item};
use crate::compaction::place::{as_array_for, place_other};
use crate::compaction::{
    added,
    lemma_added_as_array,
    lemma_added_other,
    lemma_added_present,
    Options,
};
use crate::context::definition::TermDefinition;
use crate::context::inverse::{
    entry_matches,
    find_from,
    inverse_of,
    lemma_definition_recorded,
    lemma_entry_origin,
    lemma_find_from,
    lemma_select_key_from_matches,
    lemma_select_key_some,
    lemma_select_ranking,
    recorded_under,
    select_from,
    select_key_from,
    selection_keys,
    Bucket,
    Key,
};
use crate::context::{lemma_lookup_own, Context, Resolver};
use crate::error::Error;
use crate::json::{get, JsonView, ObjectView};
use crate::lang::tags_equal;
use crate::object::value::Value;
use crate::object::{Indexed, Object, Ref};
use crate::syntax::{Container, ContainerType, Nullable, Term};

verus! {

/// Whether a term definition is plain: it has no container, no type
/// mapping, and is no reverse property.
pub open spec fn is_plain(d: TermDefinition) -> bool {
    d.typ is None && !d.reverse_property && d.container == Container::spec_new()
}

/// Whether the term at place `t` is the one term of the context that
/// maps the IRI `var` with the type mapping `ty` and without container, and
/// every other term that maps `var` is plain.
pub open spec fn typed_among_plain(ctx: Context, var: Term, ty: Seq<char>, t: int) -> bool {
    &&& ctx.wf()
    &&& 0 <= t < ctx.definitions@.len()
    &&& var is Ref
    &&& ctx.definitions@[t].1.value matches Some(tv)
    &&& tv@ == var@
    &&& !ctx.definitions@[t].1.reverse_property
    &&& ctx.definitions@[t].1.container == Container::spec_new()
    &&& ctx.definitions@[t].1.typ matches Some(crate::syntax::Type::Ref(m))
    &&& m@ == ty
    &&& forall|m: int|
        0 <= m < ctx.definitions@.len() && m != t && ((#[trigger] ctx.definitions@[m]).1.value
            matches Some(tv) && tv@ == var@) ==> is_plain(ctx.definitions@[m].1)
}

/// The term with the type of the value wins. Let the context map an IRI
/// by a term with a type mapping and by other terms, all plain. A value of
/// that type is written under the term with the type mapping, whichever of
/// the terms is shorter or comes first.
pub proof fn lemma_typed_term_wins(ctx: Context, var: Term, t: int, v: Value, options: Options)
    requires
        v matches Value::Literal(_, Some(ty)) && typed_among_plain(ctx, var, ty@, t),
    ensures
        vocab_term(
            ctx,
            var,
            Some(Hint { object: Ref::Value(&v), indexed: false }),
            false,
            options,
        ) == ctx.definitions@[t].0@,
{
    let hint = Some(Hint { object: Ref::Value(&v), indexed: false });
    let s = selection(ctx, hint, false, options);
    let entries = inverse_of(ctx);
    let defs = ctx.definitions@;
    let lang = ctx.default_language;
    let dir = ctx.default_base_direction;
    let none = Container::spec_new();
    assert(s.bucket == Bucket::Type);
    assert(s.containers[0] == only(ContainerType::SetOf));
    assert(s.containers[1] == none);
    assert(s.keys.len() >= 1);
    let key = s.keys[0];
    assert(key == Key::Type(v->Literal_1->0));
    // The record of the term with the type mapping answers the query.
    assert(selection_keys(lang, dir, defs[t].1)[0].0 == Bucket::Type);
    let own = lemma_definition_recorded(
        lang,
        dir,
        defs,
        defs.len() as int,
        t,
        0,
    );
    assert(entry_matches(entries[own], var@, none, Bucket::Type, key));
    lemma_find_from(entries, var@, none, Bucket::Type, key, 0);
    let e = find_from(entries, var@, none, Bucket::Type, key, 0)->0;
    // No record of a plain term answers it.
    let m = lemma_entry_origin(lang, dir, defs, defs.len() as int, e);
    if m != t {
        assert(is_plain(defs[m].1));
        assert(!recorded_under(
            lang,
            dir,
            defs[m].1,
            Bucket::Type,
            entries[e].key,
        ));
    }
    // No record of any of these terms has a container.
    assert forall|e2: int, c2: int, k2: int|
        0 <= e2 < entries.len() && 0 <= c2 < 1 && 0 <= k2 < s.keys.len()
            implies !entry_matches(
        #[trigger] entries[e2],
        var@,
        #[trigger] s.containers[c2],
        Bucket::Type,
        #[trigger] s.keys[k2],
    ) by {
        let m2 = lemma_entry_origin(
            lang,
            dir,
            defs,
            defs.len() as int,
            e2,
        );
        if entries[e2].iri@ == var@ {
            if m2 != t {
                assert(is_plain(defs[m2].1));
            }
            assert(entries[e2].container == none);
        }
    }
    lemma_select_ranking(
        entries,
        var@,
        s.containers,
        Bucket::Type,
        s.keys,
        1,
        0,
        e,
    );
}

/// Ranking in the document, by type. Let the context map an IRI by a term with a
/// type mapping (and without container or local context) and by other
/// terms, all plain. A value of that type, without index, is emitted under
/// the term with the type mapping, as the bare literal, while every other
/// key of the result, the plain terms among them, stays as it was:
/// whichever of the terms is shorter or comes first.
pub proof fn lemma_typed_value_goes_under_the_typed_term(
    resolver: Resolver,
    ctx: Context,
    result: ObjectView,
    var: Term,
    t: int,
    item: Indexed<Object>,
    options: Options,
    other: Seq<char>,
)
    requires
        item.index is None,
        item.value matches Object::Value(Value::Literal(_, Some(ty)))
            && typed_among_plain(ctx, var, ty@, t),
        ctx.definitions@[t].1.context is None,
    ensures
        property_item(resolver, ctx, result, var, item, false, options) == Ok::<ObjectView, Error>(
            added(
                result,
                ctx.definitions@[t].0@,
                crate::object::value::literal_json(item.value->Value_0->Literal_0),
                as_array_for(ctx, ctx.definitions@[t].0@, options),
            ),
        ),
        get(
            property_item(resolver, ctx, result, var, item, false, options)->Ok_0,
            ctx.definitions@[t].0@,
        ) is Some,
        other != ctx.definitions@[t].0@ ==> get(
            property_item(resolver, ctx, result, var, item, false, options)->Ok_0,
            other,
        ) == get(result, other),
{
    let v = item.value->Value_0;
    let term = ctx.definitions@[t].0@;
    let lit = v->Literal_0;
    lemma_typed_term_wins(ctx, var, t, v, options);
    lemma_lookup_own(ctx.definitions@, t);
    assert(object_hint(&item) == (Hint { object: Ref::Value(&v), indexed: false }));
    assert(vocab_term(ctx, var, Some(object_hint(&item)), false, options) == term);
    assert(ctx.spec_get(term) == Some(ctx.definitions@[t].1));
    let as_array = as_array_for(ctx, term, options);
    let c = crate::object::value::literal_json(lit);
    assert(compact_item(resolver, ctx, ctx, Some(term), item, options) == Ok::<JsonView, Error>(c));
    assert(place_other(result, ctx, term, c, Some(v), None, options) == added(
        result,
        term,
        c,
        as_array,
    ));
    lemma_added_present(result, term, c, as_array);
    if other != term {
        lemma_added_other(result, term, c, as_array, other);
    }
}

/// Whether a term definition is bare: it has no container, no type,
/// language or direction mapping, and is no reverse property.
pub open spec fn is_bare(d: TermDefinition) -> bool {
    &&& d.typ is None
    &&& d.language is None
    &&& d.direction is None
    &&& !d.reverse_property
    &&& d.container == Container::spec_new()
}

/// Whether every term of the context that maps `var`, but for the one
/// at place `t`, is bare.
pub open spec fn others_bare(ctx: Context, var: Term, t: int) -> bool {
    forall|m: int|
        0 <= m < ctx.definitions@.len() && m != t && ((#[trigger] ctx.definitions@[m]).1.value
            matches Some(tv) && tv@ == var@) ==> is_bare(ctx.definitions@[m].1)
}

/// Whether the term at place `t` maps the IRI `var` with a mapping to the
/// language `language` and nothing else, in a context without default
/// language or direction, and every other term that maps `var` is bare.
pub open spec fn language_among_bare(ctx: Context, var: Term, language: Seq<char>, t: int) -> bool {
    &&& ctx.wf()
    &&& ctx.default_language is None
    &&& ctx.default_base_direction is None
    &&& 0 <= t < ctx.definitions@.len()
    &&& var is Ref
    &&& ctx.definitions@[t].1.value matches Some(tv)
    &&& tv@ == var@
    &&& !ctx.definitions@[t].1.reverse_property
    &&& ctx.definitions@[t].1.container == Container::spec_new()
    &&& ctx.definitions@[t].1.typ is None
    &&& ctx.definitions@[t].1.direction is None
    &&& ctx.definitions@[t].1.language matches Some(Nullable::Value(l))
    &&& tags_equal(l@, language)
    &&& others_bare(ctx, var, t)
}

/// Whether the term at place `t` maps the IRI `var` with the container
/// `@set` and nothing else, and every other term that maps `var` is bare.
pub open spec fn set_among_bare(ctx: Context, var: Term, t: int) -> bool {
    &&& ctx.wf()
    &&& 0 <= t < ctx.definitions@.len()
    &&& var is Ref
    &&& ctx.definitions@[t].1.value matches Some(tv)
    &&& tv@ == var@
    &&& !ctx.definitions@[t].1.reverse_property
    &&& ctx.definitions@[t].1.container == only(ContainerType::SetOf)
    &&& ctx.definitions@[t].1.typ is None
    &&& ctx.definitions@[t].1.language is None
    &&& ctx.definitions@[t].1.direction is None
    &&& others_bare(ctx, var, t)
}

/// The term with the language of the value wins. A string in a language
/// is written under the term with the mapping to that language, not under
/// a bare term, whichever of the terms is shorter or comes first.
pub proof fn lemma_language_term_wins(ctx: Context, var: Term, t: int, v: Value, options: Options)
    requires
        v matches Value::LangString(s) && (s.direction is None && (s.language matches Some(l)
            && language_among_bare(ctx, var, l@, t))),
    ensures
        vocab_term(
            ctx,
            var,
            Some(Hint { object: Ref::Value(&v), indexed: false }),
            false,
            options,
        ) == ctx.definitions@[t].0@,
{
    let hint = Some(Hint { object: Ref::Value(&v), indexed: false });
    let s = selection(ctx, hint, false, options);
    let entries = inverse_of(ctx);
    let defs = ctx.definitions@;
    let lang = ctx.default_language;
    let dir = ctx.default_base_direction;
    let none = Container::spec_new();
    assert(s.bucket == Bucket::Language);
    assert(s.containers[0] == only(ContainerType::Language));
    assert(s.containers[1] == only(ContainerType::Language).spec_with(ContainerType::SetOf));
    assert(s.containers[2] == only(ContainerType::SetOf));
    assert(s.containers[3] == none);
    assert(s.keys.len() >= 1);
    let key = s.keys[0];
    assert(key == Key::Lang(v->LangString_0.language, None));
    assert(selection_keys(lang, dir, defs[t].1)[0].0 == Bucket::Language);
    let own = lemma_definition_recorded(lang, dir, defs, defs.len() as int, t, 0);
    crate::lang::lemma_tags_equal_equivalence(
        defs[t].1.language->0->Value_0@,
        v->LangString_0.language->0@,
        v->LangString_0.language->0@,
    );
    assert(entry_matches(entries[own], var@, none, Bucket::Language, key));
    lemma_find_from(entries, var@, none, Bucket::Language, key, 0);
    let e = find_from(entries, var@, none, Bucket::Language, key, 0)->0;
    let m = lemma_entry_origin(lang, dir, defs, defs.len() as int, e);
    if m != t {
        assert(is_bare(defs[m].1));
        assert(!recorded_under(
            lang,
            dir,
            defs[m].1,
            Bucket::Language,
            entries[e].key,
        ));
    }
    assert forall|e2: int, c2: int, k2: int|
        0 <= e2 < entries.len() && 0 <= c2 < 3 && 0 <= k2 < s.keys.len() implies !entry_matches(
        #[trigger] entries[e2],
        var@,
        #[trigger] s.containers[c2],
        Bucket::Language,
        #[trigger] s.keys[k2],
    ) by {
        let m2 = lemma_entry_origin(lang, dir, defs, defs.len() as int, e2);
        if entries[e2].iri@ == var@ {
            if m2 != t {
                assert(is_bare(defs[m2].1));
            }
            assert(entries[e2].container == none);
        }
    }
    lemma_select_ranking(entries, var@, s.containers, Bucket::Language, s.keys, 3, 0, e);
}

/// Ranking in the document, by language. A string in a language, without
/// direction or index, is emitted as the bare string under the term with
/// the mapping to that language (which has no local context), while every
/// other key of the result, the bare terms among them, stays as it was.
pub proof fn lemma_language_string_goes_under_the_language_term(
    resolver: Resolver,
    ctx: Context,
    result: ObjectView,
    var: Term,
    t: int,
    item: Indexed<Object>,
    options: Options,
    other: Seq<char>,
)
    requires
        item.index is None,
        item.value matches Object::Value(Value::LangString(s)) && (s.direction is None && (
        s.language matches Some(l) && language_among_bare(ctx, var, l@, t))),
        ctx.definitions@[t].1.context is None,
    ensures
        property_item(resolver, ctx, result, var, item, false, options) == Ok::<ObjectView, Error>(
            added(
                result,
                ctx.definitions@[t].0@,
                JsonView::String(item.value->Value_0->LangString_0.data@),
                as_array_for(ctx, ctx.definitions@[t].0@, options),
            ),
        ),
        get(
            property_item(resolver, ctx, result, var, item, false, options)->Ok_0,
            ctx.definitions@[t].0@,
        ) is Some,
        other != ctx.definitions@[t].0@ ==> get(
            property_item(resolver, ctx, result, var, item, false, options)->Ok_0,
            other,
        ) == get(result, other),
{
    let v = item.value->Value_0;
    let term = ctx.definitions@[t].0@;
    lemma_language_term_wins(ctx, var, t, v, options);
    lemma_lookup_own(ctx.definitions@, t);
    assert(object_hint(&item) == (Hint { object: Ref::Value(&v), indexed: false }));
    assert(ctx.spec_get(term) == Some(ctx.definitions@[t].1));
    crate::lang::lemma_tags_equal_equivalence(
        ctx.definitions@[t].1.language->0->Value_0@,
        v->LangString_0.language->0@,
        v->LangString_0.language->0@,
    );
    let as_array = as_array_for(ctx, term, options);
    let c = JsonView::String(v->LangString_0.data@);
    assert(compact_item(resolver, ctx, ctx, Some(term), item, options) == Ok::<JsonView, Error>(c));
    lemma_added_present(result, term, c, as_array);
    if other != term {
        lemma_added_other(result, term, c, as_array, other);
    }
}

/// The term with the `@set` container wins. A value object without
/// language, direction or index is written under the term with the `@set`
/// container, not under a bare term, whichever of the terms is shorter or
/// comes first.
pub proof fn lemma_set_term_wins(ctx: Context, var: Term, t: int, v: Value, options: Options)
    requires
        set_among_bare(ctx, var, t),
        !(v is LangString),
    ensures
        vocab_term(
            ctx,
            var,
            Some(Hint { object: Ref::Value(&v), indexed: false }),
            false,
            options,
        ) == ctx.definitions@[t].0@,
{
    let hint = Some(Hint { object: Ref::Value(&v), indexed: false });
    let s = selection(ctx, hint, false, options);
    let entries = inverse_of(ctx);
    let defs = ctx.definitions@;
    let lang = ctx.default_language;
    let dir = ctx.default_base_direction;
    let set = only(ContainerType::SetOf);
    assert(s.containers[0] == set);
    assert(s.keys.len() >= 2);
    assert(s.keys[1] == Key::NoValue);
    assert(s.bucket == Bucket::Language || s.bucket == Bucket::Type);
    let keys = selection_keys(lang, dir, defs[t].1);
    assert(keys.len() == 3);
    let j: int = if s.bucket == Bucket::Language {
        1
    } else {
        2
    };
    assert(keys[j] == (s.bucket, Key::NoValue));
    let own = lemma_definition_recorded(lang, dir, defs, defs.len() as int, t, j);
    assert(entry_matches(entries[own], var@, set, s.bucket, s.keys[1]));
    lemma_find_from(entries, var@, set, s.bucket, s.keys[1], 0);
    lemma_select_key_some(entries, var@, set, s.bucket, s.keys, 0, 1);
    lemma_select_key_from_matches(entries, var@, set, s.bucket, s.keys, 0);
    let e = select_key_from(entries, var@, set, s.bucket, s.keys, 0)->0;
    let m = lemma_entry_origin(lang, dir, defs, defs.len() as int, e);
    if m != t {
        assert(is_bare(defs[m].1));
    }
    assert(select_from(entries, var@, s.containers, s.bucket, s.keys, 0) == Some(e));
}

/// Ranking in the document, by container. A value object without
/// language, direction or index is emitted under the term with the `@set`
/// container, in an array, while every other key of the result, the bare
/// terms among them, stays as it was.
pub proof fn lemma_value_goes_under_the_set_term(
    resolver: Resolver,
    ctx: Context,
    result: ObjectView,
    var: Term,
    t: int,
    item: Indexed<Object>,
    options: Options,
    other: Seq<char>,
)
    requires
        item.index is None,
        item.value matches Object::Value(v) && !(v is LangString),
        set_among_bare(ctx, var, t),
    ensures
        property_item(resolver, ctx, result, var, item, false, options) matches Ok(r) ==> {
            &&& compact_item(
                resolver,
                ctx,
                ctx,
                Some(ctx.definitions@[t].0@),
                item,
                options,
            ) matches Ok(c)
            &&& r == added(result, ctx.definitions@[t].0@, c, true)
            &&& get(r, ctx.definitions@[t].0@) is Some
            &&& get(r, ctx.definitions@[t].0@)->0 is Array
            &&& other != ctx.definitions@[t].0@ ==> get(r, other) == get(result, other)
        },
{
    let v = item.value->Value_0;
    let term = ctx.definitions@[t].0@;
    lemma_set_term_wins(ctx, var, t, v, options);
    lemma_lookup_own(ctx.definitions@, t);
    assert(object_hint(&item) == (Hint { object: Ref::Value(&v), indexed: false }));
    assert(ctx.spec_get(term) == Some(ctx.definitions@[t].1));
    match compact_item(resolver, ctx, ctx, Some(term), item, options) {
        Ok(c) => {
            lemma_added_as_array(result, term, c);
            if other != term {
                lemma_added_other(result, term, c, true, other);
            }
        },
        Err(_) => {},
    }
}

} // verus!
