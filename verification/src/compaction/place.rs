//! Where a compacted value goes in the result: under its term as it is,
//! or inside the map or the list that the container of the term asks for.

use vstd::prelude::*;
use crate::compaction::iri::{alias, alias_for, compact_id, compact_identifier, term_for, vocab_term};
use crate::compaction::value::{container_of, property_container};
use crate::compaction::{add_value, added, value_json, value_value, Options};
use crate::context::definition::TermDefinition;
use crate::context::inverse::Inversible;
use crate::context::Context;
use crate::error::Error;
use crate::json;
use crate::json::{get, insert, remove, values_view, JsonView, Object, ObjectView};
use crate::object::node::Node;
use crate::object::value::Value;
use crate::syntax::{Keyword, Term};
use crate::text::{opt_chars, owned, str_eq};

verus! {

/// Whether the values of a term are kept as an array even where there is
/// one: its container holds `@set`, it is `@graph` or `@list`, or arrays
/// are not to be folded at all.
pub open spec fn as_array_for(ctx: Context, term: Seq<char>, options: Options) -> bool {
    property_container(ctx.spec_get(term)).set || term == "@graph"@ || term == "@list"@
        || !options.compact_arrays
}

/// The value as an array: itself where it is one, else the array of it.
pub open spec fn wrapped(v: JsonView) -> JsonView {
    if v is Array {
        v
    } else {
        JsonView::Array(seq![v])
    }
}

/// The map under `term` in the result: empty where nothing, or no object,
/// stands there.
pub open spec fn map_object(result: ObjectView, term: Seq<char>) -> ObjectView {
    match get(result, term) {
        Some(JsonView::Object(o)) => o,
        _ => Seq::empty(),
    }
}

/// The result with `value` added under `map_key` in the map under `term`.
pub open spec fn added_to_map(
    result: ObjectView,
    term: Seq<char>,
    map_key: Seq<char>,
    value: JsonView,
    as_array: bool,
) -> ObjectView {
    insert(result, term, JsonView::Object(added(map_object(result, term), map_key, value, as_array)))
}

/// An object with its `@index` entry, where it has an index.
pub open spec fn indexed_object(ctx: Context, o: ObjectView, index: Option<Seq<char>>, options: Options) -> ObjectView {
    match index {
        Some(i) => insert(o, alias(ctx, Keyword::Index, options), JsonView::String(i)),
        None => o,
    }
}

/// The result with the compacted items of a list object placed under
/// `term`: as a bare array where the container of the term is `@list`,
/// else inside an object with a `@list` entry and the index of the list.
pub open spec fn place_list(
    result: ObjectView,
    ctx: Context,
    term: Seq<char>,
    compacted: JsonView,
    index: Option<Seq<char>>,
    options: Options,
) -> ObjectView {
    let items = wrapped(compacted);
    if !property_container(ctx.spec_get(term)).list {
        let o = insert(Seq::empty(), alias(ctx, Keyword::List, options), items);
        added(
            result,
            term,
            JsonView::Object(indexed_object(ctx, o, index, options)),
            as_array_for(ctx, term, options),
        )
    } else {
        insert(result, term, items)
    }
}

/// The result with the compacted content of a graph object placed under
/// `term`: in a map by the identifier of the graph, in a map by its index,
/// as it is for a simple graph under a `@graph` container, or inside an
/// object with a `@graph` entry.
pub open spec fn place_graph(
    result: ObjectView,
    ctx: Context,
    term: Seq<char>,
    compacted: JsonView,
    node: Node,
    index: Option<Seq<char>>,
    options: Options,
) -> Result<ObjectView, Error> {
    let container = property_container(ctx.spec_get(term));
    let as_array = as_array_for(ctx, term, options);
    let id = match node.id {
        Some(id) => match compact_id(ctx, id@, options) {
            Ok(k) => Ok(Some(k)),
            Err(e) => Err(e),
        },
        None => Ok(None),
    };
    if container.graph && container.id {
        match id {
            Ok(Some(k)) => Ok(added_to_map(result, term, k, compacted, as_array)),
            Ok(None) => Ok(
                added_to_map(
                    result,
                    term,
                    alias(ctx, Keyword::NoValue, options),
                    compacted,
                    as_array,
                ),
            ),
            Err(e) => Err(e),
        }
    } else if container.graph && container.index && node.spec_is_simple_graph() {
        let k = match index {
            Some(i) => i,
            None => alias(ctx, Keyword::NoValue, options),
        };
        Ok(added_to_map(result, term, k, compacted, as_array))
    } else if container.graph && node.spec_is_simple_graph() {
        let several = compacted matches JsonView::Array(a) && a.len() > 1;
        let c = if several {
            JsonView::Object(
                insert(Seq::empty(), alias(ctx, Keyword::Included, options), compacted),
            )
        } else {
            compacted
        };
        Ok(added(result, term, c, as_array))
    } else {
        let o = insert(Seq::empty(), alias(ctx, Keyword::Graph, options), compacted);
        match id {
            Ok(k) => {
                let o = match k {
                    Some(k) => insert(o, alias(ctx, Keyword::Id, options), JsonView::String(k)),
                    None => o,
                };
                Ok(
                    added(
                        result,
                        term,
                        JsonView::Object(indexed_object(ctx, o, index, options)),
                        as_array,
                    ),
                )
            },
            Err(e) => Err(e),
        }
    }
}

/// The string under `key` in a compacted object, and the object without
/// that entry; nothing, and the value as it is, where there is no such
/// string.
pub open spec fn keyed(compacted: JsonView, key: Seq<char>) -> (Option<Seq<char>>, JsonView) {
    match compacted {
        JsonView::Object(o) => match get(o, key) {
            Some(JsonView::String(s)) => (Some(s), JsonView::Object(remove(o, key))),
            _ => (None, compacted),
        },
        _ => (None, compacted),
    }
}

/// The first string under `key` in a compacted object, and the object
/// with the others left under the key; nothing, and the value as it is,
/// where the entry does not start with a string.
pub open spec fn first_value(compacted: JsonView, key: Seq<char>) -> (Option<Seq<char>>, JsonView) {
    match compacted {
        JsonView::Object(o) => match get(o, key) {
            Some(JsonView::String(s)) => (Some(s), JsonView::Object(remove(o, key))),
            Some(JsonView::Array(a)) => if a.len() > 0 && a[0] is String {
                (
                    Some(a[0]->String_0),
                    JsonView::Object(
                        added(remove(o, key), key, JsonView::Array(a.drop_first()), false),
                    ),
                )
            } else {
                (None, compacted)
            },
            _ => (None, compacted),
        },
        _ => (None, compacted),
    }
}

/// A compacted value without its entry under `key`.
pub open spec fn without(compacted: JsonView, key: Seq<char>) -> JsonView {
    match compacted {
        JsonView::Object(o) => JsonView::Object(remove(o, key)),
        _ => compacted,
    }
}

/// The index mapping of a term definition.
pub open spec fn index_mapping(def: Option<TermDefinition>) -> Option<String> {
    match def {
        Some(d) => d.index,
        None => None,
    }
}

/// The key under which a value goes into the map of its term, if it has
/// one, and the value that goes there. A language map holds the string of
/// a value object under its language. An index map holds the value under
/// its index, or under the first value of the property that the index
/// mapping names. An id map holds a node without its `@id` under its
/// identifier, a type map holds it under the first of its types.
pub open spec fn map_entry(
    ctx: Context,
    def: Option<TermDefinition>,
    compacted: JsonView,
    value: Option<Value>,
    index: Option<Seq<char>>,
    options: Options,
) -> (Option<Seq<char>>, JsonView) {
    let container = property_container(def);
    if container.language {
        match value {
            Some(v) => (
                match v.spec_language() {
                    Some(l) => Some(l@),
                    None => None,
                },
                value_json(v),
            ),
            None => (None, compacted),
        }
    } else if container.index {
        match index_mapping(def) {
            Some(prop) => first_value(
                compacted,
                vocab_term(ctx, Term::Ref(prop), None, false, options),
            ),
            None => (index, without(compacted, alias(ctx, Keyword::Index, options))),
        }
    } else if container.id {
        keyed(compacted, alias(ctx, Keyword::Id, options))
    } else {
        first_value(compacted, alias(ctx, Keyword::Type, options))
    }
}

/// Whether the values of a term go into a map: its container holds
/// `@language`, `@index`, `@id` or `@type`, and not `@graph`.
pub open spec fn is_map_container(def: Option<TermDefinition>) -> bool {
    let c = property_container(def);
    !c.graph && (c.language || c.index || c.id || c.typ)
}

/// The result with a compacted value or node placed under `term`: in the
/// map that the container of the term asks for, under `@none` where the
/// value has no key for it; else added to the values of the term.
pub open spec fn place_other(
    result: ObjectView,
    ctx: Context,
    term: Seq<char>,
    compacted: JsonView,
    value: Option<Value>,
    index: Option<Seq<char>>,
    options: Options,
) -> ObjectView {
    let def = ctx.spec_get(term);
    let as_array = as_array_for(ctx, term, options);
    if is_map_container(def) {
        let (k, v) = map_entry(ctx, def, compacted, value, index, options);
        let k = match k {
            Some(k) => k,
            None => alias(ctx, Keyword::NoValue, options),
        };
        added_to_map(result, term, k, v, as_array)
    } else {
        added(result, term, compacted, as_array)
    }
}

/// Whether the values of a term are kept as an array even where there is
/// one.
pub fn as_array_of(active: &Inversible, term: &str, options: Options) -> (r: bool)
    ensures
        r == as_array_for(active@, term@, options),
{
    container_of(active.context().get(term)).set || str_eq(term, "@graph") || str_eq(term, "@list")
        || !options.compact_arrays
}

/// The value as an array.
pub fn wrap(v: json::Value) -> (r: json::Value)
    ensures
        r@ == wrapped(v@),
{
    if v.is_array() {
        v
    } else {
        json::Value::singleton(v)
    }
}

/// Adds `value` under `map_key` in the map under `term`.
pub fn add_to_map(result: &mut Object, term: &str, map_key: &str, value: json::Value, as_array: bool)
    ensures
        final(result)@ == added_to_map(old(result)@, term@, map_key@, value@, as_array),
{
    match result.index_of(term) {
        Some(i) => {
            let before = result.replace_at(i, json::Value::Null);
            let mut map = match before {
                json::Value::Object(o) => o,
                _ => Object::new(),
            };
            add_value(&mut map, map_key, value, as_array);
            let _ = result.replace_at(i, json::Value::Object(map));
            assert(result@ =~= added_to_map(old(result)@, term@, map_key@, value@, as_array));
        },
        None => {
            let mut map = Object::new();
            add_value(&mut map, map_key, value, as_array);
            result.insert(term.to_owned(), json::Value::Object(map));
        },
    }
}

fn with_index_entry(active: &Inversible, o: Object, index: Option<&str>, options: Options) -> (r: Object)
    ensures
        r@ == indexed_object(active@, o@, opt_chars(index), options),
{
    let mut o = o;
    match index {
        Some(i) => {
            o.insert(alias_for(active, Keyword::Index, options), json::Value::string(i));
        },
        None => {},
    }
    o
}

/// Places the compacted items of a list object under `term`.
pub fn place_list_item(
    result: &mut Object,
    active: &Inversible,
    term: &str,
    compacted: json::Value,
    index: Option<&str>,
    options: Options,
)
    ensures
        final(result)@ == place_list(
            old(result)@,
            active@,
            term@,
            compacted@,
            opt_chars(index),
            options,
        ),
{
    let items = wrap(compacted);
    if !container_of(active.context().get(term)).list {
        let mut o = Object::new();
        o.insert(alias_for(active, Keyword::List, options), items);
        let o = with_index_entry(active, o, index, options);
        add_value(result, term, json::Value::Object(o), as_array_of(active, term, options));
    } else {
        result.insert(term.to_owned(), items);
    }
}

/// Places the compacted content of a graph object under `term`.
pub fn place_graph_item(
    result: &mut Object,
    active: &Inversible,
    term: &str,
    compacted: json::Value,
    node: &Node,
    index: Option<&str>,
    options: Options,
) -> (r: Result<(), Error>)
    ensures
        match r {
            Ok(()) => place_graph(
                old(result)@,
                active@,
                term@,
                compacted@,
                *node,
                opt_chars(index),
                options,
            ) == Ok::<ObjectView, Error>(final(result)@),
            Err(e) => place_graph(
                old(result)@,
                active@,
                term@,
                compacted@,
                *node,
                opt_chars(index),
                options,
            ) == Err::<ObjectView, Error>(e),
        },
{
    let container = container_of(active.context().get(term));
    let as_array = as_array_of(active, term, options);
    let id: Option<String> = match &node.id {
        Some(id) => match compact_identifier(active.context(), id.as_str(), options) {
            Ok(k) => Some(k),
            Err(e) => {
                return Err(e);
            },
        },
        None => None,
    };
    if container.graph && container.id {
        let k = match id {
            Some(k) => k,
            None => alias_for(active, Keyword::NoValue, options),
        };
        add_to_map(result, term, k.as_str(), compacted, as_array);
    } else if container.graph && container.index && node.is_simple_graph() {
        let k = match index {
            Some(i) => i.to_owned(),
            None => alias_for(active, Keyword::NoValue, options),
        };
        add_to_map(result, term, k.as_str(), compacted, as_array);
    } else if container.graph && node.is_simple_graph() {
        let several = match &compacted {
            json::Value::Array(a) => {
                assert(values_view(a@).len() == a@.len());
                a.len() > 1
            },
            _ => false,
        };
        let c = if several {
            let mut o = Object::new();
            o.insert(alias_for(active, Keyword::Included, options), compacted);
            json::Value::Object(o)
        } else {
            compacted
        };
        add_value(result, term, c, as_array);
    } else {
        let mut o = Object::new();
        o.insert(alias_for(active, Keyword::Graph, options), compacted);
        match id {
            Some(k) => {
                o.insert(alias_for(active, Keyword::Id, options), json::Value::String(k));
            },
            None => {},
        }
        let o = with_index_entry(active, o, index, options);
        add_value(result, term, json::Value::Object(o), as_array);
    }
    Ok(())
}

fn take_keyed(compacted: json::Value, key: &str) -> (r: (Option<String>, json::Value))
    ensures
        r.1@ == keyed(compacted@, key@).1,
        match r.0 {
            Some(s) => keyed(compacted@, key@).0 == Some(s@),
            None => keyed(compacted@, key@).0 is None,
        },
{
    match compacted {
        json::Value::Object(mut o) => {
            let is_string = match o.get(key) {
                Some(v) => v.is_string(),
                None => false,
            };
            if is_string {
                match o.remove(key) {
                    Some(json::Value::String(s)) => (Some(s), json::Value::Object(o)),
                    _ => (None, json::Value::Object(o)),
                }
            } else {
                (None, json::Value::Object(o))
            }
        },
        other => (None, other),
    }
}

fn take_first(compacted: json::Value, key: &str) -> (r: (Option<String>, json::Value))
    ensures
        r.1@ == first_value(compacted@, key@).1,
        match r.0 {
            Some(s) => first_value(compacted@, key@).0 == Some(s@),
            None => first_value(compacted@, key@).0 is None,
        },
{
    match compacted {
        json::Value::Object(mut o) => {
            let ghost found = get(o@, key@);
            let kind: u8 = match o.get(key) {
                Some(json::Value::String(_)) => 1,
                Some(json::Value::Array(a)) => if a.len() > 0 && a[0].is_string() {
                    assert(values_view(a@)[0] == a@[0]@);
                    2
                } else {
                    assert(a.len() > 0 ==> values_view(a@)[0] == a@[0]@);
                    0
                },
                _ => 0,
            };
            assert(kind == 2 ==> (found matches Some(JsonView::Array(a)) && a.len() > 0
                && a[0] is String));
            assert(kind == 0 ==> !(found matches Some(JsonView::String(_))) && !(found matches Some(
                JsonView::Array(a),
            ) && a.len() > 0 && a[0] is String));
            if kind == 1 {
                match o.remove(key) {
                    Some(json::Value::String(s)) => (Some(s), json::Value::Object(o)),
                    _ => (None, json::Value::Object(o)),
                }
            } else if kind == 2 {
                match o.remove(key) {
                    Some(json::Value::Array(mut items)) => {
                        let ghost a = values_view(items@);
                        assert(a.len() == items@.len());
                        assert(a[0] == items@[0]@);
                        let first = items.remove(0);
                        assert(values_view(items@) =~= a.drop_first());
                        assert(first@ == a[0]);
                        match first {
                            json::Value::String(s) => {
                                add_value(&mut o, key, json::Value::Array(items), false);
                                (Some(s), json::Value::Object(o))
                            },
                            _ => (None, json::Value::Object(o)),
                        }
                    },
                    _ => (None, json::Value::Object(o)),
                }
            } else {
                (None, json::Value::Object(o))
            }
        },
        other => (None, other),
    }
}

fn drop_entry(compacted: json::Value, key: &str) -> (r: json::Value)
    ensures
        r@ == without(compacted@, key@),
{
    match compacted {
        json::Value::Object(mut o) => {
            let _ = o.remove(key);
            json::Value::Object(o)
        },
        other => other,
    }
}

fn make_map_entry(
    active: &Inversible,
    def: Option<&TermDefinition>,
    compacted: json::Value,
    value: Option<&Value>,
    index: Option<&str>,
    options: Options,
) -> (r: (Option<String>, json::Value))
    ensures
        r.1@ == map_entry(active@, owned(def), compacted@, owned(value), opt_chars(index), options).1,
        match r.0 {
            Some(s) => map_entry(
                active@,
                owned(def),
                compacted@,
                owned(value),
                opt_chars(index),
                options,
            ).0 == Some(s@),
            None => map_entry(
                active@,
                owned(def),
                compacted@,
                owned(value),
                opt_chars(index),
                options,
            ).0 is None,
        },
{
    let container = container_of(def);
    if container.language {
        match value {
            Some(v) => {
                let k = match v.language() {
                    Some(l) => Some(l.as_str().to_owned()),
                    None => None,
                };
                (k, value_value(v))
            },
            None => (None, compacted),
        }
    } else if container.index {
        let custom: Option<&String> = match def {
            Some(d) => d.index.as_ref(),
            None => None,
        };
        match custom {
            Some(prop) => {
                let key = term_for(active, &Term::Ref(prop.clone()), None, false, options);
                take_first(compacted, key.as_str())
            },
            None => {
                let key = alias_for(active, Keyword::Index, options);
                let k = match index {
                    Some(i) => Some(i.to_owned()),
                    None => None,
                };
                (k, drop_entry(compacted, key.as_str()))
            },
        }
    } else if container.id {
        let key = alias_for(active, Keyword::Id, options);
        take_keyed(compacted, key.as_str())
    } else {
        let key = alias_for(active, Keyword::Type, options);
        take_first(compacted, key.as_str())
    }
}

/// Places a compacted value or node under `term`.
pub fn place_other_item(
    result: &mut Object,
    active: &Inversible,
    term: &str,
    compacted: json::Value,
    value: Option<&Value>,
    index: Option<&str>,
    options: Options,
)
    ensures
        final(result)@ == place_other(
            old(result)@,
            active@,
            term@,
            compacted@,
            owned(value),
            opt_chars(index),
            options,
        ),
{
    let def = active.context().get(term);
    let as_array = as_array_of(active, term, options);
    let c = container_of(def);
    if !c.graph && (c.language || c.index || c.id || c.typ) {
        let (k, v) = make_map_entry(active, def, compacted, value, index, options);
        let k = match k {
            Some(k) => k,
            None => alias_for(active, Keyword::NoValue, options),
        };
        add_to_map(result, term, k.as_str(), v, as_array);
    } else {
        add_value(result, term, compacted, as_array);
    }
}


/// Container correctness for `@set`. Where the container of a term holds
/// `@set` and asks for no map, a value placed under the term stands in an
/// array.
pub proof fn lemma_set_container_gives_array(
    result: ObjectView,
    ctx: Context,
    term: Seq<char>,
    compacted: JsonView,
    value: Option<Value>,
    index: Option<Seq<char>>,
    options: Options,
)
    requires
        property_container(ctx.spec_get(term)).set,
        !is_map_container(ctx.spec_get(term)),
    ensures
        get(place_other(result, ctx, term, compacted, value, index, options), term) matches Some(
            JsonView::Array(_),
        ),
{
    crate::compaction::lemma_added_as_array(result, term, compacted);
}

/// Container correctness for `@set` and `@list`, for a list object.
/// Where the container of a term holds `@set` or `@list`, a list placed
/// under the term stands in an array.
pub proof fn lemma_list_under_container_gives_array(
    result: ObjectView,
    ctx: Context,
    term: Seq<char>,
    compacted: JsonView,
    index: Option<Seq<char>>,
    options: Options,
)
    requires
        property_container(ctx.spec_get(term)).set || property_container(ctx.spec_get(term)).list,
    ensures
        get(place_list(result, ctx, term, compacted, index, options), term) matches Some(
            JsonView::Array(_),
        ),
{
    if !property_container(ctx.spec_get(term)).list {
        let o = insert(Seq::empty(), alias(ctx, Keyword::List, options), wrapped(compacted));
        crate::compaction::lemma_added_as_array(
            result,
            term,
            JsonView::Object(indexed_object(ctx, o, index, options)),
        );
    } else {
        json::lemma_insert_get(result, term, wrapped(compacted), term);
    }
}

/// Container correctness for `@language`. Where the container of a term
/// holds `@language` (and not `@graph`), a value placed under the term goes
/// into an object under the term. The keys of that object are those it had
/// before and one more: the language of the value, or `@none` (as the
/// context writes it) for a value without language.
pub proof fn lemma_language_container_gives_map(
    result: ObjectView,
    ctx: Context,
    term: Seq<char>,
    compacted: JsonView,
    value: Option<Value>,
    index: Option<Seq<char>>,
    options: Options,
    other: Seq<char>,
)
    requires
        property_container(ctx.spec_get(term)).language,
        !property_container(ctx.spec_get(term)).graph,
    ensures
        get(place_other(result, ctx, term, compacted, value, index, options), term) matches Some(
            JsonView::Object(o),
        ) && (other != language_key(ctx, value, options) ==> get(o, other) == get(
            map_object(result, term),
            other,
        )),
{
    let def = ctx.spec_get(term);
    let (k, v) = map_entry(ctx, def, compacted, value, index, options);
    let key = language_key(ctx, value, options);
    let after = added(map_object(result, term), key, v, as_array_for(ctx, term, options));
    json::lemma_insert_get(result, term, JsonView::Object(after), term);
    if other != key {
        crate::compaction::lemma_added_other(
            map_object(result, term),
            key,
            v,
            as_array_for(ctx, term, options),
            other,
        );
    }
}

/// The key of a value in a language map: its language, or `@none` as the
/// context writes it.
pub open spec fn language_key(ctx: Context, value: Option<Value>, options: Options) -> Seq<char> {
    match value {
        Some(v) => match v.spec_language() {
            Some(l) => l@,
            None => alias(ctx, Keyword::NoValue, options),
        },
        None => alias(ctx, Keyword::NoValue, options),
    }
}

} // verus!
