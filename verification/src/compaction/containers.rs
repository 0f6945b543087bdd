//! What the container of a term makes of the values of a property: the
//! array under a term with a `@set` container, and the map under a term
//! with a `@language` container.

use vstd::prelude::*;
use crate::compaction::iri::{alias, only, vocab_term};
use crate::compaction::keys::lemma_property_item_frame;
use crate::compaction::model::{
    chars,
    compact_collection,
    compact_item,
    compact_property,
    object_hint,
    property_item,
    property_items,
};
use crate::compaction::place::{
    as_array_for,
    indexed_object,
    language_key,
    map_object,
    wrapped,
};
use crate::compaction::value::property_container;
use crate::compaction::{
    added,
    lemma_added_as_array,
    lemma_added_other,
    lemma_added_present,
    value_json,
    Options,
};
use crate::context::{Context, Resolver};
use crate::json::{get, insert, lemma_insert_get, JsonView, ObjectView};
use crate::object::{Indexed, Object};
use crate::syntax::{ContainerType, Keyword, Term};

verus! {

/// The term under which a value of the property `var` is placed.
pub open spec fn chosen(
    ctx: Context,
    var: Term,
    item: Indexed<Object>,
    inside_reverse: bool,
    options: Options,
) -> Seq<char> {
    vocab_term(ctx, var, Some(object_hint(&item)), inside_reverse, options)
}

/// Whether one of the values from `i` on is placed under the term `t`.
pub open spec fn placed_under(
    ctx: Context,
    var: Term,
    items: Seq<Indexed<Object>>,
    inside_reverse: bool,
    options: Options,
    i: int,
    t: Seq<char>,
) -> bool
    decreases items.len() - i,
{
    if i < 0 || i >= items.len() {
        false
    } else {
        chosen(ctx, var, items[i], inside_reverse, options) == t || placed_under(
            ctx,
            var,
            items,
            inside_reverse,
            options,
            i + 1,
            t,
        )
    }
}

/// Whether `k` is the key in a language map of one of the value objects
/// from `i` on that are placed under the term `t`: its language, or `@none`
/// as the context writes it for a value without language.
pub open spec fn language_key_among(
    ctx: Context,
    var: Term,
    items: Seq<Indexed<Object>>,
    inside_reverse: bool,
    options: Options,
    i: int,
    t: Seq<char>,
    k: Seq<char>,
) -> bool
    decreases items.len() - i,
{
    if i < 0 || i >= items.len() {
        false
    } else {
        (chosen(ctx, var, items[i], inside_reverse, options) == t && (items[i].value matches Object::Value(
            v,
        ) && language_key(ctx, Some(v), options) == k)) || language_key_among(
            ctx,
            var,
            items,
            inside_reverse,
            options,
            i + 1,
            t,
            k,
        )
    }
}

/// Whether an object stands there.
pub open spec fn holds_object(v: Option<JsonView>) -> bool {
    v matches Some(JsonView::Object(_))
}

/// Whether every item is a value object, and none a JSON literal.
pub open spec fn plain_values(items: Seq<Indexed<Object>>) -> bool {
    forall|j: int|
        0 <= j < items.len() ==> ((#[trigger] items[j]).value matches Object::Value(v) && !(v is Json))
}

/// A value that is placed under a term whose container is `@set` stands
/// in an array.
pub proof fn lemma_placed_in_set(
    resolver: Resolver,
    ctx: Context,
    result: ObjectView,
    var: Term,
    item: Indexed<Object>,
    inside_reverse: bool,
    options: Options,
)
    requires
        property_container(
            ctx.spec_get(chosen(ctx, var, item, inside_reverse, options)),
        ) == only(ContainerType::SetOf),
    ensures
        property_item(resolver, ctx, result, var, item, inside_reverse, options) matches Ok(r)
            ==> get(r, chosen(ctx, var, item, inside_reverse, options)) matches Some(
            JsonView::Array(_),
        ),
{
    let t = chosen(ctx, var, item, inside_reverse, options);
    let index = chars(item.index);
    match item.value {
        Object::List(list) => {
            match compact_collection(resolver, ctx, ctx, Some(t), list@, options) {
                Ok(c) => {
                    let o = insert(Seq::empty(), alias(ctx, Keyword::List, options), wrapped(c));
                    lemma_added_as_array(
                        result,
                        t,
                        JsonView::Object(indexed_object(ctx, o, index, options)),
                    );
                },
                Err(_) => {},
            }
        },
        Object::Node(n) => {
            if n.spec_is_graph() {
                match compact_collection(resolver, ctx, ctx, Some(t), n.graph->0@, options) {
                    Ok(c) => {
                        let o = insert(Seq::empty(), alias(ctx, Keyword::Graph, options), c);
                        match n.id {
                            Some(id) => {
                                match crate::compaction::iri::compact_id(ctx, id@, options) {
                                    Ok(key) => {
                                        let o2 = insert(
                                            o,
                                            alias(ctx, Keyword::Id, options),
                                            JsonView::String(key),
                                        );
                                        lemma_added_as_array(
                                            result,
                                            t,
                                            JsonView::Object(
                                                indexed_object(ctx, o2, index, options),
                                            ),
                                        );
                                    },
                                    Err(_) => {},
                                }
                            },
                            None => {
                                lemma_added_as_array(
                                    result,
                                    t,
                                    JsonView::Object(indexed_object(ctx, o, index, options)),
                                );
                            },
                        }
                    },
                    Err(_) => {},
                }
            } else {
                match compact_item(resolver, ctx, ctx, Some(t), item, options) {
                    Ok(c) => {
                        lemma_added_as_array(result, t, c);
                    },
                    Err(_) => {},
                }
            }
        },
        Object::Value(v) => {
            match compact_item(resolver, ctx, ctx, Some(t), item, options) {
                Ok(c) => {
                    lemma_added_as_array(result, t, c);
                },
                Err(_) => {},
            }
        },
    }
}

/// A value that is placed under a term whose container is `@set` keeps
/// the array that stands there.
pub proof fn lemma_placed_keeps_set(
    resolver: Resolver,
    ctx: Context,
    result: ObjectView,
    var: Term,
    item: Indexed<Object>,
    inside_reverse: bool,
    options: Options,
    t: Seq<char>,
)
    requires
        property_container(ctx.spec_get(t)) == only(ContainerType::SetOf),
        get(result, t) matches Some(JsonView::Array(_)),
    ensures
        property_item(resolver, ctx, result, var, item, inside_reverse, options) matches Ok(r)
            ==> get(r, t) matches Some(JsonView::Array(_)),
{
    if chosen(ctx, var, item, inside_reverse, options) == t {
        lemma_placed_in_set(resolver, ctx, result, var, item, inside_reverse, options);
    } else {
        lemma_property_item_frame(
            resolver,
            ctx,
            result,
            var,
            item,
            inside_reverse,
            options,
            t,
        );
    }
}

/// The values of a property from `i` on leave an array under a term
/// whose container is `@set`, where an array stood there or one of them is
/// placed under the term.
pub proof fn lemma_set_container_items(
    resolver: Resolver,
    ctx: Context,
    result: ObjectView,
    var: Term,
    items: Seq<Indexed<Object>>,
    inside_reverse: bool,
    options: Options,
    i: int,
    t: Seq<char>,
)
    requires
        property_container(ctx.spec_get(t)) == only(ContainerType::SetOf),
        0 <= i,
        get(result, t) matches Some(JsonView::Array(_)) || placed_under(
            ctx,
            var,
            items,
            inside_reverse,
            options,
            i,
            t,
        ),
    ensures
        property_items(resolver, ctx, result, var, items, inside_reverse, options, i) matches Ok(r)
            ==> get(r, t) matches Some(JsonView::Array(_)),
    decreases items.len() - i,
{
    if i < items.len() {
        match property_item(resolver, ctx, result, var, items[i], inside_reverse, options) {
            Ok(r1) => {
                if chosen(ctx, var, items[i], inside_reverse, options) == t {
                    lemma_placed_in_set(
                        resolver,
                        ctx,
                        result,
                        var,
                        items[i],
                        inside_reverse,
                        options,
                    );
                } else if get(result, t) matches Some(JsonView::Array(_)) {
                    lemma_placed_keeps_set(
                        resolver,
                        ctx,
                        result,
                        var,
                        items[i],
                        inside_reverse,
                        options,
                        t,
                    );
                }
                lemma_set_container_items(
                    resolver,
                    ctx,
                    r1,
                    var,
                    items,
                    inside_reverse,
                    options,
                    i + 1,
                    t,
                );
            },
            Err(_) => {},
        }
    }
}

/// Container correctness for `@set`, for a whole property. Where the
/// container of a term is `@set`, and a value of the property is placed
/// under the term, the compacted property holds an array under the term,
/// be there one value or several. A property without values holds an empty
/// array under its term, whatever the container.
pub proof fn lemma_set_container_property(
    resolver: Resolver,
    ctx: Context,
    result: ObjectView,
    var: Term,
    items: Seq<Indexed<Object>>,
    inside_reverse: bool,
    options: Options,
    t: Seq<char>,
)
    requires
        property_container(ctx.spec_get(t)) == only(ContainerType::SetOf),
    ensures
        compact_property(resolver, ctx, result, var, items, inside_reverse, options) matches Ok(r)
            ==> (placed_under(ctx, var, items, inside_reverse, options, 0, t) ==> get(r, t)
            matches Some(JsonView::Array(_))),
        items.len() == 0 ==> (compact_property(
            resolver,
            ctx,
            result,
            var,
            items,
            inside_reverse,
            options,
        ) matches Ok(r) && get(r, vocab_term(ctx, var, None, inside_reverse, options))
            matches Some(JsonView::Array(_))),
{
    if items.len() == 0 {
        lemma_added_as_array(
            result,
            vocab_term(ctx, var, None, inside_reverse, options),
            JsonView::Array(Seq::empty()),
        );
    } else if placed_under(ctx, var, items, inside_reverse, options, 0, t) {
        lemma_set_container_items(
            resolver,
            ctx,
            result,
            var,
            items,
            inside_reverse,
            options,
            0,
            t,
        );
    }
}

/// The values of a property from `i` on, under a term whose container is
/// `@language`: the map under the term holds the keys it held and the
/// language keys of the values placed under the term, and no others.
pub proof fn lemma_language_map_items(
    resolver: Resolver,
    ctx: Context,
    result: ObjectView,
    var: Term,
    items: Seq<Indexed<Object>>,
    inside_reverse: bool,
    options: Options,
    i: int,
    t: Seq<char>,
    k: Seq<char>,
)
    requires
        property_container(ctx.spec_get(t)).language,
        !property_container(ctx.spec_get(t)).graph,
        plain_values(items),
        0 <= i,
    ensures
        property_items(resolver, ctx, result, var, items, inside_reverse, options, i) matches Ok(r)
            ==> {
            &&& get(map_object(r, t), k) is Some <==> get(map_object(result, t), k) is Some
                || language_key_among(ctx, var, items, inside_reverse, options, i, t, k)
            &&& placed_under(ctx, var, items, inside_reverse, options, i, t) ==> holds_object(
                get(r, t),
            )
            &&& holds_object(get(result, t)) ==> holds_object(get(r, t))
        },
    decreases items.len() - i,
{
    if i < items.len() {
        let item = items[i];
        let v = item.value->Value_0;
        match property_item(resolver, ctx, result, var, item, inside_reverse, options) {
            Ok(r1) => {
                if chosen(ctx, var, item, inside_reverse, options) == t {
                    let lk = language_key(ctx, Some(v), options);
                    let as_array = as_array_for(ctx, t, options);
                    let before = map_object(result, t);
                    let after = added(before, lk, value_json(v), as_array);
                    assert(r1 == insert(result, t, JsonView::Object(after)));
                    lemma_insert_get(result, t, JsonView::Object(after), t);
                    assert(map_object(r1, t) == after);
                    lemma_added_present(before, lk, value_json(v), as_array);
                    if k != lk {
                        lemma_added_other(before, lk, value_json(v), as_array, k);
                    }
                } else {
                    lemma_property_item_frame(
                        resolver,
                        ctx,
                        result,
                        var,
                        item,
                        inside_reverse,
                        options,
                        t,
                    );
                }
                lemma_language_map_items(
                    resolver,
                    ctx,
                    r1,
                    var,
                    items,
                    inside_reverse,
                    options,
                    i + 1,
                    t,
                    k,
                );
            },
            Err(_) => {},
        }
    }
}

/// Container correctness for `@language`, for a whole property. Let the
/// container of a term hold `@language` (and not `@graph`), and let the
/// values of the property be value objects, none a JSON literal. Where a
/// value is placed under the term and nothing stood there, the compacted
/// property holds an object under the term, and the keys of that object
/// are exactly the language keys of the values placed under the term: the
/// language of each value that has one, and `@none` (as the context writes
/// it) if and only if one of them has none.
pub proof fn lemma_language_map_property(
    resolver: Resolver,
    ctx: Context,
    result: ObjectView,
    var: Term,
    items: Seq<Indexed<Object>>,
    inside_reverse: bool,
    options: Options,
    t: Seq<char>,
    k: Seq<char>,
)
    requires
        property_container(ctx.spec_get(t)).language,
        !property_container(ctx.spec_get(t)).graph,
        plain_values(items),
        get(result, t) is None,
        placed_under(ctx, var, items, inside_reverse, options, 0, t),
    ensures
        compact_property(resolver, ctx, result, var, items, inside_reverse, options) matches Ok(r)
            ==> (get(r, t) matches Some(JsonView::Object(o)) && (get(o, k) is Some
            <==> language_key_among(ctx, var, items, inside_reverse, options, 0, t, k))),
{
    crate::json::lemma_index_of_from(Seq::<(Seq<char>, JsonView)>::empty(), k, 0);
    lemma_language_map_items(
        resolver,
        ctx,
        result,
        var,
        items,
        inside_reverse,
        options,
        0,
        t,
        k,
    );
}

} // verus!
