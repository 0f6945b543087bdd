//! The keys of compacted objects: each stands for a keyword or for a
//! property of the node it was compacted from.

use vstd::prelude::*;
use crate::compaction::iri::{
    alias,
    lemma_vocab_term_origin,
    term_or_iri,
    vocab_term,
    Hint,
};
use crate::compaction::model::{
    chars,
    compact_collection,
    compact_item,
    compact_node,
    compact_node_property,
    compact_property,
    node_entries,
    node_hint,
    node_property_item,
    node_property_items,
    object_hint,
    property_item,
    property_items,
    reverse_compacted,
    reverse_split,
    with_id,
    with_node_index,
    with_properties,
    with_reverse,
    with_types,
};
use crate::compaction::order::{keys_of, walk_order};
use crate::compaction::place::{
    added_to_map,
    as_array_for,
    is_map_container,
    map_entry,
    place_graph,
    place_list,
    place_other,
};
use crate::compaction::value::{
    index_removed,
    property_container,
    property_definition,
    property_type,
    value_in_context,
};
use crate::compaction::{added, lemma_added_other, Options};
use crate::context::inverse::maps_to;
use crate::context::{Context, Resolver};
use crate::error::Error;
use crate::json::{get, insert, lemma_index_of_from, lemma_insert_get, JsonView, ObjectView};
use crate::object::node::Node;
use crate::object::value::Value;
use crate::object::{Indexed, Object};
use crate::syntax::{Keyword, Term};

verus! {

/// Whether the key `k` stands for `var` under the context: it is a term
/// that the context defines as `var`, or it is what `var` is written as
/// without a term (a keyword itself; for an IRI the suffix behind the
/// vocabulary mapping, its compact IRI, or the IRI itself).
pub open spec fn stands_for(ctx: Context, k: Seq<char>, var: Term) -> bool {
    maps_to(ctx, k, var@) || k == term_or_iri(ctx, var, None, true) || k == term_or_iri(
        ctx,
        var,
        None,
        false,
    )
}

/// Whether the key `k` stands for one of the keys of `entries`.
pub open spec fn stands_for_entry<V>(ctx: Context, k: Seq<char>, entries: Seq<(String, V)>) -> bool {
    exists|j: int|
        0 <= j < entries.len() && stands_for(ctx, k, Term::Ref((#[trigger] entries[j]).0))
}

/// Whether the key `k` may stand in the compact form of the node: it
/// stands for one of the keywords `@id`, `@type`, `@reverse`, `@index`,
/// `@graph` and `@included`, for a property of the node, or for one of its
/// reverse properties.
pub open spec fn node_key(ctx: Context, node: Node, k: Seq<char>) -> bool {
    ||| stands_for(ctx, k, Term::Keyword(Keyword::Id))
    ||| stands_for(ctx, k, Term::Keyword(Keyword::Type))
    ||| stands_for(ctx, k, Term::Keyword(Keyword::Reverse))
    ||| stands_for(ctx, k, Term::Keyword(Keyword::Index))
    ||| stands_for(ctx, k, Term::Keyword(Keyword::Graph))
    ||| stands_for(ctx, k, Term::Keyword(Keyword::Included))
    ||| stands_for_entry(ctx, k, node.properties@)
    ||| stands_for_entry(ctx, k, node.reverse_properties@)
}

/// Whether the key `k` may stand in a full value object: it stands for
/// one of the keywords `@value`, `@type`, `@language`, `@direction` and
/// `@index`.
pub open spec fn value_object_key(ctx: Context, k: Seq<char>) -> bool {
    ||| stands_for(ctx, k, Term::Keyword(Keyword::Value))
    ||| stands_for(ctx, k, Term::Keyword(Keyword::Type))
    ||| stands_for(ctx, k, Term::Keyword(Keyword::Language))
    ||| stands_for(ctx, k, Term::Keyword(Keyword::Direction))
    ||| stands_for(ctx, k, Term::Keyword(Keyword::Index))
}

/// The term chosen for `var` stands for `var`.
pub proof fn lemma_vocab_term_stands(
    ctx: Context,
    var: Term,
    hint: Option<Hint>,
    reverse: bool,
    options: Options,
)
    requires
        ctx.wf(),
    ensures
        stands_for(ctx, vocab_term(ctx, var, hint, reverse, options), var),
{
    lemma_vocab_term_origin(ctx, var, hint, reverse, options);
}

/// A key of an object after `insert` is the key set or a key from before.
pub proof fn lemma_insert_keys(m: ObjectView, key: Seq<char>, v: JsonView, k: Seq<char>)
    ensures
        get(insert(m, key, v), k) is Some ==> k == key || get(m, k) is Some,
{
    lemma_insert_get(m, key, v, k);
}

/// A key of an object after a value was added is the key added to or a
/// key from before.
pub proof fn lemma_added_keys(m: ObjectView, key: Seq<char>, v: JsonView, as_array: bool, k: Seq<char>)
    ensures
        get(added(m, key, v, as_array), k) is Some ==> k == key || get(m, k) is Some,
{
    if k != key {
        lemma_added_other(m, key, v, as_array, k);
    }
}

/// Every entry of an object is found under its key.
pub proof fn lemma_entry_is_key(m: ObjectView, i: int)
    requires
        0 <= i < m.len(),
    ensures
        get(m, m[i].0) is Some,
{
    lemma_index_of_from(m, m[i].0, 0);
}

/// Placing a list leaves every key but the term as it was.
pub proof fn lemma_place_list_keys(
    result: ObjectView,
    ctx: Context,
    term: Seq<char>,
    compacted: JsonView,
    index: Option<Seq<char>>,
    options: Options,
    k: Seq<char>,
)
    ensures
        k != term ==> get(place_list(result, ctx, term, compacted, index, options), k) == get(
            result,
            k,
        ),
{
    let r = place_list(result, ctx, term, compacted, index, options);
    if k != term {
        if !property_container(ctx.spec_get(term)).list {
            let o = insert(
                Seq::empty(),
                alias(ctx, Keyword::List, options),
                crate::compaction::place::wrapped(compacted),
            );
            lemma_added_other(
                result,
                term,
                JsonView::Object(crate::compaction::place::indexed_object(ctx, o, index, options)),
                as_array_for(ctx, term, options),
                k,
            );
        } else {
            lemma_insert_get(result, term, crate::compaction::place::wrapped(compacted), k);
        }
    }
}

/// Adding to the map under a term leaves every other key as it was.
pub proof fn lemma_added_to_map_keys(
    result: ObjectView,
    term: Seq<char>,
    map_key: Seq<char>,
    value: JsonView,
    as_array: bool,
    k: Seq<char>,
)
    ensures
        k != term ==> get(added_to_map(result, term, map_key, value, as_array), k) == get(
            result,
            k,
        ),
{
    lemma_insert_get(
        result,
        term,
        JsonView::Object(
            added(crate::compaction::place::map_object(result, term), map_key, value, as_array),
        ),
        k,
    );
}

/// Placing a graph leaves every key but the term as it was.
pub proof fn lemma_place_graph_keys(
    result: ObjectView,
    ctx: Context,
    term: Seq<char>,
    compacted: JsonView,
    node: Node,
    index: Option<Seq<char>>,
    options: Options,
    k: Seq<char>,
)
    ensures
        place_graph(result, ctx, term, compacted, node, index, options) matches Ok(r) ==> (k
            != term ==> get(r, k) == get(result, k)),
{
    match place_graph(result, ctx, term, compacted, node, index, options) {
        Ok(r) => {
            if k != term {
                let container = property_container(ctx.spec_get(term));
                let as_array = as_array_for(ctx, term, options);
                if container.graph && container.id {
                    match node.id {
                        Some(id) => {
                            let key = crate::compaction::iri::compact_id(ctx, id@, options)->Ok_0;
                            lemma_added_to_map_keys(result, term, key, compacted, as_array, k);
                        },
                        None => {
                            lemma_added_to_map_keys(
                                result,
                                term,
                                alias(ctx, Keyword::NoValue, options),
                                compacted,
                                as_array,
                                k,
                            );
                        },
                    }
                } else if container.graph && container.index && node.spec_is_simple_graph() {
                    let key = match index {
                        Some(i) => i,
                        None => alias(ctx, Keyword::NoValue, options),
                    };
                    lemma_added_to_map_keys(result, term, key, compacted, as_array, k);
                } else if container.graph && node.spec_is_simple_graph() {
                    let several = compacted matches JsonView::Array(a) && a.len() > 1;
                    let c = if several {
                        JsonView::Object(
                            insert(
                                Seq::empty(),
                                alias(ctx, Keyword::Included, options),
                                compacted,
                            ),
                        )
                    } else {
                        compacted
                    };
                    lemma_added_other(result, term, c, as_array, k);
                } else {
                    let o = insert(Seq::empty(), alias(ctx, Keyword::Graph, options), compacted);
                    let o = match node.id {
                        Some(id) => insert(
                            o,
                            alias(ctx, Keyword::Id, options),
                            JsonView::String(
                                crate::compaction::iri::compact_id(ctx, id@, options)->Ok_0,
                            ),
                        ),
                        None => o,
                    };
                    lemma_added_other(
                        result,
                        term,
                        JsonView::Object(
                            crate::compaction::place::indexed_object(ctx, o, index, options),
                        ),
                        as_array,
                        k,
                    );
                }
            }
        },
        Err(_) => {},
    }
}

/// Placing a value or a node leaves every key but the term as it was.
pub proof fn lemma_place_other_keys(
    result: ObjectView,
    ctx: Context,
    term: Seq<char>,
    compacted: JsonView,
    value: Option<Value>,
    index: Option<Seq<char>>,
    options: Options,
    k: Seq<char>,
)
    ensures
        k != term ==> get(place_other(result, ctx, term, compacted, value, index, options), k)
            == get(result, k),
{
    let def = ctx.spec_get(term);
    let as_array = as_array_for(ctx, term, options);
    if k != term {
        if is_map_container(def) {
            let (mk, v) = map_entry(ctx, def, compacted, value, index, options);
            let mk = match mk {
                Some(x) => x,
                None => alias(ctx, Keyword::NoValue, options),
            };
            lemma_added_to_map_keys(result, term, mk, v, as_array, k);
        } else {
            lemma_added_other(result, term, compacted, as_array, k);
        }
    }
}

/// One value of a property leaves every key but the term chosen for it
/// as it was.
pub proof fn lemma_property_item_frame(
    resolver: Resolver,
    active: Context,
    result: ObjectView,
    property: Term,
    item: Indexed<Object>,
    inside_reverse: bool,
    options: Options,
    k: Seq<char>,
)
    ensures
        property_item(resolver, active, result, property, item, inside_reverse, options) matches Ok(
            r,
        ) ==> (k != vocab_term(
            active,
            property,
            Some(object_hint(&item)),
            inside_reverse,
            options,
        ) ==> get(r, k) == get(result, k)),
{
    let term = vocab_term(active, property, Some(object_hint(&item)), inside_reverse, options);
    let index = chars(item.index);
    match item.value {
        Object::List(list) => {
            match compact_collection(resolver, active, active, Some(term), list@, options) {
                Ok(c) => {
                    lemma_place_list_keys(result, active, term, c, index, options, k);
                },
                Err(_) => {},
            }
        },
        Object::Node(n) => {
            if n.spec_is_graph() {
                match compact_collection(resolver, active, active, Some(term), n.graph->0@, options) {
                    Ok(c) => {
                        lemma_place_graph_keys(result, active, term, c, n, index, options, k);
                    },
                    Err(_) => {},
                }
            } else {
                match compact_item(resolver, active, active, Some(term), item, options) {
                    Ok(c) => {
                        lemma_place_other_keys(result, active, term, c, None, index, options, k);
                    },
                    Err(_) => {},
                }
            }
        },
        Object::Value(v) => {
            match compact_item(resolver, active, active, Some(term), item, options) {
                Ok(c) => {
                    lemma_place_other_keys(result, active, term, c, Some(v), index, options, k);
                },
                Err(_) => {},
            }
        },
    }
}

/// One value of a property adds at most a key that stands for the
/// property.
pub proof fn lemma_property_item_keys(
    resolver: Resolver,
    active: Context,
    result: ObjectView,
    property: Term,
    item: Indexed<Object>,
    inside_reverse: bool,
    options: Options,
    k: Seq<char>,
)
    requires
        active.wf(),
    ensures
        property_item(resolver, active, result, property, item, inside_reverse, options) matches Ok(
            r,
        ) ==> (get(r, k) is Some ==> get(result, k) is Some || stands_for(active, k, property)),
{
    lemma_vocab_term_stands(active, property, Some(object_hint(&item)), inside_reverse, options);
    lemma_property_item_frame(
        resolver,
        active,
        result,
        property,
        item,
        inside_reverse,
        options,
        k,
    );
}

/// The values of a property from `i` on add at most keys that stand for
/// the property.
pub proof fn lemma_property_items_keys(
    resolver: Resolver,
    active: Context,
    result: ObjectView,
    property: Term,
    items: Seq<Indexed<Object>>,
    inside_reverse: bool,
    options: Options,
    i: int,
    k: Seq<char>,
)
    requires
        active.wf(),
        0 <= i,
    ensures
        property_items(resolver, active, result, property, items, inside_reverse, options, i)
            matches Ok(r) ==> (get(r, k) is Some ==> get(result, k) is Some || stands_for(
            active,
            k,
            property,
        )),
    decreases items.len() - i,
{
    if i < items.len() {
        match property_item(resolver, active, result, property, items[i], inside_reverse, options) {
            Ok(r1) => {
                lemma_property_item_keys(
                    resolver,
                    active,
                    result,
                    property,
                    items[i],
                    inside_reverse,
                    options,
                    k,
                );
                lemma_property_items_keys(
                    resolver,
                    active,
                    r1,
                    property,
                    items,
                    inside_reverse,
                    options,
                    i + 1,
                    k,
                );
            },
            Err(_) => {},
        }
    }
}

/// A property with its values adds at most keys that stand for the
/// property.
pub proof fn lemma_compact_property_keys(
    resolver: Resolver,
    active: Context,
    result: ObjectView,
    property: Term,
    items: Seq<Indexed<Object>>,
    inside_reverse: bool,
    options: Options,
    k: Seq<char>,
)
    requires
        active.wf(),
    ensures
        compact_property(resolver, active, result, property, items, inside_reverse, options)
            matches Ok(r) ==> (get(r, k) is Some ==> get(result, k) is Some || stands_for(
            active,
            k,
            property,
        )),
{
    if items.len() == 0 {
        lemma_vocab_term_stands(active, property, None, inside_reverse, options);
        lemma_added_keys(
            result,
            vocab_term(active, property, None, inside_reverse, options),
            JsonView::Array(Seq::empty()),
            true,
            k,
        );
    } else {
        lemma_property_items_keys(
            resolver,
            active,
            result,
            property,
            items,
            inside_reverse,
            options,
            0,
            k,
        );
    }
}

/// One node of a property adds at most a key that stands for the
/// property.
pub proof fn lemma_node_property_item_keys(
    resolver: Resolver,
    active: Context,
    result: ObjectView,
    property: Term,
    item: Indexed<Node>,
    inside_reverse: bool,
    options: Options,
    k: Seq<char>,
)
    requires
        active.wf(),
    ensures
        node_property_item(resolver, active, result, property, item, inside_reverse, options)
            matches Ok(r) ==> (get(r, k) is Some ==> get(result, k) is Some || stands_for(
            active,
            k,
            property,
        )),
{
    let term = vocab_term(active, property, Some(node_hint(&item)), inside_reverse, options);
    lemma_vocab_term_stands(active, property, Some(node_hint(&item)), inside_reverse, options);
    let index = chars(item.index);
    if item.value.spec_is_graph() {
        match compact_collection(
            resolver,
            active,
            active,
            Some(term),
            item.value.graph->0@,
            options,
        ) {
            Ok(c) => {
                lemma_place_graph_keys(result, active, term, c, item.value, index, options, k);
            },
            Err(_) => {},
        }
    } else {
        match compact_node(resolver, active, active, Some(term), item.value, index, options) {
            Ok(c) => {
                lemma_place_other_keys(result, active, term, c, None, index, options, k);
            },
            Err(_) => {},
        }
    }
}

/// The nodes of a property from `i` on add at most keys that stand for
/// the property.
pub proof fn lemma_node_property_items_keys(
    resolver: Resolver,
    active: Context,
    result: ObjectView,
    property: Term,
    items: Seq<Indexed<Node>>,
    inside_reverse: bool,
    options: Options,
    i: int,
    k: Seq<char>,
)
    requires
        active.wf(),
        0 <= i,
    ensures
        node_property_items(resolver, active, result, property, items, inside_reverse, options, i)
            matches Ok(r) ==> (get(r, k) is Some ==> get(result, k) is Some || stands_for(
            active,
            k,
            property,
        )),
    decreases items.len() - i,
{
    if i < items.len() {
        match node_property_item(
            resolver,
            active,
            result,
            property,
            items[i],
            inside_reverse,
            options,
        ) {
            Ok(r1) => {
                lemma_node_property_item_keys(
                    resolver,
                    active,
                    result,
                    property,
                    items[i],
                    inside_reverse,
                    options,
                    k,
                );
                lemma_node_property_items_keys(
                    resolver,
                    active,
                    r1,
                    property,
                    items,
                    inside_reverse,
                    options,
                    i + 1,
                    k,
                );
            },
            Err(_) => {},
        }
    }
}

/// A property whose values are nodes adds at most keys that stand for
/// the property.
pub proof fn lemma_compact_node_property_keys(
    resolver: Resolver,
    active: Context,
    result: ObjectView,
    property: Term,
    items: Seq<Indexed<Node>>,
    inside_reverse: bool,
    options: Options,
    k: Seq<char>,
)
    requires
        active.wf(),
    ensures
        compact_node_property(resolver, active, result, property, items, inside_reverse, options)
            matches Ok(r) ==> (get(r, k) is Some ==> get(result, k) is Some || stands_for(
            active,
            k,
            property,
        )),
{
    if items.len() == 0 {
        lemma_vocab_term_stands(active, property, None, inside_reverse, options);
        lemma_added_keys(
            result,
            vocab_term(active, property, None, inside_reverse, options),
            JsonView::Array(Seq::empty()),
            true,
            k,
        );
    } else {
        lemma_node_property_items_keys(
            resolver,
            active,
            result,
            property,
            items,
            inside_reverse,
            options,
            0,
            k,
        );
    }
}

/// The properties of a node add at most keys that stand for one of them.
pub proof fn lemma_with_properties_keys(
    resolver: Resolver,
    inner: Context,
    result: ObjectView,
    entries: Seq<(String, Vec<Indexed<Object>>)>,
    order: Seq<int>,
    inside_reverse: bool,
    options: Options,
    i: int,
    k: Seq<char>,
)
    requires
        inner.wf(),
        0 <= i,
    ensures
        with_properties(resolver, inner, result, entries, order, inside_reverse, options, i)
            matches Ok(r) ==> (get(r, k) is Some ==> get(result, k) is Some || stands_for_entry(
            inner,
            k,
            entries,
        )),
    decreases order.len() - i,
{
    if i < order.len() {
        let j = order[i];
        if j < 0 || j >= entries.len() {
            lemma_with_properties_keys(
                resolver,
                inner,
                result,
                entries,
                order,
                inside_reverse,
                options,
                i + 1,
                k,
            );
        } else {
            match compact_property(
                resolver,
                inner,
                result,
                Term::Ref(entries[j].0),
                entries[j].1@,
                inside_reverse,
                options,
            ) {
                Ok(r1) => {
                    lemma_compact_property_keys(
                        resolver,
                        inner,
                        result,
                        Term::Ref(entries[j].0),
                        entries[j].1@,
                        inside_reverse,
                        options,
                        k,
                    );
                    lemma_with_properties_keys(
                        resolver,
                        inner,
                        r1,
                        entries,
                        order,
                        inside_reverse,
                        options,
                        i + 1,
                        k,
                    );
                },
                Err(_) => {},
            }
        }
    }
}

/// The compacted reverse properties hold at most keys that stand for one
/// of them.
pub proof fn lemma_reverse_compacted_keys(
    resolver: Resolver,
    inner: Context,
    acc: ObjectView,
    entries: Seq<(String, Vec<Indexed<Node>>)>,
    order: Seq<int>,
    options: Options,
    i: int,
    k: Seq<char>,
)
    requires
        inner.wf(),
        0 <= i,
    ensures
        reverse_compacted(resolver, inner, acc, entries, order, options, i) matches Ok(r) ==> (get(
            r,
            k,
        ) is Some ==> get(acc, k) is Some || stands_for_entry(inner, k, entries)),
    decreases order.len() - i,
{
    if i < order.len() {
        let j = order[i];
        if j < 0 || j >= entries.len() {
            lemma_reverse_compacted_keys(resolver, inner, acc, entries, order, options, i + 1, k);
        } else {
            match compact_node_property(
                resolver,
                inner,
                acc,
                Term::Ref(entries[j].0),
                entries[j].1@,
                true,
                options,
            ) {
                Ok(r1) => {
                    lemma_compact_node_property_keys(
                        resolver,
                        inner,
                        acc,
                        Term::Ref(entries[j].0),
                        entries[j].1@,
                        true,
                        options,
                        k,
                    );
                    lemma_reverse_compacted_keys(
                        resolver,
                        inner,
                        r1,
                        entries,
                        order,
                        options,
                        i + 1,
                        k,
                    );
                },
                Err(_) => {},
            }
        }
    }
}

/// Parting the compacted reverse properties adds to the result at most
/// keys of the compacted reverse properties.
pub proof fn lemma_reverse_split_keys(
    inner: Context,
    result: ObjectView,
    compacted: ObjectView,
    map: ObjectView,
    options: Options,
    i: int,
    k: Seq<char>,
)
    requires
        0 <= i,
    ensures
        reverse_split(inner, result, compacted, map, options, i) matches Ok(p) ==> (get(p.0, k)
            is Some ==> get(result, k) is Some || get(compacted, k) is Some),
    decreases compacted.len() - i,
{
    if i < compacted.len() {
        let property = compacted[i].0;
        let value = compacted[i].1;
        lemma_entry_is_key(compacted, i);
        match inner.spec_get(property) {
            Some(d) => {
                if d.reverse_property {
                    let c = d.container;
                    if !(c.graph || c.id || c.language || c.list || c.typ) {
                        let next = added(result, property, value, c.set || !options.compact_arrays);
                        lemma_added_keys(
                            result,
                            property,
                            value,
                            c.set || !options.compact_arrays,
                            k,
                        );
                        lemma_reverse_split_keys(inner, next, compacted, map, options, i + 1, k);
                    }
                } else {
                    lemma_reverse_split_keys(
                        inner,
                        result,
                        compacted,
                        insert(map, property, value),
                        options,
                        i + 1,
                        k,
                    );
                }
            },
            None => {
                lemma_reverse_split_keys(
                    inner,
                    result,
                    compacted,
                    insert(map, property, value),
                    options,
                    i + 1,
                    k,
                );
            },
        }
    }
}

/// The reverse properties of a node add at most the key of `@reverse`
/// and keys that stand for one of them.
pub proof fn lemma_with_reverse_keys(
    resolver: Resolver,
    inner: Context,
    result: ObjectView,
    entries: Seq<(String, Vec<Indexed<Node>>)>,
    options: Options,
    k: Seq<char>,
)
    requires
        inner.wf(),
    ensures
        with_reverse(resolver, inner, result, entries, options) matches Ok(r) ==> (get(r, k)
            is Some ==> get(result, k) is Some || k == alias(inner, Keyword::Reverse, options)
            || stands_for_entry(inner, k, entries)),
{
    if entries.len() > 0 {
        let order = walk_order(keys_of(entries), options.ordered);
        match reverse_compacted(resolver, inner, Seq::empty(), entries, order, options, 0) {
            Ok(compacted) => {
                lemma_reverse_compacted_keys(
                    resolver,
                    inner,
                    Seq::empty(),
                    entries,
                    order,
                    options,
                    0,
                    k,
                );
                lemma_index_of_from(Seq::<(Seq<char>, JsonView)>::empty(), k, 0);
                match reverse_split(inner, result, compacted, Seq::empty(), options, 0) {
                    Ok((r, map)) => {
                        lemma_reverse_split_keys(
                            inner,
                            result,
                            compacted,
                            Seq::empty(),
                            options,
                            0,
                            k,
                        );
                        if map.len() > 0 {
                            lemma_insert_keys(
                                r,
                                alias(inner, Keyword::Reverse, options),
                                JsonView::Object(map),
                                k,
                            );
                        }
                    },
                    Err(_) => {},
                }
            },
            Err(_) => {},
        }
    }
}

/// Keyword aliasing, for every node object. Every key of a compacted node
/// stands for a keyword or for a property of the node under the context in
/// force: it is the keyword itself, a term that the context maps to the
/// keyword, a term that the context maps to the property, or the property
/// written as an IRI (its suffix behind the vocabulary mapping, its compact
/// IRI, or the IRI itself).
pub proof fn lemma_node_keys(
    resolver: Resolver,
    inner: Context,
    type_scoped: Context,
    active_property: Option<Seq<char>>,
    node: Node,
    index: Option<Seq<char>>,
    options: Options,
    k: Seq<char>,
)
    requires
        inner.wf(),
    ensures
        node_entries(resolver, inner, type_scoped, active_property, node, index, options)
            matches Ok(o) ==> (get(o, k) is Some ==> node_key(inner, node, k)),
{
    let inside_reverse = active_property == Some("@reverse"@);
    lemma_vocab_term_stands(inner, Term::Keyword(Keyword::Id), None, false, options);
    lemma_vocab_term_stands(inner, Term::Keyword(Keyword::Type), None, false, options);
    lemma_vocab_term_stands(inner, Term::Keyword(Keyword::Reverse), None, false, options);
    lemma_vocab_term_stands(inner, Term::Keyword(Keyword::Index), None, false, options);
    lemma_index_of_from(Seq::<(Seq<char>, JsonView)>::empty(), k, 0);
    match with_id(inner, node.id, options) {
        Err(_) => {},
        Ok(r1) => {
            match node.id {
                Some(id) => {
                    lemma_insert_keys(
                        Seq::empty(),
                        alias(inner, Keyword::Id, options),
                        JsonView::String(
                            crate::compaction::iri::compact_id(inner, id@, options)->Ok_0,
                        ),
                        k,
                    );
                },
                None => {},
            }
            let r2 = with_types(r1, inner, type_scoped, node.types@, options);
            if node.types@.len() > 0 {
                let compacted = crate::compaction::model::compact_types(
                    type_scoped,
                    node.types@,
                    options,
                );
                let value = if node.types@.len() == 1 {
                    compacted[0]
                } else {
                    JsonView::Array(compacted)
                };
                let key = alias(inner, Keyword::Type, options);
                let as_array = (options.processing_mode == crate::syntax::ProcessingMode::JsonLd1_1
                    && property_container(inner.spec_get(key)).set) || !options.compact_arrays;
                lemma_added_keys(r1, key, value, as_array, k);
            }
            match with_reverse(resolver, inner, r2, node.reverse_properties@, options) {
                Err(_) => {},
                Ok(r3) => {
                    lemma_with_reverse_keys(
                        resolver,
                        inner,
                        r2,
                        node.reverse_properties@,
                        options,
                        k,
                    );
                    let r4 = with_node_index(inner, r3, index, active_property, options);
                    match index {
                        Some(i) => {
                            lemma_insert_keys(
                                r3,
                                alias(inner, Keyword::Index, options),
                                JsonView::String(i),
                                k,
                            );
                        },
                        None => {},
                    }
                    let r5 = match node.graph {
                        Some(g) => compact_property(
                            resolver,
                            inner,
                            r4,
                            Term::Keyword(Keyword::Graph),
                            g@,
                            false,
                            options,
                        ),
                        None => Ok(r4),
                    };
                    match node.graph {
                        Some(g) => {
                            lemma_compact_property_keys(
                                resolver,
                                inner,
                                r4,
                                Term::Keyword(Keyword::Graph),
                                g@,
                                false,
                                options,
                                k,
                            );
                        },
                        None => {},
                    }
                    match r5 {
                        Err(_) => {},
                        Ok(r5) => {
                            let order = walk_order(keys_of(node.properties@), options.ordered);
                            match with_properties(
                                resolver,
                                inner,
                                r5,
                                node.properties@,
                                order,
                                inside_reverse,
                                options,
                                0,
                            ) {
                                Err(_) => {},
                                Ok(r6) => {
                                    lemma_with_properties_keys(
                                        resolver,
                                        inner,
                                        r5,
                                        node.properties@,
                                        order,
                                        inside_reverse,
                                        options,
                                        0,
                                        k,
                                    );
                                    match node.included {
                                        Some(inc) => {
                                            lemma_compact_node_property_keys(
                                                resolver,
                                                inner,
                                                r6,
                                                Term::Keyword(Keyword::Included),
                                                inc@,
                                                false,
                                                options,
                                                k,
                                            );
                                        },
                                        None => {},
                                    }
                                },
                            }
                        },
                    }
                },
            }
        },
    }
}

/// Whether the compact form of the value is its JSON payload as it is.
pub open spec fn is_raw_json(
    ctx: Context,
    value: Value,
    index: Option<Seq<char>>,
    active_property: Option<Seq<char>>,
) -> bool {
    let def = property_definition(ctx, active_property);
    &&& value is Json
    &&& property_type(def) is Some
    &&& property_type(def)->0 is Json
    &&& index_removed(index, property_container(def))
}

/// Keyword aliasing, for every value object. Every key of a full value
/// object stands for one of the keywords `@value`, `@type`, `@language`,
/// `@direction` and `@index`: it is the keyword itself, or a term that the
/// context maps to it. (A JSON literal under a `@json` type mapping is no
/// value object: it is its payload.)
pub proof fn lemma_value_object_keys(
    ctx: Context,
    value: Value,
    index: Option<Seq<char>>,
    active_property: Option<Seq<char>>,
    options: Options,
    k: Seq<char>,
)
    requires
        ctx.wf(),
        !is_raw_json(ctx, value, index, active_property),
    ensures
        value_in_context(ctx, value, index, active_property, options) matches JsonView::Object(o)
            ==> (get(o, k) is Some ==> value_object_key(ctx, k)),
{
    let def = property_definition(ctx, active_property);
    let container = property_container(def);
    let empty = Seq::<(Seq<char>, JsonView)>::empty();
    lemma_vocab_term_stands(ctx, Term::Keyword(Keyword::Value), None, false, options);
    lemma_vocab_term_stands(ctx, Term::Keyword(Keyword::Type), None, false, options);
    lemma_vocab_term_stands(ctx, Term::Keyword(Keyword::Language), None, false, options);
    lemma_vocab_term_stands(ctx, Term::Keyword(Keyword::Direction), None, false, options);
    lemma_vocab_term_stands(ctx, Term::Keyword(Keyword::Index), None, false, options);
    lemma_index_of_from(empty, k, 0);
    let value_key = alias(ctx, Keyword::Value, options);
    let type_key = alias(ctx, Keyword::Type, options);
    let index_key = alias(ctx, Keyword::Index, options);
    match value {
        Value::Literal(lit, ty) => {
            let o1 = insert(empty, value_key, crate::object::value::literal_json(lit));
            lemma_insert_keys(empty, value_key, crate::object::value::literal_json(lit), k);
            let o2 = match ty {
                Some(t) => insert(
                    o1,
                    type_key,
                    JsonView::String(vocab_term(ctx, Term::Ref(t), None, false, options)),
                ),
                None => o1,
            };
            match ty {
                Some(t) => {
                    lemma_insert_keys(
                        o1,
                        type_key,
                        JsonView::String(vocab_term(ctx, Term::Ref(t), None, false, options)),
                        k,
                    );
                },
                None => {},
            }
            match index {
                Some(i) => {
                    lemma_insert_keys(o2, index_key, JsonView::String(i), k);
                },
                None => {},
            }
        },
        Value::LangString(s) => {
            let o1 = insert(empty, value_key, JsonView::String(s.data@));
            lemma_insert_keys(empty, value_key, JsonView::String(s.data@), k);
            let o2 = match s.language {
                Some(l) => insert(o1, alias(ctx, Keyword::Language, options), JsonView::String(l@)),
                None => o1,
            };
            match s.language {
                Some(l) => {
                    lemma_insert_keys(
                        o1,
                        alias(ctx, Keyword::Language, options),
                        JsonView::String(l@),
                        k,
                    );
                },
                None => {},
            }
            let o3 = match s.direction {
                Some(d) => insert(
                    o2,
                    alias(ctx, Keyword::Direction, options),
                    JsonView::String(crate::direction::direction_name(d)),
                ),
                None => o2,
            };
            match s.direction {
                Some(d) => {
                    lemma_insert_keys(
                        o2,
                        alias(ctx, Keyword::Direction, options),
                        JsonView::String(crate::direction::direction_name(d)),
                        k,
                    );
                },
                None => {},
            }
            match index {
                Some(i) => {
                    lemma_insert_keys(o3, index_key, JsonView::String(i), k);
                },
                None => {},
            }
        },
        Value::Json(j) => {
            let o1 = insert(empty, value_key, j@);
            lemma_insert_keys(empty, value_key, j@, k);
            let o2 = insert(
                o1,
                type_key,
                JsonView::String(alias(ctx, Keyword::Json, options)),
            );
            lemma_insert_keys(o1, type_key, JsonView::String(alias(ctx, Keyword::Json, options)), k);
            match index {
                Some(i) => {
                    lemma_insert_keys(o2, index_key, JsonView::String(i), k);
                },
                None => {},
            }
        },
    }
}

/// The context in force inside a node that is more than a reference to
/// the identifier alone: the context to go back to, and in it the local
/// context of the active property, as the type-scoped context defines it.
pub open spec fn context_inside(
    resolver: Resolver,
    active: Context,
    type_scoped: Context,
    active_property: Option<Seq<char>>,
    node: Node,
) -> Result<Context, Error> {
    crate::compaction::value::entered(
        resolver,
        if node.spec_is_empty() && node.id is Some {
            active
        } else {
            crate::compaction::model::restored(active)
        },
        property_definition(type_scoped, active_property),
    )
}

/// Keyword aliasing, for every node object that compaction gives. Where
/// a node compacts to an object, every key of the object stands for a
/// keyword or for a property of the node, under the context in force inside
/// the node.
pub proof fn lemma_compact_node_keys(
    resolver: Resolver,
    active: Context,
    type_scoped: Context,
    active_property: Option<Seq<char>>,
    node: Node,
    index: Option<Seq<char>>,
    options: Options,
    k: Seq<char>,
)
    requires
        context_inside(resolver, active, type_scoped, active_property, node) matches Ok(inner)
            ==> inner.wf(),
    ensures
        compact_node(resolver, active, type_scoped, active_property, node, index, options)
            matches Ok(JsonView::Object(o)) ==> (get(o, k) is Some ==> (context_inside(
            resolver,
            active,
            type_scoped,
            active_property,
            node,
        ) matches Ok(inner) && node_key(inner, node, k))),
{
    match context_inside(resolver, active, type_scoped, active_property, node) {
        Ok(inner) => {
            lemma_node_keys(
                resolver,
                inner,
                type_scoped,
                active_property,
                node,
                index,
                options,
                k,
            );
        },
        Err(_) => {},
    }
}

} // verus!
