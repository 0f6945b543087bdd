//! What compaction gives: the compact form of each kind of object, stated
//! over the views.

use vstd::prelude::*;
use crate::compaction::iri::{alias, compact_id, vocab_term, Hint};
use crate::compaction::order::{keys_of, walk_order};
use crate::compaction::place::{place_graph, place_list, place_other};
use crate::compaction::value::{
    compact_value,
    entered,
    property_container,
    property_definition,
    property_type,
};
use crate::compaction::{added, Options};
use crate::context::{Context, Resolver};
use crate::error::Error;
use crate::json::{insert, JsonView, ObjectView};
use crate::object::node::Node;
use crate::object::{Indexed, Object, Ref};
use crate::syntax::{is_keyword, Keyword, ProcessingMode, Term, Type};

verus! {

/// The characters of an optional string.
pub open spec fn chars(s: Option<String>) -> Option<Seq<char>> {
    match s {
        Some(s) => Some(s@),
        None => None,
    }
}

/// What an indexed object tells for the choice of a term.
pub open spec fn object_hint(item: &Indexed<Object>) -> Hint<'_> {
    Hint { object: item.value.spec_as_ref(), indexed: item.index is Some }
}

/// What an indexed node tells for the choice of a term.
pub open spec fn node_hint(item: &Indexed<Node>) -> Hint<'_> {
    Hint { object: Ref::Node(&item.value), indexed: item.index is Some }
}

/// Whether a list object stands among the items.
pub open spec fn has_list(items: Seq<Indexed<Object>>) -> bool {
    exists|i: int| 0 <= i < items.len() && (#[trigger] items[i]).value is List
}

/// The context to go on with when a new node begins: the previous context
/// of a term-scoped context, or the context itself.
pub open spec fn restored(active: Context) -> Context {
    match active.previous_context {
        Some(p) => *p,
        None => active,
    }
}

/// The array of the compacted items, or the one item: a single item
/// stands alone where arrays are folded, the active property is neither
/// `@graph` nor `@set`, and its container holds neither `@list` nor `@set`.
pub open spec fn folded(
    active: Context,
    active_property: Option<Seq<char>>,
    items: Seq<JsonView>,
    options: Options,
) -> JsonView {
    let c = property_container(property_definition(active, active_property));
    if items.len() != 1 || !options.compact_arrays || active_property == Some("@graph"@)
        || active_property == Some("@set"@) || c.list || c.set {
        JsonView::Array(items)
    } else {
        items[0]
    }
}

/// The result with the `@id` entry of a node.
pub open spec fn with_id(inner: Context, id: Option<String>, options: Options) -> Result<ObjectView, Error> {
    match id {
        Some(id) => match compact_id(inner, id@, options) {
            Ok(s) => Ok(
                insert(Seq::empty(), alias(inner, Keyword::Id, options), JsonView::String(s)),
            ),
            Err(e) => Err(e),
        },
        None => Ok(Seq::empty()),
    }
}

/// The compact form of each type, under the type-scoped context.
pub open spec fn compact_types(type_scoped: Context, types: Seq<String>, options: Options) -> Seq<JsonView> {
    Seq::new(
        types.len(),
        |i: int| JsonView::String(vocab_term(type_scoped, Term::Ref(types[i]), None, false, options)),
    )
}

/// The result with the `@type` entry of a node: one type stands alone,
/// several make an array.
pub open spec fn with_types(
    result: ObjectView,
    inner: Context,
    type_scoped: Context,
    types: Seq<String>,
    options: Options,
) -> ObjectView {
    if types.len() == 0 {
        result
    } else {
        let compacted = compact_types(type_scoped, types, options);
        let value = if types.len() == 1 {
            compacted[0]
        } else {
            JsonView::Array(compacted)
        };
        let key = alias(inner, Keyword::Type, options);
        let as_array = (options.processing_mode == ProcessingMode::JsonLd1_1 && property_container(
            inner.spec_get(key),
        ).set) || !options.compact_arrays;
        added(result, key, value, as_array)
    }
}

/// The result with the `@index` entry of a node, unless the container of
/// the active property holds the node by its index.
pub open spec fn with_node_index(
    inner: Context,
    result: ObjectView,
    index: Option<Seq<char>>,
    active_property: Option<Seq<char>>,
    options: Options,
) -> ObjectView {
    match index {
        Some(i) => if property_container(property_definition(inner, active_property)).index {
            result
        } else {
            insert(result, alias(inner, Keyword::Index, options), JsonView::String(i))
        },
        None => result,
    }
}

/// The entries of the compacted reverse properties from `i` on, parted:
/// those whose term is defined as a reverse property go into the result
/// itself, as an array where the container of the term holds `@set` or
/// arrays are not folded; the others go into the map that comes under
/// `@reverse`. A reverse property term whose container holds more than
/// `@set` and `@index` is an error.
pub open spec fn reverse_split(
    inner: Context,
    result: ObjectView,
    compacted: ObjectView,
    map: ObjectView,
    options: Options,
    i: int,
) -> Result<(ObjectView, ObjectView), Error>
    decreases compacted.len() - i,
{
    if i < 0 || i >= compacted.len() {
        Ok((result, map))
    } else {
        let property = compacted[i].0;
        let value = compacted[i].1;
        match inner.spec_get(property) {
            Some(d) => if d.reverse_property {
                let c = d.container;
                if c.graph || c.id || c.language || c.list || c.typ {
                    Err(Error::InvalidReversePropertyMap)
                } else {
                    reverse_split(
                        inner,
                        added(result, property, value, c.set || !options.compact_arrays),
                        compacted,
                        map,
                        options,
                        i + 1,
                    )
                }
            } else {
                reverse_split(
                    inner,
                    result,
                    compacted,
                    insert(map, property, value),
                    options,
                    i + 1,
                )
            },
            None => reverse_split(
                inner,
                result,
                compacted,
                insert(map, property, value),
                options,
                i + 1,
            ),
        }
    }
}

/// The compact form of a node that is a mere reference, where the type
/// mapping of the active property says how references are written: the
/// identifier alone, as an IRI for `@id` and as a term for `@vocab`.
pub open spec fn reference_form(
    inner: Context,
    node: Node,
    index: Option<Seq<char>>,
    active_property: Option<Seq<char>>,
    options: Options,
) -> Option<Result<JsonView, Error>> {
    let def = property_definition(inner, active_property);
    match node.id {
        Some(id) => if node.spec_is_empty() && (index is None || property_container(def).index) {
            match property_type(def) {
                Some(Type::Id) => Some(
                    match compact_id(inner, id@, options) {
                        Ok(s) => Ok(JsonView::String(s)),
                        Err(e) => Err(e),
                    },
                ),
                Some(Type::Vocab) => Some(
                    Ok(JsonView::String(vocab_term(inner, Term::Ref(id), None, false, options))),
                ),
                _ => None,
            }
        } else {
            None
        },
        None => None,
    }
}

/// The compact form of an indexed object under the active property.
pub open spec fn compact_item(
    resolver: Resolver,
    active: Context,
    type_scoped: Context,
    active_property: Option<Seq<char>>,
    item: Indexed<Object>,
    options: Options,
) -> Result<JsonView, Error>
    decreases item, 0nat, 0nat,
{
    match item.value {
        Object::Value(v) => compact_value(
            resolver,
            active,
            v,
            chars(item.index),
            active_property,
            options,
        ),
        Object::Node(n) => compact_node(
            resolver,
            active,
            type_scoped,
            active_property,
            n,
            chars(item.index),
            options,
        ),
        Object::List(l) => compact_list(
            resolver,
            active,
            type_scoped,
            active_property,
            l,
            chars(item.index),
            options,
        ),
    }
}

/// The compact form of a list object. Where the container of the active
/// property (as the type-scoped context defines it) is `@list`, the items
/// make a bare array; otherwise they stand under `@list` in an object, which
/// takes the index of the list unless the container holds it by index. A
/// list among the items is an error.
pub open spec fn compact_list(
    resolver: Resolver,
    active: Context,
    type_scoped: Context,
    active_property: Option<Seq<char>>,
    list: Vec<Indexed<Object>>,
    index: Option<Seq<char>>,
    options: Options,
) -> Result<JsonView, Error>
    decreases list, 2nat, 0nat,
{
    let def = property_definition(type_scoped, active_property);
    if has_list(list@) {
        Err(Error::CompactionToListOfLists)
    } else {
        match entered(resolver, restored(active), def) {
            Err(e) => Err(e),
            Ok(inner) => if property_container(def).list {
                compact_collection(resolver, inner, inner, active_property, list@, options)
            } else {
                match compact_property(
                    resolver,
                    inner,
                    Seq::empty(),
                    Term::Keyword(Keyword::List),
                    list@,
                    false,
                    options,
                ) {
                    Err(e) => Err(e),
                    Ok(result) => Ok(
                        JsonView::Object(
                            with_node_index(inner, result, index, active_property, options),
                        ),
                    ),
                }
            },
        }
    }
}

/// The compacted items from `i` on, put behind `acc`; an item that
/// compacts to null is left out.
pub open spec fn collected(
    resolver: Resolver,
    active: Context,
    type_scoped: Context,
    active_property: Option<Seq<char>>,
    items: Seq<Indexed<Object>>,
    options: Options,
    i: int,
    acc: Seq<JsonView>,
) -> Result<Seq<JsonView>, Error>
    decreases items, 0nat, items.len() - i,
{
    if i < 0 || i >= items.len() {
        Ok(acc)
    } else {
        match compact_item(resolver, active, type_scoped, active_property, items[i], options) {
            Err(e) => Err(e),
            Ok(v) => collected(
                resolver,
                active,
                type_scoped,
                active_property,
                items,
                options,
                i + 1,
                if v is Null {
                    acc
                } else {
                    acc.push(v)
                },
            ),
        }
    }
}

/// The compact form of a set of objects: the array of the compacted
/// items, or the one item where it may stand alone.
pub open spec fn compact_collection(
    resolver: Resolver,
    active: Context,
    type_scoped: Context,
    active_property: Option<Seq<char>>,
    items: Seq<Indexed<Object>>,
    options: Options,
) -> Result<JsonView, Error>
    decreases items, 1nat, 0nat,
{
    match collected(
        resolver,
        active,
        type_scoped,
        active_property,
        items,
        options,
        0,
        Seq::empty(),
    ) {
        Err(e) => Err(e),
        Ok(compacted) => Ok(folded(active, active_property, compacted, options)),
    }
}

/// The result with one value of a property: the term is chosen for the
/// value, the value is compacted under it, and placed as the container of
/// the term asks.
pub open spec fn property_item(
    resolver: Resolver,
    active: Context,
    result: ObjectView,
    property: Term,
    item: Indexed<Object>,
    inside_reverse: bool,
    options: Options,
) -> Result<ObjectView, Error>
    decreases item, 3nat, 0nat,
{
    let term = vocab_term(active, property, Some(object_hint(&item)), inside_reverse, options);
    let index = chars(item.index);
    match item.value {
        Object::List(list) => if has_list(list@) {
            Err(Error::CompactionToListOfLists)
        } else {
            match compact_collection(resolver, active, active, Some(term), list@, options) {
                Err(e) => Err(e),
                Ok(c) => Ok(place_list(result, active, term, c, index, options)),
            }
        },
        Object::Node(n) => if n.spec_is_graph() {
            match compact_collection(
                resolver,
                active,
                active,
                Some(term),
                n.graph->0@,
                options,
            ) {
                Err(e) => Err(e),
                Ok(c) => place_graph(result, active, term, c, n, index, options),
            }
        } else {
            match compact_item(resolver, active, active, Some(term), item, options) {
                Err(e) => Err(e),
                Ok(c) => Ok(place_other(result, active, term, c, None, index, options)),
            }
        },
        Object::Value(v) => match compact_item(
            resolver,
            active,
            active,
            Some(term),
            item,
            options,
        ) {
            Err(e) => Err(e),
            Ok(c) => Ok(place_other(result, active, term, c, Some(v), index, options)),
        },
    }
}

/// The result with the values of a property from `i` on.
pub open spec fn property_items(
    resolver: Resolver,
    active: Context,
    result: ObjectView,
    property: Term,
    items: Seq<Indexed<Object>>,
    inside_reverse: bool,
    options: Options,
    i: int,
) -> Result<ObjectView, Error>
    decreases items, 0nat, items.len() - i,
{
    if i < 0 || i >= items.len() {
        Ok(result)
    } else {
        match property_item(resolver, active, result, property, items[i], inside_reverse, options) {
            Err(e) => Err(e),
            Ok(r) => property_items(
                resolver,
                active,
                r,
                property,
                items,
                inside_reverse,
                options,
                i + 1,
            ),
        }
    }
}

/// The result with a property and its values. A property without values
/// gives an empty array under the term chosen for no value.
pub open spec fn compact_property(
    resolver: Resolver,
    active: Context,
    result: ObjectView,
    property: Term,
    items: Seq<Indexed<Object>>,
    inside_reverse: bool,
    options: Options,
) -> Result<ObjectView, Error>
    decreases items, 1nat, 0nat,
{
    if items.len() == 0 {
        Ok(
            added(
                result,
                vocab_term(active, property, None, inside_reverse, options),
                JsonView::Array(Seq::empty()),
                true,
            ),
        )
    } else {
        property_items(resolver, active, result, property, items, inside_reverse, options, 0)
    }
}

/// The result with one node of a property whose values are nodes.
pub open spec fn node_property_item(
    resolver: Resolver,
    active: Context,
    result: ObjectView,
    property: Term,
    item: Indexed<Node>,
    inside_reverse: bool,
    options: Options,
) -> Result<ObjectView, Error>
    decreases item, 3nat, 0nat,
{
    let term = vocab_term(active, property, Some(node_hint(&item)), inside_reverse, options);
    let index = chars(item.index);
    if item.value.spec_is_graph() {
        match compact_collection(
            resolver,
            active,
            active,
            Some(term),
            item.value.graph->0@,
            options,
        ) {
            Err(e) => Err(e),
            Ok(c) => place_graph(result, active, term, c, item.value, index, options),
        }
    } else {
        match compact_node(resolver, active, active, Some(term), item.value, index, options) {
            Err(e) => Err(e),
            Ok(c) => Ok(place_other(result, active, term, c, None, index, options)),
        }
    }
}

/// The result with the nodes of a property from `i` on.
pub open spec fn node_property_items(
    resolver: Resolver,
    active: Context,
    result: ObjectView,
    property: Term,
    items: Seq<Indexed<Node>>,
    inside_reverse: bool,
    options: Options,
    i: int,
) -> Result<ObjectView, Error>
    decreases items, 0nat, items.len() - i,
{
    if i < 0 || i >= items.len() {
        Ok(result)
    } else {
        match node_property_item(
            resolver,
            active,
            result,
            property,
            items[i],
            inside_reverse,
            options,
        ) {
            Err(e) => Err(e),
            Ok(r) => node_property_items(
                resolver,
                active,
                r,
                property,
                items,
                inside_reverse,
                options,
                i + 1,
            ),
        }
    }
}

/// The result with a property whose values are nodes.
pub open spec fn compact_node_property(
    resolver: Resolver,
    active: Context,
    result: ObjectView,
    property: Term,
    items: Seq<Indexed<Node>>,
    inside_reverse: bool,
    options: Options,
) -> Result<ObjectView, Error>
    decreases items, 1nat, 0nat,
{
    if items.len() == 0 {
        Ok(
            added(
                result,
                vocab_term(active, property, None, inside_reverse, options),
                JsonView::Array(Seq::empty()),
                true,
            ),
        )
    } else {
        node_property_items(resolver, active, result, property, items, inside_reverse, options, 0)
    }
}

/// The compacted reverse properties, walked in the given order from its
/// place `i` on, added to `acc`. A property that is spelled like a keyword
/// is an error.
pub open spec fn reverse_compacted(
    resolver: Resolver,
    inner: Context,
    acc: ObjectView,
    entries: Seq<(String, Vec<Indexed<Node>>)>,
    order: Seq<int>,
    options: Options,
    i: int,
) -> Result<ObjectView, Error>
    decreases entries, 0nat, order.len() - i,
{
    if i < 0 || i >= order.len() {
        Ok(acc)
    } else {
        let k = order[i];
        if k < 0 || k >= entries.len() {
            reverse_compacted(resolver, inner, acc, entries, order, options, i + 1)
        } else if is_keyword(entries[k].0@) {
            Err(Error::UnexpectedObjectShape)
        } else {
            match compact_node_property(
                resolver,
                inner,
                acc,
                Term::Ref(entries[k].0),
                entries[k].1@,
                true,
                options,
            ) {
                Err(e) => Err(e),
                Ok(r) => reverse_compacted(resolver, inner, r, entries, order, options, i + 1),
            }
        }
    }
}

/// The result with the reverse properties of a node: under the terms
/// that are defined as reverse properties, and under `@reverse` for the
/// others.
pub open spec fn with_reverse(
    resolver: Resolver,
    inner: Context,
    result: ObjectView,
    entries: Seq<(String, Vec<Indexed<Node>>)>,
    options: Options,
) -> Result<ObjectView, Error>
    decreases entries, 1nat, 0nat,
{
    if entries.len() == 0 {
        Ok(result)
    } else {
        match reverse_compacted(
            resolver,
            inner,
            Seq::empty(),
            entries,
            walk_order(keys_of(entries), options.ordered),
            options,
            0,
        ) {
            Err(e) => Err(e),
            Ok(compacted) => match reverse_split(
                inner,
                result,
                compacted,
                Seq::empty(),
                options,
                0,
            ) {
                Err(e) => Err(e),
                Ok((r, map)) => Ok(
                    if map.len() > 0 {
                        insert(r, alias(inner, Keyword::Reverse, options), JsonView::Object(map))
                    } else {
                        r
                    },
                ),
            },
        }
    }
}

/// The result with the properties of a node, walked in the given order
/// from its place `i` on. A property that is spelled like a keyword is an
/// error.
pub open spec fn with_properties(
    resolver: Resolver,
    inner: Context,
    result: ObjectView,
    entries: Seq<(String, Vec<Indexed<Object>>)>,
    order: Seq<int>,
    inside_reverse: bool,
    options: Options,
    i: int,
) -> Result<ObjectView, Error>
    decreases entries, 0nat, order.len() - i,
{
    if i < 0 || i >= order.len() {
        Ok(result)
    } else {
        let k = order[i];
        if k < 0 || k >= entries.len() {
            with_properties(resolver, inner, result, entries, order, inside_reverse, options, i + 1)
        } else if is_keyword(entries[k].0@) {
            Err(Error::UnexpectedObjectShape)
        } else {
            match compact_property(
                resolver,
                inner,
                result,
                Term::Ref(entries[k].0),
                entries[k].1@,
                inside_reverse,
                options,
            ) {
                Err(e) => Err(e),
                Ok(r) => with_properties(
                    resolver,
                    inner,
                    r,
                    entries,
                    order,
                    inside_reverse,
                    options,
                    i + 1,
                ),
            }
        }
    }
}

/// The entries of a compacted node: `@id`, `@type`, the reverse
/// properties, `@index`, `@graph`, the properties, and `@included`.
pub open spec fn node_entries(
    resolver: Resolver,
    inner: Context,
    type_scoped: Context,
    active_property: Option<Seq<char>>,
    node: Node,
    index: Option<Seq<char>>,
    options: Options,
) -> Result<ObjectView, Error>
    decreases node, 0nat, 0nat,
{
    let inside_reverse = active_property == Some("@reverse"@);
    match with_id(inner, node.id, options) {
        Err(e) => Err(e),
        Ok(r1) => {
            let r2 = with_types(r1, inner, type_scoped, node.types@, options);
            match with_reverse(resolver, inner, r2, node.reverse_properties@, options) {
                Err(e) => Err(e),
                Ok(r3) => {
                    let r4 = with_node_index(inner, r3, index, active_property, options);
                    let r5 = match node.graph {
                        Some(g) => compact_property(
                            resolver,
                            inner,
                            r4,
                            Term::Keyword(Keyword::Graph),
                            g@,
                            false,
                            options,
                        ),
                        None => Ok(r4),
                    };
                    match r5 {
                        Err(e) => Err(e),
                        Ok(r5) => match with_properties(
                            resolver,
                            inner,
                            r5,
                            node.properties@,
                            walk_order(keys_of(node.properties@), options.ordered),
                            inside_reverse,
                            options,
                            0,
                        ) {
                            Err(e) => Err(e),
                            Ok(r6) => match node.included {
                                Some(inc) => compact_node_property(
                                    resolver,
                                    inner,
                                    r6,
                                    Term::Keyword(Keyword::Included),
                                    inc@,
                                    false,
                                    options,
                                ),
                                None => Ok(r6),
                            },
                        },
                    }
                },
            }
        },
    }
}

/// The compact form of a node object with its index under the active
/// property. A node that is more than a reference ends a term-scoped
/// context; the local context of the active property, as the type-scoped
/// context defines it, is entered. A reference under a property whose type
/// mapping is `@id` or `@vocab` is written as its identifier alone.
pub open spec fn compact_node(
    resolver: Resolver,
    active: Context,
    type_scoped: Context,
    active_property: Option<Seq<char>>,
    node: Node,
    index: Option<Seq<char>>,
    options: Options,
) -> Result<JsonView, Error>
    decreases node, 1nat, 0nat,
{
    let reference = node.spec_is_empty() && node.id is Some;
    let outer = if reference {
        active
    } else {
        restored(active)
    };
    match entered(resolver, outer, property_definition(type_scoped, active_property)) {
        Err(e) => Err(e),
        Ok(inner) => match reference_form(inner, node, index, active_property, options) {
            Some(r) => r,
            None => match node_entries(
                resolver,
                inner,
                type_scoped,
                active_property,
                node,
                index,
                options,
            ) {
                Err(e) => Err(e),
                Ok(o) => Ok(JsonView::Object(o)),
            },
        },
    }
}

} // verus!
