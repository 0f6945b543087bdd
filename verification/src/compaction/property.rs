//! Compaction of the values of one property.

use vstd::prelude::*;
use crate::compaction::iri::{term_for, Hint};
use crate::compaction::model;
use crate::compaction::model::{node_hint, object_hint};
use crate::compaction::node::compact_indexed_node_with;
use crate::compaction::place::{place_graph_item, place_list_item, place_other_item};
use crate::compaction::{
    add_value,
    compact_collection_with,
    compact_indexed_with,
    contains_list,
    object_view,
    Options,
};
use crate::context::inverse::Inversible;
use crate::context::Resolver;
use crate::error::Error;
use crate::json;
use crate::json::Object;
use crate::object::node::Node;
use crate::object::{Indexed, Object as DocObject, Ref};
use crate::syntax::Term;

verus! {

fn hint_of(item: &Indexed<DocObject>) -> (r: Hint<'_>)
    ensures
        r == object_hint(item),
{
    Hint { object: item.value.as_ref(), indexed: item.index.is_some() }
}

fn hint_of_node(item: &Indexed<Node>) -> (r: Hint<'_>)
    ensures
        r == node_hint(item),
{
    Hint { object: Ref::Node(&item.value), indexed: item.index.is_some() }
}

fn property_item<'a>(
    resolver: &'a Resolver,
    result: &mut Object,
    property: &Term,
    item: &Indexed<DocObject>,
    active: &Inversible<'a>,
    inside_reverse: bool,
    options: Options,
) -> (r: Result<(), Error>)
    ensures
        object_view(r, *final(result)) == model::property_item(
            *resolver,
            active@,
            old(result)@,
            *property,
            *item,
            inside_reverse,
            options,
        ),
    decreases item, 3nat, 0nat,
{
    let term = term_for(active, property, Some(hint_of(item)), inside_reverse, options);
    match &item.value {
        DocObject::List(list) => {
            if contains_list(list) {
                return Err(Error::CompactionToListOfLists);
            }
            match compact_collection_with(
                resolver,
                list,
                active,
                active,
                Some(term.as_str()),
                options,
            ) {
                Ok(c) => {
                    place_list_item(result, active, term.as_str(), c, item.index(), options);
                    Ok(())
                },
                Err(e) => Err(e),
            }
        },
        DocObject::Node(n) => {
            if n.is_graph() {
                match &n.graph {
                    Some(g) => match compact_collection_with(
                        resolver,
                        g,
                        active,
                        active,
                        Some(term.as_str()),
                        options,
                    ) {
                        Ok(c) => place_graph_item(
                            result,
                            active,
                            term.as_str(),
                            c,
                            n,
                            item.index(),
                            options,
                        ),
                        Err(e) => Err(e),
                    },
                    None => Ok(()),
                }
            } else {
                match compact_indexed_with(
                    resolver,
                    item,
                    active,
                    active,
                    Some(term.as_str()),
                    options,
                ) {
                    Ok(c) => {
                        place_other_item(
                            result,
                            active,
                            term.as_str(),
                            c,
                            None,
                            item.index(),
                            options,
                        );
                        Ok(())
                    },
                    Err(e) => Err(e),
                }
            }
        },
        DocObject::Value(v) => {
            match compact_indexed_with(
                resolver,
                item,
                active,
                active,
                Some(term.as_str()),
                options,
            ) {
                Ok(c) => {
                    place_other_item(
                        result,
                        active,
                        term.as_str(),
                        c,
                        Some(v),
                        item.index(),
                        options,
                    );
                    Ok(())
                },
                Err(e) => Err(e),
            }
        },
    }
}

/// Compacts a property with its values into `result`: for each value the
/// term is chosen, the value is compacted under it and placed as the
/// container of the term asks. A property without values gives an empty
/// array.
pub fn compact_property<'a>(
    resolver: &'a Resolver,
    result: &mut Object,
    property: &Term,
    items: &Vec<Indexed<DocObject>>,
    active: &Inversible<'a>,
    inside_reverse: bool,
    options: Options,
) -> (r: Result<(), Error>)
    ensures
        object_view(r, *final(result)) == model::compact_property(
            *resolver,
            active@,
            old(result)@,
            *property,
            items@,
            inside_reverse,
            options,
        ),
    decreases items, 1nat, 0nat,
{
    if items.len() == 0 {
        let term = term_for(active, property, None, inside_reverse, options);
        add_value(result, term.as_str(), json::Value::empty_array(), true);
        return Ok(());
    }
    let mut i: usize = 0;
    while i < items.len()
        invariant
            i <= items.len(),
            model::property_items(
                *resolver,
                active@,
                result@,
                *property,
                items@,
                inside_reverse,
                options,
                i as int,
            ) == model::property_items(
                *resolver,
                active@,
                old(result)@,
                *property,
                items@,
                inside_reverse,
                options,
                0,
            ),
        decreases items.len() - i,
    {
        proof {
            assert(decreases_to!(items => items[i as int]));
        }
        match property_item(resolver, result, property, &items[i], active, inside_reverse, options) {
            Ok(()) => {},
            Err(e) => {
                return Err(e);
            },
        }
        i += 1;
    }
    Ok(())
}

fn node_property_item<'a>(
    resolver: &'a Resolver,
    result: &mut Object,
    property: &Term,
    item: &Indexed<Node>,
    active: &Inversible<'a>,
    inside_reverse: bool,
    options: Options,
) -> (r: Result<(), Error>)
    ensures
        object_view(r, *final(result)) == model::node_property_item(
            *resolver,
            active@,
            old(result)@,
            *property,
            *item,
            inside_reverse,
            options,
        ),
    decreases item, 3nat, 0nat,
{
    let term = term_for(active, property, Some(hint_of_node(item)), inside_reverse, options);
    let n = &item.value;
    if n.is_graph() {
        match &n.graph {
            Some(g) => match compact_collection_with(
                resolver,
                g,
                active,
                active,
                Some(term.as_str()),
                options,
            ) {
                Ok(c) => place_graph_item(
                    result,
                    active,
                    term.as_str(),
                    c,
                    n,
                    item.index(),
                    options,
                ),
                Err(e) => Err(e),
            },
            None => Ok(()),
        }
    } else {
        match compact_indexed_node_with(
            resolver,
            n,
            item.index(),
            active,
            active,
            Some(term.as_str()),
            options,
        ) {
            Ok(c) => {
                place_other_item(result, active, term.as_str(), c, None, item.index(), options);
                Ok(())
            },
            Err(e) => Err(e),
        }
    }
}

/// Compacts a property whose values are nodes into `result`.
pub fn compact_node_property<'a>(
    resolver: &'a Resolver,
    result: &mut Object,
    property: &Term,
    items: &Vec<Indexed<Node>>,
    active: &Inversible<'a>,
    inside_reverse: bool,
    options: Options,
) -> (r: Result<(), Error>)
    ensures
        object_view(r, *final(result)) == model::compact_node_property(
            *resolver,
            active@,
            old(result)@,
            *property,
            items@,
            inside_reverse,
            options,
        ),
    decreases items, 1nat, 0nat,
{
    if items.len() == 0 {
        let term = term_for(active, property, None, inside_reverse, options);
        add_value(result, term.as_str(), json::Value::empty_array(), true);
        return Ok(());
    }
    let mut i: usize = 0;
    while i < items.len()
        invariant
            i <= items.len(),
            model::node_property_items(
                *resolver,
                active@,
                result@,
                *property,
                items@,
                inside_reverse,
                options,
                i as int,
            ) == model::node_property_items(
                *resolver,
                active@,
                old(result)@,
                *property,
                items@,
                inside_reverse,
                options,
                0,
            ),
        decreases items.len() - i,
    {
        proof {
            assert(decreases_to!(items => items[i as int]));
        }
        match node_property_item(
            resolver,
            result,
            property,
            &items[i],
            active,
            inside_reverse,
            options,
        ) {
            Ok(()) => {},
            Err(e) => {
                return Err(e);
            },
        }
        i += 1;
    }
    Ok(())
}

} // verus!
