//! Compaction of node objects.

use vstd::prelude::*;
use crate::compaction::iri::{alias_for, compact_identifier, term_for};
use crate::compaction::model::{
    compact_node,
    compact_types,
    node_entries,
    reference_form,
    reverse_compacted,
    reverse_split,
    with_id,
    with_node_index,
    with_properties,
    with_reverse,
    with_types,
};
use crate::compaction::order::{keys_of, walk, walk_order};
use crate::compaction::property::{compact_node_property, compact_property};
use crate::compaction::value::container_of;
use crate::compaction::{add_value, json_view, object_view, Options};
use crate::context::inverse::Inversible;
use crate::context::Resolver;
use crate::error::Error;
use crate::json;
use crate::json::{entries_view, values_view, Object, ObjectView};
use crate::object::node::Node;
use crate::object::{Indexed, Object as DocObject};
use crate::syntax::{Keyword, ProcessingMode, Term, Type};
use crate::text::{opt_chars, str_eq};

verus! {

fn start_with_id(inner: &Inversible, id: &Option<String>, options: Options) -> (r: Result<Object, Error>)
    ensures
        match r {
            Ok(o) => with_id(inner@, *id, options) == Ok::<ObjectView, Error>(o@),
            Err(e) => with_id(inner@, *id, options) == Err::<ObjectView, Error>(e),
        },
{
    let mut result = Object::new();
    match id {
        Some(id) => match compact_identifier(inner.context(), id.as_str(), options) {
            Ok(s) => {
                result.insert(alias_for(inner, Keyword::Id, options), json::Value::String(s));
                Ok(result)
            },
            Err(e) => Err(e),
        },
        None => Ok(result),
    }
}

fn add_types(
    result: &mut Object,
    inner: &Inversible,
    type_scoped: &Inversible,
    types: &Vec<String>,
    options: Options,
)
    ensures
        final(result)@ == with_types(old(result)@, inner@, type_scoped@, types@, options),
{
    if types.len() == 0 {
        return ;
    }
    let ghost all = compact_types(type_scoped@, types@, options);
    let value = if types.len() == 1 {
        json::Value::String(term_for(type_scoped, &Term::Ref(types[0].clone()), None, false, options))
    } else {
        let mut compacted: Vec<json::Value> = Vec::new();
        let mut i: usize = 0;
        while i < types.len()
            invariant
                i <= types.len(),
                compacted@.len() == i,
                all == compact_types(type_scoped@, types@, options),
                forall|j: int| 0 <= j < i ==> (#[trigger] compacted@[j])@ == all[j],
            decreases types.len() - i,
        {
            let t = term_for(type_scoped, &Term::Ref(types[i].clone()), None, false, options);
            compacted.push(json::Value::String(t));
            i += 1;
        }
        assert(values_view(compacted@) =~= all);
        json::Value::Array(compacted)
    };
    let key = alias_for(inner, Keyword::Type, options);
    let modern = match options.processing_mode {
        ProcessingMode::JsonLd1_1 => true,
        ProcessingMode::JsonLd1_0 => false,
    };
    let as_array = (modern && container_of(inner.context().get(key.as_str())).set)
        || !options.compact_arrays;
    add_value(result, key.as_str(), value, as_array);
}

/// Adds the `@index` entry of a node or of a list, unless the container
/// of the active property holds it by its index.
pub fn add_node_index(
    inner: &Inversible,
    result: &mut Object,
    index: Option<&str>,
    active_property: Option<&str>,
    options: Options,
)
    ensures
        final(result)@ == with_node_index(
            inner@,
            old(result)@,
            opt_chars(index),
            opt_chars(active_property),
            options,
        ),
{
    match index {
        Some(i) => {
            let def = match active_property {
                Some(p) => inner.context().get(p),
                None => None,
            };
            if !container_of(def).index {
                result.insert(alias_for(inner, Keyword::Index, options), json::Value::string(i));
            }
        },
        None => {},
    }
}

fn split_reverse(inner: &Inversible, result: &mut Object, compacted: Object, options: Options) -> (r:
    Result<Object, Error>)
    ensures
        match r {
            Ok(map) => reverse_split(
                inner@,
                old(result)@,
                compacted@,
                Seq::empty(),
                options,
                0,
            ) == Ok::<(ObjectView, ObjectView), Error>((final(result)@, map@)),
            Err(e) => reverse_split(inner@, old(result)@, compacted@, Seq::empty(), options, 0)
                == Err::<(ObjectView, ObjectView), Error>(e),
        },
{
    let ghost cv = compacted@;
    let ghost all = compacted.entries@;
    let mut rest = json::reversed(compacted.entries);
    let mut map = Object::new();
    let ghost mut i: int = 0;
    while rest.len() > 0
        invariant
            0 <= i,
            cv == compacted@,
            cv == entries_view(all),
            i + rest@.len() == all.len(),
            forall|j: int| 0 <= j < rest@.len() ==> rest@[j] == all[all.len() - 1 - j],
            reverse_split(inner@, result@, cv, map@, options, i) == reverse_split(
                inner@,
                old(result)@,
                cv,
                Seq::empty(),
                options,
                0,
            ),
        decreases rest.len(),
    {
        match rest.pop() {
            Some(entry) => {
                let (property, value) = entry;
                proof {
                    assert(entry == all[i]);
                    assert(cv[i] == (property@, value@));
                }
                let reverse_container = match inner.context().get(property.as_str()) {
                    Some(d) => if d.reverse_property {
                        Some(d.container)
                    } else {
                        None
                    },
                    None => None,
                };
                proof {
                    assert(cv.len() == all.len());
                }
                match reverse_container {
                    Some(c) => {
                        if c.graph || c.id || c.language || c.list || c.typ {
                            return Err(Error::InvalidReversePropertyMap);
                        }
                        add_value(result, property.as_str(), value, c.set || !options.compact_arrays);
                    },
                    None => {
                        map.insert(property, value);
                    },
                }
                proof {
                    i = i + 1;
                }
            },
            None => {},
        }
    }
    Ok(map)
}

fn add_reverse<'a>(
    resolver: &'a Resolver,
    inner: &Inversible<'a>,
    result: &mut Object,
    entries: &Vec<(String, Vec<Indexed<Node>>)>,
    options: Options,
) -> (r: Result<(), Error>)
    ensures
        object_view(r, *final(result)) == with_reverse(
            *resolver,
            inner@,
            old(result)@,
            entries@,
            options,
        ),
    decreases entries, 1nat, 0nat,
{
    if entries.len() == 0 {
        return Ok(());
    }
    let order = walk(entries, options.ordered);
    let ghost ord = walk_order(keys_of(entries@), options.ordered);
    let mut compacted = Object::new();
    let mut i: usize = 0;
    while i < order.len()
        invariant
            i <= order.len(),
            *result == *old(result),
            entries@.len() > 0,
            ord == walk_order(keys_of(entries@), options.ordered),
            order@.len() == ord.len(),
            forall|j: int| 0 <= j < order@.len() ==> (#[trigger] order@[j]) as int == ord[j],
            forall|j: int| 0 <= j < order@.len() ==> (#[trigger] order@[j]) < entries@.len(),
            reverse_compacted(*resolver, inner@, compacted@, entries@, ord, options, i as int)
                == reverse_compacted(*resolver, inner@, Seq::empty(), entries@, ord, options, 0),
        decreases order.len() - i,
    {
        let k = order[i];
        let key = &entries[k].0;
        if Keyword::parse(key.as_str()).is_some() {
            return Err(Error::UnexpectedObjectShape);
        }
        proof {
            assert(decreases_to!(entries => entries[k as int]));
            assert(decreases_to!(entries[k as int] => entries[k as int].1));
        }
        match compact_node_property(
            resolver,
            &mut compacted,
            &Term::Ref(key.clone()),
            &entries[k].1,
            inner,
            true,
            options,
        ) {
            Ok(()) => {},
            Err(e) => {
                return Err(e);
            },
        }
        i += 1;
    }
    match split_reverse(inner, result, compacted, options) {
        Ok(map) => {
            if map.len() > 0 {
                result.insert(alias_for(inner, Keyword::Reverse, options), json::Value::Object(map));
            }
            Ok(())
        },
        Err(e) => Err(e),
    }
}

fn add_properties<'a>(
    resolver: &'a Resolver,
    inner: &Inversible<'a>,
    result: &mut Object,
    entries: &Vec<(String, Vec<Indexed<DocObject>>)>,
    inside_reverse: bool,
    options: Options,
) -> (r: Result<(), Error>)
    ensures
        object_view(r, *final(result)) == with_properties(
            *resolver,
            inner@,
            old(result)@,
            entries@,
            walk_order(keys_of(entries@), options.ordered),
            inside_reverse,
            options,
            0,
        ),
    decreases entries, 1nat, 0nat,
{
    let order = walk(entries, options.ordered);
    let ghost ord = walk_order(keys_of(entries@), options.ordered);
    let mut i: usize = 0;
    while i < order.len()
        invariant
            i <= order.len(),
            ord == walk_order(keys_of(entries@), options.ordered),
            order@.len() == ord.len(),
            forall|j: int| 0 <= j < order@.len() ==> (#[trigger] order@[j]) as int == ord[j],
            forall|j: int| 0 <= j < order@.len() ==> (#[trigger] order@[j]) < entries@.len(),
            with_properties(
                *resolver,
                inner@,
                result@,
                entries@,
                ord,
                inside_reverse,
                options,
                i as int,
            ) == with_properties(
                *resolver,
                inner@,
                old(result)@,
                entries@,
                ord,
                inside_reverse,
                options,
                0,
            ),
        decreases order.len() - i,
    {
        let k = order[i];
        let key = &entries[k].0;
        if Keyword::parse(key.as_str()).is_some() {
            return Err(Error::UnexpectedObjectShape);
        }
        proof {
            assert(decreases_to!(entries => entries[k as int]));
            assert(decreases_to!(entries[k as int] => entries[k as int].1));
        }
        match compact_property(
            resolver,
            result,
            &Term::Ref(key.clone()),
            &entries[k].1,
            inner,
            inside_reverse,
            options,
        ) {
            Ok(()) => {},
            Err(e) => {
                return Err(e);
            },
        }
        i += 1;
    }
    Ok(())
}

fn compact_node_entries<'a>(
    resolver: &'a Resolver,
    node: &Node,
    index: Option<&str>,
    inner: &Inversible<'a>,
    type_scoped: &Inversible<'a>,
    active_property: Option<&str>,
    options: Options,
) -> (r: Result<Object, Error>)
    ensures
        match r {
            Ok(o) => node_entries(
                *resolver,
                inner@,
                type_scoped@,
                opt_chars(active_property),
                *node,
                opt_chars(index),
                options,
            ) == Ok::<ObjectView, Error>(o@),
            Err(e) => node_entries(
                *resolver,
                inner@,
                type_scoped@,
                opt_chars(active_property),
                *node,
                opt_chars(index),
                options,
            ) == Err::<ObjectView, Error>(e),
        },
    decreases node, 0nat, 0nat,
{
    let inside_reverse = match active_property {
        Some(p) => str_eq(p, "@reverse"),
        None => false,
    };
    let mut result = match start_with_id(inner, &node.id, options) {
        Ok(o) => o,
        Err(e) => {
            return Err(e);
        },
    };
    add_types(&mut result, inner, type_scoped, &node.types, options);
    match add_reverse(resolver, inner, &mut result, &node.reverse_properties, options) {
        Ok(()) => {},
        Err(e) => {
            return Err(e);
        },
    }
    add_node_index(inner, &mut result, index, active_property, options);
    match &node.graph {
        Some(g) => {
            match compact_property(
                resolver,
                &mut result,
                &Term::Keyword(Keyword::Graph),
                g,
                inner,
                false,
                options,
            ) {
                Ok(()) => {},
                Err(e) => {
                    return Err(e);
                },
            }
        },
        None => {},
    }
    match add_properties(resolver, inner, &mut result, &node.properties, inside_reverse, options) {
        Ok(()) => {},
        Err(e) => {
            return Err(e);
        },
    }
    match &node.included {
        Some(inc) => {
            match compact_node_property(
                resolver,
                &mut result,
                &Term::Keyword(Keyword::Included),
                inc,
                inner,
                false,
                options,
            ) {
                Ok(()) => {},
                Err(e) => {
                    return Err(e);
                },
            }
        },
        None => {},
    }
    Ok(result)
}

fn compact_reference(
    inner: &Inversible,
    node: &Node,
    index: Option<&str>,
    active_property: Option<&str>,
    options: Options,
) -> (r: Option<Result<json::Value, Error>>)
    ensures
        match r {
            Some(x) => reference_form(
                inner@,
                *node,
                opt_chars(index),
                opt_chars(active_property),
                options,
            ) == Some(json_view(x)),
            None => reference_form(
                inner@,
                *node,
                opt_chars(index),
                opt_chars(active_property),
                options,
            ) is None,
        },
{
    let def = match active_property {
        Some(p) => inner.context().get(p),
        None => None,
    };
    match &node.id {
        Some(id) => if node.is_empty() && (index.is_none() || container_of(def).index) {
            let typ = match def {
                Some(d) => d.typ.as_ref(),
                None => None,
            };
            match typ {
                Some(Type::Id) => Some(
                    match compact_identifier(inner.context(), id.as_str(), options) {
                        Ok(s) => Ok(json::Value::String(s)),
                        Err(e) => Err(e),
                    },
                ),
                Some(Type::Vocab) => Some(
                    Ok(
                        json::Value::String(
                            term_for(inner, &Term::Ref(id.clone()), None, false, options),
                        ),
                    ),
                ),
                _ => None,
            }
        } else {
            None
        },
        None => None,
    }
}

/// Compacts a node object with its index under the active property.
pub fn compact_indexed_node_with<'a>(
    resolver: &'a Resolver,
    node: &Node,
    index: Option<&str>,
    active: &Inversible<'a>,
    type_scoped: &Inversible<'a>,
    active_property: Option<&str>,
    options: Options,
) -> (r: Result<json::Value, Error>)
    ensures
        json_view(r) == compact_node(
            *resolver,
            active@,
            type_scoped@,
            opt_chars(active_property),
            *node,
            opt_chars(index),
            options,
        ),
    decreases node, 1nat, 0nat,
{
    let reference = node.is_empty() && node.id.is_some();
    // Unless the node is a mere reference, the scope of a term-scoped
    // context ends with it.
    let restored: Option<Inversible<'a>> = if reference {
        None
    } else {
        match active.context().previous_context() {
            Some(p) => Some(Inversible::new(p)),
            None => None,
        }
    };
    let outer: &Inversible<'a> = match &restored {
        Some(r) => r,
        None => active,
    };
    // The definition of the active property is looked up in the
    // type-scoped context.
    let local = match active_property {
        Some(p) => match type_scoped.context().get(p) {
            Some(d) => d.context,
            None => None,
        },
        None => None,
    };
    let scoped: Option<Inversible<'a>> = match local {
        Some(l) => match resolver.process_local(l) {
            Ok(c) => Some(Inversible::new(c)),
            Err(e) => {
                return Err(e);
            },
        },
        None => None,
    };
    let inner: &Inversible<'a> = match &scoped {
        Some(s) => s,
        None => outer,
    };
    match compact_reference(inner, node, index, active_property, options) {
        Some(r) => r,
        None => match compact_node_entries(
            resolver,
            node,
            index,
            inner,
            type_scoped,
            active_property,
            options,
        ) {
            Ok(o) => Ok(json::Value::Object(o)),
            Err(e) => Err(e),
        },
    }
}

} // verus!
