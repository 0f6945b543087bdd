//! Compaction: an expanded document folded back under a context.

pub mod iri;
pub mod order;
pub mod place;
pub mod model;
pub mod keys;
pub mod containers;
pub mod ranking;
pub mod property;
pub mod node;
pub mod value;

use vstd::prelude::*;
use crate::compaction::model::{
    collected,
    compact_collection,
    compact_item,
    compact_list,
    folded,
    has_list,
};
use crate::compaction::node::compact_indexed_node_with;
use crate::compaction::property::compact_property;
use crate::compaction::value::{compact_indexed_value_with, container_of};
use crate::context::inverse::Inversible;
use crate::context::{ProcessingOptions, Resolver};
use crate::error::Error;
use crate::json;
use crate::json::{get, insert, values_view, JsonView, Object, ObjectView};
use crate::object::value::{literal_json, literal_value, Value};
use crate::object::{Indexed, Object as DocObject};
use crate::syntax::{Keyword, ProcessingMode, Term};
use crate::text::{opt_chars, str_eq};

verus! {

/// How a document is compacted.
#[derive(Clone, Copy, PartialEq, Eq, Structural, Debug)]
pub struct Options {
    /// The processing mode.
    pub processing_mode: ProcessingMode,
    /// Whether IRIs may be shortened against the base IRI.
    pub compact_to_relative: bool,
    /// Whether an array of one item is replaced by the item where that is
    /// permitted.
    pub compact_arrays: bool,
    /// Whether the properties of a node are walked in ascending order of
    /// their IRIs.
    pub ordered: bool,
}

impl Default for Options {
    fn default() -> (r: Options)
        ensures
            r == (Options {
                processing_mode: ProcessingMode::JsonLd1_1,
                compact_to_relative: true,
                compact_arrays: true,
                ordered: false,
            }),
    {
        Options {
            processing_mode: ProcessingMode::JsonLd1_1,
            compact_to_relative: true,
            compact_arrays: true,
            ordered: false,
        }
    }
}

/// `m` made ready to take one more value under `key`: a value that is no
/// array is wrapped in one, and where the key is new and an array is asked
/// for, an empty one is put there.
pub open spec fn prepared(m: ObjectView, key: Seq<char>, as_array: bool) -> ObjectView {
    match get(m, key) {
        Some(JsonView::Array(_)) => m,
        Some(v) => insert(m, key, JsonView::Array(seq![v])),
        None => if as_array {
            insert(m, key, JsonView::Array(Seq::empty()))
        } else {
            m
        },
    }
}

/// `m` with `v` put behind the items of the array under `key`, or set as
/// the value of `key` where no array is there.
pub open spec fn appended(m: ObjectView, key: Seq<char>, v: JsonView) -> ObjectView {
    match get(m, key) {
        Some(JsonView::Array(a)) => insert(m, key, JsonView::Array(a.push(v))),
        _ => insert(m, key, v),
    }
}

/// `m` with `value` added under `key`. A value that is an array is added
/// item by item. The first value of a key stands alone unless `as_array`
/// asks for an array; with the second value the entry becomes an array.
pub open spec fn added(m: ObjectView, key: Seq<char>, value: JsonView, as_array: bool) -> ObjectView
    decreases value, 0nat,
{
    let m1 = prepared(m, key, as_array);
    match value {
        JsonView::Array(items) => added_items(m1, key, items, 0),
        v => appended(m1, key, v),
    }
}

/// `m` with the items of `items` from `i` on added under `key`, one after
/// the other.
pub open spec fn added_items(m: ObjectView, key: Seq<char>, items: Seq<JsonView>, i: int) -> ObjectView
    decreases items, items.len() - i,
{
    if i < 0 || i >= items.len() {
        m
    } else {
        added_items(added(m, key, items[i], false), key, items, i + 1)
    }
}

fn prepare(map: &mut Object, key: &str, as_array: bool)
    ensures
        final(map)@ == prepared(old(map)@, key@, as_array),
{
    match map.index_of(key) {
        Some(i) => {
            if !map.entries[i].1.is_array() {
                let v = map.replace_at(i, json::Value::Null);
                let wrapped = json::Value::singleton(v);
                let _ = map.replace_at(i, wrapped);
                assert(map@ =~= prepared(old(map)@, key@, as_array));
            }
        },
        None => {
            if as_array {
                map.insert(key.to_owned(), json::Value::empty_array());
            }
        },
    }
}

fn append(map: &mut Object, key: &str, v: json::Value)
    ensures
        final(map)@ == appended(old(map)@, key@, v@),
{
    match map.index_of(key) {
        Some(i) => {
            if map.entries[i].1.is_array() {
                let before = map.replace_at(i, json::Value::Null);
                match before {
                    json::Value::Array(mut items) => {
                        let ghost a = values_view(items@);
                        items.push(v);
                        assert(values_view(items@) =~= a.push(v@));
                        let _ = map.replace_at(i, json::Value::Array(items));
                        assert(map@ =~= appended(old(map)@, key@, v@));
                    },
                    _ => {},
                }
            } else {
                let _ = map.replace_at(i, v);
                assert(map@ =~= appended(old(map)@, key@, v@));
            }
        },
        None => {
            map.insert(key.to_owned(), v);
        },
    }
}

/// Adds `value` to the entry of `key`. A value that is an array is added
/// item by item. The first value of a key stands alone unless `as_array`
/// asks for an array; with the second value the entry becomes an array.
pub fn add_value(map: &mut Object, key: &str, value: json::Value, as_array: bool)
    ensures
        final(map)@ == added(old(map)@, key@, value@, as_array),
    decreases value,
{
    prepare(map, key, as_array);
    let ghost m1 = map@;
    let ghost whole = value;
    match value {
        json::Value::Array(items) => {
            let ghost all = items@;
            let ghost views = values_view(all);
            let mut rest = json::reversed(items);
            let ghost mut i: int = 0;
            while rest.len() > 0
                invariant
                    0 <= i,
                    whole is Array,
                    whole->Array_0@ == all,
                    views == values_view(all),
                    i + rest@.len() == all.len(),
                    whole == value,
                    forall|j: int| 0 <= j < rest@.len() ==> rest@[j] == all[all.len() - 1 - j],
                    added_items(map@, key@, views, i) == added_items(m1, key@, views, 0),
                decreases rest.len(),
            {
                match rest.pop() {
                    Some(v) => {
                        proof {
                            assert(v == all[i]);
                            assert(views[i] == v@);
                            assert(decreases_to!(whole => whole->Array_0));
                            assert(decreases_to!(whole->Array_0 => whole->Array_0[i]));
                            assert(whole->Array_0[i] == v);
                        }
                        add_value(map, key, v, false);
                        proof {
                            i = i + 1;
                        }
                    },
                    None => {},
                }
            }
        },
        v => {
            append(map, key, v);
        },
    }
}

/// The `@value` entry of a value object.
pub open spec fn value_json(value: Value) -> JsonView {
    match value {
        Value::Literal(lit, _) => literal_json(lit),
        Value::LangString(s) => JsonView::String(s.data@),
        Value::Json(json) => json@,
    }
}


/// Get the `@value` entry of a value object.
pub fn value_value(value: &Value) -> (r: json::Value)
    ensures
        r@ == value_json(*value),
{
    match value {
        Value::Literal(lit, _ty) => literal_value(lit),
        Value::LangString(s) => json::Value::string(s.as_str()),
        Value::Json(json) => json.clone(),
    }
}


/// The outcome of a compaction, over the view of the value it gave.
pub open spec fn json_view(r: Result<json::Value, Error>) -> Result<JsonView, Error> {
    match r {
        Ok(v) => Ok(v@),
        Err(e) => Err(e),
    }
}

/// The outcome of a step that fills an object, over the view of the
/// object as the step left it.
pub open spec fn object_view(r: Result<(), Error>, o: Object) -> Result<ObjectView, Error> {
    match r {
        Ok(()) => Ok(o@),
        Err(e) => Err(e),
    }
}

/// Whether a list object stands among the items.
pub fn contains_list(items: &Vec<Indexed<DocObject>>) -> (r: bool)
    ensures
        r == has_list(items@),
{
    let mut i: usize = 0;
    while i < items.len()
        invariant
            i <= items.len(),
            forall|j: int| 0 <= j < i ==> !((#[trigger] items@[j]).value is List),
        decreases items.len() - i,
    {
        if items[i].value.is_list() {
            return true;
        }
        i += 1;
    }
    false
}

fn fold_items(
    active: &Inversible,
    active_property: Option<&str>,
    items: Vec<json::Value>,
    options: Options,
) -> (r: json::Value)
    ensures
        r@ == folded(active@, opt_chars(active_property), values_view(items@), options),
{
    let c = container_of(
        match active_property {
            Some(p) => active.context().get(p),
            None => None,
        },
    );
    let named = match active_property {
        Some(p) => str_eq(p, "@graph") || str_eq(p, "@set"),
        None => false,
    };
    let mut items = items;
    if items.len() != 1 || !options.compact_arrays || named || c.list || c.set {
        json::Value::Array(items)
    } else {
        let ghost first = items@[0];
        assert(values_view(items@)[0] == first@);
        match items.pop() {
            Some(v) => v,
            None => json::Value::Null,
        }
    }
}

/// Compacts a set of objects under the active property: the array of the
/// compacted items, or the one item where it may stand alone.
pub fn compact_collection_with<'a>(
    resolver: &'a Resolver,
    items: &Vec<Indexed<DocObject>>,
    active: &Inversible<'a>,
    type_scoped: &Inversible<'a>,
    active_property: Option<&str>,
    options: Options,
) -> (r: Result<json::Value, Error>)
    ensures
        json_view(r) == compact_collection(
            *resolver,
            active@,
            type_scoped@,
            opt_chars(active_property),
            items@,
            options,
        ),
    decreases items, 1nat, 0nat,
{
    let mut result: Vec<json::Value> = Vec::new();
    assert(values_view(result@) =~= Seq::<JsonView>::empty());
    let mut i: usize = 0;
    while i < items.len()
        invariant
            i <= items.len(),
            collected(
                *resolver,
                active@,
                type_scoped@,
                opt_chars(active_property),
                items@,
                options,
                i as int,
                values_view(result@),
            ) == collected(
                *resolver,
                active@,
                type_scoped@,
                opt_chars(active_property),
                items@,
                options,
                0,
                Seq::empty(),
            ),
        decreases items.len() - i,
    {
        proof {
            assert(decreases_to!(items => items[i as int]));
        }
        match compact_indexed_with(resolver, &items[i], active, type_scoped, active_property, options) {
            Ok(v) => {
                if !v.is_null() {
                    let ghost before = values_view(result@);
                    result.push(v);
                    assert(values_view(result@) =~= before.push(v@));
                }
            },
            Err(e) => {
                return Err(e);
            },
        }
        i += 1;
    }
    Ok(fold_items(active, active_property, result, options))
}

/// Compacts a list object with its index under the active property.
pub fn compact_list_with<'a>(
    resolver: &'a Resolver,
    list: &Vec<Indexed<DocObject>>,
    index: Option<&str>,
    active: &Inversible<'a>,
    type_scoped: &Inversible<'a>,
    active_property: Option<&str>,
    options: Options,
) -> (r: Result<json::Value, Error>)
    ensures
        json_view(r) == compact_list(
            *resolver,
            active@,
            type_scoped@,
            opt_chars(active_property),
            *list,
            opt_chars(index),
            options,
        ),
    decreases list, 2nat, 0nat,
{
    if contains_list(list) {
        return Err(Error::CompactionToListOfLists);
    }
    // The scope of a term-scoped context ends here.
    let restored: Option<Inversible<'a>> = match active.context().previous_context() {
        Some(p) => Some(Inversible::new(p)),
        None => None,
    };
    let outer: &Inversible<'a> = match &restored {
        Some(r) => r,
        None => active,
    };
    // The definition of the active property is looked up in the
    // type-scoped context.
    let def = match active_property {
        Some(p) => type_scoped.context().get(p),
        None => None,
    };
    let local = match def {
        Some(d) => d.context,
        None => None,
    };
    let scoped: Option<Inversible<'a>> = match local {
        Some(l) => match resolver.process_local(l) {
            Ok(c) => Some(Inversible::new(c)),
            Err(e) => {
                return Err(e);
            },
        },
        None => None,
    };
    let inner: &Inversible<'a> = match &scoped {
        Some(s) => s,
        None => outer,
    };
    if container_of(def).list {
        compact_collection_with(resolver, list, inner, inner, active_property, options)
    } else {
        let mut result = Object::new();
        match compact_property(
            resolver,
            &mut result,
            &Term::Keyword(Keyword::List),
            list,
            inner,
            false,
            options,
        ) {
            Ok(()) => {},
            Err(e) => {
                return Err(e);
            },
        }
        crate::compaction::node::add_node_index(inner, &mut result, index, active_property, options);
        Ok(json::Value::Object(result))
    }
}

/// Compacts an indexed object under the active property.
pub fn compact_indexed_with<'a>(
    resolver: &'a Resolver,
    item: &Indexed<DocObject>,
    active: &Inversible<'a>,
    type_scoped: &Inversible<'a>,
    active_property: Option<&str>,
    options: Options,
) -> (r: Result<json::Value, Error>)
    ensures
        json_view(r) == compact_item(
            *resolver,
            active@,
            type_scoped@,
            opt_chars(active_property),
            *item,
            options,
        ),
    decreases item, 0nat, 0nat,
{
    match &item.value {
        DocObject::Value(value) => compact_indexed_value_with(
            resolver,
            value,
            item.index(),
            active,
            active_property,
            options,
        ),
        DocObject::Node(node) => compact_indexed_node_with(
            resolver,
            node,
            item.index(),
            active,
            type_scoped,
            active_property,
            options,
        ),
        DocObject::List(list) => compact_list_with(
            resolver,
            list,
            item.index(),
            active,
            type_scoped,
            active_property,
            options,
        ),
    }
}


/// Adding under a key leaves the other keys as they are.
pub proof fn lemma_added_other(
    m: ObjectView,
    key: Seq<char>,
    value: JsonView,
    as_array: bool,
    other: Seq<char>,
)
    requires
        other != key,
    ensures
        get(added(m, key, value, as_array), other) == get(m, other),
    decreases value, 0nat,
{
    let m1 = prepared(m, key, as_array);
    assert(get(m1, other) == get(m, other)) by {
        match get(m, key) {
            Some(JsonView::Array(_)) => {},
            Some(v) => {
                json::lemma_insert_get(m, key, JsonView::Array(seq![v]), other);
            },
            None => {
                json::lemma_insert_get(m, key, JsonView::Array(Seq::empty()), other);
            },
        }
    }
    match value {
        JsonView::Array(items) => {
            lemma_added_items_other(m1, key, items, 0, other);
        },
        v => {
            match get(m1, key) {
                Some(JsonView::Array(a)) => {
                    json::lemma_insert_get(m1, key, JsonView::Array(a.push(v)), other);
                },
                _ => {
                    json::lemma_insert_get(m1, key, v, other);
                },
            }
        },
    }
}

/// Adding items under a key leaves the other keys as they are.
pub proof fn lemma_added_items_other(
    m: ObjectView,
    key: Seq<char>,
    items: Seq<JsonView>,
    i: int,
    other: Seq<char>,
)
    requires
        other != key,
    ensures
        get(added_items(m, key, items, i), other) == get(m, other),
    decreases items, items.len() - i,
{
    if 0 <= i < items.len() {
        lemma_added_other(m, key, items[i], false, other);
        lemma_added_items_other(added(m, key, items[i], false), key, items, i + 1, other);
    }
}

/// Once an array stands under a key, adding under the key keeps an array
/// there.
pub proof fn lemma_added_keeps_array(m: ObjectView, key: Seq<char>, value: JsonView, as_array: bool)
    requires
        get(m, key) matches Some(JsonView::Array(_)),
    ensures
        get(added(m, key, value, as_array), key) matches Some(JsonView::Array(_)),
    decreases value, 0nat,
{
    let m1 = prepared(m, key, as_array);
    assert(m1 == m);
    match value {
        JsonView::Array(items) => {
            lemma_added_items_keep_array(m1, key, items, 0);
        },
        v => {
            match get(m1, key) {
                Some(JsonView::Array(a)) => {
                    json::lemma_insert_get(m1, key, JsonView::Array(a.push(v)), key);
                },
                _ => {},
            }
        },
    }
}

/// Once an array stands under a key, adding items under the key keeps an
/// array there.
pub proof fn lemma_added_items_keep_array(m: ObjectView, key: Seq<char>, items: Seq<JsonView>, i: int)
    requires
        get(m, key) matches Some(JsonView::Array(_)),
    ensures
        get(added_items(m, key, items, i), key) matches Some(JsonView::Array(_)),
    decreases items, items.len() - i,
{
    if 0 <= i < items.len() {
        lemma_added_keeps_array(m, key, items[i], false);
        lemma_added_items_keep_array(added(m, key, items[i], false), key, items, i + 1);
    }
}

/// A value that is added as an array stands in an array: after
/// `added(.., true)` the key holds an array, whatever it held before.
pub proof fn lemma_added_as_array(m: ObjectView, key: Seq<char>, value: JsonView)
    ensures
        get(added(m, key, value, true), key) matches Some(JsonView::Array(_)),
{
    let m1 = prepared(m, key, true);
    assert(get(m1, key) matches Some(JsonView::Array(_))) by {
        match get(m, key) {
            Some(JsonView::Array(_)) => {},
            Some(v) => {
                json::lemma_insert_get(m, key, JsonView::Array(seq![v]), key);
            },
            None => {
                json::lemma_insert_get(m, key, JsonView::Array(Seq::empty()), key);
            },
        }
    }
    match value {
        JsonView::Array(items) => {
            lemma_added_items_keep_array(m1, key, items, 0);
        },
        v => {
            match get(m1, key) {
                Some(JsonView::Array(a)) => {
                    json::lemma_insert_get(m1, key, JsonView::Array(a.push(v)), key);
                },
                _ => {},
            }
        },
    }
}

/// After a value was added under a key, the key is there.
pub proof fn lemma_added_present(m: ObjectView, key: Seq<char>, value: JsonView, as_array: bool)
    requires
        !(value matches JsonView::Array(_)),
    ensures
        get(added(m, key, value, as_array), key) is Some,
{
    let m1 = prepared(m, key, as_array);
    match get(m1, key) {
        Some(JsonView::Array(a)) => {
            json::lemma_insert_get(m1, key, JsonView::Array(a.push(value)), key);
        },
        _ => {
            json::lemma_insert_get(m1, key, value, key);
        },
    }
}

/// Array folding. Where a set holds one object, and that object does not
/// compact to null, the set compacts to the compacted object alone exactly
/// when arrays are folded, the active property is neither `@graph` nor
/// `@set`, and its container holds neither `@list` nor `@set`; otherwise to
/// the array of it.
pub proof fn lemma_single_item_folding(
    resolver: Resolver,
    active: crate::context::Context,
    type_scoped: crate::context::Context,
    active_property: Option<Seq<char>>,
    items: Seq<Indexed<DocObject>>,
    options: Options,
    v: JsonView,
)
    requires
        items.len() == 1,
        compact_item(resolver, active, type_scoped, active_property, items[0], options) == Ok::<
            JsonView,
            Error,
        >(v),
        !(v is Null),
    ensures
        compact_collection(resolver, active, type_scoped, active_property, items, options) == Ok::<
            JsonView,
            Error,
        >(
            if options.compact_arrays && active_property != Some("@graph"@) && active_property
                != Some("@set"@) && !crate::compaction::value::property_container(
                crate::compaction::value::property_definition(active, active_property),
            ).list && !crate::compaction::value::property_container(
                crate::compaction::value::property_definition(active, active_property),
            ).set {
                v
            } else {
                JsonView::Array(seq![v])
            },
        ),
{
    reveal_with_fuel(collected, 3);
    assert(Seq::<JsonView>::empty().push(v) =~= seq![v]);
}


impl From<Options> for ProcessingOptions {
    fn from(options: Options) -> (r: ProcessingOptions) {
        ProcessingOptions {
            processing_mode: options.processing_mode,
            override_protected: false,
            propagate: true,
        }
    }
}

impl vstd::std_specs::convert::FromSpecImpl<Options> for ProcessingOptions {
    open spec fn obeys_from_spec() -> bool {
        true
    }

    open spec fn from_spec(options: Options) -> ProcessingOptions {
        ProcessingOptions {
            processing_mode: options.processing_mode,
            override_protected: false,
            propagate: true,
        }
    }
}

impl From<crate::expansion::Options> for Options {
    fn from(options: crate::expansion::Options) -> (r: Options) {
        Options {
            processing_mode: options.processing_mode,
            compact_to_relative: true,
            compact_arrays: true,
            ordered: options.ordered,
        }
    }
}

impl vstd::std_specs::convert::FromSpecImpl<crate::expansion::Options> for Options {
    open spec fn obeys_from_spec() -> bool {
        true
    }

    open spec fn from_spec(options: crate::expansion::Options) -> Options {
        Options {
            processing_mode: options.processing_mode,
            compact_to_relative: true,
            compact_arrays: true,
            ordered: options.ordered,
        }
    }
}


/// What can be compacted under an active context.
pub trait Compact {
    /// The compact form under the active property.
    spec fn compacted(
        &self,
        resolver: Resolver,
        active: crate::context::Context,
        type_scoped: crate::context::Context,
        active_property: Option<Seq<char>>,
        options: Options,
    ) -> Result<JsonView, Error>;

    /// Compacts under the active context, the type-scoped context and the
    /// active property.
    fn compact_with<'a>(
        &self,
        resolver: &'a Resolver,
        active: &Inversible<'a>,
        type_scoped: &Inversible<'a>,
        active_property: Option<&str>,
        options: Options,
    ) -> (r: Result<json::Value, Error>)
        ensures
            json_view(r) == self.compacted(
                *resolver,
                active@,
                type_scoped@,
                opt_chars(active_property),
                options,
            ),
    ;

    /// Compacts under a context, with no active property and the default
    /// options.
    fn compact<'a>(&self, resolver: &'a Resolver, active: &Inversible<'a>) -> (r: Result<
        json::Value,
        Error,
    >)
        ensures
            json_view(r) == self.compacted(
                *resolver,
                active@,
                active@,
                None,
                Options {
                    processing_mode: ProcessingMode::JsonLd1_1,
                    compact_to_relative: true,
                    compact_arrays: true,
                    ordered: false,
                },
            ),
    {
        self.compact_with(resolver, active, active, None, Options::default())
    }
}

impl Compact for Indexed<DocObject> {
    open spec fn compacted(
        &self,
        resolver: Resolver,
        active: crate::context::Context,
        type_scoped: crate::context::Context,
        active_property: Option<Seq<char>>,
        options: Options,
    ) -> Result<JsonView, Error> {
        compact_item(resolver, active, type_scoped, active_property, *self, options)
    }

    fn compact_with<'a>(
        &self,
        resolver: &'a Resolver,
        active: &Inversible<'a>,
        type_scoped: &Inversible<'a>,
        active_property: Option<&str>,
        options: Options,
    ) -> (r: Result<json::Value, Error>) {
        compact_indexed_with(resolver, self, active, type_scoped, active_property, options)
    }
}

impl Compact for Vec<Indexed<DocObject>> {
    open spec fn compacted(
        &self,
        resolver: Resolver,
        active: crate::context::Context,
        type_scoped: crate::context::Context,
        active_property: Option<Seq<char>>,
        options: Options,
    ) -> Result<JsonView, Error> {
        compact_collection(resolver, active, type_scoped, active_property, self@, options)
    }

    fn compact_with<'a>(
        &self,
        resolver: &'a Resolver,
        active: &Inversible<'a>,
        type_scoped: &Inversible<'a>,
        active_property: Option<&str>,
        options: Options,
    ) -> (r: Result<json::Value, Error>) {
        compact_collection_with(resolver, self, active, type_scoped, active_property, options)
    }
}

/// What can be compacted together with an index.
pub trait CompactIndexed {
    /// The compact form with the index under the active property.
    spec fn compacted_indexed(
        &self,
        index: Option<Seq<char>>,
        resolver: Resolver,
        active: crate::context::Context,
        type_scoped: crate::context::Context,
        active_property: Option<Seq<char>>,
        options: Options,
    ) -> Result<JsonView, Error>;

    /// Compacts with the index under the active context, the type-scoped
    /// context and the active property.
    fn compact_indexed_with<'a>(
        &self,
        index: Option<&str>,
        resolver: &'a Resolver,
        active: &Inversible<'a>,
        type_scoped: &Inversible<'a>,
        active_property: Option<&str>,
        options: Options,
    ) -> (r: Result<json::Value, Error>)
        ensures
            json_view(r) == self.compacted_indexed(
                opt_chars(index),
                *resolver,
                active@,
                type_scoped@,
                opt_chars(active_property),
                options,
            ),
    ;
}

impl CompactIndexed for Value {
    open spec fn compacted_indexed(
        &self,
        index: Option<Seq<char>>,
        resolver: Resolver,
        active: crate::context::Context,
        type_scoped: crate::context::Context,
        active_property: Option<Seq<char>>,
        options: Options,
    ) -> Result<JsonView, Error> {
        crate::compaction::value::compact_value(
            resolver,
            active,
            *self,
            index,
            active_property,
            options,
        )
    }

    fn compact_indexed_with<'a>(
        &self,
        index: Option<&str>,
        resolver: &'a Resolver,
        active: &Inversible<'a>,
        type_scoped: &Inversible<'a>,
        active_property: Option<&str>,
        options: Options,
    ) -> (r: Result<json::Value, Error>) {
        compact_indexed_value_with(resolver, self, index, active, active_property, options)
    }
}

impl CompactIndexed for crate::object::node::Node {
    open spec fn compacted_indexed(
        &self,
        index: Option<Seq<char>>,
        resolver: Resolver,
        active: crate::context::Context,
        type_scoped: crate::context::Context,
        active_property: Option<Seq<char>>,
        options: Options,
    ) -> Result<JsonView, Error> {
        crate::compaction::model::compact_node(
            resolver,
            active,
            type_scoped,
            active_property,
            *self,
            index,
            options,
        )
    }

    fn compact_indexed_with<'a>(
        &self,
        index: Option<&str>,
        resolver: &'a Resolver,
        active: &Inversible<'a>,
        type_scoped: &Inversible<'a>,
        active_property: Option<&str>,
        options: Options,
    ) -> (r: Result<json::Value, Error>) {
        compact_indexed_node_with(resolver, self, index, active, type_scoped, active_property, options)
    }
}

} // verus!
