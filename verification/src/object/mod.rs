//! Nodes, lists and values of an expanded document.

pub mod value;
pub mod node;

use vstd::prelude::*;
use crate::json;
use crate::json::{insert, values_view, JsonView, Number, ObjectView};
use crate::syntax::{keyword_text, Keyword};
use crate::lang::LanguageTagBuf;
pub use crate::object::node::Node;
pub use crate::object::value::{Literal, Value};

verus! {

/// A value together with its optional `@index`.
#[derive(Debug, PartialEq, Eq, Hash)]
pub struct Indexed<T> {
    pub value: T,
    pub index: Option<String>,
}

impl<T> Indexed<T> {
    /// Pairs a value with an index.
    pub fn new(value: T, index: Option<String>) -> (r: Indexed<T>)
        ensures
            r.value == value,
            r.index == index,
    {
        Indexed { value, index }
    }

    /// The value.
    pub fn inner(&self) -> (r: &T)
        ensures
            *r == self.value,
    {
        &self.value
    }

    /// The index.
    pub fn index(&self) -> (r: Option<&str>)
        ensures
            match r {
                Some(s) => self.index matches Some(i) && s@ == i@,
                None => self.index is None,
            },
    {
        match &self.index {
            Some(i) => Some(i.as_str()),
            None => None,
        }
    }

    /// The value and the index.
    pub fn into_parts(self) -> (r: (T, Option<String>))
        ensures
            r.0 == self.value,
            r.1 == self.index,
    {
        (self.value, self.index)
    }
}

/// An object of an expanded document: a value, a node, or a list.
#[derive(Debug, PartialEq, Eq, Hash)]
pub enum Object {
    /// Value object.
    Value(Value),
    /// Node object.
    Node(Node),
    /// List object.
    List(Vec<Indexed<Object>>),
}

/// A borrowed look at an object.
#[derive(Clone, Copy)]
pub enum Ref<'a> {
    /// Value object.
    Value(&'a Value),
    /// Node object.
    Node(&'a Node),
    /// List object.
    List(&'a Vec<Indexed<Object>>),
}

/// The result of expanding a document: its top-level objects.
pub type ExpandedDocument = Vec<Indexed<Object>>;

impl Object {
    /// Whether the object is a graph object.
    pub open spec fn spec_is_graph(&self) -> bool {
        self matches Object::Node(n) && n.spec_is_graph()
    }

    /// A borrowed look at the object.
    pub open spec fn spec_as_ref(&self) -> Ref<'_> {
        match self {
            Object::Value(value) => Ref::Value(value),
            Object::Node(node) => Ref::Node(node),
            Object::List(list) => Ref::List(list),
        }
    }

    /// A borrowed look at the object.
    pub fn as_ref(&self) -> (r: Ref<'_>)
        ensures
            r == self.spec_as_ref(),
    {
        match self {
            Object::Value(value) => Ref::Value(value),
            Object::Node(node) => Ref::Node(node),
            Object::List(list) => Ref::List(list),
        }
    }

    /// Identifier of the object, if it is a node object that has one.
    pub fn id(&self) -> (r: Option<&str>)
        ensures
            match r {
                Some(s) => self matches Object::Node(n) && n.id matches Some(i) && s@ == i@,
                None => !(self matches Object::Node(n) && n.id is Some),
            },
    {
        match self {
            Object::Node(n) => n.id(),
            _ => None,
        }
    }

    /// Identifier of the object as an IRI: the identifier of a node object
    /// where it is a well-formed IRI.
    pub fn as_iri(&self) -> (r: Option<&str>)
        ensures
            match r {
                Some(s) => self matches Object::Node(n) && n.spec_as_iri() == Some(s@),
                None => !(self matches Object::Node(n) && n.spec_as_iri() is Some),
            },
    {
        match self {
            Object::Node(node) => node.as_iri(),
            _ => None,
        }
    }

    /// Tests if the object is a value.
    pub fn is_value(&self) -> (r: bool)
        ensures
            r == (self is Value),
    {
        match self {
            Object::Value(_) => true,
            _ => false,
        }
    }

    /// Tests if the object is a node.
    pub fn is_node(&self) -> (r: bool)
        ensures
            r == (self is Node),
    {
        match self {
            Object::Node(_) => true,
            _ => false,
        }
    }

    /// Tests if the object is a graph object: a node with a `@graph` entry
    /// and no entry besides it but `@id`.
    pub fn is_graph(&self) -> (r: bool)
        ensures
            r == self.spec_is_graph(),
    {
        match self {
            Object::Node(n) => n.is_graph(),
            _ => false,
        }
    }

    /// Tests if the object is a list.
    pub fn is_list(&self) -> (r: bool)
        ensures
            r == (self is List),
    {
        match self {
            Object::List(_) => true,
            _ => false,
        }
    }

    /// The object as a string: the string of a value that holds one, the
    /// identifier of a node where it is an IRI.
    pub fn as_str(&self) -> (r: Option<&str>)
        ensures
            match r {
                Some(s) => match self {
                    Object::Value(v) => v.spec_as_str() == Some(s@),
                    Object::Node(n) => n.spec_as_iri() == Some(s@),
                    Object::List(_) => false,
                },
                None => match self {
                    Object::Value(v) => v.spec_as_str() is None,
                    Object::Node(n) => n.spec_as_iri() is None,
                    Object::List(_) => true,
                },
            },
    {
        match self {
            Object::Value(value) => value.as_str(),
            Object::Node(node) => node.as_str(),
            _ => None,
        }
    }

    /// The boolean of a value that holds one.
    pub fn as_bool(&self) -> (r: Option<bool>)
        ensures
            r == (match self {
                Object::Value(v) => v.spec_as_bool(),
                _ => None,
            }),
    {
        match self {
            Object::Value(value) => value.as_bool(),
            _ => None,
        }
    }

    /// The number of a value that holds one.
    pub fn as_number(&self) -> (r: Option<Number>)
        ensures
            r == (match self {
                Object::Value(v) => v.spec_as_number(),
                _ => None,
            }),
    {
        match self {
            Object::Value(value) => value.as_number(),
            _ => None,
        }
    }

    /// The language of a language-tagged value.
    pub fn language(&self) -> (r: Option<&LanguageTagBuf>)
        ensures
            match r {
                Some(t) => self matches Object::Value(v) && v.spec_language() == Some(*t),
                None => !(self matches Object::Value(v) && v.spec_language() is Some),
            },
    {
        match self {
            Object::Value(value) => value.language(),
            _ => None,
        }
    }

    /// The graph of an unnamed graph object; any other object is handed
    /// back as it came.
    pub fn into_unnamed_graph(this: Indexed<Object>) -> (r: Result<
        Vec<Indexed<Object>>,
        Indexed<Object>,
    >)
        ensures
            match r {
                Ok(g) => this.value matches Object::Node(n) && n.spec_is_unnamed_graph()
                    && n.graph == Some(g),
                Err(o) => o == this && !(this.value matches Object::Node(n)
                    && n.spec_is_unnamed_graph()),
            },
    {
        let Indexed { value, index } = this;
        match value {
            Object::Node(n) => match n.into_unnamed_graph() {
                Ok(g) => Ok(g),
                Err(n) => Err(Indexed { value: Object::Node(n), index }),
            },
            obj => Err(Indexed { value: obj, index }),
        }
    }
}


/// An object with its `@index` entry, where it has an index.
pub open spec fn indexed_json(o: ObjectView, index: Option<String>) -> JsonView {
    match index {
        Some(i) => JsonView::Object(insert(o, keyword_text(Keyword::Index), JsonView::String(i@))),
        None => JsonView::Object(o),
    }
}

/// The strings as JSON.
pub open spec fn strings_json(items: Seq<String>) -> Seq<JsonView> {
    Seq::new(items.len(), |i: int| JsonView::String(items[i]@))
}

/// The expanded form of an object: its entries under the keywords.
pub open spec fn object_json(o: Object) -> ObjectView
    decreases o, 0nat, 0nat,
{
    match o {
        Object::Value(v) => v.spec_as_json(),
        Object::Node(n) => node_json(n),
        Object::List(items) => insert(
            Seq::empty(),
            keyword_text(Keyword::List),
            JsonView::Array(objects_json(items@, 0, Seq::empty())),
        ),
    }
}

/// The expanded forms of the objects from `i` on, put behind `acc`.
pub open spec fn objects_json(items: Seq<Indexed<Object>>, i: int, acc: Seq<JsonView>) -> Seq<JsonView>
    decreases items, 1nat, items.len() - i,
{
    if i < 0 || i >= items.len() {
        acc
    } else {
        objects_json(
            items,
            i + 1,
            acc.push(indexed_json(object_json(items[i].value), items[i].index)),
        )
    }
}

/// The expanded forms of the nodes from `i` on, put behind `acc`.
pub open spec fn nodes_json(items: Seq<Indexed<Node>>, i: int, acc: Seq<JsonView>) -> Seq<JsonView>
    decreases items, 1nat, items.len() - i,
{
    if i < 0 || i >= items.len() {
        acc
    } else {
        nodes_json(items, i + 1, acc.push(indexed_json(node_json(items[i].value), items[i].index)))
    }
}

/// The reverse properties from `i` on, each with the expanded forms of
/// its nodes, added to `acc`.
pub open spec fn reverse_json(entries: Seq<(String, Vec<Indexed<Node>>)>, i: int, acc: ObjectView) -> ObjectView
    decreases entries, 1nat, entries.len() - i,
{
    if i < 0 || i >= entries.len() {
        acc
    } else {
        reverse_json(
            entries,
            i + 1,
            insert(
                acc,
                entries[i].0@,
                JsonView::Array(nodes_json(entries[i].1@, 0, Seq::empty())),
            ),
        )
    }
}

/// The properties from `i` on, each with the expanded forms of its
/// values, added to `acc`.
pub open spec fn properties_json(
    entries: Seq<(String, Vec<Indexed<Object>>)>,
    i: int,
    acc: ObjectView,
) -> ObjectView
    decreases entries, 1nat, entries.len() - i,
{
    if i < 0 || i >= entries.len() {
        acc
    } else {
        properties_json(
            entries,
            i + 1,
            insert(
                acc,
                entries[i].0@,
                JsonView::Array(objects_json(entries[i].1@, 0, Seq::empty())),
            ),
        )
    }
}

/// The expanded form of a node: `@id`, `@type`, `@graph`, `@included`
/// and `@reverse` as far as the node has them, then its properties.
pub open spec fn node_json(node: Node) -> ObjectView
    decreases node, 0nat, 0nat,
{
    let o = match node.id {
        Some(id) => insert(Seq::empty(), keyword_text(Keyword::Id), JsonView::String(id@)),
        None => Seq::empty(),
    };
    let o = if node.types@.len() > 0 {
        insert(o, keyword_text(Keyword::Type), JsonView::Array(strings_json(node.types@)))
    } else {
        o
    };
    let o = match node.graph {
        Some(g) => insert(
            o,
            keyword_text(Keyword::Graph),
            JsonView::Array(objects_json(g@, 0, Seq::empty())),
        ),
        None => o,
    };
    let o = match node.included {
        Some(inc) => insert(
            o,
            keyword_text(Keyword::Included),
            JsonView::Array(nodes_json(inc@, 0, Seq::empty())),
        ),
        None => o,
    };
    let o = if node.reverse_properties@.len() > 0 {
        insert(
            o,
            keyword_text(Keyword::Reverse),
            JsonView::Object(reverse_json(node.reverse_properties@, 0, Seq::empty())),
        )
    } else {
        o
    };
    properties_json(node.properties@, 0, o)
}

fn with_index(o: json::Object, index: &Option<String>) -> (r: json::Value)
    ensures
        r@ == indexed_json(o@, *index),
{
    let mut o = o;
    match index {
        Some(i) => {
            o.insert(Keyword::Index.into_str().to_owned(), json::Value::String(i.clone()));
        },
        None => {},
    }
    json::Value::Object(o)
}

/// The expanded forms of the objects, in an array.
pub fn objects_as_json(items: &Vec<Indexed<Object>>) -> (r: Vec<json::Value>)
    ensures
        values_view(r@) == objects_json(items@, 0, Seq::empty()),
    decreases items, 2nat, 0nat,
{
    let mut out: Vec<json::Value> = Vec::new();
    assert(values_view(out@) =~= Seq::<JsonView>::empty());
    let mut i: usize = 0;
    while i < items.len()
        invariant
            i <= items.len(),
            objects_json(items@, i as int, values_view(out@)) == objects_json(
                items@,
                0,
                Seq::empty(),
            ),
        decreases items.len() - i,
    {
        proof {
            assert(decreases_to!(items => items[i as int]));
            assert(decreases_to!(items[i as int] => items[i as int].value));
        }
        let o = items[i].value.as_json();
        let v = with_index(o, &items[i].index);
        let ghost before = values_view(out@);
        out.push(v);
        assert(values_view(out@) =~= before.push(v@));
        i += 1;
    }
    out
}

/// The expanded forms of the nodes, in an array.
pub fn nodes_as_json(items: &Vec<Indexed<Node>>) -> (r: Vec<json::Value>)
    ensures
        values_view(r@) == nodes_json(items@, 0, Seq::empty()),
    decreases items, 2nat, 0nat,
{
    let mut out: Vec<json::Value> = Vec::new();
    assert(values_view(out@) =~= Seq::<JsonView>::empty());
    let mut i: usize = 0;
    while i < items.len()
        invariant
            i <= items.len(),
            nodes_json(items@, i as int, values_view(out@)) == nodes_json(items@, 0, Seq::empty()),
        decreases items.len() - i,
    {
        proof {
            assert(decreases_to!(items => items[i as int]));
            assert(decreases_to!(items[i as int] => items[i as int].value));
        }
        let o = items[i].value.as_json();
        let v = with_index(o, &items[i].index);
        let ghost before = values_view(out@);
        out.push(v);
        assert(values_view(out@) =~= before.push(v@));
        i += 1;
    }
    out
}

impl Object {
    /// The object in expanded form.
    pub fn as_json(&self) -> (r: json::Object)
        ensures
            r@ == object_json(*self),
        decreases self, 0nat, 0nat,
    {
        match self {
            Object::Value(v) => v.as_json(),
            Object::Node(n) => n.as_json(),
            Object::List(items) => {
                let mut obj = json::Object::new();
                obj.insert(
                    Keyword::List.into_str().to_owned(),
                    json::Value::Array(objects_as_json(items)),
                );
                obj
            },
        }
    }
}

impl Node {
    /// The node in expanded form.
    pub fn as_json(&self) -> (r: json::Object)
        ensures
            r@ == node_json(*self),
        decreases self, 0nat, 0nat,
    {
        let mut obj = json::Object::new();
        match &self.id {
            Some(id) => {
                obj.insert(Keyword::Id.into_str().to_owned(), json::Value::String(id.clone()));
            },
            None => {},
        }
        if self.types.len() > 0 {
            let mut types: Vec<json::Value> = Vec::new();
            let mut i: usize = 0;
            while i < self.types.len()
                invariant
                    i <= self.types.len(),
                    types@.len() == i,
                    forall|j: int|
                        0 <= j < i ==> (#[trigger] types@[j])@ == JsonView::String(
                            self.types@[j]@,
                        ),
                decreases self.types.len() - i,
            {
                types.push(json::Value::String(self.types[i].clone()));
                i += 1;
            }
            assert(values_view(types@) =~= strings_json(self.types@));
            obj.insert(Keyword::Type.into_str().to_owned(), json::Value::Array(types));
        }
        match &self.graph {
            Some(graph) => {
                obj.insert(
                    Keyword::Graph.into_str().to_owned(),
                    json::Value::Array(objects_as_json(graph)),
                );
            },
            None => {},
        }
        match &self.included {
            Some(included) => {
                obj.insert(
                    Keyword::Included.into_str().to_owned(),
                    json::Value::Array(nodes_as_json(included)),
                );
            },
            None => {},
        }
        if self.reverse_properties.len() > 0 {
            let mut reverse = json::Object::new();
            let mut i: usize = 0;
            while i < self.reverse_properties.len()
                invariant
                    i <= self.reverse_properties.len(),
                    reverse_json(self.reverse_properties@, i as int, reverse@) == reverse_json(
                        self.reverse_properties@,
                        0,
                        Seq::empty(),
                    ),
                decreases self.reverse_properties.len() - i,
            {
                proof {
                    assert(decreases_to!(self => self.reverse_properties));
                    assert(decreases_to!(self.reverse_properties => self.reverse_properties[i as int]));
                    assert(decreases_to!(self.reverse_properties[i as int] => self.reverse_properties[i as int].1));
                }
                let values = nodes_as_json(&self.reverse_properties[i].1);
                reverse.insert(self.reverse_properties[i].0.clone(), json::Value::Array(values));
                i += 1;
            }
            obj.insert(Keyword::Reverse.into_str().to_owned(), json::Value::Object(reverse));
        }
        let ghost start = obj@;
        let mut i: usize = 0;
        while i < self.properties.len()
            invariant
                i <= self.properties.len(),
                properties_json(self.properties@, i as int, obj@) == properties_json(
                    self.properties@,
                    0,
                    start,
                ),
            decreases self.properties.len() - i,
        {
            proof {
                assert(decreases_to!(self => self.properties));
                assert(decreases_to!(self.properties => self.properties[i as int]));
                assert(decreases_to!(self.properties[i as int] => self.properties[i as int].1));
            }
            let values = objects_as_json(&self.properties[i].1);
            obj.insert(self.properties[i].0.clone(), json::Value::Array(values));
            i += 1;
        }
        obj
    }
}


/// What can be looked at as an object: values, nodes, and objects
/// themselves.
pub trait Any {
    /// A borrowed look at the object.
    spec fn spec_ref(&self) -> Ref<'_>;

    /// A borrowed look at the object.
    fn as_ref(&self) -> (r: Ref<'_>)
        ensures
            r == self.spec_ref(),
    ;

    /// Identifier of the object, if it is a node object that has one.
    fn id(&self) -> (r: Option<&str>)
        ensures
            match r {
                Some(s) => self.spec_ref() matches Ref::Node(n) && n.id matches Some(i) && s@ == i@,
                None => !(self.spec_ref() matches Ref::Node(n) && n.id is Some),
            },
    {
        match self.as_ref() {
            Ref::Node(n) => n.id(),
            _ => None,
        }
    }

    /// The language of a language-tagged value.
    fn language(&self) -> (r: Option<&LanguageTagBuf>)
        ensures
            match r {
                Some(t) => self.spec_ref() matches Ref::Value(v) && v.spec_language() == Some(*t),
                None => !(self.spec_ref() matches Ref::Value(v) && v.spec_language() is Some),
            },
    {
        match self.as_ref() {
            Ref::Value(value) => value.language(),
            _ => None,
        }
    }

    /// Tests if the object is a value.
    fn is_value(&self) -> (r: bool)
        ensures
            r == (self.spec_ref() is Value),
    {
        match self.as_ref() {
            Ref::Value(_) => true,
            _ => false,
        }
    }

    /// Tests if the object is a node.
    fn is_node(&self) -> (r: bool)
        ensures
            r == (self.spec_ref() is Node),
    {
        match self.as_ref() {
            Ref::Node(_) => true,
            _ => false,
        }
    }

    /// Tests if the object is a graph object.
    fn is_graph(&self) -> (r: bool)
        ensures
            r == (self.spec_ref() matches Ref::Node(n) && n.spec_is_graph()),
    {
        match self.as_ref() {
            Ref::Node(n) => n.is_graph(),
            _ => false,
        }
    }

    /// Tests if the object is a list.
    fn is_list(&self) -> (r: bool)
        ensures
            r == (self.spec_ref() is List),
    {
        match self.as_ref() {
            Ref::List(_) => true,
            _ => false,
        }
    }
}

impl Any for Object {
    open spec fn spec_ref(&self) -> Ref<'_> {
        self.spec_as_ref()
    }

    fn as_ref(&self) -> (r: Ref<'_>) {
        Object::as_ref(self)
    }
}

impl Any for Node {
    open spec fn spec_ref(&self) -> Ref<'_> {
        Ref::Node(self)
    }

    fn as_ref(&self) -> (r: Ref<'_>) {
        Ref::Node(self)
    }
}

impl Any for Value {
    open spec fn spec_ref(&self) -> Ref<'_> {
        Ref::Value(self)
    }

    fn as_ref(&self) -> (r: Ref<'_>) {
        Ref::Value(self)
    }
}

} // verus!
