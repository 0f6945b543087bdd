//! Node objects.

use core::hash::{Hash, Hasher};
use vstd::prelude::*;
use crate::util::{feed, hash_map, hash_set_opt};
use crate::iri::{is_iri, parses_as_iri};
use crate::object::{Indexed, Object};
use crate::syntax::{Keyword, Term};
use crate::text::str_eq;

verus! {

/// A node object: an identifier, types, properties and reverse
/// properties; it may hold a graph and include other nodes. Two nodes are
/// equal where they hold the same in the same order; the hash of a node
/// does not depend on the order of its sets and maps.
#[derive(Debug, PartialEq, Eq)]
pub struct Node {
    /// The `@id` entry.
    pub id: Option<String>,
    /// The `@type` entry.
    pub types: Vec<String>,
    /// The `@graph` entry.
    pub graph: Option<Vec<Indexed<Object>>>,
    /// The `@included` entry.
    pub included: Option<Vec<Indexed<Node>>>,
    /// The properties: each IRI with its values.
    pub properties: Vec<(String, Vec<Indexed<Object>>)>,
    /// The `@reverse` entry: each IRI with the nodes that point here.
    pub reverse_properties: Vec<(String, Vec<Indexed<Node>>)>,
}

impl Hash for Node {
    fn hash<H: Hasher>(&self, h: &mut H) {
        feed(&self.id, h);
        feed(&self.types, h);
        hash_set_opt(&self.graph, h);
        hash_set_opt(&self.included, h);
        hash_map(&self.properties, h);
        hash_map(&self.reverse_properties, h);
    }
}

/// The values of a property, none where the node does not have it.
pub struct Objects<'a>(pub Option<&'a Vec<Indexed<Object>>>);

impl<'a> View for Objects<'a> {
    type V = Seq<Indexed<Object>>;

    open spec fn view(&self) -> Seq<Indexed<Object>> {
        match self.0 {
            Some(v) => v@,
            None => Seq::empty(),
        }
    }
}

impl<'a> Objects<'a> {
    /// How many values there are.
    pub fn len(&self) -> (r: usize)
        ensures
            r == self@.len(),
    {
        match self.0 {
            Some(v) => v.len(),
            None => 0,
        }
    }

    /// The value at place `i`.
    pub fn get(&self, i: usize) -> (r: Option<&'a Indexed<Object>>)
        ensures
            match r {
                Some(o) => i < self@.len() && *o == self@[i as int],
                None => i >= self@.len(),
            },
    {
        match self.0 {
            Some(v) => if i < v.len() {
                Some(&v[i])
            } else {
                None
            },
            None => None,
        }
    }
}

/// The first position from `i` on at which `key` stands among the keys.
pub open spec fn key_position<V>(entries: Seq<(String, V)>, key: Seq<char>, i: int) -> Option<int>
    decreases entries.len() - i,
{
    if i < 0 || i >= entries.len() {
        None
    } else if entries[i].0@ == key {
        Some(i)
    } else {
        key_position(entries, key, i + 1)
    }
}

/// Whether no key stands twice.
pub open spec fn distinct_keys<V>(entries: Seq<(String, V)>) -> bool {
    forall|i: int, j: int|
        0 <= i < j < entries.len() ==> (#[trigger] entries[i]).0@ != (#[trigger] entries[j]).0@
}

/// What `key_position` finds is the first entry of the key at or after
/// `i`.
pub proof fn lemma_key_position<V>(entries: Seq<(String, V)>, key: Seq<char>, i: int)
    requires
        0 <= i,
    ensures
        match key_position(entries, key, i) {
            Some(k) => i <= k < entries.len() && entries[k].0@ == key && forall|j: int|
                i <= j < k ==> (#[trigger] entries[j]).0@ != key,
            None => forall|j: int| i <= j < entries.len() ==> (#[trigger] entries[j]).0@ != key,
        },
    decreases entries.len() - i,
{
    if i < entries.len() && entries[i].0@ != key {
        lemma_key_position(entries, key, i + 1);
    }
}

fn find_key<V>(entries: &Vec<(String, V)>, key: &str) -> (r: Option<usize>)
    ensures
        match r {
            Some(i) => key_position(entries@, key@, 0) == Some(i as int) && i < entries@.len(),
            None => key_position(entries@, key@, 0) is None,
        },
{
    let mut i: usize = 0;
    while i < entries.len()
        invariant
            i <= entries.len(),
            key_position(entries@, key@, i as int) == key_position(entries@, key@, 0),
        decreases entries.len() - i,
    {
        if str_eq(entries[i].0.as_str(), key) {
            return Some(i);
        }
        i += 1;
    }
    None
}

/// What adding `values` under `key` makes of `before`: the values are put
/// behind those that the key has, or the key comes in at the end with them.
pub open spec fn extended<T>(
    before: Seq<(String, Vec<T>)>,
    after: Seq<(String, Vec<T>)>,
    key: Seq<char>,
    values: Seq<T>,
) -> bool {
    match key_position(before, key, 0) {
        Some(i) => {
            &&& after.len() == before.len()
            &&& after[i].0 == before[i].0
            &&& after[i].1@ == before[i].1@ + values
            &&& forall|j: int| 0 <= j < before.len() && j != i ==> after[j] == before[j]
        },
        None => {
            &&& after.len() == before.len() + 1
            &&& after[before.len() as int].0@ == key
            &&& after[before.len() as int].1@ == values
            &&& forall|j: int| 0 <= j < before.len() ==> after[j] == before[j]
        },
    }
}

/// Adding under a key keeps the keys distinct.
pub proof fn lemma_extended_distinct<T>(
    before: Seq<(String, Vec<T>)>,
    after: Seq<(String, Vec<T>)>,
    key: Seq<char>,
    values: Seq<T>,
)
    requires
        distinct_keys(before),
        extended(before, after, key, values),
    ensures
        distinct_keys(after),
{
    lemma_key_position(before, key, 0);
    assert forall|i: int, j: int| 0 <= i < j < after.len() implies (#[trigger] after[i]).0@ != (
    #[trigger] after[j]).0@ by {
        match key_position(before, key, 0) {
            Some(k) => {
                assert(after[i].0 == before[i].0);
                assert(after[j].0 == before[j].0);
            },
            None => {
                assert(after[i] == before[i]);
                if j < before.len() {
                    assert(after[j] == before[j]);
                }
            },
        }
    }
}

fn extend_entry<T>(entries: &mut Vec<(String, Vec<T>)>, key: String, values: Vec<T>)
    ensures
        extended(old(entries)@, final(entries)@, key@, values@),
{
    match find_key(entries, key.as_str()) {
        Some(i) => {
            let mut entry = entries.remove(i);
            let mut values = values;
            entry.1.append(&mut values);
            entries.insert(i, entry);
        },
        None => {
            entries.push((key, values));
        },
    }
}

fn single<T>(value: T) -> (r: Vec<T>)
    ensures
        r@ == seq![value],
{
    let mut v: Vec<T> = Vec::new();
    v.push(value);
    v
}

impl Node {
    /// A node is well formed when no property stands twice, and no reverse
    /// property either.
    pub open spec fn wf(&self) -> bool {
        &&& distinct_keys(self.properties@)
        &&& distinct_keys(self.reverse_properties@)
    }

    /// The identifier, where it is a well-formed IRI.
    pub open spec fn spec_as_iri(&self) -> Option<Seq<char>> {
        match self.id {
            Some(id) => if is_iri(id@) {
                Some(id@)
            } else {
                None
            },
            None => None,
        }
    }

    /// Whether every entry other than `@id` is missing.
    pub open spec fn spec_is_empty(&self) -> bool {
        &&& self.types@.len() == 0
        &&& self.graph is None
        &&& self.included is None
        &&& self.properties@.len() == 0
        &&& self.reverse_properties@.len() == 0
    }

    /// Whether the node is a graph object: it has a `@graph` entry, and
    /// besides it at most `@id`.
    pub open spec fn spec_is_graph(&self) -> bool {
        &&& self.graph is Some
        &&& self.types@.len() == 0
        &&& self.included is None
        &&& self.properties@.len() == 0
        &&& self.reverse_properties@.len() == 0
    }

    /// Whether the node is a graph object without `@id`.
    pub open spec fn spec_is_simple_graph(&self) -> bool {
        self.id is None && self.spec_is_graph()
    }

    /// Whether the only entry of the node is `@graph`.
    pub open spec fn spec_is_unnamed_graph(&self) -> bool {
        self.id is None && self.spec_is_graph()
    }

    /// Whether the node has an entry under `key`.
    pub open spec fn spec_has_key(&self, key: Term) -> bool {
        match key {
            Term::Keyword(Keyword::Id) => self.id is Some,
            Term::Keyword(Keyword::Type) => self.types@.len() > 0,
            Term::Keyword(Keyword::Graph) => self.graph is Some,
            Term::Keyword(Keyword::Included) => self.included is Some,
            Term::Keyword(Keyword::Reverse) => self.reverse_properties@.len() > 0,
            Term::Ref(prop) => key_position(self.properties@, prop@, 0) is Some,
            _ => false,
        }
    }

    /// Create a new empty node.
    pub fn new() -> (r: Node)
        ensures
            r.id is None,
            r.spec_is_empty(),
            r.wf(),
    {
        Node {
            id: None,
            types: Vec::new(),
            graph: None,
            included: None,
            properties: Vec::new(),
            reverse_properties: Vec::new(),
        }
    }

    /// Create a new empty node with the given id.
    pub fn with_id(id: String) -> (r: Node)
        ensures
            r.id == Some(id),
            r.spec_is_empty(),
            r.wf(),
    {
        Node {
            id: Some(id),
            types: Vec::new(),
            graph: None,
            included: None,
            properties: Vec::new(),
            reverse_properties: Vec::new(),
        }
    }

    /// Checks if the node object has the given term as key.
    pub fn has_key(&self, key: &Term) -> (r: bool)
        ensures
            r == self.spec_has_key(*key),
    {
        match key {
            Term::Keyword(Keyword::Id) => self.id.is_some(),
            Term::Keyword(Keyword::Type) => self.types.len() > 0,
            Term::Keyword(Keyword::Graph) => self.graph.is_some(),
            Term::Keyword(Keyword::Included) => self.included.is_some(),
            Term::Keyword(Keyword::Reverse) => self.reverse_properties.len() > 0,
            Term::Ref(prop) => find_key(&self.properties, prop.as_str()).is_some(),
            _ => false,
        }
    }

    /// Get the identifier of the node: its `@id` entry.
    pub fn id(&self) -> (r: Option<&str>)
        ensures
            match r {
                Some(s) => self.id matches Some(i) && s@ == i@,
                None => self.id is None,
            },
    {
        match &self.id {
            Some(i) => Some(i.as_str()),
            None => None,
        }
    }

    /// The node's identifier where it is a well-formed IRI.
    pub fn as_iri(&self) -> (r: Option<&str>)
        ensures
            match r {
                Some(s) => self.spec_as_iri() == Some(s@),
                None => self.spec_as_iri() is None,
            },
    {
        match &self.id {
            Some(id) => if parses_as_iri(id.as_str()) {
                Some(id.as_str())
            } else {
                None
            },
            None => None,
        }
    }

    /// The node's identifier as a string slice, where it is a well-formed
    /// IRI.
    pub fn as_str(&self) -> (r: Option<&str>)
        ensures
            match r {
                Some(s) => self.spec_as_iri() == Some(s@),
                None => self.spec_as_iri() is None,
            },
    {
        self.as_iri()
    }

    /// Get the list of the node's types.
    pub fn types(&self) -> (r: &Vec<String>)
        ensures
            *r == self.types,
    {
        &self.types
    }

    /// Checks if the node has the given type.
    pub fn has_type(&self, ty: &str) -> (r: bool)
        ensures
            r == exists|i: int| 0 <= i < self.types@.len() && (#[trigger] self.types@[i])@ == ty@,
    {
        let mut i: usize = 0;
        while i < self.types.len()
            invariant
                i <= self.types.len(),
                forall|j: int| 0 <= j < i ==> (#[trigger] self.types@[j])@ != ty@,
            decreases self.types.len() - i,
        {
            if str_eq(self.types[i].as_str(), ty) {
                return true;
            }
            i += 1;
        }
        false
    }

    /// Tests if the node is empty: every entry other than `@id` is missing.
    pub fn is_empty(&self) -> (r: bool)
        ensures
            r == self.spec_is_empty(),
    {
        self.types.len() == 0 && self.graph.is_none() && self.included.is_none()
            && self.properties.len() == 0 && self.reverse_properties.len() == 0
    }

    /// Tests if the node is a graph object (has a `@graph` entry, and
    /// optionally an `@id` entry, and no other).
    pub fn is_graph(&self) -> (r: bool)
        ensures
            r == self.spec_is_graph(),
    {
        self.graph.is_some() && self.types.len() == 0 && self.included.is_none()
            && self.properties.len() == 0 && self.reverse_properties.len() == 0
    }

    /// Tests if the node is a simple graph object (a graph object without
    /// `@id` entry).
    pub fn is_simple_graph(&self) -> (r: bool)
        ensures
            r == self.spec_is_simple_graph(),
    {
        self.id.is_none() && self.is_graph()
    }

    /// If the node is a graph object, get the graph.
    pub fn graph(&self) -> (r: Option<&Vec<Indexed<Object>>>)
        ensures
            match r {
                Some(g) => self.graph == Some(*g),
                None => self.graph is None,
            },
    {
        self.graph.as_ref()
    }

    /// If the node is a graph object, get the mutable graph.
    pub fn graph_mut(&mut self) -> (r: Option<&mut Vec<Indexed<Object>>>)
        ensures
            match r {
                Some(g) => old(self).graph == Some(*g) && *final(self) == (Node {
                    graph: Some(*final(g)),
                    ..*old(self)
                }),
                None => old(self).graph is None && *final(self) == *old(self),
            },
    {
        match &mut self.graph {
            Some(g) => Some(g),
            None => None,
        }
    }

    /// Set the graph.
    pub fn set_graph(&mut self, graph: Option<Vec<Indexed<Object>>>)
        ensures
            *final(self) == (Node { graph: graph, ..*old(self) }),
    {
        self.graph = graph
    }

    /// Get the nodes included by this node: its `@included` entry.
    pub fn included(&self) -> (r: Option<&Vec<Indexed<Node>>>)
        ensures
            match r {
                Some(g) => self.included == Some(*g),
                None => self.included is None,
            },
    {
        self.included.as_ref()
    }

    /// Get the mutable set of nodes included by this node.
    pub fn included_mut(&mut self) -> (r: Option<&mut Vec<Indexed<Node>>>)
        ensures
            match r {
                Some(g) => old(self).included == Some(*g) && *final(self) == (Node {
                    included: Some(*final(g)),
                    ..*old(self)
                }),
                None => old(self).included is None && *final(self) == *old(self),
            },
    {
        match &mut self.included {
            Some(g) => Some(g),
            None => None,
        }
    }

    /// Set the nodes included by the node.
    pub fn set_included(&mut self, included: Option<Vec<Indexed<Node>>>)
        ensures
            *final(self) == (Node { included: included, ..*old(self) }),
    {
        self.included = included
    }

    /// Get all the objects associated to the node with the given property.
    pub fn get(&self, prop: &str) -> (r: Objects<'_>)
        ensures
            r@ == match key_position(self.properties@, prop@, 0) {
                Some(i) => self.properties@[i].1@,
                None => Seq::empty(),
            },
    {
        match find_key(&self.properties, prop) {
            Some(i) => Objects(Some(&self.properties[i].1)),
            None => Objects(None),
        }
    }

    /// Get one of the objects associated to the node with the given
    /// property: the first one.
    pub fn get_any(&self, prop: &str) -> (r: Option<&Indexed<Object>>)
        ensures
            match r {
                Some(o) => key_position(self.properties@, prop@, 0) matches Some(i)
                    && self.properties@[i].1@.len() > 0 && *o == self.properties@[i].1@[0],
                None => match key_position(self.properties@, prop@, 0) {
                    Some(i) => self.properties@[i].1@.len() == 0,
                    None => true,
                },
            },
    {
        match find_key(&self.properties, prop) {
            Some(i) => if self.properties[i].1.len() > 0 {
                Some(&self.properties[i].1[0])
            } else {
                None
            },
            None => None,
        }
    }

    /// Associate the given object to the node through the given property.
    pub fn insert(&mut self, prop: String, value: Indexed<Object>)
        ensures
            extended(old(self).properties@, final(self).properties@, prop@, seq![value]),
            old(self).wf() ==> final(self).wf(),
            final(self).id == old(self).id,
            final(self).types == old(self).types,
            final(self).graph == old(self).graph,
            final(self).included == old(self).included,
            final(self).reverse_properties == old(self).reverse_properties,
    {
        extend_entry(&mut self.properties, prop, single(value));
        proof {
            if old(self).wf() {
                lemma_extended_distinct(
                    old(self).properties@,
                    self.properties@,
                    prop@,
                    seq![value],
                );
            }
        }
    }

    /// Associate all the given objects to the node through the given
    /// property.
    pub fn insert_all(&mut self, prop: String, values: Vec<Indexed<Object>>)
        ensures
            extended(old(self).properties@, final(self).properties@, prop@, values@),
            old(self).wf() ==> final(self).wf(),
            final(self).id == old(self).id,
            final(self).types == old(self).types,
            final(self).graph == old(self).graph,
            final(self).included == old(self).included,
            final(self).reverse_properties == old(self).reverse_properties,
    {
        let ghost added = values@;
        extend_entry(&mut self.properties, prop, values);
        proof {
            if old(self).wf() {
                lemma_extended_distinct(old(self).properties@, self.properties@, prop@, added);
            }
        }
    }

    /// Associate the given node to this one through the given reverse
    /// property.
    pub fn insert_reverse(&mut self, reverse_prop: String, reverse_value: Indexed<Node>)
        ensures
            extended(
                old(self).reverse_properties@,
                final(self).reverse_properties@,
                reverse_prop@,
                seq![reverse_value],
            ),
            old(self).wf() ==> final(self).wf(),
            final(self).id == old(self).id,
            final(self).types == old(self).types,
            final(self).graph == old(self).graph,
            final(self).included == old(self).included,
            final(self).properties == old(self).properties,
    {
        extend_entry(&mut self.reverse_properties, reverse_prop, single(reverse_value));
        proof {
            if old(self).wf() {
                lemma_extended_distinct(
                    old(self).reverse_properties@,
                    self.reverse_properties@,
                    reverse_prop@,
                    seq![reverse_value],
                );
            }
        }
    }

    /// Associate all the given nodes to this one through the given reverse
    /// property.
    pub fn insert_all_reverse(&mut self, reverse_prop: String, reverse_values: Vec<Indexed<Node>>)
        ensures
            extended(
                old(self).reverse_properties@,
                final(self).reverse_properties@,
                reverse_prop@,
                reverse_values@,
            ),
            old(self).wf() ==> final(self).wf(),
            final(self).id == old(self).id,
            final(self).types == old(self).types,
            final(self).graph == old(self).graph,
            final(self).included == old(self).included,
            final(self).properties == old(self).properties,
    {
        let ghost added = reverse_values@;
        extend_entry(&mut self.reverse_properties, reverse_prop, reverse_values);
        proof {
            if old(self).wf() {
                lemma_extended_distinct(
                    old(self).reverse_properties@,
                    self.reverse_properties@,
                    reverse_prop@,
                    added,
                );
            }
        }
    }

    /// Tests if the node is an unnamed graph object: its only entry is
    /// `@graph`.
    pub fn is_unnamed_graph(&self) -> (r: bool)
        ensures
            r == self.spec_is_unnamed_graph(),
    {
        self.graph.is_some() && self.id.is_none() && self.types.len() == 0
            && self.included.is_none() && self.properties.len() == 0
            && self.reverse_properties.len() == 0
    }

    /// Returns the node as an unnamed graph, if it is one; fails and
    /// returns itself if it is not.
    pub fn into_unnamed_graph(self) -> (r: Result<Vec<Indexed<Object>>, Node>)
        ensures
            match r {
                Ok(g) => self.spec_is_unnamed_graph() && self.graph == Some(g),
                Err(n) => !self.spec_is_unnamed_graph() && n == self,
            },
    {
        if self.is_unnamed_graph() {
            match self.graph {
                Some(g) => Ok(g),
                None => Ok(Vec::new()),
            }
        } else {
            Err(self)
        }
    }

    /// The node that an object is, or the object itself where it is none.
    pub fn try_from(obj: Object) -> (r: Result<Node, Object>)
        ensures
            match r {
                Ok(n) => obj == Object::Node(n),
                Err(o) => o == obj && !(obj is Node),
            },
    {
        match obj {
            Object::Node(node) => Ok(node),
            obj => Err(obj),
        }
    }
}

} // verus!
