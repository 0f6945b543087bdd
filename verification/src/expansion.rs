//! What expansion hands to compaction: options, and the top level of an
//! expanded document.

use vstd::prelude::*;
use crate::object::{Indexed, Object};
use crate::syntax::ProcessingMode;
use crate::text::{lex_lt, str_eq, str_lt};

verus! {

/// How a document is expanded.
#[derive(Clone, Copy, PartialEq, Eq, Structural, Debug)]
pub struct Options {
    /// Sets the processing mode.
    pub processing_mode: ProcessingMode,
    /// If true, an error is returned if a value fails to expand. If false,
    /// the value is dropped.
    pub strict: bool,
    /// If set to true, input document entries are processed
    /// lexicographically. If false, order is not considered in processing.
    pub ordered: bool,
}

impl Default for Options {
    fn default() -> (r: Options)
        ensures
            r == (Options {
                processing_mode: ProcessingMode::JsonLd1_1,
                strict: false,
                ordered: false,
            }),
    {
        Options { processing_mode: ProcessingMode::JsonLd1_1, strict: false, ordered: false }
    }
}

/// An entry of a JSON object, ordered by its key alone.
pub struct Entry<'a, J>(pub String, pub &'a J);

impl<'a, J> Entry<'a, J> {
    /// Whether both entries have the same key.
    pub fn eq(&self, other: &Entry<'a, J>) -> (r: bool)
        ensures
            r == (self.0@ == other.0@),
    {
        str_eq(self.0.as_str(), other.0.as_str())
    }

    /// Whether the key of this entry stands before the key of the other in
    /// lexicographic order.
    pub fn lt(&self, other: &Entry<'a, J>) -> (r: bool)
        ensures
            r == lex_lt(self.0@, other.0@),
    {
        str_lt(self.0.as_str(), other.0.as_str())
    }
}

/// Whether an item stays at the top level: a value object there is
/// dangling and goes.
pub open spec fn stays(item: Indexed<Object>) -> bool {
    !(item.value is Value)
}

/// Whether an item stays at the top level.
pub fn filter_top_level_item(item: &Indexed<Object>) -> (r: bool)
    ensures
        r == stays(*item),
{
    // Remove dangling values.
    match &item.value {
        Object::Value(_) => false,
        _ => true,
    }
}

/// The top level of a document from the expanded form of its root
/// element: the content of the graph where the only item is an unnamed graph
/// object, else the items without the dangling values.
pub open spec fn top_level(expanded: Seq<Indexed<Object>>) -> Seq<Indexed<Object>> {
    if expanded.len() == 1 && (expanded[0].value matches Object::Node(n)
        && n.spec_is_unnamed_graph()) {
        expanded[0].value->Node_0.graph->0@
    } else {
        expanded.filter(|item: Indexed<Object>| stays(item))
    }
}

/// Finishes expansion: from the expanded form of the root element to the
/// top-level objects of the document.
pub fn expand(expanded: Vec<Indexed<Object>>) -> (r: Vec<Indexed<Object>>)
    ensures
        r@ == top_level(expanded@),
{
    let ghost all = expanded@;
    let mut expanded = expanded;
    if expanded.len() == 1 {
        match expanded.pop() {
            Some(item) => match Object::into_unnamed_graph(item) {
                Ok(graph) => graph,
                Err(obj) => {
                    let mut set: Vec<Indexed<Object>> = Vec::new();
                    proof {
                        reveal_with_fuel(Seq::filter, 2);
                        assert(all =~= seq![obj]);
                        assert(all.drop_last() =~= Seq::<Indexed<Object>>::empty());
                        assert(all.last() == obj);
                        assert(all.drop_last().filter(|item: Indexed<Object>| stays(item))
                            =~= Seq::<Indexed<Object>>::empty());
                    }
                    if filter_top_level_item(&obj) {
                        set.push(obj);
                    }
                    assert(set@ =~= all.filter(|item: Indexed<Object>| stays(item)));
                    set
                },
            },
            None => expanded,
        }
    } else {
        let mut rest = crate::json::reversed(expanded);
        let mut out: Vec<Indexed<Object>> = Vec::new();
        let ghost mut i: int = 0;
        proof {
            reveal(Seq::filter);
            assert(all.take(0) =~= Seq::<Indexed<Object>>::empty());
        }
        while rest.len() > 0
            invariant
                0 <= i,
                i + rest@.len() == all.len(),
                forall|j: int| 0 <= j < rest@.len() ==> rest@[j] == all[all.len() - 1 - j],
                out@ == all.take(i).filter(|item: Indexed<Object>| stays(item)),
            decreases rest.len(),
        {
            match rest.pop() {
                Some(item) => {
                    proof {
                        reveal(Seq::filter);
                        assert(all.take(i + 1).drop_last() =~= all.take(i));
                        assert(all.take(i + 1).last() == item);
                    }
                    if filter_top_level_item(&item) {
                        out.push(item);
                    }
                    proof {
                        i = i + 1;
                    }
                },
                None => {},
            }
        }
        assert(all.take(all.len() as int) =~= all);
        out
    }
}


impl From<Options> for crate::context::ProcessingOptions {
    fn from(options: Options) -> (r: crate::context::ProcessingOptions) {
        crate::context::ProcessingOptions {
            processing_mode: options.processing_mode,
            override_protected: false,
            propagate: true,
        }
    }
}

impl vstd::std_specs::convert::FromSpecImpl<Options> for crate::context::ProcessingOptions {
    open spec fn obeys_from_spec() -> bool {
        true
    }

    open spec fn from_spec(options: Options) -> crate::context::ProcessingOptions {
        crate::context::ProcessingOptions {
            processing_mode: options.processing_mode,
            override_protected: false,
            propagate: true,
        }
    }
}

impl From<crate::compaction::Options> for Options {
    fn from(options: crate::compaction::Options) -> (r: Options) {
        Options {
            processing_mode: options.processing_mode,
            strict: false,
            ordered: options.ordered,
        }
    }
}

impl vstd::std_specs::convert::FromSpecImpl<crate::compaction::Options> for Options {
    open spec fn obeys_from_spec() -> bool {
        true
    }

    open spec fn from_spec(options: crate::compaction::Options) -> Options {
        Options { processing_mode: options.processing_mode, strict: false, ordered: options.ordered }
    }
}

} // verus!
