//! Documents: the compaction of a whole document, and documents that
//! remember where they came from.

use vstd::prelude::*;
use crate::compaction::iri::{alias, alias_for};
use crate::compaction::model::{compact_collection, compact_item};
use crate::compaction::{compact_collection_with, compact_indexed_with, json_view, Options};
use crate::context::inverse::Inversible;
use crate::context::{Context, Resolver};
use crate::error::Error;
use crate::iri::{is_iri, parses_as_iri};
use crate::json;
use crate::json::{get, insert, is_empty_json, JsonView, Object, ObjectView};
use crate::object::{Indexed, Object as DocObject};
use crate::syntax::Keyword;

verus! {

/// The compact form of the top-level objects: of the one object where
/// there is one and arrays are folded, of the set otherwise.
pub open spec fn compact_top_level(
    resolver: Resolver,
    ctx: Context,
    expanded: Seq<Indexed<DocObject>>,
    options: Options,
) -> Result<JsonView, Error> {
    if expanded.len() == 1 && options.compact_arrays {
        compact_item(resolver, ctx, ctx, None, expanded[0], options)
    } else {
        compact_collection(resolver, ctx, ctx, None, expanded, options)
    }
}

/// The body of the compacted document: the compacted object itself; for
/// an array, an object that holds it under `@graph`, or the empty object
/// where the array is empty. Anything else is not the compact form of a
/// document.
pub open spec fn document_body(ctx: Context, compacted: JsonView, options: Options) -> Result<
    ObjectView,
    Error,
> {
    match compacted {
        JsonView::Array(items) => if items.len() > 0 {
            Ok(insert(Seq::empty(), alias(ctx, Keyword::Graph, options), compacted))
        } else {
            Ok(Seq::empty())
        },
        JsonView::Object(map) => Ok(map),
        _ => Err(Error::UnexpectedObjectShape),
    }
}

/// Whether the context is attached at the root: it is neither null nor
/// empty, whatever the body holds.
pub open spec fn context_attached(json_context: JsonView) -> bool {
    !is_empty_json(json_context)
}

/// The body with the context under `@context`, where it is attached.
pub open spec fn with_context(ctx: Context, body: ObjectView, json_context: JsonView, options: Options) -> ObjectView {
    if context_attached(json_context) {
        insert(body, alias(ctx, Keyword::Context, options), json_context)
    } else {
        body
    }
}

/// The compact form of a document: its top-level objects compacted, in
/// one object, with the context attached.
pub open spec fn compact_document(
    resolver: Resolver,
    ctx: Context,
    expanded: Seq<Indexed<DocObject>>,
    json_context: JsonView,
    options: Options,
) -> Result<JsonView, Error> {
    match compact_top_level(resolver, ctx, expanded, options) {
        Err(e) => Err(e),
        Ok(compacted) => match document_body(ctx, compacted, options) {
            Err(e) => Err(e),
            Ok(body) => Ok(JsonView::Object(with_context(ctx, body, json_context, options))),
        },
    }
}

/// Compacts an expanded document under a context, and attaches the
/// context as it was written, `json_context`, at the root.
pub fn compact_with<'a>(
    resolver: &'a Resolver,
    expanded: &Vec<Indexed<DocObject>>,
    context: &Inversible<'a>,
    json_context: json::Value,
    options: Options,
) -> (r: Result<json::Value, Error>)
    ensures
        json_view(r) == compact_document(*resolver, context@, expanded@, json_context@, options),
{
    let compacted = if expanded.len() == 1 && options.compact_arrays {
        compact_indexed_with(resolver, &expanded[0], context, context, None, options)
    } else {
        compact_collection_with(resolver, expanded, context, context, None, options)
    };
    let compacted = match compacted {
        Ok(c) => c,
        Err(e) => {
            return Err(e);
        },
    };
    let mut map = match compacted {
        json::Value::Array(items) => {
            let mut map = Object::new();
            assert(json::values_view(items@).len() == items@.len());
            if items.len() > 0 {
                map.insert(alias_for(context, Keyword::Graph, options), json::Value::Array(items));
            }
            map
        },
        json::Value::Object(map) => map,
        _ => {
            return Err(Error::UnexpectedObjectShape);
        },
    };
    if !json_context.is_empty() {
        map.insert(alias_for(context, Keyword::Context, options), json_context);
    }
    Ok(json::Value::Object(map))
}

/// Compacts an expanded document under a context with the default
/// options.
pub fn compact<'a>(
    resolver: &'a Resolver,
    expanded: &Vec<Indexed<DocObject>>,
    context: &Inversible<'a>,
    json_context: json::Value,
) -> (r: Result<json::Value, Error>)
    ensures
        json_view(r) == compact_document(
            *resolver,
            context@,
            expanded@,
            json_context@,
            Options {
                processing_mode: crate::syntax::ProcessingMode::JsonLd1_1,
                compact_to_relative: true,
                compact_arrays: true,
                ordered: false,
            },
        ),
{
    compact_with(resolver, expanded, context, json_context, Options::default())
}

/// A document together with the IRI it was loaded from.
#[derive(Debug)]
pub struct RemoteDocument<D> {
    /// The base URL of the document.
    base_url: String,
    /// The document contents.
    doc: D,
}

impl<D> RemoteDocument<D> {
    #[verifier::type_invariant]
    spec fn located(self) -> bool {
        is_iri(self.base_url@)
    }

    /// The base URL.
    pub closed spec fn spec_base_url(&self) -> Seq<char> {
        self.base_url@
    }

    /// The document.
    pub closed spec fn spec_document(&self) -> D {
        self.doc
    }

    /// Create a new remote document from the document contents and base
    /// URL; the contents are handed back where the URL is no IRI.
    pub fn new(doc: D, base_url: &str) -> (r: Result<RemoteDocument<D>, D>)
        ensures
            match r {
                Ok(d) => is_iri(base_url@) && d.spec_base_url() == base_url@ && d.spec_document()
                    == doc,
                Err(d) => !is_iri(base_url@) && d == doc,
            },
    {
        if parses_as_iri(base_url) {
            Ok(RemoteDocument { base_url: base_url.to_owned(), doc: doc })
        } else {
            Err(doc)
        }
    }

    /// The base URL of the document: a well-formed IRI.
    pub fn base_url(&self) -> (r: &str)
        ensures
            r@ == self.spec_base_url(),
            is_iri(r@),
    {
        proof {
            use_type_invariant(self);
        }
        self.base_url.as_str()
    }

    /// The document contents.
    pub fn document(&self) -> (r: &D)
        ensures
            *r == self.spec_document(),
    {
        &self.doc
    }

    /// Consume the remote document and return the inner document.
    pub fn into_document(self) -> (r: D)
        ensures
            r == self.spec_document(),
    {
        self.doc
    }

    /// Consume the remote document and return the inner document along
    /// with its base URL.
    pub fn into_parts(self) -> (r: (D, String))
        ensures
            r.0 == self.spec_document(),
            r.1@ == self.spec_base_url(),
    {
        (self.doc, self.base_url)
    }
}


/// The context at the root. Where the context is attached, the document
/// holds it under `@context`; where it is not, the document is its body.
pub proof fn lemma_context_entry(ctx: Context, body: ObjectView, json_context: JsonView, options: Options)
    ensures
        context_attached(json_context) ==> get(
            with_context(ctx, body, json_context, options),
            alias(ctx, Keyword::Context, options),
        ) == Some(json_context),
        !context_attached(json_context) ==> with_context(ctx, body, json_context, options) == body,
{
    json::lemma_insert_get(
        body,
        alias(ctx, Keyword::Context, options),
        json_context,
        alias(ctx, Keyword::Context, options),
    );
}

/// The context is at the root exactly when it is not empty. For a body
/// without an entry under `@context`, the document holds the context under
/// `@context` if and only if the context is neither null nor empty.
pub proof fn lemma_context_iff_not_empty(
    ctx: Context,
    body: ObjectView,
    json_context: JsonView,
    options: Options,
)
    requires
        get(body, alias(ctx, Keyword::Context, options)) is None,
    ensures
        get(with_context(ctx, body, json_context, options), alias(ctx, Keyword::Context, options))
            == Some(json_context) <==> !is_empty_json(json_context),
{
    lemma_context_entry(ctx, body, json_context, options);
}

/// Every compacted document holds its context. Whatever the expanded
/// document, where compaction succeeds and the context is neither null nor
/// empty, the document is an object that holds the context, as it was
/// written, under `@context`; where the context is null or empty, the
/// document is the object of its body alone.
pub proof fn lemma_document_holds_context(
    resolver: Resolver,
    ctx: Context,
    expanded: Seq<Indexed<DocObject>>,
    json_context: JsonView,
    options: Options,
)
    ensures
        match compact_document(resolver, ctx, expanded, json_context, options) {
            Ok(JsonView::Object(o)) => if is_empty_json(json_context) {
                match compact_top_level(resolver, ctx, expanded, options) {
                    Ok(c) => document_body(ctx, c, options) == Ok::<ObjectView, Error>(o),
                    Err(_) => false,
                }
            } else {
                get(o, alias(ctx, Keyword::Context, options)) == Some(json_context)
            },
            Ok(_) => false,
            Err(_) => true,
        },
{
    match compact_top_level(resolver, ctx, expanded, options) {
        Ok(c) => match document_body(ctx, c, options) {
            Ok(body) => {
                lemma_context_entry(ctx, body, json_context, options);
            },
            Err(_) => {},
        },
        Err(_) => {},
    }
}

/// Compaction is a function of its inputs: two compactions of the same
/// document under the same context with the same options give the same
/// outcome, be it `ordered` or not.
pub proof fn lemma_compaction_is_deterministic(
    resolver: Resolver,
    ctx: Context,
    expanded: Seq<Indexed<DocObject>>,
    json_context: JsonView,
    options: Options,
    first: Result<json::Value, Error>,
    second: Result<json::Value, Error>,
)
    requires
        json_view(first) == compact_document(resolver, ctx, expanded, json_context, options),
        json_view(second) == compact_document(resolver, ctx, expanded, json_context, options),
    ensures
        json_view(first) == json_view(second),
{
}

/// Keyword aliasing, for the document of one node. Every key at the root
/// of the compacted document stands for `@context`, for another keyword, or
/// for a property of the node: it is the keyword itself, a term that the
/// context maps to the keyword, a term that the context maps to the
/// property, or the property written as an IRI.
pub proof fn lemma_single_node_document_keys(
    resolver: Resolver,
    ctx: Context,
    node: crate::object::node::Node,
    json_context: JsonView,
    options: Options,
    k: Seq<char>,
)
    requires
        ctx.wf(),
        crate::compaction::model::restored(ctx).wf(),
        options.compact_arrays,
    ensures
        compact_document(
            resolver,
            ctx,
            seq![(Indexed { value: DocObject::Node(node), index: None })],
            json_context,
            options,
        ) matches Ok(JsonView::Object(o)) ==> (get(o, k) is Some ==> crate::compaction::keys::stands_for(
            ctx,
            k,
            crate::syntax::Term::Keyword(Keyword::Context),
        ) || crate::compaction::keys::node_key(
            if node.spec_is_empty() && node.id is Some {
                ctx
            } else {
                crate::compaction::model::restored(ctx)
            },
            node,
            k,
        )),
{
    let item = Indexed { value: DocObject::Node(node), index: None };
    let expanded = seq![item];
    assert(expanded[0] == item);
    crate::compaction::keys::lemma_compact_node_keys(
        resolver,
        ctx,
        ctx,
        None,
        node,
        None,
        options,
        k,
    );
    crate::compaction::keys::lemma_vocab_term_stands(
        ctx,
        crate::syntax::Term::Keyword(Keyword::Context),
        None,
        false,
        options,
    );
    match compact_top_level(resolver, ctx, expanded, options) {
        Ok(c) => match document_body(ctx, c, options) {
            Ok(body) => {
                json::lemma_insert_get(
                    body,
                    alias(ctx, Keyword::Context, options),
                    json_context,
                    k,
                );
            },
            Err(_) => {},
        },
        Err(_) => {},
    }
}

} // verus!
