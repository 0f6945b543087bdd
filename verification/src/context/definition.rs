//! Term definitions.

use vstd::prelude::*;
use crate::direction::Direction;
use crate::lang::{tags_equal, LanguageTagBuf};
use crate::syntax::{Container, Nullable, Term, Type};
use crate::text::str_eq;

verus! {

/// What a context says of one term.
#[derive(Debug)]
pub struct TermDefinition {
    /// IRI mapping.
    pub value: Option<Term>,
    /// Prefix flag.
    pub prefix: bool,
    /// Protected flag.
    pub protected: bool,
    /// Reverse property flag.
    pub reverse_property: bool,
    /// Optional base URL.
    pub base_url: Option<String>,
    /// Optional nested local context, not yet processed: its number in the
    /// table of the resolver.
    pub context: Option<usize>,
    /// Container mapping.
    pub container: Container,
    /// Optional direction mapping.
    pub direction: Option<Nullable<Direction>>,
    /// Optional index mapping.
    pub index: Option<String>,
    /// Optional language mapping.
    pub language: Option<Nullable<LanguageTagBuf>>,
    /// Optional nest value.
    pub nest: Option<String>,
    /// Optional type mapping.
    pub typ: Option<Type>,
}

/// Equality of two optional strings by their characters.
pub open spec fn opt_text_eq(a: Option<String>, b: Option<String>) -> bool {
    match (a, b) {
        (Some(x), Some(y)) => x@ == y@,
        (None, None) => true,
        _ => false,
    }
}

/// Equality of two language mappings, without regard to case.
pub open spec fn language_mapping_eq(
    a: Option<Nullable<LanguageTagBuf>>,
    b: Option<Nullable<LanguageTagBuf>>,
) -> bool {
    match (a, b) {
        (Some(Nullable::Value(x)), Some(Nullable::Value(y))) => tags_equal(x@, y@),
        (Some(Nullable::Null), Some(Nullable::Null)) => true,
        (None, None) => true,
        _ => false,
    }
}

/// Equality of two direction mappings.
pub open spec fn direction_mapping_eq(
    a: Option<Nullable<Direction>>,
    b: Option<Nullable<Direction>>,
) -> bool {
    match (a, b) {
        (Some(Nullable::Value(x)), Some(Nullable::Value(y))) => x == y,
        (Some(Nullable::Null), Some(Nullable::Null)) => true,
        (None, None) => true,
        _ => false,
    }
}

/// Equality of two optional terms.
pub open spec fn opt_term_eq(a: Option<Term>, b: Option<Term>) -> bool {
    match (a, b) {
        (Some(x), Some(y)) => x@ == y@,
        (None, None) => true,
        _ => false,
    }
}

/// Equality of two optional type references.
pub open spec fn opt_type_eq(a: Option<Type>, b: Option<Type>) -> bool {
    match (a, b) {
        (Some(x), Some(y)) => x@ == y@,
        (None, None) => true,
        _ => false,
    }
}

/// Equality of two term definitions. The protected flag takes no part in it.
pub open spec fn definition_eq(a: TermDefinition, b: TermDefinition) -> bool {
    &&& a.prefix == b.prefix
    &&& a.reverse_property == b.reverse_property
    &&& language_mapping_eq(a.language, b.language)
    &&& direction_mapping_eq(a.direction, b.direction)
    &&& opt_text_eq(a.nest, b.nest)
    &&& opt_text_eq(a.index, b.index)
    &&& a.container == b.container
    &&& opt_text_eq(a.base_url, b.base_url)
    &&& opt_term_eq(a.value, b.value)
    &&& opt_type_eq(a.typ, b.typ)
    &&& a.context == b.context
}

/// The definition that says nothing.
pub open spec fn empty_definition(d: TermDefinition) -> bool {
    &&& d.value is None
    &&& !d.prefix
    &&& !d.protected
    &&& !d.reverse_property
    &&& d.base_url is None
    &&& d.context is None
    &&& d.container == Container::spec_new()
    &&& d.direction is None
    &&& d.index is None
    &&& d.language is None
    &&& d.nest is None
    &&& d.typ is None
}

fn opt_str_eq(a: &Option<String>, b: &Option<String>) -> (r: bool)
    ensures
        r == opt_text_eq(*a, *b),
{
    match (a, b) {
        (Some(x), Some(y)) => str_eq(x.as_str(), y.as_str()),
        (None, None) => true,
        _ => false,
    }
}

impl TermDefinition {
    /// A definition is well formed when the prefix flag is off for a
    /// keyword, and a reverse property has no container flag but `@set` or
    /// `@index`.
    pub open spec fn wf(&self) -> bool {
        &&& (self.value matches Some(Term::Keyword(_)) ==> !self.prefix)
        &&& (self.reverse_property ==> {
            &&& !self.container.graph
            &&& !self.container.id
            &&& !self.container.language
            &&& !self.container.list
            &&& !self.container.typ
        })
    }

    /// The base URL that the nested local context is processed against.
    pub fn base_url(&self) -> (r: Option<&str>)
        ensures
            match r {
                Some(s) => self.base_url matches Some(b) && s@ == b@,
                None => self.base_url is None,
            },
    {
        match &self.base_url {
            Some(iri) => Some(iri.as_str()),
            None => None,
        }
    }

    /// Whether both definitions say the same, the protected flag aside.
    pub fn eq(&self, other: &TermDefinition) -> (r: bool)
        ensures
            r == definition_eq(*self, *other),
    {
        let language = match (&self.language, &other.language) {
            (Some(Nullable::Value(x)), Some(Nullable::Value(y))) => x.same_as(y),
            (Some(Nullable::Null), Some(Nullable::Null)) => true,
            (None, None) => true,
            _ => false,
        };
        let direction = match (&self.direction, &other.direction) {
            (Some(Nullable::Value(x)), Some(Nullable::Value(y))) => *x == *y,
            (Some(Nullable::Null), Some(Nullable::Null)) => true,
            (None, None) => true,
            _ => false,
        };
        let value = match (&self.value, &other.value) {
            (Some(x), Some(y)) => x.same(y),
            (None, None) => true,
            _ => false,
        };
        let typ = match (&self.typ, &other.typ) {
            (Some(x), Some(y)) => x.same(y),
            (None, None) => true,
            _ => false,
        };
        let context = match (&self.context, &other.context) {
            (Some(x), Some(y)) => *x == *y,
            (None, None) => true,
            _ => false,
        };
        self.prefix == other.prefix && self.reverse_property == other.reverse_property && language
            && direction && opt_str_eq(&self.nest, &other.nest) && opt_str_eq(
            &self.index,
            &other.index,
        ) && self.container == other.container && opt_str_eq(&self.base_url, &other.base_url)
            && value && typ && context
    }

    /// The plain definition of a term that maps to `iri`.
    pub fn simple(iri: &str) -> (r: TermDefinition)
        ensures
            r.value matches Some(Term::Ref(s)) && s@ == iri@,
            !r.prefix,
            !r.protected,
            !r.reverse_property,
            r.base_url is None,
            r.context is None,
            r.container == Container::spec_new(),
            r.direction is None,
            r.index is None,
            r.language is None,
            r.nest is None,
            r.typ is None,
            r.wf(),
    {
        let mut d = TermDefinition::default();
        d.value = Some(Term::Ref(iri.to_owned()));
        d
    }
}

impl Default for TermDefinition {
    fn default() -> (r: TermDefinition)
        ensures
            empty_definition(r),
            r.wf(),
    {
        TermDefinition {
            value: None,
            prefix: false,
            protected: false,
            reverse_property: false,
            base_url: None,
            typ: None,
            language: None,
            direction: None,
            context: None,
            nest: None,
            index: None,
            container: Container::new(),
        }
    }
}

} // verus!
