//! Contexts: term definitions and defaults.

pub mod definition;
pub mod inverse;

use vstd::prelude::*;
use crate::direction::Direction;
use crate::error::Error;
use crate::lang::LanguageTagBuf;
use crate::syntax::{ProcessingMode, Term};
use crate::text::{lex_lt, lemma_lex_lt_total, lemma_lex_lt_transitive, str_eq, str_lt};
use crate::context::definition::TermDefinition;

verus! {

/// A context: what its terms mean, the defaults, and the context that was
/// in force before a term-scoped context replaced it.
#[derive(Debug)]
pub struct Context {
    pub base_iri: Option<String>,
    pub vocabulary: Option<Term>,
    pub default_language: Option<LanguageTagBuf>,
    pub default_base_direction: Option<Direction>,
    pub previous_context: Option<Box<Context>>,
    /// The term definitions, shorter terms first, terms of one length in
    /// lexicographic order.
    pub definitions: Vec<(String, TermDefinition)>,
}

/// The order in which terms are walked: shorter first, then lexicographic.
pub open spec fn term_before(a: Seq<char>, b: Seq<char>) -> bool {
    a.len() < b.len() || (a.len() == b.len() && lex_lt(a, b))
}

/// Whether the terms stand in strictly ascending order.
pub open spec fn sorted(defs: Seq<(String, TermDefinition)>) -> bool {
    forall|i: int, j: int|
        0 <= i < j < defs.len() ==> term_before((#[trigger] defs[i]).0@, (#[trigger] defs[j]).0@)
}

/// The first position from `i` on at which `term` is defined.
pub open spec fn position_from(defs: Seq<(String, TermDefinition)>, term: Seq<char>, i: int) -> Option<int>
    decreases defs.len() - i,
{
    if i < 0 || i >= defs.len() {
        None
    } else if defs[i].0@ == term {
        Some(i)
    } else {
        position_from(defs, term, i + 1)
    }
}

/// The definition that `defs` holds for `term`.
pub open spec fn lookup(defs: Seq<(String, TermDefinition)>, term: Seq<char>) -> Option<TermDefinition> {
    match position_from(defs, term, 0) {
        Some(i) => Some(defs[i].1),
        None => None,
    }
}

/// How many terms of `defs`, counted from the front, stand before `term`.
pub open spec fn insertion_point(defs: Seq<(String, TermDefinition)>, term: Seq<char>, i: int) -> int
    decreases defs.len() - i,
{
    if i < 0 || i >= defs.len() {
        defs.len() as int
    } else if term_before(defs[i].0@, term) {
        insertion_point(defs, term, i + 1)
    } else {
        i
    }
}

/// `defs` with `term` defined as `definition`, in its place in the order.
pub open spec fn with_definition(
    defs: Seq<(String, TermDefinition)>,
    term: String,
    definition: TermDefinition,
) -> Seq<(String, TermDefinition)> {
    let i = insertion_point(defs, term@, 0);
    if i < defs.len() && defs[i].0@ == term@ {
        defs.update(i, (term, definition))
    } else {
        defs.insert(i, (term, definition))
    }
}

/// Of two different terms exactly one stands before the other.
pub proof fn lemma_term_before_total(a: Seq<char>, b: Seq<char>)
    ensures
        a != b ==> (term_before(a, b) <==> !term_before(b, a)),
        !term_before(a, a),
{
    lemma_lex_lt_total(a, b);
    lemma_lex_lt_total(a, a);
}

/// The order of terms is transitive.
pub proof fn lemma_term_before_transitive(a: Seq<char>, b: Seq<char>, c: Seq<char>)
    requires
        term_before(a, b),
        term_before(b, c),
    ensures
        term_before(a, c),
{
    if a.len() == b.len() && b.len() == c.len() {
        lemma_lex_lt_transitive(a, b, c);
    }
}

/// Where `insertion_point` stops: every term before the point stands
/// before `term`, and the term at the point does not.
pub proof fn lemma_insertion_point(defs: Seq<(String, TermDefinition)>, term: Seq<char>, i: int)
    requires
        0 <= i <= defs.len(),
    ensures
        i <= insertion_point(defs, term, i) <= defs.len(),
        forall|j: int|
            i <= j < insertion_point(defs, term, i) ==> term_before((#[trigger] defs[j]).0@, term),
        insertion_point(defs, term, i) < defs.len() ==> !term_before(
            defs[insertion_point(defs, term, i)].0@,
            term,
        ),
    decreases defs.len() - i,
{
    if i < defs.len() && term_before(defs[i].0@, term) {
        lemma_insertion_point(defs, term, i + 1);
    }
}

/// Defining a term keeps the order.
pub proof fn lemma_with_definition_sorted(
    defs: Seq<(String, TermDefinition)>,
    term: String,
    definition: TermDefinition,
)
    requires
        sorted(defs),
    ensures
        sorted(with_definition(defs, term, definition)),
{
    let p = insertion_point(defs, term@, 0);
    lemma_insertion_point(defs, term@, 0);
    let after = with_definition(defs, term, definition);
    if p < defs.len() && defs[p].0@ == term@ {
        assert forall|i: int, j: int| 0 <= i < j < after.len() implies term_before(
            (#[trigger] after[i]).0@,
            (#[trigger] after[j]).0@,
        ) by {
            assert(after[i].0@ == defs[i].0@);
            assert(after[j].0@ == defs[j].0@);
        }
    } else {
        assert forall|i: int, j: int| 0 <= i < j < after.len() implies term_before(
            (#[trigger] after[i]).0@,
            (#[trigger] after[j]).0@,
        ) by {
            if j < p {
                assert(after[i] == defs[i]);
                assert(after[j] == defs[j]);
            } else if j == p {
                assert(after[i] == defs[i]);
            } else if i < p {
                assert(after[i] == defs[i]);
                assert(after[j] == defs[j - 1]);
            } else if i == p {
                assert(after[j] == defs[j - 1]);
                lemma_term_before_total(defs[p].0@, term@);
                if j - 1 > p {
                    assert(term_before(defs[p].0@, defs[j - 1].0@));
                    lemma_term_before_transitive(term@, defs[p].0@, defs[j - 1].0@);
                }
            } else {
                assert(after[i] == defs[i - 1]);
                assert(after[j] == defs[j - 1]);
            }
        }
    }
}

/// What `position_from` finds is the first definition of the term at or
/// after `i`.
pub proof fn lemma_position_from(defs: Seq<(String, TermDefinition)>, term: Seq<char>, i: int)
    requires
        0 <= i,
    ensures
        match position_from(defs, term, i) {
            Some(k) => i <= k < defs.len() && defs[k].0@ == term && forall|j: int|
                i <= j < k ==> (#[trigger] defs[j]).0@ != term,
            None => forall|j: int| i <= j < defs.len() ==> (#[trigger] defs[j]).0@ != term,
        },
    decreases defs.len() - i,
{
    if i < defs.len() && defs[i].0@ != term {
        lemma_position_from(defs, term, i + 1);
    }
}

/// After a term was defined, looking it up gives the new definition, and
/// every other term is defined as before.
pub proof fn lemma_with_definition_lookup(
    defs: Seq<(String, TermDefinition)>,
    term: String,
    definition: TermDefinition,
    other: Seq<char>,
)
    requires
        sorted(defs),
    ensures
        lookup(with_definition(defs, term, definition), term@) == Some(definition),
        other != term@ ==> lookup(with_definition(defs, term, definition), other) == lookup(
            defs,
            other,
        ),
{
    let p = insertion_point(defs, term@, 0);
    lemma_insertion_point(defs, term@, 0);
    let after = with_definition(defs, term, definition);
    lemma_with_definition_sorted(defs, term, definition);
    lemma_position_from(after, term@, 0);
    lemma_position_from(after, other, 0);
    lemma_position_from(defs, other, 0);
    assert(after[p].0@ == term@);
    match position_from(after, term@, 0) {
        Some(k) => {
            if k != p {
                lemma_term_before_total(term@, term@);
                if k < p {
                    assert(term_before(after[k].0@, after[p].0@));
                } else {
                    assert(term_before(after[p].0@, after[k].0@));
                }
            }
        },
        None => {},
    }
    if other != term@ {
        let shifted = !(p < defs.len() && defs[p].0@ == term@);
        // Where a definition of `other` stands before and after.
        let to_after = |k: int| if shifted && k >= p { k + 1 } else { k };
        let to_before = |k: int| if shifted && k > p { k - 1 } else { k };
        assert forall|k: int| 0 <= k < defs.len() implies #[trigger] after[to_after(k)] == defs[k]
            || k == p && !shifted by {}
        assert forall|k: int| 0 <= k < after.len() && k != p implies #[trigger] defs[to_before(k)]
            == after[k] by {}
        match position_from(defs, other, 0) {
            Some(k) => {
                let k2 = to_after(k);
                assert(after[k2] == defs[k]);
                match position_from(after, other, 0) {
                    Some(k3) => {
                        if k3 != k2 {
                            lemma_term_before_total(other, other);
                            if k3 < k2 {
                                assert(term_before(after[k3].0@, after[k2].0@));
                            } else {
                                assert(term_before(after[k2].0@, after[k3].0@));
                            }
                        }
                    },
                    None => {
                        assert(after[k2].0@ == other);
                    },
                }
            },
            None => {
                match position_from(after, other, 0) {
                    Some(k3) => {
                        assert(k3 != p);
                        assert(defs[to_before(k3)] == after[k3]);
                    },
                    None => {},
                }
            },
        }
    }
}

/// In a well-formed list each term is looked up as its own definition.
pub proof fn lemma_lookup_own(defs: Seq<(String, TermDefinition)>, m: int)
    requires
        sorted(defs),
        0 <= m < defs.len(),
    ensures
        lookup(defs, defs[m].0@) == Some(defs[m].1),
{
    let t = defs[m].0@;
    lemma_position_from(defs, t, 0);
    match position_from(defs, t, 0) {
        Some(k) => {
            if k != m {
                lemma_term_before_total(t, t);
                assert(term_before(defs[k].0@, defs[m].0@));
            }
        },
        None => {},
    }
}

impl Context {
    /// A context is well formed when its terms stand in ascending order,
    /// so that none is defined twice.
    pub open spec fn wf(&self) -> bool {
        sorted(self.definitions@)
    }

    /// The definition of `term`.
    pub open spec fn spec_get(&self, term: Seq<char>) -> Option<TermDefinition> {
        lookup(self.definitions@, term)
    }

    /// The context that defines no term.
    pub fn new(base_iri: Option<String>) -> (r: Context)
        ensures
            r.base_iri == base_iri,
            r.vocabulary is None,
            r.default_language is None,
            r.default_base_direction is None,
            r.previous_context is None,
            r.definitions@.len() == 0,
            r.wf(),
    {
        Context {
            base_iri,
            vocabulary: None,
            default_language: None,
            default_base_direction: None,
            previous_context: None,
            definitions: Vec::new(),
        }
    }

    /// The definition of `term`, if the context has one.
    pub fn get(&self, term: &str) -> (r: Option<&TermDefinition>)
        ensures
            match r {
                Some(d) => self.spec_get(term@) == Some(*d),
                None => self.spec_get(term@) is None,
            },
    {
        let mut i: usize = 0;
        while i < self.definitions.len()
            invariant
                i <= self.definitions.len(),
                position_from(self.definitions@, term@, i as int) == position_from(
                    self.definitions@,
                    term@,
                    0,
                ),
            decreases self.definitions.len() - i,
        {
            if str_eq(self.definitions[i].0.as_str(), term) {
                return Some(&self.definitions[i].1);
            }
            i += 1;
        }
        None
    }

    /// Whether the context defines `term`.
    pub fn contains(&self, term: &str) -> (r: bool)
        ensures
            r == (self.spec_get(term@) is Some),
    {
        self.get(term).is_some()
    }

    /// Defines `term`, in place of what the context said of it before.
    pub fn set(&mut self, term: String, definition: TermDefinition)
        requires
            old(self).wf(),
        ensures
            final(self).wf(),
            final(self).definitions@ == with_definition(old(self).definitions@, term, definition),
            final(self).spec_get(term@) == Some(definition),
            forall|other: Seq<char>|
                other != term@ ==> #[trigger] final(self).spec_get(other) == old(self).spec_get(
                    other,
                ),
            final(self).base_iri == old(self).base_iri,
            final(self).vocabulary == old(self).vocabulary,
            final(self).default_language == old(self).default_language,
            final(self).default_base_direction == old(self).default_base_direction,
            final(self).previous_context == old(self).previous_context,
    {
        let n = term.as_str().unicode_len();
        let mut i: usize = 0;
        while i < self.definitions.len()
            invariant
                i <= self.definitions.len(),
                *self == *old(self),
                n == term@.len(),
                insertion_point(self.definitions@, term@, i as int) == insertion_point(
                    self.definitions@,
                    term@,
                    0,
                ),
            ensures
                i <= self.definitions.len(),
                *self == *old(self),
                insertion_point(self.definitions@, term@, 0) == i as int,
            decreases self.definitions.len() - i,
        {
            let key = self.definitions[i].0.as_str();
            let m = key.unicode_len();
            if m < n || (m == n && str_lt(key, term.as_str())) {
                i += 1;
            } else {
                break;
            }
        }
        proof {
            lemma_with_definition_sorted(self.definitions@, term, definition);
            lemma_with_definition_lookup(self.definitions@, term, definition, term@);
            assert forall|other: Seq<char>| other != term@ implies #[trigger] lookup(
                with_definition(self.definitions@, term, definition),
                other,
            ) == lookup(self.definitions@, other) by {
                lemma_with_definition_lookup(self.definitions@, term, definition, other);
            }
        }
        if i < self.definitions.len() && str_eq(self.definitions[i].0.as_str(), term.as_str()) {
            self.definitions.set(i, (term, definition));
        } else {
            self.definitions.insert(i, (term, definition));
        }
    }

    /// The base IRI.
    pub fn base_iri(&self) -> (r: Option<&str>)
        ensures
            match r {
                Some(s) => self.base_iri matches Some(b) && s@ == b@,
                None => self.base_iri is None,
            },
    {
        match &self.base_iri {
            Some(iri) => Some(iri.as_str()),
            None => None,
        }
    }

    /// The vocabulary mapping.
    pub fn vocabulary(&self) -> (r: Option<&Term>)
        ensures
            match r {
                Some(t) => self.vocabulary == Some(*t),
                None => self.vocabulary is None,
            },
    {
        self.vocabulary.as_ref()
    }

    /// The default language.
    pub fn default_language(&self) -> (r: Option<&LanguageTagBuf>)
        ensures
            match r {
                Some(t) => self.default_language == Some(*t),
                None => self.default_language is None,
            },
    {
        self.default_language.as_ref()
    }

    /// The default base direction.
    pub fn default_base_direction(&self) -> (r: Option<Direction>)
        ensures
            r == self.default_base_direction,
    {
        self.default_base_direction
    }

    /// The context to go back to when a term-scoped context ends.
    pub fn previous_context(&self) -> (r: Option<&Context>)
        ensures
            match r {
                Some(c) => self.previous_context matches Some(b) && *b == *c,
                None => self.previous_context is None,
            },
    {
        match &self.previous_context {
            Some(b) => Some(&**b),
            None => None,
        }
    }
}

/// How a local context is processed.
#[derive(Clone, Copy, PartialEq, Eq, Structural, Debug)]
pub struct ProcessingOptions {
    /// The processing mode.
    pub processing_mode: ProcessingMode,
    /// Whether protected terms may be replaced.
    pub override_protected: bool,
    /// Whether the new context stays in force inside nested nodes.
    pub propagate: bool,
}

impl ProcessingOptions {
    /// The same options, with leave to replace protected terms.
    pub fn with_override(self) -> (r: ProcessingOptions)
        ensures
            r == (ProcessingOptions { override_protected: true, ..self }),
    {
        ProcessingOptions { override_protected: true, ..self }
    }

    /// The same options, for a context that ends at the next node.
    pub fn without_propagation(self) -> (r: ProcessingOptions)
        ensures
            r == (ProcessingOptions { propagate: false, ..self }),
    {
        ProcessingOptions { propagate: false, ..self }
    }
}

impl Default for ProcessingOptions {
    fn default() -> (r: ProcessingOptions)
        ensures
            r == (ProcessingOptions {
                processing_mode: ProcessingMode::JsonLd1_1,
                override_protected: false,
                propagate: true,
            }),
    {
        ProcessingOptions {
            processing_mode: ProcessingMode::JsonLd1_1,
            override_protected: false,
            propagate: true,
        }
    }
}

/// The nested local contexts of a document, processed ahead of compaction:
/// for each number that a term definition may name, the context that
/// processing gave, or the error it ended with.
#[derive(Debug)]
pub struct Resolver {
    pub processed: Vec<Result<Context, Error>>,
}

/// What processing the local context `local` gives.
pub open spec fn resolve(processed: Seq<Result<Context, Error>>, local: usize) -> Result<Context, Error> {
    if local < processed.len() {
        processed[local as int]
    } else {
        Err(Error::InvalidLocalContext)
    }
}

impl Resolver {
    /// The table without entries.
    pub fn new() -> (r: Resolver)
        ensures
            r.processed@.len() == 0,
    {
        Resolver { processed: Vec::new() }
    }

    /// Records what processing a local context gave, and hands back the
    /// number under which term definitions name it.
    pub fn add(&mut self, outcome: Result<Context, Error>) -> (r: usize)
        ensures
            r == old(self).processed@.len(),
            final(self).processed@ == old(self).processed@.push(outcome),
            resolve(final(self).processed@, r) == outcome,
    {
        let id = self.processed.len();
        self.processed.push(outcome);
        id
    }

    /// The context that processing the local context `local` gave, or the
    /// error it ended with; `InvalidLocalContext` where the table does not
    /// know the number.
    pub fn process_local(&self, local: usize) -> (r: Result<&Context, Error>)
        ensures
            match r {
                Ok(c) => resolve(self.processed@, local) == Ok::<Context, Error>(*c),
                Err(e) => resolve(self.processed@, local) == Err::<Context, Error>(e),
            },
    {
        if local < self.processed.len() {
            match &self.processed[local] {
                Ok(c) => Ok(c),
                Err(e) => Err(*e),
            }
        } else {
            Err(Error::InvalidLocalContext)
        }
    }
}

} // verus!
