//! Keywords, terms, container mappings and type references.

use vstd::prelude::*;
use crate::text::str_eq;

verus! {

/// Reserved names of the format.
#[derive(Clone, Copy, PartialEq, Eq, Structural, Hash, Debug)]
pub enum Keyword {
    /// `@base`
    Base,
    /// `@context`
    Context,
    /// `@direction`
    Direction,
    /// `@graph`
    Graph,
    /// `@id`
    Id,
    /// `@included`
    Included,
    /// `@index`
    Index,
    /// `@json`
    Json,
    /// `@language`
    Language,
    /// `@list`
    List,
    /// `@nest`
    Nest,
    /// `@none`
    NoValue,
    /// `@reverse`
    Reverse,
    /// `@set`
    SetOf,
    /// `@type`
    Type,
    /// `@value`
    Value,
    /// `@vocab`
    Vocab,
}

/// The text of a keyword, with its leading `@`.
pub open spec fn keyword_text(k: Keyword) -> Seq<char> {
    match k {
        Keyword::Base => "@base"@,
        Keyword::Context => "@context"@,
        Keyword::Direction => "@direction"@,
        Keyword::Graph => "@graph"@,
        Keyword::Id => "@id"@,
        Keyword::Included => "@included"@,
        Keyword::Index => "@index"@,
        Keyword::Json => "@json"@,
        Keyword::Language => "@language"@,
        Keyword::List => "@list"@,
        Keyword::Nest => "@nest"@,
        Keyword::NoValue => "@none"@,
        Keyword::Reverse => "@reverse"@,
        Keyword::SetOf => "@set"@,
        Keyword::Type => "@type"@,
        Keyword::Value => "@value"@,
        Keyword::Vocab => "@vocab"@,
    }
}

/// Whether the text spells a keyword.
pub open spec fn is_keyword(text: Seq<char>) -> bool {
    exists|k: Keyword| text == #[trigger] keyword_text(k)
}

/// The second, third and fourth character of the text of a keyword: they
/// tell the keywords apart.
pub proof fn lemma_keyword_letters(k: Keyword)
    ensures
        keyword_text(k).len() >= 3,
        match k {
            Keyword::Base => keyword_text(k)[1] == 'b',
            Keyword::Context => keyword_text(k)[1] == 'c',
            Keyword::Direction => keyword_text(k)[1] == 'd',
            Keyword::Graph => keyword_text(k)[1] == 'g',
            Keyword::Id => keyword_text(k)[1] == 'i' && keyword_text(k)[2] == 'd',
            Keyword::Included => keyword_text(k)[1] == 'i' && keyword_text(k)[2] == 'n'
                && keyword_text(k)[3] == 'c',
            Keyword::Index => keyword_text(k)[1] == 'i' && keyword_text(k)[2] == 'n'
                && keyword_text(k)[3] == 'd',
            Keyword::Json => keyword_text(k)[1] == 'j',
            Keyword::Language => keyword_text(k)[1] == 'l' && keyword_text(k)[2] == 'a',
            Keyword::List => keyword_text(k)[1] == 'l' && keyword_text(k)[2] == 'i',
            Keyword::Nest => keyword_text(k)[1] == 'n' && keyword_text(k)[2] == 'e',
            Keyword::NoValue => keyword_text(k)[1] == 'n' && keyword_text(k)[2] == 'o',
            Keyword::Reverse => keyword_text(k)[1] == 'r',
            Keyword::SetOf => keyword_text(k)[1] == 's',
            Keyword::Type => keyword_text(k)[1] == 't',
            Keyword::Value => keyword_text(k)[1] == 'v' && keyword_text(k)[2] == 'a',
            Keyword::Vocab => keyword_text(k)[1] == 'v' && keyword_text(k)[2] == 'o',
        },
{
    reveal_strlit("@base");
    reveal_strlit("@context");
    reveal_strlit("@direction");
    reveal_strlit("@graph");
    reveal_strlit("@id");
    reveal_strlit("@included");
    reveal_strlit("@index");
    reveal_strlit("@json");
    reveal_strlit("@language");
    reveal_strlit("@list");
    reveal_strlit("@nest");
    reveal_strlit("@none");
    reveal_strlit("@reverse");
    reveal_strlit("@set");
    reveal_strlit("@type");
    reveal_strlit("@value");
    reveal_strlit("@vocab");
}

/// No two keywords are spelled alike.
pub proof fn lemma_keyword_text_injective(a: Keyword, b: Keyword)
    ensures
        keyword_text(a) == keyword_text(b) <==> a == b,
{
    lemma_keyword_letters(a);
    lemma_keyword_letters(b);
}

impl Keyword {
    /// The keyword that `text` spells, if it spells one.
    pub fn parse(text: &str) -> (r: Option<Keyword>)
        ensures
            match r {
                Some(k) => text@ == keyword_text(k),
                None => !is_keyword(text@),
            },
            forall|k: Keyword| text@ == #[trigger] keyword_text(k) ==> r == Some(k),
    {
        let r = if str_eq(text, "@base") {
            Some(Keyword::Base)
        } else if str_eq(text, "@context") {
            Some(Keyword::Context)
        } else if str_eq(text, "@direction") {
            Some(Keyword::Direction)
        } else if str_eq(text, "@graph") {
            Some(Keyword::Graph)
        } else if str_eq(text, "@id") {
            Some(Keyword::Id)
        } else if str_eq(text, "@included") {
            Some(Keyword::Included)
        } else if str_eq(text, "@index") {
            Some(Keyword::Index)
        } else if str_eq(text, "@json") {
            Some(Keyword::Json)
        } else if str_eq(text, "@language") {
            Some(Keyword::Language)
        } else if str_eq(text, "@list") {
            Some(Keyword::List)
        } else if str_eq(text, "@nest") {
            Some(Keyword::Nest)
        } else if str_eq(text, "@none") {
            Some(Keyword::NoValue)
        } else if str_eq(text, "@reverse") {
            Some(Keyword::Reverse)
        } else if str_eq(text, "@set") {
            Some(Keyword::SetOf)
        } else if str_eq(text, "@type") {
            Some(Keyword::Type)
        } else if str_eq(text, "@value") {
            Some(Keyword::Value)
        } else if str_eq(text, "@vocab") {
            Some(Keyword::Vocab)
        } else {
            assert forall|k: Keyword| text@ != #[trigger] keyword_text(k) by {
                match k {
                    Keyword::Base => {},
                    Keyword::Context => {},
                    Keyword::Direction => {},
                    Keyword::Graph => {},
                    Keyword::Id => {},
                    Keyword::Included => {},
                    Keyword::Index => {},
                    Keyword::Json => {},
                    Keyword::Language => {},
                    Keyword::List => {},
                    Keyword::Nest => {},
                    Keyword::NoValue => {},
                    Keyword::Reverse => {},
                    Keyword::SetOf => {},
                    Keyword::Type => {},
                    Keyword::Value => {},
                    Keyword::Vocab => {},
                }
            }
            None
        };
        proof {
            assert forall|k: Keyword| text@ == #[trigger] keyword_text(k) implies r == Some(k) by {
                match r {
                    Some(x) => {
                        lemma_keyword_text_injective(x, k);
                    },
                    None => {},
                }
            }
        }
        r
    }

    /// The text of the keyword.
    pub fn into_str(self) -> (r: &'static str)
        ensures
            r@ == keyword_text(self),
    {
        match self {
            Keyword::Base => "@base",
            Keyword::Context => "@context",
            Keyword::Direction => "@direction",
            Keyword::Graph => "@graph",
            Keyword::Id => "@id",
            Keyword::Included => "@included",
            Keyword::Index => "@index",
            Keyword::Json => "@json",
            Keyword::Language => "@language",
            Keyword::List => "@list",
            Keyword::Nest => "@nest",
            Keyword::NoValue => "@none",
            Keyword::Reverse => "@reverse",
            Keyword::SetOf => "@set",
            Keyword::Type => "@type",
            Keyword::Value => "@value",
            Keyword::Vocab => "@vocab",
        }
    }
}

/// One flag of a container mapping.
#[derive(Clone, Copy, PartialEq, Eq, Structural, Hash, Debug)]
pub enum ContainerType {
    /// `@graph`
    Graph,
    /// `@id`
    Id,
    /// `@index`
    Index,
    /// `@language`
    Language,
    /// `@list`
    List,
    /// `@set`
    SetOf,
    /// `@type`
    Type,
}

/// A container mapping: a set of flags, any of which may occur together.
#[derive(Clone, Copy, PartialEq, Eq, Structural, Hash, Debug)]
pub struct Container {
    pub graph: bool,
    pub id: bool,
    pub index: bool,
    pub language: bool,
    pub list: bool,
    pub set: bool,
    pub typ: bool,
}

impl Container {
    /// The mapping without any flag.
    pub open spec fn spec_new() -> Container {
        Container {
            graph: false,
            id: false,
            index: false,
            language: false,
            list: false,
            set: false,
            typ: false,
        }
    }

    /// Whether the mapping holds the flag.
    pub open spec fn spec_contains(self, flag: ContainerType) -> bool {
        match flag {
            ContainerType::Graph => self.graph,
            ContainerType::Id => self.id,
            ContainerType::Index => self.index,
            ContainerType::Language => self.language,
            ContainerType::List => self.list,
            ContainerType::SetOf => self.set,
            ContainerType::Type => self.typ,
        }
    }

    /// The mapping with one more flag.
    pub open spec fn spec_with(self, flag: ContainerType) -> Container {
        match flag {
            ContainerType::Graph => Container { graph: true, ..self },
            ContainerType::Id => Container { id: true, ..self },
            ContainerType::Index => Container { index: true, ..self },
            ContainerType::Language => Container { language: true, ..self },
            ContainerType::List => Container { list: true, ..self },
            ContainerType::SetOf => Container { set: true, ..self },
            ContainerType::Type => Container { typ: true, ..self },
        }
    }

    /// Whether no flag is set.
    pub open spec fn spec_is_empty(self) -> bool {
        self == Container::spec_new()
    }

    /// How many flags are set.
    pub open spec fn count(self) -> nat {
        let one = |b: bool| if b { 1nat } else { 0nat };
        one(self.graph) + one(self.id) + one(self.index) + one(self.language) + one(self.list)
            + one(self.set) + one(self.typ)
    }

    /// Whether every flag of `self` is a flag of `other`.
    pub open spec fn subset_of(self, other: Container) -> bool {
        forall|flag: ContainerType| self.spec_contains(flag) ==> other.spec_contains(flag)
    }

    /// The empty container mapping.
    #[verifier::when_used_as_spec(spec_new)]
    pub fn new() -> (r: Container)
        ensures
            r == Container::spec_new(),
    {
        Container {
            graph: false,
            id: false,
            index: false,
            language: false,
            list: false,
            set: false,
            typ: false,
        }
    }

    /// Whether the mapping holds the flag.
    #[verifier::when_used_as_spec(spec_contains)]
    pub fn contains(self, flag: ContainerType) -> (r: bool)
        ensures
            r == self.spec_contains(flag),
    {
        match flag {
            ContainerType::Graph => self.graph,
            ContainerType::Id => self.id,
            ContainerType::Index => self.index,
            ContainerType::Language => self.language,
            ContainerType::List => self.list,
            ContainerType::SetOf => self.set,
            ContainerType::Type => self.typ,
        }
    }

    /// The mapping with one more flag.
    #[verifier::when_used_as_spec(spec_with)]
    pub fn with(self, flag: ContainerType) -> (r: Container)
        ensures
            r == self.spec_with(flag),
    {
        let mut c = self;
        match flag {
            ContainerType::Graph => { c.graph = true; },
            ContainerType::Id => { c.id = true; },
            ContainerType::Index => { c.index = true; },
            ContainerType::Language => { c.language = true; },
            ContainerType::List => { c.list = true; },
            ContainerType::SetOf => { c.set = true; },
            ContainerType::Type => { c.typ = true; },
        }
        c
    }

    /// Whether no flag is set.
    #[verifier::when_used_as_spec(spec_is_empty)]
    pub fn is_empty(self) -> (r: bool)
        ensures
            r == self.spec_is_empty(),
    {
        !self.graph && !self.id && !self.index && !self.language && !self.list && !self.set
            && !self.typ
    }
}

/// A value that is either given or explicitly null.
#[derive(PartialEq, Eq, Hash, Debug)]
pub enum Nullable<T> {
    /// The explicit null.
    Null,
    /// A value.
    Value(T),
}

impl<T> Nullable<T> {
    /// The value as an option: `None` for the explicit null.
    pub open spec fn spec_option(self) -> Option<T> {
        match self {
            Nullable::Null => None,
            Nullable::Value(t) => Some(t),
        }
    }

    /// The value as an option: `None` for the explicit null.
    pub fn option(self) -> (r: Option<T>)
        ensures
            r == self.spec_option(),
    {
        match self {
            Nullable::Null => None,
            Nullable::Value(t) => Some(t),
        }
    }

    /// Whether this is the explicit null.
    pub fn is_null(&self) -> (r: bool)
        ensures
            r == (*self is Null),
    {
        match self {
            Nullable::Null => true,
            Nullable::Value(_) => false,
        }
    }
}


/// Version of the format that a processor follows.
#[derive(Clone, Copy, PartialEq, Eq, Structural, Hash, Debug)]
pub enum ProcessingMode {
    /// The legacy profile.
    JsonLd1_0,
    /// The current profile.
    JsonLd1_1,
}

impl Default for ProcessingMode {
    fn default() -> (r: ProcessingMode)
        ensures
            r == ProcessingMode::JsonLd1_1,
    {
        ProcessingMode::JsonLd1_1
    }
}

/// A term: null, a keyword, or an IRI (a blank node identifier is an IRI
/// that starts with `_:`).
#[derive(Debug, PartialEq, Eq, Hash)]
pub enum Term {
    Null,
    Keyword(Keyword),
    Ref(String),
}

/// What a term is, over sequences of characters.
pub enum TermView {
    Null,
    Keyword(Keyword),
    Ref(Seq<char>),
}

impl View for Term {
    type V = TermView;

    open spec fn view(&self) -> TermView {
        match self {
            Term::Null => TermView::Null,
            Term::Keyword(k) => TermView::Keyword(*k),
            Term::Ref(s) => TermView::Ref(s@),
        }
    }
}

/// The text of a term: empty for null.
pub open spec fn term_text(t: TermView) -> Seq<char> {
    match t {
        TermView::Null => Seq::empty(),
        TermView::Keyword(k) => keyword_text(k),
        TermView::Ref(s) => s,
    }
}

impl Clone for Term {
    fn clone(&self) -> (r: Term)
        ensures
            r == *self,
    {
        match self {
            Term::Null => Term::Null,
            Term::Keyword(k) => Term::Keyword(*k),
            Term::Ref(s) => Term::Ref(s.clone()),
        }
    }
}

impl Term {
    /// Whether both terms are the same.
    pub fn same(&self, other: &Term) -> (r: bool)
        ensures
            r == (self@ == other@),
    {
        match (self, other) {
            (Term::Null, Term::Null) => true,
            (Term::Keyword(a), Term::Keyword(b)) => *a == *b,
            (Term::Ref(a), Term::Ref(b)) => str_eq(a.as_str(), b.as_str()),
            _ => false,
        }
    }

    /// The text of the term.
    pub fn as_str(&self) -> (r: &str)
        ensures
            r@ == term_text(self@),
    {
        match self {
            Term::Null => {
                let r = "";
                proof {
                    reveal_strlit("");
                    assert(r@ =~= Seq::<char>::empty());
                }
                r
            },
            Term::Keyword(k) => k.into_str(),
            Term::Ref(s) => s.as_str(),
        }
    }

    /// Whether the term is a keyword.
    pub fn is_keyword(&self) -> (r: bool)
        ensures
            r == (self@ is Keyword),
    {
        match self {
            Term::Keyword(_) => true,
            _ => false,
        }
    }
}

/// A type reference: `@id`, `@json`, `@none`, `@vocab`, or an IRI.
#[derive(Debug, PartialEq, Eq, Hash)]
pub enum Type {
    Id,
    Json,
    NoType,
    Vocab,
    Ref(String),
}

/// What a type reference is, over sequences of characters.
pub enum TypeView {
    Id,
    Json,
    NoType,
    Vocab,
    Ref(Seq<char>),
}

impl View for Type {
    type V = TypeView;

    open spec fn view(&self) -> TypeView {
        match self {
            Type::Id => TypeView::Id,
            Type::Json => TypeView::Json,
            Type::NoType => TypeView::NoType,
            Type::Vocab => TypeView::Vocab,
            Type::Ref(s) => TypeView::Ref(s@),
        }
    }
}

impl Clone for Type {
    fn clone(&self) -> (r: Type)
        ensures
            r == *self,
    {
        match self {
            Type::Id => Type::Id,
            Type::Json => Type::Json,
            Type::NoType => Type::NoType,
            Type::Vocab => Type::Vocab,
            Type::Ref(s) => Type::Ref(s.clone()),
        }
    }
}

impl Type {
    /// Whether both type references are the same.
    pub fn same(&self, other: &Type) -> (r: bool)
        ensures
            r == (self@ == other@),
    {
        match (self, other) {
            (Type::Id, Type::Id) => true,
            (Type::Json, Type::Json) => true,
            (Type::NoType, Type::NoType) => true,
            (Type::Vocab, Type::Vocab) => true,
            (Type::Ref(a), Type::Ref(b)) => str_eq(a.as_str(), b.as_str()),
            _ => false,
        }
    }

    /// Whether this is the IRI `iri`.
    pub fn is_ref(&self, iri: &str) -> (r: bool)
        ensures
            r == (self@ == TypeView::Ref(iri@)),
    {
        match self {
            Type::Ref(s) => str_eq(s.as_str(), iri),
            _ => false,
        }
    }
}

} // verus!
