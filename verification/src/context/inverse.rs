//! The inverse index of a context: from an IRI and what is known of a
//! value to the term that stands for the IRI.

use vstd::prelude::*;
use crate::context::definition::TermDefinition;
use crate::context::Context;
use crate::direction::Direction;
use crate::lang::{opt_tags_equal, same_language, LanguageTagBuf};
use crate::syntax::{Container, Nullable, Term, TermView, Type};
use crate::text::str_eq;

verus! {

/// What a term is selected by: the language of a value, its type, or
/// neither.
#[derive(Clone, Copy, PartialEq, Eq, Structural, Hash, Debug)]
pub enum Bucket {
    /// `@language`
    Language,
    /// `@type`
    Type,
    /// `@any`
    Any,
}

/// The preference under which a term is recorded within a bucket.
#[derive(Debug)]
pub enum Key {
    /// `@none`
    NoValue,
    /// `@null`
    Null,
    /// `@any`
    Any,
    /// `@reverse`
    Reverse,
    /// `@id`
    Id,
    /// `@vocab`
    Vocab,
    /// `@json`
    Json,
    /// A type IRI.
    Type(String),
    /// A language, a direction, or both.
    Lang(Option<LanguageTagBuf>, Option<Direction>),
}

/// Whether two keys are the same preference. Languages are compared
/// without regard to case.
pub open spec fn key_matches(a: Key, b: Key) -> bool {
    match (a, b) {
        (Key::NoValue, Key::NoValue) => true,
        (Key::Null, Key::Null) => true,
        (Key::Any, Key::Any) => true,
        (Key::Reverse, Key::Reverse) => true,
        (Key::Id, Key::Id) => true,
        (Key::Vocab, Key::Vocab) => true,
        (Key::Json, Key::Json) => true,
        (Key::Type(x), Key::Type(y)) => x@ == y@,
        (Key::Lang(l1, d1), Key::Lang(l2, d2)) => opt_tags_equal(l1, l2) && d1 == d2,
        _ => false,
    }
}

impl Clone for Key {
    fn clone(&self) -> (r: Key)
        ensures
            r == *self,
    {
        match self {
            Key::NoValue => Key::NoValue,
            Key::Null => Key::Null,
            Key::Any => Key::Any,
            Key::Reverse => Key::Reverse,
            Key::Id => Key::Id,
            Key::Vocab => Key::Vocab,
            Key::Json => Key::Json,
            Key::Type(s) => Key::Type(s.clone()),
            Key::Lang(l, d) => {
                let l2 = match l {
                    Some(t) => Some(t.clone()),
                    None => None,
                };
                Key::Lang(l2, *d)
            },
        }
    }
}

impl Key {
    /// Whether both keys are the same preference.
    pub fn same_as(&self, other: &Key) -> (r: bool)
        ensures
            r == key_matches(*self, *other),
    {
        match (self, other) {
            (Key::NoValue, Key::NoValue) => true,
            (Key::Null, Key::Null) => true,
            (Key::Any, Key::Any) => true,
            (Key::Reverse, Key::Reverse) => true,
            (Key::Id, Key::Id) => true,
            (Key::Vocab, Key::Vocab) => true,
            (Key::Json, Key::Json) => true,
            (Key::Type(x), Key::Type(y)) => str_eq(x.as_str(), y.as_str()),
            (Key::Lang(l1, d1), Key::Lang(l2, d2)) => {
                let d = match (d1, d2) {
                    (Some(a), Some(b)) => *a == *b,
                    (None, None) => true,
                    _ => false,
                };
                d && same_language(l1.as_ref(), l2.as_ref())
            },
            _ => false,
        }
    }

    /// The key of a type reference.
    pub fn of_type(typ: &Type) -> (r: Key)
        ensures
            r == type_key(*typ),
    {
        match typ {
            Type::Id => Key::Id,
            Type::Json => Key::Json,
            Type::NoType => Key::NoValue,
            Type::Vocab => Key::Vocab,
            Type::Ref(s) => Key::Type(s.clone()),
        }
    }
}

/// The key under which a type reference is recorded.
pub open spec fn type_key(typ: Type) -> Key {
    match typ {
        Type::Id => Key::Id,
        Type::Json => Key::Json,
        Type::NoType => Key::NoValue,
        Type::Vocab => Key::Vocab,
        Type::Ref(s) => Key::Type(s),
    }
}

/// The key of a language and a direction: `@null` where both are absent.
pub open spec fn lang_dir_key(language: Option<LanguageTagBuf>, direction: Option<Direction>) -> Key {
    if language is None && direction is None {
        Key::Null
    } else {
        Key::Lang(language, direction)
    }
}

/// The key of the defaults of a context: `@none` where it has neither a
/// default language nor a default direction.
pub open spec fn default_key(language: Option<LanguageTagBuf>, direction: Option<Direction>) -> Key {
    if language is None && direction is None {
        Key::NoValue
    } else {
        Key::Lang(language, direction)
    }
}

/// The buckets and keys under which a term is recorded, apart from
/// `@any`, in a context with the given default language and direction.
pub open spec fn selection_keys(
    language: Option<LanguageTagBuf>,
    direction: Option<Direction>,
    def: TermDefinition,
) -> Seq<(Bucket, Key)> {
    if def.reverse_property {
        seq![(Bucket::Type, Key::Reverse)]
    } else {
        match def.typ {
            Some(Type::NoType) => seq![(Bucket::Language, Key::Any), (Bucket::Type, Key::Any)],
            Some(t) => seq![(Bucket::Type, type_key(t))],
            None => match (def.language, def.direction) {
                (Some(l), Some(d)) => seq![
                    (Bucket::Language, lang_dir_key(l.spec_option(), d.spec_option())),
                ],
                (Some(l), None) => seq![(Bucket::Language, lang_dir_key(l.spec_option(), None))],
                (None, Some(d)) => seq![
                    (
                        Bucket::Language,
                        match d {
                            Nullable::Null => Key::NoValue,
                            Nullable::Value(x) => Key::Lang(None, Some(x)),
                        },
                    ),
                ],
                (None, None) => seq![
                    (Bucket::Language, default_key(language, direction)),
                    (Bucket::Language, Key::NoValue),
                    (Bucket::Type, Key::NoValue),
                ],
            },
        }
    }
}

/// One record of the inverse index: `term` stands for `iri` where the
/// container, the bucket and the key are these.
#[derive(Debug)]
pub struct InverseEntry {
    pub iri: Term,
    pub container: Container,
    pub bucket: Bucket,
    pub key: Key,
    pub term: String,
}

/// Whether a term definition has an IRI to be found by.
pub open spec fn has_iri(def: TermDefinition) -> bool {
    def.value matches Some(t) && !(t is Null)
}

/// The records that one term definition gives.
pub open spec fn definition_entries(
    language: Option<LanguageTagBuf>,
    direction: Option<Direction>,
    term: String,
    def: TermDefinition,
) -> Seq<InverseEntry> {
    if has_iri(def) {
        let keys = seq![(Bucket::Any, Key::NoValue)] + selection_keys(language, direction, def);
        Seq::new(
            keys.len(),
            |i: int|
                InverseEntry {
                    iri: def.value->0,
                    container: def.container,
                    bucket: keys[i].0,
                    key: keys[i].1,
                    term: term,
                },
        )
    } else {
        Seq::empty()
    }
}

/// The records that the first `n` term definitions give, in their order.
pub open spec fn entries_upto(
    language: Option<LanguageTagBuf>,
    direction: Option<Direction>,
    defs: Seq<(String, TermDefinition)>,
    n: int,
) -> Seq<InverseEntry>
    decreases n,
{
    if n <= 0 || n > defs.len() {
        Seq::empty()
    } else {
        entries_upto(language, direction, defs, n - 1) + definition_entries(
            language,
            direction,
            defs[n - 1].0,
            defs[n - 1].1,
        )
    }
}

/// The inverse index of a context: the records of its term definitions in
/// the order of the terms, so that among terms that are recorded alike the
/// first one is found.
pub open spec fn inverse_of(context: Context) -> Seq<InverseEntry> {
    entries_upto(
        context.default_language,
        context.default_base_direction,
        context.definitions@,
        context.definitions@.len() as int,
    )
}

/// Whether a record answers a query.
pub open spec fn entry_matches(
    e: InverseEntry,
    var: TermView,
    container: Container,
    bucket: Bucket,
    key: Key,
) -> bool {
    e.iri@ == var && e.container == container && e.bucket == bucket && key_matches(e.key, key)
}

/// The first record from `i` on that answers the query.
pub open spec fn find_from(
    entries: Seq<InverseEntry>,
    var: TermView,
    container: Container,
    bucket: Bucket,
    key: Key,
    i: int,
) -> Option<int>
    decreases entries.len() - i,
{
    if i < 0 || i >= entries.len() {
        None
    } else if entry_matches(entries[i], var, container, bucket, key) {
        Some(i)
    } else {
        find_from(entries, var, container, bucket, key, i + 1)
    }
}

/// The record found for one container, under the first of the keys from
/// `j` on that has a record.
pub open spec fn select_key_from(
    entries: Seq<InverseEntry>,
    var: TermView,
    container: Container,
    bucket: Bucket,
    keys: Seq<Key>,
    j: int,
) -> Option<int>
    decreases keys.len() - j,
{
    if j < 0 || j >= keys.len() {
        None
    } else {
        match find_from(entries, var, container, bucket, keys[j], 0) {
            Some(i) => Some(i),
            None => select_key_from(entries, var, container, bucket, keys, j + 1),
        }
    }
}

/// The record found under the first of the containers from `c` on that
/// has one for any of the keys.
pub open spec fn select_from(
    entries: Seq<InverseEntry>,
    var: TermView,
    containers: Seq<Container>,
    bucket: Bucket,
    keys: Seq<Key>,
    c: int,
) -> Option<int>
    decreases containers.len() - c,
{
    if c < 0 || c >= containers.len() {
        None
    } else {
        match select_key_from(entries, var, containers[c], bucket, keys, 0) {
            Some(i) => Some(i),
            None => select_from(entries, var, containers, bucket, keys, c + 1),
        }
    }
}

/// The term selected for `var`: containers are tried in the order given,
/// and for each container the keys in the order given.
pub open spec fn select(
    entries: Seq<InverseEntry>,
    var: TermView,
    containers: Seq<Container>,
    bucket: Bucket,
    keys: Seq<Key>,
) -> Option<Seq<char>> {
    match select_from(entries, var, containers, bucket, keys, 0) {
        Some(i) => Some(entries[i].term@),
        None => None,
    }
}

/// What `find_from` finds is the first record at or after `i` that answers
/// the query.
pub proof fn lemma_find_from(
    entries: Seq<InverseEntry>,
    var: TermView,
    container: Container,
    bucket: Bucket,
    key: Key,
    i: int,
)
    requires
        0 <= i,
    ensures
        match find_from(entries, var, container, bucket, key, i) {
            Some(k) => i <= k < entries.len() && entry_matches(
                entries[k],
                var,
                container,
                bucket,
                key,
            ) && forall|j: int|
                i <= j < k ==> !entry_matches(#[trigger] entries[j], var, container, bucket, key),
            None => forall|j: int|
                i <= j < entries.len() ==> !entry_matches(
                    #[trigger] entries[j],
                    var,
                    container,
                    bucket,
                    key,
                ),
        },
    decreases entries.len() - i,
{
    if i < entries.len() && !entry_matches(entries[i], var, container, bucket, key) {
        lemma_find_from(entries, var, container, bucket, key, i + 1);
    }
}

/// Ranking within one container: where no key before `k` has a record and
/// `keys[k]` has its first record at `e`, that record is selected.
pub proof fn lemma_select_key_ranking(
    entries: Seq<InverseEntry>,
    var: TermView,
    container: Container,
    bucket: Bucket,
    keys: Seq<Key>,
    j: int,
    k: int,
    e: int,
)
    requires
        0 <= j <= k < keys.len(),
        forall|k2: int|
            j <= k2 < k ==> find_from(entries, var, container, bucket, #[trigger] keys[k2], 0)
                is None,
        find_from(entries, var, container, bucket, keys[k], 0) == Some(e),
    ensures
        select_key_from(entries, var, container, bucket, keys, j) == Some(e),
    decreases k - j,
{
    if j < k {
        assert(find_from(entries, var, container, bucket, keys[j], 0) is None);
        lemma_select_key_ranking(entries, var, container, bucket, keys, j + 1, k, e);
    }
}

/// No record is selected for a container none of whose keys has one.
pub proof fn lemma_select_key_none(
    entries: Seq<InverseEntry>,
    var: TermView,
    container: Container,
    bucket: Bucket,
    keys: Seq<Key>,
    j: int,
)
    requires
        0 <= j,
        forall|k2: int|
            j <= k2 < keys.len() ==> find_from(
                entries,
                var,
                container,
                bucket,
                #[trigger] keys[k2],
                0,
            ) is None,
    ensures
        select_key_from(entries, var, container, bucket, keys, j) is None,
    decreases keys.len() - j,
{
    if j < keys.len() {
        assert(find_from(entries, var, container, bucket, keys[j], 0) is None);
        lemma_select_key_none(entries, var, container, bucket, keys, j + 1);
    }
}

/// Nothing is selected where no record answers the query for any of the
/// containers and keys.
pub proof fn lemma_select_none(
    entries: Seq<InverseEntry>,
    var: TermView,
    containers: Seq<Container>,
    bucket: Bucket,
    keys: Seq<Key>,
    c: int,
)
    requires
        0 <= c,
        forall|e: int, c2: int, k: int|
            0 <= e < entries.len() && c <= c2 < containers.len() && 0 <= k < keys.len()
                ==> !entry_matches(
                #[trigger] entries[e],
                var,
                #[trigger] containers[c2],
                bucket,
                #[trigger] keys[k],
            ),
    ensures
        select_from(entries, var, containers, bucket, keys, c) is None,
    decreases containers.len() - c,
{
    if c < containers.len() {
        assert forall|k: int| 0 <= k < keys.len() implies find_from(
            entries,
            var,
            containers[c],
            bucket,
            #[trigger] keys[k],
            0,
        ) is None by {
            lemma_find_from(entries, var, containers[c], bucket, keys[k], 0);
        }
        lemma_select_key_none(entries, var, containers[c], bucket, keys, 0);
        lemma_select_none(entries, var, containers, bucket, keys, c + 1);
    }
}

/// Ranking of the index. Let the record `e` answer the query for the
/// container at place `c` and the key at place `k`. If no record answers
/// it for an earlier container with any key, nor for this container with an
/// earlier key, and no record before `e` answers it for this container and
/// key, then the term of `e` is selected: a term recorded for a container or
/// a key that the query prefers wins over every term recorded for those it
/// ranks lower, and among terms recorded alike the first one wins.
pub proof fn lemma_select_ranking(
    entries: Seq<InverseEntry>,
    var: TermView,
    containers: Seq<Container>,
    bucket: Bucket,
    keys: Seq<Key>,
    c: int,
    k: int,
    e: int,
)
    requires
        0 <= c < containers.len(),
        0 <= k < keys.len(),
        0 <= e < entries.len(),
        entry_matches(entries[e], var, containers[c], bucket, keys[k]),
        forall|e2: int|
            0 <= e2 < e ==> !entry_matches(
                #[trigger] entries[e2],
                var,
                containers[c],
                bucket,
                keys[k],
            ),
        forall|e2: int, k2: int|
            0 <= e2 < entries.len() && 0 <= k2 < k ==> !entry_matches(
                #[trigger] entries[e2],
                var,
                containers[c],
                bucket,
                #[trigger] keys[k2],
            ),
        forall|e2: int, c2: int, k2: int|
            0 <= e2 < entries.len() && 0 <= c2 < c && 0 <= k2 < keys.len() ==> !entry_matches(
                #[trigger] entries[e2],
                var,
                #[trigger] containers[c2],
                bucket,
                #[trigger] keys[k2],
            ),
    ensures
        select(entries, var, containers, bucket, keys) == Some(entries[e].term@),
{
    lemma_find_from(entries, var, containers[c], bucket, keys[k], 0);
    assert(find_from(entries, var, containers[c], bucket, keys[k], 0) == Some(e));
    assert forall|k2: int| 0 <= k2 < k implies find_from(
        entries,
        var,
        containers[c],
        bucket,
        #[trigger] keys[k2],
        0,
    ) is None by {
        lemma_find_from(entries, var, containers[c], bucket, keys[k2], 0);
    }
    lemma_select_key_ranking(entries, var, containers[c], bucket, keys, 0, k, e);
    lemma_select_from_ranking(entries, var, containers, bucket, keys, 0, c, e);
}

/// Ranking over the containers: where no container before `c` has a
/// record under any key, what is selected is what container `c` gives.
pub proof fn lemma_select_from_ranking(
    entries: Seq<InverseEntry>,
    var: TermView,
    containers: Seq<Container>,
    bucket: Bucket,
    keys: Seq<Key>,
    i: int,
    c: int,
    e: int,
)
    requires
        0 <= i <= c < containers.len(),
        select_key_from(entries, var, containers[c], bucket, keys, 0) == Some(e),
        forall|e2: int, c2: int, k2: int|
            0 <= e2 < entries.len() && 0 <= c2 < c && 0 <= k2 < keys.len() ==> !entry_matches(
                #[trigger] entries[e2],
                var,
                #[trigger] containers[c2],
                bucket,
                #[trigger] keys[k2],
            ),
    ensures
        select_from(entries, var, containers, bucket, keys, i) == Some(e),
    decreases c - i,
{
    if i < c {
        assert forall|k2: int| 0 <= k2 < keys.len() implies find_from(
            entries,
            var,
            containers[i],
            bucket,
            #[trigger] keys[k2],
            0,
        ) is None by {
            lemma_find_from(entries, var, containers[i], bucket, keys[k2], 0);
        }
        lemma_select_key_none(entries, var, containers[i], bucket, keys, 0);
        lemma_select_from_ranking(entries, var, containers, bucket, keys, i + 1, c, e);
    }
}

/// The inverse index of a context.
#[derive(Debug)]
pub struct InverseContext {
    pub entries: Vec<InverseEntry>,
}

fn nullable_language(l: &Nullable<LanguageTagBuf>) -> (r: Option<LanguageTagBuf>)
    ensures
        r == l.spec_option(),
{
    match l {
        Nullable::Null => None,
        Nullable::Value(t) => Some(t.clone()),
    }
}

fn nullable_direction(d: &Nullable<Direction>) -> (r: Option<Direction>)
    ensures
        r == d.spec_option(),
{
    match d {
        Nullable::Null => None,
        Nullable::Value(x) => Some(*x),
    }
}

fn make_lang_dir_key(language: Option<LanguageTagBuf>, direction: Option<Direction>) -> (r: Key)
    ensures
        r == lang_dir_key(language, direction),
{
    if language.is_none() && direction.is_none() {
        Key::Null
    } else {
        Key::Lang(language, direction)
    }
}

fn make_selection_keys(
    language: Option<&LanguageTagBuf>,
    direction: Option<Direction>,
    def: &TermDefinition,
) -> (r: Vec<(Bucket, Key)>)
    ensures
        r@ == selection_keys(
            match language {
                Some(t) => Some(*t),
                None => None,
            },
            direction,
            *def,
        ),
{
    let mut keys: Vec<(Bucket, Key)> = Vec::new();
    if def.reverse_property {
        keys.push((Bucket::Type, Key::Reverse));
    } else {
        match &def.typ {
            Some(Type::NoType) => {
                keys.push((Bucket::Language, Key::Any));
                keys.push((Bucket::Type, Key::Any));
            },
            Some(t) => {
                keys.push((Bucket::Type, Key::of_type(t)));
            },
            None => match (&def.language, &def.direction) {
                (Some(l), Some(d)) => {
                    keys.push(
                        (
                            Bucket::Language,
                            make_lang_dir_key(nullable_language(l), nullable_direction(d)),
                        ),
                    );
                },
                (Some(l), None) => {
                    keys.push((Bucket::Language, make_lang_dir_key(nullable_language(l), None)));
                },
                (None, Some(d)) => {
                    let key = match d {
                        Nullable::Null => Key::NoValue,
                        Nullable::Value(x) => Key::Lang(None, Some(*x)),
                    };
                    keys.push((Bucket::Language, key));
                },
                (None, None) => {
                    let key = if language.is_none() && direction.is_none() {
                        Key::NoValue
                    } else {
                        let l = match language {
                            Some(t) => Some(t.clone()),
                            None => None,
                        };
                        Key::Lang(l, direction)
                    };
                    keys.push((Bucket::Language, key));
                    keys.push((Bucket::Language, Key::NoValue));
                    keys.push((Bucket::Type, Key::NoValue));
                },
            },
        }
    }
    assert(keys@ =~= selection_keys(
        match language {
            Some(t) => Some(*t),
            None => None,
        },
        direction,
        *def,
    ));
    keys
}

impl InverseContext {
    /// Builds the inverse index of a context.
    pub fn new(context: &Context) -> (r: InverseContext)
        ensures
            r.entries@ == inverse_of(*context),
    {
        let mut entries: Vec<InverseEntry> = Vec::new();
        let mut n: usize = 0;
        while n < context.definitions.len()
            invariant
                n <= context.definitions.len(),
                entries@ == entries_upto(
                    context.default_language,
                    context.default_base_direction,
                    context.definitions@,
                    n as int,
                ),
            decreases context.definitions.len() - n,
        {
            let term = &context.definitions[n].0;
            let def = &context.definitions[n].1;
            let ghost before = entries@;
            let ghost added = definition_entries(
                context.default_language,
                context.default_base_direction,
                *term,
                *def,
            );
            match &def.value {
                Some(Term::Null) => {
                    assert(before + added =~= before);
                },
                None => {
                    assert(before + added =~= before);
                },
                Some(iri) => {
                    let mut keys = make_selection_keys(
                        context.default_language.as_ref(),
                        context.default_base_direction,
                        def,
                    );
                    keys.insert(0, (Bucket::Any, Key::NoValue));
                    assert(keys@ =~= seq![(Bucket::Any, Key::NoValue)] + selection_keys(
                        context.default_language,
                        context.default_base_direction,
                        *def,
                    ));
                    let mut i: usize = 0;
                    while i < keys.len()
                        invariant
                            i <= keys.len(),
                            keys@.len() == added.len(),
                            def.value == Some(*iri),
                            entries@.len() == before.len() + i,
                            forall|j: int| 0 <= j < before.len() ==> entries@[j] == before[j],
                            forall|j: int|
                                0 <= j < i ==> entries@[before.len() + j] == (InverseEntry {
                                    iri: *iri,
                                    container: def.container,
                                    bucket: keys@[j].0,
                                    key: keys@[j].1,
                                    term: *term,
                                }),
                        decreases keys.len() - i,
                    {
                        entries.push(
                            InverseEntry {
                                iri: iri.clone(),
                                container: def.container,
                                bucket: keys[i].0,
                                key: keys[i].1.clone(),
                                term: term.clone(),
                            },
                        );
                        i += 1;
                    }
                    assert(entries@ =~= before + added);
                },
            }
            n += 1;
        }
        InverseContext { entries }
    }

    /// The first record that answers the query.
    pub fn find(&self, var: &Term, container: Container, bucket: Bucket, key: &Key) -> (r: Option<
        usize,
    >)
        ensures
            match r {
                Some(i) => find_from(self.entries@, var@, container, bucket, *key, 0) == Some(
                    i as int,
                ) && i < self.entries@.len(),
                None => find_from(self.entries@, var@, container, bucket, *key, 0) is None,
            },
    {
        let mut i: usize = 0;
        while i < self.entries.len()
            invariant
                i <= self.entries.len(),
                find_from(self.entries@, var@, container, bucket, *key, i as int) == find_from(
                    self.entries@,
                    var@,
                    container,
                    bucket,
                    *key,
                    0,
                ),
            decreases self.entries.len() - i,
        {
            let e = &self.entries[i];
            if e.container == container && e.bucket == bucket && e.iri.same(var) && e.key.same_as(
                key,
            ) {
                return Some(i);
            }
            i += 1;
        }
        None
    }

    /// The term selected for `var`: containers are tried in the order
    /// given, and for each container the keys in the order given.
    pub fn select(&self, var: &Term, containers: &Vec<Container>, bucket: Bucket, keys: &Vec<Key>) -> (r:
        Option<&str>)
        ensures
            match r {
                Some(t) => select(self.entries@, var@, containers@, bucket, keys@) == Some(t@),
                None => select(self.entries@, var@, containers@, bucket, keys@) is None,
            },
    {
        let mut c: usize = 0;
        while c < containers.len()
            invariant
                c <= containers.len(),
                select_from(self.entries@, var@, containers@, bucket, keys@, c as int)
                    == select_from(self.entries@, var@, containers@, bucket, keys@, 0),
            decreases containers.len() - c,
        {
            let container = containers[c];
            let mut j: usize = 0;
            while j < keys.len()
                invariant
                    j <= keys.len(),
                    c < containers.len(),
                    container == containers@[c as int],
                    select_key_from(self.entries@, var@, container, bucket, keys@, j as int)
                        == select_key_from(self.entries@, var@, container, bucket, keys@, 0),
                    select_from(self.entries@, var@, containers@, bucket, keys@, c as int)
                        == select_from(self.entries@, var@, containers@, bucket, keys@, 0),
                decreases keys.len() - j,
            {
                match self.find(var, container, bucket, &keys[j]) {
                    Some(i) => {
                        return Some(self.entries[i].term.as_str());
                    },
                    None => {},
                }
                j += 1;
            }
            c += 1;
        }
        None
    }
}

/// A context together with its inverse index.
#[derive(Debug)]
pub struct Inversible<'a> {
    context: &'a Context,
    inverse: InverseContext,
}

impl<'a> View for Inversible<'a> {
    type V = Context;

    closed spec fn view(&self) -> Context {
        *self.context
    }
}

impl<'a> Inversible<'a> {
    #[verifier::type_invariant]
    spec fn indexed(self) -> bool {
        self.inverse.entries@ == inverse_of(*self.context)
    }

    /// Builds the inverse index of `context` and keeps both.
    pub fn new(context: &'a Context) -> (r: Inversible<'a>)
        ensures
            r@ == *context,
    {
        Inversible { context, inverse: InverseContext::new(context) }
    }

    /// The context.
    pub fn context(&self) -> (r: &'a Context)
        ensures
            *r == self@,
    {
        self.context
    }

    /// The term that the inverse index of the context selects for `var`.
    pub fn select(&self, var: &Term, containers: &Vec<Container>, bucket: Bucket, keys: &Vec<Key>) -> (r:
        Option<&str>)
        ensures
            match r {
                Some(t) => select(inverse_of(self@), var@, containers@, bucket, keys@) == Some(t@),
                None => select(inverse_of(self@), var@, containers@, bucket, keys@) is None,
            },
    {
        proof {
            use_type_invariant(self);
        }
        self.inverse.select(var, containers, bucket, keys)
    }
}


/// Whether a term definition is recorded under the bucket and the key:
/// under `@any` with `@none`, or under one of its own.
pub open spec fn recorded_under(
    language: Option<LanguageTagBuf>,
    direction: Option<Direction>,
    def: TermDefinition,
    bucket: Bucket,
    key: Key,
) -> bool {
    (bucket == Bucket::Any && key == Key::NoValue) || exists|j: int|
        0 <= j < selection_keys(language, direction, def).len() && #[trigger] selection_keys(
            language,
            direction,
            def,
        )[j] == (bucket, key)
}

/// Every record of the first `n` term definitions comes from one of them:
/// the place of a definition of the recorded term whose IRI is the recorded
/// IRI.
pub proof fn lemma_entry_origin(
    language: Option<LanguageTagBuf>,
    direction: Option<Direction>,
    defs: Seq<(String, TermDefinition)>,
    n: int,
    i: int,
) -> (m: int)
    requires
        0 <= n <= defs.len(),
        0 <= i < entries_upto(language, direction, defs, n).len(),
    ensures
        0 <= m < n,
        defs[m].0 == entries_upto(language, direction, defs, n)[i].term,
        defs[m].1.value == Some(entries_upto(language, direction, defs, n)[i].iri),
        defs[m].1.container == entries_upto(language, direction, defs, n)[i].container,
        recorded_under(
            language,
            direction,
            defs[m].1,
            entries_upto(language, direction, defs, n)[i].bucket,
            entries_upto(language, direction, defs, n)[i].key,
        ),
    decreases n,
{
    let before = entries_upto(language, direction, defs, n - 1);
    if i < before.len() {
        lemma_entry_origin(language, direction, defs, n - 1, i)
    } else {
        let j = i - before.len();
        let keys = selection_keys(language, direction, defs[n - 1].1);
        if j > 0 {
            assert(keys[j - 1] == (
                entries_upto(language, direction, defs, n)[i].bucket,
                entries_upto(language, direction, defs, n)[i].key,
            ));
        }
        n - 1
    }
}

/// Every term definition with an IRI is recorded under each of its
/// buckets and keys: the place of the record for the key at place `j`.
pub proof fn lemma_definition_recorded(
    language: Option<LanguageTagBuf>,
    direction: Option<Direction>,
    defs: Seq<(String, TermDefinition)>,
    n: int,
    m: int,
    j: int,
) -> (i: int)
    requires
        0 <= m < n <= defs.len(),
        has_iri(defs[m].1),
        0 <= j < selection_keys(language, direction, defs[m].1).len(),
    ensures
        0 <= i < entries_upto(language, direction, defs, n).len(),
        entries_upto(language, direction, defs, n)[i] == (InverseEntry {
            iri: defs[m].1.value->0,
            container: defs[m].1.container,
            bucket: selection_keys(language, direction, defs[m].1)[j].0,
            key: selection_keys(language, direction, defs[m].1)[j].1,
            term: defs[m].0,
        }),
    decreases n,
{
    let before = entries_upto(language, direction, defs, n - 1);
    if m < n - 1 {
        lemma_definition_recorded(language, direction, defs, n - 1, m, j)
    } else {
        before.len() + 1 + j
    }
}

/// What is selected is a record that answers the query for `var`.
pub proof fn lemma_select_key_from_matches(
    entries: Seq<InverseEntry>,
    var: TermView,
    container: Container,
    bucket: Bucket,
    keys: Seq<Key>,
    j: int,
)
    requires
        0 <= j,
    ensures
        select_key_from(entries, var, container, bucket, keys, j) matches Some(i) ==> 0 <= i
            < entries.len() && entries[i].iri@ == var && entries[i].container == container
            && entries[i].bucket == bucket,
    decreases keys.len() - j,
{
    if j < keys.len() {
        lemma_find_from(entries, var, container, bucket, keys[j], 0);
        lemma_select_key_from_matches(entries, var, container, bucket, keys, j + 1);
    }
}

/// What is selected is a record that answers the query for `var`.
pub proof fn lemma_select_from_matches(
    entries: Seq<InverseEntry>,
    var: TermView,
    containers: Seq<Container>,
    bucket: Bucket,
    keys: Seq<Key>,
    c: int,
)
    requires
        0 <= c,
    ensures
        select_from(entries, var, containers, bucket, keys, c) matches Some(i) ==> 0 <= i
            < entries.len() && entries[i].iri@ == var,
    decreases containers.len() - c,
{
    if c < containers.len() {
        lemma_select_key_from_matches(entries, var, containers[c], bucket, keys, 0);
        lemma_select_from_matches(entries, var, containers, bucket, keys, c + 1);
    }
}

/// A record is selected for a container where one of the keys from `j`
/// on has a record.
pub proof fn lemma_select_key_some(
    entries: Seq<InverseEntry>,
    var: TermView,
    container: Container,
    bucket: Bucket,
    keys: Seq<Key>,
    j: int,
    k: int,
)
    requires
        0 <= j <= k < keys.len(),
        find_from(entries, var, container, bucket, keys[k], 0) is Some,
    ensures
        select_key_from(entries, var, container, bucket, keys, j) is Some,
    decreases k - j,
{
    if j < k {
        lemma_select_key_some(entries, var, container, bucket, keys, j + 1, k);
    }
}

/// Whether the context defines `term` as `var`.
pub open spec fn maps_to(context: Context, term: Seq<char>, var: TermView) -> bool {
    context.spec_get(term) matches Some(d) && (d.value matches Some(v) && v@ == var)
}

/// A term that the inverse index of a well-formed context selects for
/// `var` is a term that the context defines as `var`.
pub proof fn lemma_selected_term_is_defined(
    context: Context,
    var: TermView,
    containers: Seq<Container>,
    bucket: Bucket,
    keys: Seq<Key>,
)
    requires
        context.wf(),
    ensures
        select(inverse_of(context), var, containers, bucket, keys) matches Some(t) ==> maps_to(
            context,
            t,
            var,
        ),
{
    let entries = inverse_of(context);
    let defs = context.definitions@;
    lemma_select_from_matches(entries, var, containers, bucket, keys, 0);
    match select_from(entries, var, containers, bucket, keys, 0) {
        Some(i) => {
            let m = lemma_entry_origin(
                context.default_language,
                context.default_base_direction,
                defs,
                defs.len() as int,
                i,
            );
            let t = entries[i].term@;
            crate::context::lemma_position_from(defs, t, 0);
            match crate::context::position_from(defs, t, 0) {
                Some(k) => {
                    if k != m {
                        crate::context::lemma_term_before_total(t, t);
                        assert(crate::context::term_before(defs[k].0@, defs[m].0@));
                    }
                },
                None => {
                    assert(defs[m].0@ == t);
                },
            }
        },
        None => {},
    }
}

} // verus!
