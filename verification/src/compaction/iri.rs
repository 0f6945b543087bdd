//! Compaction of IRIs: the term, the compact IRI or the relative reference
//! that stands for an IRI under a context.

use vstd::prelude::*;
use vstd::string::StringExecFns;
use crate::compaction::Options;
use crate::context::inverse::{inverse_of, key_matches, select, Bucket, Inversible, Key};
use crate::context::Context;
use crate::direction::Direction;
use crate::error::Error;
use crate::iri::{is_blank, is_iri, parses_as_iri, relative_iri, relative_to};
use crate::lang::LanguageTagBuf;
use crate::object::value::Value;
use crate::object::{Indexed, Object, Ref};
use crate::syntax::{keyword_text, Container, ContainerType, ProcessingMode, Term};
use crate::text::{is_prefix, lex_lt, str_eq, str_lt, strip_prefix};

verus! {

/// What is known of the value for which a term is chosen: the object, and
/// whether it has an `@index`.
#[derive(Clone, Copy)]
pub struct Hint<'a> {
    pub object: Ref<'a>,
    pub indexed: bool,
}

/// A query to the inverse index: the containers and the keys in the order
/// of preference, and the bucket.
pub struct Selection {
    pub containers: Seq<Container>,
    pub bucket: Bucket,
    pub keys: Seq<Key>,
}

/// The container mapping of one flag.
pub open spec fn only(a: ContainerType) -> Container {
    Container::spec_new().spec_with(a)
}

/// The container mapping of two flags.
pub open spec fn both(a: ContainerType, b: ContainerType) -> Container {
    Container::spec_new().spec_with(a).spec_with(b)
}

/// A container mapping, alone and together with `@set`.
pub open spec fn with_set(c: Container) -> Seq<Container> {
    seq![c, c.spec_with(ContainerType::SetOf)]
}

/// The key of a value object by its language and direction: `@none` where
/// it has a type instead, `@null` where it has none of them.
pub open spec fn value_language_key(v: Value) -> Key {
    if v.spec_direction() is Some || v.spec_language() is Some {
        Key::Lang(v.spec_language(), v.spec_direction())
    } else if v.spec_typ() is Some {
        Key::NoValue
    } else {
        Key::Null
    }
}

/// The key of a value object by its type: `@none` where it has a language
/// or a direction, or no type.
pub open spec fn value_type_key(v: Value) -> Key {
    if v.spec_direction() is Some || v.spec_language() is Some {
        Key::NoValue
    } else {
        match v {
            Value::Literal(_, Some(ty)) => Key::Type(ty),
            Value::Json(_) => Key::Json,
            _ => Key::NoValue,
        }
    }
}

/// The language key of an item of a list.
pub open spec fn item_language_key(o: Object) -> Key {
    match o {
        Object::Value(v) => value_language_key(v),
        _ => Key::NoValue,
    }
}

/// The type key of an item of a list: `@id` for what is no value object.
pub open spec fn item_type_key(o: Object) -> Key {
    match o {
        Object::Value(v) => value_type_key(v),
        _ => Key::Id,
    }
}

/// The key that the items so far have in common, after one more item:
/// `@none` once two items differ. For the language, only a value object
/// that differs counts.
pub open spec fn merged(common: Option<Key>, item: Key, counts: bool) -> Option<Key> {
    match common {
        None => Some(item),
        Some(c) => if !key_matches(item, c) && counts {
            Some(Key::NoValue)
        } else {
            Some(c)
        },
    }
}

/// The language key and the type key that the items of a list from `i` on
/// have in common with those before them.
pub open spec fn common_keys(
    items: Seq<Indexed<Object>>,
    i: int,
    language: Option<Key>,
    typ: Option<Key>,
) -> (Option<Key>, Option<Key>)
    decreases items.len() - i,
{
    if i < 0 || i >= items.len() {
        (language, typ)
    } else {
        common_keys(
            items,
            i + 1,
            merged(language, item_language_key(items[i].value), items[i].value is Value),
            merged(typ, item_type_key(items[i].value), true),
        )
    }
}

/// The bucket and the key by which a term is chosen for a list: by the
/// type of the items where they have one in common, by their language
/// otherwise. An empty list goes by the default language, in the bucket
/// `@any`.
pub open spec fn list_key(default_language: Option<LanguageTagBuf>, items: Seq<Indexed<Object>>) -> (
    Bucket,
    Key,
) {
    let start = if items.len() == 0 && default_language is Some {
        Some(Key::Lang(default_language, None))
    } else {
        None
    };
    let (language, typ) = common_keys(items, 0, start, None);
    let language = match language {
        Some(k) => k,
        None => Key::NoValue,
    };
    let typ = match typ {
        Some(k) => k,
        None => Key::NoValue,
    };
    if !(typ is NoValue) {
        (
            if items.len() == 0 {
                Bucket::Any
            } else {
                Bucket::Type
            },
            typ,
        )
    } else {
        (
            if items.len() == 0 {
                Bucket::Any
            } else {
                Bucket::Language
            },
            language,
        )
    }
}

/// The bucket and the key by which a term is chosen for a value object,
/// and whether containers by language come into question: by its language
/// and direction where it has them and no index, by its type where it has
/// one, by `@null` in the language bucket for a plain string, and by `@none`
/// in the type bucket for any other plain literal.
pub open spec fn value_key(v: Value, indexed: bool) -> (Bucket, Key, bool) {
    if (v.spec_direction() is Some || v.spec_language() is Some) && !indexed {
        (Bucket::Language, Key::Lang(v.spec_language(), v.spec_direction()), true)
    } else {
        match v {
            Value::Literal(_, Some(ty)) => (Bucket::Type, Key::Type(ty), false),
            Value::Json(_) => (Bucket::Type, Key::Json, false),
            Value::Literal(crate::object::value::Literal::String(_), None) => (
                Bucket::Language,
                Key::Null,
                false,
            ),
            Value::Literal(_, None) => (Bucket::Type, Key::NoValue, false),
            Value::LangString(_) => (Bucket::Language, Key::Null, false),
        }
    }
}

/// Whether the hint is a value object with nothing but `@value`.
pub open spec fn is_simple_value(hint: Option<Hint>) -> bool {
    match hint {
        Some(Hint { object: Ref::Value(Value::Literal(_, None)), indexed }) => !indexed,
        _ => false,
    }
}

/// The identifier of the node that the hint is, if it is one and has one.
pub open spec fn hint_id(hint: Option<Hint>) -> Option<String> {
    match hint {
        Some(h) => match h.object {
            Ref::Node(n) => n.id,
            _ => None,
        },
        None => None,
    }
}

/// The containers that are tried first: by index, for a value that has an
/// index and is no graph object.
pub open spec fn leading_containers(hint: Option<Hint>) -> Seq<Container> {
    if hint matches Some(h) && h.indexed && !(h.object matches Ref::Node(n) && n.spec_is_graph()) {
        with_set(only(ContainerType::Index))
    } else {
        Seq::empty()
    }
}

/// The containers that are tried last: none, and in the current profile
/// those by index for a value without index, and those by language for a
/// value object with nothing but `@value`.
pub open spec fn trailing_containers(hint: Option<Hint>, options: Options) -> Seq<Container> {
    let modern = options.processing_mode != ProcessingMode::JsonLd1_0;
    seq![Container::spec_new()] + (if modern && !(hint matches Some(h) && h.indexed) {
        with_set(only(ContainerType::Index))
    } else {
        Seq::empty()
    }) + (if modern && is_simple_value(hint) {
        with_set(only(ContainerType::Language))
    } else {
        Seq::empty()
    })
}

/// The containers in question for a graph object.
pub open spec fn graph_containers(indexed: bool, named: bool) -> Seq<Container> {
    let by_index = with_set(both(ContainerType::Graph, ContainerType::Index));
    let by_id = with_set(both(ContainerType::Graph, ContainerType::Id));
    (if indexed {
        by_index
    } else {
        Seq::empty()
    }) + (if named {
        by_id
    } else {
        Seq::empty()
    }) + with_set(only(ContainerType::Graph)) + seq![only(ContainerType::SetOf)] + (if !indexed {
        by_index
    } else {
        Seq::empty()
    }) + (if !named {
        by_id
    } else {
        Seq::empty()
    }) + with_set(only(ContainerType::Index))
}

/// The containers in question for a node object, and for no value.
pub open spec fn node_containers() -> Seq<Container> {
    with_set(only(ContainerType::Id)) + with_set(only(ContainerType::Type)) + seq![
        only(ContainerType::SetOf),
    ]
}

/// The keys in the order of preference. `by_id` is set where the value is
/// a node with an identifier and the key is `@id` or `@reverse`: it says
/// whether `@vocab` goes before `@id`.
pub open spec fn preferred_keys(key: Key, by_id: Option<bool>) -> Seq<Key> {
    (if key is Reverse {
        seq![Key::Reverse]
    } else {
        Seq::empty()
    }) + (match by_id {
        Some(true) => seq![Key::Vocab, Key::Id, Key::NoValue],
        Some(false) => seq![Key::Id, Key::Vocab, Key::NoValue],
        None => seq![key, Key::NoValue],
    }) + seq![Key::Any] + (match key {
        Key::Lang(Some(_), Some(d)) => seq![Key::Lang(None, Some(d))],
        _ => Seq::empty(),
    })
}

/// The query for a term, from what is known of the value. `prefer_vocab`
/// matters where the value is a node with an identifier: it says whether
/// the identifier itself is best written as a term.
pub open spec fn selection_base(
    default_language: Option<LanguageTagBuf>,
    hint: Option<Hint>,
    reverse: bool,
    options: Options,
    prefer_vocab: bool,
) -> Selection {
    let lead = leading_containers(hint);
    let tail = trailing_containers(hint, options);
    let by_id = if hint_id(hint) is Some {
        Some(prefer_vocab)
    } else {
        None
    };
    if reverse {
        Selection {
            containers: lead + seq![only(ContainerType::SetOf)] + tail,
            bucket: Bucket::Type,
            keys: preferred_keys(Key::Reverse, by_id),
        }
    } else {
        match hint {
            Some(Hint { object: Ref::List(items), indexed }) => {
                let (bucket, key) = list_key(default_language, items@);
                Selection {
                    containers: lead + (if !indexed {
                        seq![only(ContainerType::List)]
                    } else {
                        Seq::empty()
                    }) + tail,
                    bucket,
                    keys: preferred_keys(key, None),
                }
            },
            Some(Hint { object: Ref::Value(v), indexed }) => {
                let (bucket, key, by_language) = value_key(*v, indexed);
                Selection {
                    containers: lead + (if by_language {
                        with_set(only(ContainerType::Language))
                    } else {
                        Seq::empty()
                    }) + seq![only(ContainerType::SetOf)] + tail,
                    bucket,
                    keys: preferred_keys(key, None),
                }
            },
            Some(Hint { object: Ref::Node(n), indexed }) => {
                if n.spec_is_graph() {
                    Selection {
                        containers: lead + graph_containers(indexed, n.id is Some) + tail,
                        bucket: Bucket::Type,
                        keys: preferred_keys(Key::Id, by_id),
                    }
                } else {
                    Selection {
                        containers: lead + node_containers() + tail,
                        bucket: Bucket::Type,
                        keys: preferred_keys(Key::Id, by_id),
                    }
                }
            },
            None => Selection {
                containers: lead + node_containers() + tail,
                bucket: Bucket::Type,
                keys: preferred_keys(Key::Id, None),
            },
        }
    }
}

/// The suffix of `iri` behind the vocabulary mapping of the context, where
/// the IRI starts with the mapping, goes on behind it, and the suffix is
/// not a term of the context.
pub open spec fn vocab_suffix(ctx: Context, iri: Seq<char>) -> Option<Seq<char>> {
    match ctx.vocabulary {
        Some(Term::Ref(v)) => {
            let suffix = iri.subrange(v@.len() as int, iri.len() as int);
            if is_prefix(v@, iri) && v@.len() < iri.len() && ctx.spec_get(suffix) is None {
                Some(suffix)
            } else {
                None
            }
        },
        _ => None,
    }
}

/// The compact IRI made of a term and of what `iri` holds behind the first
/// `n` characters.
pub open spec fn candidate(term: Seq<char>, n: int, iri: Seq<char>) -> Seq<char> {
    term + ":"@ + iri.subrange(n, iri.len() as int)
}

/// Whether a compact IRI can be used: the context has no such term, or it
/// has it for this very IRI and no value is at hand.
pub open spec fn acceptable(ctx: Context, compact: Seq<char>, iri: Seq<char>, has_value: bool) -> bool {
    match ctx.spec_get(compact) {
        None => true,
        Some(d) => !has_value && (d.value matches Some(Term::Ref(v)) && v@ == iri),
    }
}

/// The length of the IRI of the term definition at `i`, where it can serve
/// as a prefix of `iri`: the prefix flag is set, the IRI of the term is a
/// proper prefix of `iri`, and the compact IRI it gives can be used.
pub open spec fn prefix_length(ctx: Context, iri: Seq<char>, has_value: bool, i: int) -> Option<int> {
    let term = ctx.definitions@[i].0;
    let def = ctx.definitions@[i].1;
    match def.value {
        Some(Term::Ref(p)) => if def.prefix && is_prefix(p@, iri) && p@.len() < iri.len()
            && acceptable(ctx, candidate(term@, p@.len() as int, iri), iri, has_value) {
            Some(p@.len() as int)
        } else {
            None
        },
        _ => None,
    }
}

/// Whether a prefix of length `n` under `term` is to be taken rather than
/// the best one so far: it is longer, or as long with a term that comes
/// first in lexicographic order.
pub open spec fn better(term: Seq<char>, n: int, best: Option<(int, int)>, ctx: Context) -> bool {
    match best {
        None => true,
        Some((b, m)) => n > m || (n == m && lex_lt(term, ctx.definitions@[b].0@)),
    }
}

/// The best prefix among the term definitions from `i` on and the best one
/// before: its place and its length.
pub open spec fn best_prefix(
    ctx: Context,
    iri: Seq<char>,
    has_value: bool,
    i: int,
    best: Option<(int, int)>,
) -> Option<(int, int)>
    decreases ctx.definitions@.len() - i,
{
    if i < 0 || i >= ctx.definitions@.len() {
        best
    } else {
        let next = match prefix_length(ctx, iri, has_value, i) {
            Some(n) => if better(ctx.definitions@[i].0@, n, best, ctx) {
                Some((i, n))
            } else {
                best
            },
            None => best,
        };
        best_prefix(ctx, iri, has_value, i + 1, next)
    }
}

/// The compact IRI of `iri`: `term:suffix` for the term with the longest
/// IRI that is a proper prefix of `iri`.
pub open spec fn compact_form(ctx: Context, iri: Seq<char>, has_value: bool) -> Option<Seq<char>> {
    match best_prefix(ctx, iri, has_value, 0, None) {
        Some((b, n)) => Some(candidate(ctx.definitions@[b].0@, n, iri)),
        None => None,
    }
}

/// What stands for `var` where the inverse index was asked and `chosen`
/// is its answer: the chosen term; else a keyword as it is written; else
/// for an IRI the suffix behind the vocabulary mapping, the compact IRI, or
/// the IRI itself.
pub open spec fn term_or_iri(ctx: Context, var: Term, chosen: Option<Seq<char>>, has_value: bool) -> Seq<
    char,
> {
    match chosen {
        Some(t) => t,
        None => match var {
            Term::Null => Seq::empty(),
            Term::Keyword(k) => keyword_text(k),
            Term::Ref(iri) => match vocab_suffix(ctx, iri@) {
                Some(s) => s,
                None => match compact_form(ctx, iri@, has_value) {
                    Some(c) => c,
                    None => iri@,
                },
            },
        },
    }
}

/// What stands for `var` where nothing is known of a value.
pub open spec fn plain_term(ctx: Context, var: Term, options: Options) -> Seq<char> {
    let s = selection_base(ctx.default_language, None, false, options, false);
    term_or_iri(ctx, var, select(inverse_of(ctx), var@, s.containers, s.bucket, s.keys), false)
}

/// Whether an identifier is best written as a term: what stands for it is
/// a term that the context defines as this identifier.
pub open spec fn prefers_vocab(ctx: Context, id: String, options: Options) -> bool {
    ctx.spec_get(plain_term(ctx, Term::Ref(id), options)) matches Some(d) && d.value matches Some(
        Term::Ref(v),
    ) && v@ == id@
}

/// The query for a term, from what is known of the value.
pub open spec fn selection(ctx: Context, hint: Option<Hint>, reverse: bool, options: Options) -> Selection {
    selection_base(
        ctx.default_language,
        hint,
        reverse,
        options,
        match hint_id(hint) {
            Some(id) => prefers_vocab(ctx, id, options),
            None => false,
        },
    )
}

/// What stands for `var` as a term of the vocabulary, for the value that
/// the hint tells of: the term that the inverse index selects; else a
/// keyword as it is written; else for an IRI the suffix behind the
/// vocabulary mapping, the compact IRI, or the IRI itself.
pub open spec fn vocab_term(ctx: Context, var: Term, hint: Option<Hint>, reverse: bool, options: Options) -> Seq<
    char,
> {
    let s = selection(ctx, hint, reverse, options);
    term_or_iri(
        ctx,
        var,
        select(inverse_of(ctx), var@, s.containers, s.bucket, s.keys),
        hint is Some,
    )
}

/// The term under which a keyword is written.
pub open spec fn alias(ctx: Context, k: crate::syntax::Keyword, options: Options) -> Seq<char> {
    vocab_term(ctx, Term::Keyword(k), None, false, options)
}

/// What stands for an IRI that is no term of the vocabulary, such as an
/// identifier: the compact IRI; else, where relative references are asked
/// for and the context has a base IRI, the reference relative to the base;
/// else the IRI itself. A blank node identifier is never made relative. An
/// IRI that is to be made relative and is not well formed is an error.
pub open spec fn compact_id(ctx: Context, iri: Seq<char>, options: Options) -> Result<Seq<char>, Error> {
    match compact_form(ctx, iri, false) {
        Some(c) => Ok(c),
        None => match ctx.base_iri {
            Some(base) => if options.compact_to_relative && !is_blank(iri) {
                if !is_iri(iri) {
                    Err(Error::InvalidIriRef)
                } else if !is_iri(base@) {
                    Ok(iri)
                } else {
                    Ok(relative_iri(iri, base@))
                }
            } else {
                Ok(iri)
            },
            None => Ok(iri),
        },
    }
}

/// The compact form of `var`: nothing for null; with `vocab` a term of the
/// vocabulary; without it a keyword as it is written and an IRI as
/// `compact_id` gives it.
pub open spec fn spec_compact_iri(
    ctx: Context,
    var: Term,
    hint: Option<Hint>,
    vocab: bool,
    reverse: bool,
    options: Options,
) -> Result<Option<Seq<char>>, Error> {
    match var {
        Term::Null => Ok(None),
        Term::Keyword(k) => if vocab {
            Ok(Some(vocab_term(ctx, var, hint, reverse, options)))
        } else {
            Ok(Some(keyword_text(k)))
        },
        Term::Ref(iri) => if vocab {
            Ok(Some(vocab_term(ctx, var, hint, reverse, options)))
        } else {
            match compact_id(ctx, iri@, options) {
                Ok(s) => Ok(Some(s)),
                Err(e) => Err(e),
            }
        },
    }
}


fn set_pair(c: Container) -> (r: Vec<Container>)
    ensures
        r@ == with_set(c),
{
    let mut v: Vec<Container> = Vec::new();
    v.push(c);
    v.push(c.with(ContainerType::SetOf));
    assert(v@ =~= with_set(c));
    v
}

fn one(a: ContainerType) -> (r: Container)
    ensures
        r == only(a),
{
    Container::new().with(a)
}

fn two(a: ContainerType, b: ContainerType) -> (r: Container)
    ensures
        r == both(a, b),
{
    Container::new().with(a).with(b)
}

fn clone_tag(tag: Option<&LanguageTagBuf>) -> (r: Option<LanguageTagBuf>)
    ensures
        r == crate::text::owned(tag),
{
    match tag {
        Some(t) => Some(t.clone()),
        None => None,
    }
}

fn leading(hint: Option<Hint>) -> (r: Vec<Container>)
    ensures
        r@ == leading_containers(hint),
{
    let by_index = match hint {
        Some(h) => h.indexed && !(match h.object {
            Ref::Node(n) => n.is_graph(),
            _ => false,
        }),
        None => false,
    };
    if by_index {
        set_pair(one(ContainerType::Index))
    } else {
        Vec::new()
    }
}

fn trailing(hint: Option<Hint>, options: Options) -> (r: Vec<Container>)
    ensures
        r@ == trailing_containers(hint, options),
{
    let modern = match options.processing_mode {
        ProcessingMode::JsonLd1_0 => false,
        ProcessingMode::JsonLd1_1 => true,
    };
    let indexed = match hint {
        Some(h) => h.indexed,
        None => false,
    };
    let simple = match hint {
        Some(Hint { object: Ref::Value(Value::Literal(_, None)), indexed }) => !indexed,
        _ => false,
    };
    let mut v: Vec<Container> = Vec::new();
    v.push(Container::new());
    if modern && !indexed {
        let mut w = set_pair(one(ContainerType::Index));
        v.append(&mut w);
    }
    if modern && simple {
        let mut w = set_pair(one(ContainerType::Language));
        v.append(&mut w);
    }
    assert(v@ =~= trailing_containers(hint, options));
    v
}

fn graph_set(indexed: bool, named: bool) -> (r: Vec<Container>)
    ensures
        r@ == graph_containers(indexed, named),
{
    let mut v: Vec<Container> = Vec::new();
    if indexed {
        let mut w = set_pair(two(ContainerType::Graph, ContainerType::Index));
        v.append(&mut w);
    }
    if named {
        let mut w = set_pair(two(ContainerType::Graph, ContainerType::Id));
        v.append(&mut w);
    }
    let mut w = set_pair(one(ContainerType::Graph));
    v.append(&mut w);
    v.push(one(ContainerType::SetOf));
    if !indexed {
        let mut w = set_pair(two(ContainerType::Graph, ContainerType::Index));
        v.append(&mut w);
    }
    if !named {
        let mut w = set_pair(two(ContainerType::Graph, ContainerType::Id));
        v.append(&mut w);
    }
    let mut w = set_pair(one(ContainerType::Index));
    v.append(&mut w);
    assert(v@ =~= graph_containers(indexed, named));
    v
}

fn node_set() -> (r: Vec<Container>)
    ensures
        r@ == node_containers(),
{
    let mut v = set_pair(one(ContainerType::Id));
    let mut w = set_pair(one(ContainerType::Type));
    v.append(&mut w);
    v.push(one(ContainerType::SetOf));
    assert(v@ =~= node_containers());
    v
}

fn language_key_of(v: &Value) -> (r: Key)
    ensures
        r == value_language_key(*v),
{
    if v.direction().is_some() || v.language().is_some() {
        Key::Lang(clone_tag(v.language()), v.direction())
    } else {
        match v {
            Value::Literal(_, Some(_)) => Key::NoValue,
            Value::Json(_) => Key::NoValue,
            _ => Key::Null,
        }
    }
}

fn type_key_of(v: &Value) -> (r: Key)
    ensures
        r == value_type_key(*v),
{
    if v.direction().is_some() || v.language().is_some() {
        Key::NoValue
    } else {
        match v {
            Value::Literal(_, Some(ty)) => Key::Type(ty.clone()),
            Value::Json(_) => Key::Json,
            _ => Key::NoValue,
        }
    }
}

fn merge(common: Option<Key>, item: Key, counts: bool) -> (r: Option<Key>)
    ensures
        r == merged(common, item, counts),
{
    match common {
        None => Some(item),
        Some(c) => if !item.same_as(&c) && counts {
            Some(Key::NoValue)
        } else {
            Some(c)
        },
    }
}

fn list_selection(default_language: Option<&LanguageTagBuf>, items: &Vec<Indexed<Object>>) -> (r: (
    Bucket,
    Key,
))
    ensures
        r == list_key(crate::text::owned(default_language), items@),
{
    let mut language: Option<Key> = if items.len() == 0 {
        match default_language {
            Some(l) => Some(Key::Lang(Some(l.clone()), None)),
            None => None,
        }
    } else {
        None
    };
    let mut typ: Option<Key> = None;
    let ghost start = language;
    let mut i: usize = 0;
    while i < items.len()
        invariant
            i <= items.len(),
            common_keys(items@, i as int, language, typ) == common_keys(items@, 0, start, None),
        decreases items.len() - i,
    {
        let (lk, tk, is_value) = match &items[i].value {
            Object::Value(v) => (language_key_of(v), type_key_of(v), true),
            _ => (Key::NoValue, Key::Id, false),
        };
        language = merge(language, lk, is_value);
        typ = merge(typ, tk, true);
        i += 1;
    }
    let language = match language {
        Some(k) => k,
        None => Key::NoValue,
    };
    let typ = match typ {
        Some(k) => k,
        None => Key::NoValue,
    };
    let by_type = match typ {
        Key::NoValue => false,
        _ => true,
    };
    if by_type {
        (
            if items.len() == 0 {
                Bucket::Any
            } else {
                Bucket::Type
            },
            typ,
        )
    } else {
        (
            if items.len() == 0 {
                Bucket::Any
            } else {
                Bucket::Language
            },
            language,
        )
    }
}

fn value_selection(v: &Value, indexed: bool) -> (r: (Bucket, Key, bool))
    ensures
        r == value_key(*v, indexed),
{
    if (v.direction().is_some() || v.language().is_some()) && !indexed {
        (Bucket::Language, Key::Lang(clone_tag(v.language()), v.direction()), true)
    } else {
        match v {
            Value::Literal(_, Some(ty)) => (Bucket::Type, Key::Type(ty.clone()), false),
            Value::Json(_) => (Bucket::Type, Key::Json, false),
            Value::Literal(crate::object::value::Literal::String(_), None) => (
                Bucket::Language,
                Key::Null,
                false,
            ),
            Value::Literal(_, None) => (Bucket::Type, Key::NoValue, false),
            Value::LangString(_) => (Bucket::Language, Key::Null, false),
        }
    }
}

fn preferred(key: Key, by_id: Option<bool>) -> (r: Vec<Key>)
    ensures
        r@ == preferred_keys(key, by_id),
{
    let mut v: Vec<Key> = Vec::new();
    match &key {
        Key::Reverse => {
            v.push(Key::Reverse);
        },
        _ => {},
    }
    let extra: Option<Direction> = match &key {
        Key::Lang(Some(_), Some(d)) => Some(*d),
        _ => None,
    };
    match by_id {
        Some(true) => {
            v.push(Key::Vocab);
            v.push(Key::Id);
            v.push(Key::NoValue);
        },
        Some(false) => {
            v.push(Key::Id);
            v.push(Key::Vocab);
            v.push(Key::NoValue);
        },
        None => {
            v.push(key);
            v.push(Key::NoValue);
        },
    }
    v.push(Key::Any);
    match extra {
        Some(d) => {
            v.push(Key::Lang(None, Some(d)));
        },
        None => {},
    }
    assert(v@ =~= preferred_keys(key, by_id));
    v
}

fn make_selection(
    default_language: Option<&LanguageTagBuf>,
    hint: Option<Hint>,
    reverse: bool,
    options: Options,
    prefer_vocab: bool,
) -> (r: (Vec<Container>, Bucket, Vec<Key>))
    ensures
        r.0@ == selection_base(
            crate::text::owned(default_language),
            hint,
            reverse,
            options,
            prefer_vocab,
        ).containers,
        r.1 == selection_base(
            crate::text::owned(default_language),
            hint,
            reverse,
            options,
            prefer_vocab,
        ).bucket,
        r.2@ == selection_base(
            crate::text::owned(default_language),
            hint,
            reverse,
            options,
            prefer_vocab,
        ).keys,
{
    let ghost s = selection_base(
        crate::text::owned(default_language),
        hint,
        reverse,
        options,
        prefer_vocab,
    );
    let mut containers = leading(hint);
    let mut tail = trailing(hint, options);
    let has_id = match hint {
        Some(h) => match h.object {
            Ref::Node(n) => n.id.is_some(),
            _ => false,
        },
        None => false,
    };
    let by_id = if has_id {
        Some(prefer_vocab)
    } else {
        None
    };
    if reverse {
        containers.push(one(ContainerType::SetOf));
        containers.append(&mut tail);
        assert(containers@ =~= s.containers);
        (containers, Bucket::Type, preferred(Key::Reverse, by_id))
    } else {
        match hint {
            Some(Hint { object: Ref::List(items), indexed }) => {
                let (bucket, key) = list_selection(default_language, items);
                if !indexed {
                    containers.push(one(ContainerType::List));
                }
                containers.append(&mut tail);
                assert(containers@ =~= s.containers);
                (containers, bucket, preferred(key, None))
            },
            Some(Hint { object: Ref::Value(v), indexed }) => {
                let (bucket, key, by_language) = value_selection(v, indexed);
                if by_language {
                    let mut w = set_pair(one(ContainerType::Language));
                    containers.append(&mut w);
                }
                containers.push(one(ContainerType::SetOf));
                containers.append(&mut tail);
                assert(containers@ =~= s.containers);
                (containers, bucket, preferred(key, None))
            },
            Some(Hint { object: Ref::Node(n), indexed }) => {
                if n.is_graph() {
                    let mut w = graph_set(indexed, n.id.is_some());
                    containers.append(&mut w);
                } else {
                    let mut w = node_set();
                    containers.append(&mut w);
                }
                containers.append(&mut tail);
                assert(containers@ =~= s.containers);
                (containers, Bucket::Type, preferred(Key::Id, by_id))
            },
            None => {
                let mut w = node_set();
                containers.append(&mut w);
                containers.append(&mut tail);
                assert(containers@ =~= s.containers);
                (containers, Bucket::Type, preferred(Key::Id, None))
            },
        }
    }
}

fn find_vocab_suffix<'a>(ctx: &Context, iri: &'a str) -> (r: Option<&'a str>)
    ensures
        crate::text::opt_chars(r) == vocab_suffix(*ctx, iri@),
{
    match &ctx.vocabulary {
        Some(Term::Ref(v)) => match strip_prefix(iri, v.as_str()) {
            Some(suffix) => if !suffix.is_empty() && !ctx.contains(suffix) {
                Some(suffix)
            } else {
                None
            },
            None => None,
        },
        _ => None,
    }
}

fn make_candidate(term: &str, rest: &str) -> (r: String)
    ensures
        r@ == term@ + ":"@ + rest@,
{
    let mut c = term.to_owned();
    c.append(":");
    c.append(rest);
    c
}

/// The place and the length of the best prefix that a search has found.
pub open spec fn found(best: Option<(usize, usize, String)>) -> Option<(int, int)> {
    match best {
        Some((b, n, _)) => Some((b as int, n as int)),
        None => None,
    }
}

fn find_compact_form(ctx: &Context, iri: &str, has_value: bool) -> (r: Option<String>)
    ensures
        match r {
            Some(s) => compact_form(*ctx, iri@, has_value) == Some(s@),
            None => compact_form(*ctx, iri@, has_value) is None,
        },
{
    let mut best: Option<(usize, usize, String)> = None;
    let mut i: usize = 0;
    while i < ctx.definitions.len()
        invariant
            i <= ctx.definitions.len(),
            best_prefix(*ctx, iri@, has_value, i as int, found(best)) == best_prefix(
                *ctx,
                iri@,
                has_value,
                0,
                None,
            ),
            best matches Some((b, n, c)) ==> b < ctx.definitions@.len() && c@ == candidate(
                ctx.definitions@[b as int].0@,
                n as int,
                iri@,
            ),
        decreases ctx.definitions.len() - i,
    {
        let term = &ctx.definitions[i].0;
        let def = &ctx.definitions[i].1;
        let mut usable: Option<(usize, String)> = None;
        if def.prefix {
            match &def.value {
                Some(Term::Ref(p)) => {
                    match strip_prefix(iri, p.as_str()) {
                        Some(rest) => {
                            if !rest.is_empty() {
                                let compact = make_candidate(term.as_str(), rest);
                                let ok = match ctx.get(compact.as_str()) {
                                    None => true,
                                    Some(d) => !has_value && match &d.value {
                                        Some(Term::Ref(v)) => str_eq(v.as_str(), iri),
                                        _ => false,
                                    },
                                };
                                if ok {
                                    usable = Some((p.as_str().unicode_len(), compact));
                                }
                            }
                        },
                        None => {},
                    }
                },
                _ => {},
            }
        }
        assert(match usable {
            Some((n, c)) => prefix_length(*ctx, iri@, has_value, i as int) == Some(n as int) && c@
                == candidate(term@, n as int, iri@),
            None => prefix_length(*ctx, iri@, has_value, i as int) is None,
        });
        match usable {
            Some((n, compact)) => {
                let take = match &best {
                    None => true,
                    Some((b, m, _)) => n > *m || (n == *m && str_lt(
                        term.as_str(),
                        ctx.definitions[*b].0.as_str(),
                    )),
                };
                if take {
                    best = Some((i, n, compact));
                }
            },
            None => {},
        }
        i += 1;
    }
    match best {
        Some((_, _, compact)) => Some(compact),
        None => None,
    }
}

fn finish(
    active: &Inversible,
    var: &Term,
    containers: &Vec<Container>,
    bucket: Bucket,
    keys: &Vec<Key>,
    has_value: bool,
) -> (r: String)
    ensures
        r@ == term_or_iri(
            active@,
            *var,
            select(inverse_of(active@), var@, containers@, bucket, keys@),
            has_value,
        ),
{
    let ctx = active.context();
    match active.select(var, containers, bucket, keys) {
        Some(t) => t.to_owned(),
        None => match var {
            Term::Null => String::new(),
            Term::Keyword(k) => k.into_str().to_owned(),
            Term::Ref(iri) => match find_vocab_suffix(ctx, iri.as_str()) {
                Some(s) => s.to_owned(),
                None => match find_compact_form(ctx, iri.as_str(), has_value) {
                    Some(c) => c,
                    None => iri.clone(),
                },
            },
        },
    }
}

fn plain(active: &Inversible, var: &Term, options: Options) -> (r: String)
    ensures
        r@ == plain_term(active@, *var, options),
{
    let ctx = active.context();
    let (containers, bucket, keys) = make_selection(
        ctx.default_language(),
        None,
        false,
        options,
        false,
    );
    finish(active, var, &containers, bucket, &keys, false)
}

/// What stands for `var` as a term of the vocabulary, for the value that
/// the hint tells of.
pub fn term_for(active: &Inversible, var: &Term, hint: Option<Hint>, reverse: bool, options: Options) -> (r:
    String)
    ensures
        r@ == vocab_term(active@, *var, hint, reverse, options),
{
    let ctx = active.context();
    let id: Option<&String> = match hint {
        Some(h) => match h.object {
            Ref::Node(n) => n.id.as_ref(),
            _ => None,
        },
        None => None,
    };
    let prefer = match id {
        Some(id) => {
            let t = plain(active, &Term::Ref(id.clone()), options);
            match ctx.get(t.as_str()) {
                Some(d) => match &d.value {
                    Some(Term::Ref(v)) => str_eq(v.as_str(), id.as_str()),
                    _ => false,
                },
                None => false,
            }
        },
        None => false,
    };
    let (containers, bucket, keys) = make_selection(
        ctx.default_language(),
        hint,
        reverse,
        options,
        prefer,
    );
    finish(active, var, &containers, bucket, &keys, hint.is_some())
}

/// The term under which a keyword is written.
pub fn alias_for(active: &Inversible, k: crate::syntax::Keyword, options: Options) -> (r: String)
    ensures
        r@ == alias(active@, k, options),
{
    term_for(active, &Term::Keyword(k), None, false, options)
}

/// What stands for an IRI that is no term of the vocabulary, such as an
/// identifier.
pub fn compact_identifier(ctx: &Context, iri: &str, options: Options) -> (r: Result<String, Error>)
    ensures
        match r {
            Ok(s) => compact_id(*ctx, iri@, options) == Ok::<Seq<char>, Error>(s@),
            Err(e) => compact_id(*ctx, iri@, options) == Err::<Seq<char>, Error>(e),
        },
{
    match find_compact_form(ctx, iri, false) {
        Some(c) => Ok(c),
        None => match ctx.base_iri() {
            Some(base) => if options.compact_to_relative && strip_prefix(iri, "_:").is_none() {
                if !parses_as_iri(iri) {
                    Err(Error::InvalidIriRef)
                } else if !parses_as_iri(base) {
                    Ok(iri.to_owned())
                } else {
                    Ok(relative_to(iri, base))
                }
            } else {
                Ok(iri.to_owned())
            },
            None => Ok(iri.to_owned()),
        },
    }
}

/// The compact form of `var` for the value that the hint tells of:
/// nothing for null; with `vocab` a term of the vocabulary; without it a
/// keyword as it is written, and for an IRI its compact IRI, the reference
/// relative to the base IRI, or the IRI itself.
pub fn compact_iri_with(
    active: &Inversible,
    var: &Term,
    value: Option<Hint>,
    vocab: bool,
    reverse: bool,
    options: Options,
) -> (r: Result<Option<String>, Error>)
    ensures
        match r {
            Ok(Some(s)) => spec_compact_iri(active@, *var, value, vocab, reverse, options) == Ok::<
                Option<Seq<char>>,
                Error,
            >(Some(s@)),
            Ok(None) => spec_compact_iri(active@, *var, value, vocab, reverse, options) == Ok::<
                Option<Seq<char>>,
                Error,
            >(None),
            Err(e) => spec_compact_iri(active@, *var, value, vocab, reverse, options) == Err::<
                Option<Seq<char>>,
                Error,
            >(e),
        },
{
    match var {
        Term::Null => Ok(None),
        Term::Keyword(k) => if vocab {
            Ok(Some(term_for(active, var, value, reverse, options)))
        } else {
            Ok(Some(k.into_str().to_owned()))
        },
        Term::Ref(iri) => if vocab {
            Ok(Some(term_for(active, var, value, reverse, options)))
        } else {
            match compact_identifier(active.context(), iri.as_str(), options) {
                Ok(s) => Ok(Some(s)),
                Err(e) => Err(e),
            }
        },
    }
}

/// The compact form of `var` where nothing is known of a value.
pub fn compact_iri(active: &Inversible, var: &Term, vocab: bool, reverse: bool, options: Options) -> (r:
    Result<Option<String>, Error>)
    ensures
        match r {
            Ok(Some(s)) => spec_compact_iri(active@, *var, None, vocab, reverse, options) == Ok::<
                Option<Seq<char>>,
                Error,
            >(Some(s@)),
            Ok(None) => spec_compact_iri(active@, *var, None, vocab, reverse, options) == Ok::<
                Option<Seq<char>>,
                Error,
            >(None),
            Err(e) => spec_compact_iri(active@, *var, None, vocab, reverse, options) == Err::<
                Option<Seq<char>>,
                Error,
            >(e),
        },
{
    compact_iri_with(active, var, None, vocab, reverse, options)
}


/// A key of the output that stands for `var` is either a term that the
/// context defines as `var`, or what `var` is written as without a term: a
/// keyword itself, and for an IRI the suffix behind the vocabulary mapping,
/// its compact IRI, or the IRI.
pub proof fn lemma_vocab_term_origin(
    ctx: Context,
    var: Term,
    hint: Option<Hint>,
    reverse: bool,
    options: Options,
)
    requires
        ctx.wf(),
    ensures
        crate::context::inverse::maps_to(ctx, vocab_term(ctx, var, hint, reverse, options), var@)
            || vocab_term(ctx, var, hint, reverse, options) == term_or_iri(
            ctx,
            var,
            None,
            hint is Some,
        ),
{
    let s = selection(ctx, hint, reverse, options);
    crate::context::inverse::lemma_selected_term_is_defined(
        ctx,
        var@,
        s.containers,
        s.bucket,
        s.keys,
    );
}

/// The key under which a keyword is written is the keyword itself, or a
/// term that the context defines as this keyword.
pub proof fn lemma_alias_is_keyword(ctx: Context, k: crate::syntax::Keyword, options: Options)
    requires
        ctx.wf(),
    ensures
        alias(ctx, k, options) == keyword_text(k) || crate::context::inverse::maps_to(
            ctx,
            alias(ctx, k, options),
            crate::syntax::TermView::Keyword(k),
        ),
{
    lemma_vocab_term_origin(ctx, Term::Keyword(k), None, false, options);
}


/// Whether `best` is the best prefix among the first `i` term
/// definitions: a prefix that can serve, and no other that can serve is
/// longer.
pub open spec fn is_best_among(
    ctx: Context,
    iri: Seq<char>,
    has_value: bool,
    i: int,
    best: Option<(int, int)>,
) -> bool {
    match best {
        Some((b, n)) => {
            &&& 0 <= b < i
            &&& prefix_length(ctx, iri, has_value, b) == Some(n)
            &&& forall|j: int|
                0 <= j < i ==> (#[trigger] prefix_length(ctx, iri, has_value, j) matches Some(m)
                    ==> m <= n)
        },
        None => forall|j: int|
            0 <= j < i ==> #[trigger] prefix_length(ctx, iri, has_value, j) is None,
    }
}

/// The search for the best prefix keeps the best one.
pub proof fn lemma_best_prefix_from(
    ctx: Context,
    iri: Seq<char>,
    has_value: bool,
    i: int,
    best: Option<(int, int)>,
)
    requires
        0 <= i <= ctx.definitions@.len(),
        is_best_among(ctx, iri, has_value, i, best),
    ensures
        is_best_among(
            ctx,
            iri,
            has_value,
            ctx.definitions@.len() as int,
            best_prefix(ctx, iri, has_value, i, best),
        ),
    decreases ctx.definitions@.len() - i,
{
    if i < ctx.definitions@.len() {
        let next = match prefix_length(ctx, iri, has_value, i) {
            Some(n) => if better(ctx.definitions@[i].0@, n, best, ctx) {
                Some((i, n))
            } else {
                best
            },
            None => best,
        };
        assert(is_best_among(ctx, iri, has_value, i + 1, next));
        lemma_best_prefix_from(ctx, iri, has_value, i + 1, next);
    }
}

/// The compact IRI is made with the longest prefix. Where an IRI has a
/// compact form, it is `term:suffix` for a term of the context with the
/// prefix flag whose IRI, followed by the suffix, is the IRI; and no term
/// that can serve has a longer IRI. Where it has none, no term can serve.
pub proof fn lemma_compact_form(ctx: Context, iri: Seq<char>, has_value: bool)
    ensures
        match best_prefix(ctx, iri, has_value, 0, None) {
            Some((b, n)) => {
                &&& 0 <= b < ctx.definitions@.len()
                &&& ctx.definitions@[b].1.prefix
                &&& ctx.definitions@[b].1.value matches Some(Term::Ref(p))
                &&& p@.len() == n
                &&& n < iri.len()
                &&& p@ + iri.subrange(n, iri.len() as int) == iri
                &&& compact_form(ctx, iri, has_value) == Some(
                    ctx.definitions@[b].0@ + ":"@ + iri.subrange(n, iri.len() as int),
                )
                &&& forall|j: int|
                    0 <= j < ctx.definitions@.len() ==> (#[trigger] prefix_length(
                        ctx,
                        iri,
                        has_value,
                        j,
                    ) matches Some(m) ==> m <= n)
            },
            None => compact_form(ctx, iri, has_value) is None && forall|j: int|
                0 <= j < ctx.definitions@.len() ==> #[trigger] prefix_length(
                    ctx,
                    iri,
                    has_value,
                    j,
                ) is None,
        },
{
    lemma_best_prefix_from(ctx, iri, has_value, 0, None);
    match best_prefix(ctx, iri, has_value, 0, None) {
        Some((b, n)) => {
            match ctx.definitions@[b].1.value {
                Some(Term::Ref(p)) => {
                    assert(p@ + iri.subrange(n, iri.len() as int) =~= iri);
                },
                _ => {},
            }
        },
        None => {},
    }
}

/// The suffix behind the vocabulary mapping, put behind the mapping, is
/// the IRI.
pub proof fn lemma_vocab_suffix(ctx: Context, iri: Seq<char>)
    ensures
        vocab_suffix(ctx, iri) matches Some(s) ==> ctx.vocabulary matches Some(Term::Ref(v)) && v@
            + s == iri && s.len() > 0 && ctx.spec_get(s) is None,
{
    match ctx.vocabulary {
        Some(Term::Ref(v)) => {
            if vocab_suffix(ctx, iri) is Some {
                assert(v@ + iri.subrange(v@.len() as int, iri.len() as int) =~= iri);
            }
        },
        _ => {},
    }
}

} // verus!
