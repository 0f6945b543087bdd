//! JSON values, with their mathematical view.

use vstd::prelude::*;
use crate::text::str_eq;

verus! {

/// A JSON number in decimal form: `mantissa * 10^exponent`, negated unless
/// `positive`.
#[derive(Clone, Copy, PartialEq, Eq, Structural, Hash, Debug)]
pub struct Number {
    pub positive: bool,
    pub mantissa: u64,
    pub exponent: i16,
}

impl Number {
    /// Whether the number is zero.
    pub open spec fn spec_is_zero(self) -> bool {
        self.mantissa == 0
    }

    /// Whether the number is zero.
    #[verifier::when_used_as_spec(spec_is_zero)]
    pub fn is_zero(self) -> (r: bool)
        ensures
            r == self.spec_is_zero(),
    {
        self.mantissa == 0
    }

    /// The number that stands for an integer.
    pub fn from_i64(n: i64) -> (r: Number)
        ensures
            r.exponent == 0,
            r.positive == (n >= 0),
            r.mantissa == if n >= 0 { n as int } else { -(n as int) },
    {
        if n >= 0 {
            Number { positive: true, mantissa: n as u64, exponent: 0 }
        } else if n == i64::MIN {
            Number { positive: false, mantissa: 0x8000_0000_0000_0000u64, exponent: 0 }
        } else {
            Number { positive: false, mantissa: (-n) as u64, exponent: 0 }
        }
    }
}

/// A JSON value.
#[derive(Debug, PartialEq, Eq, Hash)]
pub enum Value {
    Null,
    Boolean(bool),
    Number(Number),
    String(String),
    Array(Vec<Value>),
    Object(Object),
}

/// A JSON object: its entries in the order in which their keys came in.
#[derive(Debug, PartialEq, Eq, Hash)]
pub struct Object {
    pub entries: Vec<(String, Value)>,
}

/// What a JSON value is: the same tree over sequences.
pub enum JsonView {
    Null,
    Boolean(bool),
    Number(Number),
    String(Seq<char>),
    Array(Seq<JsonView>),
    Object(Seq<(Seq<char>, JsonView)>),
}

/// The entries of an object, as the views speak of them.
pub type ObjectView = Seq<(Seq<char>, JsonView)>;

/// The views of the items of an array.
pub open spec fn values_view(items: Seq<Value>) -> Seq<JsonView>
    decreases items,
{
    Seq::new(
        items.len(),
        |i: int|
            if 0 <= i < items.len() {
                items[i]@
            } else {
                JsonView::Null
            },
    )
}

/// The views of the entries of an object.
pub open spec fn entries_view(entries: Seq<(String, Value)>) -> ObjectView
    decreases entries,
{
    Seq::new(
        entries.len(),
        |i: int|
            if 0 <= i < entries.len() {
                (entries[i].0@, entries[i].1@)
            } else {
                (Seq::empty(), JsonView::Null)
            },
    )
}

impl View for Value {
    type V = JsonView;

    open spec fn view(&self) -> JsonView
        decreases self,
    {
        match self {
            Value::Null => JsonView::Null,
            Value::Boolean(b) => JsonView::Boolean(*b),
            Value::Number(n) => JsonView::Number(*n),
            Value::String(s) => JsonView::String(s@),
            Value::Array(items) => JsonView::Array(values_view(items@)),
            Value::Object(o) => JsonView::Object(entries_view(o.entries@)),
        }
    }
}

impl View for Object {
    type V = ObjectView;

    open spec fn view(&self) -> ObjectView {
        entries_view(self.entries@)
    }
}

/// The first position from `i` on at which `key` stands in `entries`.
pub open spec fn index_of_from(entries: ObjectView, key: Seq<char>, i: int) -> Option<int>
    decreases entries.len() - i,
{
    if i < 0 || i >= entries.len() {
        None
    } else if entries[i].0 == key {
        Some(i)
    } else {
        index_of_from(entries, key, i + 1)
    }
}

/// The first position at which `key` stands in `entries`.
pub open spec fn index_of(entries: ObjectView, key: Seq<char>) -> Option<int> {
    index_of_from(entries, key, 0)
}

/// The value that `entries` gives to `key`.
pub open spec fn get(entries: ObjectView, key: Seq<char>) -> Option<JsonView> {
    match index_of(entries, key) {
        Some(i) => Some(entries[i].1),
        None => None,
    }
}

/// `entries` with `key` set to `value`: in place where the key is there,
/// at the end where it is new.
pub open spec fn insert(entries: ObjectView, key: Seq<char>, value: JsonView) -> ObjectView {
    match index_of(entries, key) {
        Some(i) => entries.update(i, (key, value)),
        None => entries.push((key, value)),
    }
}

/// `entries` without the entry of `key`.
pub open spec fn remove(entries: ObjectView, key: Seq<char>) -> ObjectView {
    match index_of(entries, key) {
        Some(i) => entries.remove(i),
        None => entries,
    }
}

/// Whether no key stands twice in `entries`.
pub open spec fn unique_keys(entries: ObjectView) -> bool {
    forall|i: int, j: int|
        0 <= i < j < entries.len() ==> (#[trigger] entries[i]).0 != (#[trigger] entries[j]).0
}

/// What `index_of_from` finds is the first entry of the key at or after `i`.
pub proof fn lemma_index_of_from(entries: ObjectView, key: Seq<char>, i: int)
    requires
        0 <= i,
    ensures
        match index_of_from(entries, key, i) {
            Some(k) => i <= k < entries.len() && entries[k].0 == key && forall|j: int|
                i <= j < k ==> (#[trigger] entries[j]).0 != key,
            None => forall|j: int| i <= j < entries.len() ==> (#[trigger] entries[j]).0 != key,
        },
    decreases entries.len() - i,
{
    if i < entries.len() && entries[i].0 != key {
        lemma_index_of_from(entries, key, i + 1);
    }
}

/// After `insert` the key is there with the value, and the other keys are
/// as they were.
pub proof fn lemma_insert_get(entries: ObjectView, key: Seq<char>, value: JsonView, other: Seq<char>)
    ensures
        get(insert(entries, key, value), key) == Some(value),
        other != key ==> get(insert(entries, key, value), other) == get(entries, other),
{
    let after = insert(entries, key, value);
    lemma_index_of_from(entries, key, 0);
    lemma_index_of_from(after, key, 0);
    lemma_index_of_from(entries, other, 0);
    lemma_index_of_from(after, other, 0);
    match index_of(entries, key) {
        Some(i) => {
            assert(after[i].0 == key);
            if other != key {
                match index_of(entries, other) {
                    Some(k) => {
                        assert(after[k] == entries[k]);
                        match index_of(after, other) {
                            Some(k2) => {
                                assert(after[k2].0 == other);
                                assert(entries[k2].0 == other);
                            },
                            None => {},
                        }
                    },
                    None => {
                        match index_of(after, other) {
                            Some(k2) => {
                                assert(entries[k2].0 == other);
                            },
                            None => {},
                        }
                    },
                }
            }
        },
        None => {
            let n = entries.len() as int;
            assert(after[n].0 == key);
            assert(forall|j: int| 0 <= j < n ==> after[j] == entries[j]);
            if other != key {
                match index_of(entries, other) {
                    Some(k) => {
                        assert(after[k] == entries[k]);
                        match index_of(after, other) {
                            Some(k2) => {
                                assert(after[k2].0 == other);
                            },
                            None => {},
                        }
                    },
                    None => {
                        match index_of(after, other) {
                            Some(k2) => {
                                assert(after[k2].0 == other);
                                assert(k2 < n);
                                assert(entries[k2].0 == other);
                            },
                            None => {},
                        }
                    },
                }
            }
        },
    }
}

/// `insert` keeps the keys unique.
pub proof fn lemma_insert_unique(entries: ObjectView, key: Seq<char>, value: JsonView)
    requires
        unique_keys(entries),
    ensures
        unique_keys(insert(entries, key, value)),
{
    lemma_index_of_from(entries, key, 0);
    let after = insert(entries, key, value);
    assert forall|i: int, j: int| 0 <= i < j < after.len() implies (#[trigger] after[i]).0 != (
    #[trigger] after[j]).0 by {
        match index_of(entries, key) {
            Some(k) => {
                assert(after[i].0 == entries[i].0);
                assert(after[j].0 == entries[j].0);
            },
            None => {
                if j < entries.len() {
                    assert(after[i] == entries[i]);
                    assert(after[j] == entries[j]);
                } else {
                    assert(after[i] == entries[i]);
                }
            },
        }
    }
}

impl Object {
    /// The object without entries.
    pub fn new() -> (r: Object)
        ensures
            r@ == Seq::<(Seq<char>, JsonView)>::empty(),
    {
        let r = Object { entries: Vec::new() };
        assert(r@ =~= Seq::<(Seq<char>, JsonView)>::empty());
        r
    }

    /// The number of entries.
    pub fn len(&self) -> (r: usize)
        ensures
            r == self@.len(),
    {
        self.entries.len()
    }

    /// Whether the object has no entry.
    pub fn is_empty(&self) -> (r: bool)
        ensures
            r == (self@.len() == 0),
    {
        self.entries.len() == 0
    }

    /// The position of the entry of `key`.
    pub fn index_of(&self, key: &str) -> (r: Option<usize>)
        ensures
            match r {
                Some(i) => index_of(self@, key@) == Some(i as int) && i < self.entries@.len()
                    && self@[i as int].0 == key@,
                None => index_of(self@, key@) is None,
            },
    {
        proof {
            lemma_index_of_from(self@, key@, 0);
        }
        let mut i: usize = 0;
        while i < self.entries.len()
            invariant
                i <= self.entries.len(),
                index_of_from(self@, key@, i as int) == index_of(self@, key@),
            decreases self.entries.len() - i,
        {
            if str_eq(self.entries[i].0.as_str(), key) {
                return Some(i);
            }
            i += 1;
        }
        None
    }

    /// The value of `key`, if the object has it.
    pub fn get(&self, key: &str) -> (r: Option<&Value>)
        ensures
            match r {
                Some(v) => get(self@, key@) == Some(v@),
                None => get(self@, key@) is None,
            },
    {
        match self.index_of(key) {
            Some(i) => Some(&self.entries[i].1),
            None => None,
        }
    }

    /// Whether the object has an entry for `key`.
    pub fn contains_key(&self, key: &str) -> (r: bool)
        ensures
            r == (get(self@, key@) is Some),
    {
        self.index_of(key).is_some()
    }

    /// Sets `key` to `value`: in place where the key is there, at the end
    /// where it is new.
    pub fn insert(&mut self, key: String, value: Value)
        ensures
            final(self)@ == insert(old(self)@, key@, value@),
    {
        match self.index_of(key.as_str()) {
            Some(i) => {
                self.entries.set(i, (key, value));
                assert(self@ =~= insert(old(self)@, key@, value@));
            },
            None => {
                self.entries.push((key, value));
                assert(self@ =~= insert(old(self)@, key@, value@));
            },
        }
    }

    /// Puts `value` in the place of the value of the entry at `i`, and
    /// hands back what stood there.
    pub fn replace_at(&mut self, i: usize, value: Value) -> (r: Value)
        requires
            i < old(self)@.len(),
        ensures
            final(self)@ == old(self)@.update(i as int, (old(self)@[i as int].0, value@)),
            r@ == old(self)@[i as int].1,
    {
        let entry = self.entries.remove(i);
        let (key, before) = entry;
        self.entries.insert(i, (key, value));
        assert(self@ =~= old(self)@.update(i as int, (old(self)@[i as int].0, value@)));
        before
    }

    /// Takes the entry of `key` out and hands back its value.
    pub fn remove(&mut self, key: &str) -> (r: Option<Value>)
        ensures
            final(self)@ == remove(old(self)@, key@),
            match r {
                Some(v) => get(old(self)@, key@) == Some(v@),
                None => get(old(self)@, key@) is None,
            },
    {
        match self.index_of(key) {
            Some(i) => {
                let entry = self.entries.remove(i);
                assert(self@ =~= remove(old(self)@, key@));
                Some(entry.1)
            },
            None => None,
        }
    }
}

impl Clone for Value {
    fn clone(&self) -> (r: Value)
        ensures
            r@ == self@,
        decreases self,
    {
        match self {
            Value::Null => Value::Null,
            Value::Boolean(b) => Value::Boolean(*b),
            Value::Number(n) => Value::Number(*n),
            Value::String(s) => Value::String(s.clone()),
            Value::Array(items) => {
                let mut out: Vec<Value> = Vec::new();
                let mut i: usize = 0;
                while i < items.len()
                    invariant
                        i <= items.len(),
                        self is Array,
                        self->Array_0 == *items,
                        out@.len() == i,
                        forall|j: int| 0 <= j < i ==> out@[j]@ == items@[j]@,
                    decreases items.len() - i,
                {
                    proof {
                        assert(decreases_to!(self => self->Array_0));
                        assert(decreases_to!(items => items[i as int]));
                    }
                    let c = items[i].clone();
                    out.push(c);
                    i += 1;
                }
                assert(values_view(out@) =~= values_view(items@));
                Value::Array(out)
            },
            Value::Object(o) => {
                let mut out: Vec<(String, Value)> = Vec::new();
                let mut i: usize = 0;
                while i < o.entries.len()
                    invariant
                        i <= o.entries.len(),
                        self is Object,
                        self->Object_0 == *o,
                        out@.len() == i,
                        forall|j: int|
                            0 <= j < i ==> out@[j].0@ == o.entries@[j].0@ && out@[j].1@
                                == o.entries@[j].1@,
                    decreases o.entries.len() - i,
                {
                    proof {
                        assert(decreases_to!(self => self->Object_0));
                        assert(decreases_to!(o => o.entries));
                        assert(decreases_to!(o.entries => o.entries[i as int]));
                        assert(decreases_to!(o.entries[i as int] => o.entries[i as int].1));
                    }
                    let k = o.entries[i].0.clone();
                    let c = o.entries[i].1.clone();
                    out.push((k, c));
                    i += 1;
                }
                assert(entries_view(out@) =~= entries_view(o.entries@));
                Value::Object(Object { entries: out })
            },
        }
    }
}

impl Clone for Object {
    fn clone(&self) -> (r: Object)
        ensures
            r@ == self@,
    {
        let mut out: Vec<(String, Value)> = Vec::new();
        let mut i: usize = 0;
        while i < self.entries.len()
            invariant
                i <= self.entries.len(),
                out@.len() == i,
                forall|j: int|
                    0 <= j < i ==> out@[j].0@ == self.entries@[j].0@ && out@[j].1@
                        == self.entries@[j].1@,
            decreases self.entries.len() - i,
        {
            let k = self.entries[i].0.clone();
            let c = self.entries[i].1.clone();
            out.push((k, c));
            i += 1;
        }
        assert(entries_view(out@) =~= entries_view(self.entries@));
        Object { entries: out }
    }
}

/// The items in the opposite order.
pub fn reversed<T>(items: Vec<T>) -> (r: Vec<T>)
    ensures
        r@.len() == items@.len(),
        forall|j: int| 0 <= j < r@.len() ==> r@[j] == items@[items@.len() - 1 - j],
{
    let mut items = items;
    let ghost all = items@;
    let mut out: Vec<T> = Vec::new();
    while items.len() > 0
        invariant
            items@.len() + out@.len() == all.len(),
            forall|j: int| 0 <= j < items@.len() ==> items@[j] == all[j],
            forall|j: int| 0 <= j < out@.len() ==> out@[j] == all[all.len() - 1 - j],
        decreases items.len(),
    {
        match items.pop() {
            Some(v) => {
                out.push(v);
            },
            None => {},
        }
    }
    out
}

/// Whether a JSON value counts as empty: `null`, `false`, zero, the empty
/// string, the empty array and the object without entries do.
pub open spec fn is_empty_json(v: JsonView) -> bool {
    match v {
        JsonView::Null => true,
        JsonView::Boolean(b) => !b,
        JsonView::Number(n) => n.is_zero(),
        JsonView::String(s) => s.len() == 0,
        JsonView::Array(a) => a.len() == 0,
        JsonView::Object(o) => o.len() == 0,
    }
}

/// A borrowed look at a JSON value, one variant for each kind.
pub enum ValueRef<'a> {
    Null,
    Boolean(bool),
    Number(&'a Number),
    String(&'a str),
    Array(&'a Vec<Value>),
    Object(&'a Object),
}

/// A borrowed look at a JSON value through which it can be changed.
pub enum ValueMut<'a> {
    Null,
    Boolean(bool),
    Number(&'a mut Number),
    String(&'a mut String),
    Array(&'a mut Vec<Value>),
    Object(&'a mut Object),
}

impl<'a> View for ValueRef<'a> {
    type V = JsonView;

    open spec fn view(&self) -> JsonView {
        match self {
            ValueRef::Null => JsonView::Null,
            ValueRef::Boolean(b) => JsonView::Boolean(*b),
            ValueRef::Number(n) => JsonView::Number(**n),
            ValueRef::String(s) => JsonView::String(s@),
            ValueRef::Array(items) => JsonView::Array(values_view(items@)),
            ValueRef::Object(o) => JsonView::Object(o@),
        }
    }
}

impl<'a> ValueRef<'a> {
    pub fn is_null(&self) -> (r: bool)
        ensures
            r == (self@ is Null),
    {
        match self {
            ValueRef::Null => true,
            _ => false,
        }
    }

    /// Whether the value counts as empty.
    pub fn is_empty(&self) -> (r: bool)
        ensures
            r == is_empty_json(self@),
    {
        match *self {
            ValueRef::Null => true,
            ValueRef::Boolean(b) => !b,
            ValueRef::Number(n) => n.is_zero(),
            ValueRef::String(s) => s.is_empty(),
            ValueRef::Array(a) => a.len() == 0,
            ValueRef::Object(o) => o.is_empty(),
        }
    }

    pub fn is_number(&self) -> (r: bool)
        ensures
            r == (self@ is Number),
    {
        match self {
            ValueRef::Number(_) => true,
            _ => false,
        }
    }

    pub fn is_string(&self) -> (r: bool)
        ensures
            r == (self@ is String),
    {
        match self {
            ValueRef::String(_) => true,
            _ => false,
        }
    }

    pub fn is_array(&self) -> (r: bool)
        ensures
            r == (self@ is Array),
    {
        match self {
            ValueRef::Array(_) => true,
            _ => false,
        }
    }

    pub fn is_object(&self) -> (r: bool)
        ensures
            r == (self@ is Object),
    {
        match self {
            ValueRef::Object(_) => true,
            _ => false,
        }
    }

    pub fn as_bool(&self) -> (r: Option<bool>)
        ensures
            r == (if let JsonView::Boolean(b) = self@ { Some(b) } else { None }),
    {
        match self {
            ValueRef::Boolean(b) => Some(*b),
            _ => None,
        }
    }

    pub fn as_number(&self) -> (r: Option<&'a Number>)
        ensures
            match r {
                Some(n) => self@ == JsonView::Number(*n),
                None => !(self@ is Number),
            },
    {
        match self {
            ValueRef::Number(n) => Some(*n),
            _ => None,
        }
    }

    pub fn as_str(&self) -> (r: Option<&'a str>)
        ensures
            match r {
                Some(s) => self@ == JsonView::String(s@),
                None => !(self@ is String),
            },
    {
        match self {
            ValueRef::String(s) => Some(*s),
            _ => None,
        }
    }

    pub fn as_object(&self) -> (r: Option<&'a Object>)
        ensures
            match r {
                Some(o) => self@ == JsonView::Object(o@),
                None => !(self@ is Object),
            },
    {
        match self {
            ValueRef::Object(o) => Some(*o),
            _ => None,
        }
    }
}

impl Value {
    /// A borrowed look at the value.
    pub fn as_ref(&self) -> (r: ValueRef<'_>)
        ensures
            r@ == self@,
    {
        match self {
            Value::Null => ValueRef::Null,
            Value::Boolean(b) => ValueRef::Boolean(*b),
            Value::Number(n) => ValueRef::Number(n),
            Value::String(s) => ValueRef::String(s.as_str()),
            Value::Array(items) => ValueRef::Array(items),
            Value::Object(o) => ValueRef::Object(o),
        }
    }

    /// A borrowed look at the value through which it can be changed.
    pub fn as_mut(&mut self) -> (r: ValueMut<'_>)
        ensures
            match r {
                ValueMut::Null => *old(self) == Value::Null && *final(self) == Value::Null,
                ValueMut::Boolean(b) => *old(self) == Value::Boolean(b) && *final(self)
                    == Value::Boolean(b),
                ValueMut::Number(n) => *old(self) == Value::Number(*n) && *final(self)
                    == Value::Number(*final(n)),
                ValueMut::String(s) => *old(self) == Value::String(*s) && *final(self)
                    == Value::String(*final(s)),
                ValueMut::Array(a) => *old(self) == Value::Array(*a) && *final(self)
                    == Value::Array(*final(a)),
                ValueMut::Object(o) => *old(self) == Value::Object(*o) && *final(self)
                    == Value::Object(*final(o)),
            },
    {
        match self {
            Value::Null => ValueMut::Null,
            Value::Boolean(b) => ValueMut::Boolean(*b),
            Value::Number(n) => ValueMut::Number(n),
            Value::String(s) => ValueMut::String(s),
            Value::Array(items) => ValueMut::Array(items),
            Value::Object(o) => ValueMut::Object(o),
        }
    }

    pub fn is_null(&self) -> (r: bool)
        ensures
            r == (self@ is Null),
    {
        self.as_ref().is_null()
    }

    /// Whether the value counts as empty.
    pub fn is_empty(&self) -> (r: bool)
        ensures
            r == is_empty_json(self@),
    {
        self.as_ref().is_empty()
    }

    pub fn is_string(&self) -> (r: bool)
        ensures
            r == (self@ is String),
    {
        self.as_ref().is_string()
    }

    pub fn is_array(&self) -> (r: bool)
        ensures
            r == (self@ is Array),
    {
        self.as_ref().is_array()
    }

    pub fn is_object(&self) -> (r: bool)
        ensures
            r == (self@ is Object),
    {
        self.as_ref().is_object()
    }

    pub fn as_bool(&self) -> (r: Option<bool>)
        ensures
            r == (if let JsonView::Boolean(b) = self@ { Some(b) } else { None }),
    {
        self.as_ref().as_bool()
    }

    pub fn as_str(&self) -> (r: Option<&str>)
        ensures
            match r {
                Some(s) => self@ == JsonView::String(s@),
                None => !(self@ is String),
            },
    {
        self.as_ref().as_str()
    }

    pub fn as_number(&self) -> (r: Option<&Number>)
        ensures
            match r {
                Some(n) => self@ == JsonView::Number(*n),
                None => !(self@ is Number),
            },
    {
        self.as_ref().as_number()
    }

    pub fn as_object(&self) -> (r: Option<&Object>)
        ensures
            match r {
                Some(o) => self@ == JsonView::Object(o@),
                None => !(self@ is Object),
            },
    {
        self.as_ref().as_object()
    }

    /// The value of `key`, where this is an object that has it.
    pub fn get(&self, key: &str) -> (r: Option<&Value>)
        ensures
            match r {
                Some(v) => self@ is Object && get(self@->Object_0, key@) == Some(v@),
                None => !(self@ is Object) || get(self@->Object_0, key@) is None,
            },
    {
        match self {
            Value::Object(o) => o.get(key),
            _ => None,
        }
    }

    /// The JSON string that holds the characters of `s`.
    pub fn string(s: &str) -> (r: Value)
        ensures
            r@ == JsonView::String(s@),
    {
        Value::String(s.to_owned())
    }

    /// The array that holds `item` alone.
    pub fn singleton(item: Value) -> (r: Value)
        ensures
            r@ == JsonView::Array(seq![item@]),
    {
        let mut items: Vec<Value> = Vec::new();
        items.push(item);
        assert(values_view(items@) =~= seq![item@]);
        Value::Array(items)
    }

    /// The array of the given items.
    pub fn array(items: Vec<Value>) -> (r: Value)
        ensures
            r@ == JsonView::Array(values_view(items@)),
    {
        Value::Array(items)
    }

    /// The array without items.
    pub fn empty_array() -> (r: Value)
        ensures
            r@ == JsonView::Array(Seq::empty()),
    {
        let items: Vec<Value> = Vec::new();
        assert(values_view(items@) =~= Seq::<JsonView>::empty());
        Value::Array(items)
    }
}


/// The first item of `y` from `j` on that is not yet taken and is the
/// same as `item`.
pub open spec fn partner(item: JsonView, y: Seq<JsonView>, taken: Seq<bool>, j: int) -> Option<int>
    decreases item, 1nat, y.len() - j,
{
    if j < 0 || j >= y.len() {
        None
    } else if !taken[j] && same_document(item, y[j]) {
        Some(j)
    } else {
        partner(item, y, taken, j + 1)
    }
}

/// Whether each item of `x` from `i` on finds a partner of its own among
/// the items of `y` that are not yet taken.
pub open spec fn matched(x: Seq<JsonView>, y: Seq<JsonView>, i: int, taken: Seq<bool>) -> bool
    decreases x, 2nat, x.len() - i,
{
    if i < 0 || i >= x.len() {
        true
    } else {
        match partner(x[i], y, taken, 0) {
            Some(j) => matched(x, y, i + 1, taken.update(j, true)),
            None => false,
        }
    }
}

/// Whether the items of two lists are the same, place by place, from `i`
/// on.
pub open spec fn same_in_order(x: Seq<JsonView>, y: Seq<JsonView>, i: int) -> bool
    decreases x, 2nat, x.len() - i,
{
    if i < 0 || i >= x.len() {
        true
    } else {
        same_document(x[i], y[i]) && same_in_order(x, y, i + 1)
    }
}

/// Whether two values under the key `key` are the same: the items of a
/// `@list` are compared in their order.
pub open spec fn same_entry(key: Seq<char>, a: JsonView, b: JsonView) -> bool
    decreases a, 3nat, 0nat,
{
    if key == "@list"@ {
        match (a, b) {
            (JsonView::Array(x), JsonView::Array(y)) => if x.len() == y.len() {
                same_in_order(x, y, 0)
            } else {
                same_document(a, b)
            },
            _ => same_document(a, b),
        }
    } else {
        same_document(a, b)
    }
}

/// Whether each entry of `x` from `i` on has a same entry in `y`.
pub open spec fn same_entries(x: ObjectView, y: ObjectView, i: int) -> bool
    decreases x, 4nat, x.len() - i,
{
    if i < 0 || i >= x.len() {
        true
    } else {
        match get(y, x[i].0) {
            Some(b) => same_entry(x[i].0, x[i].1, b) && same_entries(x, y, i + 1),
            None => false,
        }
    }
}

/// Whether two JSON values are the same linked-data document. Arrays are
/// compared without regard to the order of their items, but for the
/// arrays under `@list`; objects entry by entry. Null, numbers and strings
/// are the same where they are equal. Two booleans never count as the same.
pub open spec fn same_document(a: JsonView, b: JsonView) -> bool
    decreases a, 0nat, 0nat,
{
    match (a, b) {
        (JsonView::Array(x), JsonView::Array(y)) => x.len() == y.len() && matched(
            x,
            y,
            0,
            Seq::new(y.len(), |i: int| false),
        ),
        (JsonView::Object(x), JsonView::Object(y)) => x.len() == y.len() && same_entries(x, y, 0),
        (JsonView::Null, JsonView::Null) => true,
        (JsonView::Number(m), JsonView::Number(n)) => m == n,
        (JsonView::String(s), JsonView::String(t)) => s == t,
        _ => false,
    }
}

fn find_partner(item: &Value, y: &Vec<Value>, taken: &Vec<bool>) -> (r: Option<usize>)
    requires
        taken@.len() == y@.len(),
    ensures
        match r {
            Some(j) => partner(item@, values_view(y@), taken@, 0) == Some(j as int) && j < y@.len(),
            None => partner(item@, values_view(y@), taken@, 0) is None,
        },
    decreases item, 1nat, 0nat,
{
    let mut j: usize = 0;
    while j < y.len()
        invariant
            j <= y.len(),
            taken@.len() == y@.len(),
            partner(item@, values_view(y@), taken@, j as int) == partner(
                item@,
                values_view(y@),
                taken@,
                0,
            ),
        decreases y.len() - j,
    {
        assert(values_view(y@)[j as int] == y@[j as int]@);
        if !taken[j] && json_ld_eq(item, &y[j]) {
            return Some(j);
        }
        j += 1;
    }
    None
}

fn eq_in_order(x: &Vec<Value>, y: &Vec<Value>) -> (r: bool)
    requires
        x@.len() == y@.len(),
    ensures
        r == same_in_order(values_view(x@), values_view(y@), 0),
    decreases x, 2nat, 0nat,
{
    let mut i: usize = 0;
    while i < x.len()
        invariant
            i <= x.len(),
            x@.len() == y@.len(),
            same_in_order(values_view(x@), values_view(y@), i as int) == same_in_order(
                values_view(x@),
                values_view(y@),
                0,
            ),
        decreases x.len() - i,
    {
        proof {
            assert(decreases_to!(x => x[i as int]));
            assert(values_view(x@)[i as int] == x@[i as int]@);
            assert(values_view(y@)[i as int] == y@[i as int]@);
        }
        if !json_ld_eq(&x[i], &y[i]) {
            return false;
        }
        i += 1;
    }
    true
}

fn eq_entry(key: &str, a: &Value, b: &Value) -> (r: bool)
    ensures
        r == same_entry(key@, a@, b@),
    decreases a, 3nat, 0nat,
{
    if str_eq(key, "@list") {
        match (a, b) {
            (Value::Array(x), Value::Array(y)) => {
                assert(values_view(x@).len() == x@.len());
                assert(values_view(y@).len() == y@.len());
                if x.len() == y.len() {
                    eq_in_order(x, y)
                } else {
                    json_ld_eq(a, b)
                }
            },
            _ => json_ld_eq(a, b),
        }
    } else {
        json_ld_eq(a, b)
    }
}

/// Whether two JSON values are the same linked-data document. Arrays are
/// compared without regard to the order of their items, but for the
/// arrays under `@list`; objects entry by entry. Null, numbers and strings
/// are the same where they are equal. Two booleans never count as the same.
pub fn json_ld_eq(a: &Value, b: &Value) -> (r: bool)
    ensures
        r == same_document(a@, b@),
    decreases a, 0nat, 0nat,
{
    match (a, b) {
        (Value::Array(x), Value::Array(y)) => {
            assert(values_view(x@).len() == x@.len());
            assert(values_view(y@).len() == y@.len());
            if x.len() != y.len() {
                return false;
            }
            let mut taken: Vec<bool> = Vec::new();
            let mut k: usize = 0;
            while k < y.len()
                invariant
                    k <= y.len(),
                    taken@.len() == k,
                    forall|j: int| 0 <= j < k ==> !taken@[j],
                decreases y.len() - k,
            {
                taken.push(false);
                k += 1;
            }
            assert(taken@ =~= Seq::new(values_view(y@).len(), |i: int| false));
            let ghost start = taken@;
            let mut i: usize = 0;
            while i < x.len()
                invariant
                    i <= x.len(),
                    a == Value::Array(*x),
                    b == Value::Array(*y),
                    x@.len() == y@.len(),
                    start == Seq::new(values_view(y@).len(), |i: int| false),
                    taken@.len() == y@.len(),
                    matched(values_view(x@), values_view(y@), i as int, taken@) == matched(
                        values_view(x@),
                        values_view(y@),
                        0,
                        start,
                    ),
                decreases x.len() - i,
            {
                proof {
                    assert(decreases_to!(a => a->Array_0));
                    assert(decreases_to!(x => x[i as int]));
                    assert(values_view(x@)[i as int] == x@[i as int]@);
                }
                match find_partner(&x[i], y, &taken) {
                    Some(j) => {
                        taken.set(j, true);
                    },
                    None => {
                        return false;
                    },
                }
                i += 1;
            }
            true
        },
        (Value::Object(x), Value::Object(y)) => {
            if x.len() != y.len() {
                return false;
            }
            let mut i: usize = 0;
            while i < x.entries.len()
                invariant
                    i <= x.entries.len(),
                    a == Value::Object(*x),
                    b == Value::Object(*y),
                    x@.len() == y@.len(),
                    same_entries(x@, y@, i as int) == same_entries(x@, y@, 0),
                decreases x.entries.len() - i,
            {
                proof {
                    assert(decreases_to!(a => a->Object_0));
                    assert(decreases_to!(x => x.entries));
                    assert(decreases_to!(x.entries => x.entries[i as int]));
                    assert(decreases_to!(x.entries[i as int] => x.entries[i as int].1));
                    assert(x@[i as int] == (x.entries@[i as int].0@, x.entries@[i as int].1@));
                }
                let key = x.entries[i].0.as_str();
                match y.get(key) {
                    Some(value_b) => {
                        if !eq_entry(key, &x.entries[i].1, value_b) {
                            return false;
                        }
                    },
                    None => {
                        return false;
                    },
                }
                i += 1;
            }
            true
        },
        (Value::Null, Value::Null) => true,
        (Value::Number(m), Value::Number(n)) => *m == *n,
        (Value::String(s), Value::String(t)) => str_eq(s.as_str(), t.as_str()),
        _ => false,
    }
}

} // verus!
