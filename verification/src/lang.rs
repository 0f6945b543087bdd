//! Language tags.

use core::hash::{Hash, Hasher};
use vstd::prelude::*;
use vstd::std_specs::cmp::PartialEqSpecImpl;
use langtag::LanguageTag;

verus! {

/// Whether `langtag` reads the characters as a language tag: what
/// `LanguageTag::parse` decides, `Ok` or not.
pub uninterp spec fn is_language_tag(text: Seq<char>) -> bool;

/// A letter in lower case, any other character as it is.
pub open spec fn small(c: char) -> int {
    if 'A' <= c <= 'Z' {
        c as int + 0x20
    } else {
        c as int
    }
}

/// Equality of two tags without regard to the case of their letters.
pub open spec fn tags_equal(a: Seq<char>, b: Seq<char>) -> bool {
    a.len() == b.len() && forall|i: int| 0 <= i < a.len() ==> small(#[trigger] a[i]) == small(b[i])
}

/// `LanguageTag::parse` on the text: whether it is read as a language tag.
#[verifier::external_body]
fn parses(text: &str) -> (r: bool)
    ensures
        r == is_language_tag(text@),
{
    LanguageTag::parse(text).is_ok()
}

/// `==` of two `LanguageTag`s: it compares their bytes after putting the
/// letters `A` to `Z` in lower case. A tag holds ASCII characters only, so
/// its bytes are its characters.
#[verifier::external_body]
fn equal_tags(a: &str, b: &str) -> (r: bool)
    requires
        is_language_tag(a@),
        is_language_tag(b@),
    ensures
        r == tags_equal(a@, b@),
{
    let a = LanguageTag::parse(a).unwrap();
    let b = LanguageTag::parse(b).unwrap();
    a == b
}

/// `Hash::hash` of a `LanguageTag`: it feeds the state with the bytes of
/// the tag, the letters `A` to `Z` in lower case.
#[verifier::external_body]
fn hash_tag<H: Hasher>(text: &str, state: &mut H)
    requires
        is_language_tag(text@),
{
    LanguageTag::parse(text).unwrap().hash(state)
}

/// A well-formed language tag. Two tags are equal where they are the same
/// but for the case of their letters.
#[derive(Debug)]
pub struct LanguageTagBuf {
    text: String,
}

impl PartialEq for LanguageTagBuf {
    fn eq(&self, other: &LanguageTagBuf) -> (r: bool) {
        proof {
            use_type_invariant(self);
            use_type_invariant(other);
        }
        equal_tags(self.text.as_str(), other.text.as_str())
    }
}

impl PartialEqSpecImpl for LanguageTagBuf {
    open spec fn obeys_eq_spec() -> bool {
        true
    }

    open spec fn eq_spec(&self, other: &LanguageTagBuf) -> bool {
        tags_equal(self@, other@)
    }
}

impl Eq for LanguageTagBuf {

}

impl Hash for LanguageTagBuf {
    fn hash<H: Hasher>(&self, state: &mut H) {
        proof {
            use_type_invariant(self);
        }
        hash_tag(self.text.as_str(), state)
    }
}

impl View for LanguageTagBuf {
    type V = Seq<char>;

    closed spec fn view(&self) -> Seq<char> {
        self.text@
    }
}

impl LanguageTagBuf {
    #[verifier::type_invariant]
    spec fn well_formed(self) -> bool {
        is_language_tag(self.text@)
    }

    /// Reads a language tag; `None` where the text is not one.
    pub fn parse(text: &str) -> (r: Option<LanguageTagBuf>)
        ensures
            r is Some <==> is_language_tag(text@),
            r matches Some(tag) ==> tag@ == text@,
    {
        if parses(text) {
            Some(LanguageTagBuf { text: text.to_owned() })
        } else {
            None
        }
    }

    /// The text of the tag, in the case in which it was given.
    pub fn as_str(&self) -> (r: &str)
        ensures
            r@ == self@,
    {
        self.text.as_str()
    }

    /// Whether both tags are the same but for the case of their letters.
    pub fn same_as(&self, other: &LanguageTagBuf) -> (r: bool)
        ensures
            r == tags_equal(self@, other@),
    {
        proof {
            use_type_invariant(self);
            use_type_invariant(other);
        }
        equal_tags(self.text.as_str(), other.text.as_str())
    }
}

impl Clone for LanguageTagBuf {
    fn clone(&self) -> (r: LanguageTagBuf)
        ensures
            r == *self,
    {
        proof {
            use_type_invariant(self);
        }
        LanguageTagBuf { text: self.text.clone() }
    }
}

/// Whether two optional tags are the same but for case.
pub open spec fn opt_tags_equal(a: Option<LanguageTagBuf>, b: Option<LanguageTagBuf>) -> bool {
    match (a, b) {
        (Some(x), Some(y)) => tags_equal(x@, y@),
        (None, None) => true,
        _ => false,
    }
}

/// Whether two optional tags are the same but for case.
pub fn same_language(a: Option<&LanguageTagBuf>, b: Option<&LanguageTagBuf>) -> (r: bool)
    ensures
        r == match (a, b) {
            (Some(x), Some(y)) => tags_equal(x@, y@),
            (None, None) => true,
            _ => false,
        },
{
    match (a, b) {
        (Some(x), Some(y)) => x.same_as(y),
        (None, None) => true,
        _ => false,
    }
}

/// Equality without regard to case is reflexive, symmetric and transitive.
pub proof fn lemma_tags_equal_equivalence(a: Seq<char>, b: Seq<char>, c: Seq<char>)
    ensures
        tags_equal(a, a),
        tags_equal(a, b) ==> tags_equal(b, a),
        tags_equal(a, b) && tags_equal(b, c) ==> tags_equal(a, c),
{
    if tags_equal(a, b) {
        assert forall|i: int| 0 <= i < b.len() implies small(#[trigger] b[i]) == small(a[i]) by {
            assert(small(a[i]) == small(b[i]));
        }
        if tags_equal(b, c) {
            assert forall|i: int| 0 <= i < a.len() implies small(#[trigger] a[i]) == small(c[i]) by {
                assert(small(a[i]) == small(b[i]));
                assert(small(b[i]) == small(c[i]));
            }
        }
    }
}

} // verus!
