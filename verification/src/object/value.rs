//! Value objects.

use vstd::prelude::*;
use crate::direction::Direction;
use crate::json;
use crate::json::{insert, JsonView, Number, Object, ObjectView};
use crate::direction::direction_name;
use crate::syntax::{keyword_text, Keyword};
use crate::lang::LanguageTagBuf;
use crate::syntax::{Type, TypeView};

verus! {

/// Literal value.
#[derive(Debug, PartialEq, Eq, Hash)]
pub enum Literal {
    /// The `null` value.
    Null,
    /// Boolean value.
    Boolean(bool),
    /// Number.
    Number(Number),
    /// String.
    String(String),
}

impl Literal {
    pub open spec fn spec_as_str(&self) -> Option<Seq<char>> {
        match self {
            Literal::String(s) => Some(s@),
            _ => None,
        }
    }

    pub open spec fn spec_as_bool(&self) -> Option<bool> {
        match self {
            Literal::Boolean(b) => Some(*b),
            _ => None,
        }
    }

    pub open spec fn spec_as_number(&self) -> Option<Number> {
        match self {
            Literal::Number(n) => Some(*n),
            _ => None,
        }
    }

    /// The string, if the literal is one.
    pub fn as_str(&self) -> (r: Option<&str>)
        ensures
            match r {
                Some(s) => self.spec_as_str() == Some(s@),
                None => self.spec_as_str() is None,
            },
    {
        match self {
            Literal::String(s) => Some(s.as_str()),
            _ => None,
        }
    }

    /// The boolean, if the literal is one.
    pub fn as_bool(&self) -> (r: Option<bool>)
        ensures
            r == self.spec_as_bool(),
    {
        match self {
            Literal::Boolean(b) => Some(*b),
            _ => None,
        }
    }

    /// The number, if the literal is one.
    pub fn as_number(&self) -> (r: Option<Number>)
        ensures
            r == self.spec_as_number(),
    {
        match self {
            Literal::Number(n) => Some(*n),
            _ => None,
        }
    }
}

/// A literal as JSON.
pub open spec fn literal_json(lit: Literal) -> JsonView {
    match lit {
        Literal::Null => JsonView::Null,
        Literal::Boolean(b) => JsonView::Boolean(b),
        Literal::Number(n) => JsonView::Number(n),
        Literal::String(s) => JsonView::String(s@),
    }
}

/// A literal as JSON.
pub fn literal_value(lit: &Literal) -> (r: json::Value)
    ensures
        r@ == literal_json(*lit),
{
    match lit {
        Literal::Null => json::Value::Null,
        Literal::Boolean(b) => json::Value::Boolean(*b),
        Literal::Number(n) => json::Value::Number(*n),
        Literal::String(s) => json::Value::String(s.clone()),
    }
}

/// A string with a language, a direction, or both.
#[derive(Debug, PartialEq, Eq, Hash)]
pub struct LangString {
    pub data: String,
    pub language: Option<LanguageTagBuf>,
    pub direction: Option<Direction>,
}

impl LangString {
    /// A language-tagged string has a language or a direction.
    pub open spec fn wf(&self) -> bool {
        self.language is Some || self.direction is Some
    }

    /// Makes a language-tagged string; the text is handed back where
    /// neither a language nor a direction is given.
    pub fn new(data: String, language: Option<LanguageTagBuf>, direction: Option<Direction>) -> (r:
        Result<LangString, String>)
        ensures
            match r {
                Ok(s) => (language is Some || direction is Some) && s.data == data && s.language
                    == language && s.direction == direction && s.wf(),
                Err(d) => language is None && direction is None && d == data,
            },
    {
        if language.is_some() || direction.is_some() {
            Ok(LangString { data, language, direction })
        } else {
            Err(data)
        }
    }

    /// The text.
    pub fn as_str(&self) -> (r: &str)
        ensures
            r@ == self.data@,
    {
        self.data.as_str()
    }

    /// The language.
    pub fn language(&self) -> (r: Option<&LanguageTagBuf>)
        ensures
            match r {
                Some(t) => self.language == Some(*t),
                None => self.language is None,
            },
    {
        self.language.as_ref()
    }

    /// The direction.
    pub fn direction(&self) -> (r: Option<Direction>)
        ensures
            r == self.direction,
    {
        self.direction
    }
}

/// Value object: a typed literal, a language-tagged string, or a JSON
/// literal.
#[derive(Debug, PartialEq, Eq, Hash)]
pub enum Value {
    /// A typed value.
    Literal(Literal, Option<String>),
    /// A language tagged string.
    LangString(LangString),
    /// A JSON literal value.
    Json(json::Value),
}

impl Value {
    pub open spec fn spec_as_str(&self) -> Option<Seq<char>> {
        match self {
            Value::Literal(lit, _) => lit.spec_as_str(),
            Value::LangString(s) => Some(s.data@),
            Value::Json(_) => None,
        }
    }

    pub open spec fn spec_as_bool(&self) -> Option<bool> {
        match self {
            Value::Literal(lit, _) => lit.spec_as_bool(),
            _ => None,
        }
    }

    pub open spec fn spec_as_number(&self) -> Option<Number> {
        match self {
            Value::Literal(lit, _) => lit.spec_as_number(),
            _ => None,
        }
    }

    /// The type of the value: `@json` for a JSON literal.
    pub open spec fn spec_typ(&self) -> Option<TypeView> {
        match self {
            Value::Literal(_, Some(ty)) => Some(TypeView::Ref(ty@)),
            Value::Json(_) => Some(TypeView::Json),
            _ => None,
        }
    }

    pub open spec fn spec_language(&self) -> Option<LanguageTagBuf> {
        match self {
            Value::LangString(s) => s.language,
            _ => None,
        }
    }

    pub open spec fn spec_direction(&self) -> Option<Direction> {
        match self {
            Value::LangString(s) => s.direction,
            _ => None,
        }
    }

    /// The value object in expanded form: `@value`, and `@type`,
    /// `@language` and `@direction` as far as the value has them.
    pub open spec fn spec_as_json(&self) -> ObjectView {
        match self {
            Value::Literal(lit, ty) => {
                let o = insert(Seq::empty(), keyword_text(Keyword::Value), literal_json(*lit));
                match ty {
                    Some(t) => insert(o, keyword_text(Keyword::Type), JsonView::String(t@)),
                    None => o,
                }
            },
            Value::LangString(s) => {
                let o = insert(
                    Seq::empty(),
                    keyword_text(Keyword::Value),
                    JsonView::String(s.data@),
                );
                let o = match s.language {
                    Some(l) => insert(o, keyword_text(Keyword::Language), JsonView::String(l@)),
                    None => o,
                };
                match s.direction {
                    Some(d) => insert(
                        o,
                        keyword_text(Keyword::Direction),
                        JsonView::String(direction_name(d)),
                    ),
                    None => o,
                }
            },
            Value::Json(j) => insert(
                insert(Seq::empty(), keyword_text(Keyword::Value), j@),
                keyword_text(Keyword::Type),
                JsonView::String(keyword_text(Keyword::Json)),
            ),
        }
    }

    /// The value object in expanded form.
    pub fn as_json(&self) -> (r: Object)
        ensures
            r@ == self.spec_as_json(),
    {
        let mut obj = Object::new();
        match self {
            Value::Literal(lit, ty) => {
                obj.insert(Keyword::Value.into_str().to_owned(), literal_value(lit));
                match ty {
                    Some(t) => {
                        obj.insert(
                            Keyword::Type.into_str().to_owned(),
                            json::Value::String(t.clone()),
                        );
                    },
                    None => {},
                }
            },
            Value::LangString(s) => {
                obj.insert(Keyword::Value.into_str().to_owned(), json::Value::string(s.as_str()));
                match s.language() {
                    Some(language) => {
                        obj.insert(
                            Keyword::Language.into_str().to_owned(),
                            json::Value::string(language.as_str()),
                        );
                    },
                    None => {},
                }
                match s.direction() {
                    Some(direction) => {
                        obj.insert(
                            Keyword::Direction.into_str().to_owned(),
                            json::Value::string(direction.as_str()),
                        );
                    },
                    None => {},
                }
            },
            Value::Json(j) => {
                obj.insert(Keyword::Value.into_str().to_owned(), j.clone());
                obj.insert(
                    Keyword::Type.into_str().to_owned(),
                    json::Value::string(Keyword::Json.into_str()),
                );
            },
        }
        obj
    }

    /// The string of a string literal or of a language-tagged string.
    pub fn as_str(&self) -> (r: Option<&str>)
        ensures
            match r {
                Some(s) => self.spec_as_str() == Some(s@),
                None => self.spec_as_str() is None,
            },
    {
        match self {
            Value::Literal(lit, _) => lit.as_str(),
            Value::LangString(s) => Some(s.as_str()),
            Value::Json(_) => None,
        }
    }

    /// The boolean of a boolean literal.
    pub fn as_bool(&self) -> (r: Option<bool>)
        ensures
            r == self.spec_as_bool(),
    {
        match self {
            Value::Literal(lit, _) => lit.as_bool(),
            _ => None,
        }
    }

    /// The number of a number literal.
    pub fn as_number(&self) -> (r: Option<Number>)
        ensures
            r == self.spec_as_number(),
    {
        match self {
            Value::Literal(lit, _) => lit.as_number(),
            _ => None,
        }
    }

    /// The type of the value, if any: `@json` for a JSON literal.
    pub fn typ(&self) -> (r: Option<Type>)
        ensures
            match r {
                Some(t) => self.spec_typ() == Some(t@),
                None => self.spec_typ() is None,
            },
    {
        match self {
            Value::Literal(_, Some(ty)) => Some(Type::Ref(ty.clone())),
            Value::Json(_) => Some(Type::Json),
            _ => None,
        }
    }

    /// The language of a language-tagged string.
    pub fn language(&self) -> (r: Option<&LanguageTagBuf>)
        ensures
            match r {
                Some(t) => self.spec_language() == Some(*t),
                None => self.spec_language() is None,
            },
    {
        match self {
            Value::LangString(s) => s.language(),
            _ => None,
        }
    }

    /// The direction of a language-tagged string.
    pub fn direction(&self) -> (r: Option<Direction>)
        ensures
            r == self.spec_direction(),
    {
        match self {
            Value::LangString(s) => s.direction(),
            _ => None,
        }
    }
}

} // verus!
