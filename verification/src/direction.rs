//! Base direction of a string.

use vstd::prelude::*;
use crate::text::str_eq;

verus! {

/// Direction in which a string is read: left-to-right (`"ltr"`) or
/// right-to-left (`"rtl"`).
#[derive(Clone, Copy, PartialEq, Eq, Structural, Hash, Debug)]
pub enum Direction {
    /// Left-to-right direction.
    Ltr,
    /// Right-to-left direction.
    Rtl,
}

/// The name of a direction.
pub open spec fn direction_name(d: Direction) -> Seq<char> {
    match d {
        Direction::Ltr => "ltr"@,
        Direction::Rtl => "rtl"@,
    }
}

impl Direction {
    /// Reads `"ltr"` and `"rtl"`; any other name is handed back as the error.
    pub fn try_from<'a>(name: &'a str) -> (r: Result<Direction, &'a str>)
        ensures
            name@ == "ltr"@ ==> r == Ok::<Direction, &str>(Direction::Ltr),
            name@ == "rtl"@ ==> r == Ok::<Direction, &str>(Direction::Rtl),
            name@ != "ltr"@ && name@ != "rtl"@ ==> r == Err::<Direction, &str>(name),
            r matches Ok(d) ==> name@ == direction_name(d),
    {
        proof {
            reveal_strlit("ltr");
            reveal_strlit("rtl");
            assert("ltr"@[0] != "rtl"@[0]);
        }
        if str_eq(name, "ltr") {
            Ok(Direction::Ltr)
        } else if str_eq(name, "rtl") {
            Ok(Direction::Rtl)
        } else {
            Err(name)
        }
    }

    /// The direction as a JSON string: `"ltr"` or `"rtl"`.
    pub fn as_json(&self) -> (r: crate::json::Value)
        ensures
            r@ == crate::json::JsonView::String(direction_name(*self)),
    {
        crate::json::Value::string(self.as_str())
    }

    /// The name of the direction: `"ltr"` or `"rtl"`.
    pub fn as_str(&self) -> (r: &'static str)
        ensures
            r@ == direction_name(*self),
    {
        match self {
            Direction::Ltr => "ltr",
            Direction::Rtl => "rtl",
        }
    }
}

/// The two directions have different names.
pub proof fn lemma_direction_name_injective(a: Direction, b: Direction)
    ensures
        direction_name(a) == direction_name(b) <==> a == b,
{
    reveal_strlit("ltr");
    reveal_strlit("rtl");
    assert("ltr"@[0] != "rtl"@[0]);
}

} // verus!
