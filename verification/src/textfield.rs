use vstd::prelude::*;
use vstd::string::{StrSliceExecFns, StringExecFns};
use crate::jsonval::{JsonVal, JsonData};

verus! {

/// What reading a text field yields: the characters of a text scalar, and
/// the exact error on any other shape.
pub open spec fn spec_text_field(d: JsonData) -> Result<Seq<char>, Seq<char>> {
    match d {
        JsonData::Str(t) => Result::Ok(t),
        _ => Result::Err("invalid type: expected a string"@),
    }
}

/// Read a borrowed text field.
pub fn deserialize(v: &JsonVal) -> (r: Result<String, String>)
    ensures
        match r {
            Result::Ok(s) => spec_text_field(v.model()) == Result::<Seq<char>, Seq<char>>::Ok(s@),
            Result::Err(e) => spec_text_field(v.model()) == Result::<Seq<char>, Seq<char>>::Err(
                e@,
            ),
        },
{
    match v {
        JsonVal::Str(s) => Result::Ok(s.clone()),
        _ => Result::Err(String::from_str("invalid type: expected a string")),
    }
}

/// Read an owned text field.
pub fn unwrap(v: JsonVal) -> (r: Result<String, String>)
    ensures
        match r {
            Result::Ok(s) => spec_text_field(v.model()) == Result::<Seq<char>, Seq<char>>::Ok(s@),
            Result::Err(e) => spec_text_field(v.model()) == Result::<Seq<char>, Seq<char>>::Err(
                e@,
            ),
        },
{
    match v {
        JsonVal::Str(s) => Result::Ok(s),
        _ => Result::Err(String::from_str("invalid type: expected a string")),
    }
}

/// Emit a borrowed text as a text scalar.
pub fn serialize(s: &str) -> (r: JsonVal)
    ensures
        r.model() == JsonData::Str(s@),
{
    JsonVal::Str(s.to_owned())
}

/// Emit an owned text as a text scalar.
pub fn wrap(s: String) -> (r: JsonVal)
    ensures
        r.model() == JsonData::Str(s@),
{
    JsonVal::Str(s)
}

} // verus!
