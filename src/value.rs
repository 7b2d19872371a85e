use vstd::prelude::*;
use crate::error::LoadError;

verus! {

/// One raw column value as the file reader hands it over.
///
/// A floating-point value travels as its IEEE-754 bit pattern; a nested value
/// (a list, a map, a struct) travels as its textual rendering.
#[derive(Debug, Clone, PartialEq, Eq)]
pub enum RawValue {
    Null,
    Bool(bool),
    Int(i64),
    Float(u64),
    Text(String),
    Nested(String),
}

/// One value in the store's native encoding.
#[derive(Debug, Clone, PartialEq, Eq)]
pub enum StoreValue {
    Null,
    Boolean(bool),
    Integer(i64),
    Float(u64),
    String(String),
}

/// Whether a raw value has a faithful native representation: every kind but a
/// nested one, which is refused rather than flattened.
pub open spec fn convertible(v: RawValue) -> bool {
    !(v is Nested)
}

/// The native value of a convertible raw value, with the same discriminant.
pub open spec fn native(v: RawValue) -> StoreValue
    recommends
        convertible(v),
{
    match v {
        RawValue::Null => StoreValue::Null,
        RawValue::Bool(b) => StoreValue::Boolean(b),
        RawValue::Int(i) => StoreValue::Integer(i),
        RawValue::Float(bits) => StoreValue::Float(bits),
        RawValue::Text(s) => StoreValue::String(s),
        RawValue::Nested(_) => StoreValue::Null,
    }
}

/// Two identifiers are the same when they are the same raw value: same kind
/// and same contents (texts compared character by character).
pub open spec fn same_id(a: RawValue, b: RawValue) -> bool {
    match a {
        RawValue::Null => b is Null,
        RawValue::Bool(x) => b is Bool && b->Bool_0 == x,
        RawValue::Int(x) => b is Int && b->Int_0 == x,
        RawValue::Float(x) => b is Float && b->Float_0 == x,
        RawValue::Text(x) => b is Text && b->Text_0@ == x@,
        RawValue::Nested(x) => b is Nested && b->Nested_0@ == x@,
    }
}

/// Converts the value of the column named `column` into the store's encoding,
/// or reports a conversion error naming the column and the value.
pub fn convert_value(column: &String, v: &RawValue) -> (r: Result<StoreValue, LoadError>)
    ensures
        convertible(*v) ==> r == Ok::<StoreValue, LoadError>(native(*v)),
        !convertible(*v) ==> (r matches Err(LoadError::Conversion(c, d))
            && c@ == column@ && Some(d@) == nested_text(*v)),
{
    match v {
        RawValue::Null => Ok(StoreValue::Null),
        RawValue::Bool(b) => Ok(StoreValue::Boolean(*b)),
        RawValue::Int(i) => Ok(StoreValue::Integer(*i)),
        RawValue::Float(bits) => Ok(StoreValue::Float(*bits)),
        RawValue::Text(s) => Ok(StoreValue::String(s.clone())),
        RawValue::Nested(s) => Err(LoadError::Conversion(column.clone(), s.clone())),
    }
}

/// The textual rendering carried by a nested value.
pub open spec fn nested_text(v: RawValue) -> Option<Seq<char>> {
    match v {
        RawValue::Nested(s) => Some(s@),
        _ => None,
    }
}

impl RawValue {
    /// A copy of this value.
    pub fn duplicate(&self) -> (r: RawValue)
        ensures
            r == *self,
    {
        match self {
            RawValue::Null => RawValue::Null,
            RawValue::Bool(b) => RawValue::Bool(*b),
            RawValue::Int(i) => RawValue::Int(*i),
            RawValue::Float(bits) => RawValue::Float(*bits),
            RawValue::Text(s) => RawValue::Text(s.clone()),
            RawValue::Nested(s) => RawValue::Nested(s.clone()),
        }
    }
}

/// Whether two raw values are the same identifier.
pub fn same_identifier(a: &RawValue, b: &RawValue) -> (r: bool)
    ensures
        r == same_id(*a, *b),
{
    match a {
        RawValue::Null => match b {
            RawValue::Null => true,
            _ => false,
        },
        RawValue::Bool(x) => match b {
            RawValue::Bool(y) => *x == *y,
            _ => false,
        },
        RawValue::Int(x) => match b {
            RawValue::Int(y) => *x == *y,
            _ => false,
        },
        RawValue::Float(x) => match b {
            RawValue::Float(y) => *x == *y,
            _ => false,
        },
        RawValue::Text(x) => match b {
            RawValue::Text(y) => x.eq(y),
            _ => false,
        },
        RawValue::Nested(x) => match b {
            RawValue::Nested(y) => x.eq(y),
            _ => false,
        },
    }
}

} // verus!
