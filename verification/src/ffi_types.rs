//! Plain data shapes for a host boundary: a result value paired with an
//! error code, and the tags a host reads YAML values through.
use vstd::prelude::*;

verus! {

/// An error value a host-facing call reports.
#[derive(Debug, PartialEq, Eq, Structural, Clone, Copy)]
pub enum Error {
    /// No error.
    Success,
    /// The value held under the name has another type.
    WrongType,
    /// Nothing is held under the name.
    NotDefined,
    /// The given string cannot be used.
    InvalidString,
}

impl Error {
    /// The numeric code of the error: zero for success, negative
    /// otherwise.
    pub fn code(&self) -> (r: i32)
        ensures
            r == spec_error_code(*self),
    {
        match self {
            Error::Success => 0,
            Error::WrongType => -1,
            Error::NotDefined => -2,
            Error::InvalidString => -3,
        }
    }
}

/// The numeric code each error renders to.
pub open spec fn spec_error_code(e: Error) -> i32 {
    match e {
        Error::Success => 0i32,
        Error::WrongType => -1i32,
        Error::NotDefined => -2i32,
        Error::InvalidString => -3i32,
    }
}

/// A host-facing return value: the value and the error as an integer.
#[derive(Debug, PartialEq)]
pub struct FFIReturnValue<T> {
    pub value: T,
    pub error: i32,
}

/// A host-facing array return value: the value, its length, and the
/// error as an integer.
#[derive(Debug, PartialEq)]
pub struct FFIArrayReturnValue<T> {
    pub value: T,
    pub length: i32,
    pub error: i32,
}

/// The tag a host reads a YAML value's kind through.
#[derive(Debug, PartialEq, Eq, Structural, Clone, Copy)]
pub enum YamlType {
    Integer,
    Real,
    Str,
    Boolean,
    Array,
    Hash,
    Null,
}

impl YamlType {
    /// The numeric tag, in declaration order.
    pub fn code(&self) -> (r: i32)
        ensures
            r == spec_yaml_type_code(*self),
    {
        match self {
            YamlType::Integer => 0,
            YamlType::Real => 1,
            YamlType::Str => 2,
            YamlType::Boolean => 3,
            YamlType::Array => 4,
            YamlType::Hash => 5,
            YamlType::Null => 6,
        }
    }
}

/// The numeric tag each kind renders to.
pub open spec fn spec_yaml_type_code(t: YamlType) -> i32 {
    match t {
        YamlType::Integer => 0i32,
        YamlType::Real => 1i32,
        YamlType::Str => 2i32,
        YamlType::Boolean => 3i32,
        YamlType::Array => 4i32,
        YamlType::Hash => 5i32,
        YamlType::Null => 6i32,
    }
}

} // verus!
