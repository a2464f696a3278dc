//! The data types that a NetworkTables topic can carry, with their wire codes
//! and type strings.

use vstd::prelude::*;

verus! {

/// The type of the value a topic carries.
///
/// `Struct` and `StructArray` carry the type string of their structure
/// description.
#[derive(Debug, PartialEq, Eq)]
pub enum FrcType {
    Void,
    Raw,
    Boolean,
    Int,
    Double,
    Float,
    String,
    BooleanArray,
    IntArray,
    FloatArray,
    DoubleArray,
    StringArray,
    Struct(String),
    StructArray(String),
}

impl Clone for FrcType {
    fn clone(&self) -> (t: Self)
        ensures
            t == *self,
    {
        match self {
            FrcType::Void => FrcType::Void,
            FrcType::Raw => FrcType::Raw,
            FrcType::Boolean => FrcType::Boolean,
            FrcType::Int => FrcType::Int,
            FrcType::Double => FrcType::Double,
            FrcType::Float => FrcType::Float,
            FrcType::String => FrcType::String,
            FrcType::BooleanArray => FrcType::BooleanArray,
            FrcType::IntArray => FrcType::IntArray,
            FrcType::FloatArray => FrcType::FloatArray,
            FrcType::DoubleArray => FrcType::DoubleArray,
            FrcType::StringArray => FrcType::StringArray,
            FrcType::Struct(desc) => FrcType::Struct(desc.clone()),
            FrcType::StructArray(desc) => FrcType::StructArray(desc.clone()),
        }
    }
}

/// The wire code of a type, as sent in the third slot of a value message.
pub open spec fn type_code(t: FrcType) -> u8 {
    match t {
        FrcType::Boolean => 0,
        FrcType::Double => 1,
        FrcType::Int => 2,
        FrcType::Float => 3,
        FrcType::String => 4,
        FrcType::Raw | FrcType::Void | FrcType::Struct(_) | FrcType::StructArray(_) => 5,
        FrcType::BooleanArray => 16,
        FrcType::DoubleArray => 17,
        FrcType::IntArray => 18,
        FrcType::FloatArray => 19,
        FrcType::StringArray => 20,
    }
}

/// The type that a wire code stands for, if any.
pub open spec fn type_of_code(byte: u8) -> Option<FrcType> {
    if byte == 0 { Some(FrcType::Boolean) }
    else if byte == 1 { Some(FrcType::Double) }
    else if byte == 2 { Some(FrcType::Int) }
    else if byte == 3 { Some(FrcType::Float) }
    else if byte == 4 { Some(FrcType::String) }
    else if byte == 5 { Some(FrcType::Raw) }
    else if byte == 16 { Some(FrcType::BooleanArray) }
    else if byte == 17 { Some(FrcType::DoubleArray) }
    else if byte == 18 { Some(FrcType::IntArray) }
    else if byte == 19 { Some(FrcType::FloatArray) }
    else if byte == 20 { Some(FrcType::StringArray) }
    else { None }
}

/// The type string of a type, as sent in announcements.
pub open spec fn type_string(t: FrcType) -> Seq<char> {
    match t {
        FrcType::Boolean => "boolean"@,
        FrcType::Double => "double"@,
        FrcType::Int => "int"@,
        FrcType::Float => "float"@,
        FrcType::String => "string"@,
        FrcType::Raw | FrcType::Void => "raw"@,
        FrcType::Struct(desc) => desc@,
        FrcType::StructArray(desc) => desc@ + "[]"@,
        FrcType::BooleanArray => "boolean[]"@,
        FrcType::DoubleArray => "double[]"@,
        FrcType::IntArray => "int[]"@,
        FrcType::FloatArray => "float[]"@,
        FrcType::StringArray => "string[]"@,
    }
}

/// Conversions between a type and its wire code and type string.
pub trait FrcTypeExt {
    fn as_u8(&self) -> u8;

    fn from_u8(byte: u8) -> Option<Self>
        where Self: std::marker::Sized;

    fn stringify(&self) -> String;
}

impl FrcTypeExt for FrcType {
    fn as_u8(&self) -> (code: u8)
        ensures
            code == type_code(*self),
    {
        match self {
            FrcType::Boolean => 0,
            FrcType::Double => 1,
            FrcType::Int => 2,
            FrcType::Float => 3,
            FrcType::String => 4,
            FrcType::Raw | FrcType::Void | FrcType::Struct(_) | FrcType::StructArray(_) => 5,
            FrcType::BooleanArray => 16,
            FrcType::DoubleArray => 17,
            FrcType::IntArray => 18,
            FrcType::FloatArray => 19,
            FrcType::StringArray => 20,
        }
    }

    fn from_u8(byte: u8) -> (t: Option<FrcType>)
        ensures
            t == type_of_code(byte),
    {
        match byte {
            0 => Some(FrcType::Boolean),
            1 => Some(FrcType::Double),
            2 => Some(FrcType::Int),
            3 => Some(FrcType::Float),
            4 => Some(FrcType::String),
            5 => Some(FrcType::Raw),
            16 => Some(FrcType::BooleanArray),
            17 => Some(FrcType::DoubleArray),
            18 => Some(FrcType::IntArray),
            19 => Some(FrcType::FloatArray),
            20 => Some(FrcType::StringArray),
            _ => None,
        }
    }

    fn stringify(&self) -> (s: String)
        ensures
            s@ == type_string(*self),
    {
        proof {
            reveal_strlit("boolean");
        }
        match self {
            FrcType::Boolean => "boolean".to_string(),
            FrcType::Double => "double".to_string(),
            FrcType::Int => "int".to_string(),
            FrcType::Float => "float".to_string(),
            FrcType::String => "string".to_string(),
            FrcType::Raw | FrcType::Void => "raw".to_string(),
            FrcType::Struct(desc) => desc.clone(),
            FrcType::StructArray(desc) => desc.clone().concat("[]"),
            FrcType::BooleanArray => "boolean[]".to_string(),
            FrcType::DoubleArray => "double[]".to_string(),
            FrcType::IntArray => "int[]".to_string(),
            FrcType::FloatArray => "float[]".to_string(),
            FrcType::StringArray => "string[]".to_string(),
        }
    }
}

/// Every type but `Void` and the structure types comes back from its wire code.
pub proof fn lemma_code_round_trip(t: FrcType)
    requires
        !(t is Void),
        !(t is Struct),
        !(t is StructArray),
    ensures
        type_of_code(type_code(t)) == Some(t),
{
}

/// A wire code that stands for a type is that type's code.
pub proof fn lemma_type_round_trip(byte: u8)
    requires
        type_of_code(byte) is Some,
    ensures
        type_code(type_of_code(byte)->0) == byte,
{
}

} // verus!
