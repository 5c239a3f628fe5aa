use vstd::prelude::*;

verus! {

/// The traversal order in which a source streams cells and a destination accepts them.
#[derive(Debug, Clone, Copy, PartialEq, Eq, Structural)]
pub enum DataOrder {
    RowMajor,
    ColumnMajor,
}

/// The type system of the memory destination: one tag per column type.
///
/// Nullability is part of the tag: `U64` holds plain integers, `OptU64` holds
/// integers or nulls.
#[derive(Debug, Clone, Copy, PartialEq, Eq, Structural, Hash)]
pub enum DataType {
    U64,
    F64,
    Bool,
    String,
    OptU64,
}

/// One cell, tagged with its native type.
///
/// A 64-bit float is carried as its IEEE-754 bit pattern: the engine moves it
/// and never computes with it.
#[derive(Debug, Clone)]
pub enum Value {
    U64(u64),
    F64(u64),
    Bool(bool),
    Str(String),
    OptU64(Option<u64>),
}

/// Position of a tag in the fixed order of tags; blocks are laid out in this order.
pub open spec fn rank(t: DataType) -> nat {
    match t {
        DataType::U64 => 0,
        DataType::F64 => 1,
        DataType::Bool => 2,
        DataType::String => 3,
        DataType::OptU64 => 4,
    }
}

/// The number of tags.
pub const NTYPES: usize = 5;

/// The tag of a given rank.
pub open spec fn tag_of_rank(i: nat) -> DataType {
    if i == 0 {
        DataType::U64
    } else if i == 1 {
        DataType::F64
    } else if i == 2 {
        DataType::Bool
    } else if i == 3 {
        DataType::String
    } else {
        DataType::OptU64
    }
}

pub proof fn lemma_rank_bijective(t: DataType, i: nat)
    ensures
        rank(t) < NTYPES,
        tag_of_rank(rank(t)) == t,
        i < NTYPES ==> rank(tag_of_rank(i)) == i,
{
}

impl DataType {
    /// The tag of the given rank.
    pub fn from_rank(i: usize) -> (t: DataType)
        requires
            i < NTYPES,
        ensures
            t == tag_of_rank(i as nat),
            rank(t) == i,
    {
        if i == 0 {
            DataType::U64
        } else if i == 1 {
            DataType::F64
        } else if i == 2 {
            DataType::Bool
        } else if i == 3 {
            DataType::String
        } else {
            DataType::OptU64
        }
    }

    /// The rank of this tag.
    pub fn rank(&self) -> (r: usize)
        ensures
            r == rank(*self),
            r < NTYPES,
    {
        match self {
            DataType::U64 => 0,
            DataType::F64 => 1,
            DataType::Bool => 2,
            DataType::String => 3,
            DataType::OptU64 => 4,
        }
    }

    /// The value every cell of a freshly allocated column of this type holds.
    pub fn default_value(&self) -> (v: Value)
        ensures
            is_default(v, *self),
    {
        match self {
            DataType::U64 => Value::U64(0),
            DataType::F64 => Value::F64(0),
            DataType::Bool => Value::Bool(false),
            DataType::String => Value::Str(String::new()),
            DataType::OptU64 => Value::OptU64(None),
        }
    }

    /// The name of this tag's native type.
    pub fn native_name(&self) -> (s: &'static str)
        ensures
            s@ == native_name_of(*self),
    {
        match self {
            DataType::U64 => "u64",
            DataType::F64 => "f64",
            DataType::Bool => "bool",
            DataType::String => "String",
            DataType::OptU64 => "Option<u64>",
        }
    }
}

pub open spec fn native_name_of(t: DataType) -> Seq<char> {
    match t {
        DataType::U64 => "u64"@,
        DataType::F64 => "f64"@,
        DataType::Bool => "bool"@,
        DataType::String => "String"@,
        DataType::OptU64 => "Option<u64>"@,
    }
}

/// Whether `v` is the default cell of tag `t`: zero, `0.0`, `false`, the
/// empty string, null.
pub open spec fn is_default(v: Value, t: DataType) -> bool {
    match t {
        DataType::U64 => v == Value::U64(0),
        DataType::F64 => v == Value::F64(0),
        DataType::Bool => v == Value::Bool(false),
        DataType::String => v matches Value::Str(s) && s@.len() == 0,
        DataType::OptU64 => v == Value::OptU64(None),
    }
}

/// The tag whose native type a value has.
pub open spec fn type_of(v: Value) -> DataType {
    match v {
        Value::U64(_) => DataType::U64,
        Value::F64(_) => DataType::F64,
        Value::Bool(_) => DataType::Bool,
        Value::Str(_) => DataType::String,
        Value::OptU64(_) => DataType::OptU64,
    }
}

impl Value {
    /// The tag whose native type this value has.
    pub fn data_type(&self) -> (t: DataType)
        ensures
            t == type_of(*self),
    {
        match self {
            Value::U64(_) => DataType::U64,
            Value::F64(_) => DataType::F64,
            Value::Bool(_) => DataType::Bool,
            Value::Str(_) => DataType::String,
            Value::OptU64(_) => DataType::OptU64,
        }
    }
}

} // verus!
