pub mod string;

use crate::errors::ConnectorAgentError;
use vstd::prelude::*;

verus! {

/// Errors of the dataframe side.
#[derive(Debug)]
pub enum ConnectorAgentPythonError {
    /// A dtype name that no tag stands for.
    UnknownPandasType(String),
    /// An error raised by the host runtime.
    PythonError(String),
    /// A host call returned another type than the one expected: expected, got.
    UnexpectedReturnType(String, String),
    /// An error of the transfer engine.
    ConnectorAgentError(ConnectorAgentError),
    /// Any other error.
    Other(String),
}

/// The column types of a dataframe destination; the flag says whether the
/// column is nullable.
#[derive(Debug, Clone, Copy, PartialEq, Eq, Structural, Hash)]
pub enum PandasTypes {
    F64(bool),
    I64(bool),
    Bool(bool),
    String(bool),
    DateTime(bool),
}

/// The dtype name of a tag.
pub open spec fn dtype_of(t: PandasTypes) -> Seq<char> {
    match t {
        PandasTypes::I64(false) => "int64"@,
        PandasTypes::I64(true) => "Int64"@,
        PandasTypes::F64(_) => "float64"@,
        PandasTypes::Bool(false) => "bool"@,
        PandasTypes::Bool(true) => "boolean"@,
        PandasTypes::String(_) => "object"@,
        PandasTypes::DateTime(_) => "datetime64[ns]"@,
    }
}

/// The array-protocol type code used to allocate a column of a tag.
pub open spec fn npdtype_of(t: PandasTypes) -> Seq<char> {
    match t {
        PandasTypes::I64(_) => "i8"@,
        PandasTypes::F64(_) => "f8"@,
        PandasTypes::Bool(_) => "b1"@,
        PandasTypes::String(_) => "O"@,
        PandasTypes::DateTime(_) => "M8[ns]"@,
    }
}

/// The tag a dtype name stands for.
pub open spec fn parse_of(ty: Seq<char>) -> Option<PandasTypes> {
    if ty == "int64"@ {
        Some(PandasTypes::I64(false))
    } else if ty == "Int64"@ {
        Some(PandasTypes::I64(true))
    } else if ty == "float64"@ {
        Some(PandasTypes::F64(true))
    } else if ty == "bool"@ {
        Some(PandasTypes::Bool(false))
    } else if ty == "boolean"@ {
        Some(PandasTypes::Bool(true))
    } else if ty == "object"@ {
        Some(PandasTypes::String(true))
    } else if ty == "datetime"@ {
        Some(PandasTypes::DateTime(true))
    } else {
        None
    }
}

/// Whether a tag is stored as an extension array: the nullable integers and booleans.
pub open spec fn is_extension_of(t: PandasTypes) -> bool {
    match t {
        PandasTypes::I64(true) => true,
        PandasTypes::Bool(true) => true,
        _ => false,
    }
}

/// The kind of block that holds columns of a tag.
pub open spec fn block_name_of(t: PandasTypes) -> Seq<char> {
    match t {
        PandasTypes::I64(false) => "IntBlock"@,
        PandasTypes::I64(true) => "ExtensionBlock"@,
        PandasTypes::F64(_) => "FloatBlock"@,
        PandasTypes::Bool(false) => "BoolBlock"@,
        PandasTypes::Bool(true) => "ExtensionBlock"@,
        PandasTypes::String(_) => "ObjectBlock"@,
        PandasTypes::DateTime(_) => "DatetimeBlock"@,
    }
}

/// Whether two strings hold the same characters.
fn str_eq(a: &str, b: &str) -> (r: bool)
    ensures
        r == (a@ == b@),
{
    let n = a.unicode_len();
    if n != b.unicode_len() {
        return false;
    }
    let mut i: usize = 0;
    while i < n
        invariant
            n == a@.len(),
            n == b@.len(),
            i <= n,
            forall|j: int| 0 <= j < i ==> a@[j] == b@[j],
        decreases n - i,
    {
        if a.get_char(i) != b.get_char(i) {
            return false;
        }
        i += 1;
    }
    assert(a@ =~= b@);
    true
}

/// The dataframe-side names of a tag.
pub trait PandasDType: Sized {
    spec fn spec_dtype(&self) -> Seq<char>;

    spec fn spec_npdtype(&self) -> Seq<char>;

    spec fn spec_parse(ty: Seq<char>) -> Option<Self>;

    spec fn spec_is_extension(&self) -> bool;

    spec fn spec_block_name(&self) -> Seq<char>;

    /// The dtype name.
    fn dtype(&self) -> (s: &'static str)
        ensures
            s@ == self.spec_dtype(),
    ;

    /// The array-protocol type code, to allocate an array of this type.
    fn npdtype(&self) -> (s: &'static str)
        ensures
            s@ == self.spec_npdtype(),
    ;

    /// The tag of a dtype name.
    fn parse(ty: &str) -> (r: Result<Self, ConnectorAgentPythonError>)
        ensures
            Self::spec_parse(ty@) matches Some(t) ==> (r matches Ok(u) && u == t),
            Self::spec_parse(ty@) is None ==> (r matches Err(
                ConnectorAgentPythonError::UnknownPandasType(s),
            ) && s@ == ty@),
    ;

    /// Whether columns of this type are extension arrays.
    fn is_extension(&self) -> (b: bool)
        ensures
            b == self.spec_is_extension(),
    ;

    /// The kind of block that holds columns of this type.
    fn block_name(&self) -> (s: &'static str)
        ensures
            s@ == self.spec_block_name(),
    ;
}

impl PandasDType for PandasTypes {
    open spec fn spec_dtype(&self) -> Seq<char> {
        dtype_of(*self)
    }

    open spec fn spec_npdtype(&self) -> Seq<char> {
        npdtype_of(*self)
    }

    open spec fn spec_parse(ty: Seq<char>) -> Option<Self> {
        parse_of(ty)
    }

    open spec fn spec_is_extension(&self) -> bool {
        is_extension_of(*self)
    }

    open spec fn spec_block_name(&self) -> Seq<char> {
        block_name_of(*self)
    }

    fn dtype(&self) -> (s: &'static str) {
        match *self {
            PandasTypes::I64(false) => "int64",
            PandasTypes::I64(true) => "Int64",
            PandasTypes::F64(_) => "float64",
            PandasTypes::Bool(false) => "bool",
            PandasTypes::Bool(true) => "boolean",
            PandasTypes::String(_) => "object",
            PandasTypes::DateTime(_) => "datetime64[ns]",
        }
    }

    fn npdtype(&self) -> (s: &'static str) {
        match *self {
            PandasTypes::I64(_) => "i8",
            PandasTypes::F64(_) => "f8",
            PandasTypes::Bool(_) => "b1",
            PandasTypes::String(_) => "O",
            PandasTypes::DateTime(_) => "M8[ns]",
        }
    }

    fn parse(ty: &str) -> (r: Result<Self, ConnectorAgentPythonError>) {
        if str_eq(ty, "int64") {
            Ok(PandasTypes::I64(false))
        } else if str_eq(ty, "Int64") {
            Ok(PandasTypes::I64(true))
        } else if str_eq(ty, "float64") {
            Ok(PandasTypes::F64(true))
        } else if str_eq(ty, "bool") {
            Ok(PandasTypes::Bool(false))
        } else if str_eq(ty, "boolean") {
            Ok(PandasTypes::Bool(true))
        } else if str_eq(ty, "object") {
            Ok(PandasTypes::String(true))
        } else if str_eq(ty, "datetime") {
            Ok(PandasTypes::DateTime(true))
        } else {
            Err(ConnectorAgentPythonError::UnknownPandasType(String::from_str(ty)))
        }
    }

    fn is_extension(&self) -> (b: bool) {
        match *self {
            PandasTypes::I64(false) => false,
            PandasTypes::I64(true) => true,
            PandasTypes::F64(_) => false,
            PandasTypes::Bool(false) => false,
            PandasTypes::Bool(true) => true,
            PandasTypes::String(_) => false,
            PandasTypes::DateTime(_) => false,
        }
    }

    fn block_name(&self) -> (s: &'static str) {
        match *self {
            PandasTypes::I64(false) => "IntBlock",
            PandasTypes::I64(true) => "ExtensionBlock",
            PandasTypes::F64(_) => "FloatBlock",
            PandasTypes::Bool(false) => "BoolBlock",
            PandasTypes::Bool(true) => "ExtensionBlock",
            PandasTypes::String(_) => "ObjectBlock",
            PandasTypes::DateTime(_) => "DatetimeBlock",
        }
    }
}

} // verus!
