pub mod csv;
pub mod dummy;

use crate::errors::ConnectorAgentError;
use crate::types::{type_of, DataOrder, DataType, Value};
use vstd::prelude::*;

verus! {

/// What a cell holds, as a mathematical value.
pub enum CellView {
    U64(u64),
    F64(u64),
    Bool(bool),
    Str(Seq<char>),
    OptU64(Option<u64>),
}

/// The tag of a cell view.
pub open spec fn view_type(v: CellView) -> DataType {
    match v {
        CellView::U64(_) => DataType::U64,
        CellView::F64(_) => DataType::F64,
        CellView::Bool(_) => DataType::Bool,
        CellView::Str(_) => DataType::String,
        CellView::OptU64(_) => DataType::OptU64,
    }
}

impl View for Value {
    type V = CellView;

    open spec fn view(&self) -> CellView {
        match self {
            Value::U64(x) => CellView::U64(*x),
            Value::F64(x) => CellView::F64(*x),
            Value::Bool(x) => CellView::Bool(*x),
            Value::Str(s) => CellView::Str(s@),
            Value::OptU64(x) => CellView::OptU64(*x),
        }
    }
}

/// The character of a decimal digit.
pub open spec fn digit_char(d: nat) -> char {
    if d == 0 {
        '0'
    } else if d == 1 {
        '1'
    } else if d == 2 {
        '2'
    } else if d == 3 {
        '3'
    } else if d == 4 {
        '4'
    } else if d == 5 {
        '5'
    } else if d == 6 {
        '6'
    } else if d == 7 {
        '7'
    } else if d == 8 {
        '8'
    } else {
        '9'
    }
}

/// The decimal rendering of `n`, without sign or leading zeros.
pub open spec fn decimal(n: nat) -> Seq<char>
    decreases n,
{
    if n < 10 {
        seq![digit_char(n)]
    } else {
        decimal(n / 10).push(digit_char(n % 10))
    }
}

pub open spec fn is_digit(c: char) -> bool {
    '0' <= c && c <= '9'
}

/// The value of a string of decimal digits.
pub open spec fn digits_value(s: Seq<char>) -> nat
    decreases s.len(),
{
    if s.len() == 0 {
        0
    } else {
        digits_value(s.drop_last()) * 10 + (s.last() as nat - '0' as nat) as nat
    }
}

/// What `str::parse` gives for an unsigned integer type whose largest value
/// is `max`: an optional `+`, then one or more decimal digits whose value is
/// at most `max`.
pub open spec fn parsed_unsigned(s: Seq<char>, max: nat) -> Option<nat> {
    let d = if s.len() > 0 && s[0] == '+' {
        s.drop_first()
    } else {
        s
    };
    if d.len() > 0 && (forall|i: int| 0 <= i < d.len() ==> is_digit(#[trigger] d[i])) && digits_value(d)
        <= max {
        Some(digits_value(d))
    } else {
        None
    }
}

/// What `str::parse::<bool>` gives: exactly `true` or `false`.
pub open spec fn parsed_bool(s: Seq<char>) -> Option<bool> {
    if s == "true"@ {
        Some(true)
    } else if s == "false"@ {
        Some(false)
    } else {
        None
    }
}

/// Relies on `<u64 as ToString>::to_string`: the decimal rendering.
#[verifier::external_body]
pub(crate) fn u64_to_string(n: u64) -> (s: String)
    ensures
        s@ == decimal(n as nat),
{
    n.to_string()
}

/// Relies on `str::parse::<usize>`: an optional `+` and decimal digits that fit.
#[verifier::external_body]
pub(crate) fn parse_usize(s: &str) -> (r: Option<usize>)
    ensures
        r matches Some(n) ==> parsed_unsigned(s@, usize::MAX as nat) == Some(n as nat),
        r is None ==> parsed_unsigned(s@, usize::MAX as nat) is None,
{
    s.parse::<usize>().ok()
}

/// Relies on `str::parse::<u64>`: an optional `+` and decimal digits that fit.
#[verifier::external_body]
pub(crate) fn parse_u64(s: &str) -> (r: Option<u64>)
    ensures
        r matches Some(n) ==> parsed_unsigned(s@, u64::MAX as nat) == Some(n as nat),
        r is None ==> parsed_unsigned(s@, u64::MAX as nat) is None,
{
    s.parse::<u64>().ok()
}

/// Relies on `str::parse::<bool>`: `true` and `false` only.
#[verifier::external_body]
pub(crate) fn parse_bool(s: &str) -> (r: Option<bool>)
    ensures
        r == parsed_bool(s@),
{
    s.parse::<bool>().ok()
}

/// Relies on `num_traits::FromPrimitive::from_u64` for `u64`, which is
/// `ToPrimitive::to_u64` on `u64`: always `Some` of its argument.
#[verifier::external_body]
pub(crate) fn u64_from_u64(n: u64) -> (r: Option<u64>)
    ensures
        r == Some(n),
{
    <u64 as num_traits::FromPrimitive>::from_u64(n)
}

/// A cursor over the result of one query: it hands out one cell per call, row
/// by row.
///
/// Its model is a stream: `cell(k, t)` is what the `k`-th cell would be if it
/// were asked for as type `t`, and `produced()` counts the cells handed out.
pub trait DataSource: Sized {
    /// The source's internal consistency.
    spec fn inv(&self) -> bool;

    /// The number of rows of the last query.
    spec fn spec_nrows(&self) -> nat;

    /// The number of cells handed out so far.
    spec fn produced(&self) -> nat;

    /// The `k`-th cell of the stream, asked for as type `t`.
    spec fn cell(&self, k: nat, t: DataType) -> Result<CellView, ConnectorAgentError>;

    /// Whether running `query` on `self` succeeds and leaves `after`.
    spec fn query_ok(&self, query: Seq<char>, after: Self) -> bool;

    /// Whether running `query` on `self` fails with `e`.
    spec fn query_err(&self, query: Seq<char>, e: ConnectorAgentError) -> bool;

    /// A cell asked for as type `t` has type `t`.
    proof fn lemma_cell_type(&self, k: nat, t: DataType)
        ensures
            self.cell(k, t) matches Ok(v) ==> view_type(v) == t,
    ;

    /// Runs `query`, learning how many rows it yields.
    fn run_query(&mut self, query: &str) -> (r: Result<(), ConnectorAgentError>)
        requires
            old(self).inv(),
        ensures
            final(self).inv(),
            r is Err ==> *final(self) == *old(self),
            r is Ok ==> old(self).query_ok(query@, *final(self)),
            r matches Err(e) ==> old(self).query_err(query@, e),
    ;

    /// The number of rows of the last query.
    fn nrows(&self) -> (n: usize)
        ensures
            n == self.spec_nrows(),
    ;

    /// The next cell, as type `t`.
    fn produce(&mut self, t: DataType) -> (r: Result<Value, ConnectorAgentError>)
        requires
            old(self).inv(),
        ensures
            final(self).inv(),
            r matches Ok(v) ==> old(self).cell(old(self).produced(), t) == Ok::<
                CellView,
                ConnectorAgentError,
            >(v@) && type_of(v) == t,
            r matches Err(e) ==> old(self).cell(old(self).produced(), t) == Err::<
                CellView,
                ConnectorAgentError,
            >(e),
            r is Err ==> *final(self) == *old(self),
            r is Ok ==> final(self).produced() == old(self).produced() + 1,
            r is Ok ==> final(self).spec_nrows() == old(self).spec_nrows(),
            r is Ok ==> forall|k: nat, t2: DataType| #[trigger]
                final(self).cell(k, t2) == old(self).cell(k, t2),
    ;
}

/// A factory of sources.
pub trait SourceBuilder: Sized {
    type DataSource: DataSource;

    /// The data orders this builder's sources can stream in, in order of preference.
    spec fn spec_data_orders() -> Seq<DataOrder>;

    /// Whether building from `self` succeeds, leaves `next`, and gives `src`.
    spec fn builds(&self, next: Self, src: Self::DataSource) -> bool;

    /// Whether building from `self` fails with `e`.
    spec fn build_err(&self, e: ConnectorAgentError) -> bool;

    fn data_orders() -> (r: Vec<DataOrder>)
        ensures
            r@ == Self::spec_data_orders(),
    ;

    /// Selects the order to stream in.
    fn set_data_order(&mut self, data_order: DataOrder) -> (r: Result<(), ConnectorAgentError>)
        ensures
            Self::spec_data_orders().contains(data_order) ==> r is Ok,
            !Self::spec_data_orders().contains(data_order) ==> r == Err::<(), ConnectorAgentError>(
                ConnectorAgentError::UnsupportedDataOrder(data_order),
            ),
            *final(self) == *old(self),
    ;

    /// Builds the next source.
    fn build(&mut self) -> (r: Result<Self::DataSource, ConnectorAgentError>)
        ensures
            r matches Ok(s) ==> old(self).builds(*final(self), s) && s.inv(),
            r matches Err(e) ==> old(self).build_err(e),
    ;
}

} // verus!
