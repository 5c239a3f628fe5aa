use crate::errors::ConnectorAgentError;
use crate::types::{is_default, native_name_of, type_of, DataType, Value};
use vstd::prelude::*;

verus! {

/// A two-dimensional block `[nrows x ncols]` whose element type is known only
/// by its tag.
pub struct AnyArray {
    pub(crate) dtype: DataType,
    pub(crate) nrows: usize,
    pub(crate) ncols: usize,
    pub(crate) data: Vec<Vec<Value>>,
}

impl AnyArray {
    /// The block is `nrows x ncols` and every cell has the block's type.
    pub open(crate) spec fn wf(&self) -> bool {
        &&& self.data@.len() == self.nrows
        &&& forall|r: int| 0 <= r < self.nrows ==> #[trigger] self.data@[r]@.len() == self.ncols
        &&& forall|r: int, c: int|
            0 <= r < self.nrows && 0 <= c < self.ncols ==> type_of(#[trigger] self.data@[r]@[c])
                == self.dtype
    }

    pub open(crate) spec fn spec_dtype(&self) -> DataType {
        self.dtype
    }

    pub open(crate) spec fn spec_nrows(&self) -> nat {
        self.nrows as nat
    }

    pub open(crate) spec fn spec_ncols(&self) -> nat {
        self.ncols as nat
    }

    /// The cell at `(r, c)`.
    pub open(crate) spec fn at(&self, r: int, c: int) -> Value {
        self.data@[r]@[c]
    }

    /// The rows of the block.
    pub open(crate) spec fn rows(&self) -> Seq<Seq<Value>> {
        self.data@.map_values(|row: Vec<Value>| row@)
    }

    /// A block of `nrows x ncols` default cells of type `dtype`.
    pub fn new(dtype: DataType, nrows: usize, ncols: usize) -> (a: AnyArray)
        ensures
            a.wf(),
            a.spec_dtype() == dtype,
            a.spec_nrows() == nrows,
            a.spec_ncols() == ncols,
            forall|r: int, c: int|
                0 <= r < nrows && 0 <= c < ncols ==> is_default(#[trigger] a.at(r, c), dtype),
    {
        let mut data: Vec<Vec<Value>> = Vec::new();
        let mut i: usize = 0;
        while i < nrows
            invariant
                i <= nrows,
                data@.len() == i,
                forall|r: int| 0 <= r < i ==> #[trigger] data@[r]@.len() == ncols,
                forall|r: int, c: int|
                    0 <= r < i && 0 <= c < ncols ==> is_default(#[trigger] data@[r]@[c], dtype),
            decreases nrows - i,
        {
            let mut row: Vec<Value> = Vec::new();
            let mut j: usize = 0;
            while j < ncols
                invariant
                    j <= ncols,
                    row@.len() == j,
                    forall|c: int| 0 <= c < j ==> is_default(#[trigger] row@[c], dtype),
                decreases ncols - j,
            {
                row.push(dtype.default_value());
                j += 1;
            }
            data.push(row);
            i += 1;
        }
        let a = AnyArray { dtype, nrows, ncols, data };
        assert forall|r: int, c: int| 0 <= r < nrows && 0 <= c < ncols implies type_of(
            #[trigger] a.data@[r]@[c],
        ) == dtype by {
            assert(is_default(a.data@[r]@[c], dtype));
        }
        a
    }

    pub fn dtype(&self) -> (t: DataType)
        ensures
            t == self.spec_dtype(),
    {
        self.dtype
    }

    pub fn nrows(&self) -> (n: usize)
        ensures
            n == self.spec_nrows(),
    {
        self.nrows
    }

    pub fn ncols(&self) -> (n: usize)
        ensures
            n == self.spec_ncols(),
    {
        self.ncols
    }

    /// The cell at `(r, c)`, read as type `t`: fails with `UnexpectedType`
    /// when `t` is not the block's type, with `OutOfBound` when `(r, c)` is
    /// outside the block.
    pub fn get_checked(&self, t: DataType, r: usize, c: usize) -> (res: Result<
        &Value,
        ConnectorAgentError,
    >)
        requires
            self.wf(),
        ensures
            t != self.spec_dtype() ==> (res matches Err(ConnectorAgentError::UnexpectedType(
                expected,
                name,
            )) && expected == self.spec_dtype() && name@ == native_name_of(t)),
            t == self.spec_dtype() && !(r < self.spec_nrows() && c < self.spec_ncols()) ==> res
                == Err::<&Value, _>(ConnectorAgentError::OutOfBound),
            t == self.spec_dtype() && r < self.spec_nrows() && c < self.spec_ncols() ==> res
                == Ok::<&Value, ConnectorAgentError>(&self.at(r as int, c as int)),
    {
        if t != self.dtype {
            return Err(ConnectorAgentError::UnexpectedType(self.dtype, t.native_name()));
        }
        if r >= self.nrows || c >= self.ncols {
            return Err(ConnectorAgentError::OutOfBound);
        }
        Ok(&self.data[r][c])
    }

    /// Writes `v` at `(r, c)` without a check: the caller has established that
    /// `v` has the block's type and that `(r, c)` lies inside it.
    pub fn set(&mut self, r: usize, c: usize, v: Value)
        requires
            old(self).wf(),
            r < old(self).spec_nrows(),
            c < old(self).spec_ncols(),
            type_of(v) == old(self).spec_dtype(),
        ensures
            final(self).wf(),
            final(self).spec_dtype() == old(self).spec_dtype(),
            final(self).spec_nrows() == old(self).spec_nrows(),
            final(self).spec_ncols() == old(self).spec_ncols(),
            final(self).rows() == old(self).rows().update(
                r as int,
                old(self).rows()[r as int].update(c as int, v),
            ),
    {
        let ghost old_rows = self.rows();
        let mut row: Vec<Value> = Vec::new();
        std::mem::swap(&mut row, &mut self.data[r]);
        row.set(c, v);
        self.data.set(r, row);
        assert(self.rows() =~= old_rows.update(r as int, old_rows[r as int].update(c as int, v)));
    }

    /// Splits off the first `n` rows as a block of their own; `self` keeps the rest.
    pub fn split_rows(&mut self, n: usize) -> (head: AnyArray)
        requires
            old(self).wf(),
            n <= old(self).spec_nrows(),
        ensures
            head.wf(),
            final(self).wf(),
            head.spec_dtype() == old(self).spec_dtype(),
            final(self).spec_dtype() == old(self).spec_dtype(),
            head.spec_ncols() == old(self).spec_ncols(),
            final(self).spec_ncols() == old(self).spec_ncols(),
            head.spec_nrows() == n,
            final(self).spec_nrows() == old(self).spec_nrows() - n,
            head.rows() == old(self).rows().take(n as int),
            final(self).rows() == old(self).rows().skip(n as int),
    {
        let ghost old_data = self.data@;
        let mut head_data = self.data.split_off(n);
        std::mem::swap(&mut head_data, &mut self.data);
        let head = AnyArray { dtype: self.dtype, nrows: n, ncols: self.ncols, data: head_data };
        self.nrows = self.nrows - n;
        assert forall|r: int| 0 <= r < self.nrows implies #[trigger] self.data@[r]@.len()
            == self.ncols by {
            assert(self.data@[r] == old_data[r + n]);
        }
        assert forall|r: int, c: int|
            0 <= r < self.nrows && 0 <= c < self.ncols implies type_of(
            #[trigger] self.data@[r]@[c],
        ) == self.dtype by {
            assert(self.data@[r] == old_data[r + n]);
        }
        assert(head.rows() =~= old_data.map_values(|row: Vec<Value>| row@).take(n as int));
        assert(self.rows() =~= old_data.map_values(|row: Vec<Value>| row@).skip(n as int));
        head
    }

    /// Appends the rows of `other` below those of `self`.
    pub fn append_rows(&mut self, other: AnyArray)
        requires
            old(self).wf(),
            other.wf(),
            other.spec_dtype() == old(self).spec_dtype(),
            other.spec_ncols() == old(self).spec_ncols(),
            old(self).spec_nrows() + other.spec_nrows() <= usize::MAX,
        ensures
            final(self).wf(),
            final(self).spec_dtype() == old(self).spec_dtype(),
            final(self).spec_ncols() == old(self).spec_ncols(),
            final(self).spec_nrows() == old(self).spec_nrows() + other.spec_nrows(),
            final(self).rows() == old(self).rows() + other.rows(),
    {
        let ghost old_data = self.data@;
        let AnyArray { dtype: _, nrows, ncols: _, data } = other;
        let mut data = data;
        let ghost other_data = data@;
        self.data.append(&mut data);
        self.nrows = self.nrows + nrows;
        assert(self.data@ == old_data + other_data);
        assert forall|r: int| 0 <= r < self.nrows implies #[trigger] self.data@[r]@.len()
            == self.ncols by {
            if r >= old_data.len() {
                assert(self.data@[r] == other_data[r - old_data.len()]);
            }
        }
        assert forall|r: int, c: int|
            0 <= r < self.nrows && 0 <= c < self.ncols implies type_of(
            #[trigger] self.data@[r]@[c],
        ) == self.dtype by {
            if r >= old_data.len() {
                assert(self.data@[r] == other_data[r - old_data.len()]);
            }
        }
        assert(self.rows() =~= old_data.map_values(|row: Vec<Value>| row@) + other_data.map_values(
            |row: Vec<Value>| row@,
        ));
    }
}

} // verus!
