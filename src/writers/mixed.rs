use super::{
    all_default, all_supported, concat_tables, first_unsupported, has_shape, offset, sum, well_typed,
    Consume, PartitionWriter, Writer,
};
use crate::any_array::AnyArray;
use crate::errors::ConnectorAgentError;
use crate::types::{is_default, rank, tag_of_rank, type_of, DataOrder, DataType, Value, NTYPES};
use vstd::prelude::*;

verus! {

/// How many columns of `s` have tag `t`.
pub open spec fn count_tag(s: Seq<DataType>, t: DataType) -> nat
    decreases s.len(),
{
    if s.len() == 0 {
        0
    } else {
        count_tag(s.drop_last(), t) + if s.last() == t {
            1nat
        } else {
            0nat
        }
    }
}

/// How many of the tags of rank below `k` occur in `s`.
pub open spec fn blocks_before(s: Seq<DataType>, k: nat) -> nat
    decreases k,
{
    if k == 0 {
        0
    } else {
        blocks_before(s, (k - 1) as nat) + if count_tag(s, tag_of_rank((k - 1) as nat)) > 0 {
            1nat
        } else {
            0nat
        }
    }
}

/// The block that holds the columns of tag `t`: blocks come in the order of
/// the tags, one per tag that occurs.
pub open spec fn block_id(s: Seq<DataType>, t: DataType) -> nat {
    blocks_before(s, rank(t))
}

/// The number of blocks that `s` needs.
pub open spec fn nblocks(s: Seq<DataType>) -> nat {
    blocks_before(s, NTYPES as nat)
}

/// Where column `c` of `s` is stored: its tag's block, and within it the
/// number of earlier columns of the same tag.
pub open spec fn buffer_index(s: Seq<DataType>, c: int) -> (nat, nat) {
    (block_id(s, s[c]), count_tag(s.take(c), s[c]))
}

pub proof fn lemma_count_step(s: Seq<DataType>, t: DataType, c: int)
    requires
        0 <= c < s.len(),
    ensures
        count_tag(s.take(c + 1), t) == count_tag(s.take(c), t) + if s[c] == t {
            1nat
        } else {
            0nat
        },
{
    assert(s.take(c + 1).drop_last() =~= s.take(c));
}

pub proof fn lemma_count_mono(s: Seq<DataType>, t: DataType, i: int, j: int)
    requires
        0 <= i <= j <= s.len(),
    ensures
        count_tag(s.take(i), t) <= count_tag(s.take(j), t),
    decreases j - i,
{
    if i < j {
        lemma_count_step(s, t, j - 1);
        lemma_count_mono(s, t, i, j - 1);
    }
}

pub proof fn lemma_blocks_mono(s: Seq<DataType>, i: nat, j: nat)
    requires
        i <= j,
    ensures
        blocks_before(s, i) <= blocks_before(s, j),
    decreases j - i,
{
    if i < j {
        lemma_blocks_mono(s, i, (j - 1) as nat);
    }
}

/// Columns that occur in `s` get distinct, existing slots.
pub proof fn lemma_index_injective(s: Seq<DataType>, c1: int, c2: int)
    requires
        0 <= c1 < s.len(),
        0 <= c2 < s.len(),
        c1 != c2,
    ensures
        buffer_index(s, c1) != buffer_index(s, c2),
{
    if s[c1] == s[c2] {
        if c1 < c2 {
            lemma_count_step(s, s[c1], c1);
            lemma_count_mono(s, s[c1], c1 + 1, c2);
        } else {
            lemma_count_step(s, s[c2], c2);
            lemma_count_mono(s, s[c2], c2 + 1, c1);
        }
    } else {
        lemma_slot_exists(s, c1);
        lemma_slot_exists(s, c2);
        crate::types::lemma_rank_bijective(s[c1], 0);
        crate::types::lemma_rank_bijective(s[c2], 0);
        if rank(s[c1]) < rank(s[c2]) {
            lemma_blocks_mono(s, rank(s[c1]) + 1, rank(s[c2]));
        } else {
            lemma_blocks_mono(s, rank(s[c2]) + 1, rank(s[c1]));
        }
    }
}

/// The slot of column `c` lies inside the block of its tag, and that block exists.
pub proof fn lemma_slot_exists(s: Seq<DataType>, c: int)
    requires
        0 <= c < s.len(),
    ensures
        count_tag(s.take(c), s[c]) < count_tag(s, s[c]),
        block_id(s, s[c]) < nblocks(s),
{
    lemma_count_step(s, s[c], c);
    lemma_count_mono(s, s[c], c + 1, s.len() as int);
    assert(s.take(s.len() as int) =~= s);
    crate::types::lemma_rank_bijective(s[c], 0);
    lemma_blocks_mono(s, rank(s[c]) + 1, NTYPES as nat);
}

/// Every slot of the block of tag `t` belongs to a column of that tag: the
/// `j`-th column of tag `t` in schema order.
pub proof fn lemma_slot_onto(s: Seq<DataType>, t: DataType, j: nat)
    requires
        j < count_tag(s, t),
    ensures
        exists|c: int| 0 <= c < s.len() && s[c] == t && #[trigger] count_tag(s.take(c), t) == j,
    decreases s.len(),
{
    let d = s.drop_last();
    if count_tag(d, t) > j {
        lemma_slot_onto(d, t, j);
        let c = choose|c: int| 0 <= c < d.len() && d[c] == t && #[trigger] count_tag(d.take(c), t) == j;
        assert(s.take(c) =~= d.take(c));
    } else {
        let c = s.len() - 1;
        assert(s.take(c) =~= d);
        assert(s[c] == t);
    }
}

/// Whether slot `j` of the block of tag `t` belongs to a column of `s`.
pub open spec fn slot_taken(s: Seq<DataType>, t: DataType, j: nat) -> bool {
    exists|c: int| 0 <= c < s.len() && s[c] == t && #[trigger] buffer_index(s, c) == (block_id(s, t), j)
}

/// The column index tiles the blocks: each column has a slot of its own
/// inside the block of its tag, each slot of each block belongs to exactly
/// one column, and the block of a tag is as wide as the tag has columns.
pub proof fn lemma_allocation_tiling(s: Seq<DataType>)
    ensures
        forall|c1: int, c2: int|
            0 <= c1 < s.len() && 0 <= c2 < s.len() && c1 != c2 ==> buffer_index(s, c1)
                != buffer_index(s, c2),
        forall|c: int|
            0 <= c < s.len() ==> (#[trigger] buffer_index(s, c)).0 < nblocks(s)
                && buffer_index(s, c).1 < count_tag(s, s[c]),
        forall|t: DataType, j: nat| j < count_tag(s, t) ==> #[trigger] slot_taken(s, t, j),
{
    assert forall|c1: int, c2: int|
        0 <= c1 < s.len() && 0 <= c2 < s.len() && c1 != c2 implies buffer_index(s, c1)
        != buffer_index(s, c2) by {
        lemma_index_injective(s, c1, c2);
    }
    assert forall|c: int| 0 <= c < s.len() implies (#[trigger] buffer_index(s, c)).0 < nblocks(s)
        && buffer_index(s, c).1 < count_tag(s, s[c]) by {
        lemma_slot_exists(s, c);
    }
    assert forall|t: DataType, j: nat| j < count_tag(s, t) implies #[trigger] slot_taken(s, t, j) by {
        lemma_slot_onto(s, t, j);
        let c = choose|c: int| 0 <= c < s.len() && s[c] == t && #[trigger] count_tag(s.take(c), t) == j;
        assert(buffer_index(s, c) == (block_id(s, t), j));
    }
}

/// The blocks and the column index agree with the schema: block `b` has
/// `nrows` rows, the block of each tag is as wide as the tag's columns are
/// many, and each column has its own slot.
pub open spec fn layout_wf(
    nrows: nat,
    schema: Seq<DataType>,
    buffers: Seq<AnyArray>,
    index: Seq<(usize, usize)>,
) -> bool {
    &&& index.len() == schema.len()
    &&& buffers.len() == nblocks(schema)
    &&& forall|b: int|
        0 <= b < buffers.len() ==> (#[trigger] buffers[b]).wf() && buffers[b].spec_nrows()
            == nrows
    &&& forall|c: int|
        0 <= c < schema.len() ==> (#[trigger] index[c]).0 == buffer_index(schema, c).0
            && index[c].1 == buffer_index(schema, c).1
    &&& forall|c: int|
        0 <= c < schema.len() ==> #[trigger] buffers[index[c].0 as int].spec_dtype() == schema[c]
            && buffers[index[c].0 as int].spec_ncols() == count_tag(schema, schema[c])
}

/// The cells, read through the column index.
pub open spec fn table_of(
    nrows: nat,
    ncols: nat,
    buffers: Seq<AnyArray>,
    index: Seq<(usize, usize)>,
) -> Seq<Seq<Value>> {
    Seq::new(
        nrows,
        |r: int|
            Seq::new(ncols, |c: int| buffers[index[c].0 as int].rows()[r][index[c].1 as int]),
    )
}

/// The tag and width of each block.
pub open spec fn layout_of(buffers: Seq<AnyArray>) -> Seq<(DataType, nat)> {
    buffers.map_values(|a: AnyArray| (a.spec_dtype(), a.spec_ncols()))
}

proof fn lemma_table_shape_of(
    nrows: nat,
    schema: Seq<DataType>,
    buffers: Seq<AnyArray>,
    index: Seq<(usize, usize)>,
)
    requires
        layout_wf(nrows, schema, buffers, index),
    ensures
        has_shape(table_of(nrows, schema.len(), buffers, index), nrows, schema.len()),
        well_typed(table_of(nrows, schema.len(), buffers, index), schema),
{
    let t = table_of(nrows, schema.len(), buffers, index);
    assert forall|r: int, c: int| 0 <= r < t.len() && 0 <= c < schema.len() implies type_of(
        #[trigger] t[r][c],
    ) == schema[c] by {
        lemma_slot_exists(schema, c);
        let b = index[c].0 as int;
        let j = index[c].1 as int;
        assert(buffers[b].spec_dtype() == schema[c]);
        assert(buffers[b].wf());
        assert(t[r][c] == buffers[b].rows()[r][j]);
        assert(buffers[b].rows()[r] == buffers[b].data@[r]@);
        assert(type_of(buffers[b].data@[r]@[j]) == buffers[b].dtype);
    }
}

/// A destination that keeps every column in memory, grouping the columns of
/// each tag into one block.
pub struct MemoryWriter {
    nrows: usize,
    schema: Vec<DataType>,
    supported: Vec<DataType>,
    buffers: Vec<AnyArray>,
    column_buffer_index: Vec<(usize, usize)>,
}

impl MemoryWriter {
    /// The blocks, in the order of their tags.
    pub closed spec fn blocks(&self) -> Seq<AnyArray> {
        self.buffers@
    }

    pub closed spec fn wf(&self) -> bool {
        layout_wf(
            self.nrows as nat,
            self.schema@,
            self.buffers@,
            self.column_buffer_index@,
        )
    }


    /// An empty destination that can hold every tag.
    pub fn new() -> (w: MemoryWriter)
        ensures
            w.supported() == seq![
                DataType::U64,
                DataType::F64,
                DataType::Bool,
                DataType::String,
                DataType::OptU64,
            ],
            w.inv(),
            w.table().len() == 0,
            w.spec_schema().len() == 0,
    {
        let supported = vec![
            DataType::U64,
            DataType::F64,
            DataType::Bool,
            DataType::String,
            DataType::OptU64,
        ];
        MemoryWriter::supporting(supported)
    }

    /// An empty destination that can hold the tags in `supported` only.
    pub fn supporting(supported: Vec<DataType>) -> (w: MemoryWriter)
        ensures
            w.supported() == supported@,
            w.inv(),
            w.table().len() == 0,
            w.spec_schema().len() == 0,
    {
        let w = MemoryWriter {
            nrows: 0,
            schema: Vec::new(),
            supported,
            buffers: Vec::new(),
            column_buffer_index: Vec::new(),
        };
        assert(nblocks(Seq::empty()) == 0) by {
            reveal_with_fuel(blocks_before, 6);
        }
        assert(w.wf());
        assert(w.table() =~= Seq::empty());
        w
    }
}


pub(crate) fn copy_vec<T: Copy>(v: &Vec<T>) -> (r: Vec<T>)
    ensures
        r@ == v@,
{
    let mut r: Vec<T> = Vec::new();
    let mut i: usize = 0;
    while i < v.len()
        invariant
            i <= v@.len(),
            r@ == v@.take(i as int),
        decreases v@.len() - i,
    {
        r.push(v[i]);
        i += 1;
        assert(r@ =~= v@.take(i as int));
    }
    assert(v@.take(v@.len() as int) =~= v@);
    r
}

fn contains_tag(v: &Vec<DataType>, x: DataType) -> (r: bool)
    ensures
        r == v@.contains(x),
{
    let mut i: usize = 0;
    while i < v.len()
        invariant
            i <= v@.len(),
            forall|j: int| 0 <= j < i ==> v@[j] != x,
        decreases v.len() - i,
    {
        if v[i] == x {
            return true;
        }
        i += 1;
    }
    false
}

/// The columns of tag rank `k` per schema prefix: the table that drives the
/// grouping of columns into blocks.
fn count_tags(schema: &Vec<DataType>) -> (counts: Vec<usize>)
    ensures
        counts@.len() == NTYPES,
        forall|k: int| 0 <= k < NTYPES ==> #[trigger] counts@[k] == count_tag(schema@, tag_of_rank(k as nat)),
{
    let mut counts: Vec<usize> = vec![0, 0, 0, 0, 0];
    let mut c: usize = 0;
    while c < schema.len()
        invariant
            c <= schema@.len(),
            counts@.len() == NTYPES,
            forall|k: int| 0 <= k < NTYPES ==> #[trigger] counts@[k] == count_tag(schema@.take(c as int), tag_of_rank(k as nat)),
        decreases schema@.len() - c,
    {
        let k = schema[c].rank();
        proof {
            assert forall|k2: int| 0 <= k2 < NTYPES implies #[trigger] count_tag(schema@.take(c + 1), tag_of_rank(k2 as nat))
                == count_tag(schema@.take(c as int), tag_of_rank(k2 as nat)) + if k2 == k { 1nat } else { 0nat } by {
                lemma_count_step(schema@, tag_of_rank(k2 as nat), c as int);
                crate::types::lemma_rank_bijective(schema@[c as int], k2 as nat);
            }
            lemma_count_mono(schema@, tag_of_rank(k as nat), c + 1, schema@.len() as int);
            assert(schema@.take(schema@.len() as int) =~= schema@);
            assert(count_tag(schema@, tag_of_rank(k as nat)) <= schema@.len()) by {
                lemma_count_bound(schema@, tag_of_rank(k as nat));
            }
        }
        counts.set(k, counts[k] + 1);
        c += 1;
    }
    assert(schema@.take(schema@.len() as int) =~= schema@);
    counts
}

proof fn lemma_count_bound(s: Seq<DataType>, t: DataType)
    ensures
        count_tag(s, t) <= s.len(),
    decreases s.len(),
{
    if s.len() > 0 {
        lemma_count_bound(s.drop_last(), t);
    }
}

impl Writer for MemoryWriter {
    type PartitionWriter = MemoryPartitionWriter;

    closed spec fn inv(&self) -> bool {
        self.wf()
    }

    open spec fn spec_data_orders() -> Seq<DataOrder> {
        seq![DataOrder::RowMajor]
    }

    closed spec fn supported(&self) -> Seq<DataType> {
        self.supported@
    }

    closed spec fn spec_schema(&self) -> Seq<DataType> {
        self.schema@
    }

    closed spec fn table(&self) -> Seq<Seq<Value>> {
        table_of(self.nrows as nat, self.schema@.len(), self.buffers@, self.column_buffer_index@)
    }

    closed spec fn layout(&self) -> Seq<(DataType, nat)> {
        layout_of(self.buffers@)
    }

    fn data_orders() -> (r: Vec<DataOrder>) {
        vec![DataOrder::RowMajor]
    }

    #[verifier::loop_isolation(false)]
    fn allocate(&mut self, nrows: usize, schema: Vec<DataType>, data_order: DataOrder) -> (r:
        Result<(), ConnectorAgentError>)
    {
        assert(Self::spec_data_orders().contains(data_order) <==> data_order == DataOrder::RowMajor) by {
            if data_order == DataOrder::RowMajor {
                assert(Self::spec_data_orders()[0] == data_order);
            }
        }
        if data_order != DataOrder::RowMajor {
            return Err(ConnectorAgentError::UnsupportedDataOrder(data_order));
        }
        assert(Self::spec_data_orders()[0] == data_order);
        let mut c: usize = 0;
        while c < schema.len()
            invariant
                c <= schema@.len(),
                forall|d: int| 0 <= d < c ==> self.supported@.contains(#[trigger] schema@[d]),
            decreases schema@.len() - c,
        {
            if !contains_tag(&self.supported, schema[c]) {
                return Err(ConnectorAgentError::UnsupportedType(schema[c]));
            }
            c += 1;
        }
        let counts = count_tags(&schema);
        // one block per tag that occurs, in the order of the tags
        let mut buffers: Vec<AnyArray> = Vec::new();
        let mut block_of: Vec<usize> = Vec::new();
        let mut k: usize = 0;
        while k < NTYPES
            invariant
                k <= NTYPES,
                counts@.len() == NTYPES,
                forall|k2: int| 0 <= k2 < NTYPES ==> #[trigger] counts@[k2] == count_tag(schema@, tag_of_rank(k2 as nat)),
                block_of@.len() == k,
                buffers@.len() == blocks_before(schema@, k as nat),
                forall|k2: int| 0 <= k2 < k ==> #[trigger] block_of@[k2] == blocks_before(schema@, k2 as nat),
                forall|b: int| 0 <= b < buffers@.len() ==> (#[trigger] buffers@[b]).wf() && buffers@[b].spec_nrows() == nrows,
                forall|b: int, r: int, j: int| 0 <= b < buffers@.len() && 0 <= r < nrows && 0 <= j < buffers@[b].spec_ncols()
                    ==> is_default(#[trigger] buffers@[b].at(r, j), buffers@[b].spec_dtype()),
                forall|k2: int| 0 <= k2 < k && #[trigger] counts@[k2] > 0 ==>
                    buffers@[blocks_before(schema@, k2 as nat) as int].spec_dtype() == tag_of_rank(k2 as nat)
                    && buffers@[blocks_before(schema@, k2 as nat) as int].spec_ncols() == counts@[k2],
            decreases NTYPES - k,
        {
            proof {
                lemma_blocks_mono(schema@, k as nat, NTYPES as nat);
                assert forall|k2: int| 0 <= k2 < k && #[trigger] counts@[k2] > 0 implies
                    blocks_before(schema@, k2 as nat) < buffers@.len() by {
                    lemma_blocks_mono(schema@, (k2 + 1) as nat, k as nat);
                }
            }
            block_of.push(buffers.len());
            if counts[k] > 0 {
                let a = AnyArray::new(DataType::from_rank(k), nrows, counts[k]);
                buffers.push(a);
            }
            k += 1;
        }
        // the slot of each column: its tag's block, and the columns of that tag before it
        let mut seen: Vec<usize> = vec![0, 0, 0, 0, 0];
        let mut index: Vec<(usize, usize)> = Vec::new();
        let mut c: usize = 0;
        while c < schema.len()
            invariant
                c <= schema@.len(),
                seen@.len() == NTYPES,
                block_of@.len() == NTYPES,
                forall|k2: int| 0 <= k2 < NTYPES ==> #[trigger] block_of@[k2] == blocks_before(schema@, k2 as nat),
                forall|k2: int| 0 <= k2 < NTYPES ==> #[trigger] seen@[k2] == count_tag(schema@.take(c as int), tag_of_rank(k2 as nat)),
                index@.len() == c,
                forall|d: int| 0 <= d < c ==> (#[trigger] index@[d]).0 == buffer_index(schema@, d).0
                    && index@[d].1 == buffer_index(schema@, d).1,
            decreases schema@.len() - c,
        {
            let t = schema[c];
            let k = t.rank();
            proof {
                crate::types::lemma_rank_bijective(t, 0);
                assert forall|k2: int| 0 <= k2 < NTYPES implies #[trigger] count_tag(schema@.take(c + 1), tag_of_rank(k2 as nat))
                    == count_tag(schema@.take(c as int), tag_of_rank(k2 as nat)) + if k2 == k { 1nat } else { 0nat } by {
                    lemma_count_step(schema@, tag_of_rank(k2 as nat), c as int);
                    crate::types::lemma_rank_bijective(schema@[c as int], k2 as nat);
                }
                lemma_slot_exists(schema@, c as int);
                lemma_count_bound(schema@, t);
                lemma_count_bound(schema@.take(c as int), t);
            }
            index.push((block_of[k], seen[k]));
            seen.set(k, seen[k] + 1);
            c += 1;
        }
        self.nrows = nrows;
        self.schema = schema;
        self.buffers = buffers;
        self.column_buffer_index = index;
        proof {
            assert forall|c: int| 0 <= c < self.schema@.len() implies #[trigger] self.buffers@[self.column_buffer_index@[c].0 as int].spec_dtype() == self.schema@[c]
                && self.buffers@[self.column_buffer_index@[c].0 as int].spec_ncols() == count_tag(self.schema@, self.schema@[c]) by {
                let t = self.schema@[c];
                crate::types::lemma_rank_bijective(t, 0);
                lemma_slot_exists(self.schema@, c);
                assert(counts@[rank(t) as int] > 0);
            }
            lemma_table_shape_of(self.nrows as nat, self.schema@, self.buffers@, self.column_buffer_index@);
            let t = self.table();
            assert forall|r: int, c: int| 0 <= r < t.len() && 0 <= c < self.schema@.len() implies is_default(
                #[trigger] t[r][c],
                self.schema@[c],
            ) by {
                lemma_slot_exists(self.schema@, c);
                let b = self.column_buffer_index@[c].0 as int;
                let j = self.column_buffer_index@[c].1 as int;
                assert(self.buffers@[b].spec_dtype() == self.schema@[c]);
                assert(self.buffers@[b].wf());
                assert(self.buffers@[b].rows()[r] == self.buffers@[b].data@[r]@);
                assert(is_default(self.buffers@[b].at(r, j), self.buffers@[b].spec_dtype()));
            }
        }
        Ok(())
    }

    #[verifier::loop_isolation(false)]
    fn partition_writers(&mut self, counts: &[usize]) -> (ws: Vec<MemoryPartitionWriter>) {
        let ghost old_self = *self;
        let ghost old_table = self.table();
        let mut ws: Vec<MemoryPartitionWriter> = Vec::new();
        let mut i: usize = 0;
        while i < counts.len()
            invariant
                i <= counts@.len(),
                sum(counts@) == old_self.nrows,
                self.schema == old_self.schema,
                self.supported == old_self.supported,
                self.column_buffer_index == old_self.column_buffer_index,
                self.nrows == old_self.nrows - offset(counts@, i as int),
                offset(counts@, i as int) <= old_self.nrows,
                self.buffers@.len() == old_self.buffers@.len(),
                forall|b: int| 0 <= b < self.buffers@.len() ==> {
                    &&& (#[trigger] self.buffers@[b]).wf()
                    &&& self.buffers@[b].spec_dtype() == old_self.buffers@[b].spec_dtype()
                    &&& self.buffers@[b].spec_ncols() == old_self.buffers@[b].spec_ncols()
                    &&& self.buffers@[b].spec_nrows() == self.nrows
                    &&& self.buffers@[b].rows() == old_self.buffers@[b].rows().skip(offset(counts@, i as int) as int)
                },
                ws@.len() == i,
                forall|i2: int| 0 <= i2 < i ==> {
                    &&& (#[trigger] ws@[i2]).inv()
                    &&& ws@[i2].spec_schema() == old_self.schema@
                    &&& ws@[i2].layout() == layout_of(old_self.buffers@)
                    &&& ws@[i2].table() == old_table.subrange(offset(counts@, i2) as int, offset(counts@, i2) + counts@[i2])
                },
            decreases counts@.len() - i,
        {
            let n = counts[i];
            proof {
                assert(counts@.take(i + 1).drop_last() =~= counts@.take(i as int));
                assert(offset(counts@, i + 1) == offset(counts@, i as int) + counts@[i as int]);
                lemma_offset_mono(counts@, i + 1, counts@.len() as int);
                assert(counts@.take(counts@.len() as int) =~= counts@);
            }
            let mut slabs: Vec<AnyArray> = Vec::new();
            let mut b: usize = 0;
            while b < self.buffers.len()
                invariant
                    b <= self.buffers@.len(),
                    self.buffers@.len() == old_self.buffers@.len(),
                    n <= self.nrows,
                    n == counts@[i as int],
                    slabs@.len() == b,
                    self.schema == old_self.schema,
                    self.supported == old_self.supported,
                    self.column_buffer_index == old_self.column_buffer_index,
                    self.nrows == old_self.nrows - offset(counts@, i as int),
                    forall|b2: int| 0 <= b2 < b ==> {
                        &&& (#[trigger] slabs@[b2]).wf()
                        &&& slabs@[b2].spec_dtype() == old_self.buffers@[b2].spec_dtype()
                        &&& slabs@[b2].spec_ncols() == old_self.buffers@[b2].spec_ncols()
                        &&& slabs@[b2].spec_nrows() == n
                        &&& slabs@[b2].rows() == old_self.buffers@[b2].rows().skip(offset(counts@, i as int) as int).take(n as int)
                        &&& self.buffers@[b2].wf()
                        &&& self.buffers@[b2].spec_dtype() == old_self.buffers@[b2].spec_dtype()
                        &&& self.buffers@[b2].spec_ncols() == old_self.buffers@[b2].spec_ncols()
                        &&& self.buffers@[b2].spec_nrows() == self.nrows - n
                        &&& self.buffers@[b2].rows() == old_self.buffers@[b2].rows().skip(offset(counts@, i as int) as int).skip(n as int)
                    },
                    forall|b2: int| b <= b2 < self.buffers@.len() ==> {
                        &&& (#[trigger] self.buffers@[b2]).wf()
                        &&& self.buffers@[b2].spec_dtype() == old_self.buffers@[b2].spec_dtype()
                        &&& self.buffers@[b2].spec_ncols() == old_self.buffers@[b2].spec_ncols()
                        &&& self.buffers@[b2].spec_nrows() == self.nrows
                        &&& self.buffers@[b2].rows() == old_self.buffers@[b2].rows().skip(offset(counts@, i as int) as int)
                    },
                decreases self.buffers@.len() - b,
            {
                let head = self.buffers[b].split_rows(n);
                slabs.push(head);
                b += 1;
            }
            assert(self.schema == old_self.schema);
            assert(self.column_buffer_index == old_self.column_buffer_index);
            let w = MemoryPartitionWriter {
                nrows: n,
                buffers: slabs,
                schema: copy_vec(&self.schema),
                column_buffer_index: copy_vec(&self.column_buffer_index),
            };
            self.nrows = self.nrows - n;
            proof {
                let off = offset(counts@, i as int) as int;
                assert(w.schema@ =~= old_self.schema@);
                assert(w.column_buffer_index@ =~= old_self.column_buffer_index@);
                assert forall|b2: int| 0 <= b2 < self.buffers@.len() implies {
                    &&& (#[trigger] self.buffers@[b2]).wf()
                    &&& self.buffers@[b2].spec_dtype() == old_self.buffers@[b2].spec_dtype()
                    &&& self.buffers@[b2].spec_ncols() == old_self.buffers@[b2].spec_ncols()
                    &&& self.buffers@[b2].spec_nrows() == self.nrows
                    &&& self.buffers@[b2].rows() == old_self.buffers@[b2].rows().skip(offset(counts@, i + 1) as int)
                } by {
                    assert(old_self.wf());
                    assert(w.buffers@[b2].wf());
                    assert(old_self.buffers@[b2].wf());
                    assert(old_self.buffers@[b2].rows().len() == old_self.nrows);
                    assert(old_self.buffers@[b2].rows().skip(off).skip(n as int) =~= old_self.buffers@[b2].rows().skip(off + n));
                }
                assert(old_self.wf());
                assert forall|c: int| 0 <= c < w.schema@.len() implies #[trigger] w.buffers@[w.column_buffer_index@[c].0 as int].spec_dtype() == w.schema@[c]
                    && w.buffers@[w.column_buffer_index@[c].0 as int].spec_ncols() == count_tag(w.schema@, w.schema@[c]) by {
                    lemma_slot_exists(old_self.schema@, c);
                    let bb = old_self.column_buffer_index@[c].0 as int;
                    assert(old_self.buffers@[bb].spec_dtype() == old_self.schema@[c]);
                    assert(slabs_dtype_ok(w.buffers@, old_self.buffers@, bb));
                }
                assert(w.wf());
                assert forall|b2: int| 0 <= b2 < w.buffers@.len() implies #[trigger] layout_of(w.buffers@)[b2] == layout_of(old_self.buffers@)[b2] by {
                    assert(slabs_dtype_ok(w.buffers@, old_self.buffers@, b2));
                }
                assert(w.layout() =~= layout_of(old_self.buffers@));
                let wt = w.table();
                let want = old_table.subrange(off, off + n);
                assert forall|r: int| 0 <= r < n implies #[trigger] wt[r] =~= want[r] by {
                    assert forall|c: int| 0 <= c < old_self.schema@.len() implies wt[r][c] == want[r][c] by {
                        lemma_slot_exists(old_self.schema@, c);
                        let bb = old_self.column_buffer_index@[c].0 as int;
                        assert(old_self.buffers@[bb].rows().skip(off).take(n as int)[r] == old_self.buffers@[bb].rows()[off + r]);
                    }
                }
                assert(wt =~= want);
            }
            ws.push(w);
            i += 1;
        }
        proof {
            assert(counts@.take(counts@.len() as int) =~= counts@);
            lemma_layout_same_shapes(self.nrows as nat, self.schema@, old_self.buffers@, self.buffers@, self.column_buffer_index@);
            assert(self.table() =~= Seq::empty());
        }
        ws
    }

    fn absorb(&mut self, ws: Vec<MemoryPartitionWriter>) {
        let ghost old_self = *self;
        let ghost all = ws@;
        let mut ws = ws;
        let total = ws.len();
        let mut i: usize = 0;
        while ws.len() > 0
            invariant
                i + ws@.len() == all.len(),
                total == all.len(),
                ws@ == all.skip(i as int),
                forall|i2: int| 0 <= i2 < all.len() ==> {
                    &&& (#[trigger] all[i2]).inv()
                    &&& all[i2].spec_schema() == old_self.schema@
                    &&& all[i2].layout() == layout_of(old_self.buffers@)
                },
                old_self.table().len() + concat_tables(all).len() <= usize::MAX,
                self.wf(),
                self.schema == old_self.schema,
                self.supported == old_self.supported,
                self.column_buffer_index == old_self.column_buffer_index,
                layout_of(self.buffers@) == layout_of(old_self.buffers@),
                self.table() == old_self.table() + concat_tables(all.take(i as int)),
            decreases ws@.len(),
        {
            let w = ws.remove(0);
            proof {
                assert(all.take(i + 1).drop_last() =~= all.take(i as int));
                assert(all.take(i + 1).last() == w);
                lemma_concat_prefix_len(all, i + 1);
            }
            self.take_rows(w);
            i += 1;
        }
        proof {
            assert(all.take(all.len() as int) =~= all);
        }
    }

    fn schema(&self) -> (s: &[DataType]) {
        self.schema.as_slice()
    }
}

proof fn lemma_layout_same_shapes(
    nrows: nat,
    schema: Seq<DataType>,
    old_bufs: Seq<AnyArray>,
    new_bufs: Seq<AnyArray>,
    index: Seq<(usize, usize)>,
)
    requires
                exists|n: nat| layout_wf(n, schema, old_bufs, index),
        new_bufs.len() == old_bufs.len(),
        forall|b: int| 0 <= b < new_bufs.len() ==> {
            &&& (#[trigger] new_bufs[b]).wf()
            &&& new_bufs[b].spec_nrows() == nrows
            &&& new_bufs[b].spec_dtype() == old_bufs[b].spec_dtype()
            &&& new_bufs[b].spec_ncols() == old_bufs[b].spec_ncols()
        },
    ensures
        layout_wf(nrows, schema, new_bufs, index),
        layout_of(new_bufs) == layout_of(old_bufs),
{
    let n = choose|n: nat| layout_wf(n, schema, old_bufs, index);
    assert forall|c: int| 0 <= c < schema.len() implies #[trigger] new_bufs[index[c].0 as int].spec_dtype() == schema[c]
        && new_bufs[index[c].0 as int].spec_ncols() == count_tag(schema, schema[c]) by {
        lemma_slot_exists(schema, c);
        assert(old_bufs[index[c].0 as int].spec_dtype() == schema[c]);
    }
    assert(layout_of(new_bufs) =~= layout_of(old_bufs));
}

spec fn slabs_dtype_ok(slabs: Seq<AnyArray>, buffers: Seq<AnyArray>, b: int) -> bool {
    slabs[b].spec_dtype() == buffers[b].spec_dtype() && slabs[b].spec_ncols() == buffers[b].spec_ncols()
}

pub proof fn lemma_offset_mono(counts: Seq<usize>, i: int, j: int)
    requires
        0 <= i <= j <= counts.len(),
    ensures
        offset(counts, i) <= offset(counts, j),
    decreases j - i,
{
    if i < j {
        assert(counts.take(j).drop_last() =~= counts.take(j - 1));
        lemma_offset_mono(counts, i, j - 1);
    }
}

proof fn lemma_concat_prefix_len(ws: Seq<MemoryPartitionWriter>, i: int)
    requires
        0 <= i <= ws.len(),
    ensures
        concat_tables(ws.take(i)).len() <= concat_tables(ws).len(),
    decreases ws.len() - i,
{
    if i < ws.len() {
        lemma_concat_prefix_len(ws, i + 1);
        assert(ws.take(i + 1).drop_last() =~= ws.take(i));
    } else {
        assert(ws.take(i) =~= ws);
    }
}

impl MemoryWriter {
    /// Appends the rows of one partition writer below the rows held.
    #[verifier::loop_isolation(false)]
    fn take_rows(&mut self, w: MemoryPartitionWriter)
        requires
            old(self).wf(),
            w.inv(),
            w.spec_schema() == old(self).schema@,
            w.layout() == layout_of(old(self).buffers@),
            old(self).table().len() + w.table().len() <= usize::MAX,
        ensures
            final(self).wf(),
            final(self).schema == old(self).schema,
            final(self).supported == old(self).supported,
            final(self).column_buffer_index == old(self).column_buffer_index,
            layout_of(final(self).buffers@) == layout_of(old(self).buffers@),
            final(self).table() == old(self).table() + w.table(),
    {
        let ghost old_self = *self;
        let MemoryPartitionWriter { nrows, buffers, schema: _, column_buffer_index: _ } = w;
        let mut slabs = buffers;
        let ghost all = slabs@;
        let total = slabs.len();
        let mut b: usize = 0;
        proof {
            assert(layout_of(all).len() == layout_of(old_self.buffers@).len());
            assert(w.wf());
            assert(w.table().len() == nrows);
        }
        while slabs.len() > 0
            invariant
                b + slabs@.len() == all.len(),
                total == all.len(),
                all.len() == old_self.buffers@.len(),
                slabs@ == all.skip(b as int),
                forall|b2: int| 0 <= b2 < all.len() ==> (#[trigger] all[b2]).wf() && all[b2].spec_nrows() == nrows,
                layout_of(all) == layout_of(old_self.buffers@),
                old_self.nrows + nrows <= usize::MAX,
                self.buffers@.len() == old_self.buffers@.len(),
                forall|b2: int| 0 <= b2 < b ==> {
                    &&& (#[trigger] self.buffers@[b2]).wf()
                    &&& self.buffers@[b2].spec_dtype() == old_self.buffers@[b2].spec_dtype()
                    &&& self.buffers@[b2].spec_ncols() == old_self.buffers@[b2].spec_ncols()
                    &&& self.buffers@[b2].spec_nrows() == old_self.nrows + nrows
                    &&& self.buffers@[b2].rows() == old_self.buffers@[b2].rows() + all[b2].rows()
                },
                forall|b2: int| b <= b2 < self.buffers@.len() ==> #[trigger] self.buffers@[b2] == old_self.buffers@[b2],
                self.schema == old_self.schema,
                self.supported == old_self.supported,
                self.column_buffer_index == old_self.column_buffer_index,
                self.nrows == old_self.nrows,
                old_self.wf(),
            decreases slabs@.len(),
        {
            let slab = slabs.remove(0);
            proof {
                assert(layout_of(all)[b as int] == layout_of(old_self.buffers@)[b as int]);
            }
            self.buffers[b].append_rows(slab);
            b += 1;
        }
        self.nrows = self.nrows + nrows;
        proof {
            lemma_layout_same_shapes(self.nrows as nat, self.schema@, old_self.buffers@, self.buffers@, self.column_buffer_index@);
            assert(self.wf());
            let t = self.table();
            let want = old_self.table() + w.table();
            assert forall|r: int| 0 <= r < t.len() implies #[trigger] t[r] =~= want[r] by {
                assert forall|c: int| 0 <= c < old_self.schema@.len() implies t[r][c] == want[r][c] by {
                    lemma_slot_exists(old_self.schema@, c);
                }
            }
            assert(t =~= want);
        }
    }

    /// The blocks follow the schema: one per tag that occurs, in the order of
    /// the tags, each as wide as its tag has columns, each column stored in
    /// the block of its own tag.
    pub proof fn lemma_blocks(&self)
        requires
            self.inv(),
        ensures
            self.blocks().len() == nblocks(self.spec_schema()),
            forall|c: int|
                0 <= c < self.spec_schema().len() ==> {
                    &&& self.blocks()[(#[trigger] buffer_index(self.spec_schema(), c)).0 as int].spec_dtype()
                        == self.spec_schema()[c]
                    &&& self.blocks()[buffer_index(self.spec_schema(), c).0 as int].spec_ncols()
                        == count_tag(self.spec_schema(), self.spec_schema()[c])
                    &&& self.blocks()[buffer_index(self.spec_schema(), c).0 as int].spec_nrows()
                        == self.table().len()
                },
    {
        assert forall|c: int| 0 <= c < self.spec_schema().len() implies {
            &&& self.blocks()[(#[trigger] buffer_index(self.spec_schema(), c)).0 as int].spec_dtype()
                == self.spec_schema()[c]
            &&& self.blocks()[buffer_index(self.spec_schema(), c).0 as int].spec_ncols()
                == count_tag(self.spec_schema(), self.spec_schema()[c])
            &&& self.blocks()[buffer_index(self.spec_schema(), c).0 as int].spec_nrows()
                == self.table().len()
        } by {
            lemma_slot_exists(self.schema@, c);
            assert(self.buffers@[self.column_buffer_index@[c].0 as int].spec_dtype() == self.schema@[c]);
        }
    }

    /// The tags this destination can hold.
    pub fn supported_types(&self) -> (s: &[DataType])
        ensures
            s@ == self.supported(),
    {
        self.supported.as_slice()
    }

    /// Block `bid`, when its element type is `t`.
    pub fn buffer_view(&self, bid: usize, t: DataType) -> (a: Option<&AnyArray>)
        requires
            self.inv(),
        ensures
            bid < self.blocks().len() && self.blocks()[bid as int].spec_dtype() == t ==> a == Some(&self.blocks()[bid as int]),
            !(bid < self.blocks().len() && self.blocks()[bid as int].spec_dtype() == t) ==> a is None,
    {
        if bid < self.buffers.len() && self.buffers[bid].dtype() == t {
            Some(&self.buffers[bid])
        } else {
            None
        }
    }

    /// The number of blocks.
    pub fn nbuffers(&self) -> (n: usize)
        ensures
            n == self.blocks().len(),
    {
        self.buffers.len()
    }

    /// The cells of column `col`, when its tag is `t`; `None` for another
    /// tag or a column that does not exist.
    #[verifier::loop_isolation(false)]
    pub fn column_view(&self, col: usize, t: DataType) -> (v: Option<Vec<&Value>>)
        requires
            self.inv(),
        ensures
            col < self.spec_schema().len() && self.spec_schema()[col as int] == t ==> (v matches Some(cells) && cells@.len() == self.table().len()
                && forall|r: int| 0 <= r < cells@.len() ==> *#[trigger] cells@[r] == self.table()[r][col as int]),
            !(col < self.spec_schema().len() && self.spec_schema()[col as int] == t) ==> v is None,
    {
        if col >= self.schema.len() || self.schema[col] != t {
            return None;
        }
        let (bid, sid) = self.column_buffer_index(col);
        proof {
            lemma_slot_exists(self.schema@, col as int);
            assert(self.buffers@[self.column_buffer_index@[col as int].0 as int].spec_dtype() == self.schema@[col as int]);
        }
        let block = &self.buffers[bid];
        let mut cells: Vec<&Value> = Vec::new();
        let mut r: usize = 0;
        while r < self.nrows
            invariant
                self.wf(),
                col < self.schema@.len(),
                bid == self.column_buffer_index@[col as int].0,
                sid == self.column_buffer_index@[col as int].1,
                block == &self.buffers@[bid as int],
                r <= self.nrows,
                cells@.len() == r,
                forall|r2: int| 0 <= r2 < r ==> *#[trigger] cells@[r2] == self.table()[r2][col as int],
            decreases self.nrows - r,
        {
            proof {
                assert(self.buffers@[self.column_buffer_index@[col as int].0 as int].spec_dtype() == self.schema@[col as int]);
            assert(self.buffers@[bid as int].spec_ncols() == count_tag(self.schema@, self.schema@[col as int]));
                assert(block.wf());
                assert(block.data@[r as int]@.len() == block.ncols);
            }
            cells.push(&block.data[r][sid]);
            r += 1;
        }
        Some(cells)
    }

    /// The cell at `(row, col)`, or `None` outside the table.
    pub fn cell(&self, row: usize, col: usize) -> (v: Option<&Value>)
        requires
            self.inv(),
        ensures
            row < self.table().len() && col < self.spec_schema().len() ==> v == Some(&self.table()[row as int][col as int]),
            !(row < self.table().len() && col < self.spec_schema().len()) ==> v is None,
    {
        if row >= self.nrows || col >= self.schema.len() {
            return None;
        }
        let (bid, sid) = self.column_buffer_index(col);
        proof {
            lemma_slot_exists(self.schema@, col as int);
        }
        proof {
            assert(self.buffers@[self.column_buffer_index@[col as int].0 as int].spec_dtype() == self.schema@[col as int]);
            assert(self.buffers@[bid as int].spec_ncols() == count_tag(self.schema@, self.schema@[col as int]));
            assert(self.buffers@[bid as int].wf());
            assert(self.buffers@[bid as int].data@[row as int]@.len() == self.buffers@[bid as int].ncols);
        }
        Some(&self.buffers[bid].data[row][sid])
    }

    /// The block and the column within it where column `col` is stored.
    pub fn column_buffer_index(&self, col: usize) -> (r: (usize, usize))
        requires
            self.inv(),
            col < self.spec_schema().len(),
        ensures
            r.0 == buffer_index(self.spec_schema(), col as int).0,
            r.1 == buffer_index(self.spec_schema(), col as int).1,
    {
        self.column_buffer_index[col]
    }
}

/// The writer of one row slab of a `MemoryWriter`: it owns that slab of every
/// block until the destination takes it back.
pub struct MemoryPartitionWriter {
    nrows: usize,
    buffers: Vec<AnyArray>,
    schema: Vec<DataType>,
    column_buffer_index: Vec<(usize, usize)>,
}

impl MemoryPartitionWriter {
    pub closed spec fn wf(&self) -> bool {
        layout_wf(self.nrows as nat, self.schema@, self.buffers@, self.column_buffer_index@)
    }
}

impl PartitionWriter for MemoryPartitionWriter {
    closed spec fn inv(&self) -> bool {
        self.wf()
    }

    closed spec fn spec_schema(&self) -> Seq<DataType> {
        self.schema@
    }

    closed spec fn table(&self) -> Seq<Seq<Value>> {
        table_of(self.nrows as nat, self.schema@.len(), self.buffers@, self.column_buffer_index@)
    }

    closed spec fn layout(&self) -> Seq<(DataType, nat)> {
        layout_of(self.buffers@)
    }

    proof fn lemma_table_shape(&self) {
        lemma_table_shape_of(self.nrows as nat, self.schema@, self.buffers@, self.column_buffer_index@);
    }

    fn nrows(&self) -> (n: usize) {
        self.nrows
    }

    fn ncols(&self) -> (n: usize) {
        self.schema.len()
    }
}

impl Consume for MemoryPartitionWriter {
    fn consume(&mut self, row: usize, col: usize, value: Value) {
        let ghost old_self = *self;
        let ghost old_table = self.table();
        let (bid, sid) = self.column_buffer_index[col];
        proof {
            lemma_slot_exists(self.schema@, col as int);
        }
        self.buffers[bid].set(row, sid, value);
        proof {
            assert forall|b: int| 0 <= b < self.buffers@.len() implies {
                &&& (#[trigger] self.buffers@[b]).wf()
                &&& self.buffers@[b].spec_nrows() == self.nrows
                &&& self.buffers@[b].spec_dtype() == old_self.buffers@[b].spec_dtype()
                &&& self.buffers@[b].spec_ncols() == old_self.buffers@[b].spec_ncols()
            } by {
                if b != bid {
                    assert(self.buffers@[b] == old_self.buffers@[b]);
                }
            }
            lemma_layout_same_shapes(self.nrows as nat, self.schema@, old_self.buffers@, self.buffers@, self.column_buffer_index@);
            assert(self.wf());
            assert(self.layout() =~= old_self.layout());
            let t = self.table();
            let want = old_table.update(row as int, old_table[row as int].update(col as int, value));
            assert forall|r: int| 0 <= r < t.len() implies #[trigger] t[r] =~= want[r] by {
                assert forall|c: int| 0 <= c < self.schema@.len() implies t[r][c] == want[r][c] by {
                    lemma_slot_exists(self.schema@, c);
                    if c != col {
                        lemma_index_injective(self.schema@, c, col as int);
                        let (b2, j2) = self.column_buffer_index@[c];
                        if b2 == bid {
                            assert(j2 != sid);
                        } else {
                            assert(self.buffers@[b2 as int] == old_self.buffers@[b2 as int]);
                        }
                    }
                }
            }
            assert(t =~= want);
        }
    }

    fn consume_checked(&mut self, row: usize, col: usize, value: Value) -> (r: Result<
        (),
        ConnectorAgentError,
    >) {
        if col >= self.schema.len() {
            return Err(ConnectorAgentError::OutOfBound);
        }
        let t = value.data_type();
        if t != self.schema[col] {
            return Err(ConnectorAgentError::UnexpectedType(self.schema[col], t.native_name()));
        }
        if row >= self.nrows {
            return Err(ConnectorAgentError::OutOfBound);
        }
        self.consume(row, col, value);
        Ok(())
    }
}

} // verus!
