use crate::writers::{offset, sum};
use vstd::prelude::*;

verus! {

/// The default flush threshold of a string column, in MiB.
pub const BUF_SIZE_MB: usize = 16;

/// The bytes of each slot.
pub open spec fn slots_view(data: Seq<Option<Vec<u8>>>) -> Seq<Option<Seq<u8>>> {
    data.map_values(
        |o: Option<Vec<u8>>|
            match o {
                Some(v) => Some(v@),
                None => None,
            },
    )
}

/// The strings waiting in a buffer: string `i` takes `lengths[i]` bytes
/// after those of the strings before it, or is a null where `nulls[i]`.
pub open spec fn pending_strings(buf: Seq<u8>, lengths: Seq<usize>, nulls: Seq<bool>) -> Seq<
    Option<Seq<u8>>,
> {
    Seq::new(
        lengths.len(),
        |i: int|
            if nulls[i] {
                None
            } else {
                Some(buf.subrange(offset(lengths, i) as int, offset(lengths, i) + lengths[i]))
            },
    )
}

/// The slots once the strings `strs` are stored from slot `start` on; a
/// null leaves its slot as it was.
pub open spec fn stored(
    data: Seq<Option<Seq<u8>>>,
    start: nat,
    strs: Seq<Option<Seq<u8>>>,
) -> Seq<Option<Seq<u8>>> {
    Seq::new(
        data.len(),
        |i: int|
            if start <= i < start + strs.len() && strs[i - start] is Some {
                strs[i - start]
            } else {
                data[i]
            },
    )
}

/// The string columns of one object block, one after the other.
pub struct StringBlock {
    data: Vec<Vec<Option<Vec<u8>>>>,
    buf_size_mb: usize,
}

impl StringBlock {
    pub closed spec fn columns(&self) -> Seq<Seq<Option<Seq<u8>>>> {
        self.data@.map_values(|c: Vec<Option<Vec<u8>>>| slots_view(c@))
    }

    pub closed spec fn wf(&self) -> bool {
        self.buf_size_mb == BUF_SIZE_MB
    }

    /// A block over the given columns, with the default flush threshold.
    pub fn new(data: Vec<Vec<Option<Vec<u8>>>>) -> (b: StringBlock)
        ensures
            b.wf(),
            b.columns() == data@.map_values(|c: Vec<Option<Vec<u8>>>| slots_view(c@)),
    {
        StringBlock { data, buf_size_mb: BUF_SIZE_MB }
    }

    /// One string column per column of the block, each empty of pending
    /// strings, each flushing at the block's threshold.
    pub fn split(self) -> (ret: Vec<StringColumn>)
        requires
            self.wf(),
        ensures
            ret@.len() == self.columns().len(),
            forall|i: int|
                0 <= i < ret@.len() ==> {
                    &&& (#[trigger] ret@[i]).inv()
                    &&& ret@[i].contents() == self.columns()[i]
                    &&& ret@[i].written() == 0
                    &&& ret@[i].spec_buf_size() == BUF_SIZE_MB * 1048576
                },
    {
        let ghost cols = self.columns();
        let StringBlock { data, buf_size_mb } = self;
        let mut data = data;
        let ghost all = data@;
        let buf_size = buf_size_mb * 1048576;
        let mut ret: Vec<StringColumn> = Vec::new();
        let total = data.len();
        let mut i: usize = 0;
        while i < total
            invariant
                total == all.len(),
                i <= total,
                data@ == all.skip(i as int),
                cols == all.map_values(|c: Vec<Option<Vec<u8>>>| slots_view(c@)),
                buf_size == BUF_SIZE_MB * 1048576,
                ret@.len() == i,
                forall|j: int|
                    0 <= j < i ==> {
                        &&& (#[trigger] ret@[j]).inv()
                        &&& ret@[j].contents() == cols[j]
                        &&& ret@[j].written() == 0
                        &&& ret@[j].spec_buf_size() == buf_size
                    },
            decreases total - i,
        {
            proof {
                assert(all.skip(i as int)[0] == all[i as int]);
                assert(all.skip(i as int).drop_first() =~= all.skip(i + 1));
            }
            let col = data.remove(0);
            let c = StringColumn {
                data: col,
                next_write: 0,
                string_buf: Vec::new(),
                string_lengths: Vec::new(),
                string_nulls: Vec::new(),
                buf_size,
            };
            proof {
                assert(pending_strings(c.string_buf@, c.string_lengths@, c.string_nulls@) =~= Seq::empty());
                assert(c.contents() =~= cols[i as int]);
            }
            ret.push(c);
            i += 1;
        }
        ret
    }
}

/// One string column of a dataframe under construction. Strings are
/// gathered in a byte buffer, with a table of their lengths, and stored in
/// the column's slots when the buffer reaches its threshold or when the
/// column is flushed.
pub struct StringColumn {
    data: Vec<Option<Vec<u8>>>,
    next_write: usize,
    string_buf: Vec<u8>,
    string_lengths: Vec<usize>,
    string_nulls: Vec<bool>,
    buf_size: usize,
}

impl StringColumn {
    /// The buffer splits into the pending strings, which fit in the slots
    /// after those already stored.
    pub closed spec fn inv(&self) -> bool {
        &&& sum(self.string_lengths@) == self.string_buf@.len()
        &&& self.string_nulls@.len() == self.string_lengths@.len()
        &&& self.next_write + self.string_lengths@.len() <= self.data@.len()
        &&& self.buf_size > 0
        &&& self.string_buf@.len() < self.buf_size
    }

    /// The buffer splits into the pending strings, which fit in the slots
    /// after those already stored; the buffer may have reached its threshold.
    pub closed spec fn consistent(&self) -> bool {
        &&& sum(self.string_lengths@) == self.string_buf@.len()
        &&& self.string_nulls@.len() == self.string_lengths@.len()
        &&& self.next_write + self.string_lengths@.len() <= self.data@.len()
        &&& self.buf_size > 0
    }

    /// The column as it reads once every pending string is stored.
    pub closed spec fn contents(&self) -> Seq<Option<Seq<u8>>> {
        stored(
            slots_view(self.data@),
            self.next_write as nat,
            pending_strings(self.string_buf@, self.string_lengths@, self.string_nulls@),
        )
    }

    /// The slots as they are stored now.
    pub closed spec fn slots(&self) -> Seq<Option<Seq<u8>>> {
        slots_view(self.data@)
    }

    /// The number of strings written, stored or pending.
    pub closed spec fn written(&self) -> nat {
        (self.next_write + self.string_lengths@.len()) as nat
    }

    /// The number of pending strings.
    pub closed spec fn npending(&self) -> nat {
        self.string_lengths@.len()
    }

    pub closed spec fn spec_buf_size(&self) -> nat {
        self.buf_size as nat
    }

    /// The number of bytes waiting in the buffer.
    pub closed spec fn buffered(&self) -> nat {
        self.string_buf@.len()
    }

    /// A column in its resting state may be flushed, and reads as many
    /// slots as it holds.
    pub proof fn lemma_inv(&self)
        requires
            self.inv(),
        ensures
            self.consistent(),
            self.slots().len() == self.contents().len(),
    {
    }

    /// Slot `i` as it is stored now.
    pub fn slot(&self, i: usize) -> (r: &Option<Vec<u8>>)
        requires
            i < self.slots().len(),
        ensures
            slots_view(seq![*r]) == seq![self.slots()[i as int]],
    {
        proof {
            assert(slots_view(seq![self.data@[i as int]]) =~= seq![self.slots()[i as int]]);
        }
        &self.data[i]
    }

    /// The number of slots.
    pub fn len(&self) -> (n: usize)
        ensures
            n == self.contents().len(),
    {
        self.data.len()
    }

    /// Stores every pending string in its slot; a null leaves its
    /// slot untouched.
    pub fn flush(&mut self)
        requires
            old(self).consistent(),
        ensures
            final(self).inv(),
            final(self).contents() == old(self).contents(),
            final(self).slots() == old(self).contents(),
            final(self).written() == old(self).written(),
            final(self).npending() == 0,
            final(self).spec_buf_size() == old(self).spec_buf_size(),
    {
        let ghost pend = pending_strings(self.string_buf@, self.string_lengths@, self.string_nulls@);
        let ghost data0 = slots_view(self.data@);
        let ghost target = self.contents();
        let nstrings = self.string_lengths.len();
        let cap = self.data.len();
        let buflen = self.string_buf.len();
        let mut start: usize = 0;
        let mut i: usize = 0;
        while i < nstrings
            invariant
                nstrings == self.string_lengths@.len(),
                pend == pending_strings(self.string_buf@, self.string_lengths@, self.string_nulls@),
                sum(self.string_lengths@) == self.string_buf@.len(),
                self.next_write + nstrings <= self.data@.len(),
                target == stored(data0, self.next_write as nat, pend),
                i <= nstrings,
                start == offset(self.string_lengths@, i as int),
                start <= self.string_buf@.len(),
                slots_view(self.data@) == stored(data0, self.next_write as nat, pend.take(i as int)),
                self.next_write == old(self).next_write,
                self.buf_size == old(self).buf_size,
                self.string_buf == old(self).string_buf,
                self.string_lengths == old(self).string_lengths,
                self.string_nulls == old(self).string_nulls,
                old(self).consistent(),
                cap == self.data@.len(),
                buflen == self.string_buf@.len(),
                data0 == slots_view(old(self).data@),
                target == old(self).contents(),
            decreases nstrings - i,
        {
            let len = self.string_lengths[i];
            proof {
                assert(self.string_lengths@.take(i + 1).drop_last() =~= self.string_lengths@.take(i as int));
                crate::writers::mixed::lemma_offset_mono(self.string_lengths@, i + 1, nstrings as int);
                assert(self.string_lengths@.take(nstrings as int) =~= self.string_lengths@);
                assert(offset(self.string_lengths@, i + 1) == start + len);
            }
            let end = start + len;
            if !self.string_nulls[i] {
                let mut bytes: Vec<u8> = Vec::new();
                let mut j: usize = start;
                while j < end
                    invariant
                        start <= j <= end,
                        end <= self.string_buf@.len(),
                        bytes@ == self.string_buf@.subrange(start as int, j as int),
                    decreases end - j,
                {
                    bytes.push(self.string_buf[j]);
                    j += 1;
                    assert(bytes@ =~= self.string_buf@.subrange(start as int, j as int));
                }
                let ghost before = slots_view(self.data@);
                self.data.set(self.next_write + i, Some(bytes));
                proof {
                    assert(pend[i as int] == Some(bytes@));
                    assert(slots_view(self.data@) =~= before.update(self.next_write + i, Some(bytes@)));
                }
            }
            proof {
                if self.string_nulls@[i as int] {
                    assert(pend[i as int] is None);
                }
                assert(slots_view(self.data@) =~= stored(data0, self.next_write as nat, pend.take(i + 1)));
            }
            start = end;
            i += 1;
        }
        proof {
            assert(pend.take(nstrings as int) =~= pend);
        }
        self.string_lengths.clear();
        self.string_nulls.clear();
        self.string_buf.clear();
        self.next_write = self.next_write + nstrings;
        proof {
            assert(pending_strings(self.string_buf@, self.string_lengths@, self.string_nulls@) =~= Seq::empty());
            assert(self.contents() =~= target);
            assert(self.slots() =~= target);
        }
    }

    /// Flushes when the buffer has reached its threshold; otherwise leaves
    /// the column as it is.
    pub fn try_flush(&mut self)
        requires
            old(self).consistent(),
        ensures
            final(self).inv(),
            old(self).buffered() >= old(self).spec_buf_size() ==> final(self).npending() == 0
                && final(self).slots() == old(self).contents(),
            old(self).buffered() < old(self).spec_buf_size() ==> *final(self) == *old(self),
            final(self).contents() == old(self).contents(),
            final(self).written() == old(self).written(),
            final(self).spec_buf_size() == old(self).spec_buf_size(),
    {
        if self.string_buf.len() >= self.buf_size {
            self.flush();
        }
    }

    /// Appends a string, the empty string included.
    pub fn write(&mut self, val: Vec<u8>)
        requires
            old(self).inv(),
            old(self).written() < old(self).contents().len(),
            val@.len() + old(self).spec_buf_size() <= usize::MAX,
        ensures
            final(self).inv(),
            final(self).written() == old(self).written() + 1,
            final(self).contents() == old(self).contents().update(
                old(self).written() as int,
                Some(val@),
            ),
            final(self).spec_buf_size() == old(self).spec_buf_size(),
    {
        self.push_pending(val, false);
        self.try_flush();
    }

    /// Appends a nullable string; a null leaves its slot empty.
    pub fn write_opt(&mut self, val: Option<Vec<u8>>)
        requires
            old(self).inv(),
            old(self).written() < old(self).contents().len(),
            val matches Some(v) ==> v@.len() + old(self).spec_buf_size() <= usize::MAX,
        ensures
            final(self).inv(),
            final(self).written() == old(self).written() + 1,
            val matches Some(v) ==> final(self).contents() == old(self).contents().update(
                old(self).written() as int,
                Some(v@),
            ),
            val is None ==> final(self).contents() == old(self).contents(),
            final(self).spec_buf_size() == old(self).spec_buf_size(),
    {
        match val {
            Some(b) => {
                self.write(b);
            },
            None => {
                self.push_pending(Vec::new(), true);
            },
        }
    }

    fn push_pending(&mut self, val: Vec<u8>, null: bool)
        requires
            old(self).inv(),
            old(self).written() < old(self).contents().len(),
            val@.len() + old(self).spec_buf_size() <= usize::MAX,
            null ==> val@.len() == 0,
        ensures
            final(self).consistent(),
            final(self).buf_size == old(self).buf_size,
            final(self).string_buf@.len() <= old(self).string_buf@.len() + val@.len(),
            final(self).written() == old(self).written() + 1,
            !null ==> final(self).contents() == old(self).contents().update(
                old(self).written() as int,
                Some(val@),
            ),
            null ==> final(self).contents() == old(self).contents(),
            null ==> final(self).inv(),
    {
        let ghost old_self = *self;
        let ghost old_pend = pending_strings(self.string_buf@, self.string_lengths@, self.string_nulls@);
        let mut val = val;
        let ghost v = val@;
        let n = val.len();
        self.string_lengths.push(n);
        self.string_nulls.push(null);
        self.string_buf.append(&mut val);
        proof {
            let l = self.string_lengths@;
            assert(l.drop_last() =~= old_self.string_lengths@);
            let nl = self.string_nulls@;
            assert(nl.drop_last() =~= old_self.string_nulls@);
            let pend = pending_strings(self.string_buf@, l, nl);
            let ol = old_self.string_lengths@;
            assert forall|i: int| 0 <= i < old_pend.len() implies pend[i] == old_pend[i] by {
                assert(l.take(i) =~= ol.take(i));
                assert(ol.take(i + 1).drop_last() =~= ol.take(i));
                assert(offset(ol, i + 1) == offset(ol, i) + ol[i]);
                crate::writers::mixed::lemma_offset_mono(old_self.string_lengths@, i + 1, old_pend.len() as int);
                assert(old_self.string_lengths@.take(old_pend.len() as int) =~= old_self.string_lengths@);
                assert(pend[i] =~= old_pend[i]);
            }
            assert(l.take(old_pend.len() as int) =~= old_self.string_lengths@);
            assert(offset(l, old_pend.len() as int) == old_self.string_buf@.len());
            assert(self.string_buf@ == old_self.string_buf@ + v);
            assert(self.string_buf@.subrange(old_self.string_buf@.len() as int, self.string_buf@.len() as int) =~= v);
            let last = if null { None } else { Some(v) };
            assert(pend =~= old_pend.push(last));
            if null {
                assert(self.contents() =~= old_self.contents());
            } else {
                assert(self.contents() =~= old_self.contents().update(
                    old_self.next_write + old_pend.len(),
                    Some(v),
                ));
            }
        }
    }

    /// One column per count: column `i` holds the `counts[i]` slots that
    /// follow those of the columns before it, with nothing pending.
    pub fn partition(self, counts: &[usize]) -> (parts: Vec<StringColumn>)
        requires
            self.inv(),
            sum(counts@) <= self.contents().len(),
        ensures
            parts@.len() == counts@.len(),
            forall|i: int|
                0 <= i < parts@.len() ==> {
                    &&& (#[trigger] parts@[i]).inv()
                    &&& parts@[i].written() == 0
                    &&& parts@[i].spec_buf_size() == self.spec_buf_size()
                    &&& parts@[i].contents().len() == counts@[i]
                    &&& parts@[i].contents() == self.slots().subrange(
                        offset(counts@, i) as int,
                        offset(counts@, i) + counts@[i],
                    )
                },
    {
        let ghost slots0 = self.slots();
        let StringColumn { data, next_write: _, string_buf: _, string_lengths: _, string_nulls: _, buf_size } = self;
        let mut data = data;
        let mut parts: Vec<StringColumn> = Vec::new();
        let mut i: usize = 0;
        while i < counts.len()
            invariant
                i <= counts@.len(),
                sum(counts@) <= slots0.len(),
                buf_size > 0,
                offset(counts@, i as int) <= slots0.len(),
                slots_view(data@) == slots0.skip(offset(counts@, i as int) as int),
                parts@.len() == i,
                forall|j: int|
                    0 <= j < i ==> {
                        &&& (#[trigger] parts@[j]).inv()
                        &&& parts@[j].written() == 0
                        &&& parts@[j].spec_buf_size() == buf_size
                        &&& parts@[j].contents().len() == counts@[j]
                        &&& parts@[j].contents() == slots0.subrange(
                            offset(counts@, j) as int,
                            offset(counts@, j) + counts@[j],
                        )
                    },
            decreases counts@.len() - i,
        {
            let c = counts[i];
            proof {
                assert(counts@.take(i + 1).drop_last() =~= counts@.take(i as int));
                crate::writers::mixed::lemma_offset_mono(counts@, i + 1, counts@.len() as int);
                assert(counts@.take(counts@.len() as int) =~= counts@);
            }
            let ghost off = offset(counts@, i as int) as int;
            let ghost before = data@;
            assert(slots_view(data@).len() == data@.len());
            assert(data@.len() == slots0.len() - off);
            let mut head = data.split_off(c);
            std::mem::swap(&mut head, &mut data);
            let part = StringColumn {
                data: head,
                next_write: 0,
                string_buf: Vec::new(),
                string_lengths: Vec::new(),
                string_nulls: Vec::new(),
                buf_size,
            };
            proof {
                assert(pending_strings(part.string_buf@, part.string_lengths@, part.string_nulls@) =~= Seq::empty());
                assert(part.data@ =~= before.subrange(0, c as int));
                assert(slots_view(part.data@) =~= slots0.subrange(off, off + c));
                assert(part.contents() =~= slots0.subrange(off, off + c));
                assert(part.contents().len() == c);
                assert(data@ =~= before.subrange(c as int, before.len() as int));
                assert(slots_view(data@) =~= slots_view(before).skip(c as int));
                assert(slots_view(before).skip(c as int) =~= slots0.skip(off + c));
                assert(slots_view(data@) =~= slots0.skip(off + c));
            }
            parts.push(part);
            i += 1;
        }
        parts
    }
}

} // verus!
