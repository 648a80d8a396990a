use vstd::prelude::*;

verus! {

use vstd::math::min;
use vstd::seq_lib::lemma_flatten_concat;

/// A block of memory used for I/O: a byte buffer together with a position
/// that marks how far sequential reads and writes have advanced.
#[derive(Debug, Clone)]
pub struct Block {
    data: Vec<u8>,
    position: usize,
}

impl Block {
    /// The bytes the block holds.
    pub closed spec fn bytes(self) -> Seq<u8> {
        self.data@
    }

    /// The current position inside the block.
    pub closed spec fn pos(self) -> int {
        self.position as int
    }

    /// A block is well formed when its position lies inside its bytes.
    /// Every constructor establishes this and every method keeps it.
    pub open spec fn wf(self) -> bool {
        0 <= self.pos() <= self.bytes().len()
    }

    /// Creates a new, empty block.
    pub fn new() -> (r: Self)
        ensures
            r.wf(),
            r.bytes() == Seq::<u8>::empty(),
            r.pos() == 0,
    {
        Block { data: Vec::new(), position: 0 }
    }

    /// Creates a new, empty block; the capacity is only an allocation hint.
    pub fn with_capacity(capacity: usize) -> (r: Self)
        ensures
            r.wf(),
            r.bytes() == Seq::<u8>::empty(),
            r.pos() == 0,
    {
        Block { data: Vec::with_capacity(capacity), position: 0 }
    }

    /// Creates a block holding a copy of the given bytes, positioned at the
    /// start.
    pub fn from_slice(slice: &[u8]) -> (r: Self)
        ensures
            r.wf(),
            r.bytes() == slice@,
            r.pos() == 0,
    {
        Block { data: vstd::slice::slice_to_vec(slice), position: 0 }
    }

    /// The number of bytes the block holds.
    pub fn len(&self) -> (r: usize)
        ensures
            r == self.bytes().len(),
    {
        self.data.len()
    }

    /// Whether the block holds no bytes at all.
    pub fn is_empty(&self) -> (r: bool)
        ensures
            r == (self.bytes().len() == 0),
    {
        self.data.len() == 0
    }

    /// The number of bytes between the current position and the end.
    pub fn remaining(&self) -> (r: usize)
        requires
            self.wf(),
        ensures
            r == self.bytes().len() - self.pos(),
    {
        self.data.len() - self.position
    }

    /// Copies bytes from `from` into this block, from position to position;
    /// as many bytes move as both blocks have remaining, and both positions
    /// advance by that amount.
    pub fn fill_from(&mut self, from: &mut Block) -> (r: usize)
        requires
            old(self).wf(),
            old(from).wf(),
        ensures
            final(self).wf(),
            final(from).wf(),
            r == min(
                old(self).bytes().len() - old(self).pos(),
                old(from).bytes().len() - old(from).pos(),
            ),
            final(self).bytes() == old(self).bytes().take(old(self).pos()) + old(
                from,
            ).bytes().subrange(old(from).pos(), old(from).pos() + r) + old(self).bytes().skip(
                old(self).pos() + r,
            ),
            final(self).pos() == old(self).pos() + r,
            final(from).bytes() == old(from).bytes(),
            final(from).pos() == old(from).pos() + r,
    {
        let self_len = self.data.len();
        let from_len = from.data.len();
        let a = self_len - self.position;
        let b = from_len - from.position;
        let size = if a < b {
            a
        } else {
            b
        };
        let mut i: usize = 0;
        while i < size
            invariant
                i <= size,
                size == min(
                    old(self).bytes().len() - old(self).pos(),
                    old(from).bytes().len() - old(from).pos(),
                ),
                *from == *old(from),
                from.data@.len() == from_len,
                from.position + size <= from_len,
                self.position == old(self).position,
                self.data@.len() == self_len,
                self.position + size <= self_len,
                self.data@.len() == old(self).data@.len(),
                self.data@ =~= old(self).bytes().take(old(self).pos()) + old(
                    from,
                ).bytes().subrange(old(from).pos(), old(from).pos() + i) + old(self).bytes().skip(
                    old(self).pos() + i,
                ),
            decreases size - i,
        {
            let byte = from.data[from.position + i];
            self.data[self.position + i] = byte;
            i += 1;
            proof {
                assert(self.data@ =~= old(self).bytes().take(old(self).pos()) + old(
                    from,
                ).bytes().subrange(old(from).pos(), old(from).pos() + i) + old(self).bytes().skip(
                    old(self).pos() + i,
                ));
            }
        }
        self.position = self.position + size;
        from.position = from.position + size;
        size
    }

    /// Resets the position to the beginning of the block.
    pub fn rewind(&mut self)
        ensures
            final(self).wf(),
            final(self).bytes() == old(self).bytes(),
            final(self).pos() == 0,
    {
        self.position = 0;
    }

    /// The byte at an absolute index, regardless of the position.
    pub fn read_byte_at(&self, i: usize) -> (r: u8)
        requires
            i < self.bytes().len(),
        ensures
            r == self.bytes()[i as int],
    {
        self.data[i]
    }

    /// Moves the position forward by `n` bytes.
    pub fn advance(&mut self, n: usize)
        requires
            old(self).wf(),
            old(self).pos() + n <= old(self).bytes().len(),
        ensures
            final(self).wf(),
            final(self).bytes() == old(self).bytes(),
            final(self).pos() == old(self).pos() + n,
    {
        // The exec length, a usize, bounds the sum for the overflow check.
        let total = self.data.len();
        self.position = self.position + n;
    }

    /// The current position inside the block.
    pub fn position(&self) -> (r: usize)
        ensures
            r == self.pos(),
    {
        self.position
    }

    /// Appends a copy of the given bytes at the end of the block, leaving the
    /// position where it was.
    pub fn extend_from_slice(&mut self, other: &[u8])
        ensures
            final(self).bytes() == old(self).bytes() + other@,
            final(self).pos() == old(self).pos(),
    {
        let mut i: usize = 0;
        while i < other.len()
            invariant
                i <= other@.len(),
                self.position == old(self).position,
                self.data@ =~= old(self).bytes() + other@.take(i as int),
            decreases other@.len() - i,
        {
            let byte = other[i];
            self.data.push(byte);
            i += 1;
            proof {
                assert(self.data@ =~= old(self).bytes() + other@.take(i as int));
            }
        }
        proof {
            assert(self.data@ =~= old(self).bytes() + other@);
        }
    }
}

impl Default for Block {
    /// An empty block at position zero.
    fn default() -> (r: Self)
        ensures
            r.wf(),
            r.bytes() == Seq::<u8>::empty(),
            r.pos() == 0,
    {
        Block::new()
    }
}

impl PartialEq for Block {
    /// Two blocks are equal when they hold the same bytes and stand at the
    /// same position.
    fn eq(&self, other: &Self) -> (r: bool) {
        if self.position != other.position {
            return false;
        }
        if self.data.len() != other.data.len() {
            return false;
        }
        let mut i: usize = 0;
        while i < self.data.len()
            invariant
                i <= self.data@.len(),
                self.data@.len() == other.data@.len(),
                self.position == other.position,
                forall|j: int| 0 <= j < i ==> self.data@[j] == other.data@[j],
            decreases self.data@.len() - i,
        {
            if self.data[i] != other.data[i] {
                return false;
            }
            i += 1;
        }
        proof {
            assert(self.data@ =~= other.data@);
        }
        true
    }
}

impl Eq for Block {

}

impl vstd::std_specs::cmp::PartialEqSpecImpl for Block {
    open spec fn obeys_eq_spec() -> bool {
        true
    }

    open spec fn eq_spec(&self, other: &Block) -> bool {
        self.bytes() == other.bytes() && self.pos() == other.pos()
    }
}

/// An ADB message header.
#[derive(Debug, Clone, PartialEq, Eq)]
pub struct Amessage {
    pub command: u32,
    pub arg0: u32,
    pub arg1: u32,
    pub data_length: u32,
    pub data_check: u32,
    pub magic: u32,
}

/// An ADB packet: a message header and a payload.
#[derive(Debug, Clone)]
pub struct Apacket {
    pub msg: Amessage,
    pub payload: Block,
}

/// The byte contents of a chain of blocks, in order, ignoring positions.
pub open spec fn chain_bytes(blocks: Seq<Block>) -> Seq<u8> {
    blocks.map_values(|b: Block| b.bytes()).flatten()
}

/// A chain splits as its first block's bytes followed by the rest.
proof fn lemma_chain_bytes_first(blocks: Seq<Block>)
    requires
        blocks.len() > 0,
    ensures
        chain_bytes(blocks) == blocks[0].bytes() + chain_bytes(blocks.drop_first()),
{
    let mapped = blocks.map_values(|b: Block| b.bytes());
    assert(mapped.drop_first() =~= blocks.drop_first().map_values(|b: Block| b.bytes()));
    assert(mapped.flatten() == mapped.first() + mapped.drop_first().flatten());
}

/// A chain extended with one block carries that block's bytes at the end.
proof fn lemma_chain_bytes_push(blocks: Seq<Block>, b: Block)
    ensures
        chain_bytes(blocks.push(b)) == chain_bytes(blocks) + b.bytes(),
{
    let mapped = blocks.map_values(|bb: Block| bb.bytes());
    assert(blocks.push(b).map_values(|bb: Block| bb.bytes()) =~= mapped.push(b.bytes()));
    mapped.lemma_flatten_push(b.bytes());
}

/// The bytes of two chains joined are the two chains' bytes joined.
proof fn lemma_chain_bytes_concat(a: Seq<Block>, b: Seq<Block>)
    ensures
        chain_bytes(a + b) == chain_bytes(a) + chain_bytes(b),
{
    let ma = a.map_values(|bb: Block| bb.bytes());
    let mb = b.map_values(|bb: Block| bb.bytes());
    assert((a + b).map_values(|bb: Block| bb.bytes()) =~= ma + mb);
    lemma_flatten_concat(ma, mb);
}

/// A chain of blocks that together represent one contiguous byte buffer,
/// with cheap appends at the back and cheap drops at the front.
#[derive(Debug, Clone)]
pub struct IoVector {
    chain: std::collections::VecDeque<Block>,
    chain_length: usize,
    begin_offset: usize,
}

impl IoVector {
    /// The bytes the vector represents: everything in its blocks, minus the
    /// already-consumed front of the first one.
    pub closed spec fn bytes(self) -> Seq<u8> {
        chain_bytes(self.chain@).skip(self.begin_offset as int)
    }

    /// Well-formedness: the stored length is the represented length, the
    /// front offset lies strictly inside the first block, and no block is
    /// empty. Every constructor establishes this and every method keeps it.
    pub closed spec fn wf(self) -> bool {
        &&& self.chain_length == chain_bytes(self.chain@).len() - self.begin_offset
        &&& (self.chain@.len() == 0 ==> self.begin_offset == 0)
        &&& (self.chain@.len() > 0 ==> self.begin_offset < self.chain@[0].bytes().len())
        &&& forall|i: int|
            0 <= i < self.chain@.len() ==> #[trigger] self.chain@[i].bytes().len() > 0
    }

    /// Creates a new, empty vector.
    pub fn new() -> (r: Self)
        ensures
            r.wf(),
            r.bytes() == Seq::<u8>::empty(),
    {
        proof {
            assert(chain_bytes(Seq::<Block>::empty()) =~= Seq::<u8>::empty());
        }
        IoVector { chain: std::collections::VecDeque::new(), chain_length: 0, begin_offset: 0 }
    }

    /// Appends a block's bytes at the back; an empty block changes nothing,
    /// and the block's position is forgotten.
    pub fn append(&mut self, block: Block)
        requires
            old(self).wf(),
            old(self).bytes().len() + block.bytes().len() <= usize::MAX,
        ensures
            final(self).wf(),
            final(self).bytes() == old(self).bytes() + block.bytes(),
    {
        let mut block = block;
        if block.is_empty() {
            proof {
                assert(self.bytes() =~= old(self).bytes() + block.bytes());
            }
            return ;
        }
        block.rewind();
        proof {
            lemma_chain_bytes_push(self.chain@, block);
        }
        self.chain_length = self.chain_length + block.len();
        self.chain.push_back(block);
        proof {
            assert(self.bytes() =~= old(self).bytes() + block.bytes());
        }
    }

    /// The total number of bytes the vector represents.
    pub fn size(&self) -> (r: usize)
        requires
            self.wf(),
        ensures
            r == self.bytes().len(),
    {
        self.chain_length
    }

    /// Whether the vector represents no bytes.
    pub fn is_empty(&self) -> (r: bool)
        requires
            self.wf(),
        ensures
            r == (self.bytes().len() == 0),
    {
        self.size() == 0
    }

    /// Drops `len` bytes from the front.
    pub fn drop_front(&mut self, len: usize)
        requires
            old(self).wf(),
            len <= old(self).bytes().len(),
        ensures
            final(self).wf(),
            final(self).bytes() == old(self).bytes().skip(len as int),
    {
        if len == 0 {
            proof {
                assert(self.bytes() =~= self.bytes().skip(0));
            }
            return ;
        }
        if len == self.chain_length {
            self.chain.clear();
            self.chain_length = 0;
            self.begin_offset = 0;
            proof {
                assert(chain_bytes(Seq::<Block>::empty()) =~= Seq::<u8>::empty());
                assert(self.bytes() =~= old(self).bytes().skip(len as int));
            }
            return ;
        }
        let mut dropped: usize = 0;
        while dropped < len
            invariant
                self.wf(),
                dropped <= len,
                len <= old(self).bytes().len(),
                len - dropped < self.bytes().len(),
                self.bytes() =~= old(self).bytes().skip(dropped as int),
            decreases len - dropped,
        {
            let ghost dropped0 = dropped as int;
            proof {
                lemma_chain_bytes_first(self.chain@);
            }
            let next = self.chain[0].len() - self.begin_offset;
            if next <= len - dropped {
                let ghost pre = *self;
                let _ = self.chain.pop_front();
                self.chain_length = self.chain_length - next;
                self.begin_offset = 0;
                dropped = dropped + next;
                proof {
                    assert(self.chain@ =~= pre.chain@.drop_first());
                    assert(self.bytes() =~= pre.bytes().skip(next as int));
                    vstd::seq_lib::lemma_seq_skip_of_skip(old(self).bytes(), dropped0, next as int);
                    assert(self.bytes() =~= old(self).bytes().skip(dropped as int));
                }
            } else {
                let taken = len - dropped;
                let ghost pre = *self;
                self.begin_offset = self.begin_offset + taken;
                self.chain_length = self.chain_length - taken;
                proof {
                    assert(self.bytes() =~= pre.bytes().skip(taken as int));
                    vstd::seq_lib::lemma_seq_skip_of_skip(old(self).bytes(), dropped0, taken as int);
                    assert(self.bytes() =~= old(self).bytes().skip(len as int));
                }
                return ;
            }
        }
        proof {
            assert(self.bytes() =~= old(self).bytes().skip(len as int));
        }
    }

    /// Takes the first `len` bytes out of the front and returns them as a
    /// vector of their own; the remainder stays behind.
    pub fn take_front(&mut self, len: usize) -> (r: Self)
        requires
            old(self).wf(),
            len <= old(self).bytes().len(),
        ensures
            r.wf(),
            final(self).wf(),
            r.bytes() == old(self).bytes().take(len as int),
            final(self).bytes() == old(self).bytes().skip(len as int),
    {
        if len == 0 {
            let r = Self::new();
            proof {
                assert(r.bytes() =~= self.bytes().take(0));
                assert(self.bytes() =~= self.bytes().skip(0));
            }
            return r;
        }
        if len == self.chain_length {
            let mut r = Self::new();
            core::mem::swap(&mut r, self);
            proof {
                assert(r.bytes() =~= old(self).bytes().take(len as int));
                assert(self.bytes() =~= old(self).bytes().skip(len as int));
            }
            return r;
        }
        let mut res = Self::new();
        let mut len_to_take = len;
        while len_to_take > 0
            invariant
                self.wf(),
                res.wf(),
                len_to_take <= len,
                len <= old(self).bytes().len(),
                len_to_take < self.bytes().len(),
                res.bytes() =~= old(self).bytes().take(len - len_to_take),
                self.bytes() =~= old(self).bytes().skip(len - len_to_take),
            decreases len_to_take,
        {
            proof {
                lemma_chain_bytes_first(self.chain@);
            }
            let available = self.chain[0].len() - self.begin_offset;
            let block_len = self.chain[0].len();
            let to_take = if len_to_take < available {
                len_to_take
            } else {
                available
            };
            let piece = {
                let front = &self.chain[0];
                vstd::slice::slice_subrange(
                    front.data.as_slice(),
                    self.begin_offset,
                    self.begin_offset + to_take,
                )
            };
            proof {
                assert(piece@ =~= self.bytes().subrange(0, to_take as int));
            }
            res.append(Block::from_slice(piece));
            proof {
                assert(res.bytes() =~= old(self).bytes().take(
                    (len - len_to_take + to_take) as int,
                ));
            }
            let ghost pre = *self;
            self.begin_offset = self.begin_offset + to_take;
            self.chain_length = self.chain_length - to_take;
            len_to_take = len_to_take - to_take;
            proof {
                assert(self.bytes() =~= pre.bytes().skip(to_take as int));
            }
            if self.begin_offset == block_len {
                let ghost pre2 = *self;
                let _ = self.chain.pop_front();
                self.begin_offset = 0;
                proof {
                    assert(self.chain@ =~= pre2.chain@.drop_first());
                    lemma_chain_bytes_first(pre2.chain@);
                    assert(self.bytes() =~= pre2.bytes());
                }
            }
            proof {
                assert(self.bytes() =~= old(self).bytes().skip(len - len_to_take));
            }
        }
        proof {
            assert(res.bytes() =~= old(self).bytes().take(len as int));
        }
        res
    }

    /// Copies everything the vector represents into one fresh block.
    pub fn coalesce(&self) -> (r: Block)
        requires
            self.wf(),
        ensures
            r.wf(),
            r.bytes() == self.bytes(),
            r.pos() == 0,
    {
        let total = self.size();
        let mut result = Block::with_capacity(total);
        let mut idx: usize = 0;
        let n = self.chain.len();
        while idx < n
            invariant
                self.wf(),
                n == self.chain@.len(),
                idx <= n,
                result.pos() == 0,
                result.wf(),
                idx == 0 ==> result.bytes() =~= Seq::<u8>::empty(),
                idx > 0 ==> result.bytes() =~= chain_bytes(self.chain@.take(idx as int)).skip(
                    self.begin_offset as int,
                ),
            decreases n - idx,
        {
            let start = if idx == 0 {
                self.begin_offset
            } else {
                0
            };
            proof {
                assert(self.chain@.take(idx as int).push(self.chain@[idx as int])
                    =~= self.chain@.take(idx as int + 1));
                lemma_chain_bytes_push(self.chain@.take(idx as int), self.chain@[idx as int]);
                lemma_chain_bytes_concat(
                    self.chain@.take(idx as int + 1),
                    self.chain@.skip(idx as int + 1),
                );
                assert(self.chain@.take(idx as int + 1) + self.chain@.skip(idx as int + 1)
                    =~= self.chain@);
            }
            let piece = {
                let block = &self.chain[idx];
                vstd::slice::slice_subrange(block.data.as_slice(), start, block.data.len())
            };
            result.extend_from_slice(piece);
            idx += 1;
            proof {
                assert(result.bytes() =~= chain_bytes(self.chain@.take(idx as int)).skip(
                    self.begin_offset as int,
                ));
            }
        }
        proof {
            if n == 0 {
                assert(result.bytes() =~= self.bytes());
            } else {
                assert(self.chain@.take(n as int) =~= self.chain@);
                assert(result.bytes() =~= self.bytes());
            }
        }
        result
    }
}

impl Default for IoVector {
    /// An empty vector.
    fn default() -> (r: Self)
        ensures
            r.wf(),
            r.bytes() == Seq::<u8>::empty(),
    {
        IoVector::new()
    }
}

} // verus!
