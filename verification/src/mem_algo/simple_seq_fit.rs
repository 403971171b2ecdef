//! Sequential first-fit allocation.
//!
//! The segment is accounted for by an address-ordered list of free
//! blocks.  In the segment bytes themselves the list is a chain of
//! 16-byte-aligned `BlockCtrl` records threaded through the free space by
//! self-relative pointers, closed into a cycle by a sentinel embedded in
//! the segment header; here the chain is modelled by the sequence of
//! `(addr, size)` descriptors it visits, in ascending address order.
//! Addresses are byte offsets from the start of the segment, so the model
//! is independent of where a process maps the segment.
//!
//! Invariants kept by every operation: the descriptors ascend strictly
//! and never touch (freeing coalesces both ways), every block lies
//! between the end of the segment header and the end of the segment, and
//! the allocated bytes, the free bytes and the header always add up to
//! the whole segment.

use vstd::prelude::*;

use crate::err::ErrorKind;
use crate::sync::Mutex;

verus! {

/// Alignment of every block control record, and the byte cost of one.
pub const BLOCK_CTRL_ALIGNMENT: usize = 16;

/// Bytes reserved at the start of the segment for the segment header
/// (sizes, directory root, mutex and the sentinel block record).
pub const SEGMENT_HEADER_BYTES: usize = 64;

/// Offset of the sentinel block record inside the segment header; free
/// list traversals terminate by reaching it again.
pub const ROOT_BLOCK_OFFSET: usize = 48;

/// One free block: its byte offset from the segment start and its size
/// in bytes, header record included.
#[derive(Clone, Copy, PartialEq, Eq, Structural, Debug)]
pub struct BlockCtrl {
    /// Byte offset of the block from the start of the segment.
    pub addr: usize,
    /// Size of the block in bytes, including its control record.
    pub size: usize,
}

/// Round `x` up to the next multiple of `a` (`a > 0`).
pub open spec fn ceil_align(x: int, a: int) -> int {
    ((x + a - 1) / a) * a
}

/// Whether `n` is a power of two.
pub open spec fn is_pow2(n: int) -> bool
    decreases n,
{
    if n <= 0 {
        false
    } else if n == 1 {
        true
    } else {
        n % 2 == 0 && is_pow2(n / 2)
    }
}

/// Total size of the blocks in `s`.
pub open spec fn sum_sizes(s: Seq<BlockCtrl>) -> int
    decreases s.len(),
{
    if s.len() == 0 {
        0
    } else {
        s[0].size + sum_sizes(s.subrange(1, s.len() as int))
    }
}

/// The blocks are disjoint and ascend by address: each block ends no
/// later than the next begins.  Sizes are positive, so addresses ascend
/// strictly.
pub open spec fn blocks_ordered(s: Seq<BlockCtrl>) -> bool {
    forall|i: int| 0 <= i < s.len() - 1 ==> (#[trigger] s[i]).addr + s[i].size <= s[i + 1].addr
}

/// Every block is 16-byte aligned, big enough to hold its control
/// record, and lies between the segment header and the segment end.
pub open spec fn blocks_in_range(s: Seq<BlockCtrl>, seg: int) -> bool {
    forall|i: int|
        0 <= i < s.len() ==> {
            &&& (#[trigger] s[i]).addr as int % (BLOCK_CTRL_ALIGNMENT as int) == 0
            &&& s[i].size >= BLOCK_CTRL_ALIGNMENT
            &&& s[i].addr >= SEGMENT_HEADER_BYTES
            &&& s[i].addr + s[i].size <= seg
        }
}

/// The byte range `[lo, hi)` overlaps no block of `s`.
pub open spec fn range_free_of(s: Seq<BlockCtrl>, lo: int, hi: int) -> bool {
    forall|i: int|
        0 <= i < s.len() ==> ((#[trigger] s[i]).addr + s[i].size <= lo || hi <= s[i].addr)
}

/// Block sizes are never negative, so the total never is.
pub proof fn lemma_sum_nonneg(s: Seq<BlockCtrl>)
    ensures
        sum_sizes(s) >= 0,
    decreases s.len(),
{
    if s.len() > 0 {
        lemma_sum_nonneg(s.subrange(1, s.len() as int));
    }
}

/// Inserting a block adds exactly its size to the total.
pub proof fn lemma_sum_insert(s: Seq<BlockCtrl>, i: int, b: BlockCtrl)
    requires
        0 <= i <= s.len(),
    ensures
        sum_sizes(s.insert(i, b)) == sum_sizes(s) + b.size,
    decreases i,
{
    let t = s.insert(i, b);
    if i == 0 {
        assert(t.subrange(1, t.len() as int) =~= s);
    } else {
        let s1 = s.subrange(1, s.len() as int);
        assert(t.subrange(1, t.len() as int) =~= s1.insert(i - 1, b));
        lemma_sum_insert(s1, i - 1, b);
    }
}

/// Removing a block subtracts exactly its size from the total.
pub proof fn lemma_sum_remove(s: Seq<BlockCtrl>, i: int)
    requires
        0 <= i < s.len(),
    ensures
        sum_sizes(s.remove(i)) == sum_sizes(s) - s[i].size,
    decreases i,
{
    let t = s.remove(i);
    if i == 0 {
        assert(t =~= s.subrange(1, s.len() as int));
    } else {
        let s1 = s.subrange(1, s.len() as int);
        assert(t.subrange(1, t.len() as int) =~= s1.remove(i - 1));
        lemma_sum_remove(s1, i - 1);
    }
}

/// Replacing a block changes the total by the difference of the sizes.
pub proof fn lemma_sum_update(s: Seq<BlockCtrl>, i: int, b: BlockCtrl)
    requires
        0 <= i < s.len(),
    ensures
        sum_sizes(s.update(i, b)) == sum_sizes(s) - s[i].size + b.size,
    decreases i,
{
    let t = s.update(i, b);
    if i == 0 {
        assert(t.subrange(1, t.len() as int) =~= s.subrange(1, s.len() as int));
    } else {
        let s1 = s.subrange(1, s.len() as int);
        assert(t.subrange(1, t.len() as int) =~= s1.update(i - 1, b));
        lemma_sum_update(s1, i - 1, b);
    }
}

/// In an ordered list, every earlier block ends no later than every
/// later block begins.
pub proof fn lemma_ordered_chain(s: Seq<BlockCtrl>, i: int, j: int)
    requires
        blocks_ordered(s),
        0 <= i < j < s.len(),
        forall|k: int| 0 <= k < s.len() ==> (#[trigger] s[k]).size >= 0,
    ensures
        s[i].addr + s[i].size <= s[j].addr,
    decreases j - i,
{
    if j > i + 1 {
        lemma_ordered_chain(s, i, j - 1);
        assert(s[j - 1].addr + s[j - 1].size <= s[j].addr);
    }
}

/// Disjoint ordered blocks living inside `[lo, seg)` cannot hold more
/// than `seg - lo` bytes in total.
pub proof fn lemma_sum_bound(s: Seq<BlockCtrl>, lo: int, seg: int)
    requires
        blocks_ordered(s),
        lo <= seg,
        forall|i: int| 0 <= i < s.len() ==> (#[trigger] s[i]).addr >= lo,
        forall|i: int| 0 <= i < s.len() ==> (#[trigger] s[i]).addr + s[i].size <= seg,
        forall|i: int| 0 <= i < s.len() ==> (#[trigger] s[i]).size >= 0,
    ensures
        sum_sizes(s) <= seg - lo,
    decreases s.len(),
{
    if s.len() > 0 {
        let s1 = s.subrange(1, s.len() as int);
        assert(blocks_ordered(s1)) by {
            assert forall|i: int|
                0 <= i < s1.len() - 1 implies (#[trigger] s1[i]).addr + s1[i].size <= s1[i
                + 1].addr by {
                assert(s1[i] == s[i + 1]);
                assert(s1[i + 1] == s[i + 2]);
            }
        }
        assert forall|i: int| 0 <= i < s1.len() implies (#[trigger] s1[i]).addr >= s[0].addr
            + s[0].size by {
            assert(s1[i] == s[i + 1]);
            lemma_ordered_chain(s, 0, i + 1);
        }
        lemma_sum_bound(s1, s[0].addr + s[0].size, seg);
    }
}

/// A power of two no greater than 16 divides 16.
pub proof fn lemma_pow2_divides_16(a: int)
    requires
        is_pow2(a),
        a <= 16,
    ensures
        16int % a == 0,
        a >= 1,
{
    assert(a >= 1) by {
        reveal_with_fuel(is_pow2, 1);
    }
    assert(a == 1 || a == 2 || a == 4 || a == 8 || a == 16) by {
        reveal_with_fuel(is_pow2, 6);
        assert(!is_pow2(3int));
        assert(!is_pow2(5int));
        assert(!is_pow2(6int));
        assert(!is_pow2(7int));
        assert(!is_pow2(9int));
        assert(!is_pow2(10int));
        assert(!is_pow2(11int));
        assert(!is_pow2(12int));
        assert(!is_pow2(13int));
        assert(!is_pow2(14int));
        assert(!is_pow2(15int));
    }
    assert(16int % 1int == 0);
    assert(16int % 2int == 0);
    assert(16int % 4int == 0);
    assert(16int % 8int == 0);
    assert(16int % 16int == 0);
}

/// Rounding up to a divisor of the argument's alignment is the identity.
pub proof fn lemma_ceil_align_exact(x: int, a: int)
    requires
        a >= 1,
        x % a == 0,
    ensures
        ceil_align(x, a) == x,
{
    assert(((x + a - 1) / a) * a == x) by (nonlinear_arith)
        requires
            a >= 1 && x % a == 0,
    ;
}

/// What rounding up to a multiple of `a` yields: a multiple of `a` in
/// `[x, x + a)`.
pub proof fn lemma_ceil_align_bounds(x: int, a: int)
    requires
        a >= 1,
        x >= 0,
    ensures
        x <= ceil_align(x, a) < x + a,
        ceil_align(x, a) % a == 0,
{
    assert(x <= ((x + a - 1) / a) * a < x + a && (((x + a - 1) / a) * a) % a == 0)
        by (nonlinear_arith)
        requires
            a >= 1 && x >= 0,
    ;
}

/// Round `addr` up to the next multiple of `align_to`.
pub fn align(addr: usize, align_to: usize) -> (r: usize)
    requires
        align_to >= 1,
        addr + align_to - 1 <= usize::MAX,
    ensures
        r as int == ceil_align(addr as int, align_to as int),
        addr <= r < addr + align_to,
        r as int % align_to as int == 0,
{
    proof {
        lemma_ceil_align_bounds(addr as int, align_to as int);
    }
    let q = (addr + (align_to - 1)) / align_to;
    assert(q * align_to == ceil_align(addr as int, align_to as int)) by (nonlinear_arith)
        requires
            align_to >= 1 && q as int == (addr as int + (align_to as int - 1)) / align_to as int,
    ;
    q * align_to
}

/// An unsigned self-relative cell: the in-band `next` field of a block
/// control record, storing the forward displacement to its target.
#[derive(Clone, Copy, PartialEq, Eq, Structural, Debug)]
pub struct OffsetCell {
    /// Displacement from the cell's own address to its target.
    pub offset: usize,
}

impl OffsetCell {
    /// Aim the cell, sitting at `self_addr`, at `target`.
    pub fn set(&mut self, self_addr: usize, target: usize)
        requires
            target >= self_addr,
        ensures
            final(self).offset == target - self_addr,
    {
        self.offset = target - self_addr;
    }

    /// Resolve the cell sitting at `self_addr`.
    pub fn get(&self, self_addr: usize) -> (r: usize)
        requires
            self_addr + self.offset <= usize::MAX,
        ensures
            r == self_addr + self.offset,
    {
        self_addr + self.offset
    }
}

/// Payload bytes a request for `count` objects of `size_of` bytes needs.
pub open spec fn request_bytes(count: int, size_of: int) -> int {
    count * size_of
}

/// The payload address an allocation cut from block `b` gets: the first
/// `align`-aligned address past the block's control record.
pub open spec fn payload_of(b: BlockCtrl, align: int) -> int {
    ceil_align(b.addr + BLOCK_CTRL_ALIGNMENT, align)
}

/// The bytes consumed when a request for `need` payload bytes aligned to
/// `align` is cut from block `b`: payload end minus block start, rounded
/// up so the next control record stays aligned.
pub open spec fn consumed_of(b: BlockCtrl, align: int, need: int) -> int {
    ceil_align(payload_of(b, align) + need - b.addr, BLOCK_CTRL_ALIGNMENT as int)
}

/// Whether block `b` can serve a request of `need` bytes at `align`.
pub open spec fn block_fits(b: BlockCtrl, align: int, need: int) -> bool {
    consumed_of(b, align, need) <= b.size
}

/// The index of the first block of `s` that fits, or `s.len()` if none.
pub open spec fn find_fit(s: Seq<BlockCtrl>, align: int, need: int) -> int
    decreases s.len(),
{
    if s.len() == 0 {
        0
    } else if block_fits(s[0], align, need) {
        0
    } else {
        1 + find_fit(s.subrange(1, s.len() as int), align, need)
    }
}

/// What `find_fit` finds: the first fitting block, if any.
pub proof fn lemma_find_fit(s: Seq<BlockCtrl>, align: int, need: int)
    ensures
        0 <= find_fit(s, align, need) <= s.len(),
        forall|j: int|
            0 <= j < find_fit(s, align, need) ==> !block_fits(#[trigger] s[j], align, need),
        find_fit(s, align, need) < s.len() ==> block_fits(s[find_fit(s, align, need)], align, need),
    decreases s.len(),
{
    if s.len() > 0 && !block_fits(s[0], align, need) {
        let s1 = s.subrange(1, s.len() as int);
        lemma_find_fit(s1, align, need);
        assert forall|j: int| 0 <= j < find_fit(s, align, need) implies !block_fits(
            #[trigger] s[j],
            align,
            need,
        ) by {
            if j > 0 {
                assert(s[j] == s1[j - 1]);
                assert(!block_fits(s1[j - 1], align, need));
            }
        }
    }
}

/// For an aligned block and a power-of-two alignment within the block
/// alignment, the payload begins right after the control record and the
/// consumed bytes do not depend on the block.
pub proof fn lemma_consumed_simplify(b: BlockCtrl, align: int, need: int)
    requires
        b.addr as int % (BLOCK_CTRL_ALIGNMENT as int) == 0,
        is_pow2(align),
        align <= BLOCK_CTRL_ALIGNMENT,
        need >= 0,
    ensures
        payload_of(b, align) == b.addr + BLOCK_CTRL_ALIGNMENT,
        consumed_of(b, align, need) == ceil_align(
            BLOCK_CTRL_ALIGNMENT + need,
            BLOCK_CTRL_ALIGNMENT as int,
        ),
{
    lemma_pow2_divides_16(align);
    assert((b.addr + BLOCK_CTRL_ALIGNMENT) % align == 0) by (nonlinear_arith)
        requires
            align >= 1 && b.addr as int % 16int == 0 && 16int % align == 0,
    ;
    lemma_ceil_align_exact(b.addr + BLOCK_CTRL_ALIGNMENT, align);
}

/// The total size of the blocks is at least the size of any one block.
pub proof fn lemma_sum_elem(s: Seq<BlockCtrl>, i: int)
    requires
        0 <= i < s.len(),
    ensures
        sum_sizes(s) >= s[i].size,
    decreases i,
{
    let s1 = s.subrange(1, s.len() as int);
    if i == 0 {
        lemma_sum_nonneg(s1);
    } else {
        lemma_sum_elem(s1, i - 1);
    }
}

/// The sequential first-fit allocator for one segment, with the mutex
/// variant the segment manager was instantiated with.
pub struct SimpleSeqFit<M> {
    /// The mutex embedded in the segment header.
    pub mutex: M,
    /// Total size of the segment in bytes.
    pub segment_bytes: usize,
    /// Bytes currently consumed by allocations.
    pub allocated_bytes: usize,
    /// The free blocks, in ascending address order.
    pub free: Vec<BlockCtrl>,
}

impl<M> SimpleSeqFit<M> {
    /// The free blocks as a sequence.
    pub open spec fn blocks(&self) -> Seq<BlockCtrl> {
        self.free@
    }

    /// The allocator's invariant: the free list ascends strictly without
    /// touching, stays inside the segment past the header, and together
    /// with the allocated bytes and the header accounts for every byte
    /// of the segment.
    pub open spec fn wf(&self) -> bool {
        &&& self.segment_bytes >= SEGMENT_HEADER_BYTES + BLOCK_CTRL_ALIGNMENT
        &&& blocks_ordered(self.blocks())
        &&& blocks_in_range(self.blocks(), self.segment_bytes as int)
        &&& self.allocated_bytes + sum_sizes(self.blocks()) + SEGMENT_HEADER_BYTES
            == self.segment_bytes
    }

    /// The free list a fresh segment starts with: one block spanning
    /// everything after the header.
    pub open spec fn initial_blocks(segment_bytes: int) -> Seq<BlockCtrl> {
        seq![
            (BlockCtrl {
                addr: SEGMENT_HEADER_BYTES,
                size: (segment_bytes - SEGMENT_HEADER_BYTES) as usize,
            }),
        ]
    }

    /// Walk the free list and report whether it is address-ordered and
    /// contained in the segment.
    pub fn sanity_check(&self) -> (r: bool)
        ensures
            r == (blocks_ordered(self.blocks()) && blocks_in_range(
                self.blocks(),
                self.segment_bytes as int,
            )),
    {
        let n = self.free.len();
        let mut i: usize = 0;
        while i < n
            invariant
                0 <= i <= n,
                n == self.blocks().len(),
                forall|j: int|
                    0 <= j < i ==> {
                        &&& (#[trigger] self.blocks()[j]).addr as int % (
                        BLOCK_CTRL_ALIGNMENT as int) == 0
                        &&& self.blocks()[j].size >= BLOCK_CTRL_ALIGNMENT
                        &&& self.blocks()[j].addr >= SEGMENT_HEADER_BYTES
                        &&& self.blocks()[j].addr + self.blocks()[j].size <= self.segment_bytes
                    },
                forall|j: int|
                    0 <= j < i - 1 ==> (#[trigger] self.blocks()[j]).addr + self.blocks()[j].size
                        <= self.blocks()[j + 1].addr,
            decreases n - i,
        {
            let b = self.free[i];
            if !(b.addr % BLOCK_CTRL_ALIGNMENT == 0 && b.size >= BLOCK_CTRL_ALIGNMENT && b.addr
                >= SEGMENT_HEADER_BYTES) {
                return false;
            }
            if b.size > self.segment_bytes || b.addr > self.segment_bytes - b.size {
                return false;
            }
            if i > 0 {
                let p = self.free[i - 1];
                if !(p.addr + p.size <= b.addr) {
                    return false;
                }
            }
            i = i + 1;
        }
        true
    }
}

impl<M: Mutex> SimpleSeqFit<M> {
    /// Build the accounting for a fresh segment of `segment_bytes`
    /// bytes: nothing allocated, one free block spanning everything
    /// after the header, and a freshly initialized mutex.
    pub fn new(mutex: M, segment_bytes: usize) -> (r: Self)
        requires
            segment_bytes >= SEGMENT_HEADER_BYTES + BLOCK_CTRL_ALIGNMENT,
        ensures
            r.wf(),
            r.segment_bytes == segment_bytes,
            r.allocated_bytes == 0,
            r.blocks() == Self::initial_blocks(segment_bytes as int),
            !r.mutex.locked(),
    {
        let mut mutex = mutex;
        mutex.place_new();
        let mut free: Vec<BlockCtrl> = Vec::new();
        free.push(
            BlockCtrl { addr: SEGMENT_HEADER_BYTES, size: segment_bytes - SEGMENT_HEADER_BYTES },
        );
        let r = SimpleSeqFit { mutex, segment_bytes, allocated_bytes: 0, free };
        proof {
            assert(r.blocks() =~= Self::initial_blocks(segment_bytes as int));
            assert(sum_sizes(r.blocks()) == segment_bytes - SEGMENT_HEADER_BYTES) by {
                reveal_with_fuel(sum_sizes, 3);
                assert(r.blocks().subrange(1, 1) =~= Seq::<BlockCtrl>::empty());
            }
        }
        r
    }

    /// Reinitialize this allocator in place for a segment of
    /// `segment_bytes` bytes, as on first creation.
    pub fn place_new(&mut self, segment_bytes: usize)
        requires
            segment_bytes >= SEGMENT_HEADER_BYTES + BLOCK_CTRL_ALIGNMENT,
        ensures
            final(self).wf(),
            final(self).segment_bytes == segment_bytes,
            final(self).allocated_bytes == 0,
            final(self).blocks() == Self::initial_blocks(segment_bytes as int),
            !final(self).mutex.locked(),
    {
        self.mutex.place_new();
        self.segment_bytes = segment_bytes;
        self.allocated_bytes = 0;
        let mut free: Vec<BlockCtrl> = Vec::new();
        free.push(
            BlockCtrl { addr: SEGMENT_HEADER_BYTES, size: segment_bytes - SEGMENT_HEADER_BYTES },
        );
        self.free = free;
        proof {
            assert(self.blocks() =~= Self::initial_blocks(segment_bytes as int));
            assert(sum_sizes(self.blocks()) == segment_bytes - SEGMENT_HEADER_BYTES) by {
                reveal_with_fuel(sum_sizes, 3);
                assert(self.blocks().subrange(1, 1) =~= Seq::<BlockCtrl>::empty());
            }
        }
    }

    /// Cut `consumed` bytes from the front of free block `i`: split the
    /// block when more than one control record's worth remains, consume
    /// it whole otherwise, and return the payload offset.
    #[verifier::rlimit(100)]
    fn carve(&mut self, i: usize, consumed: usize) -> (payload: usize)
        requires
            old(self).wf(),
            i < old(self).blocks().len(),
            consumed as int % (BLOCK_CTRL_ALIGNMENT as int) == 0,
            consumed >= BLOCK_CTRL_ALIGNMENT,
            consumed <= old(self).blocks()[i as int].size,
        ensures
            final(self).wf(),
            final(self).segment_bytes == old(self).segment_bytes,
            final(self).mutex == old(self).mutex,
            payload == old(self).blocks()[i as int].addr + BLOCK_CTRL_ALIGNMENT,
            ({
                let s = old(self).blocks();
                let b = s[i as int];
                let remainder = b.size - consumed;
                if remainder > BLOCK_CTRL_ALIGNMENT {
                    &&& final(self).blocks() == s.update(
                        i as int,
                        (BlockCtrl { addr: (b.addr + consumed) as usize, size: remainder as usize }),
                    )
                    &&& final(self).allocated_bytes == old(self).allocated_bytes + consumed
                } else {
                    &&& final(self).blocks() == s.remove(i as int)
                    &&& final(self).allocated_bytes == old(self).allocated_bytes + b.size
                }
            }),
    {
        let ghost s = self.blocks();
        let b = self.free[i];
        proof {
            lemma_sum_elem(s, i as int);
        }
        let remainder = b.size - consumed;
        let payload = b.addr + BLOCK_CTRL_ALIGNMENT;
        if remainder > BLOCK_CTRL_ALIGNMENT {
            let nb = BlockCtrl { addr: b.addr + consumed, size: remainder };
            self.free.remove(i);
            self.free.insert(i, nb);
            self.allocated_bytes = self.allocated_bytes + consumed;
            proof {
                assert(self.blocks() =~= s.update(i as int, nb));
                lemma_sum_update(s, i as int, nb);
                assert(nb.addr as int % 16int == 0) by (nonlinear_arith)
                    requires
                        nb.addr == b.addr + consumed && b.addr as int % 16int == 0
                            && consumed as int % 16int == 0,
                ;
                assert(blocks_ordered(self.blocks())) by {
                    assert forall|k: int|
                        0 <= k < self.blocks().len() - 1 implies (#[trigger] self.blocks()[k]).addr
                        + self.blocks()[k].size <= self.blocks()[k + 1].addr by {
                        assert(s[k].addr + s[k].size <= s[k + 1].addr);
                    }
                }
                assert(blocks_in_range(self.blocks(), self.segment_bytes as int)) by {
                    assert forall|k: int| 0 <= k < self.blocks().len() implies {
                        &&& (#[trigger] self.blocks()[k]).addr as int % (
                        BLOCK_CTRL_ALIGNMENT as int) == 0
                        &&& self.blocks()[k].size >= BLOCK_CTRL_ALIGNMENT
                        &&& self.blocks()[k].addr >= SEGMENT_HEADER_BYTES
                        &&& self.blocks()[k].addr + self.blocks()[k].size <= self.segment_bytes
                    } by {
                        if k != i {
                            assert(self.blocks()[k] == s[k]);
                        }
                    }
                }
            }
        } else {
            self.free.remove(i);
            self.allocated_bytes = self.allocated_bytes + b.size;
            proof {
                assert(self.blocks() =~= s.remove(i as int));
                lemma_sum_remove(s, i as int);
                assert(blocks_ordered(self.blocks())) by {
                    assert forall|k: int|
                        0 <= k < self.blocks().len() - 1 implies (#[trigger] self.blocks()[k]).addr
                        + self.blocks()[k].size <= self.blocks()[k + 1].addr by {
                        if k < i {
                            assert(self.blocks()[k] == s[k]);
                            if k + 1 < i {
                                assert(self.blocks()[k + 1] == s[k + 1]);
                            } else {
                                assert(self.blocks()[k + 1] == s[k + 2]);
                                lemma_ordered_chain(s, k, k + 2);
                            }
                        } else {
                            assert(self.blocks()[k] == s[k + 1]);
                            assert(self.blocks()[k + 1] == s[k + 2]);
                        }
                    }
                }
                assert(blocks_in_range(self.blocks(), self.segment_bytes as int)) by {
                    assert forall|k: int| 0 <= k < self.blocks().len() implies {
                        &&& (#[trigger] self.blocks()[k]).addr as int % (
                        BLOCK_CTRL_ALIGNMENT as int) == 0
                        &&& self.blocks()[k].size >= BLOCK_CTRL_ALIGNMENT
                        &&& self.blocks()[k].addr >= SEGMENT_HEADER_BYTES
                        &&& self.blocks()[k].addr + self.blocks()[k].size <= self.segment_bytes
                    } by {
                        if k < i {
                            assert(self.blocks()[k] == s[k]);
                        } else {
                            assert(self.blocks()[k] == s[k + 1]);
                        }
                    }
                }
            }
        }
        payload
    }

    /// Allocate room for `count` objects of `size_of` bytes aligned to
    /// `align_of` from the first free block that fits: an alignment
    /// stricter than the block alignment or an overflowing request is
    /// rejected, a fitting block is split when more than one control
    /// record's worth remains and consumed whole otherwise, and failure
    /// leaves the segment untouched.
    #[verifier::loop_isolation(false)]
    #[verifier::rlimit(100)]
    pub fn allocate(&mut self, count: usize, size_of: usize, align_of: usize) -> (r: Result<
        usize,
        ErrorKind,
    >)
        requires
            old(self).wf(),
            align_of >= 1,
            is_pow2(align_of as int),
        ensures
            final(self).wf(),
            final(self).segment_bytes == old(self).segment_bytes,
            final(self).mutex == old(self).mutex,
            ({
                let s = old(self).blocks();
                let need = request_bytes(count as int, size_of as int);
                let align = align_of as int;
                if align_of > BLOCK_CTRL_ALIGNMENT || need + 31 > usize::MAX {
                    &&& r == Err::<usize, ErrorKind>(ErrorKind::InvalidArgument)
                    &&& final(self).blocks() == old(self).blocks()
                    &&& final(self).allocated_bytes == old(self).allocated_bytes
                } else if find_fit(s, align, need) >= s.len() {
                    &&& r == Err::<usize, ErrorKind>(ErrorKind::OutOfMemory)
                    &&& final(self).blocks() == old(self).blocks()
                    &&& final(self).allocated_bytes == old(self).allocated_bytes
                } else {
                    let i = find_fit(s, align, need);
                    let b = s[i];
                    let consumed = consumed_of(b, align, need);
                    let remainder = b.size - consumed;
                    &&& r == Ok::<usize, ErrorKind>(payload_of(b, align) as usize)
                    &&& if remainder > BLOCK_CTRL_ALIGNMENT {
                        &&& final(self).blocks() == s.update(
                            i,
                            (BlockCtrl {
                                addr: (b.addr + consumed) as usize,
                                size: remainder as usize,
                            }),
                        )
                        &&& final(self).allocated_bytes == old(self).allocated_bytes + consumed
                    } else {
                        &&& final(self).blocks() == s.remove(i)
                        &&& final(self).allocated_bytes == old(self).allocated_bytes + b.size
                    }
                }
            }),
    {
        if align_of > BLOCK_CTRL_ALIGNMENT {
            return Err(ErrorKind::InvalidArgument);
        }
        let need = match count.checked_mul(size_of) {
            None => {
                return Err(ErrorKind::InvalidArgument);
            },
            Some(n) => n,
        };
        let c0 = match need.checked_add(31) {
            None => {
                return Err(ErrorKind::InvalidArgument);
            },
            Some(v) => v,
        };
        let q = c0 / BLOCK_CTRL_ALIGNMENT;
        proof {
            assert(q as int * 16int <= c0 as int && q as int * 16int == ceil_align(16 + need, 16)
                && (q as int * 16int) % 16int == 0 && q as int * 16int >= 16) by (nonlinear_arith)
                requires
                    q as int == c0 as int / 16int && c0 == need + 31,
            ;
            lemma_find_fit(old(self).blocks(), align_of as int, need as int);
        }
        let consumed = q * BLOCK_CTRL_ALIGNMENT;
        let ghost s = self.blocks();
        let ghost align = align_of as int;
        let n = self.free.len();
        let mut i: usize = 0;
        while i < n
            invariant
                0 <= i <= n,
                self.free@ == old(self).free@,
                self.allocated_bytes == old(self).allocated_bytes,
                self.segment_bytes == old(self).segment_bytes,
                self.mutex == old(self).mutex,
                forall|j: int| 0 <= j < i ==> !block_fits(#[trigger] s[j], align, need as int),
            decreases n - i,
        {
            let b = self.free[i];
            proof {
                lemma_consumed_simplify(b, align, need as int);
            }
            if consumed <= b.size {
                proof {
                    assert(block_fits(b, align, need as int));
                    assert(find_fit(s, align, need as int) == i);
                }
                let payload = self.carve(i, consumed);
                return Ok(payload);
            }
            i = i + 1;
        }
        proof {
            assert(find_fit(s, align, need as int) >= s.len());
        }
        Err(ErrorKind::OutOfMemory)
    }
}

/// Bytes returned to the free space when `count` objects of `size_of`
/// bytes are freed: one control record plus the payload, rounded up to
/// the block alignment, exactly as allocation consumed them.
pub open spec fn freed_bytes(count: int, size_of: int) -> int {
    ceil_align(BLOCK_CTRL_ALIGNMENT + count * size_of, BLOCK_CTRL_ALIGNMENT as int)
}

/// The position where a block at `addr` belongs in address order: the
/// index of the first block whose address is greater.
pub open spec fn insert_pos(s: Seq<BlockCtrl>, addr: int) -> int
    decreases s.len(),
{
    if s.len() == 0 {
        0
    } else if addr < s[0].addr {
        0
    } else {
        1 + insert_pos(s.subrange(1, s.len() as int), addr)
    }
}

/// What `insert_pos` finds: everything before it is at or below `addr`,
/// the block at it (if any) is above.
pub proof fn lemma_insert_pos(s: Seq<BlockCtrl>, addr: int)
    ensures
        0 <= insert_pos(s, addr) <= s.len(),
        forall|j: int| 0 <= j < insert_pos(s, addr) ==> (#[trigger] s[j]).addr <= addr,
        insert_pos(s, addr) < s.len() ==> addr < s[insert_pos(s, addr)].addr,
    decreases s.len(),
{
    if s.len() > 0 && !(addr < s[0].addr) {
        let s1 = s.subrange(1, s.len() as int);
        lemma_insert_pos(s1, addr);
        assert forall|j: int| 0 <= j < insert_pos(s, addr) implies (#[trigger] s[j]).addr
            <= addr by {
            if j > 0 {
                assert(s[j] == s1[j - 1]);
            }
        }
    }
}

/// Merge adjacent blocks `i` and `i + 1` into one block spanning both.
pub open spec fn merge_at(s: Seq<BlockCtrl>, i: int) -> Seq<BlockCtrl> {
    s.update(i, (BlockCtrl { addr: s[i].addr, size: (s[i].size + s[i + 1].size) as usize })).remove(
        i + 1,
    )
}

/// Merging two exactly touching blocks keeps the list ordered and in
/// range and moves no byte: the total size is unchanged.
pub proof fn lemma_merge_at(s: Seq<BlockCtrl>, i: int, seg: int)
    requires
        blocks_ordered(s),
        blocks_in_range(s, seg),
        seg <= usize::MAX,
        0 <= i < s.len() - 1,
        s[i].addr + s[i].size == s[i + 1].addr,
    ensures
        merge_at(s, i).len() == s.len() - 1,
        blocks_ordered(merge_at(s, i)),
        blocks_in_range(merge_at(s, i), seg),
        sum_sizes(merge_at(s, i)) == sum_sizes(s),
        forall|j: int| 0 <= j < i ==> merge_at(s, i)[j] == s[j],
        forall|j: int| i < j < s.len() - 1 ==> merge_at(s, i)[j] == s[j + 1],
        merge_at(s, i)[i].addr == s[i].addr,
        merge_at(s, i)[i].size == s[i].size + s[i + 1].size,
    decreases s.len(),
{
    let big = BlockCtrl { addr: s[i].addr, size: (s[i].size + s[i + 1].size) as usize };
    let u = s.update(i, big);
    let m = merge_at(s, i);
    assert(s[i].addr + s[i].size + s[i + 1].size <= seg);
    assert(s[i].size + s[i + 1].size <= usize::MAX);
    assert(big.size == s[i].size + s[i + 1].size);
    lemma_sum_update(s, i, big);
    assert(u[i + 1] == s[i + 1]);
    lemma_sum_remove(u, i + 1);
    assert(m == u.remove(i + 1));
    u.remove_ensures(i + 1);
    assert(forall|j: int| 0 <= j < i + 1 ==> #[trigger] m[j] == u[j]);
    assert(forall|j: int| i + 1 <= j < m.len() ==> #[trigger] m[j] == u[j + 1]);
    assert(blocks_ordered(m)) by {
        assert forall|k: int|
            0 <= k < m.len() - 1 implies (#[trigger] m[k]).addr + m[k].size <= m[k + 1].addr by {
            if k < i {
                assert(m[k] == s[k]);
                if k + 1 <= i - 1 {
                    assert(m[k + 1] == s[k + 1]);
                } else {
                    assert(m[k + 1] == big);
                }
            } else if k == i {
                assert(m[k + 1] == s[k + 2]);
            } else {
                assert(m[k] == s[k + 1]);
                assert(m[k + 1] == s[k + 2]);
            }
        }
    }
    assert(blocks_in_range(m, seg)) by {
        assert forall|k: int| 0 <= k < m.len() implies {
            &&& (#[trigger] m[k]).addr as int % (BLOCK_CTRL_ALIGNMENT as int) == 0
            &&& m[k].size >= BLOCK_CTRL_ALIGNMENT
            &&& m[k].addr >= SEGMENT_HEADER_BYTES
            &&& m[k].addr + m[k].size <= seg
        } by {
            if k < i {
                assert(m[k] == s[k]);
            } else if k > i {
                assert(m[k] == s[k + 1]);
            }
        }
    }
}

/// The free list after the range `[hdr, hdr + freed)` is returned: the
/// range is spliced in at its address position and merged with either
/// neighbour it exactly touches.
pub open spec fn dealloc_result(s: Seq<BlockCtrl>, hdr: int, freed: int) -> Seq<BlockCtrl> {
    let pos = insert_pos(s, hdr);
    let t = s.insert(pos, (BlockCtrl { addr: hdr as usize, size: freed as usize }));
    let t1 = if pos + 1 < t.len() && t[pos].addr + t[pos].size == t[pos + 1].addr {
        merge_at(t, pos)
    } else {
        t
    };
    if pos > 0 && t1[pos - 1].addr + t1[pos - 1].size == t1[pos].addr {
        merge_at(t1, pos - 1)
    } else {
        t1
    }
}

/// Returning a disjoint in-segment range keeps the free list ordered
/// and in range and adds exactly the returned bytes to the free total.
pub proof fn lemma_dealloc_result(s: Seq<BlockCtrl>, hdr: int, freed: int, seg: int)
    requires
        blocks_ordered(s),
        blocks_in_range(s, seg),
        hdr % (BLOCK_CTRL_ALIGNMENT as int) == 0,
        freed >= BLOCK_CTRL_ALIGNMENT,
        hdr >= SEGMENT_HEADER_BYTES,
        hdr + freed <= seg,
        seg <= usize::MAX,
        range_free_of(s, hdr, hdr + freed),
    ensures
        blocks_ordered(dealloc_result(s, hdr, freed)),
        blocks_in_range(dealloc_result(s, hdr, freed), seg),
        sum_sizes(dealloc_result(s, hdr, freed)) == sum_sizes(s) + freed,
{
    let pos = insert_pos(s, hdr);
    lemma_insert_pos(s, hdr);
    let nb = BlockCtrl { addr: hdr as usize, size: freed as usize };
    let t = s.insert(pos, nb);
    s.insert_ensures(pos, nb);
    assert(forall|j: int| 0 <= j < pos ==> #[trigger] t[j] == s[j]);
    assert(forall|j: int| pos <= j < s.len() ==> #[trigger] t[j + 1] == s[j]);
    assert(t[pos] == nb);
    assert forall|j: int| 0 <= j < pos implies (#[trigger] s[j]).addr + s[j].size <= hdr by {
        assert(s[j].addr <= hdr);
    }
    assert forall|j: int| pos <= j < s.len() implies (#[trigger] s[j]).addr >= hdr + freed by {
        if j > pos {
            lemma_ordered_chain(s, pos, j);
        }
        assert(s[pos].addr > hdr);
        assert(s[pos].addr + s[pos].size > hdr);
    }
    assert(blocks_ordered(t)) by {
        assert forall|k: int|
            0 <= k < t.len() - 1 implies (#[trigger] t[k]).addr + t[k].size <= t[k + 1].addr by {
            if k < pos - 1 {
                assert(t[k] == s[k] && t[k + 1] == s[k + 1]);
            } else if k == pos - 1 {
                assert(t[k] == s[k] && t[k + 1] == nb);
            } else if k == pos {
                assert(t[k] == nb);
                assert(t[k + 1] == s[k]);
                assert(s[k].addr >= hdr + freed);
            } else {
                assert(t[k] == s[k - 1] && t[k + 1] == s[k]);
                assert(s[k - 1].addr + s[k - 1].size <= s[k].addr);
            }
        }
    }
    assert(blocks_in_range(t, seg)) by {
        assert forall|k: int| 0 <= k < t.len() implies {
            &&& (#[trigger] t[k]).addr as int % (BLOCK_CTRL_ALIGNMENT as int) == 0
            &&& t[k].size >= BLOCK_CTRL_ALIGNMENT
            &&& t[k].addr >= SEGMENT_HEADER_BYTES
            &&& t[k].addr + t[k].size <= seg
        } by {
            if k < pos {
                assert(t[k] == s[k]);
            } else if k > pos {
                assert(t[k] == s[k - 1]);
            }
        }
    }
    lemma_sum_insert(s, pos, nb);
    let t1 = if pos + 1 < t.len() && t[pos].addr + t[pos].size == t[pos + 1].addr {
        merge_at(t, pos)
    } else {
        t
    };
    if pos + 1 < t.len() && t[pos].addr + t[pos].size == t[pos + 1].addr {
        lemma_merge_at(t, pos, seg);
    }
    assert(blocks_ordered(t1) && blocks_in_range(t1, seg) && sum_sizes(t1) == sum_sizes(s)
        + freed);
    assert(0 <= pos < t1.len());
    assert(t1[pos].addr == hdr);
    if pos > 0 {
        assert(t1[pos - 1] == t[pos - 1] && t[pos - 1] == s[pos - 1]);
    }
    if pos > 0 && t1[pos - 1].addr + t1[pos - 1].size == t1[pos].addr {
        lemma_merge_at(t1, pos - 1, seg);
    }
}

impl<M> SimpleSeqFit<M> {
    /// Whether `ptr` with `count` objects of `size_of` bytes names a
    /// range that may be returned: a payload offset as allocation hands
    /// them out (an aligned control record right before it), a range
    /// that lies inside the segment past the header, and one that
    /// overlaps no free block.
    pub open spec fn dealloc_valid(&self, ptr: int, count: int, size_of: int) -> bool {
        let need = count * size_of;
        let freed = freed_bytes(count, size_of);
        let hdr = ptr - BLOCK_CTRL_ALIGNMENT;
        &&& ptr % (BLOCK_CTRL_ALIGNMENT as int) == 0
        &&& ptr >= SEGMENT_HEADER_BYTES + BLOCK_CTRL_ALIGNMENT
        &&& need + 31 <= usize::MAX
        &&& hdr + freed <= self.segment_bytes
        &&& range_free_of(self.blocks(), hdr, hdr + freed)
    }
}

impl<M: Mutex> SimpleSeqFit<M> {
    /// Merge free block `i` with the exactly touching block after it.
    #[verifier::rlimit(100)]
    fn merge_with_next(&mut self, i: usize)
        requires
            i + 1 < old(self).blocks().len(),
            blocks_in_range(old(self).blocks(), old(self).segment_bytes as int),
            old(self).blocks()[i as int].addr + old(self).blocks()[i as int].size == old(
                self,
            ).blocks()[i + 1].addr,
        ensures
            final(self).blocks() == merge_at(old(self).blocks(), i as int),
            final(self).segment_bytes == old(self).segment_bytes,
            final(self).allocated_bytes == old(self).allocated_bytes,
            final(self).mutex == old(self).mutex,
    {
        let ghost s = self.blocks();
        let n = self.free.len();
        let a = self.free[i];
        let b = self.free[i + 1];
        assert(a.addr + a.size + b.size <= self.segment_bytes);
        let merged = BlockCtrl { addr: a.addr, size: a.size + b.size };
        self.free.remove(i + 1);
        self.free.remove(i);
        self.free.insert(i, merged);
        proof {
            assert(self.blocks() =~= merge_at(s, i as int));
        }
    }

    /// Merge free block `i` with its successor when the two exactly
    /// touch; otherwise leave the list as it is.
    #[verifier::rlimit(100)]
    fn coalesce_at(&mut self, i: usize)
        requires
            i < old(self).blocks().len(),
            blocks_in_range(old(self).blocks(), old(self).segment_bytes as int),
        ensures
            final(self).blocks() == ({
                let s = old(self).blocks();
                if i + 1 < s.len() && s[i as int].addr + s[i as int].size == s[i + 1].addr {
                    merge_at(s, i as int)
                } else {
                    s
                }
            }),
            final(self).segment_bytes == old(self).segment_bytes,
            final(self).allocated_bytes == old(self).allocated_bytes,
            final(self).mutex == old(self).mutex,
    {
        let n = self.free.len();
        if i + 1 < n {
            let a = self.free[i];
            let b = self.free[i + 1];
            proof {
                assert(a.addr + a.size <= self.segment_bytes);
            }
            if a.addr + a.size == b.addr {
                self.merge_with_next(i);
            }
        }
    }

    /// Splice the freed range `[hdr, hdr + freed)` into the free list
    /// at position `pos` and merge it with either neighbour it exactly
    /// touches.
    #[verifier::rlimit(100)]
    fn splice(&mut self, pos: usize, hdr: usize, freed: usize)
        requires
            blocks_ordered(old(self).blocks()),
            blocks_in_range(old(self).blocks(), old(self).segment_bytes as int),
            pos as int == insert_pos(old(self).blocks(), hdr as int),
            hdr as int % (BLOCK_CTRL_ALIGNMENT as int) == 0,
            freed >= BLOCK_CTRL_ALIGNMENT,
            hdr >= SEGMENT_HEADER_BYTES,
            hdr + freed <= old(self).segment_bytes,
            range_free_of(old(self).blocks(), hdr as int, hdr as int + freed),
        ensures
            final(self).blocks() == dealloc_result(old(self).blocks(), hdr as int, freed as int),
            final(self).segment_bytes == old(self).segment_bytes,
            final(self).allocated_bytes == old(self).allocated_bytes,
            final(self).mutex == old(self).mutex,
    {
        let ghost s = self.blocks();
        let ghost seg = self.segment_bytes as int;
        proof {
            lemma_insert_pos(s, hdr as int);
            lemma_dealloc_result(s, hdr as int, freed as int, seg);
        }
        let nb = BlockCtrl { addr: hdr, size: freed };
        self.free.insert(pos, nb);
        let ghost t = s.insert(pos as int, nb);
        proof {
            assert(self.blocks() =~= t);
            s.insert_ensures(pos as int, nb);
        }
        self.coalesce_at(pos);
        let ghost t1 = if pos + 1 < t.len() && t[pos as int].addr + t[pos as int].size == t[pos
            + 1].addr {
            merge_at(t, pos as int)
        } else {
            t
        };
        proof {
            assert(self.blocks() == t1);
            if pos + 1 < t.len() && t[pos as int].addr + t[pos as int].size == t[pos + 1].addr {
                lemma_merge_at(t, pos as int, seg);
            }
            assert(t1[pos as int].addr == hdr);
            if pos > 0 {
                assert(t1[pos - 1] == t[pos - 1]);
                assert(t[pos - 1] == s[pos - 1]);
            }
        }
        if pos > 0 {
            self.coalesce_at(pos - 1);
        }
        proof {
            assert(self.blocks() == dealloc_result(s, hdr as int, freed as int));
        }
    }

    /// Return the allocation at payload offset `ptr` holding `count`
    /// objects of `size_of` bytes to the free space: the freed range is
    /// spliced into the free list at its address position and merged
    /// with either neighbour it exactly touches, and the freed bytes
    /// leave the allocated total.
    #[verifier::loop_isolation(false)]
    #[verifier::rlimit(100)]
    pub fn deallocate(&mut self, ptr: usize, count: usize, size_of: usize)
        requires
            old(self).wf(),
            old(self).dealloc_valid(ptr as int, count as int, size_of as int),
        ensures
            final(self).wf(),
            final(self).segment_bytes == old(self).segment_bytes,
            final(self).mutex == old(self).mutex,
            final(self).blocks() == dealloc_result(
                old(self).blocks(),
                ptr - BLOCK_CTRL_ALIGNMENT,
                freed_bytes(count as int, size_of as int),
            ),
            final(self).allocated_bytes == old(self).allocated_bytes - freed_bytes(
                count as int,
                size_of as int,
            ),
    {
        let need = count * size_of;
        let c0 = need + 31;
        let q = c0 / BLOCK_CTRL_ALIGNMENT;
        proof {
            assert(q as int * 16int <= c0 as int && q as int * 16int == ceil_align(16 + need, 16)
                && (q as int * 16int) % 16int == 0 && q as int * 16int >= 16) by (nonlinear_arith)
                requires
                    q as int == c0 as int / 16int && c0 == need + 31,
            ;
        }
        let freed = q * BLOCK_CTRL_ALIGNMENT;
        let hdr = ptr - BLOCK_CTRL_ALIGNMENT;
        let ghost s = self.blocks();
        let ghost seg = self.segment_bytes as int;
        proof {
            assert(freed == freed_bytes(count as int, size_of as int));
            lemma_insert_pos(s, hdr as int);
            lemma_dealloc_result(s, hdr as int, freed as int, seg);
        }
        let n = self.free.len();
        let mut pos: usize = 0;
        while pos < n && self.free[pos].addr <= hdr
            invariant
                0 <= pos <= n,
                self.free@ == old(self).free@,
                self.allocated_bytes == old(self).allocated_bytes,
                self.segment_bytes == old(self).segment_bytes,
                self.mutex == old(self).mutex,
                forall|j: int| 0 <= j < pos ==> (#[trigger] s[j]).addr <= hdr,
            decreases n - pos,
        {
            pos = pos + 1;
        }
        proof {
            assert(pos == insert_pos(s, hdr as int)) by {
                let ip = insert_pos(s, hdr as int);
                if ip < pos {
                    assert(s[ip as int].addr <= hdr);
                    assert(hdr < s[ip as int].addr);
                } else if ip > pos {
                    assert(pos < n);
                    assert(s[pos as int].addr <= hdr);
                    assert(s[pos as int].addr > hdr);
                }
            }
        }
        self.splice(pos, hdr, freed);
        proof {
            assert(sum_sizes(self.blocks()) == sum_sizes(s) + freed);
            assert(self.allocated_bytes >= freed) by {
                let d = self.blocks();
                assert(blocks_ordered(d) && blocks_in_range(d, seg));
                lemma_sum_bound(d, SEGMENT_HEADER_BYTES as int, seg);
            }
        }
        self.allocated_bytes = self.allocated_bytes - freed;
    }

    /// Move the allocation at `ptr` from `old_count` to `new_count`
    /// objects: allocate the new room first, then free the old range;
    /// on failure the old allocation is untouched.
    pub fn reallocate(&mut self, ptr: usize, old_count: usize, new_count: usize, size_of: usize,
        align_of: usize) -> (r: Result<usize, ErrorKind>)
        requires
            old(self).wf(),
            old(self).dealloc_valid(ptr as int, old_count as int, size_of as int),
            align_of >= 1,
            is_pow2(align_of as int),
        ensures
            final(self).wf(),
            final(self).segment_bytes == old(self).segment_bytes,
            final(self).mutex == old(self).mutex,
            r is Err ==> final(self).blocks() == old(self).blocks() && final(self).allocated_bytes
                == old(self).allocated_bytes,
            ({
                let s = old(self).blocks();
                let need = request_bytes(new_count as int, size_of as int);
                let align = align_of as int;
                if align_of > BLOCK_CTRL_ALIGNMENT || need + 31 > usize::MAX {
                    r == Err::<usize, ErrorKind>(ErrorKind::InvalidArgument)
                } else if find_fit(s, align, need) >= s.len() {
                    r == Err::<usize, ErrorKind>(ErrorKind::OutOfMemory)
                } else {
                    let i = find_fit(s, align, need);
                    let b = s[i];
                    let consumed = consumed_of(b, align, need);
                    let remainder = b.size - consumed;
                    let carved = if remainder > BLOCK_CTRL_ALIGNMENT {
                        s.update(
                            i,
                            (BlockCtrl {
                                addr: (b.addr + consumed) as usize,
                                size: remainder as usize,
                            }),
                        )
                    } else {
                        s.remove(i)
                    };
                    let consumed_total = if remainder > BLOCK_CTRL_ALIGNMENT {
                        consumed
                    } else {
                        b.size as int
                    };
                    let freed = freed_bytes(old_count as int, size_of as int);
                    &&& r == Ok::<usize, ErrorKind>(payload_of(b, align) as usize)
                    &&& final(self).blocks() == dealloc_result(
                        carved,
                        ptr - BLOCK_CTRL_ALIGNMENT,
                        freed,
                    )
                    &&& final(self).allocated_bytes == old(self).allocated_bytes + consumed_total
                        - freed
                }
            }),
    {
        let ghost s = self.blocks();
        let r = self.allocate(new_count, size_of, align_of);
        match r {
            Ok(p) => {
                proof {
                    lemma_find_fit(s, align_of as int, (new_count * size_of) as int);
                    let i = find_fit(s, align_of as int, (new_count * size_of) as int);
                    let hdr = ptr - BLOCK_CTRL_ALIGNMENT;
                    let freed = freed_bytes(old_count as int, size_of as int);
                    assert(range_free_of(self.blocks(), hdr as int, hdr + freed)) by {
                        let d = self.blocks();
                        assert forall|k: int|
                            0 <= k < d.len() implies ((#[trigger] d[k]).addr + d[k].size <= hdr
                            || hdr + freed <= d[k].addr) by {
                            let b = s[i];
                            let consumed = consumed_of(
                                b,
                                align_of as int,
                                (new_count * size_of) as int,
                            );
                            assert(block_fits(b, align_of as int, (new_count * size_of) as int));
                            if b.size - consumed > BLOCK_CTRL_ALIGNMENT {
                                if k == i {
                                    assert(d[k].addr == b.addr + consumed && d[k].size == b.size
                                        - consumed);
                                    assert(consumed >= 0) by {
                                        assert(b.addr as int % (BLOCK_CTRL_ALIGNMENT as int)
                                            == 0);
                                        lemma_consumed_simplify(
                                            b,
                                            align_of as int,
                                            (new_count * size_of) as int,
                                        );
                                        lemma_ceil_align_bounds(
                                            BLOCK_CTRL_ALIGNMENT + (new_count * size_of) as int,
                                            16,
                                        );
                                    }
                                    assert(b.addr + b.size <= hdr || hdr + freed <= b.addr);
                                } else {
                                    assert(d[k] == s[k]);
                                }
                            } else {
                                if k < i {
                                    assert(d[k] == s[k]);
                                } else {
                                    assert(d[k] == s[k + 1]);
                                }
                            }
                        }
                    }
                }
                self.deallocate(ptr, old_count, size_of);
                Ok(p)
            },
            Err(e) => Err(e),
        }
    }
}

impl<M: Mutex> crate::mem_algo::MemAlgo for SimpleSeqFit<M> {
    open spec fn inv(&self) -> bool {
        self.wf()
    }

    open spec fn can_dealloc(&self, ptr: usize, count: usize, size_of: usize) -> bool {
        self.dealloc_valid(ptr as int, count as int, size_of as int)
    }

    fn allocate(&mut self, count: usize, size_of: usize, align_of: usize) -> (r: Result<
        usize,
        ErrorKind,
    >) {
        SimpleSeqFit::allocate(self, count, size_of, align_of)
    }

    fn dealloc(&mut self, ptr: usize, count: usize, size_of: usize) {
        self.deallocate(ptr, count, size_of);
    }

    fn realloc(&mut self, ptr: usize, old_count: usize, new_count: usize, size_of: usize,
        align_of: usize) -> (r: Result<usize, ErrorKind>) {
        self.reallocate(ptr, old_count, new_count, size_of, align_of)
    }
}

/// Merging two touching blocks keeps any nonempty range that was
/// disjoint from the list disjoint from it.
pub proof fn lemma_merge_free_of(s: Seq<BlockCtrl>, i: int, lo: int, hi: int)
    requires
        0 <= i < s.len() - 1,
        s[i].addr + s[i].size == s[i + 1].addr,
        range_free_of(s, lo, hi),
        lo < hi,
    ensures
        range_free_of(merge_at(s, i), lo, hi),
{
    let m = merge_at(s, i);
    let u = s.update(i, (BlockCtrl { addr: s[i].addr, size: (s[i].size + s[i + 1].size) as usize }));
    u.remove_ensures(i + 1);
    assert forall|k: int| 0 <= k < m.len() implies ((#[trigger] m[k]).addr + m[k].size <= lo || hi
        <= m[k].addr) by {
        if k < i {
            assert(m[k] == u[k] && u[k] == s[k]);
        } else if k == i {
            assert(m[k] == u[k]);
            assert(s[i].addr + s[i].size <= lo || hi <= s[i].addr);
            assert(s[i + 1].addr + s[i + 1].size <= lo || hi <= s[i + 1].addr);
        } else {
            assert(m[k] == u[k + 1] && u[k + 1] == s[k + 1]);
        }
    }
}

/// Returning one range to the free list keeps any other nonempty range
/// that was disjoint from both of them free of the result.
pub proof fn lemma_dealloc_result_free_of(
    s: Seq<BlockCtrl>,
    hdr: int,
    freed: int,
    seg: int,
    lo: int,
    hi: int,
)
    requires
        blocks_ordered(s),
        blocks_in_range(s, seg),
        hdr % (BLOCK_CTRL_ALIGNMENT as int) == 0,
        freed >= BLOCK_CTRL_ALIGNMENT,
        hdr >= SEGMENT_HEADER_BYTES,
        hdr + freed <= seg,
        seg <= usize::MAX,
        range_free_of(s, hdr, hdr + freed),
        range_free_of(s, lo, hi),
        lo < hi,
        hi <= hdr || hdr + freed <= lo,
    ensures
        range_free_of(dealloc_result(s, hdr, freed), lo, hi),
{
    let pos = insert_pos(s, hdr);
    lemma_insert_pos(s, hdr);
    let nb = BlockCtrl { addr: hdr as usize, size: freed as usize };
    let t = s.insert(pos, nb);
    s.insert_ensures(pos, nb);
    assert(range_free_of(t, lo, hi)) by {
        assert forall|k: int| 0 <= k < t.len() implies ((#[trigger] t[k]).addr + t[k].size <= lo
            || hi <= t[k].addr) by {
            if k < pos {
                assert(t[k] == s[k]);
            } else if k > pos {
                assert(t[k] == s[k - 1]);
            }
        }
    }
    let t1 = if pos + 1 < t.len() && t[pos].addr + t[pos].size == t[pos + 1].addr {
        merge_at(t, pos)
    } else {
        t
    };
    if pos + 1 < t.len() && t[pos].addr + t[pos].size == t[pos + 1].addr {
        lemma_merge_free_of(t, pos, lo, hi);
    }
    if pos > 0 && t1[pos - 1].addr + t1[pos - 1].size == t1[pos].addr {
        lemma_merge_free_of(t1, pos - 1, lo, hi);
    }
}

/// Conservation: after every operation the allocated bytes, the free
/// bytes and the segment header together account for the whole segment.
pub proof fn lemma_conservation<M>(f: &SimpleSeqFit<M>)
    requires
        f.wf(),
    ensures
        f.allocated_bytes + sum_sizes(f.blocks()) + SEGMENT_HEADER_BYTES == f.segment_bytes,
{
}

/// Order: a traversal of the free list visits strictly ascending
/// addresses, and the chain is finite, so it ends at the sentinel.
pub proof fn lemma_traversal_ascending<M>(f: &SimpleSeqFit<M>)
    requires
        f.wf(),
    ensures
        forall|i: int, j: int|
            0 <= i < j < f.blocks().len() ==> (#[trigger] f.blocks()[i]).addr < (
            #[trigger] f.blocks()[j]).addr,
{
    assert forall|i: int, j: int| 0 <= i < j < f.blocks().len() implies (
    #[trigger] f.blocks()[i]).addr < (#[trigger] f.blocks()[j]).addr by {
        lemma_ordered_chain(f.blocks(), i, j);
    }
}

/// The address, relative to the segment start, that the in-band chain
/// link of block `i` aims at: the next block, or the sentinel embedded
/// in the segment header after the last block.
pub open spec fn chain_target<M>(f: &SimpleSeqFit<M>, i: int) -> int {
    if i + 1 < f.blocks().len() {
        f.blocks()[i + 1].addr as int
    } else {
        ROOT_BLOCK_OFFSET as int
    }
}

/// The self-relative pointer the in-band chain stores in block `i` when
/// the segment is mapped at `base`.
pub open spec fn chain_link<M>(f: &SimpleSeqFit<M>, base: int, i: int) -> crate::ptr::OffsetPtr {
    crate::ptr::OffsetPtr { offset: (chain_target(f, i) - f.blocks()[i].addr) as isize }
}

/// Containment: wherever the segment is mapped, every link of the
/// in-band chain — each block's link to its successor and the last
/// block's link back to the sentinel — resolves to an address inside
/// the mapped segment, as does the sentinel's own link to the first
/// block.
pub proof fn lemma_links_contained<M>(f: &SimpleSeqFit<M>, base: int)
    requires
        f.wf(),
        base >= 0,
        base + f.segment_bytes <= usize::MAX,
        f.segment_bytes <= isize::MAX,
    ensures
        forall|i: int|
            0 <= i < f.blocks().len() ==> base <= #[trigger] chain_link(f, base, i).resolve(
                base + f.blocks()[i].addr,
            ) < base + f.segment_bytes,
        f.blocks().len() > 0 ==> {
            let first = crate::ptr::OffsetPtr {
                offset: (f.blocks()[0].addr - ROOT_BLOCK_OFFSET) as isize,
            };
            base <= first.resolve(base + ROOT_BLOCK_OFFSET) < base + f.segment_bytes
        },
{
    assert forall|i: int| 0 <= i < f.blocks().len() implies base <= #[trigger] chain_link(
        f,
        base,
        i,
    ).resolve(base + f.blocks()[i].addr) < base + f.segment_bytes by {
        let t = chain_target(f, i);
        let a = f.blocks()[i].addr as int;
        assert(0 <= t < f.segment_bytes);
        assert(0 <= a < f.segment_bytes);
        assert(t - a <= isize::MAX && -(t - a) <= isize::MAX);
        assert(chain_link(f, base, i).offset as int == t - a);
        assert(chain_link(f, base, i).resolve(base + a) == base + t);
    }
    if f.blocks().len() > 0 {
        let a0 = f.blocks()[0].addr as int;
        assert(ROOT_BLOCK_OFFSET <= a0 < f.segment_bytes);
    }
}

/// Alloc/free round-trip: carving a request out of the free list and
/// then returning it restores the free list exactly, provided the
/// chosen block was either consumed whole or split with more than one
/// control record's worth left, and did not touch its neighbours.
#[verifier::rlimit(100)]
pub proof fn lemma_alloc_dealloc_round_trip(s: Seq<BlockCtrl>, align: int, need: int, seg: int)
    requires
        blocks_ordered(s),
        blocks_in_range(s, seg),
        seg <= usize::MAX,
        is_pow2(align),
        1 <= align <= BLOCK_CTRL_ALIGNMENT,
        need >= 0,
        need + 31 <= usize::MAX,
        find_fit(s, align, need) < s.len(),
        ({
            let i = find_fit(s, align, need);
            let remainder = s[i].size - consumed_of(s[i], align, need);
            remainder == 0 || remainder > BLOCK_CTRL_ALIGNMENT
        }),
        ({
            let i = find_fit(s, align, need);
            i > 0 ==> s[i - 1].addr + s[i - 1].size < s[i].addr
        }),
        ({
            let i = find_fit(s, align, need);
            i + 1 < s.len() ==> s[i].addr + s[i].size < s[i + 1].addr
        }),
    ensures
        ({
            let i = find_fit(s, align, need);
            let b = s[i];
            let consumed = consumed_of(b, align, need);
            let remainder = b.size - consumed;
            let carved = if remainder > BLOCK_CTRL_ALIGNMENT {
                s.update(
                    i,
                    (BlockCtrl { addr: (b.addr + consumed) as usize, size: remainder as usize }),
                )
            } else {
                s.remove(i)
            };
            dealloc_result(carved, b.addr as int, consumed) == s
        }),
{
    lemma_find_fit(s, align, need);
    let i = find_fit(s, align, need);
    let b = s[i];
    lemma_consumed_simplify(b, align, need);
    lemma_ceil_align_bounds(BLOCK_CTRL_ALIGNMENT + need, BLOCK_CTRL_ALIGNMENT as int);
    let consumed = consumed_of(b, align, need);
    let remainder = b.size - consumed;
    let hdr = b.addr as int;
    let fb = BlockCtrl { addr: b.addr, size: consumed as usize };
    if remainder > BLOCK_CTRL_ALIGNMENT {
        let nb = BlockCtrl { addr: (b.addr + consumed) as usize, size: remainder as usize };
        let carved = s.update(i, nb);
        let pos = insert_pos(carved, hdr);
        lemma_insert_pos(carved, hdr);
        assert(pos == i) by {
            assert forall|j: int| 0 <= j < i implies (#[trigger] carved[j]).addr < hdr by {
                assert(carved[j] == s[j]);
                lemma_ordered_chain(s, j, i);
            }
            assert(carved[i as int].addr > hdr);
            if pos < i {
                assert(carved[pos].addr <= hdr);
                assert(carved[pos].addr < hdr || carved[pos].addr > hdr);
            } else if pos > i {
                assert(carved[i as int].addr <= hdr);
            }
        }
        let t = carved.insert(i, fb);
        carved.insert_ensures(i, fb);
        assert(t[i].addr + t[i].size == t[i + 1].addr);
        let t1 = merge_at(t, i);
        assert(t1 == ({
            let u = if pos + 1 < t.len() && t[pos].addr + t[pos].size == t[pos + 1].addr {
                merge_at(t, pos)
            } else {
                t
            };
            u
        }));
        let big = BlockCtrl { addr: t[i].addr, size: (t[i].size + t[i + 1].size) as usize };
        let u = t.update(i, big);
        u.remove_ensures(i + 1);
        assert(t1 =~= s) by {
            assert(big == b);
            assert forall|k: int| 0 <= k < t1.len() implies t1[k] == s[k] by {
                if k < i {
                    assert(t1[k] == u[k] && u[k] == t[k] && t[k] == carved[k] && carved[k] == s[k]);
                } else if k == i {
                    assert(t1[k] == u[k] && u[k] == big);
                } else {
                    assert(t1[k] == u[k + 1] && u[k + 1] == t[k + 1] && t[k + 1] == carved[k]
                        && carved[k] == s[k]);
                }
            }
        }
        assert(t1.len() > 0 && 0 <= i < t1.len());
        if i > 0 {
            assert(t1[i - 1] == s[i - 1]);
            assert(t1[i - 1].addr + t1[i - 1].size < t1[i as int].addr);
        }
        assert(dealloc_result(carved, hdr, consumed) == t1);
    } else {
        assert(consumed == b.size);
        let carved = s.remove(i);
        s.remove_ensures(i);
        let pos = insert_pos(carved, hdr);
        lemma_insert_pos(carved, hdr);
        assert(pos == i) by {
            assert forall|j: int| 0 <= j < i implies (#[trigger] carved[j]).addr < hdr by {
                assert(carved[j] == s[j]);
                lemma_ordered_chain(s, j, i);
            }
            if i < carved.len() {
                assert(carved[i as int] == s[i + 1]);
                lemma_ordered_chain(s, i, i + 1);
            }
            if pos < i {
                assert(carved[pos].addr <= hdr);
                assert(carved[pos].addr < hdr);
            } else if pos > i {
                assert(pos <= carved.len());
                assert(i < carved.len());
                assert(carved[i as int].addr <= hdr);
            }
        }
        let t = carved.insert(i, fb);
        carved.insert_ensures(i, fb);
        assert(t =~= s) by {
            assert forall|k: int| 0 <= k < t.len() implies t[k] == s[k] by {
                if k < i {
                    assert(t[k] == carved[k] && carved[k] == s[k]);
                } else if k == i {
                    assert(t[k] == fb);
                    assert(fb == b);
                } else {
                    assert(t[k] == carved[k - 1] && carved[k - 1] == s[k]);
                }
            }
        }
        if i + 1 < t.len() {
            assert(t[i].addr + t[i].size < t[i + 1].addr);
        }
        if i > 0 {
            assert(t[i - 1].addr + t[i - 1].size < t[i].addr);
        }
        assert(dealloc_result(carved, hdr, consumed) == t);
    }
}

} // verus!
