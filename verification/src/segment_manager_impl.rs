//! The segment manager: a name directory layered over the allocator.
//!
//! Every named object is one allocation; the directory records its name,
//! payload offset, element count, element size and a type tag, so that a
//! typed lookup can refuse an object constructed under another type.
//! All mutating operations take the manager's mutex for their full
//! duration and release it on every exit path.
//!
//! The manager's invariant ties the directory to the allocator: every
//! entry's byte range lies inside the segment past the header, overlaps
//! no free block and no other entry, and no name appears twice.

use vstd::prelude::*;

use crate::err::ErrorKind;
use crate::mem_algo::simple_seq_fit::BLOCK_CTRL_ALIGNMENT;
use crate::mem_algo::simple_seq_fit::BlockCtrl;
use crate::mem_algo::simple_seq_fit::SEGMENT_HEADER_BYTES;
use crate::mem_algo::simple_seq_fit::SimpleSeqFit;
use crate::mem_algo::simple_seq_fit::block_fits;
use crate::mem_algo::simple_seq_fit::consumed_of;
use crate::mem_algo::simple_seq_fit::find_fit;
use crate::mem_algo::simple_seq_fit::freed_bytes;
use crate::mem_algo::simple_seq_fit::is_pow2;
use crate::mem_algo::simple_seq_fit::lemma_ceil_align_bounds;
use crate::mem_algo::simple_seq_fit::lemma_consumed_simplify;
use crate::mem_algo::simple_seq_fit::lemma_dealloc_result_free_of;
use crate::mem_algo::simple_seq_fit::lemma_find_fit;
use crate::mem_algo::simple_seq_fit::lemma_ordered_chain;
use crate::mem_algo::simple_seq_fit::range_free_of;
use crate::sync::Mutex;
use crate::SegmentManager;

verus! {

/// One record of the name directory.
pub struct NamedEntry {
    /// The object's name.
    pub name: String,
    /// Byte offset of the object's payload from the segment start.
    pub payload: usize,
    /// How many elements the object holds.
    pub count: usize,
    /// Size of one element in bytes.
    pub size_of: usize,
    /// Tag of the type the object was constructed under.
    pub type_hash: u64,
}

/// Byte offset of the control record in front of an entry's payload.
pub open spec fn entry_hdr(e: NamedEntry) -> int {
    e.payload - BLOCK_CTRL_ALIGNMENT
}

/// Bytes the entry's allocation occupies, control record included.
pub open spec fn entry_bytes(e: NamedEntry) -> int {
    freed_bytes(e.count as int, e.size_of as int)
}

/// An entry whose range is well-placed inside a segment of `seg` bytes.
pub open spec fn entry_ok(e: NamedEntry, seg: int) -> bool {
    &&& e.payload as int % (BLOCK_CTRL_ALIGNMENT as int) == 0
    &&& e.payload >= SEGMENT_HEADER_BYTES + BLOCK_CTRL_ALIGNMENT
    &&& e.count * e.size_of + 31 <= usize::MAX
    &&& entry_hdr(e) + entry_bytes(e) <= seg
}

/// The index of the first entry named `name`, or `s.len()` if none.
pub open spec fn find_name(s: Seq<NamedEntry>, name: Seq<char>) -> int
    decreases s.len(),
{
    if s.len() == 0 {
        0
    } else if s[0].name@ == name {
        0
    } else {
        1 + find_name(s.subrange(1, s.len() as int), name)
    }
}

/// Whether some entry is named `name`.
pub open spec fn has_name(s: Seq<NamedEntry>, name: Seq<char>) -> bool {
    find_name(s, name) < s.len()
}

/// What `find_name` finds: the first entry with the name, if any.
pub proof fn lemma_find_name(s: Seq<NamedEntry>, name: Seq<char>)
    ensures
        0 <= find_name(s, name) <= s.len(),
        forall|j: int| 0 <= j < find_name(s, name) ==> (#[trigger] s[j]).name@ != name,
        find_name(s, name) < s.len() ==> s[find_name(s, name)].name@ == name,
    decreases s.len(),
{
    if s.len() > 0 && s[0].name@ != name {
        let s1 = s.subrange(1, s.len() as int);
        lemma_find_name(s1, name);
        assert forall|j: int| 0 <= j < find_name(s, name) implies (#[trigger] s[j]).name@
            != name by {
            if j > 0 {
                assert(s[j] == s1[j - 1]);
            }
        }
    }
}

/// The directory is sound for a free list `blocks` in a segment of
/// `seg` bytes: every entry is well-placed, overlaps no free block and
/// no other entry, and no name repeats.
pub open spec fn entries_ok(s: Seq<NamedEntry>, blocks: Seq<BlockCtrl>, seg: int) -> bool {
    &&& forall|i: int| 0 <= i < s.len() ==> entry_ok(#[trigger] s[i], seg)
    &&& forall|i: int|
        0 <= i < s.len() ==> range_free_of(
            blocks,
            entry_hdr(#[trigger] s[i]),
            entry_hdr(s[i]) + entry_bytes(s[i]),
        )
    &&& forall|i: int, j: int|
        0 <= i < s.len() && 0 <= j < s.len() && i != j ==> (entry_hdr(#[trigger] s[i])
            + entry_bytes(s[i]) <= entry_hdr(#[trigger] s[j]) || entry_hdr(s[j]) + entry_bytes(
            s[j],
        ) <= entry_hdr(s[i]))
    &&& forall|i: int, j: int|
        0 <= i < s.len() && 0 <= j < s.len() && i != j ==> (#[trigger] s[i]).name@ != (
        #[trigger] s[j]).name@
}

impl<M: Mutex> SegmentManager<SimpleSeqFit<M>> {
    /// The directory as a sequence.
    pub open spec fn entries(&self) -> Seq<NamedEntry> {
        self.index@
    }

    /// The segment size in bytes.
    pub open spec fn seg(&self) -> int {
        self.algo.segment_bytes as int
    }

    /// The manager's invariant: the allocator is sound, the mutex is at
    /// rest between operations, and the directory is sound for the
    /// current free list.
    pub open spec fn inv(&self) -> bool {
        &&& self.algo.wf()
        &&& !self.algo.mutex.locked()
        &&& entries_ok(self.entries(), self.algo.blocks(), self.seg())
    }

    /// Lay a manager over a freshly initialized allocator: the
    /// directory starts empty.
    pub fn new(algo: SimpleSeqFit<M>) -> (r: Self)
        requires
            algo.wf(),
            !algo.mutex.locked(),
        ensures
            r.inv(),
            r.algo == algo,
            r.entries() == Seq::<NamedEntry>::empty(),
    {
        let r = SegmentManager { algo, index: Vec::new() };
        proof {
            assert(r.entries() =~= Seq::<NamedEntry>::empty());
        }
        r
    }

    /// Look for `name` in the directory and report its index.
    #[verifier::loop_isolation(false)]
    fn lookup(&self, name: &str) -> (r: usize)
        ensures
            r as int == find_name(self.entries(), name@),
    {
        let key: String = name.to_owned();
        let ghost s = self.entries();
        proof {
            lemma_find_name(s, name@);
        }
        let n = self.index.len();
        let mut k: usize = 0;
        while k < n
            invariant
                0 <= k <= n,
                n == s.len(),
                s == self.entries(),
                key@ == name@,
                forall|j: int| 0 <= j < k ==> (#[trigger] s[j]).name@ != name@,
            decreases n - k,
        {
            if self.index[k].name == key {
                proof {
                    assert(find_name(s, name@) == k) by {
                        let f = find_name(s, name@);
                        if f < k {
                            assert(s[f].name@ != name@);
                            assert(s[f].name@ == name@);
                        } else if f > k {
                            assert(s[k as int].name@ != name@);
                        }
                    }
                }
                return k;
            }
            k = k + 1;
        }
        proof {
            assert(find_name(s, name@) >= n);
        }
        n
    }

    /// Return a read-only view of the payload offset stored under
    /// `name`, when the entry exists and was constructed under the same
    /// type tag; an absent name yields nothing, a present name with a
    /// different tag is a type mismatch.
    pub fn find(&self, name: &str, type_hash: u64) -> (r: Result<Option<usize>, ErrorKind>)
        ensures
            ({
                let s = self.entries();
                let k = find_name(s, name@);
                if k >= s.len() {
                    r == Ok::<Option<usize>, ErrorKind>(None)
                } else if s[k].type_hash == type_hash {
                    r == Ok::<Option<usize>, ErrorKind>(Some(s[k].payload))
                } else {
                    r == Err::<Option<usize>, ErrorKind>(ErrorKind::TypeMismatch)
                }
            }),
    {
        let k = self.lookup(name);
        proof {
            lemma_find_name(self.entries(), name@);
        }
        if k >= self.index.len() {
            Ok(None)
        } else {
            let e = &self.index[k];
            if e.type_hash == type_hash {
                Ok(Some(e.payload))
            } else {
                Err(ErrorKind::TypeMismatch)
            }
        }
    }

    /// Like `find`, on a manager held exclusively; the lookup is made
    /// under the mutex.
    pub fn find_mut(&mut self, name: &str, type_hash: u64) -> (r: Result<Option<usize>, ErrorKind>)
        requires
            old(self).inv(),
        ensures
            final(self).inv(),
            final(self).entries() == old(self).entries(),
            final(self).algo.blocks() == old(self).algo.blocks(),
            final(self).algo.allocated_bytes == old(self).algo.allocated_bytes,
            final(self).algo.segment_bytes == old(self).algo.segment_bytes,
            ({
                let s = old(self).entries();
                let k = find_name(s, name@);
                if k >= s.len() {
                    r == Ok::<Option<usize>, ErrorKind>(None)
                } else if s[k].type_hash == type_hash {
                    r == Ok::<Option<usize>, ErrorKind>(Some(s[k].payload))
                } else {
                    r == Err::<Option<usize>, ErrorKind>(ErrorKind::TypeMismatch)
                }
            }),
    {
        self.algo.mutex.lock();
        let r = self.find(name, type_hash);
        self.algo.mutex.unlock();
        r
    }
}

/// Recording a fresh allocation keeps the directory sound: the new
/// entry's range was cut out of free block `i`, so it overlaps nothing
/// that remains free and nothing that was already recorded.
#[verifier::rlimit(100)]
pub proof fn lemma_construct_preserves(
    ents: Seq<NamedEntry>,
    e: NamedEntry,
    s0: Seq<BlockCtrl>,
    d: Seq<BlockCtrl>,
    i: int,
    seg: int,
)
    requires
        entries_ok(ents, s0, seg),
        crate::mem_algo::simple_seq_fit::blocks_ordered(s0),
        crate::mem_algo::simple_seq_fit::blocks_in_range(s0, seg),
        0 <= i < s0.len(),
        entry_hdr(e) == s0[i].addr,
        BLOCK_CTRL_ALIGNMENT <= entry_bytes(e) <= s0[i].size,
        entry_ok(e, seg),
        forall|j: int| 0 <= j < ents.len() ==> (#[trigger] ents[j]).name@ != e.name@,
        seg <= usize::MAX,
        d == s0.remove(i) || d == s0.update(
            i,
            (BlockCtrl {
                addr: (s0[i].addr + entry_bytes(e)) as usize,
                size: (s0[i].size - entry_bytes(e)) as usize,
            }),
        ),
    ensures
        entries_ok(ents.push(e), d, seg),
{
    let ents1 = ents.push(e);
    let ne = ents.len() as int;
    let b = s0[i];
    let lo = entry_hdr(e);
    let hi = entry_hdr(e) + entry_bytes(e);
    assert(b.addr <= lo && hi <= b.addr + b.size);
    assert(forall|j: int| 0 <= j < ne ==> ents1[j] == ents[j]);
    assert(ents1[ne] == e);
    // every block of d stays inside some block of s0
    assert forall|k: int|
        0 <= k < d.len() implies exists|k0: int|
            0 <= k0 < s0.len() && s0[k0].addr <= (#[trigger] d[k]).addr && d[k].addr + d[k].size
                <= s0[k0].addr + s0[k0].size by {
        if d == s0.remove(i) {
            if k < i {
                assert(s0[k].addr <= d[k].addr && d[k].addr + d[k].size <= s0[k].addr + s0[k].size);
            } else {
                assert(d[k] == s0[k + 1]);
                assert(s0[k + 1].addr <= d[k].addr && d[k].addr + d[k].size <= s0[k + 1].addr
                    + s0[k + 1].size);
            }
        } else {
            if k != i {
                assert(s0[k].addr <= d[k].addr && d[k].addr + d[k].size <= s0[k].addr + s0[k].size);
            } else {
                assert(s0[i].addr + entry_bytes(e) <= s0[i].addr + s0[i].size);
                assert(s0[i].addr + s0[i].size <= seg);
                assert(d[k].addr == s0[i].addr + entry_bytes(e));
                assert(d[k].size == s0[i].size - entry_bytes(e));
                assert(s0[i].addr <= d[k].addr && d[k].addr + d[k].size <= s0[i].addr
                    + s0[i].size);
            }
        }
    }
    // old entries stay free of the new blocks
    assert forall|ii: int| 0 <= ii < ents1.len() implies range_free_of(
        d,
        entry_hdr(#[trigger] ents1[ii]),
        entry_hdr(ents1[ii]) + entry_bytes(ents1[ii]),
    ) by {
        let elo = entry_hdr(ents1[ii]);
        let ehi = entry_hdr(ents1[ii]) + entry_bytes(ents1[ii]);
        assert forall|k: int| 0 <= k < d.len() implies ((#[trigger] d[k]).addr + d[k].size <= elo
            || ehi <= d[k].addr) by {
            let k0 = choose|k0: int|
                0 <= k0 < s0.len() && s0[k0].addr <= d[k].addr && d[k].addr + d[k].size
                    <= s0[k0].addr + s0[k0].size;
            if ii < ne {
                assert(range_free_of(s0, elo, ehi));
                assert(s0[k0].addr + s0[k0].size <= elo || ehi <= s0[k0].addr);
            } else {
                // the new entry: blocks inside block i sit past its range,
                // blocks elsewhere are separated from block i
                if d == s0.remove(i) {
                    if k < i {
                        lemma_ordered_chain(s0, k, i);
                        assert(d[k] == s0[k]);
                    } else {
                        assert(d[k] == s0[k + 1]);
                        lemma_ordered_chain(s0, i, k + 1);
                    }
                } else {
                    if k < i {
                        lemma_ordered_chain(s0, k, i);
                        assert(d[k] == s0[k]);
                    } else if k == i {
                        assert(b.addr + entry_bytes(e) <= b.addr + b.size <= seg);
                        assert(d[k].addr == b.addr + entry_bytes(e));
                    } else {
                        assert(d[k] == s0[k]);
                        lemma_ordered_chain(s0, i, k);
                    }
                }
            }
        }
    }
    // ranges pairwise disjoint and names distinct
    assert forall|ii: int, jj: int|
        0 <= ii < ents1.len() && 0 <= jj < ents1.len() && ii != jj implies (entry_hdr(
            #[trigger] ents1[ii],
        ) + entry_bytes(ents1[ii]) <= entry_hdr(#[trigger] ents1[jj]) || entry_hdr(ents1[jj])
            + entry_bytes(ents1[jj]) <= entry_hdr(ents1[ii])) by {
        if ii < ne && jj < ne {
            assert(ents1[ii] == ents[ii] && ents1[jj] == ents[jj]);
        } else if ii < ne {
            assert(ents1[jj] == e);
            assert(range_free_of(s0, entry_hdr(ents[ii]), entry_hdr(ents[ii]) + entry_bytes(
                ents[ii],
            )));
            assert(b.addr + b.size <= entry_hdr(ents[ii]) || entry_hdr(ents[ii]) + entry_bytes(
                ents[ii],
            ) <= b.addr);
        } else {
            assert(ents1[ii] == e && ents1[jj] == ents[jj]);
            assert(range_free_of(s0, entry_hdr(ents[jj]), entry_hdr(ents[jj]) + entry_bytes(
                ents[jj],
            )));
            assert(b.addr + b.size <= entry_hdr(ents[jj]) || entry_hdr(ents[jj]) + entry_bytes(
                ents[jj],
            ) <= b.addr);
        }
    }
    assert forall|ii: int, jj: int|
        0 <= ii < ents1.len() && 0 <= jj < ents1.len() && ii != jj implies (
        #[trigger] ents1[ii]).name@ != (#[trigger] ents1[jj]).name@ by {
        if ii < ne && jj < ne {
            assert(ents1[ii] == ents[ii] && ents1[jj] == ents[jj]);
        } else if ii < ne {
            assert(ents1[ii] == ents[ii] && ents1[jj] == e);
        } else {
            assert(ents1[ii] == e && ents1[jj] == ents[jj]);
        }
    }
}

/// Removing an entry and returning its range to the free space keeps
/// the directory sound: the other entries were disjoint from the freed
/// range and from everything already free.
#[verifier::rlimit(100)]
pub proof fn lemma_destroy_preserves(ents: Seq<NamedEntry>, k: int, s0: Seq<BlockCtrl>, seg: int)
    requires
        entries_ok(ents, s0, seg),
        crate::mem_algo::simple_seq_fit::blocks_ordered(s0),
        crate::mem_algo::simple_seq_fit::blocks_in_range(s0, seg),
        SEGMENT_HEADER_BYTES + BLOCK_CTRL_ALIGNMENT <= seg <= usize::MAX,
        0 <= k < ents.len(),
    ensures
        entries_ok(
            ents.remove(k),
            crate::mem_algo::simple_seq_fit::dealloc_result(
                s0,
                entry_hdr(ents[k]),
                entry_bytes(ents[k]),
            ),
            seg,
        ),
{
    let hdr = entry_hdr(ents[k]);
    let freed = entry_bytes(ents[k]);
    let d = crate::mem_algo::simple_seq_fit::dealloc_result(s0, hdr, freed);
    let ents1 = ents.remove(k);
    ents.remove_ensures(k);
    assert(freed >= BLOCK_CTRL_ALIGNMENT) by {
        lemma_ceil_align_bounds(
            BLOCK_CTRL_ALIGNMENT + ents[k].count * ents[k].size_of,
            BLOCK_CTRL_ALIGNMENT as int,
        );
    }
    assert(hdr % (BLOCK_CTRL_ALIGNMENT as int) == 0) by (nonlinear_arith)
        requires
            hdr == ents[k].payload - 16 && ents[k].payload as int % 16int == 0,
    ;
    assert forall|ii: int| 0 <= ii < ents1.len() implies range_free_of(
        d,
        entry_hdr(#[trigger] ents1[ii]),
        entry_hdr(ents1[ii]) + entry_bytes(ents1[ii]),
    ) by {
        let e = ents1[ii];
        let i0: int = if ii < k {
            ii
        } else {
            ii + 1
        };
        assert(e == ents[i0]);
        assert(entry_bytes(e) >= BLOCK_CTRL_ALIGNMENT) by {
            lemma_ceil_align_bounds(
                BLOCK_CTRL_ALIGNMENT + e.count * e.size_of,
                BLOCK_CTRL_ALIGNMENT as int,
            );
        }
        lemma_dealloc_result_free_of(
            s0,
            hdr,
            freed,
            seg,
            entry_hdr(e),
            entry_hdr(e) + entry_bytes(e),
        );
    }
    assert forall|ii: int, jj: int|
        0 <= ii < ents1.len() && 0 <= jj < ents1.len() && ii != jj implies (entry_hdr(
            #[trigger] ents1[ii],
        ) + entry_bytes(ents1[ii]) <= entry_hdr(#[trigger] ents1[jj]) || entry_hdr(ents1[jj])
            + entry_bytes(ents1[jj]) <= entry_hdr(ents1[ii])) by {
        let i0: int = if ii < k {
            ii
        } else {
            ii + 1
        };
        let j0: int = if jj < k {
            jj
        } else {
            jj + 1
        };
        assert(ents1[ii] == ents[i0] && ents1[jj] == ents[j0]);
    }
    assert forall|ii: int, jj: int|
        0 <= ii < ents1.len() && 0 <= jj < ents1.len() && ii != jj implies (
        #[trigger] ents1[ii]).name@ != (#[trigger] ents1[jj]).name@ by {
        let i0: int = if ii < k {
            ii
        } else {
            ii + 1
        };
        let j0: int = if jj < k {
            jj
        } else {
            jj + 1
        };
        assert(ents1[ii] == ents[i0] && ents1[jj] == ents[j0]);
    }
    assert forall|ii: int| 0 <= ii < ents1.len() implies entry_ok(#[trigger] ents1[ii], seg) by {
        let i0: int = if ii < k {
            ii
        } else {
            ii + 1
        };
        assert(ents1[ii] == ents[i0]);
    }
}

impl<M: Mutex> SegmentManager<SimpleSeqFit<M>> {
    /// Allocate room for the new object and record it; the caller holds
    /// the mutex and has checked that the name is absent.
    #[verifier::rlimit(100)]
    fn construct_inner(&mut self, name: &str, count: usize, size_of: usize, align_of: usize,
        type_hash: u64) -> (r: Result<usize, ErrorKind>)
        requires
            old(self).algo.wf(),
            entries_ok(old(self).entries(), old(self).algo.blocks(), old(self).seg()),
            !has_name(old(self).entries(), name@),
            align_of >= 1,
            is_pow2(align_of as int),
        ensures
            final(self).algo.wf(),
            entries_ok(final(self).entries(), final(self).algo.blocks(), final(self).seg()),
            final(self).seg() == old(self).seg(),
            final(self).algo.mutex == old(self).algo.mutex,
            ({
                let ents = old(self).entries();
                let s = old(self).algo.blocks();
                let need = count as int * size_of as int;
                let align = align_of as int;
                if align_of > BLOCK_CTRL_ALIGNMENT || need + 31 > usize::MAX {
                    &&& r == Err::<usize, ErrorKind>(ErrorKind::InvalidArgument)
                    &&& final(self).entries() == ents
                    &&& final(self).algo.blocks() == s
                    &&& final(self).algo.allocated_bytes == old(self).algo.allocated_bytes
                } else if find_fit(s, align, need) >= s.len() {
                    &&& r == Err::<usize, ErrorKind>(ErrorKind::OutOfMemory)
                    &&& final(self).entries() == ents
                    &&& final(self).algo.blocks() == s
                    &&& final(self).algo.allocated_bytes == old(self).algo.allocated_bytes
                } else {
                    let i = find_fit(s, align, need);
                    let b = s[i];
                    &&& r == Ok::<usize, ErrorKind>((b.addr + BLOCK_CTRL_ALIGNMENT) as usize)
                    &&& final(self).entries() == ents.push(final(self).entries().last())
                    &&& final(self).entries().last().name@ == name@
                    &&& final(self).entries().last().payload == b.addr + BLOCK_CTRL_ALIGNMENT
                    &&& final(self).entries().last().count == count
                    &&& final(self).entries().last().size_of == size_of
                    &&& final(self).entries().last().type_hash == type_hash
                }
            }),
    {
        let ghost s = self.algo.blocks();
        let ghost ents = self.entries();
        proof {
            lemma_find_name(ents, name@);
            lemma_find_fit(s, align_of as int, count as int * size_of as int);
        }
        let r = self.algo.allocate(count, size_of, align_of);
        match r {
            Err(e) => Err(e),
            Ok(payload) => {
                let e = NamedEntry { name: name.to_owned(), payload, count, size_of, type_hash };
                self.index.push(e);
                proof {
                    let need = count as int * size_of as int;
                    let align = align_of as int;
                    let i = find_fit(s, align, need);
                    let b = s[i];
                    let eg = self.entries().last();
                    assert(self.entries() =~= ents.push(eg));
                    assert(b.addr as int % (BLOCK_CTRL_ALIGNMENT as int) == 0);
                    lemma_consumed_simplify(b, align, need);
                    lemma_ceil_align_bounds(
                        BLOCK_CTRL_ALIGNMENT + need,
                        BLOCK_CTRL_ALIGNMENT as int,
                    );
                    assert(eg.payload == b.addr + BLOCK_CTRL_ALIGNMENT);
                    assert(eg.payload as int % (BLOCK_CTRL_ALIGNMENT as int) == 0)
                        by (nonlinear_arith)
                        requires
                            eg.payload == b.addr + 16 && b.addr as int % 16int == 0,
                    ;
                    assert(entry_hdr(eg) == b.addr);
                    assert(entry_bytes(eg) == consumed_of(b, align, need));
                    assert(block_fits(b, align, need));
                    assert(entry_ok(eg, self.seg()));
                    assert forall|j: int| 0 <= j < ents.len() implies (#[trigger] ents[j]).name@
                        != eg.name@ by {
                        assert(ents[j].name@ != name@);
                    }
                    lemma_construct_preserves(ents, eg, s, self.algo.blocks(), i, self.seg());
                }
                Ok(payload)
            },
        }
    }

    /// Allocate `count` objects of `size_of` bytes aligned to
    /// `align_of` and record them under `name` with the given type tag.
    /// Fails with the name taken, the request rejected, or no room; a
    /// failure leaves the segment untouched.
    pub fn construct(&mut self, name: &str, count: usize, size_of: usize, align_of: usize,
        type_hash: u64) -> (r: Result<usize, ErrorKind>)
        requires
            old(self).inv(),
            align_of >= 1,
            is_pow2(align_of as int),
        ensures
            final(self).inv(),
            final(self).seg() == old(self).seg(),
            ({
                let ents = old(self).entries();
                let s = old(self).algo.blocks();
                let need = count as int * size_of as int;
                let align = align_of as int;
                if has_name(ents, name@) {
                    &&& r == Err::<usize, ErrorKind>(ErrorKind::AlreadyExists)
                    &&& final(self).entries() == ents
                    &&& final(self).algo.blocks() == s
                    &&& final(self).algo.allocated_bytes == old(self).algo.allocated_bytes
                } else if align_of > BLOCK_CTRL_ALIGNMENT || need + 31 > usize::MAX {
                    &&& r == Err::<usize, ErrorKind>(ErrorKind::InvalidArgument)
                    &&& final(self).entries() == ents
                    &&& final(self).algo.blocks() == s
                    &&& final(self).algo.allocated_bytes == old(self).algo.allocated_bytes
                } else if find_fit(s, align, need) >= s.len() {
                    &&& r == Err::<usize, ErrorKind>(ErrorKind::OutOfMemory)
                    &&& final(self).entries() == ents
                    &&& final(self).algo.blocks() == s
                    &&& final(self).algo.allocated_bytes == old(self).algo.allocated_bytes
                } else {
                    let i = find_fit(s, align, need);
                    let b = s[i];
                    &&& r == Ok::<usize, ErrorKind>((b.addr + BLOCK_CTRL_ALIGNMENT) as usize)
                    &&& final(self).entries() == ents.push(final(self).entries().last())
                    &&& final(self).entries().last().name@ == name@
                    &&& final(self).entries().last().payload == b.addr + BLOCK_CTRL_ALIGNMENT
                    &&& final(self).entries().last().count == count
                    &&& final(self).entries().last().size_of == size_of
                    &&& final(self).entries().last().type_hash == type_hash
                }
            }),
    {
        self.algo.mutex.lock();
        let k = self.lookup(name);
        proof {
            lemma_find_name(self.entries(), name@);
        }
        if k < self.index.len() {
            self.algo.mutex.unlock();
            return Err(ErrorKind::AlreadyExists);
        }
        let r = self.construct_inner(name, count, size_of, align_of, type_hash);
        self.algo.mutex.unlock();
        r
    }

    /// Find the object named `name` constructed under the same type
    /// tag, or construct it; a present name with a different tag is a
    /// type mismatch.  All of it happens under one hold of the mutex.
    pub fn find_or_construct(&mut self, name: &str, count: usize, size_of: usize, align_of: usize,
        type_hash: u64) -> (r: Result<usize, ErrorKind>)
        requires
            old(self).inv(),
            align_of >= 1,
            is_pow2(align_of as int),
        ensures
            final(self).inv(),
            final(self).seg() == old(self).seg(),
            ({
                let ents = old(self).entries();
                let k = find_name(ents, name@);
                if k < ents.len() {
                    if ents[k].type_hash == type_hash {
                        &&& r == Ok::<usize, ErrorKind>(ents[k].payload)
                        &&& final(self).entries() == ents
                        &&& final(self).algo.blocks() == old(self).algo.blocks()
                    } else {
                        &&& r == Err::<usize, ErrorKind>(ErrorKind::TypeMismatch)
                        &&& final(self).entries() == ents
                        &&& final(self).algo.blocks() == old(self).algo.blocks()
                    }
                } else {
                    let s = old(self).algo.blocks();
                    let need = count as int * size_of as int;
                    let align = align_of as int;
                    if align_of > BLOCK_CTRL_ALIGNMENT || need + 31 > usize::MAX {
                        &&& r == Err::<usize, ErrorKind>(ErrorKind::InvalidArgument)
                        &&& final(self).entries() == ents
                        &&& final(self).algo.blocks() == s
                    } else if find_fit(s, align, need) >= s.len() {
                        &&& r == Err::<usize, ErrorKind>(ErrorKind::OutOfMemory)
                        &&& final(self).entries() == ents
                        &&& final(self).algo.blocks() == s
                    } else {
                        let i = find_fit(s, align, need);
                        let b = s[i];
                        &&& r == Ok::<usize, ErrorKind>((b.addr + BLOCK_CTRL_ALIGNMENT) as usize)
                        &&& final(self).entries() == ents.push(final(self).entries().last())
                        &&& final(self).entries().last().name@ == name@
                        &&& final(self).entries().last().payload == b.addr + BLOCK_CTRL_ALIGNMENT
                        &&& final(self).entries().last().count == count
                        &&& final(self).entries().last().size_of == size_of
                        &&& final(self).entries().last().type_hash == type_hash
                    }
                }
            }),
    {
        self.algo.mutex.lock();
        let k = self.lookup(name);
        proof {
            lemma_find_name(self.entries(), name@);
        }
        if k < self.index.len() {
            let hit = self.index[k].type_hash == type_hash;
            let payload = self.index[k].payload;
            self.algo.mutex.unlock();
            if hit {
                return Ok(payload);
            } else {
                return Err(ErrorKind::TypeMismatch);
            }
        }
        let r = self.construct_inner(name, count, size_of, align_of, type_hash);
        self.algo.mutex.unlock();
        r
    }

    /// Remove the object named `name` from the directory and return its
    /// bytes to the free space; an absent name is reported.
    #[verifier::rlimit(100)]
    pub fn destroy(&mut self, name: &str) -> (r: Result<(), ErrorKind>)
        requires
            old(self).inv(),
        ensures
            final(self).inv(),
            final(self).seg() == old(self).seg(),
            ({
                let ents = old(self).entries();
                let k = find_name(ents, name@);
                if k >= ents.len() {
                    &&& r == Err::<(), ErrorKind>(ErrorKind::NotFound)
                    &&& final(self).entries() == ents
                    &&& final(self).algo.blocks() == old(self).algo.blocks()
                } else {
                    &&& r == Ok::<(), ErrorKind>(())
                    &&& final(self).entries() == ents.remove(k)
                    &&& final(self).algo.blocks() == crate::mem_algo::simple_seq_fit::dealloc_result(
                        old(self).algo.blocks(),
                        entry_hdr(ents[k]),
                        entry_bytes(ents[k]),
                    )
                }
            }),
    {
        self.algo.mutex.lock();
        let k = self.lookup(name);
        proof {
            lemma_find_name(self.entries(), name@);
        }
        if k >= self.index.len() {
            self.algo.mutex.unlock();
            return Err(ErrorKind::NotFound);
        }
        let ghost ents = self.entries();
        let ghost s = self.algo.blocks();
        let payload = self.index[k].payload;
        let count = self.index[k].count;
        let size_of = self.index[k].size_of;
        proof {
            let e = ents[k as int];
            assert(entry_ok(e, self.seg()));
            assert(payload as int % (BLOCK_CTRL_ALIGNMENT as int) == 0);
            assert(range_free_of(s, entry_hdr(e), entry_hdr(e) + entry_bytes(e)));
            assert(self.algo.dealloc_valid(payload as int, count as int, size_of as int));
        }
        self.algo.deallocate(payload, count, size_of);
        self.index.remove(k);
        proof {
            lemma_destroy_preserves(ents, k as int, s, self.seg());
            assert(self.entries() =~= ents.remove(k as int));
        }
        self.algo.mutex.unlock();
        Ok(())
    }
}

/// Name directory round trip: a name not yet present is found right
/// after its entry is recorded, with the payload that was recorded, and
/// is no longer found after that entry is removed again.
pub proof fn lemma_name_directory(ents: Seq<NamedEntry>, e: NamedEntry)
    requires
        !has_name(ents, e.name@),
    ensures
        has_name(ents.push(e), e.name@),
        find_name(ents.push(e), e.name@) == ents.len(),
        ents.push(e)[find_name(ents.push(e), e.name@)].payload == e.payload,
        ents.push(e).remove(find_name(ents.push(e), e.name@)) == ents,
        !has_name(ents.push(e).remove(find_name(ents.push(e), e.name@)), e.name@),
{
    let s1 = ents.push(e);
    lemma_find_name(ents, e.name@);
    lemma_find_name(s1, e.name@);
    let f = find_name(s1, e.name@);
    assert(s1[ents.len() as int].name@ == e.name@);
    assert(f == ents.len()) by {
        if f < ents.len() {
            assert(s1[f] == ents[f]);
            assert(ents[f].name@ == e.name@);
            assert(f < find_name(ents, e.name@));
        }
    }
    assert(s1.remove(f) =~= ents);
}

} // verus!
