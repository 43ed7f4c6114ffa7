//! The global heap's free-space accounting: a first-fit allocator over a
//! fixed arena, kept as an ordered list of blocks that partition the whole
//! arena. Allocation splits the first free block that fits; freeing marks
//! the block free again and coalesces it with free neighbours, so the list
//! never holds two adjacent free blocks. The `mem` shell command reads and
//! exercises this accounting; the arena's bytes themselves live on the board.

use vstd::prelude::*;

use crate::text::dec_chars;
use crate::text::hex_chars;

verus! {

/// The arena's size in bytes.
pub const HEAP_SIZE: usize = 2048;

/// The arena's base address: no block ever starts at zero, so a zero
/// pointer can always be rejected as invalid.
pub const HEAP_BASE: usize = 4096;

/// Allocation granularity in bytes: every block size is a multiple of this.
pub const HEAP_ALIGN: usize = 4;

/// One block of the arena, either handed out (`used`) or free.
#[derive(Clone, Copy, PartialEq, Eq, Structural, Debug)]
pub struct Block {
    pub off: usize,
    pub size: usize,
    pub used: bool,
}

/// The mathematical image of one block.
pub struct BlockModel {
    pub off: int,
    pub size: int,
    pub used: bool,
}

/// The blocks partition the arena in address order, every block is
/// non-empty, and no two adjacent blocks are both free.
pub open spec fn wf_blocks(s: Seq<BlockModel>) -> bool {
    &&& s.len() > 0
    &&& s[0].off == HEAP_BASE
    &&& forall|i: int|
        0 <= i < s.len() ==> (#[trigger] s[i]).size > 0 && s[i].off >= HEAP_BASE && s[i].off
            + s[i].size <= HEAP_BASE + HEAP_SIZE
    &&& forall|i: int| 0 <= i < s.len() - 1 ==> (#[trigger] s[i]).off + s[i].size == s[i + 1].off
    &&& s[s.len() - 1].off + s[s.len() - 1].size == HEAP_BASE + HEAP_SIZE
    &&& forall|i: int| 0 <= i < s.len() - 1 ==> !(!(#[trigger] s[i]).used && !s[i + 1].used)
}

/// The bytes not handed out.
pub open spec fn free_bytes(s: Seq<BlockModel>) -> int
    decreases s.len(),
{
    if s.len() == 0 {
        0
    } else {
        free_bytes(s.drop_last()) + if s.last().used {
            0
        } else {
            s.last().size
        }
    }
}

/// A request of `size` bytes occupies this many: rounded up to the
/// granularity, never zero.
pub open spec fn round_up(size: int) -> int {
    if size == 0 {
        HEAP_ALIGN as int
    } else {
        ((size + HEAP_ALIGN - 1) / (HEAP_ALIGN as int)) * (HEAP_ALIGN as int)
    }
}

/// The first block from `i` on that is free and holds `need` bytes, or -1.
pub open spec fn find_fit(s: Seq<BlockModel>, i: int, need: int) -> int
    decreases s.len() - i,
{
    if i < 0 || i >= s.len() {
        -1
    } else if !s[i].used && s[i].size >= need {
        i
    } else {
        find_fit(s, i + 1, need)
    }
}

/// The first block from `i` on that starts at `addr` and is in use, or -1.
pub open spec fn find_used(s: Seq<BlockModel>, i: int, addr: int) -> int
    decreases s.len() - i,
{
    if i < 0 || i >= s.len() {
        -1
    } else if s[i].off == addr && s[i].used {
        i
    } else {
        find_used(s, i + 1, addr)
    }
}

/// What allocating `need` bytes does: the first fitting free block is
/// taken, split when it is larger than the request, and its address
/// returned; with no fitting block, nothing changes.
pub open spec fn alloc_step(s: Seq<BlockModel>, need: int) -> Option<(Seq<BlockModel>, int)> {
    let j = find_fit(s, 0, need);
    if j == -1 {
        None
    } else {
        let b = s[j];
        if b.size == need {
            Some((s.update(j, BlockModel { off: b.off, size: b.size, used: true }), b.off))
        } else {
            Some(
                (
                    s.take(j) + seq![
                        BlockModel { off: b.off, size: need, used: true },
                        BlockModel { off: b.off + need, size: b.size - need, used: false },
                    ] + s.skip(j + 1),
                    b.off,
                ),
            )
        }
    }
}

/// What freeing the block at `addr` does: the used block starting there
/// becomes free and merges with free neighbours; with no used block at
/// `addr`, the request is invalid and nothing changes.
pub open spec fn free_step(s: Seq<BlockModel>, addr: int) -> Option<Seq<BlockModel>> {
    let j = find_used(s, 0, addr);
    if j == -1 {
        None
    } else {
        let lo = if j > 0 && !s[j - 1].used {
            j - 1
        } else {
            j
        };
        let hi = if j < s.len() - 1 && !s[j + 1].used {
            j + 1
        } else {
            j
        };
        let merged = BlockModel {
            off: s[lo].off,
            size: s[hi].off + s[hi].size - s[lo].off,
            used: false,
        };
        Some(s.take(lo) + seq![merged] + s.skip(hi + 1))
    }
}

/// The first-fit heap accounting.
pub struct Heap {
    blocks: Vec<Block>,
}

impl Heap {
    /// The block list as mathematical values.
    pub closed spec fn view_blocks(self) -> Seq<BlockModel> {
        Seq::new(
            self.blocks@.len(),
            |i: int|
                BlockModel {
                    off: self.blocks@[i].off as int,
                    size: self.blocks@[i].size as int,
                    used: self.blocks@[i].used,
                },
        )
    }

    pub open spec fn wf(self) -> bool {
        wf_blocks(self.view_blocks())
    }

    /// A fresh arena: one free block covering everything.
    pub fn new() -> (h: Heap)
        ensures
            h.wf(),
            h.view_blocks() =~= seq![
                BlockModel { off: HEAP_BASE as int, size: HEAP_SIZE as int, used: false },
            ],
    {
        let mut blocks: Vec<Block> = Vec::new();
        blocks.push(Block { off: HEAP_BASE, size: HEAP_SIZE, used: false });
        Heap { blocks }
    }

    /// Hands out `size` bytes, first fit, and returns the block's address;
    /// `None` when no free block is large enough, with nothing changed.
    pub fn allocate(&mut self, size: usize) -> (r: Option<usize>)
        requires
            old(self).wf(),
        ensures
            final(self).wf(),
            match r {
                Some(addr) => alloc_step(old(self).view_blocks(), round_up(size as int))
                    == Some((final(self).view_blocks(), addr as int)),
                None => alloc_step(old(self).view_blocks(), round_up(size as int)).is_none()
                    && final(self).view_blocks() == old(self).view_blocks(),
            },
    {
        if size > HEAP_SIZE {
            proof {
                lemma_no_fit(self.view_blocks(), 0, round_up(size as int));
            }
            return None;
        }
        let need: usize = if size == 0 {
            HEAP_ALIGN
        } else {
            ((size + (HEAP_ALIGN - 1)) / HEAP_ALIGN) * HEAP_ALIGN
        };
        let ghost s = self.view_blocks();
        let n = self.blocks.len();
        let mut j: usize = 0;
        while j < n
            invariant_except_break
                self.wf(),
                s == self.view_blocks(),
                n == self.blocks@.len(),
                j <= n,
                need == round_up(size as int),
                find_fit(s, 0, need as int) == find_fit(s, j as int, need as int),
            ensures
                self.wf(),
                s == self.view_blocks(),
                n == self.blocks@.len(),
                j <= n,
                need == round_up(size as int),
                if j < n {
                    find_fit(s, 0, need as int) == j && !s[j as int].used && s[j as int].size
                        >= need
                } else {
                    find_fit(s, 0, need as int) == -1
                },
            decreases n - j,
        {
            let b = self.blocks[j];
            if !b.used && b.size >= need {
                break;
            }
            j = j + 1;
        }
        if j == n {
            return None;
        }
        let b = self.blocks[j];
        if b.size == need {
            let e = &mut self.blocks[j];
            e.used = true;
            proof {
                let post = self.view_blocks();
                assert(post =~= s.update(
                    j as int,
                    BlockModel { off: b.off as int, size: b.size as int, used: true },
                ));
                lemma_wf_after_update_used(s, j as int);
            }
            Some(b.off)
        } else {
            let e = &mut self.blocks[j];
            e.size = need;
            e.used = true;
            let rest = Block { off: b.off + need, size: b.size - need, used: false };
            self.blocks.insert(j + 1, rest);
            proof {
                let post = self.view_blocks();
                let jj = j as int;
                assert(post =~= s.take(jj) + seq![
                    BlockModel { off: b.off as int, size: need as int, used: true },
                    BlockModel {
                        off: b.off as int + need as int,
                        size: b.size as int - need as int,
                        used: false,
                    },
                ] + s.skip(jj + 1));
                lemma_wf_after_split(s, jj, need as int);
            }
            Some(b.off)
        }
    }

    /// Returns the block at `addr` to the free list, coalescing with free
    /// neighbours; `false` when no block in use starts at `addr`, with
    /// nothing changed.
    pub fn free(&mut self, addr: usize) -> (r: bool)
        requires
            old(self).wf(),
        ensures
            final(self).wf(),
            if r {
                free_step(old(self).view_blocks(), addr as int)
                    == Some(final(self).view_blocks())
            } else {
                free_step(old(self).view_blocks(), addr as int).is_none()
                    && final(self).view_blocks() == old(self).view_blocks()
            },
    {
        let ghost s = self.view_blocks();
        let n = self.blocks.len();
        let mut j: usize = 0;
        while j < n
            invariant_except_break
                self.wf(),
                s == self.view_blocks(),
                n == self.blocks@.len(),
                j <= n,
                find_used(s, 0, addr as int) == find_used(s, j as int, addr as int),
            ensures
                self.wf(),
                s == self.view_blocks(),
                n == self.blocks@.len(),
                j <= n,
                if j < n {
                    find_used(s, 0, addr as int) == j && s[j as int].off == addr && s[
                        j as int
                    ].used
                } else {
                    find_used(s, 0, addr as int) == -1
                },
            decreases n - j,
        {
            let b = self.blocks[j];
            if b.off == addr && b.used {
                break;
            }
            j = j + 1;
        }
        if j == n {
            return false;
        }
        self.merge_at(j);
        true
    }

    /// Marks block `j` free and coalesces it with free neighbours.
    #[verifier::rlimit(100)]
    #[verifier::spinoff_prover]
    fn merge_at(&mut self, j: usize)
        requires
            old(self).wf(),
            j < old(self).view_blocks().len(),
            old(self).view_blocks()[j as int].used,
            find_used(old(self).view_blocks(), 0, old(self).view_blocks()[j as int].off) == j,
        ensures
            final(self).wf(),
            free_step(old(self).view_blocks(), old(self).view_blocks()[j as int].off) == Some(
                final(self).view_blocks(),
            ),
    {
        let ghost s = self.view_blocks();
        let n = self.blocks.len();
        let prev_free = j > 0 && !self.blocks[j - 1].used;
        let next_free = j + 1 < n && !self.blocks[j + 1].used;
        let lo: usize = if prev_free {
            j - 1
        } else {
            j
        };
        let hi: usize = if next_free {
            j + 1
        } else {
            j
        };
        let merged_off = self.blocks[lo].off;
        let merged_size = self.blocks[hi].off + self.blocks[hi].size - merged_off;
        let e = &mut self.blocks[lo];
        e.off = merged_off;
        e.size = merged_size;
        e.used = false;
        if prev_free {
            self.blocks.remove(lo + 1);
        }
        if next_free {
            self.blocks.remove(lo + 1);
        }
        proof {
            let post = self.view_blocks();
            let jj = j as int;
            let lo_i = lo as int;
            let hi_i = hi as int;
            assert(post =~= merge_result(s, lo_i, hi_i));
            lemma_merge_result_is_concat(s, lo_i, hi_i);
            lemma_wf_after_merge(s, jj, lo_i, hi_i);
        }
    }

    /// The free-space accounting the `mem` command reports.
    pub fn free_space(&self) -> (r: usize)
        requires
            self.wf(),
        ensures
            r == free_bytes(self.view_blocks()),
    {
        let ghost s = self.view_blocks();
        let n = self.blocks.len();
        let mut acc: usize = 0;
        let mut i: usize = 0;
        proof {
            assert(s.take(0) =~= Seq::<BlockModel>::empty());
            lemma_prefix_extent(s, s.len() as int);
        }
        while i < n
            invariant
                self.wf(),
                s == self.view_blocks(),
                n == self.blocks@.len(),
                i <= n,
                acc == free_bytes(s.take(i as int)),
                acc <= HEAP_SIZE,
            decreases n - i,
        {
            let b = self.blocks[i];
            proof {
                assert(s.take(i as int + 1).drop_last() =~= s.take(i as int));
                assert(s.take(i as int + 1).last() == s[i as int]);
                lemma_free_bytes_le_extent(s, i as int + 1);
            }
            if !b.used {
                acc = acc + b.size;
            }
            i = i + 1;
        }
        proof {
            assert(s.take(n as int) =~= s);
        }
        acc
    }

    /// The lines `mem info` prints: one per block, then the free total.
    pub fn dump(&self) -> (lines: Vec<String>)
        requires
            self.wf(),
        ensures
            lines.deep_view().len() == self.view_blocks().len() + 1,
            forall|i: int|
                0 <= i < self.view_blocks().len() ==> #[trigger] lines.deep_view()[i]
                    == block_line(self.view_blocks()[i]),
            lines.deep_view().last() == free_line(free_bytes(self.view_blocks())),
    {
        let ghost s = self.view_blocks();
        let mut lines: Vec<String> = Vec::new();
        let n = self.blocks.len();
        let mut i: usize = 0;
        while i < n
            invariant
                self.wf(),
                s == self.view_blocks(),
                n == self.blocks@.len(),
                i <= n,
                lines.deep_view().len() == i,
                forall|k: int|
                    0 <= k < i ==> #[trigger] lines.deep_view()[k] == block_line(s[k]),
            decreases n - i,
        {
            let b = self.blocks[i];
            let mut line = String::new();
            line.append("0x");
            let off_hex = hex_chars_exec(b.off as u64);
            line.append(off_hex.as_str());
            line.append(" +");
            let size_dec = crate::text::fmt_dec(b.size as u64);
            line.append(size_dec.as_str());
            if b.used {
                line.append(" used");
            } else {
                line.append(" free");
            }
            let ghost before = lines.deep_view();
            lines.push(line);
            proof {
                assert(lines.deep_view() =~= before.push(line@));
                assert(line@ == block_line(s[i as int]));
            }
            i = i + 1;
        }
        let free = self.free_space();
        let mut line = String::new();
        line.append("free ");
        let free_dec = crate::text::fmt_dec(free as u64);
        line.append(free_dec.as_str());
        let ghost before = lines.deep_view();
        lines.push(line);
        proof {
            assert(lines.deep_view() =~= before.push(line@));
        }
        lines
    }
}

/// The line `mem info` prints for one block.
pub open spec fn block_line(b: BlockModel) -> Seq<char> {
    "0x"@ + hex_chars(b.off as nat) + " +"@ + dec_chars(b.size as nat) + if b.used {
        " used"@
    } else {
        " free"@
    }
}

/// The closing line of a heap dump.
pub open spec fn free_line(free: int) -> Seq<char> {
    "free "@ + dec_chars(free as nat)
}

fn hex_chars_exec(n: u64) -> (s: String)
    ensures
        s@ == hex_chars(n as nat),
{
    crate::text::fmt_hex(n)
}

/// No block can hold a request larger than the whole arena.
proof fn lemma_no_fit(s: Seq<BlockModel>, i: int, need: int)
    requires
        wf_blocks(s),
        need > HEAP_SIZE,
        i >= 0,
    ensures
        find_fit(s, i, need) == -1,
    decreases s.len() - i,
{
    if i < s.len() {
        lemma_no_fit(s, i + 1, need);
    }
}

/// Marking one free block used keeps the list well formed.
proof fn lemma_wf_after_update_used(s: Seq<BlockModel>, j: int)
    requires
        wf_blocks(s),
        0 <= j < s.len(),
        !s[j].used,
    ensures
        wf_blocks(
            s.update(j, BlockModel { off: s[j].off, size: s[j].size, used: true }),
        ),
{
}


/// The list that splitting block `j` into a used head of `need` bytes and
/// a free tail produces, written pointwise.
pub open spec fn split_result(s: Seq<BlockModel>, j: int, need: int) -> Seq<BlockModel> {
    Seq::new(
        (s.len() + 1) as nat,
        |i: int|
            if i < j {
                s[i]
            } else if i == j {
                BlockModel { off: s[j].off, size: need, used: true }
            } else if i == j + 1 {
                BlockModel { off: s[j].off + need, size: s[j].size - need, used: false }
            } else {
                s[i - 1]
            },
    )
}

/// The list that freeing block `j` and merging blocks `lo..=hi` produces,
/// written pointwise.
pub open spec fn merge_result(s: Seq<BlockModel>, lo: int, hi: int) -> Seq<BlockModel> {
    Seq::new(
        (s.len() - (hi - lo)) as nat,
        |i: int|
            if i < lo {
                s[i]
            } else if i == lo {
                BlockModel {
                    off: s[lo].off,
                    size: s[hi].off + s[hi].size - s[lo].off,
                    used: false,
                }
            } else {
                s[i + (hi - lo)]
            },
    )
}

proof fn lemma_split_result_is_concat(s: Seq<BlockModel>, j: int, need: int)
    requires
        0 <= j < s.len(),
    ensures
        split_result(s, j, need) == s.take(j) + seq![
            BlockModel { off: s[j].off, size: need, used: true },
            BlockModel { off: s[j].off + need, size: s[j].size - need, used: false },
        ] + s.skip(j + 1),
{
    assert(split_result(s, j, need) =~= s.take(j) + seq![
        BlockModel { off: s[j].off, size: need, used: true },
        BlockModel { off: s[j].off + need, size: s[j].size - need, used: false },
    ] + s.skip(j + 1));
}

proof fn lemma_merge_result_is_concat(s: Seq<BlockModel>, lo: int, hi: int)
    requires
        0 <= lo <= hi < s.len(),
    ensures
        merge_result(s, lo, hi) == s.take(lo) + seq![
            BlockModel {
                off: s[lo].off,
                size: s[hi].off + s[hi].size - s[lo].off,
                used: false,
            },
        ] + s.skip(hi + 1),
{
    assert(merge_result(s, lo, hi) =~= s.take(lo) + seq![
        BlockModel {
            off: s[lo].off,
            size: s[hi].off + s[hi].size - s[lo].off,
            used: false,
        },
    ] + s.skip(hi + 1));
}

/// Splitting one free block into a used head and a free tail keeps the
/// list well formed.
#[verifier::rlimit(100)]
#[verifier::spinoff_prover]
proof fn lemma_wf_after_split(s: Seq<BlockModel>, j: int, need: int)
    requires
        wf_blocks(s),
        0 <= j < s.len(),
        !s[j].used,
        0 < need < s[j].size,
    ensures
        wf_blocks(
            s.take(j) + seq![
                BlockModel { off: s[j].off, size: need, used: true },
                BlockModel { off: s[j].off + need, size: s[j].size - need, used: false },
            ] + s.skip(j + 1),
        ),
{
    lemma_split_result_is_concat(s, j, need);
    let post = split_result(s, j, need);
    assert(post.len() == s.len() + 1);
    assert forall|i: int| 0 <= i < post.len() - 1 implies (#[trigger] post[i]).off + post[i].size
        == post[i + 1].off by {
        if i < j - 1 {
            assert(s[i].off + s[i].size == s[i + 1].off);
        } else if i == j - 1 {
            assert(s[j - 1].off + s[j - 1].size == s[j].off);
        } else if i >= j + 2 {
            assert(s[i - 1].off + s[i - 1].size == s[i].off);
        }
    }
    assert forall|i: int| 0 <= i < post.len() implies (#[trigger] post[i]).size > 0 && post[i].off
        >= HEAP_BASE && post[i].off + post[i].size <= HEAP_BASE + HEAP_SIZE by {
        if i < j {
            assert(s[i].size > 0 && s[i].off >= HEAP_BASE && s[i].off + s[i].size <= HEAP_BASE
                + HEAP_SIZE);
        } else if i <= j + 1 {
            assert(s[j].size > 0 && s[j].off >= HEAP_BASE && s[j].off + s[j].size <= HEAP_BASE
                + HEAP_SIZE);
        } else {
            assert(s[i - 1].size > 0 && s[i - 1].off >= HEAP_BASE && s[i - 1].off + s[i - 1].size
                <= HEAP_BASE + HEAP_SIZE);
        }
    }
    assert forall|i: int| 0 <= i < post.len() - 1 implies !(!(#[trigger] post[i]).used && !post[
        i + 1
    ].used) by {
        if i < j - 1 {
            assert(!(!s[i].used && !s[i + 1].used));
        } else if i == j + 1 {
            if j + 1 < s.len() {
                assert(!(!s[j].used && !s[j + 1].used));
            }
        } else if i >= j + 2 {
            assert(!(!s[i - 1].used && !s[i].used));
        }
    }
    assert(post[post.len() - 1].off + post[post.len() - 1].size == HEAP_BASE + HEAP_SIZE) by {
        if j + 1 < s.len() {
            assert(post[post.len() - 1] == s[s.len() - 1]);
        }
    }
}

/// Adjacency of the merged list.
#[verifier::rlimit(60)]
proof fn lemma_merge_adjacent(s: Seq<BlockModel>, lo: int, hi: int)
    requires
        wf_blocks(s),
        0 <= lo <= hi < s.len(),
    ensures
        forall|i: int|
            0 <= i < merge_result(s, lo, hi).len() - 1
                ==> (#[trigger] merge_result(s, lo, hi)[i]).off + merge_result(s, lo, hi)[i].size
                == merge_result(s, lo, hi)[i + 1].off,
{
    let post = merge_result(s, lo, hi);
    assert forall|i: int| 0 <= i < post.len() - 1 implies (#[trigger] post[i]).off + post[i].size
        == post[i + 1].off by {
        if i < lo - 1 {
            assert(s[i].off + s[i].size == s[i + 1].off);
        } else if i == lo - 1 {
            assert(s[lo - 1].off + s[lo - 1].size == s[lo].off);
        } else if i == lo {
            assert(s[hi].off + s[hi].size == s[hi + 1].off);
        } else {
            assert(s[i + hi - lo].off + s[i + hi - lo].size == s[i + hi - lo + 1].off);
        }
    }
}

/// Block bounds of the merged list.
#[verifier::rlimit(60)]
proof fn lemma_merge_bounds(s: Seq<BlockModel>, lo: int, hi: int)
    requires
        wf_blocks(s),
        0 <= lo <= hi < s.len(),
        hi - lo <= 2,
    ensures
        forall|i: int|
            0 <= i < merge_result(s, lo, hi).len() ==> (#[trigger] merge_result(s, lo, hi)[i]).size
                > 0 && merge_result(s, lo, hi)[i].off >= HEAP_BASE && merge_result(s, lo, hi)[i].off
                + merge_result(s, lo, hi)[i].size <= HEAP_BASE + HEAP_SIZE,
{
    let post = merge_result(s, lo, hi);
    assert forall|i: int| 0 <= i < post.len() implies (#[trigger] post[i]).size > 0 && post[i].off
        >= HEAP_BASE && post[i].off + post[i].size <= HEAP_BASE + HEAP_SIZE by {
        if i == lo {
            if lo < hi {
                assert(s[lo].off + s[lo].size == s[lo + 1].off);
                if lo + 1 < hi {
                    assert(s[lo + 1].off + s[lo + 1].size == s[lo + 2].off);
                }
            }
            assert(s[lo].off <= s[hi].off);
            assert(s[hi].off + s[hi].size <= HEAP_BASE + HEAP_SIZE);
        }
    }
}

/// The merged list still has no two adjacent free blocks.
#[verifier::rlimit(60)]
proof fn lemma_merge_no_adjacent_free(s: Seq<BlockModel>, j: int, lo: int, hi: int)
    requires
        wf_blocks(s),
        0 <= j < s.len(),
        s[j].used,
        lo == if j > 0 && !s[j - 1].used {
            j - 1
        } else {
            j
        },
        hi == if j < s.len() - 1 && !s[j + 1].used {
            j + 1
        } else {
            j
        },
    ensures
        forall|i: int|
            0 <= i < merge_result(s, lo, hi).len() - 1 ==> !(!(#[trigger] merge_result(
                s,
                lo,
                hi,
            )[i]).used && !merge_result(s, lo, hi)[i + 1].used),
{
    let post = merge_result(s, lo, hi);
    assert forall|i: int| 0 <= i < post.len() - 1 implies !(!(#[trigger] post[i]).used && !post[
        i + 1
    ].used) by {
        if i < lo - 1 {
            assert(!(!s[i].used && !s[i + 1].used));
        } else if i == lo - 1 {
            if lo == j {
                assert(s[j - 1].used);
            } else {
                assert(!(!s[lo - 1].used && !s[lo].used));
                assert(s[lo - 1].used);
            }
        } else if i == lo {
            if hi + 1 < s.len() {
                if hi == j {
                    assert(s[j + 1].used);
                } else {
                    assert(!(!s[hi].used && !s[hi + 1].used));
                    assert(s[hi + 1].used);
                }
            }
        } else {
            assert(!(!s[i + hi - lo].used && !s[i + hi - lo + 1].used));
        }
    }
}

/// Freeing block `j` and merging it with its free neighbours keeps the
/// list well formed.
#[verifier::rlimit(60)]
proof fn lemma_wf_after_merge(s: Seq<BlockModel>, j: int, lo: int, hi: int)
    requires
        wf_blocks(s),
        0 <= j < s.len(),
        s[j].used,
        lo == if j > 0 && !s[j - 1].used {
            j - 1
        } else {
            j
        },
        hi == if j < s.len() - 1 && !s[j + 1].used {
            j + 1
        } else {
            j
        },
    ensures
        wf_blocks(
            s.take(lo) + seq![
                BlockModel {
                    off: s[lo].off,
                    size: s[hi].off + s[hi].size - s[lo].off,
                    used: false,
                },
            ] + s.skip(hi + 1),
        ),
{
    lemma_merge_result_is_concat(s, lo, hi);
    let post = merge_result(s, lo, hi);
    assert(post.len() == s.len() - (hi - lo));
    lemma_merge_adjacent(s, lo, hi);
    lemma_merge_bounds(s, lo, hi);
    lemma_merge_no_adjacent_free(s, j, lo, hi);
    assert(post[0].off == HEAP_BASE) by {
        if lo > 0 {
            assert(post[0] == s[0]);
        }
    }
    assert(post[post.len() - 1].off + post[post.len() - 1].size == HEAP_BASE + HEAP_SIZE) by {
        if hi + 1 < s.len() {
            assert(post[post.len() - 1] == s[s.len() - 1]);
        } else {
            assert(hi == s.len() - 1);
        }
    }
}

/// The blocks up to `i` cover the arena exactly up to block `i`'s end.
proof fn lemma_prefix_extent(s: Seq<BlockModel>, i: int)
    requires
        wf_blocks(s),
        0 <= i <= s.len(),
    ensures
        free_bytes(s.take(i)) <= if i == 0 {
            0
        } else {
            s[i - 1].off + s[i - 1].size - HEAP_BASE
        },
    decreases i,
{
    if i > 0 {
        lemma_prefix_extent(s, i - 1);
        assert(s.take(i).drop_last() =~= s.take(i - 1));
        assert(s.take(i).last() == s[i - 1]);
        if i >= 2 {
            assert(s[i - 2].off + s[i - 2].size == s[i - 1].off);
        }
        lemma_free_bytes_nonneg(s.take(i - 1));
    }
}

proof fn lemma_free_bytes_nonneg(s: Seq<BlockModel>)
    requires
        forall|i: int| 0 <= i < s.len() ==> (#[trigger] s[i]).size > 0,
    ensures
        free_bytes(s) >= 0,
    decreases s.len(),
{
    if s.len() > 0 {
        lemma_free_bytes_nonneg(s.drop_last());
    }
}

/// A prefix's free bytes never exceed the arena.
proof fn lemma_free_bytes_le_extent(s: Seq<BlockModel>, i: int)
    requires
        wf_blocks(s),
        0 <= i <= s.len(),
    ensures
        free_bytes(s.take(i)) <= HEAP_SIZE,
{
    lemma_prefix_extent(s, i);
}

/// What the first-fit search guarantees about its result.
proof fn lemma_find_fit_props(s: Seq<BlockModel>, i: int, need: int)
    requires
        0 <= i,
    ensures
        find_fit(s, i, need) == -1 || (i <= find_fit(s, i, need) < s.len()
            && !s[find_fit(s, i, need)].used && s[find_fit(s, i, need)].size >= need),
    decreases s.len() - i,
{
    if i < s.len() && (s[i].used || s[i].size < need) {
        lemma_find_fit_props(s, i + 1, need);
    }
}

/// Block addresses strictly increase along the list.
proof fn lemma_offs_increasing(s: Seq<BlockModel>)
    requires
        wf_blocks(s),
    ensures
        forall|a: int, b: int|
            0 <= a < b < s.len() ==> (#[trigger] s[a]).off < (#[trigger] s[b]).off,
{
    assert forall|a: int, b: int| 0 <= a < b < s.len() implies (#[trigger] s[a]).off < (
    #[trigger] s[b]).off by {
        lemma_offs_increasing_pair(s, a, b);
    }
}

proof fn lemma_offs_increasing_pair(s: Seq<BlockModel>, a: int, b: int)
    requires
        wf_blocks(s),
        0 <= a < b < s.len(),
    ensures
        s[a].off < s[b].off,
    decreases b - a,
{
    assert(s[a].off + s[a].size == s[a + 1].off);
    if a + 1 < b {
        lemma_offs_increasing_pair(s, a + 1, b);
    }
}

/// The search for a used block finds `j` when `j` matches and every
/// earlier block starts elsewhere.
proof fn lemma_find_used_from(s: Seq<BlockModel>, i: int, j: int, addr: int)
    requires
        0 <= i <= j < s.len(),
        s[j].off == addr,
        s[j].used,
        forall|k: int| 0 <= k < j ==> (#[trigger] s[k]).off != addr,
    ensures
        find_used(s, i, addr) == j,
    decreases j - i,
{
    if i < j {
        lemma_find_used_from(s, i + 1, j, addr);
    }
}

/// With strictly increasing addresses, freeing block `j`'s address finds
/// exactly `j`.
proof fn lemma_find_used_first(s1: Seq<BlockModel>, j: int, addr: int)
    requires
        0 <= j < s1.len(),
        s1[j].off == addr,
        s1[j].used,
        forall|a: int, b: int|
            0 <= a < b < s1.len() ==> (#[trigger] s1[a]).off < (#[trigger] s1[b]).off,
    ensures
        find_used(s1, 0, addr) == j,
{
    assert forall|k: int| 0 <= k < j implies (#[trigger] s1[k]).off != addr by {
        assert(s1[k].off < s1[j].off);
    }
    lemma_find_used_from(s1, 0, j, addr);
}

/// Freeing right after an exact-fit allocation restores the old list.
#[verifier::rlimit(100)]
#[verifier::spinoff_prover]
proof fn lemma_roundtrip_exact(s: Seq<BlockModel>, need: int, j: int)
    requires
        wf_blocks(s),
        need > 0,
        j == find_fit(s, 0, need),
        0 <= j < s.len(),
        !s[j].used,
        s[j].size == need,
    ensures
        free_step(
            s.update(j, BlockModel { off: s[j].off, size: s[j].size, used: true }),
            s[j].off,
        ) == Some(s),
{
    let s1 = s.update(j, BlockModel { off: s[j].off, size: s[j].size, used: true });
    lemma_offs_increasing(s);
    assert forall|a: int, b: int| 0 <= a < b < s1.len() implies (#[trigger] s1[a]).off < (
    #[trigger] s1[b]).off by {
        assert(s[a].off < s[b].off);
    }
    lemma_find_used_first(s1, j, s[j].off);
    if j > 0 {
        assert(!(!s[j - 1].used && !s[j].used));
        assert(s1[j - 1].used);
    }
    if j < s.len() - 1 {
        assert(!(!s[j].used && !s[j + 1].used));
        assert(s1[j + 1].used);
    }
    assert(s1.take(j) + seq![
        BlockModel { off: s1[j].off, size: s1[j].off + s1[j].size - s1[j].off, used: false },
    ] + s1.skip(j + 1) =~= s);
}

/// Freeing right after a splitting allocation restores the old list.
#[verifier::rlimit(100)]
#[verifier::spinoff_prover]
proof fn lemma_roundtrip_split(s: Seq<BlockModel>, need: int, j: int)
    requires
        wf_blocks(s),
        need > 0,
        j == find_fit(s, 0, need),
        0 <= j < s.len(),
        !s[j].used,
        s[j].size > need,
    ensures
        free_step(split_result(s, j, need), s[j].off) == Some(s),
{
    let s1 = split_result(s, j, need);
    lemma_offs_increasing(s);
    assert forall|k: int| 0 <= k < j implies (#[trigger] s1[k]).off != s[j].off by {
        assert(s[k].off < s[j].off);
    }
    lemma_find_used_from(s1, 0, j, s[j].off);
    if j > 0 {
        assert(!(!s[j - 1].used && !s[j].used));
        assert(s1[j - 1].used);
    }
    assert(j < s1.len() - 1 && !s1[j + 1].used);
    assert(s1.take(j) + seq![
        BlockModel {
            off: s1[j].off,
            size: s1[j + 1].off + s1[j + 1].size - s1[j].off,
            used: false,
        },
    ] + s1.skip(j + 2) =~= s);
}

/// Allocating and then freeing the returned address restores the block
/// list exactly, so the free-space accounting is identical to what it was
/// before the pair of calls.
pub proof fn lemma_alloc_free_roundtrip(
    s: Seq<BlockModel>,
    need: int,
    s1: Seq<BlockModel>,
    addr: int,
)
    requires
        wf_blocks(s),
        need > 0,
        alloc_step(s, need) == Some((s1, addr)),
    ensures
        free_step(s1, addr) == Some(s),
        free_bytes(free_step(s1, addr).unwrap()) == free_bytes(s),
{
    let j = find_fit(s, 0, need);
    lemma_find_fit_props(s, 0, need);
    if s[j].size == need {
        lemma_roundtrip_exact(s, need, j);
    } else {
        lemma_split_result_is_concat(s, j, need);
        lemma_roundtrip_split(s, need, j);
    }
}

} // verus!
