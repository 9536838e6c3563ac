//! Handing out blocks of physical memory from the usable regions of the memory
//! map: the bootloader takes the cores' stacks from it, and the kernel its
//! frames.
use vstd::prelude::*;
use vstd::arithmetic::div_mod::{lemma_fundamental_div_mod, lemma_fundamental_div_mod_converse};
use crate::memory_map::{
    addrs_fit, end_of, start_of, FrameRange, MemoryMap, MemoryRegion, MemoryRegionType, PAGE_SIZE,
};

verus! {

/// The end address of a range after it is cut back to a multiple of `xsize` in
/// size, as the cut range holds it (rounded up to a page).
pub open spec fn trimmed_end(r: FrameRange, xsize: int) -> int {
    let diff = (end_of(r) - start_of(r)) % xsize;
    if diff != 0 {
        ((end_of(r) - diff - 1) / PAGE_SIZE as int + 1) * PAGE_SIZE
    } else {
        end_of(r)
    }
}

/// The part of a range in which blocks of `xsize` bytes aligned to `align` are
/// handed out: the range cut back to a multiple of `xsize` in size, then its start
/// moved up to the alignment (nothing when it moves past the end).
pub open spec fn block_range(r: FrameRange, xsize: int, align: int) -> (int, int) {
    let s = start_of(r);
    let e = trimmed_end(r, xsize);
    let rest = s % align;
    if rest != 0 {
        let n = s + (align - rest);
        if n > e {
            (0, 0)
        } else {
            (n, e)
        }
    } else {
        (s, e)
    }
}

/// The addresses from `a`, `xsize` bytes apart, of the blocks of `xsize` bytes
/// that end by `e`.
pub open spec fn steps_from(a: int, e: int, xsize: int) -> Seq<u64> {
    if a <= e {
        Seq::new(((e - a) / xsize) as nat, |k: int| (a + k * xsize) as u64)
    } else {
        Seq::empty()
    }
}

/// The blocks a region hands out: for a usable region whose block range holds
/// at least `xsize` bytes, the addresses from its start, `xsize` bytes apart.
pub open spec fn region_blocks(r: MemoryRegion, xsize: int, align: int) -> Seq<u64> {
    if r.region_type == MemoryRegionType::Usable {
        let (a, e) = block_range(r.range, xsize, align);
        if e - a >= xsize {
            steps_from(a, e, xsize)
        } else {
            Seq::empty()
        }
    } else {
        Seq::empty()
    }
}

/// The blocks the regions `i..n` hand out, region after region.
pub open spec fn blocks_from(s: Seq<MemoryRegion>, i: int, n: int, xsize: int, align: int) -> Seq<u64>
    decreases n - i,
{
    if i < 0 || i >= n {
        Seq::empty()
    } else {
        region_blocks(s[i], xsize, align) + blocks_from(s, i + 1, n, xsize, align)
    }
}

/// The blocks the map hands out.
pub open spec fn map_blocks(map: MemoryMap, xsize: int, align: int) -> Seq<u64> {
    blocks_from(map.entries(), 0, map.next(), xsize, align)
}

/// Whether cutting a region to blocks computes its addresses without overflow.
pub open spec fn region_cut_ok(r: MemoryRegion, xsize: int, align: int) -> bool {
    r.region_type == MemoryRegionType::Usable ==> {
        let s = start_of(r.range);
        let e = end_of(r.range);
        &&& addrs_fit(r.range)
        &&& s <= e
        &&& (e - s) % xsize != 0 ==> e - (e - s) % xsize >= 1
        &&& s % align != 0 ==> s + (align - s % align) <= u64::MAX
    }
}

/// Whether cutting every used region to blocks computes its addresses without
/// overflow.
pub open spec fn cut_ok(map: MemoryMap, xsize: int, align: int) -> bool {
    forall|i: int| 0 <= i < map.next() ==> region_cut_ok(#[trigger] map.entries()[i], xsize, align)
}

/// Whether cutting the region to blocks computes its addresses without overflow.
fn region_cut_fits(r: &MemoryRegion, xsize: u64, align: u64) -> (b: bool)
    requires
        xsize > 0,
        align > 0,
    ensures
        b == region_cut_ok(*r, xsize as int, align as int),
{
    if r.region_type != MemoryRegionType::Usable {
        return true;
    }
    let max_frame: u64 = 0xf_ffff_ffff_ffff;
    if r.range.start_frame_number > max_frame || r.range.end_frame_number > max_frame {
        return false;
    }
    let s = r.range.start_addr();
    let e = r.range.end_addr();
    if s > e {
        return false;
    }
    let d = (e - s) % xsize;
    assert(d <= e - s) by (nonlinear_arith)
        requires
            xsize > 0,
            e >= s,
            d == (e - s) as int % (xsize as int),
    ;
    if d != 0 && e - d < 1 {
        return false;
    }
    let rest = s % align;
    if rest != 0 && s > u64::MAX - (align - rest) {
        return false;
    }
    true
}

/// Whether cutting every used region of the map to blocks of `xsize` bytes
/// aligned to `align` computes its addresses without overflow.
pub fn cut_fits(map: &MemoryMap, xsize: u64, align: u64) -> (b: bool)
    requires
        map.wf(),
        xsize > 0,
        align > 0,
    ensures
        b == cut_ok(*map, xsize as int, align as int),
{
    let n = map.next_entry_index();
    let mut i: usize = 0;
    while i < n
        invariant
            map.wf(),
            n == map.next(),
            i <= n,
            xsize > 0,
            align > 0,
            forall|j: int| 0 <= j < i ==> region_cut_ok(#[trigger] map.entries()[j], xsize as int, align as int),
        decreases n - i,
    {
        let region = map.region_at(i);
        if !region_cut_fits(&region, xsize, align) {
            return false;
        }
        i = i + 1;
    }
    true
}

/// Hands out blocks of `xsize` bytes aligned to `align` from the usable regions
/// of a memory map, in the order of the map.
pub struct XsizeFrames<'a> {
    map: &'a MemoryMap,
    xsize: u64,
    align: u64,
    idx: usize,
    cur: u64,
    end: u64,
    in_block: bool,
}

/// A frame allocator over the usable regions of the bootloader's memory map.
pub struct BootInfoFrameAllocator<'a> {
    memory_map: &'a MemoryMap,
    next: usize,
}

proof fn lemma_page_multiple(x: int)
    requires
        x >= 1,
        x % 4096 == 0,
    ensures
        ((x - 1) / 4096 + 1) * 4096 == x,
        (x / 4096) * 4096 == x,
{
    lemma_fundamental_div_mod(x, 4096);
    lemma_fundamental_div_mod_converse(x - 1, 4096, x / 4096 - 1, 4095);
}

proof fn lemma_page_times(f: int)
    requires
        f >= 0,
    ensures
        (f * 4096) % 4096 == 0,
{
    lemma_fundamental_div_mod_converse(f * 4096, 4096, f, 0);
}

proof fn lemma_align_up_page(s: int, align: int)
    requires
        s >= 0,
        align > 0,
        s % 4096 == 0,
        align % 4096 == 0,
    ensures
        (s + (align - s % align)) % 4096 == 0,
        s % align % 4096 == 0,
{
    lemma_fundamental_div_mod(s, align);
    let q = s / align;
    let r = s % align;
    lemma_fundamental_div_mod(align, 4096);
    lemma_fundamental_div_mod(s, 4096);
    let m = align / 4096;
    let t = s / 4096;
    assert(r == 4096 * (t - q * m)) by (nonlinear_arith)
        requires
            s == align * q + r,
            align == 4096 * m,
            s == 4096 * t,
    ;
    assert(r >= 0);
    lemma_fundamental_div_mod_converse(r, 4096, t - q * m, 0);
    assert(s + (align - r) == 4096 * (t + m - (t - q * m))) by (nonlinear_arith)
        requires
            align == 4096 * m,
            s == 4096 * t,
            r == 4096 * (t - q * m),
    ;
    lemma_fundamental_div_mod_converse(s + (align - r), 4096, t + m - (t - q * m), 0);
}

/// Dropping the first of the steps from `a` leaves the steps from `a + xsize`.
proof fn lemma_steps_drop_first(a: int, e: int, xsize: int)
    requires
        a + xsize <= e,
        xsize > 0,
    ensures
        steps_from(a, e, xsize).len() >= 1,
        steps_from(a, e, xsize)[0] == a as u64,
        steps_from(a, e, xsize).drop_first() == steps_from(a + xsize, e, xsize),
{
    let d = e - a;
    let c = d / xsize;
    lemma_fundamental_div_mod(d, xsize);
    let r = d % xsize;
    assert(c >= 1) by (nonlinear_arith)
        requires
            d == xsize * c + r,
            0 <= r < xsize,
            d >= xsize,
    ;
    assert(d - xsize == (c - 1) * xsize + r) by (nonlinear_arith)
        requires
            d == xsize * c + r,
    ;
    lemma_fundamental_div_mod_converse(d - xsize, xsize, c - 1, r);
    assert(steps_from(a, e, xsize).drop_first() =~= steps_from(a + xsize, e, xsize)) by {
        assert forall|k: int| 0 <= k < c - 1 implies #[trigger] steps_from(a, e, xsize).drop_first()[k]
            == steps_from(a + xsize, e, xsize)[k] by {
            assert((a + (k + 1) * xsize) == (a + xsize + k * xsize)) by (nonlinear_arith);
        }
    }
}

impl<'a> XsizeFrames<'a> {
    /// The blocks still to come.
    pub closed spec fn remaining(&self) -> Seq<u64> {
        (if self.in_block {
            steps_from(self.cur as int, self.end as int, self.xsize as int)
        } else {
            Seq::empty()
        }) + blocks_from(
            self.map.entries(),
            self.idx as int,
            self.map.next(),
            self.xsize as int,
            self.align as int,
        )
    }

    closed spec fn inv(&self) -> bool {
        &&& self.map.wf()
        &&& cut_ok(*self.map, self.xsize as int, self.align as int)
        &&& self.xsize > 0
        &&& self.align > 0
        &&& self.align % 4096 == 0
        &&& self.idx <= self.map.next()
        &&& self.in_block ==> self.cur + self.xsize <= self.end
    }

    /// Whether the blocks come from a valid map with a positive block size.
    pub closed spec fn valid(&self) -> bool {
        self.inv()
    }

    /// The block range of region `i` (see `block_range`).
    fn block_of(&self, i: usize) -> (r: (u64, u64))
        requires
            self.inv(),
            i < self.map.next(),
            self.map.entries()[i as int].region_type == MemoryRegionType::Usable,
        ensures
            r.0 == block_range(self.map.entries()[i as int].range, self.xsize as int, self.align as int).0,
            r.1 == block_range(self.map.entries()[i as int].range, self.xsize as int, self.align as int).1,
    {
        let region = self.map.region_at(i);
        let ghost reg = self.map.entries()[i as int];
        assert(region_cut_ok(reg, self.xsize as int, self.align as int));
        let range = region.range;
        let size = range.size();
        let diff = size % self.xsize;
        let start = range.start_addr();
        let end = range.end_addr();
        proof {
            lemma_page_times(range.start_frame_number as int);
            lemma_page_times(range.end_frame_number as int);
        }
        let cut_end = if diff != 0 {
            let cut = FrameRange::new(start, end - diff);
            cut.end_addr()
        } else {
            end
        };
        assert(cut_end == trimmed_end(range, self.xsize as int));
        let rest = start % self.align;
        if rest != 0 {
            let n = start + (self.align - rest);
            if n > cut_end {
                (0, 0)
            } else {
                proof {
                    lemma_align_up_page(start as int, self.align as int);
                    if cut_end >= 1 {
                        if diff != 0 {
                            lemma_page_times((end - diff - 1) as int / 4096 + 1);
                        }
                        lemma_page_multiple(cut_end as int);
                    }
                    lemma_page_multiple(n as int);
                }
                let cut = FrameRange::new(n, cut_end);
                (cut.start_addr(), cut.end_addr())
            }
        } else {
            (start, cut_end)
        }
    }

    /// The next block, or `None` when every usable region has been used up.
    pub fn next(&mut self) -> (r: Option<u64>)
        requires
            old(self).valid(),
        ensures
            final(self).valid(),
            old(self).remaining().len() == 0 ==> r is None && final(self).remaining() == old(self).remaining(),
            old(self).remaining().len() > 0 ==> r == Some(old(self).remaining()[0])
                && final(self).remaining() == old(self).remaining().drop_first(),
    {
        let n = self.map.next_entry_index();
        loop
            invariant
                self.inv(),
                n == self.map.next(),
                self.remaining() == old(self).remaining(),
                self.map == old(self).map,
                self.xsize == old(self).xsize,
                self.align == old(self).align,
            decreases n - self.idx, (if self.in_block { 1int } else { 0int }),
        {
            if self.in_block {
                let a = self.cur;
                proof {
                    lemma_steps_drop_first(a as int, self.end as int, self.xsize as int);
                }
                let ghost before = self.remaining();
                let next = a + self.xsize;
                if self.end - next >= self.xsize {
                    self.cur = next;
                } else {
                    self.in_block = false;
                    assert((self.end - next) as int / self.xsize as int == 0) by (nonlinear_arith)
                        requires
                            0 <= self.end - next < self.xsize,
                    ;
                    assert(steps_from(next as int, self.end as int, self.xsize as int) =~= Seq::<u64>::empty());
                }
                assert(self.remaining() =~= before.drop_first());
                return Some(a);
            }
            if self.idx >= n {
                assert(blocks_from(self.map.entries(), self.idx as int, self.map.next(), self.xsize as int, self.align as int) =~= Seq::<u64>::empty());
                return None;
            }
            let ghost before = self.remaining();
            let i = self.idx;
            let region = self.map.region_at(i);
            self.idx = i + 1;
            if region.region_type == MemoryRegionType::Usable {
                let (a, e) = self.block_of(i);
                if e >= a && e - a >= self.xsize {
                    self.cur = a;
                    self.end = e;
                    self.in_block = true;
                }
            }
            assert(self.remaining() =~= before);
        }
    }
}

impl<'a> BootInfoFrameAllocator<'a> {
    /// Create a frame allocator over the passed memory map.
    pub fn new(memory_map: &'a MemoryMap) -> (r: BootInfoFrameAllocator<'a>)
        ensures
            r.map() == *memory_map,
            r.handed_out() == 0,
    {
        BootInfoFrameAllocator { memory_map, next: 0 }
    }

    /// Create a frame allocator over the passed memory map.
    pub fn init(memory_map: &'a MemoryMap) -> (r: BootInfoFrameAllocator<'a>)
        ensures
            r.map() == *memory_map,
            r.handed_out() == 0,
    {
        BootInfoFrameAllocator { memory_map, next: 0 }
    }

    /// The memory map frames are taken from.
    pub closed spec fn map(&self) -> MemoryMap {
        *self.memory_map
    }

    /// The number of frames handed out so far.
    pub closed spec fn handed_out(&self) -> usize {
        self.next
    }

    /// The blocks of `xsize` bytes aligned to `alignment` in the usable regions,
    /// in the order of the map: each usable region is cut back to a multiple of
    /// `xsize` in size and its start moved up to the alignment.
    pub fn usable_xsize_frames(&self, xsize: u64, alignment: u64) -> (r: XsizeFrames<'a>)
        requires
            self.map().wf(),
            xsize > 0,
            alignment > 0,
            alignment % 4096 == 0,
            cut_ok(self.map(), xsize as int, alignment as int),
        ensures
            r.valid(),
            r.remaining() == map_blocks(self.map(), xsize as int, alignment as int),
    {
        XsizeFrames {
            map: self.memory_map,
            xsize,
            align: alignment,
            idx: 0,
            cur: 0,
            end: 0,
            in_block: false,
        }
    }

    /// Hands out the next usable 4 KiB frame: the frame after those handed out
    /// before, or `None` when there is none.
    pub fn allocate_frame(&mut self) -> (r: Option<u64>)
        requires
            old(self).map().wf(),
            cut_ok(old(self).map(), 4096, 4096),
            old(self).handed_out() < usize::MAX,
        ensures
            final(self).map() == old(self).map(),
            final(self).handed_out() == old(self).handed_out() + 1,
            ({
                let frames = map_blocks(old(self).map(), 4096, 4096);
                &&& old(self).handed_out() < frames.len() ==> r == Some(frames[old(self).handed_out() as int])
                &&& old(self).handed_out() >= frames.len() ==> r is None
            }),
    {
        let mut frames = self.usable_xsize_frames(4096, 4096);
        let ghost all = frames.remaining();
        let mut k: usize = 0;
        let mut found: Option<u64> = None;
        while k <= self.next
            invariant
                frames.valid(),
                k <= self.next + 1,
                self.next < usize::MAX,
                k as int <= all.len() ==> frames.remaining() == all.skip(k as int),
                k as int > all.len() ==> frames.remaining().len() == 0,
                k > 0 && k - 1 < all.len() ==> found == Some(all[k - 1]),
                k > 0 && k - 1 >= all.len() ==> found is None,
            decreases self.next + 1 - k,
        {
            let ghost before = frames.remaining();
            found = frames.next();
            proof {
                if k < all.len() {
                    assert(before.drop_first() =~= all.skip(k + 1));
                } else if k == all.len() {
                    assert(before.len() == 0);
                }
            }
            k = k + 1;
        }
        self.next = self.next + 1;
        found
    }
}

/// The blocks of a usable region lie wholly inside it, each behind the one
/// before.
proof fn lemma_region_blocks_bounds(r: MemoryRegion, xsize: int, align: int)
    requires
        xsize > 0,
        align > 0,
        region_cut_ok(r, xsize, align),
    ensures
        forall|k: int|
            0 <= k < region_blocks(r, xsize, align).len() ==> r.region_type == MemoryRegionType::Usable
                && start_of(r.range) <= #[trigger] region_blocks(r, xsize, align)[k] && region_blocks(
                r,
                xsize,
                align,
            )[k] + xsize <= end_of(r.range),
        forall|k: int, l: int|
            0 <= k < l < region_blocks(r, xsize, align).len() ==> #[trigger] region_blocks(r, xsize, align)[k]
                + xsize <= #[trigger] region_blocks(r, xsize, align)[l],
{
    if r.region_type == MemoryRegionType::Usable {
        let s = start_of(r.range);
        let end = end_of(r.range);
        let e = trimmed_end(r.range, xsize);
        let (a, e2) = block_range(r.range, xsize, align);
        let diff = (end - s) % xsize;
        if diff != 0 {
            let f = r.range.end_frame_number as int;
            assert(e <= end) by (nonlinear_arith)
                requires
                    e == ((end - diff - 1) / 4096 + 1) * 4096,
                    end == f * 4096,
                    diff >= 1,
                    end - diff >= 1,
            ;
        }
        if e2 - a >= xsize {
            assert(e2 == e);
            assert(s <= a);
            let bs = region_blocks(r, xsize, align);
            let c = (e - a) / xsize;
            assert(c * xsize <= e - a) by (nonlinear_arith)
                requires
                    c == (e - a) / xsize,
                    xsize > 0,
                    e - a >= 0,
            ;
            assert forall|k: int| 0 <= k < bs.len() implies start_of(r.range) <= #[trigger] bs[k] && bs[k]
                + xsize <= end_of(r.range) by {
                assert((k + 1) * xsize <= c * xsize) by (nonlinear_arith)
                    requires
                        0 <= k < c,
                        xsize > 0,
                ;
                assert(0 <= k * xsize && k * xsize + xsize == (k + 1) * xsize) by (nonlinear_arith)
                    requires
                        k >= 0,
                        xsize > 0,
                ;
            }
            assert forall|k: int, l: int| 0 <= k < l < bs.len() implies #[trigger] bs[k] + xsize
                <= #[trigger] bs[l] by {
                assert(k * xsize + xsize <= l * xsize) by (nonlinear_arith)
                    requires
                        0 <= k < l,
                        xsize > 0,
                ;
                assert((l + 1) * xsize <= c * xsize && l * xsize + xsize == (l + 1) * xsize) by (nonlinear_arith)
                    requires
                        0 <= l < c,
                        xsize > 0,
                ;
                assert(0 <= k * xsize) by (nonlinear_arith)
                    requires
                        k >= 0,
                        xsize > 0,
                ;
            }
        }
    }
}

/// Every block the slots `i..n` hand out lies wholly inside one of those slots'
/// usable regions.
proof fn lemma_blocks_from_bounds(s: Seq<MemoryRegion>, i: int, n: int, xsize: int, align: int)
    requires
        xsize > 0,
        align > 0,
        0 <= i,
        n <= s.len(),
        forall|j: int| i <= j < n ==> region_cut_ok(#[trigger] s[j], xsize, align),
    ensures
        forall|k: int|
            0 <= k < blocks_from(s, i, n, xsize, align).len() ==> exists|j: int|
                i <= j < n && s[j].region_type == MemoryRegionType::Usable && start_of(s[j].range)
                    <= #[trigger] blocks_from(s, i, n, xsize, align)[k] && blocks_from(s, i, n, xsize, align)[k]
                    + xsize <= end_of(s[j].range),
    decreases n - i,
{
    if i < n {
        lemma_region_blocks_bounds(s[i], xsize, align);
        lemma_blocks_from_bounds(s, i + 1, n, xsize, align);
        let head = region_blocks(s[i], xsize, align);
        let rest = blocks_from(s, i + 1, n, xsize, align);
        assert forall|k: int| 0 <= k < blocks_from(s, i, n, xsize, align).len() implies exists|j: int|
            i <= j < n && s[j].region_type == MemoryRegionType::Usable && start_of(s[j].range)
                <= #[trigger] blocks_from(s, i, n, xsize, align)[k] && blocks_from(s, i, n, xsize, align)[k]
                + xsize <= end_of(s[j].range) by {
            if k < head.len() {
                assert(blocks_from(s, i, n, xsize, align)[k] == head[k]);
            } else {
                assert(blocks_from(s, i, n, xsize, align)[k] == rest[k - head.len()]);
                let j = choose|j: int|
                    i + 1 <= j < n && s[j].region_type == MemoryRegionType::Usable && start_of(s[j].range)
                        <= #[trigger] rest[k - head.len()] && rest[k - head.len()] + xsize <= end_of(s[j].range);
            }
        }
    }
}

/// When the slots `i..n` lie in increasing order of address without sharing a
/// frame, each block the slots hand out ends before the next one starts.
proof fn lemma_blocks_from_increasing(s: Seq<MemoryRegion>, i: int, n: int, xsize: int, align: int)
    requires
        xsize > 0,
        align > 0,
        0 <= i,
        n <= s.len(),
        forall|j: int| i <= j < n ==> region_cut_ok(#[trigger] s[j], xsize, align),
        forall|p: int, q: int| i <= p < q < n ==> end_of(#[trigger] s[p].range) <= start_of(#[trigger] s[q].range),
    ensures
        forall|k: int, l: int|
            0 <= k < l < blocks_from(s, i, n, xsize, align).len() ==> #[trigger] blocks_from(s, i, n, xsize, align)[k]
                + xsize <= #[trigger] blocks_from(s, i, n, xsize, align)[l],
    decreases n - i,
{
    if i < n {
        lemma_region_blocks_bounds(s[i], xsize, align);
        lemma_blocks_from_bounds(s, i + 1, n, xsize, align);
        lemma_blocks_from_increasing(s, i + 1, n, xsize, align);
        let head = region_blocks(s[i], xsize, align);
        let rest = blocks_from(s, i + 1, n, xsize, align);
        let all = blocks_from(s, i, n, xsize, align);
        assert(all == head + rest);
        assert forall|k: int, l: int| 0 <= k < l < all.len() implies #[trigger] all[k] + xsize <= #[trigger] all[l] by {
            if l < head.len() {
            } else if k >= head.len() {
                assert(all[k] == rest[k - head.len()]);
                assert(all[l] == rest[l - head.len()]);
            } else {
                assert(all[k] == head[k]);
                assert(all[l] == rest[l - head.len()]);
                let j = choose|j: int|
                    i + 1 <= j < n && s[j].region_type == MemoryRegionType::Usable && start_of(s[j].range)
                        <= #[trigger] rest[l - head.len()] && rest[l - head.len()] + xsize <= end_of(s[j].range);
                assert(end_of(s[i].range) <= start_of(s[j].range));
            }
        }
    }
}

/// Every block the map hands out lies wholly inside one of its usable regions,
/// and when the used regions lie in increasing order of address without sharing
/// a frame, each block ends before the next one starts, so no two blocks
/// overlap.
pub proof fn lemma_map_blocks_usable_and_distinct(map: MemoryMap, xsize: int, align: int)
    requires
        map.wf(),
        xsize > 0,
        align > 0,
        cut_ok(map, xsize, align),
    ensures
        forall|k: int|
            0 <= k < map_blocks(map, xsize, align).len() ==> exists|j: int|
                0 <= j < map.next() && map.entries()[j].region_type == MemoryRegionType::Usable
                    && start_of(map.entries()[j].range) <= #[trigger] map_blocks(map, xsize, align)[k]
                    && map_blocks(map, xsize, align)[k] + xsize <= end_of(map.entries()[j].range),
        (forall|p: int, q: int|
            0 <= p < q < map.next() ==> end_of(#[trigger] map.entries()[p].range) <= start_of(
                #[trigger] map.entries()[q].range,
            )) ==> forall|k: int, l: int|
            0 <= k < l < map_blocks(map, xsize, align).len() ==> #[trigger] map_blocks(map, xsize, align)[k]
                + xsize <= #[trigger] map_blocks(map, xsize, align)[l],
{
    lemma_blocks_from_bounds(map.entries(), 0, map.next(), xsize, align);
    if forall|p: int, q: int|
        0 <= p < q < map.next() ==> end_of(#[trigger] map.entries()[p].range) <= start_of(
            #[trigger] map.entries()[q].range,
        ) {
        lemma_blocks_from_increasing(map.entries(), 0, map.next(), xsize, align);
    }
}

} // verus!
