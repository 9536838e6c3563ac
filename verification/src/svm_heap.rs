//! The heap of the service kernel: the same fixed-size block scheme as
//! `heap`, at a fixed address and with 32-bit block lengths.  The walk skips
//! each block and restarts the run of free slots at the block's end; a run
//! starts only at a slot whose address suits the requested alignment.
use vstd::prelude::*;
use crate::heap::{alloc_align, block_size, layout_fits, lemma_block_size, slot_aligned, ALLOC_STEPS, HEAP_SLOTS};

verus! {

/// The address the heap starts at.
pub const HEAP_START: u64 = 0x4444_4444_0000;

/// The walk an allocation of `n` slots aligned to `a` makes, resumed at slot `i`
/// with the run starting at `spot` of which `acc` free slots were counted.  A
/// run starts only at a slot aligned to `a`.  Its result is the slot the block
/// is placed at.
pub open spec fn walk_from(arr: Seq<Option<u32>>, n: int, i: int, spot: int, acc: int, a: int) -> Option<int>
    decreases arr.len() - i,
{
    if i < 0 || i >= arr.len() {
        None
    } else {
        match arr[i] {
            Some(off) => if off == 0 || i + off >= arr.len() {
                None
            } else {
                walk_from(arr, n, i + off, i + off, 0, a)
            },
            None => if acc == 0 && !slot_aligned(HEAP_START as int, a, i) {
                walk_from(arr, n, i + 1, i + 1, 0, a)
            } else if acc + 1 == n {
                Some(spot)
            } else {
                walk_from(arr, n, i + 1, spot, acc + 1, a)
            },
        }
    }
}

/// The slot an allocation of `n` slots aligned to `a` is placed at.
pub open spec fn walk(arr: Seq<Option<u32>>, n: int, a: int) -> Option<int> {
    walk_from(arr, n, 0, 0, 0, a)
}

/// A walk resumed at slot `i` with `acc` slots of the run counted lands on a
/// block that ends by the end of the heap.
proof fn lemma_walk_from_inside(arr: Seq<Option<u32>>, n: int, i: int, spot: int, acc: int, a: int)
    requires
        0 <= spot,
        acc >= 0,
        spot + acc <= i,
    ensures
        walk_from(arr, n, i, spot, acc, a) matches Some(s) ==> 0 <= s && s + n <= arr.len(),
    decreases arr.len() - i,
{
    if 0 <= i < arr.len() {
        match arr[i] {
            Some(off) => {
                if off != 0 && i + off < arr.len() {
                    lemma_walk_from_inside(arr, n, i + off, i + off, 0, a);
                }
            },
            None => {
                if acc == 0 && !slot_aligned(HEAP_START as int, a, i) {
                    lemma_walk_from_inside(arr, n, i + 1, i + 1, 0, a);
                } else if acc + 1 != n {
                    lemma_walk_from_inside(arr, n, i + 1, spot, acc + 1, a);
                }
            },
        }
    }
}

/// Every block the heap hands out lies inside it: the `n` slots from the slot
/// an allocation is placed at end by the end of the heap.
pub proof fn lemma_block_inside_heap(arr: Seq<Option<u32>>, n: int, a: int)
    requires
        walk(arr, n, a) is Some,
    ensures
        0 <= walk(arr, n, a)->0,
        walk(arr, n, a)->0 + n <= arr.len(),
{
    lemma_walk_from_inside(arr, n, 0, 0, 0, a);
}

/// A walk resumed with a run under way that started at an aligned slot, or with
/// no run under way, places its block at an aligned slot.
proof fn lemma_walk_from_aligned(arr: Seq<Option<u32>>, n: int, i: int, spot: int, acc: int, a: int)
    requires
        acc >= 0,
        acc > 0 ==> slot_aligned(HEAP_START as int, a, spot),
        acc == 0 ==> spot == i,
    ensures
        walk_from(arr, n, i, spot, acc, a) matches Some(s) ==> slot_aligned(HEAP_START as int, a, s),
    decreases arr.len() - i,
{
    if 0 <= i < arr.len() {
        match arr[i] {
            Some(off) => {
                if off != 0 && i + off < arr.len() {
                    lemma_walk_from_aligned(arr, n, i + off, i + off, 0, a);
                }
            },
            None => {
                if acc == 0 && !slot_aligned(HEAP_START as int, a, i) {
                    lemma_walk_from_aligned(arr, n, i + 1, i + 1, 0, a);
                } else if acc + 1 != n {
                    lemma_walk_from_aligned(arr, n, i + 1, spot, acc + 1, a);
                }
            },
        }
    }
}

/// Every block the heap hands out starts at a slot aligned as requested.
pub proof fn lemma_walk_aligned(arr: Seq<Option<u32>>, n: int, a: int)
    requires
        walk(arr, n, a) is Some,
    ensures
        slot_aligned(HEAP_START as int, a, walk(arr, n, a)->0),
{
    lemma_walk_from_aligned(arr, n, 0, 0, 0, a);
}

/// Whether a block aligned to `a` may start at slot `i`.
fn slot_is_aligned(i: usize, a: usize) -> (r: bool)
    requires
        i < HEAP_SLOTS,
        a > 0,
    ensures
        r == slot_aligned(HEAP_START as int, a as int, i as int),
{
    if a <= ALLOC_STEPS {
        return true;
    }
    let addr: u64 = HEAP_START + i as u64 * ALLOC_STEPS as u64;
    addr % (a as u64) == 0
}

/// The address of slot `spot`.
pub open spec fn slot_addr(spot: int) -> int {
    spot * ALLOC_STEPS + HEAP_START
}

/// A fixed-size block allocator over `HEAP_SLOTS` slots from `HEAP_START`.
pub struct FixedSizeBlockAllocator {
    arr: Vec<Option<u32>>,
}

impl FixedSizeBlockAllocator {
    pub closed spec fn slots(&self) -> Seq<Option<u32>> {
        self.arr@
    }

    /// Every slot exists, every block is at least one slot long, and no block
    /// starts inside another.
    pub open spec fn wf(&self) -> bool {
        &&& self.slots().len() == HEAP_SLOTS
        &&& forall|i: int| 0 <= i < HEAP_SLOTS ==> (#[trigger] self.slots()[i] matches Some(v)
            ==> v >= 1)
        &&& blocks_apart(self.slots())
    }

    pub fn new() -> (r: FixedSizeBlockAllocator)
        ensures
            r.wf(),
            r.slots() == Seq::new(HEAP_SLOTS as nat, |i: int| None::<u32>),
    {
        let mut arr: Vec<Option<u32>> = Vec::new();
        while arr.len() < HEAP_SLOTS
            invariant
                arr@.len() <= HEAP_SLOTS,
                forall|i: int| 0 <= i < arr@.len() ==> arr@[i] is None,
            decreases HEAP_SLOTS - arr.len(),
        {
            arr.push(None);
        }
        let r = FixedSizeBlockAllocator { arr };
        assert(r.slots() =~= Seq::new(HEAP_SLOTS as nat, |i: int| None::<u32>));
        r
    }

    /// The first `size` slots, as the debug listing of the heap shows them.
    pub fn print_array(&self, size: usize) -> (r: Vec<Option<u32>>)
        requires
            self.wf(),
            size <= HEAP_SLOTS,
        ensures
            r@ == self.slots().take(size as int),
    {
        let mut r: Vec<Option<u32>> = Vec::new();
        let mut i: usize = 0;
        while i < size
            invariant
                self.wf(),
                size <= HEAP_SLOTS,
                i <= size,
                r@ == self.slots().take(i as int),
            decreases size - i,
        {
            r.push(self.arr[i]);
            i = i + 1;
            assert(r@ =~= self.slots().take(i as int));
        }
        r
    }

    /// The slot a block of `needed` bytes (a multiple of the slot size) is
    /// placed at.
    fn find_spot(&self, needed: usize, a: usize) -> (r: Option<usize>)
        requires
            self.wf(),
            needed % ALLOC_STEPS == 0,
            a > 0,
        ensures
            r is Some <==> walk(self.slots(), (needed / ALLOC_STEPS) as int, a as int) is Some,
            r matches Some(x) ==> walk(self.slots(), (needed / ALLOC_STEPS) as int, a as int) == Some(x as int)
                && x < HEAP_SLOTS && needed / ALLOC_STEPS <= HEAP_SLOTS,
    {
        let ghost n = (needed / ALLOC_STEPS) as int;
        let len = self.arr.len();
        let mut accumulator: usize = 0;
        let mut spot: usize = 0;
        let mut i: usize = 0;
        let ghost mut cnt: int = 0;
        while i < len
            invariant
                self.wf(),
                len == HEAP_SLOTS,
                n == needed / ALLOC_STEPS,
                needed == ALLOC_STEPS * n,
                spot <= i,
                spot <= len,
                cnt >= 0,
                cnt <= i,
                i <= len,
                accumulator == ALLOC_STEPS * cnt,
                n == 0 || cnt < n,
                a > 0,
                cnt == 0 ==> spot == i,
                walk(self.slots(), n, a as int) == walk_from(self.slots(), n, i as int, spot as int, cnt, a as int),
            decreases len - i,
        {
            match self.arr[i] {
                Some(offset) => {
                    accumulator = 0;
                    proof {
                        cnt = 0;
                    }
                    if offset as usize >= len - i {
                        return None;
                    }
                    i = i + offset as usize;
                    spot = i;
                },
                None => {
                    if accumulator == 0 && !slot_is_aligned(i, a) {
                        i = i + 1;
                        spot = i;
                    } else {
                        accumulator = accumulator + ALLOC_STEPS;
                        if needed == accumulator {
                            return Some(spot);
                        }
                        proof {
                            cnt = cnt + 1;
                        }
                        i = i + 1;
                    }
                },
            }
        }
        None
    }

    /// Allocates a block for `size` bytes aligned to `align` and returns its
    /// address, or zero when the walk finds no run of free slots long enough
    /// that starts at an address aligned to `align`.
    pub fn allocate(&mut self, size: usize, align: usize) -> (r: u64)
        requires
            old(self).wf(),
            size > 0,
            layout_fits(size as int, align as int),
        ensures
            final(self).wf(),
            match walk(
                old(self).slots(),
                block_size(size as int, align as int) / (ALLOC_STEPS as int),
                alloc_align(align as int),
            ) {
                Some(s) => {
                    &&& r == slot_addr(s)
                    &&& slot_aligned(HEAP_START as int, alloc_align(align as int), s)
                    &&& run_is_free(old(self).slots(), s, block_size(size as int, align as int) / (ALLOC_STEPS as int))
                    &&& final(self).slots() == old(self).slots().update(
                        s,
                        Some((block_size(size as int, align as int) / (ALLOC_STEPS as int)) as u32),
                    )
                },
                None => r == 0 && final(self).slots() == old(self).slots(),
            },
    {
        let a = if align > ALLOC_STEPS {
            align
        } else {
            ALLOC_STEPS
        };
        let rem = size % a;
        let needed = if rem == 0 {
            size
        } else {
            size + (a - rem)
        };
        proof {
            lemma_block_size(size as int, align as int);
        }
        assert(needed == block_size(size as int, align as int));
        match self.find_spot(needed, a) {
            Some(spot) => {
                proof {
                    lemma_walk_aligned(self.slots(), (needed / ALLOC_STEPS) as int, a as int);
                    lemma_allocation_keeps_blocks_apart(self.slots(), (needed / ALLOC_STEPS) as int, a as int);
                }
                let slots = (needed / ALLOC_STEPS) as u32;
                assert(slots >= 1);
                self.arr.set(spot, Some(slots));
                spot as u64 * ALLOC_STEPS as u64 + HEAP_START
            },
            None => 0,
        }
    }

    /// The length in slots of the block that starts at `ptr`, or `None` when no
    /// block starts there (or `ptr` lies outside the heap).
    pub fn block_at(&self, ptr: u64) -> (r: Option<u32>)
        requires
            self.wf(),
        ensures
            ptr >= HEAP_START && (ptr - HEAP_START) / (ALLOC_STEPS as int) < HEAP_SLOTS ==> r
                == self.slots()[(ptr - HEAP_START) / (ALLOC_STEPS as int)],
            !(ptr >= HEAP_START && (ptr - HEAP_START) / (ALLOC_STEPS as int) < HEAP_SLOTS) ==> r is None,
    {
        if ptr < HEAP_START {
            return None;
        }
        let index = (ptr - HEAP_START) / ALLOC_STEPS as u64;
        if index >= self.arr.len() as u64 {
            return None;
        }
        self.arr[index as usize]
    }

    /// Frees the block at `ptr`.
    pub fn deallocate(&mut self, ptr: u64)
        requires
            old(self).wf(),
            ptr >= HEAP_START,
            (ptr - HEAP_START) / (ALLOC_STEPS as int) < HEAP_SLOTS,
            old(self).slots()[(ptr - HEAP_START) / (ALLOC_STEPS as int)] is Some,
        ensures
            final(self).wf(),
            final(self).slots() == old(self).slots().update((ptr - HEAP_START) / (ALLOC_STEPS as int), None),
    {
        let index = ((ptr - HEAP_START) / ALLOC_STEPS as u64) as usize;
        proof {
            lemma_free_keeps_blocks_apart(self.slots(), index as int, 0);
        }
        self.arr.set(index, None);
    }

    /// Resizes the block at `ptr`, allocated for `size` bytes aligned to
    /// `align`, to `new_size` bytes rounded up to the slot size.  A shrinking
    /// block is cut in place and keeps its address; a growing block is freed and
    /// allocated anew (zero when no run is found); a block that keeps its size
    /// keeps its address.
    pub fn realloc(&mut self, ptr: u64, size: usize, align: usize, new_size: usize) -> (r: u64)
        requires
            old(self).wf(),
            size > 0,
            layout_fits(size as int, align as int),
            new_size > 0,
            new_size + ALLOC_STEPS <= isize::MAX,
            ptr >= HEAP_START,
            (ptr - HEAP_START) / (ALLOC_STEPS as int) < HEAP_SLOTS,
            block_size(new_size as int, ALLOC_STEPS as int) < block_size(size as int, align as int)
                ==> (old(self).slots()[(ptr - HEAP_START) / (ALLOC_STEPS as int)] matches Some(v)
                && block_size(new_size as int, ALLOC_STEPS as int) / (ALLOC_STEPS as int) <= v),
            block_size(new_size as int, ALLOC_STEPS as int) > block_size(size as int, align as int)
                ==> old(self).slots()[(ptr - HEAP_START) / (ALLOC_STEPS as int)] is Some,
        ensures
            final(self).wf(),
            ({
                let idx = (ptr - HEAP_START) / (ALLOC_STEPS as int);
                let old_b = block_size(size as int, align as int);
                let new_b = block_size(new_size as int, ALLOC_STEPS as int);
                let freed = old(self).slots().update(idx, None);
                &&& new_b == old_b ==> r == ptr && final(self).slots() == old(self).slots()
                &&& new_b < old_b ==> r == ptr && final(self).slots() == old(self).slots().update(
                    idx,
                    Some((new_b / (ALLOC_STEPS as int)) as u32),
                )
                &&& new_b > old_b ==> match walk(freed, new_b / (ALLOC_STEPS as int), ALLOC_STEPS as int) {
                    Some(s) => r == slot_addr(s) && final(self).slots() == freed.update(
                        s,
                        Some((new_b / (ALLOC_STEPS as int)) as u32),
                    ),
                    None => r == 0 && final(self).slots() == freed,
                }
            }),
    {
        proof {
            reveal_with_fuel(crate::heap::is_power_of_two, 6);
            lemma_block_size(new_size as int, ALLOC_STEPS as int);
            lemma_block_size(size as int, align as int);
        }
        let index = ((ptr - HEAP_START) / ALLOC_STEPS as u64) as usize;
        let rem = new_size % ALLOC_STEPS;
        let new_b = if rem == 0 {
            new_size
        } else {
            new_size + (ALLOC_STEPS - rem)
        };
        let a = if align > ALLOC_STEPS {
            align
        } else {
            ALLOC_STEPS
        };
        let old_rem = size % a;
        let old_b = if old_rem == 0 {
            size
        } else {
            size + (a - old_rem)
        };
        if old_b > new_b {
            let v = (new_b / ALLOC_STEPS) as u32;
            assert(v >= 1);
            proof {
                lemma_free_keeps_blocks_apart(self.slots(), index as int, v);
            }
            self.arr.set(index, Some(v));
            ptr
        } else if old_b < new_b {
            self.deallocate(ptr);
            self.allocate(new_size, ALLOC_STEPS)
        } else {
            ptr
        }
    }
}

/// Whether no block starts inside another: the slots a block covers behind its
/// first slot are free.
pub open spec fn blocks_apart(arr: Seq<Option<u32>>) -> bool {
    forall|i: int, j: int|
        0 <= i < j < arr.len() && #[trigger] arr[i] is Some && j < i + arr[i]->0 ==> #[trigger] arr[j]
            is None
}

/// Whether the `n` slots from `s` overlap no block.
pub open spec fn run_is_free(arr: Seq<Option<u32>>, s: int, n: int) -> bool {
    &&& 0 <= s
    &&& s + n <= arr.len()
    &&& forall|k: int| s <= k < s + n ==> #[trigger] arr[k] is None
    &&& forall|b: int| 0 <= b < arr.len() && #[trigger] arr[b] is Some ==> b + arr[b]->0 <= s || s + n <= b
}

proof fn lemma_walk_from_apart(arr: Seq<Option<u32>>, n: int, i: int, spot: int, acc: int, a: int)
    requires
        blocks_apart(arr),
        forall|b: int| 0 <= b < arr.len() && #[trigger] arr[b] is Some ==> arr[b]->0 >= 1,
        n >= 1,
        0 <= spot <= i,
        acc == i - spot,
        acc < n,
        forall|k: int| spot <= k < i ==> #[trigger] arr[k] is None,
        forall|b: int| 0 <= b < i && b < arr.len() && #[trigger] arr[b] is Some ==> b + arr[b]->0 <= spot,
    ensures
        walk_from(arr, n, i, spot, acc, a) matches Some(s) ==> run_is_free(arr, s, n),
    decreases arr.len() - i,
{
    if 0 <= i < arr.len() {
        match arr[i] {
            Some(off) => {
                if off != 0 && i + off < arr.len() {
                    assert forall|b: int| 0 <= b < i + off && b < arr.len() && #[trigger] arr[b] is Some implies b
                        + arr[b]->0 <= i + off by {
                        if i < b {
                            assert(arr[i] is Some && b < i + arr[i]->0);
                        }
                    }
                    lemma_walk_from_apart(arr, n, i + off, i + off, 0, a);
                }
            },
            None => {
                if acc == 0 && !slot_aligned(HEAP_START as int, a, i) {
                    lemma_walk_from_apart(arr, n, i + 1, i + 1, 0, a);
                } else if acc + 1 != n {
                    lemma_walk_from_apart(arr, n, i + 1, spot, acc + 1, a);
                }
            },
        }
    }
}

/// While no block starts inside another, the run an allocation lands on
/// overlaps no block, and placing the new block there keeps the blocks apart.
pub proof fn lemma_allocation_keeps_blocks_apart(arr: Seq<Option<u32>>, n: int, a: int)
    requires
        blocks_apart(arr),
        forall|b: int| 0 <= b < arr.len() && #[trigger] arr[b] is Some ==> arr[b]->0 >= 1,
        1 <= n <= u32::MAX,
        walk(arr, n, a) is Some,
    ensures
        run_is_free(arr, walk(arr, n, a)->0, n),
        blocks_apart(arr.update(walk(arr, n, a)->0, Some(n as u32))),
{
    lemma_walk_from_apart(arr, n, 0, 0, 0, a);
    let s = walk(arr, n, a)->0;
    let t = arr.update(s, Some(n as u32));
    assert forall|i: int, j: int|
        0 <= i < j < t.len() && #[trigger] t[i] is Some && j < i + t[i]->0 implies #[trigger] t[j] is None by {
        if i == s {
            assert(arr[j] is None);
            assert(j != s);
        } else if j == s {
            assert(arr[i] is Some);
            assert(false);
        } else {
            assert(arr[i] is Some);
        }
    }
}

/// Freeing a block, or cutting it shorter, keeps the blocks apart.
pub proof fn lemma_free_keeps_blocks_apart(arr: Seq<Option<u32>>, k: int, v: u32)
    requires
        blocks_apart(arr),
        0 <= k < arr.len(),
        arr[k] is Some ==> v <= arr[k]->0,
    ensures
        blocks_apart(arr.update(k, None)),
        arr[k] is Some ==> blocks_apart(arr.update(k, Some(v))),
{
    let t = arr.update(k, None);
    assert forall|i: int, j: int|
        0 <= i < j < t.len() && #[trigger] t[i] is Some && j < i + t[i]->0 implies #[trigger] t[j] is None by {
        assert(arr[i] is Some);
    }
    if arr[k] is Some {
        let u = arr.update(k, Some(v));
        assert forall|i: int, j: int|
            0 <= i < j < u.len() && #[trigger] u[i] is Some && j < i + u[i]->0 implies #[trigger] u[j] is None by {
            assert(arr[i] is Some);
            if j == k {
                assert(arr[k] is Some);
            }
        }
    }
}

} // verus!
