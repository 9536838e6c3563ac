//! The kernel heap: a fixed-size block allocator over an array of slots.
//!
//! The heap is cut into slots of `ALLOC_STEPS` bytes.  The slot at which a
//! block starts holds the block's length in slots; every other slot is `None`.
//! An allocation walks the slots from the front, jumping over each block, and
//! takes the first run of free slots that is long enough.
use vstd::prelude::*;
use vstd::arithmetic::div_mod::{lemma_fundamental_div_mod, lemma_mod_multiples_basic};

verus! {

/// Size in bytes of one slot.
pub const ALLOC_STEPS: usize = 16;

/// Size in bytes of the heap.
pub const HEAP_SIZE: usize = 1024000;

/// Number of slots.
pub const HEAP_SLOTS: usize = 64000;

/// The size of a block for a request of `size` bytes aligned to `align`: the size
/// rounded up to the larger of `align` and `ALLOC_STEPS`.
pub open spec fn block_size(size: int, align: int) -> int {
    let a = if align > ALLOC_STEPS {
        align
    } else {
        ALLOC_STEPS as int
    };
    if size % a == 0 {
        size
    } else {
        size + (a - size % a)
    }
}

/// Whether `a` is a power of two (the only alignments a layout allows).
pub open spec fn is_power_of_two(a: int) -> bool
    decreases a,
{
    if a <= 0 {
        false
    } else if a == 1 {
        true
    } else {
        a % 2 == 0 && is_power_of_two(a / 2)
    }
}

/// Whether a request of `size` bytes aligned to `align` is a valid layout whose
/// block size fits in the address space.
pub open spec fn layout_fits(size: int, align: int) -> bool {
    &&& is_power_of_two(align)
    &&& 0 <= size
    &&& size + (if align > ALLOC_STEPS {
        align
    } else {
        ALLOC_STEPS as int
    }) <= isize::MAX
}

/// Whether a block may start at slot `i` of a heap starting at `base` when its
/// alignment is `a`: any slot serves for the slot size, and a larger alignment
/// needs the slot's address to be a multiple of it.
pub open spec fn slot_aligned(base: int, a: int, i: int) -> bool {
    a <= ALLOC_STEPS || (base + i * ALLOC_STEPS) % a == 0
}

/// The alignment an allocation honours: the requested one, at least the slot
/// size.
pub open spec fn alloc_align(align: int) -> int {
    if align > ALLOC_STEPS {
        align
    } else {
        ALLOC_STEPS as int
    }
}

/// The walk an allocation of `n` slots aligned to `a` makes in a heap starting at
/// `base`, resumed at slot `i` with the run starting at `spot` of which `acc`
/// slots were found free.  A run starts only at a slot aligned to `a`; behind a
/// block the walk goes on at the block's end.  Its result is the slot the block
/// is placed at.
pub open spec fn walk_from(arr: Seq<Option<u16>>, n: int, i: int, spot: int, acc: int, base: int, a: int) -> Option<int>
    decreases arr.len() - i,
{
    if i < 0 || i >= arr.len() {
        None
    } else {
        match arr[i] {
            Some(off) => if off == 0 || i + off >= arr.len() {
                None
            } else {
                walk_from(arr, n, i + off, i + off, 0, base, a)
            },
            None => if acc == 0 && !slot_aligned(base, a, i) {
                walk_from(arr, n, i + 1, i + 1, 0, base, a)
            } else if acc + 1 == n {
                Some(spot)
            } else {
                walk_from(arr, n, i + 1, spot, acc + 1, base, a)
            },
        }
    }
}

/// The slot an allocation of `n` slots aligned to `a` is placed at.
pub open spec fn walk(arr: Seq<Option<u16>>, n: int, base: int, a: int) -> Option<int> {
    walk_from(arr, n, 0, 0, 0, base, a)
}

/// The number of slots that start a block.
pub open spec fn count_blocks(arr: Seq<Option<u16>>) -> nat
    decreases arr.len(),
{
    if arr.len() == 0 {
        0
    } else {
        count_blocks(arr.drop_last()) + if arr.last() is Some {
            1nat
        } else {
            0nat
        }
    }
}

/// The sum of the block lengths, in slots.
pub open spec fn sum_blocks(arr: Seq<Option<u16>>) -> nat
    decreases arr.len(),
{
    if arr.len() == 0 {
        0
    } else {
        sum_blocks(arr.drop_last()) + match arr.last() {
            Some(v) => v as nat,
            None => 0nat,
        }
    }
}

/// A fixed-size block allocator over `HEAP_SLOTS` slots starting at `heap_start`.
pub struct FixedSizeBlockAllocator {
    arr: Vec<Option<u16>>,
    heap_start: usize,
}

impl FixedSizeBlockAllocator {
    pub closed spec fn slots(&self) -> Seq<Option<u16>> {
        self.arr@
    }

    pub closed spec fn start(&self) -> usize {
        self.heap_start
    }

    /// Every slot exists, every block is at least one slot long, and no block
    /// starts inside another.
    pub open spec fn wf(&self) -> bool {
        &&& self.slots().len() == HEAP_SLOTS
        &&& forall|i: int| 0 <= i < HEAP_SLOTS ==> (#[trigger] self.slots()[i] matches Some(v)
            ==> v >= 1)
        &&& blocks_apart(self.slots())
    }

    /// The address of slot `spot`.
    pub open spec fn slot_addr(&self, spot: int) -> int {
        spot * ALLOC_STEPS + self.start()
    }

    pub fn new(heap_start: usize) -> (r: FixedSizeBlockAllocator)
        ensures
            r.wf(),
            r.start() == heap_start,
            r.slots() == Seq::new(HEAP_SLOTS as nat, |i: int| None::<u16>),
            blocks_apart(r.slots()),
    {
        let mut arr: Vec<Option<u16>> = Vec::new();
        while arr.len() < HEAP_SLOTS
            invariant
                arr@.len() <= HEAP_SLOTS,
                forall|i: int| 0 <= i < arr@.len() ==> arr@[i] is None,
            decreases HEAP_SLOTS - arr.len(),
        {
            arr.push(None);
        }
        let r = FixedSizeBlockAllocator { arr, heap_start };
        assert(r.slots() =~= Seq::new(HEAP_SLOTS as nat, |i: int| None::<u16>));
        r
    }

    /// The number of slots that start a block.
    pub fn num_non_empty(&self) -> (r: usize)
        requires
            self.wf(),
        ensures
            r == count_blocks(self.slots()),
    {
        let mut count: usize = 0;
        let mut i: usize = 0;
        while i < self.arr.len()
            invariant
                self.wf(),
                i <= HEAP_SLOTS,
                count == count_blocks(self.slots().take(i as int)),
                count <= i,
            decreases HEAP_SLOTS - i,
        {
            assert(self.slots().take(i + 1).drop_last() =~= self.slots().take(i as int));
            if self.arr[i].is_some() {
                count = count + 1;
            }
            i = i + 1;
        }
        assert(self.slots().take(HEAP_SLOTS as int) =~= self.slots());
        count
    }

    /// The sum of the block lengths, in slots.
    pub fn num_bytes_allocated(&self) -> (r: usize)
        requires
            self.wf(),
        ensures
            r == sum_blocks(self.slots()),
    {
        let mut count: usize = 0;
        let mut i: usize = 0;
        while i < self.arr.len()
            invariant
                self.wf(),
                i <= HEAP_SLOTS,
                count == sum_blocks(self.slots().take(i as int)),
                count <= i * 0xffff,
            decreases HEAP_SLOTS - i,
        {
            assert(self.slots().take(i + 1).drop_last() =~= self.slots().take(i as int));
            match self.arr[i] {
                Some(v) => {
                    count = count + v as usize;
                },
                None => {},
            }
            i = i + 1;
        }
        assert(self.slots().take(HEAP_SLOTS as int) =~= self.slots());
        count
    }

    /// Whether a block aligned to `a` may start at slot `i`.
    fn slot_is_aligned(&self, i: usize, a: usize) -> (r: bool)
        requires
            i < HEAP_SLOTS,
            a > 0,
        ensures
            r == slot_aligned(self.start() as int, a as int, i as int),
    {
        if a <= ALLOC_STEPS {
            return true;
        }
        proof {
            vstd::arithmetic::div_mod::lemma_add_mod_noop(self.start() as int, (i * ALLOC_STEPS) as int, a as int);
        }
        let x = self.heap_start % a;
        let y = (i * ALLOC_STEPS) % a;
        proof {
            let xi = x as int;
            let yi = y as int;
            let ai = a as int;
            assert(((xi + yi) % ai == 0) == (xi + yi == 0 || xi + yi == ai)) by (nonlinear_arith)
                requires
                    0 <= xi < ai,
                    0 <= yi < ai,
            {
                if xi + yi >= ai {
                    vstd::arithmetic::div_mod::lemma_fundamental_div_mod(xi + yi, ai);
                }
            }
        }
        if x == 0 {
            y == 0
        } else {
            y == a - x
        }
    }

    /// The slot a block of `needed` bytes (a multiple of the slot size) aligned
    /// to `a` is placed at.
    fn find_spot(&self, needed: usize, a: usize) -> (r: Option<usize>)
        requires
            self.wf(),
            needed % ALLOC_STEPS == 0,
            needed >= ALLOC_STEPS,
            a > 0,
        ensures
            r is Some <==> walk(self.slots(), (needed / ALLOC_STEPS) as int, self.start() as int, a as int) is Some,
            r matches Some(x) ==> walk(self.slots(), (needed / ALLOC_STEPS) as int, self.start() as int, a as int)
                == Some(x as int) && x + needed / ALLOC_STEPS <= HEAP_SLOTS,
    {
        let ghost n = (needed / ALLOC_STEPS) as int;
        let ghost base = self.start() as int;
        assert(needed == ALLOC_STEPS * n);
        let len = self.arr.len();
        let mut accumulator: usize = 0;
        let mut spot: usize = 0;
        let mut i: usize = 0;
        while i < len
            invariant
                self.wf(),
                len == HEAP_SLOTS,
                n == needed / ALLOC_STEPS,
                needed == ALLOC_STEPS * n,
                n >= 1,
                a > 0,
                base == self.start(),
                spot <= i,
                i <= len || (accumulator == 0 && spot == i),
                accumulator == ALLOC_STEPS * (i - spot),
                i - spot < n,
                walk(self.slots(), n, base, a as int) == walk_from(
                    self.slots(),
                    n,
                    i as int,
                    spot as int,
                    (i - spot) as int,
                    base,
                    a as int,
                ),
            decreases (if i <= len {
                len - i
            } else {
                0
            }),
        {
            assert(self.slots()[i as int] == self.arr@[i as int]);
            match self.arr[i] {
                Some(offset) => {
                    accumulator = 0;
                    i = i + offset as usize;
                    spot = i;
                },
                None => {
                    if accumulator == 0 && !self.slot_is_aligned(i, a) {
                        i = i + 1;
                        spot = i;
                    } else {
                        accumulator = accumulator + ALLOC_STEPS;
                        if needed == accumulator {
                            return Some(spot);
                        }
                        i = i + 1;
                    }
                },
            }
        }
        None
    }

    /// Allocates a block for `size` bytes aligned to `align` and returns its
    /// address, or zero when no run of free slots is long enough.
    pub fn allocate(&mut self, size: usize, align: usize) -> (r: usize)
        requires
            old(self).wf(),
            size > 0,
            layout_fits(size as int, align as int),
            walk(old(self).slots(), block_size(size as int, align as int) / (ALLOC_STEPS as int), old(self).start() as int, alloc_align(align as int)) matches Some(
                s,
            ) ==> old(self).slot_addr(s) <= usize::MAX,
        ensures
            final(self).wf(),
            final(self).start() == old(self).start(),
            match walk(old(self).slots(), block_size(size as int, align as int) / (ALLOC_STEPS as int), old(self).start() as int, alloc_align(align as int)) {
                Some(s) => {
                    &&& r == old(self).slot_addr(s)
                    &&& final(self).slots() == old(self).slots().update(
                        s,
                        Some((block_size(size as int, align as int) / (ALLOC_STEPS as int)) as u16),
                    )
                },
                None => r == 0 && final(self).slots() == old(self).slots(),
            },
            walk(old(self).slots(), block_size(size as int, align as int) / (ALLOC_STEPS as int), old(self).start() as int, alloc_align(align as int)) matches Some(
                s,
            ) ==> slot_aligned(old(self).start() as int, alloc_align(align as int), s),
            (walk(
                old(self).slots(),
                block_size(size as int, align as int) / (ALLOC_STEPS as int),
                old(self).start() as int,
                alloc_align(align as int),
            ) matches Some(s) ==> run_is_free(
                old(self).slots(),
                s,
                block_size(size as int, align as int) / (ALLOC_STEPS as int),
            )),
    {
        let a = if align > ALLOC_STEPS {
            align
        } else {
            ALLOC_STEPS
        };
        let rem = size % a;
        let needed = if rem == 0 {
            size
        } else {
            size + (a - rem)
        };
        proof {
            lemma_block_size(size as int, align as int);
        }
        assert(needed == block_size(size as int, align as int));
        let found = self.find_spot(needed, a);
        match found {
            Some(spot) => {
                let ghost w = walk(self.slots(), (needed / ALLOC_STEPS) as int, self.start() as int, a as int);
                assert(w is Some);
                assert(w->0 == spot);
                assert(spot + needed / ALLOC_STEPS <= HEAP_SLOTS);
                let slots = (needed / ALLOC_STEPS) as u16;
                proof {
                    lemma_walk_aligned(self.slots(), (needed / ALLOC_STEPS) as int, self.start() as int, a as int);
                    lemma_allocation_keeps_blocks_apart(
                        self.slots(),
                        (needed / ALLOC_STEPS) as int,
                        self.start() as int,
                        a as int,
                    );
                }
                self.arr.set(spot, Some(slots));
                spot * ALLOC_STEPS + self.heap_start
            },
            None => 0,
        }
    }

    /// The length in slots of the block that starts at `ptr`, or `None` when no
    /// block starts there (or `ptr` lies outside the heap).
    pub fn block_at(&self, ptr: usize) -> (r: Option<u16>)
        requires
            self.wf(),
        ensures
            ptr >= self.start() && (ptr - self.start()) / (ALLOC_STEPS as int) < HEAP_SLOTS ==> r
                == self.slots()[(ptr - self.start()) / (ALLOC_STEPS as int)],
            !(ptr >= self.start() && (ptr - self.start()) / (ALLOC_STEPS as int) < HEAP_SLOTS) ==> r is None,
    {
        if ptr < self.heap_start {
            return None;
        }
        let index = (ptr - self.heap_start) / ALLOC_STEPS;
        if index >= self.arr.len() {
            return None;
        }
        self.arr[index]
    }

    /// Frees the block at `ptr`.
    pub fn deallocate(&mut self, ptr: usize)
        requires
            old(self).wf(),
            ptr >= old(self).start(),
            (ptr - old(self).start()) / (ALLOC_STEPS as int) < HEAP_SLOTS,
            old(self).slots()[(ptr - old(self).start()) / (ALLOC_STEPS as int)] is Some,
        ensures
            final(self).wf(),
            final(self).start() == old(self).start(),
            final(self).slots() == old(self).slots().update(
                (ptr - old(self).start()) / (ALLOC_STEPS as int),
                None,
            ),
    {
        let index = (ptr - self.heap_start) / ALLOC_STEPS;
        proof {
            lemma_free_keeps_blocks_apart(self.slots(), index as int, 0);
        }
        self.arr.set(index, None);
    }

    /// Resizes the block at `ptr`, allocated for `size` bytes aligned to `align`,
    /// to `new_size` bytes rounded up to the slot size.  A block that keeps its
    /// size stays as it is and a shrinking block is cut in place; both keep their
    /// address.  A growing block is freed and allocated anew, and the new address
    /// (zero when no run of free slots is long enough) is returned: the caller
    /// copies the contents when the address changed.
    pub fn realloc(&mut self, ptr: usize, size: usize, align: usize, new_size: usize) -> (r: usize)
        requires
            old(self).wf(),
            size > 0,
            layout_fits(size as int, align as int),
            new_size > 0,
            new_size + ALLOC_STEPS <= isize::MAX,
            ptr >= old(self).start(),
            (ptr - old(self).start()) / (ALLOC_STEPS as int) < HEAP_SLOTS,
            block_size(new_size as int, ALLOC_STEPS as int) < block_size(size as int, align as int)
                ==> (old(self).slots()[(ptr - old(self).start()) / (ALLOC_STEPS as int)] matches Some(v)
                && block_size(new_size as int, ALLOC_STEPS as int) / (ALLOC_STEPS as int) <= v),
            block_size(new_size as int, ALLOC_STEPS as int) > block_size(size as int, align as int)
                ==> old(self).slots()[(ptr - old(self).start()) / (ALLOC_STEPS as int)] is Some,
            block_size(new_size as int, ALLOC_STEPS as int) > block_size(size as int, align as int)
                ==> (walk(
                old(self).slots().update((ptr - old(self).start()) / (ALLOC_STEPS as int), None),
                block_size(new_size as int, ALLOC_STEPS as int) / (ALLOC_STEPS as int),
                old(self).start() as int,
                ALLOC_STEPS as int,
            ) matches Some(s) ==> old(self).slot_addr(s) <= usize::MAX),
        ensures
            final(self).wf(),
            final(self).start() == old(self).start(),
            ({
                let idx = (ptr - old(self).start()) / (ALLOC_STEPS as int);
                let old_b = block_size(size as int, align as int);
                let new_b = block_size(new_size as int, ALLOC_STEPS as int);
                let freed = old(self).slots().update(idx, None);
                &&& new_b == old_b ==> r == ptr && final(self).slots() == old(self).slots()
                &&& new_b < old_b ==> r == ptr && final(self).slots() == old(self).slots().update(
                    idx,
                    Some((new_b / (ALLOC_STEPS as int)) as u16),
                )
                &&& new_b > old_b ==> match walk(freed, new_b / (ALLOC_STEPS as int), old(self).start() as int, ALLOC_STEPS as int) {
                    Some(s) => r == old(self).slot_addr(s) && final(self).slots() == freed.update(
                        s,
                        Some((new_b / (ALLOC_STEPS as int)) as u16),
                    ),
                    None => r == 0 && final(self).slots() == freed,
                }
            }),
    {
        proof {
            lemma_block_size(size as int, align as int);
            reveal_with_fuel(is_power_of_two, 6);
            assert(layout_fits(new_size as int, ALLOC_STEPS as int));
            lemma_block_size(new_size as int, ALLOC_STEPS as int);
        }
        let index = (ptr - self.heap_start) / ALLOC_STEPS;
        let rem = new_size % ALLOC_STEPS;
        let new_b = if rem == 0 {
            new_size
        } else {
            new_size + (ALLOC_STEPS - rem)
        };
        assert(new_b == block_size(new_size as int, ALLOC_STEPS as int));
        let a = if align > ALLOC_STEPS {
            align
        } else {
            ALLOC_STEPS
        };
        let old_rem = size % a;
        let old_b = if old_rem == 0 {
            size
        } else {
            size + (a - old_rem)
        };
        assert(old_b == block_size(size as int, align as int));
        if old_b == new_b {
            ptr
        } else if old_b > new_b {
            proof {
                lemma_free_keeps_blocks_apart(self.slots(), index as int, (new_b / ALLOC_STEPS) as u16);
            }
            self.arr.set(index, Some((new_b / ALLOC_STEPS) as u16));
            ptr
        } else {
            self.deallocate(ptr);
            self.allocate(new_size, ALLOC_STEPS)
        }
    }

    /// The first `size` slots, as the debug listing of the heap shows them.
    pub fn print_array(&self, size: usize) -> (r: Vec<Option<u16>>)
        requires
            self.wf(),
            size <= HEAP_SLOTS,
        ensures
            r@ == self.slots().take(size as int),
    {
        let mut r: Vec<Option<u16>> = Vec::new();
        let mut i: usize = 0;
        while i < size
            invariant
                self.wf(),
                size <= HEAP_SLOTS,
                i <= size,
                r@ == self.slots().take(i as int),
            decreases size - i,
        {
            r.push(self.arr[i]);
            i = i + 1;
            assert(r@ =~= self.slots().take(i as int));
        }
        r
    }

    /// The slots that start a block, with their block lengths, in slot order, as
    /// the debug listing of the used slots shows them.
    pub fn print_non_empty(&self) -> (r: Vec<(usize, u16)>)
        requires
            self.wf(),
        ensures
            forall|k: int| 0 <= k < r@.len() ==> 0 <= #[trigger] r@[k].0 < HEAP_SLOTS
                && self.slots()[r@[k].0 as int] == Some(r@[k].1),
            forall|k: int, l: int| 0 <= k < l < r@.len() ==> r@[k].0 < r@[l].0,
            forall|i: int| 0 <= i < HEAP_SLOTS && #[trigger] self.slots()[i] is Some ==> exists|k: int|
                0 <= k < r@.len() && r@[k].0 == i,
    {
        let mut r: Vec<(usize, u16)> = Vec::new();
        let mut i: usize = 0;
        while i < self.arr.len()
            invariant
                self.wf(),
                i <= HEAP_SLOTS,
                forall|k: int| 0 <= k < r@.len() ==> 0 <= #[trigger] r@[k].0 < i
                    && self.slots()[r@[k].0 as int] == Some(r@[k].1),
                forall|k: int, l: int| 0 <= k < l < r@.len() ==> r@[k].0 < r@[l].0,
                forall|j: int| 0 <= j < i && #[trigger] self.slots()[j] is Some ==> exists|k: int|
                    0 <= k < r@.len() && r@[k].0 == j,
            decreases HEAP_SLOTS - i,
        {
            match self.arr[i] {
                Some(v) => {
                    let ghost old_r = r@;
                    r.push((i, v));
                    assert forall|j: int| 0 <= j < i + 1 && #[trigger] self.slots()[j] is Some implies exists|k: int|
                        0 <= k < r@.len() && r@[k].0 == j by {
                        if j < i {
                            let k = choose|k: int| 0 <= k < old_r.len() && old_r[k].0 == j;
                            assert(r@[k] == old_r[k]);
                        } else {
                            assert(r@[r@.len() - 1].0 == j);
                        }
                    }
                },
                None => {},
            }
            i = i + 1;
        }
        r
    }
}

/// The block size of a valid layout is a positive multiple of the slot size,
/// at least the requested size.
pub(crate) proof fn lemma_block_size(size: int, align: int)
    requires
        size > 0,
        layout_fits(size, align),
    ensures
        block_size(size, align) % ALLOC_STEPS as int == 0,
        block_size(size, align) >= ALLOC_STEPS,
        block_size(size, align) >= size,
        block_size(size, align) <= size + (if align > ALLOC_STEPS {
            align
        } else {
            ALLOC_STEPS as int
        }),
{
    let a = if align > ALLOC_STEPS {
        align
    } else {
        ALLOC_STEPS as int
    };
    lemma_pow2_multiple_16(a);
    let b = block_size(size, align);
    assert(b % a == 0) by (nonlinear_arith)
        requires
            a > 0,
            b == (if size % a == 0 {
                size
            } else {
                size + (a - size % a)
            }),
    ;
    let k = b / a;
    lemma_fundamental_div_mod(b, a);
    let m = a / 16;
    lemma_fundamental_div_mod(a, 16);
    assert(b == 16 * (m * k)) by (nonlinear_arith)
        requires
            b == a * k + b % a,
            b % a == 0,
            a == 16 * m + a % 16,
            a % 16 == 0,
    ;
    lemma_mod_multiples_basic(m * k, 16);
}

proof fn lemma_pow2_multiple_16(a: int)
    requires
        a >= 16,
        a == ALLOC_STEPS || is_power_of_two(a),
    ensures
        a % 16 == 0,
    decreases a,
{
    if a != 16 {
        assert(a % 2 == 0 && is_power_of_two(a / 2));
        if a / 2 >= 16 {
            lemma_pow2_multiple_16(a / 2);
        } else {
            lemma_small_pow2(a / 2);
        }
    }
}

proof fn lemma_small_pow2(b: int)
    requires
        8 <= b < 16,
        is_power_of_two(b),
    ensures
        b == 8,
    decreases b,
{
    reveal_with_fuel(is_power_of_two, 5);
}

/// A walk resumed with `acc` free slots counted from `spot` lands on a slot that
/// was free when it started there.
proof fn lemma_walk_from_lands_free(arr: Seq<Option<u16>>, n: int, i: int, spot: int, acc: int, base: int, a: int)
    requires
        0 <= spot <= i,
        acc == 0 ==> spot == i,
        acc > 0 ==> spot < arr.len() && arr[spot] is None,
        acc >= 0,
    ensures
        walk_from(arr, n, i, spot, acc, base, a) matches Some(s) ==> 0 <= s < arr.len() && arr[s] is None,
    decreases arr.len() - i,
{
    if 0 <= i < arr.len() {
        match arr[i] {
            Some(off) => {
                if off != 0 && i + off < arr.len() {
                    lemma_walk_from_lands_free(arr, n, i + off, i + off, 0, base, a);
                }
            },
            None => {
                if acc == 0 && !slot_aligned(base, a, i) {
                    lemma_walk_from_lands_free(arr, n, i + 1, i + 1, 0, base, a);
                } else if acc + 1 != n {
                    lemma_walk_from_lands_free(arr, n, i + 1, spot, acc + 1, base, a);
                }
            },
        }
    }
}

/// A walk resumed with the run from `spot` aligned (or starting at `i`) lands
/// on a slot aligned as asked.
proof fn lemma_walk_from_aligned(arr: Seq<Option<u16>>, n: int, i: int, spot: int, acc: int, base: int, a: int)
    requires
        acc == 0 ==> spot == i,
        acc > 0 ==> slot_aligned(base, a, spot),
        acc >= 0,
    ensures
        walk_from(arr, n, i, spot, acc, base, a) matches Some(s) ==> slot_aligned(base, a, s),
    decreases arr.len() - i,
{
    if 0 <= i < arr.len() {
        match arr[i] {
            Some(off) => {
                if off != 0 && i + off < arr.len() {
                    lemma_walk_from_aligned(arr, n, i + off, i + off, 0, base, a);
                }
            },
            None => {
                if acc == 0 && !slot_aligned(base, a, i) {
                    lemma_walk_from_aligned(arr, n, i + 1, i + 1, 0, base, a);
                } else if acc + 1 != n {
                    lemma_walk_from_aligned(arr, n, i + 1, spot, acc + 1, base, a);
                }
            },
        }
    }
}

/// A block is placed only at a slot aligned as asked.
pub proof fn lemma_walk_aligned(arr: Seq<Option<u16>>, n: int, base: int, a: int)
    ensures
        walk(arr, n, base, a) matches Some(s) ==> slot_aligned(base, a, s),
{
    lemma_walk_from_aligned(arr, n, 0, 0, 0, base, a);
}

/// Freeing a block right after it was allocated gives back the heap as it was
/// before the allocation: an allocation only ever takes a free slot.
pub proof fn lemma_free_undoes_allocate(arr: Seq<Option<u16>>, n: int, base: int, a: int)
    requires
        walk(arr, n, base, a) is Some,
    ensures
        0 <= walk(arr, n, base, a)->0 < arr.len(),
        arr[walk(arr, n, base, a)->0] is None,
        forall|v: u16| #[trigger] arr.update(walk(arr, n, base, a)->0, Some(v)).update(walk(arr, n, base, a)->0, None) == arr,
{
    lemma_walk_from_lands_free(arr, n, 0, 0, 0, base, a);
    let s = walk(arr, n, base, a)->0;
    assert forall|v: u16| #[trigger] arr.update(s, Some(v)).update(s, None) == arr by {
        assert(arr.update(s, Some(v)).update(s, None) =~= arr);
    }
}

/// Whether no block starts inside another: the slots a block covers behind its
/// first slot are free.
pub open spec fn blocks_apart(arr: Seq<Option<u16>>) -> bool {
    forall|i: int, j: int|
        0 <= i < j < arr.len() && #[trigger] arr[i] is Some && j < i + arr[i]->0 ==> #[trigger] arr[j]
            is None
}

/// Whether the `n` slots from `s` overlap no block.
pub open spec fn run_is_free(arr: Seq<Option<u16>>, s: int, n: int) -> bool {
    &&& 0 <= s
    &&& s + n <= arr.len()
    &&& forall|k: int| s <= k < s + n ==> #[trigger] arr[k] is None
    &&& forall|b: int| 0 <= b < arr.len() && #[trigger] arr[b] is Some ==> b + arr[b]->0 <= s || s + n <= b
}

proof fn lemma_walk_from_apart(arr: Seq<Option<u16>>, n: int, i: int, spot: int, acc: int, base: int, a: int)
    requires
        blocks_apart(arr),
        forall|b: int| 0 <= b < arr.len() && #[trigger] arr[b] is Some ==> arr[b]->0 >= 1,
        n >= 1,
        0 <= spot <= i,
        acc == i - spot,
        acc < n,
        forall|k: int| spot <= k < i ==> #[trigger] arr[k] is None,
        forall|b: int| 0 <= b < i && b < arr.len() && #[trigger] arr[b] is Some ==> b + arr[b]->0 <= spot,
    ensures
        walk_from(arr, n, i, spot, acc, base, a) matches Some(s) ==> run_is_free(arr, s, n),
    decreases arr.len() - i,
{
    if 0 <= i < arr.len() {
        match arr[i] {
            Some(off) => {
                if off != 0 && i + off < arr.len() {
                    assert forall|b: int| 0 <= b < i + off && b < arr.len() && #[trigger] arr[b] is Some implies b
                        + arr[b]->0 <= i + off by {
                        if i < b {
                            assert(arr[i] is Some && b < i + arr[i]->0);
                        }
                    }
                    lemma_walk_from_apart(arr, n, i + off, i + off, 0, base, a);
                }
            },
            None => {
                if acc == 0 && !slot_aligned(base, a, i) {
                    lemma_walk_from_apart(arr, n, i + 1, i + 1, 0, base, a);
                } else if acc + 1 != n {
                    lemma_walk_from_apart(arr, n, i + 1, spot, acc + 1, base, a);
                }
            },
        }
    }
}

/// While no block starts inside another, the run an allocation lands on
/// overlaps no block, and placing the new block there keeps the blocks apart.
pub proof fn lemma_allocation_keeps_blocks_apart(arr: Seq<Option<u16>>, n: int, base: int, a: int)
    requires
        blocks_apart(arr),
        forall|b: int| 0 <= b < arr.len() && #[trigger] arr[b] is Some ==> arr[b]->0 >= 1,
        1 <= n <= u16::MAX,
        walk(arr, n, base, a) is Some,
    ensures
        run_is_free(arr, walk(arr, n, base, a)->0, n),
        blocks_apart(arr.update(walk(arr, n, base, a)->0, Some(n as u16))),
{
    lemma_walk_from_apart(arr, n, 0, 0, 0, base, a);
    let s = walk(arr, n, base, a)->0;
    let t = arr.update(s, Some(n as u16));
    assert forall|i: int, j: int|
        0 <= i < j < t.len() && #[trigger] t[i] is Some && j < i + t[i]->0 implies #[trigger] t[j] is None by {
        if i == s {
            assert(arr[j] is None);
            assert(j != s);
        } else if j == s {
            assert(arr[i] is Some);
            assert(false);
        } else {
            assert(arr[i] is Some);
        }
    }
}

/// Where an allocation lands, in addresses: in a heap at `base` whose blocks
/// are apart, the block an allocation of `n` slots aligned to `a` is placed at
/// lies inside the heap, starts at an address aligned to `a` (for an alignment
/// above the slot size), and shares no byte with any live block.
pub proof fn lemma_allocation_placement(arr: Seq<Option<u16>>, n: int, base: int, a: int)
    requires
        arr.len() == HEAP_SLOTS,
        blocks_apart(arr),
        forall|b: int| 0 <= b < arr.len() && #[trigger] arr[b] is Some ==> arr[b]->0 >= 1,
        1 <= n <= u16::MAX,
        walk(arr, n, base, a) is Some,
    ensures
        ({
            let p = base + walk(arr, n, base, a)->0 * 16;
            &&& base <= p
            &&& p + n * 16 <= base + HEAP_SIZE
            &&& a > ALLOC_STEPS ==> p % a == 0
            &&& forall|b: int|
                0 <= b < arr.len() && #[trigger] arr[b] is Some ==> base + (b + arr[b]->0) * 16 <= p || p
                    + n * 16 <= base + b * 16
        }),
{
    lemma_allocation_keeps_blocks_apart(arr, n, base, a);
    lemma_walk_aligned(arr, n, base, a);
}

/// Freeing a block, or cutting it shorter, keeps the blocks apart.
pub proof fn lemma_free_keeps_blocks_apart(arr: Seq<Option<u16>>, k: int, v: u16)
    requires
        blocks_apart(arr),
        0 <= k < arr.len(),
        arr[k] is Some ==> v <= arr[k]->0,
    ensures
        blocks_apart(arr.update(k, None)),
        arr[k] is Some ==> blocks_apart(arr.update(k, Some(v))),
{
    let t = arr.update(k, None);
    assert forall|i: int, j: int|
        0 <= i < j < t.len() && #[trigger] t[i] is Some && j < i + t[i]->0 implies #[trigger] t[j] is None by {
        assert(arr[i] is Some);
    }
    if arr[k] is Some {
        let u = arr.update(k, Some(v));
        assert forall|i: int, j: int|
            0 <= i < j < u.len() && #[trigger] u[i] is Some && j < i + u[i]->0 implies #[trigger] u[j] is None by {
            assert(arr[i] is Some);
            if j == k {
                assert(arr[k] is Some);
            }
        }
    }
}

} // verus!
