//! 32-bit virtual addresses and virtual memory pages of 4KiB and 4MiB.
use vstd::prelude::*;
use core::marker::PhantomData;
use core::ops::{Add, Sub};
use vstd::std_specs::ops::{AddSpecImpl, SubSpecImpl};
use crate::pagetable::PageTableIndex;
use bit_field::BitField;
use vstd::arithmetic::power2::{pow2, lemma2_to64};

verus! {

/// A 32-bit virtual address.
#[derive(Debug, Clone, Copy, PartialEq, Eq, Structural)]
pub struct VirtAddr(pub u32);

impl VirtAddr {
    pub fn new(addr: u32) -> (r: VirtAddr)
        ensures
            r.0 == addr,
    {
        VirtAddr(addr)
    }

    pub fn zero() -> (r: VirtAddr)
        ensures
            r.0 == 0,
    {
        VirtAddr(0)
    }

    pub fn as_u32(self) -> (r: u32)
        ensures
            r == self.0,
    {
        self.0
    }

    /// Aligns the address down to `align`, a supported page size.
    pub fn align_down(self, align: u32) -> (r: VirtAddr)
        requires
            supported_page_size(align),
        ensures
            r.0 == self.0 - self.0 % align,
    {
        let x = self.0;
        proof {
            lemma_align_down(x);
        }
        VirtAddr(x & !(align - 1))
    }

    /// Whether the address is a multiple of `align`, a supported page size.
    pub fn is_aligned(self, align: u32) -> (r: bool)
        requires
            supported_page_size(align),
        ensures
            r == (self.0 % align == 0),
    {
        self.align_down(align).0 == self.0
    }
}

impl Add<u32> for VirtAddr {
    type Output = VirtAddr;

    fn add(self, rhs: u32) -> (r: VirtAddr) {
        VirtAddr(self.0 + rhs)
    }
}

impl AddSpecImpl<u32> for VirtAddr {
    open spec fn obeys_add_spec() -> bool {
        true
    }

    open spec fn add_req(self, rhs: u32) -> bool {
        self.0 + rhs <= u32::MAX
    }

    open spec fn add_spec(self, rhs: u32) -> VirtAddr {
        VirtAddr((self.0 + rhs) as u32)
    }
}

impl Sub<u32> for VirtAddr {
    type Output = VirtAddr;

    fn sub(self, rhs: u32) -> (r: VirtAddr) {
        VirtAddr(self.0 - rhs)
    }
}

impl SubSpecImpl<u32> for VirtAddr {
    open spec fn obeys_sub_spec() -> bool {
        true
    }

    open spec fn sub_req(self, rhs: u32) -> bool {
        self.0 >= rhs
    }

    open spec fn sub_spec(self, rhs: u32) -> VirtAddr {
        VirtAddr((self.0 - rhs) as u32)
    }
}

/// The page sizes this crate supports: 4KiB and 4MiB.
pub open spec fn supported_page_size(s: u32) -> bool {
    s == 4096 || s == 0x40_0000
}

proof fn lemma_align_down(x: u32)
    ensures
        x & !(4095u32) == x - x % 4096,
        x & !(0x3f_ffffu32) == x - x % 0x40_0000,
{
    assert(x & !(4095u32) == x - x % 4096u32) by (bit_vector);
    assert(x & !(0x3f_ffffu32) == x - x % 0x40_0000u32) by (bit_vector);
}

/// Trait for abstracting over the page sizes, 4KiB and 4MiB.
pub trait PageSize: Copy {
    /// The page size in bytes.
    spec fn size_bytes() -> u32;

    /// The page size in bytes.
    fn size() -> (r: u32)
        ensures
            r == Self::size_bytes(),
    ;

    /// The text that names the page size in debug output.
    spec fn debug_text() -> Seq<char>;

    /// A text for the page size in debug output.
    fn size_as_debug_str() -> (r: &'static str)
        ensures
            r@ == Self::debug_text(),
    ;

    proof fn lemma_supported()
        ensures
            supported_page_size(Self::size_bytes()),
    ;
}

/// A standard 4KiB page.
#[derive(Debug, Clone, Copy, PartialEq, Eq)]
pub struct Size4KiB;

/// A huge 4MiB page.
#[derive(Debug, Clone, Copy, PartialEq, Eq)]
pub struct Size4MiB;

impl PageSize for Size4KiB {
    open spec fn size_bytes() -> u32 {
        4096
    }

    fn size() -> (r: u32) {
        4096
    }

    open spec fn debug_text() -> Seq<char> {
        seq!['4', 'K', 'i', 'B']
    }

    fn size_as_debug_str() -> (r: &'static str) {
        proof {
            reveal_strlit("4KiB");
        }
        "4KiB"
    }

    proof fn lemma_supported() {
    }
}

impl PageSize for Size4MiB {
    open spec fn size_bytes() -> u32 {
        0x40_0000
    }

    fn size() -> (r: u32) {
        0x40_0000
    }

    open spec fn debug_text() -> Seq<char> {
        seq!['4', 'M', 'i', 'B']
    }

    fn size_as_debug_str() -> (r: &'static str) {
        proof {
            reveal_strlit("4MiB");
        }
        "4MiB"
    }

    proof fn lemma_supported() {
    }
}

/// The given address was not sufficiently aligned.
#[derive(Debug)]
pub struct AddressNotAligned;

/// A virtual memory page.
#[derive(Debug, Copy)]
pub struct Page<S: PageSize = Size4KiB> {
    start_address: VirtAddr,
    size: PhantomData<S>,
}

impl<S: PageSize> PartialEq for Page<S> {
    fn eq(&self, other: &Self) -> (r: bool) {
        self.start_address.0 == other.start_address.0
    }
}

impl<S: PageSize> vstd::std_specs::cmp::PartialEqSpecImpl for Page<S> {
    open spec fn obeys_eq_spec() -> bool {
        true
    }

    open spec fn eq_spec(&self, other: &Self) -> bool {
        self.start() == other.start()
    }
}

impl<S: PageSize> Clone for Page<S> {
    fn clone(&self) -> (r: Self)
        ensures
            r == *self,
    {
        *self
    }
}

impl<S: PageSize> Page<S> {
    /// The start address of the page.
    pub closed spec fn start(self) -> u32 {
        self.start_address.0
    }

    /// A page starts at a multiple of its size.
    pub open spec fn wf(self) -> bool {
        self.start() % S::size_bytes() == 0
    }

    /// Returns the page that starts at the given virtual address, or an error if
    /// the address is not a valid page start.
    pub fn from_start_address(address: VirtAddr) -> (r: Result<Self, AddressNotAligned>)
        ensures
            address.0 % S::size_bytes() != 0 ==> r is Err,
            address.0 % S::size_bytes() == 0 ==> (r matches Ok(p) && p.start() == address.0
                && p.wf()),
    {
        proof {
            S::lemma_supported();
        }
        if !address.is_aligned(S::size()) {
            return Err(AddressNotAligned);
        }
        Ok(Page::containing_address(address))
    }

    /// Returns the page that contains the given virtual address.
    pub fn containing_address(address: VirtAddr) -> (r: Self)
        ensures
            r.start() == address.0 - address.0 % S::size_bytes(),
            r.wf(),
    {
        proof {
            S::lemma_supported();
        }
        let r = Page { start_address: address.align_down(S::size()), size: PhantomData };
        assert(r.start() % S::size_bytes() == 0) by (nonlinear_arith)
            requires
                r.start() == address.0 - address.0 % S::size_bytes(),
                S::size_bytes() > 0,
        ;
        r
    }

    /// Returns the start address of the page.
    pub fn start_address(self) -> (r: VirtAddr)
        ensures
            r.0 == self.start(),
    {
        self.start_address
    }

    /// Returns the size of the page.
    pub fn size(self) -> (r: u32)
        ensures
            r == S::size_bytes(),
    {
        S::size()
    }

    /// Returns a range of pages, exclusive `end`.
    pub fn range(start: Self, end: Self) -> (r: PageRange<S>)
        ensures
            r.start == start,
            r.end == end,
    {
        PageRange { start, end }
    }

    /// Returns a range of pages, inclusive `end`.
    pub fn range_inclusive(start: Self, end: Self) -> (r: PageRangeInclusive<S>)
        ensures
            r.start == start,
            r.end == end,
    {
        PageRangeInclusive { start, end }
    }

    /// Whether this page comes before `other` in the address space.
    pub fn lt(&self, other: &Self) -> (r: bool)
        ensures
            r == (self.start() < other.start()),
    {
        self.start_address.0 < other.start_address.0
    }

    /// Whether this page comes before or is `other`.
    pub fn le(&self, other: &Self) -> (r: bool)
        ensures
            r == (self.start() <= other.start()),
    {
        self.start_address.0 <= other.start_address.0
    }
}

impl<S: PageSize> Add<u32> for Page<S> {
    type Output = Page<S>;

    /// The page `rhs` pages after this one.
    fn add(self, rhs: u32) -> (r: Page<S>) {
        proof {
            S::lemma_supported();
            assert(rhs * S::size_bytes() <= u32::MAX) by (nonlinear_arith)
                requires
                    self.start() + rhs * S::size_bytes() <= u32::MAX,
            ;
        }
        Page::containing_address(self.start_address + rhs * S::size())
    }
}

impl<S: PageSize> AddSpecImpl<u32> for Page<S> {
    open spec fn obeys_add_spec() -> bool {
        true
    }

    open spec fn add_req(self, rhs: u32) -> bool {
        self.start() + rhs * S::size_bytes() <= u32::MAX
    }

    open spec fn add_spec(self, rhs: u32) -> Page<S> {
        page_at::<S>((self.start() + rhs * S::size_bytes()) as u32)
    }
}

impl<S: PageSize> Sub<u32> for Page<S> {
    type Output = Page<S>;

    /// The page `rhs` pages before this one.
    fn sub(self, rhs: u32) -> (r: Page<S>) {
        proof {
            S::lemma_supported();
        }
        Page::containing_address(self.start_address - rhs * S::size())
    }
}

impl<S: PageSize> SubSpecImpl<u32> for Page<S> {
    open spec fn obeys_sub_spec() -> bool {
        true
    }

    open spec fn sub_req(self, rhs: u32) -> bool {
        self.start() >= rhs * S::size_bytes()
    }

    open spec fn sub_spec(self, rhs: u32) -> Page<S> {
        page_at::<S>((self.start() - rhs * S::size_bytes()) as u32)
    }
}

/// The page that contains address `a`.
pub closed spec fn page_at<S: PageSize>(a: u32) -> Page<S> {
    Page { start_address: VirtAddr((a - a % S::size_bytes()) as u32), size: PhantomData }
}

/// A range of pages with exclusive upper bound.
#[derive(Debug, Copy)]
pub struct PageRange<S: PageSize> {
    /// The start of the range, inclusive.
    pub start: Page<S>,
    /// The end of the range, exclusive.
    pub end: Page<S>,
}

impl<S: PageSize> Clone for PageRange<S> {
    fn clone(&self) -> (r: Self)
        ensures
            r == *self,
    {
        *self
    }
}

impl<S: PageSize> PageRange<S> {
    /// Whether the range holds no page.
    pub open spec fn no_pages(self) -> bool {
        self.start.start() >= self.end.start()
    }

    /// Returns wether this range contains no pages.
    pub fn is_empty(&self) -> (r: bool)
        ensures
            r == self.no_pages(),
    {
        !self.start.lt(&self.end)
    }

    /// Returns the first page of the range and moves the start one page on, or
    /// `None` when the range is empty.
    pub fn next(&mut self) -> (r: Option<Page<S>>)
        requires
            old(self).start.wf(),
            old(self).start.start() < old(self).end.start() ==> old(self).start.start()
                + S::size_bytes() <= u32::MAX,
        ensures
            final(self).end == old(self).end,
            r is None <==> old(self).no_pages(),
            old(self).start.start() >= old(self).end.start() ==> r is None && final(self).start
                == old(self).start,
            old(self).start.start() < old(self).end.start() ==> r == Some(old(self).start)
                && final(self).start.start() == old(self).start.start() + S::size_bytes()
                && final(self).start.wf(),
            range_next_step(*old(self), *final(self), r),
    {
        if self.start.lt(&self.end) {
            let page = self.start;
            proof {
                S::lemma_supported();
            }
            let next = Page::containing_address(self.start.start_address + S::size());
            proof {
                lemma_page_step::<S>(page.start());
            }
            self.start = next;
            Some(page)
        } else {
            None
        }
    }
}

/// A range of pages with inclusive upper bound.
#[derive(Debug, Copy)]
pub struct PageRangeInclusive<S: PageSize> {
    /// The start of the range, inclusive.
    pub start: Page<S>,
    /// The end of the range, inclusive.
    pub end: Page<S>,
}

impl<S: PageSize> Clone for PageRangeInclusive<S> {
    fn clone(&self) -> (r: Self)
        ensures
            r == *self,
    {
        *self
    }
}

impl<S: PageSize> PageRangeInclusive<S> {
    /// Whether the range holds no page.
    pub open spec fn no_pages(self) -> bool {
        self.start.start() > self.end.start()
    }

    /// Returns wether this range contains no pages.
    pub fn is_empty(&self) -> (r: bool)
        ensures
            r == self.no_pages(),
    {
        !self.start.le(&self.end)
    }

    /// Returns the first page of the range and moves the start one page on, or
    /// `None` when the range is empty.
    pub fn next(&mut self) -> (r: Option<Page<S>>)
        requires
            old(self).start.wf(),
            old(self).start.start() <= old(self).end.start() ==> old(self).start.start()
                + S::size_bytes() <= u32::MAX,
        ensures
            final(self).end == old(self).end,
            r is None <==> old(self).no_pages(),
            old(self).start.start() > old(self).end.start() ==> r is None && final(self).start
                == old(self).start,
            old(self).start.start() <= old(self).end.start() ==> r == Some(old(self).start)
                && final(self).start.start() == old(self).start.start() + S::size_bytes()
                && final(self).start.wf(),
            inclusive_next_step(*old(self), *final(self), r),
    {
        if self.start.le(&self.end) {
            let page = self.start;
            proof {
                S::lemma_supported();
            }
            let next = Page::containing_address(self.start.start_address + S::size());
            proof {
                lemma_page_step::<S>(page.start());
            }
            self.start = next;
            Some(page)
        } else {
            None
        }
    }
}

/// One page on from a page start is again a page start.
proof fn lemma_page_step<S: PageSize>(a: u32)
    requires
        a % S::size_bytes() == 0,
        a + S::size_bytes() <= u32::MAX,
    ensures
        (a + S::size_bytes()) % (S::size_bytes() as int) == 0,
{
    S::lemma_supported();
}

/// Sets bits `lo..hi` of `x` to `value` (bit_field's `BitField::set_bits` on `u32`):
/// the other bits keep their values.
#[verifier::external_body]
fn set_bits_u32(x: u32, lo: usize, hi: usize, value: u32) -> (r: u32)
    requires
        lo < hi <= 32,
        value < pow2((hi - lo) as nat),
    ensures
        r as int == x as int % pow2(lo as nat) as int + value * pow2(lo as nat) + (x as int
            / pow2(hi as nat) as int) * pow2(hi as nat),
{
    let mut x = x;
    x.set_bits(lo..hi, value);
    x
}

impl Page<Size4MiB> {
    /// Returns the 4MiB memory page with the specified page table index.
    pub fn from_page_table_indices_4mib(p2_index: PageTableIndex) -> (r: Self)
        ensures
            r.start() == p2_index.value() * 0x40_0000,
    {
        proof {
            lemma2_to64();
            use_type_invariant(&p2_index);
            PageTableIndex::lemma_bound(p2_index);
        }
        let addr = set_bits_u32(0, 22, 32, p2_index.as_u32());
        let r = Page::containing_address(VirtAddr::new(addr));
        assert(addr % 0x40_0000 == 0);
        r
    }
}

impl Page<Size4KiB> {
    /// Returns the 4KiB memory page with the specified page table indices.
    pub fn from_page_table_indices(p2_index: PageTableIndex, p1_index: PageTableIndex) -> (r: Self)
        ensures
            r.start() == p2_index.value() * 0x40_0000 + p1_index.value() * 0x1000,
    {
        proof {
            lemma2_to64();
            use_type_invariant(&p2_index);
            PageTableIndex::lemma_bound(p2_index);
            use_type_invariant(&p1_index);
            PageTableIndex::lemma_bound(p1_index);
        }
        let addr = set_bits_u32(0, 22, 32, p2_index.as_u32());
        let addr = set_bits_u32(addr, 12, 22, p1_index.as_u32());
        let r = Page::containing_address(VirtAddr::new(addr));
        assert(addr % 0x1000 == 0);
        r
    }
}

/// Going `n` pages forward from a page and `n` pages back again gives the page
/// back.
pub proof fn lemma_page_add_sub<S: PageSize>(p: Page<S>, n: u32)
    requires
        p.wf(),
        p.start() + n * S::size_bytes() <= u32::MAX,
    ensures
        ({
            let q = page_at::<S>((p.start() + n * S::size_bytes()) as u32);
            &&& q.start() == p.start() + n * S::size_bytes()
            &&& q.start() >= n * S::size_bytes()
            &&& page_at::<S>((q.start() - n * S::size_bytes()) as u32) == p
        }),
{
    S::lemma_supported();
    let sz = S::size_bytes() as int;
    let a = p.start() as int;
    let b = a + n * sz;
    vstd::arithmetic::div_mod::lemma_fundamental_div_mod(a, sz);
    let k = a / sz;
    assert(b == (k + n) * sz) by (nonlinear_arith)
        requires
            a == sz * k + a % sz,
            a % sz == 0,
            b == a + n * sz,
    ;
    vstd::arithmetic::div_mod::lemma_fundamental_div_mod_converse(b, sz, k + n, 0);
    let q = page_at::<S>(b as u32);
    assert(q.start() == b);
    assert(n * sz >= 0) by (nonlinear_arith)
        requires
            sz > 0,
    ;
    assert(page_at::<S>((q.start() - n * sz) as u32).start() == a);
}

/// The page containing an address starts at or below it and less than a page
/// below it, and containing-address is the identity on a page's start.
pub proof fn lemma_containing_page<S: PageSize>(a: u32)
    ensures
        page_at::<S>(a).start() <= a < page_at::<S>(a).start() + S::size_bytes(),
        page_at::<S>(page_at::<S>(a).start()) == page_at::<S>(a),
{
    S::lemma_supported();
    let sz = S::size_bytes() as int;
    let x = a as int;
    assert((x - x % sz) % sz == 0) by (nonlinear_arith)
        requires
            sz > 0,
    ;
}

/// One call of `PageRange::next`: from `a` to `b`, handing out `r`.
pub open spec fn range_next_step<S: PageSize>(a: PageRange<S>, b: PageRange<S>, r: Option<Page<S>>) -> bool {
    &&& b.end == a.end
    &&& a.no_pages() ==> r is None && b.start == a.start
    &&& !a.no_pages() ==> r == Some(a.start) && b.start.start() == a.start.start() + S::size_bytes()
}

/// One call of `PageRangeInclusive::next`: from `a` to `b`, handing out `r`.
pub open spec fn inclusive_next_step<S: PageSize>(
    a: PageRangeInclusive<S>,
    b: PageRangeInclusive<S>,
    r: Option<Page<S>>,
) -> bool {
    &&& b.end == a.end
    &&& a.no_pages() ==> r is None && b.start == a.start
    &&& !a.no_pages() ==> r == Some(a.start) && b.start.start() == a.start.start() + S::size_bytes()
}

/// Where the walk over a range stands after `k` calls: at the `k`-th page while
/// every page before it lay below the end, and at or past the end after that.
proof fn lemma_range_walk_position<S: PageSize>(rs: Seq<PageRange<S>>, outs: Seq<Option<Page<S>>>, k: int)
    requires
        rs.len() == outs.len() + 1,
        forall|i: int| 0 <= i < outs.len() ==> #[trigger] range_next_step(rs[i], rs[i + 1], outs[i]),
        0 <= k <= outs.len(),
    ensures
        rs[k].end == rs[0].end,
        (k == 0 || rs[0].start.start() + (k - 1) * S::size_bytes() < rs[0].end.start()) ==> rs[k].start.start()
            == rs[0].start.start() + k * S::size_bytes(),
        !(k == 0 || rs[0].start.start() + (k - 1) * S::size_bytes() < rs[0].end.start()) ==> rs[k].start.start()
            >= rs[0].end.start(),
    decreases k,
{
    if k > 0 {
        lemma_range_walk_position(rs, outs, k - 1);
        let j = k - 1;
        assert(range_next_step(rs[j], rs[j + 1], outs[j]));
        let sz = S::size_bytes() as int;
        assert(k * sz == j * sz + sz) by (nonlinear_arith)
            requires
                j == k - 1,
        ;
        assert(j * sz >= 0 && (j > 0 ==> (j - 1) * sz + sz == j * sz)) by (nonlinear_arith)
            requires
                j >= 0,
                sz >= 0,
        ;
    }
}

/// Walking a page range hands out its pages in order: the `k`-th call gives the
/// page `k` pages after the start while that page starts below the end, and
/// `None` from then on.
pub proof fn lemma_page_range_walk<S: PageSize>(rs: Seq<PageRange<S>>, outs: Seq<Option<Page<S>>>, k: int)
    requires
        rs.len() == outs.len() + 1,
        forall|i: int| 0 <= i < outs.len() ==> #[trigger] range_next_step(rs[i], rs[i + 1], outs[i]),
        0 <= k < outs.len(),
    ensures
        rs[0].start.start() + k * S::size_bytes() < rs[0].end.start() ==> (outs[k] matches Some(p) && p.start()
            == rs[0].start.start() + k * S::size_bytes()),
        rs[0].start.start() + k * S::size_bytes() >= rs[0].end.start() ==> outs[k] is None,
{
    lemma_range_walk_position(rs, outs, k);
    assert(range_next_step(rs[k], rs[k + 1], outs[k]));
    let sz = S::size_bytes() as int;
    assert(k > 0 ==> (k - 1) * sz <= k * sz) by (nonlinear_arith)
        requires
            sz >= 0,
    ;
}

/// Where the walk over an inclusive range stands after `k` calls: at the `k`-th
/// page while every page before it lay at or below the end, and past the end
/// after that.
proof fn lemma_inclusive_walk_position<S: PageSize>(
    rs: Seq<PageRangeInclusive<S>>,
    outs: Seq<Option<Page<S>>>,
    k: int,
)
    requires
        rs.len() == outs.len() + 1,
        forall|i: int| 0 <= i < outs.len() ==> #[trigger] inclusive_next_step(rs[i], rs[i + 1], outs[i]),
        0 <= k <= outs.len(),
    ensures
        rs[k].end == rs[0].end,
        (k == 0 || rs[0].start.start() + (k - 1) * S::size_bytes() <= rs[0].end.start()) ==> rs[k].start.start()
            == rs[0].start.start() + k * S::size_bytes(),
        !(k == 0 || rs[0].start.start() + (k - 1) * S::size_bytes() <= rs[0].end.start()) ==> rs[k].start.start()
            > rs[0].end.start(),
    decreases k,
{
    if k > 0 {
        lemma_inclusive_walk_position(rs, outs, k - 1);
        let j = k - 1;
        assert(inclusive_next_step(rs[j], rs[j + 1], outs[j]));
        let sz = S::size_bytes() as int;
        assert(k * sz == j * sz + sz) by (nonlinear_arith)
            requires
                j == k - 1,
        ;
        assert(j * sz >= 0 && (j > 0 ==> (j - 1) * sz + sz == j * sz)) by (nonlinear_arith)
            requires
                j >= 0,
                sz >= 0,
        ;
    }
}

/// Walking an inclusive page range hands out its pages in order: the `k`-th
/// call gives the page `k` pages after the start while that page starts at or
/// below the end, and `None` from then on.
pub proof fn lemma_inclusive_range_walk<S: PageSize>(
    rs: Seq<PageRangeInclusive<S>>,
    outs: Seq<Option<Page<S>>>,
    k: int,
)
    requires
        rs.len() == outs.len() + 1,
        forall|i: int| 0 <= i < outs.len() ==> #[trigger] inclusive_next_step(rs[i], rs[i + 1], outs[i]),
        0 <= k < outs.len(),
    ensures
        rs[0].start.start() + k * S::size_bytes() <= rs[0].end.start() ==> (outs[k] matches Some(p) && p.start()
            == rs[0].start.start() + k * S::size_bytes()),
        rs[0].start.start() + k * S::size_bytes() > rs[0].end.start() ==> outs[k] is None,
{
    lemma_inclusive_walk_position(rs, outs, k);
    assert(inclusive_next_step(rs[k], rs[k + 1], outs[k]));
    let sz = S::size_bytes() as int;
    assert(k > 0 ==> (k - 1) * sz <= k * sz) by (nonlinear_arith)
        requires
            sz >= 0,
    ;
}

} // verus!
