//! A bitmap frame allocator over a fixed address window.
//!
//! Every bit of the bitmap stands for one `UNIT`-sized frame; bit `k` of
//! word `i` is frame `64 * i + k`.  The allocator covers `LEN / UNIT` frames
//! from its start address.  An allocation hands out the first run of free
//! frames, from the lowest address, that fits inside the window, and marks it.
use vstd::prelude::*;

verus! {

/// Number of frame bits held by one bitmap word.
pub const WORD_BITS: usize = 64;

/// The error returned by [`FrameAllocator::allocate`].
#[derive(Debug)]
pub enum Error {
    AlignmentError(&'static str),
    NotEnoughMem,
}

/// A frame allocator that covers `LEN` bytes starting at `start_addr`; the
/// smallest frame it hands out is `UNIT` bytes.
pub struct FrameAllocator<const LEN: usize, const UNIT: usize> {
    barray: Vec<u64>,
    start_addr: usize,
    bits_used: usize,
}

/// Whether frame `f` is marked used in the bitmap.
pub open spec fn frame_used(w: Seq<u64>, f: int) -> bool {
    (w[f / 64] >> ((f % 64) as u64)) & 1 == 1
}

/// Whether the frames `s..s + n` are all free.
pub open spec fn run_free(w: Seq<u64>, s: int, n: int) -> bool {
    forall|k: int| s <= k < s + n ==> !#[trigger] frame_used(w, k)
}

/// The first start, from `s` on, of a run of `n` free frames that ends by
/// frame `f`.
pub open spec fn first_run_from(w: Seq<u64>, n: int, f: int, s: int) -> Option<int>
    decreases f - s,
{
    if s < 0 || s + n > f {
        None
    } else if run_free(w, s, n) {
        Some(s)
    } else {
        first_run_from(w, n, f, s + 1)
    }
}

/// The first run of `n` free frames among the first `f` frames.
pub open spec fn first_run(w: Seq<u64>, n: int, f: int) -> Option<int> {
    first_run_from(w, n, f, 0)
}

/// `w2` is the bitmap `w` with the frames `s..s + n` marked used and every
/// other bit kept.
pub open spec fn marked(w: Seq<u64>, w2: Seq<u64>, s: int, n: int) -> bool {
    &&& w2.len() == w.len()
    &&& forall|k: int|
        0 <= k < 64 * w.len() ==> #[trigger] frame_used(w2, k) == (frame_used(w, k) || s <= k < s + n)
}

/// One call of the allocator as seen on its bitmap: with `Some((s, n))` it
/// handed out the frames `s..s + n`, which were free and are now marked used;
/// with `None` it handed out nothing and the bitmap is kept.
pub open spec fn handed_out(w: Seq<u64>, w2: Seq<u64>, run: Option<(int, int)>) -> bool {
    match run {
        Some((s, n)) => {
            &&& 0 <= s
            &&& 0 <= n
            &&& s + n <= 64 * w.len()
            &&& run_free(w, s, n)
            &&& marked(w, w2, s, n)
        },
        None => w2 == w,
    }
}

/// The number of used frames among the first `hi`.
pub open spec fn used_count(w: Seq<u64>, hi: int) -> int
    decreases hi,
{
    if hi <= 0 {
        0
    } else {
        used_count(w, hi - 1) + if frame_used(w, hi - 1) {
            1int
        } else {
            0int
        }
    }
}

/// The bitmap rendered as text: each word as 64 binary digits, most significant first.
pub open spec fn word_chars(x: u64) -> Seq<char> {
    Seq::new(64, |k: int| if (x >> ((63 - k) as u64)) & 1 == 1 { '1' } else { '0' })
}

pub open spec fn bitmap_chars(w: Seq<u64>) -> Seq<char>
    decreases w.len(),
{
    if w.len() == 0 {
        Seq::empty()
    } else {
        bitmap_chars(w.drop_last()) + word_chars(w.last())
    }
}

impl<const LEN: usize, const UNIT: usize> FrameAllocator<LEN, UNIT> {
    /// The number of bitmap words.
    pub open spec fn num_words() -> nat {
        (LEN / UNIT / 64 + 1) as nat
    }

    /// The number of frames the allocator covers.
    pub open spec fn num_frames() -> int {
        LEN as int / UNIT as int
    }

    pub closed spec fn words(&self) -> Seq<u64> {
        self.barray@
    }

    pub closed spec fn start(&self) -> usize {
        self.start_addr
    }

    pub closed spec fn used(&self) -> usize {
        self.bits_used
    }

    /// The bitmap has its words, the window fits in the address space, no frame
    /// past the window is marked, and the count of used frames is kept.
    pub open spec fn wf(&self) -> bool {
        &&& UNIT > 0
        &&& LEN % UNIT == 0
        &&& self.words().len() == Self::num_words()
        &&& Self::num_words() * 128 <= usize::MAX
        &&& self.start() + LEN <= usize::MAX
        &&& forall|k: int| Self::num_frames() <= k < 64 * self.words().len() ==> !#[trigger] frame_used(self.words(), k)
        &&& self.used() == used_count(self.words(), Self::num_frames())
    }

    /// Creates a FrameAllocator that covers LEN bytes, starts at start_addr and
    /// hands out frames of UNIT bytes.
    pub fn new(start_addr: usize) -> (r: Self)
        requires
            UNIT > 0,
            LEN % 8 == 0,
            LEN % UNIT == 0,
            LEN / 8 % 8 == 0,
            start_addr % UNIT == 0,
            Self::num_words() * 128 <= usize::MAX,
            start_addr + LEN <= usize::MAX,
        ensures
            r.wf(),
            r.words() == Seq::new(Self::num_words(), |i: int| 0u64),
            r.start() == start_addr,
            r.used() == 0,
    {
        let n = LEN / UNIT / WORD_BITS + 1;
        let mut barray: Vec<u64> = Vec::new();
        while barray.len() < n
            invariant
                n == Self::num_words(),
                barray.len() <= n,
                forall|i: int| 0 <= i < barray.len() ==> barray@[i] == 0u64,
            decreases n - barray.len(),
        {
            barray.push(0);
        }
        let r = FrameAllocator { barray, start_addr, bits_used: 0 };
        assert(r.words() =~= Seq::new(Self::num_words(), |i: int| 0u64));
        proof {
            lemma_zero_words_free(r.words());
            lemma_count_none(r.words(), Self::num_frames());
        }
        r
    }

    /// Whether frame `k` is used.
    fn is_used(&self, k: usize) -> (r: bool)
        requires
            self.wf(),
            k < 64 * self.words().len(),
        ensures
            r == frame_used(self.words(), k as int),
    {
        (self.barray[k / WORD_BITS] >> ((k % WORD_BITS) as u64)) & 1 == 1
    }

    /// The first run of `n` free frames inside the window.
    fn find_run(&self, n: usize) -> (r: Option<usize>)
        requires
            self.wf(),
        ensures
            r matches Some(s) ==> first_run(self.words(), n as int, Self::num_frames()) == Some(s as int),
            r is None ==> first_run(self.words(), n as int, Self::num_frames()) is None,
    {
        let f = LEN / UNIT;
        proof {
            lemma_frames_in_words::<LEN, UNIT>();
        }
        if n == 0 {
            assert(run_free(self.words(), 0, 0));
            return Some(0);
        }
        let mut run_start: usize = 0;
        let mut run_len: usize = 0;
        let mut k: usize = 0;
        while k < f
            invariant
                self.wf(),
                f == Self::num_frames(),
                f < 64 * self.words().len(),
                0 < n,
                k <= f,
                run_start + run_len == k,
                run_len < n,
                run_free(self.words(), run_start as int, run_len as int),
                first_run(self.words(), n as int, f as int) == first_run_from(
                    self.words(),
                    n as int,
                    f as int,
                    run_start as int,
                ),
            decreases f - k,
        {
            if self.is_used(k) {
                proof {
                    lemma_skip_used(self.words(), n as int, f as int, run_start as int, k as int);
                }
                run_start = k + 1;
                run_len = 0;
            } else {
                run_len = run_len + 1;
                if run_len == n {
                    proof {
                        assert(run_free(self.words(), run_start as int, n as int));
                    }
                    return Some(run_start);
                }
            }
            k = k + 1;
        }
        None
    }

    /// Marks the frames `s..s + n` used.
    fn mark_run(&mut self, s: usize, n: usize)
        requires
            old(self).wf(),
            s + n <= Self::num_frames(),
            run_free(old(self).words(), s as int, n as int),
        ensures
            final(self).wf(),
            final(self).start() == old(self).start(),
            final(self).used() == old(self).used() + n,
            marked(old(self).words(), final(self).words(), s as int, n as int),
    {
        proof {
            lemma_frames_in_words::<LEN, UNIT>();
        }
        let ghost w0 = self.words();
        let end = s + n;
        let mut k: usize = s;
        while k < end
            invariant
                end == s + n,
                s <= k <= s + n,
                s + n <= Self::num_frames(),
                Self::num_frames() < 64 * w0.len(),
                self.words().len() == w0.len(),
                self.start() == old(self).start(),
                self.used() == old(self).used(),
                marked(w0, self.words(), s as int, k - s),
            decreases end - k,
        {
            let i = k / WORD_BITS;
            let b = (k % WORD_BITS) as u64;
            let ghost before = self.words();
            let x = self.barray[i];
            self.barray.set(i, x | (1u64 << b));
            proof {
                assert forall|j: int| 0 <= j < 64 * w0.len() implies #[trigger] frame_used(self.words(), j)
                    == (frame_used(w0, j) || s <= j < k + 1) by {
                    assert(frame_used(before, j) == (frame_used(w0, j) || s <= j < k));
                    if j / 64 == i {
                        lemma_set_bit(x, b, (j % 64) as u64);
                        assert(j % 64 == b <==> j == k);
                    } else {
                        assert(self.words()[j / 64] == before[j / 64]);
                    }
                }
            }
            k = k + 1;
        }
        proof {
            let w1 = self.words();
            assert forall|j: int| Self::num_frames() <= j < 64 * w1.len() implies !#[trigger] frame_used(w1, j) by {
                assert(!frame_used(w0, j));
            }
            lemma_count_marked(w0, w1, s as int, n as int, Self::num_frames());
            lemma_count_bound(w0, Self::num_frames());
            lemma_count_bound(w1, Self::num_frames());
        }
        self.bits_used = self.bits_used + n;
    }

    /// The bitmap as text: each word as 64 binary digits, most significant first.
    pub fn bar_as_string(&self) -> (s: String)
        requires
            self.wf(),
        ensures
            s@ == bitmap_chars(self.words()),
    {
        let mut res: Vec<char> = Vec::new();
        let len = self.barray.len();
        let mut i: usize = 0;
        while i < len
            invariant
                len == self.words().len(),
                i <= len,
                res@ == bitmap_chars(self.words().take(i as int)),
            decreases len - i,
        {
            let x = self.barray[i];
            let mut k: u64 = 0;
            while k < 64
                invariant
                    i < len,
                    len == self.words().len(),
                    x == self.words()[i as int],
                    k <= 64,
                    res@ == bitmap_chars(self.words().take(i as int)) + word_chars(x).take(k as int),
                decreases 64 - k,
            {
                let c = if (x >> (63 - k)) & 1 == 1 {
                    '1'
                } else {
                    '0'
                };
                res.push(c);
                k = k + 1;
                assert(word_chars(x).take(k as int) =~= word_chars(x).take((k - 1) as int).push(c));
            }
            assert(word_chars(x).take(64) =~= word_chars(x));
            assert(self.words().take(i + 1).drop_last() =~= self.words().take(i as int));
            i = i + 1;
        }
        assert(self.words().take(len as int) =~= self.words());
        chars_to_string(&res)
    }


    /// Allocates `size` bytes and returns the address of the first frame: the
    /// first run of free frames, from the lowest address, that fits inside the
    /// window.
    pub fn allocate(&mut self, size: usize) -> (r: Result<usize, Error>)
        requires
            old(self).wf(),
        ensures
            final(self).wf(),
            final(self).start() == old(self).start(),
            size % UNIT != 0 ==> {
                &&& r matches Err(Error::AlignmentError(_))
                &&& final(self).words() == old(self).words()
                &&& final(self).used() == old(self).used()
            },
            size % UNIT == 0 && old(self).used() * UNIT >= LEN ==> {
                &&& r matches Err(Error::NotEnoughMem)
                &&& final(self).words() == old(self).words()
                &&& final(self).used() == old(self).used()
            },
            size % UNIT == 0 && old(self).used() * UNIT < LEN ==> match first_run(
                old(self).words(),
                (size / UNIT) as int,
                Self::num_frames(),
            ) {
                None => {
                    &&& r matches Err(Error::NotEnoughMem)
                    &&& final(self).words() == old(self).words()
                    &&& final(self).used() == old(self).used()
                },
                Some(s) => {
                    &&& r == Ok::<usize, Error>((old(self).start() + s * UNIT) as usize)
                    &&& marked(old(self).words(), final(self).words(), s, (size / UNIT) as int)
                    &&& final(self).used() == old(self).used() + size / UNIT
                },
            },
            r matches Ok(p) ==> {
                &&& old(self).start() <= p
                &&& p + size <= old(self).start() + LEN
                &&& (p - old(self).start()) % (UNIT as int) == 0
                &&& run_free(old(self).words(), (p - old(self).start()) / (UNIT as int), (size / UNIT) as int)
            },
            handed_out(
                old(self).words(),
                final(self).words(),
                match r {
                    Ok(p) => Some(((p - old(self).start()) / (UNIT as int), (size / UNIT) as int)),
                    Err(_) => None,
                },
            ),
    {
        if size % UNIT != 0 {
            return Err(Error::AlignmentError("Size is not divisible by unit"));
        }
        proof {
            lemma_count_bound(self.words(), Self::num_frames());
            lemma_frames_in_words::<LEN, UNIT>();
            assert(self.used() * UNIT <= Self::num_frames() * UNIT) by (nonlinear_arith)
                requires
                    self.used() <= Self::num_frames(),
                    UNIT > 0,
            ;
        }
        if self.bits_used * UNIT >= LEN {
            return Err(Error::NotEnoughMem);
        }
        let n = size / UNIT;
        match self.find_run(n) {
            None => Err(Error::NotEnoughMem),
            Some(s) => {
                proof {
                    lemma_first_run_from_found(self.words(), n as int, Self::num_frames(), 0);
                    assert(s * UNIT + n * UNIT <= Self::num_frames() * UNIT) by (nonlinear_arith)
                        requires
                            s + n <= Self::num_frames(),
                            UNIT > 0,
                    ;
                    assert((s * UNIT) % (UNIT as int) == 0 && (s * UNIT) / (UNIT as int) == s) by (nonlinear_arith)
                        requires
                            UNIT > 0,
                    ;
                    assert(size == n * UNIT) by (nonlinear_arith)
                        requires
                            size % UNIT == 0,
                            n == size / UNIT,
                            UNIT > 0,
                    ;
                }
                self.mark_run(s, n);
                Ok(self.start_addr + s * UNIT)
            },
        }
    }
}

/// Collects characters into a `String` (std's `FromIterator<&char> for String`):
/// the string holds exactly the given characters, in order.
#[verifier::external_body]
fn chars_to_string(v: &Vec<char>) -> (s: String)
    ensures
        s@ == v@,
{
    v.iter().collect()
}

/// The window holds `num_frames` frames, fewer than the bitmap's bits, and
/// `LEN` is the frames' bytes.
proof fn lemma_frames_in_words<const LEN: usize, const UNIT: usize>()
    requires
        UNIT > 0,
        LEN % UNIT == 0,
    ensures
        FrameAllocator::<LEN, UNIT>::num_frames() < 64 * FrameAllocator::<LEN, UNIT>::num_words(),
        FrameAllocator::<LEN, UNIT>::num_frames() * UNIT == LEN,
        FrameAllocator::<LEN, UNIT>::num_frames() >= 0,
{
    let f = LEN as int / UNIT as int;
    assert(f * UNIT == LEN) by (nonlinear_arith)
        requires
            f == LEN as int / UNIT as int,
            LEN % UNIT == 0,
            UNIT > 0,
    ;
    assert(f >= 0) by (nonlinear_arith)
        requires
            f == LEN as int / UNIT as int,
            UNIT > 0,
    ;
}

/// Setting bit `b` of `x` sets that bit and keeps the others.
proof fn lemma_set_bit(x: u64, b: u64, c: u64)
    requires
        b < 64,
        c < 64,
    ensures
        ((x | (1u64 << b)) >> c) & 1 == if c == b {
            1
        } else {
            (x >> c) & 1
        },
{
    assert(((x | (1u64 << b)) >> c) & 1 == if c == b {
        1
    } else {
        (x >> c) & 1
    }) by (bit_vector)
        requires
            b < 64,
            c < 64,
    ;
}

/// A bitmap of zero words marks no frame.
proof fn lemma_zero_words_free(w: Seq<u64>)
    requires
        forall|i: int| 0 <= i < w.len() ==> w[i] == 0u64,
    ensures
        forall|k: int| 0 <= k < 64 * w.len() ==> !#[trigger] frame_used(w, k),
{
    assert forall|k: int| 0 <= k < 64 * w.len() implies !#[trigger] frame_used(w, k) by {
        assert(0 <= k / 64 < w.len());
        let c = (k % 64) as u64;
        assert((0u64 >> c) & 1 == 0) by (bit_vector);
    }
}

/// With no frame used, the count is zero.
proof fn lemma_count_none(w: Seq<u64>, hi: int)
    requires
        forall|k: int| 0 <= k < hi ==> !#[trigger] frame_used(w, k),
    ensures
        used_count(w, hi) == 0,
    decreases hi,
{
    if hi > 0 {
        lemma_count_none(w, hi - 1);
    }
}

/// At most `hi` of the first `hi` frames are used.
proof fn lemma_count_bound(w: Seq<u64>, hi: int)
    ensures
        0 <= used_count(w, hi) <= if hi < 0 {
            0
        } else {
            hi
        },
    decreases hi,
{
    if hi > 0 {
        lemma_count_bound(w, hi - 1);
    }
}

/// Marking `n` free frames inside the first `hi` adds them to the count.
proof fn lemma_count_marked(w: Seq<u64>, w2: Seq<u64>, s: int, n: int, hi: int)
    requires
        marked(w, w2, s, n),
        run_free(w, s, n),
        0 <= s,
        0 <= n,
        s + n <= hi,
        hi <= 64 * w.len(),
    ensures
        used_count(w2, hi) == used_count(w, hi) + n,
    decreases hi,
{
    lemma_count_marked_upto(w, w2, s, n, hi);
}

proof fn lemma_count_marked_upto(w: Seq<u64>, w2: Seq<u64>, s: int, n: int, hi: int)
    requires
        marked(w, w2, s, n),
        run_free(w, s, n),
        0 <= s,
        0 <= n,
        hi <= 64 * w.len(),
    ensures
        used_count(w2, hi) == used_count(w, hi) + if hi <= s {
            0
        } else if hi >= s + n {
            n
        } else {
            hi - s
        },
    decreases hi,
{
    if hi > 0 {
        lemma_count_marked_upto(w, w2, s, n, hi - 1);
        assert(frame_used(w2, hi - 1) == (frame_used(w, hi - 1) || s <= hi - 1 < s + n));
        if s <= hi - 1 < s + n {
            assert(!frame_used(w, hi - 1));
        }
    }
}

/// A start at or after `a` whose run would cover a used frame `k`, reached
/// while the run from `a` to `k` was free and shorter than `n`, does not
/// begin a free run; the search goes on behind `k`.
proof fn lemma_skip_used(w: Seq<u64>, n: int, f: int, a: int, k: int)
    requires
        0 <= a <= k,
        k - a < n,
        frame_used(w, k),
    ensures
        first_run_from(w, n, f, a) == first_run_from(w, n, f, k + 1),
    decreases k + 1 - a,
{
    if a + n > f {
        lemma_run_from_none(w, n, f, k + 1);
    } else {
        assert(!run_free(w, a, n));
        if a < k {
            lemma_skip_used(w, n, f, a + 1, k);
        }
    }
}

/// Past the last start that fits there is no run.
proof fn lemma_run_from_none(w: Seq<u64>, n: int, f: int, s: int)
    requires
        s + n > f,
    ensures
        first_run_from(w, n, f, s) is None,
{
}

/// A run the search finds is free and fits inside the window.
proof fn lemma_first_run_from_found(w: Seq<u64>, n: int, f: int, s: int)
    requires
        first_run_from(w, n, f, s) is Some,
    ensures
        0 <= first_run_from(w, n, f, s)->0,
        first_run_from(w, n, f, s)->0 + n <= f,
        run_free(w, first_run_from(w, n, f, s)->0, n),
    decreases f - s,
{
    if s >= 0 && s + n <= f && !run_free(w, s, n) {
        lemma_first_run_from_found(w, n, f, s + 1);
    }
}

/// No frame is handed out twice: the frames of an allocation are free before
/// it, marking them makes them used, and a later allocation takes only frames
/// that are free then, so the two runs share no frame.
pub proof fn lemma_no_frame_twice(w: Seq<u64>, w1: Seq<u64>, s1: int, n1: int, s2: int, n2: int)
    requires
        0 <= n1,
        0 <= s1,
        s1 + n1 <= 64 * w.len(),
        run_free(w, s1, n1),
        marked(w, w1, s1, n1),
        run_free(w1, s2, n2),
        0 <= n2,
        0 <= s2,
        s2 + n2 <= 64 * w.len(),
    ensures
        s1 + n1 <= s2 || s2 + n2 <= s1 || n1 == 0 || n2 == 0,
{
    if !(s1 + n1 <= s2 || s2 + n2 <= s1 || n1 == 0 || n2 == 0) {
        if s1 <= s2 {
            assert(frame_used(w1, s2));
            assert(!frame_used(w1, s2));
        } else {
            assert(frame_used(w1, s1));
            assert(!frame_used(w1, s1));
        }
    }
}

/// Over any history of calls, no frame is handed out twice: where each call
/// hands out a free run and marks it used, or changes nothing (as every call of
/// `allocate` does, see `handed_out`), the runs of two different calls share no
/// frame.
pub proof fn lemma_history_no_frame_twice(ws: Seq<Seq<u64>>, runs: Seq<Option<(int, int)>>, i: int, j: int)
    requires
        ws.len() == runs.len() + 1,
        forall|k: int| 0 <= k < runs.len() ==> #[trigger] handed_out(ws[k], ws[k + 1], runs[k]),
        0 <= i < j < runs.len(),
        runs[i] is Some,
        runs[j] is Some,
    ensures
        ({
            let (s1, n1) = runs[i]->0;
            let (s2, n2) = runs[j]->0;
            s1 + n1 <= s2 || s2 + n2 <= s1 || n1 == 0 || n2 == 0
        }),
{
    let (s1, n1) = runs[i]->0;
    let (s2, n2) = runs[j]->0;
    lemma_history_keeps_used(ws, runs, i, j);
    assert(handed_out(ws[j], ws[j + 1], runs[j]));
    if !(s1 + n1 <= s2 || s2 + n2 <= s1 || n1 == 0 || n2 == 0) {
        assert(handed_out(ws[i], ws[i + 1], runs[i]));
        let k = if s1 <= s2 { s2 } else { s1 };
        assert(s1 <= k < s1 + n1);
        assert(s2 <= k < s2 + n2);
        assert(frame_used(ws[j], k));
        assert(!frame_used(ws[j], k));
    }
}

/// After the call that handed out a run, every later bitmap of the history
/// keeps its frames used.
proof fn lemma_history_keeps_used(ws: Seq<Seq<u64>>, runs: Seq<Option<(int, int)>>, i: int, m: int)
    requires
        ws.len() == runs.len() + 1,
        forall|k: int| 0 <= k < runs.len() ==> #[trigger] handed_out(ws[k], ws[k + 1], runs[k]),
        0 <= i < m <= runs.len(),
        runs[i] is Some,
    ensures
        ws[m].len() == ws[i].len(),
        ({
            let (s1, n1) = runs[i]->0;
            forall|f: int| s1 <= f < s1 + n1 ==> #[trigger] frame_used(ws[m], f)
        }),
    decreases m - i,
{
    if m == i + 1 {
        assert(handed_out(ws[i], ws[i + 1], runs[i]));
    } else {
        lemma_history_keeps_used(ws, runs, i, m - 1);
        let k = m - 1;
        assert(0 <= k < runs.len());
        assert(handed_out(ws[k], ws[k + 1], runs[k]));
        assert(k + 1 == m);
        let (s1, n1) = runs[i]->0;
        assert(handed_out(ws[i], ws[i + 1], runs[i]));
        assert forall|f: int| s1 <= f < s1 + n1 implies #[trigger] frame_used(ws[m], f) by {
            assert(frame_used(ws[k], f));
            assert(0 <= f < 64 * ws[k].len());
        }
    }
}

/// Frames once used stay used: an allocation only adds to the bitmap.
pub proof fn lemma_used_stays_used(w: Seq<u64>, w1: Seq<u64>, s: int, n: int, k: int)
    requires
        marked(w, w1, s, n),
        0 <= k < 64 * w.len(),
        frame_used(w, k),
    ensures
        frame_used(w1, k),
{
}

} // verus!
