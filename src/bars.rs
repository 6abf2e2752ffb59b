use vstd::arithmetic::div_mod::{lemma_basic_div, lemma_div_is_ordered, lemma_div_multiples_vanish};
use vstd::arithmetic::mul::{lemma_mul_inequality, lemma_mul_upper_bound};
use vstd::prelude::*;

verus! {

/// Largest bar count and largest bin count that a layout accepts: with both
/// below 2^32, the products in the quadratic warp fit in 128 bits.
pub const MAX_LAYOUT_DIM: usize = 0xffff_ffff;

/// Quadratic warp of a fractional boundary `k / bars` onto `n` bins:
/// `floor((k / bars)^2 * n)`.
pub open spec fn warp(k: int, bars: int, n: int) -> int {
    (k * k * n) / (bars * bars)
}

/// First bin of bar `i`: the warped lower boundary, clamped to the last bin.
pub open spec fn bar_start(i: int, bars: int, n: int) -> int {
    let w = warp(i, bars, n);
    if w < n - 1 { w } else { n - 1 }
}

/// One past the last bin of bar `i`: the warped upper boundary, forced to be
/// at least one past the start and at most `n`.
pub open spec fn bar_end(i: int, bars: int, n: int) -> int {
    let s = bar_start(i, bars, n);
    let w = warp(i + 1, bars, n);
    let e = if w > s + 1 { w } else { s + 1 };
    if e < n { e } else { n }
}

pub open spec fn layout_dims_ok(bars: int, n: int) -> bool {
    1 <= bars <= MAX_LAYOUT_DIM && 1 <= n <= MAX_LAYOUT_DIM
}

/// Bin `bin` falls inside the range of at least one of the `bars` bars.
pub open spec fn in_some_bar(bin: int, bars: int, n: int) -> bool {
    exists|i: int| 0 <= i < bars && bar_start(i, bars, n) <= bin < #[trigger] bar_end(i, bars, n)
}

/// The warp is non-decreasing in the boundary and stays within `[0, n]`;
/// the first boundary lands on 0 and the last exactly on `n`.
proof fn lemma_warp_ordered(k1: int, k2: int, bars: int, n: int)
    requires
        0 <= k1 <= k2 <= bars,
        bars >= 1,
        n >= 0,
    ensures
        0 <= warp(k1, bars, n) <= warp(k2, bars, n) <= n,
        warp(bars, bars, n) == n,
        warp(0, bars, n) == 0,
{
    assert(0 * 0 * n == 0) by (nonlinear_arith);
    assert(bars * bars > 0) by (nonlinear_arith)
        requires bars >= 1;
    lemma_basic_div(0, bars * bars);
    lemma_mul_upper_bound(k1, k2, k1, k2);
    lemma_mul_inequality(k1 * k1, k2 * k2, n);
    lemma_mul_upper_bound(k2, bars, k2, bars);
    lemma_mul_inequality(k2 * k2, bars * bars, n);
    assert(k1 * k1 * n >= 0) by (nonlinear_arith)
        requires k1 >= 0, n >= 0;
    lemma_div_is_ordered(k1 * k1 * n, k2 * k2 * n, bars * bars);
    lemma_div_is_ordered(k2 * k2 * n, bars * bars * n, bars * bars);
    lemma_div_is_ordered(0, k1 * k1 * n, bars * bars);
    assert((bars * bars) * n == n * (bars * bars)) by (nonlinear_arith);
    lemma_div_multiples_vanish(n, bars * bars);
}

/// The bin range `[start, end)` of bar `i` out of `num_bars`, over a spectrum
/// of `n` bins.
pub fn bar_range(i: usize, num_bars: usize, n: usize) -> (r: (usize, usize))
    requires
        layout_dims_ok(num_bars as int, n as int),
        i < num_bars,
    ensures
        r.0 == bar_start(i as int, num_bars as int, n as int),
        r.1 == bar_end(i as int, num_bars as int, n as int),
        r.0 < r.1 <= n,
{
    proof {
        lemma_warp_ordered(i as int, i as int + 1, num_bars as int, n as int);
    }
    let b: u128 = num_bars as u128;
    let k0: u128 = i as u128;
    let k1: u128 = i as u128 + 1;
    let nn: u128 = n as u128;
    assert(k0 * k0 <= 0xffff_ffff * 0xffff_ffff) by (nonlinear_arith)
        requires k0 <= 0xffff_ffff;
    assert(k1 * k1 <= 0xffff_ffff * 0xffff_ffff) by (nonlinear_arith)
        requires k1 <= 0xffff_ffff;
    assert(k0 * k0 * nn <= 0xffff_ffff * 0xffff_ffff * 0xffff_ffff) by (nonlinear_arith)
        requires k0 <= 0xffff_ffff, nn <= 0xffff_ffff;
    assert(k1 * k1 * nn <= 0xffff_ffff * 0xffff_ffff * 0xffff_ffff) by (nonlinear_arith)
        requires k1 <= 0xffff_ffff, nn <= 0xffff_ffff;
    assert(b * b <= 0xffff_ffff * 0xffff_ffff) by (nonlinear_arith)
        requires b <= 0xffff_ffff;
    assert(b * b >= 1) by (nonlinear_arith)
        requires b >= 1;
    let w0: u128 = (k0 * k0 * nn) / (b * b);
    let w1: u128 = (k1 * k1 * nn) / (b * b);
    let last: u128 = nn - 1;
    let start: u128 = if w0 < last { w0 } else { last };
    let end0: u128 = if w1 > start + 1 { w1 } else { start + 1 };
    let end: u128 = if end0 < nn { end0 } else { nn };
    (start as usize, end as usize)
}

/// Every bin below `bar_end(m - 1)` lies in one of the first `m` bars.
proof fn lemma_prefix_covered(bars: int, n: int, m: int, bin: int)
    requires
        1 <= bars,
        1 <= n,
        1 <= m <= bars,
        0 <= bin < bar_end(m - 1, bars, n),
    ensures
        exists|i: int| 0 <= i < m && bar_start(i, bars, n) <= bin < #[trigger] bar_end(i, bars, n),
    decreases m,
{
    lemma_warp_ordered(0, 0, bars, n);
    if m > 1 {
        if bin < bar_end(m - 2, bars, n) {
            lemma_prefix_covered(bars, n, m - 1, bin);
        } else {
            lemma_warp_ordered(m - 1, m - 1, bars, n);
            assert(bar_start(m - 1, bars, n) <= bar_end(m - 2, bars, n));
            assert(bar_start(m - 1, bars, n) <= bin < bar_end(m - 1, bars, n));
        }
    } else {
        assert(bar_start(0, bars, n) == 0);
        assert(bar_start(0, bars, n) <= bin < bar_end(0, bars, n));
    }
}

/// Bar ranges never move left as the bar index grows; each is a non-empty
/// run of bins inside `[0, n)`; the first starts at bin 0, the last ends at
/// bin `n`, each starts no later than its predecessor ends, and so every bin
/// belongs to some bar.
pub proof fn bar_ranges_ordered_and_covering(bars: int, n: int)
    requires
        1 <= bars,
        1 <= n,
    ensures
        forall|i: int, j: int|
            0 <= i <= j < bars ==> #[trigger] bar_start(i, bars, n) <= #[trigger] bar_start(j, bars, n),
        forall|i: int, j: int|
            0 <= i <= j < bars ==> #[trigger] bar_end(i, bars, n) <= #[trigger] bar_end(j, bars, n),
        forall|i: int|
            0 <= i < bars ==> 0 <= #[trigger] bar_start(i, bars, n) < bar_end(i, bars, n) <= n,
        bar_start(0, bars, n) == 0,
        bar_end(bars - 1, bars, n) == n,
        forall|i: int| 0 <= i < bars - 1 ==> #[trigger] bar_start(i + 1, bars, n) <= bar_end(i, bars, n),
        forall|bin: int| 0 <= bin < n ==> #[trigger] in_some_bar(bin, bars, n),
{
    assert forall|i: int, j: int| 0 <= i <= j < bars implies #[trigger] bar_start(i, bars, n) <= #[trigger] bar_start(j, bars, n)
        && bar_end(i, bars, n) <= bar_end(j, bars, n) by {
        lemma_warp_ordered(i, j, bars, n);
        lemma_warp_ordered(i + 1, j + 1, bars, n);
    }
    assert forall|i: int, j: int| 0 <= i <= j < bars implies #[trigger] bar_end(i, bars, n) <= #[trigger] bar_end(j, bars, n) by {
        lemma_warp_ordered(i, j, bars, n);
        lemma_warp_ordered(i + 1, j + 1, bars, n);
    }
    assert forall|i: int| 0 <= i < bars implies 0 <= #[trigger] bar_start(i, bars, n) < bar_end(i, bars, n) <= n by {
        lemma_warp_ordered(i, i + 1, bars, n);
    }
    lemma_warp_ordered(0, 0, bars, n);
    lemma_warp_ordered(bars - 1, bars, bars, n);
    assert forall|i: int| 0 <= i < bars - 1 implies #[trigger] bar_start(i + 1, bars, n) <= bar_end(i, bars, n) by {
        lemma_warp_ordered(i, i + 1, bars, n);
        lemma_warp_ordered(i + 1, i + 1, bars, n);
    }
    assert forall|bin: int| 0 <= bin < n implies #[trigger] in_some_bar(bin, bars, n) by {
        lemma_prefix_covered(bars, n, bars, bin);
    }
}

/// Why a bar layout cannot be built.
#[derive(Clone, Copy, Debug, PartialEq, Eq, Structural)]
pub enum LayoutError {
    /// The analysis window holds fewer than two samples.
    WindowTooShort,
    /// No bars were asked for.
    NoBars,
    /// The bar count or the number of spectrum bins exceeds `MAX_LAYOUT_DIM`.
    TooLarge,
}

/// The fixed shape of a spectral analysis: window length, bar count, and
/// the bin range that each bar averages over the first half of the spectrum.
pub struct BarLayout {
    fft_size: usize,
    num_bars: usize,
    ranges: Vec<(usize, usize)>,
}

impl BarLayout {
    /// Number of spectrum bins that the bars are laid over.
    pub closed spec fn spec_bins(&self) -> int {
        self.fft_size as int / 2
    }

    pub closed spec fn spec_fft_size(&self) -> int {
        self.fft_size as int
    }

    pub closed spec fn spec_num_bars(&self) -> int {
        self.num_bars as int
    }

    pub closed spec fn spec_ranges(&self) -> Seq<(usize, usize)> {
        self.ranges@
    }

    /// The ranges are those of the quadratic warp, one per bar.
    pub open spec fn wf(&self) -> bool {
        &&& self.spec_fft_size() >= 2
        &&& layout_dims_ok(self.spec_num_bars(), self.spec_bins())
        &&& self.spec_ranges().len() == self.spec_num_bars()
        &&& forall|i: int|
            0 <= i < self.spec_num_bars() ==> (#[trigger] self.spec_ranges()[i]).0 == bar_start(
                i,
                self.spec_num_bars(),
                self.spec_bins(),
            ) && self.spec_ranges()[i].1 == bar_end(i, self.spec_num_bars(), self.spec_bins())
        &&& forall|i: int|
            0 <= i < self.spec_num_bars() ==> (#[trigger] self.spec_ranges()[i]).0 < self.spec_ranges()[i].1
                <= self.spec_bins()
    }

    /// Lays `num_bars` bars over the `fft_size / 2` non-negative-frequency
    /// bins of an analysis window of `fft_size` samples.
    pub fn new(fft_size: usize, num_bars: usize) -> (r: Result<BarLayout, LayoutError>)
        ensures
            fft_size < 2 ==> r == Err::<BarLayout, LayoutError>(LayoutError::WindowTooShort),
            fft_size >= 2 && num_bars == 0 ==> r == Err::<BarLayout, LayoutError>(LayoutError::NoBars),
            fft_size >= 2 && num_bars >= 1 && !layout_dims_ok(num_bars as int, fft_size as int / 2)
                ==> r == Err::<BarLayout, LayoutError>(LayoutError::TooLarge),
            fft_size >= 2 && layout_dims_ok(num_bars as int, fft_size as int / 2) ==> (r matches Ok(l) && l.wf()
                && l.spec_fft_size() == fft_size && l.spec_num_bars() == num_bars),
    {
        if fft_size < 2 {
            return Err(LayoutError::WindowTooShort);
        }
        if num_bars == 0 {
            return Err(LayoutError::NoBars);
        }
        let n = fft_size / 2;
        if num_bars > MAX_LAYOUT_DIM || n > MAX_LAYOUT_DIM {
            return Err(LayoutError::TooLarge);
        }
        let mut ranges: Vec<(usize, usize)> = Vec::with_capacity(num_bars);
        let mut i: usize = 0;
        while i < num_bars
            invariant
                layout_dims_ok(num_bars as int, n as int),
                i <= num_bars,
                ranges@.len() == i,
                forall|k: int|
                    0 <= k < i ==> (#[trigger] ranges@[k]).0 == bar_start(k, num_bars as int, n as int)
                        && ranges@[k].1 == bar_end(k, num_bars as int, n as int),
                forall|k: int| 0 <= k < i ==> (#[trigger] ranges@[k]).0 < ranges@[k].1 <= n,
            decreases num_bars - i,
        {
            let r = bar_range(i, num_bars, n);
            ranges.push(r);
            i = i + 1;
        }
        Ok(BarLayout { fft_size, num_bars, ranges })
    }

    pub fn fft_size(&self) -> (r: usize)
        ensures
            r == self.spec_fft_size(),
    {
        self.fft_size
    }

    pub fn num_bars(&self) -> (r: usize)
        ensures
            r == self.spec_num_bars(),
    {
        self.num_bars
    }

    /// Number of spectrum bins the bars cover: half the window length.
    pub fn bins(&self) -> (r: usize)
        ensures
            r == self.spec_bins(),
    {
        self.fft_size / 2
    }

    /// The analysis input for `samples`: its first `fft_size` values, padded
    /// with `silence` when fewer are given.
    pub fn fit_window<T: Copy>(&self, samples: &[T], silence: T) -> (r: Vec<T>)
        ensures
            r@.len() == self.spec_fft_size(),
            forall|i: int| 0 <= i < r@.len() && i < samples@.len() ==> #[trigger] r@[i] == samples@[i],
            forall|i: int| samples@.len() <= i < r@.len() ==> #[trigger] r@[i] == silence,
    {
        let size = self.fft_size;
        let mut out: Vec<T> = Vec::with_capacity(size);
        let mut i: usize = 0;
        while i < size
            invariant
                size == self.spec_fft_size(),
                i <= size,
                out@.len() == i,
                forall|k: int| 0 <= k < i && k < samples@.len() ==> #[trigger] out@[k] == samples@[k],
                forall|k: int| samples@.len() <= k < i ==> #[trigger] out@[k] == silence,
            decreases size - i,
        {
            if i < samples.len() {
                out.push(samples[i]);
            } else {
                out.push(silence);
            }
            i = i + 1;
        }
        out
    }

    /// The bin range `[start, end)` of every bar, in bar order.
    pub fn ranges(&self) -> (r: &[(usize, usize)])
        ensures
            r@ == self.spec_ranges(),
    {
        self.ranges.as_slice()
    }
}

} // verus!
