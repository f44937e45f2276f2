//! The discrete geometry of the text plots: histogram bins and bars,
//! boxplot lines and scatter-plot density grids. Placing a value on a
//! character position is left to the caller; from positions on, every
//! rule is here.
use vstd::prelude::*;

verus! {

pub open spec fn pow2(k: nat) -> nat
    decreases k,
{
    if k == 0 {
        1
    } else {
        2 * pow2((k - 1) as nat)
    }
}

/// `k` is the smallest exponent with `2^k >= n`, that is `ceil(log2(n))`.
pub open spec fn is_ceil_log2(n: nat, k: nat) -> bool {
    pow2(k) >= n && (k == 0 || pow2((k - 1) as nat) < n)
}

/// The smallest `k` with `2^k >= n`.
pub fn ceil_log2(n: usize) -> (k: usize)
    ensures
        is_ceil_log2(n as nat, k as nat),
        k <= 64,
{
    let mut k: usize = 0;
    let mut p: u128 = 1;
    while p < n as u128
        invariant
            p == pow2(k as nat),
            k == 0 || pow2((k - 1) as nat) < n,
            k <= 64,
        decreases 64 - k,
    {
        proof {
            lemma_pow2_64();
            if k >= 64 {
                lemma_pow2_mono(64, k as nat);
            }
        }
        assert(pow2((k + 1) as nat) == 2 * pow2(k as nat));
        p = p * 2;
        k += 1;
    }
    k
}

proof fn lemma_pow2_64()
    ensures
        pow2(64) == 0x1_0000_0000_0000_0000,
{
    reveal_with_fuel(pow2, 65);
}

/// Fewest and most histogram bins under Sturges' rule.
pub const MIN_BINS: usize = 5;

/// The number of histogram bins for values whose count has
/// `ceil(log2(count)) == k`: Sturges' rule, `k + 1`, at least `MIN_BINS` and then at
/// most `width / 2`; one bin when the width leaves room for none.
pub open spec fn bins_for(k: nat, width: nat) -> nat {
    let a = if k + 1 < MIN_BINS { MIN_BINS as nat } else { k + 1 };
    let b = if a < width / 2 { a } else { width / 2 };
    if b == 0 { 1 } else { b }
}

/// The number of histogram bins for `n` values and a plot `width` wide.
pub fn sturges_bins(n: usize, width: usize) -> (r: usize)
    ensures
        r >= 1,
        forall|k: nat| #[trigger] is_ceil_log2(n as nat, k) ==> r == bins_for(k, width as nat),
{
    let k = ceil_log2(n);
    proof {
        assert forall|k2: nat| #[trigger] is_ceil_log2(n as nat, k2) implies k2 == k by {
            lemma_pow2_unique(k2, k as nat, n as nat);
        }
    }
    let a = if k + 1 < MIN_BINS { MIN_BINS } else { k + 1 };
    let b = if a < width / 2 { a } else { width / 2 };
    if b == 0 { 1 } else { b }
}

proof fn lemma_pow2_mono(a: nat, b: nat)
    requires
        a <= b,
    ensures
        pow2(a) <= pow2(b),
    decreases b,
{
    if a < b {
        lemma_pow2_mono(a, (b - 1) as nat);
    }
}

proof fn lemma_pow2_unique(k1: nat, k2: nat, n: nat)
    requires
        pow2(k1) >= n,
        k1 == 0 || pow2((k1 - 1) as nat) < n,
        pow2(k2) >= n,
        k2 == 0 || pow2((k2 - 1) as nat) < n,
    ensures
        k1 == k2,
{
    if k1 < k2 {
        lemma_pow2_mono(k1, (k2 - 1) as nat);
    } else if k2 < k1 {
        lemma_pow2_mono(k2, (k1 - 1) as nat);
    }
}

/// The bin of a raw bin index: indices past the last bin fall into it.
pub open spec fn bin_of(i: usize, num_bins: usize) -> usize {
    if i < num_bins { i } else { (num_bins - 1) as usize }
}

/// How many of `indices` fall into bin `b`.
pub open spec fn bin_count(indices: Seq<usize>, num_bins: usize, b: usize) -> nat {
    indices.filter(|i: usize| bin_of(i, num_bins) == b).len()
}

/// Counts the values per bin, given each value's raw bin index.
pub fn bin_counts(indices: &Vec<usize>, num_bins: usize) -> (r: Vec<usize>)
    requires
        num_bins > 0,
    ensures
        r@.len() == num_bins,
        forall|b: int| 0 <= b < num_bins ==> #[trigger] r@[b] == bin_count(indices@, num_bins, b as usize),
{
    let mut counts: Vec<usize> = Vec::new();
    let mut b: usize = 0;
    while b < num_bins
        invariant
            b <= num_bins,
            counts@.len() == b,
            forall|q: int| 0 <= q < b ==> #[trigger] counts@[q] == 0,
        decreases num_bins - b,
    {
        counts.push(0);
        b += 1;
    }
    let mut k: usize = 0;
    while k < indices.len()
        invariant
            num_bins > 0,
            k <= indices@.len(),
            counts@.len() == num_bins,
            forall|q: int|
                0 <= q < num_bins ==> #[trigger] counts@[q] == bin_count(
                    indices@.subrange(0, k as int),
                    num_bins,
                    q as usize,
                ),
            forall|q: int| 0 <= q < num_bins ==> #[trigger] counts@[q] <= k,
        decreases indices@.len() - k,
    {
        let bin = if indices[k] < num_bins { indices[k] } else { num_bins - 1 };
        let ghost before = counts@;
        counts.set(bin, counts[bin] + 1);
        assert forall|q: int| 0 <= q < num_bins implies #[trigger] counts@[q] == bin_count(
            indices@.subrange(0, k + 1),
            num_bins,
            q as usize,
        ) by {
            reveal(Seq::filter);
            assert(indices@.subrange(0, k + 1).drop_last() =~= indices@.subrange(0, k as int));
            assert(before[q] == bin_count(indices@.subrange(0, k as int), num_bins, q as usize));
        }
        k += 1;
    }
    assert(indices@.subrange(0, indices@.len() as int) =~= indices@);
    counts
}

/// How a histogram bar fills one display row.
#[derive(Debug, Clone, Copy, PartialEq, Eq, Structural)]
pub enum BarCell {
    Full,
    Half,
    Empty,
}

/// The cell of a bar of height `count` in display row `row` of `rows`
/// (row 0 at the bottom), with the tallest bar `max_count` high: full when
/// `count >= (row + 1/2) / rows * max_count`, half when
/// `count >= row / rows * max_count`, empty otherwise.
pub open spec fn bar_cell_spec(count: nat, max_count: nat, row: nat, rows: nat) -> BarCell {
    if 2 * count * rows >= (2 * row + 1) * max_count {
        BarCell::Full
    } else if count * rows >= row * max_count {
        BarCell::Half
    } else {
        BarCell::Empty
    }
}

/// Most display rows of a histogram.
pub const MAX_BAR_ROWS: usize = 15;

/// The cell of a bar in one display row.
fn bar_cell(count: usize, max_count: usize, row: usize, rows: usize) -> (r: BarCell)
    requires
        rows <= MAX_BAR_ROWS,
        row < rows,
    ensures
        r == bar_cell_spec(count as nat, max_count as nat, row as nat, rows as nat),
{
    let c = count as u128;
    let m = max_count as u128;
    let w = row as u128;
    let h = rows as u128;
    assert(2 * c * h <= 30 * 0xffff_ffff_ffff_ffff) by (nonlinear_arith)
        requires c <= 0xffff_ffff_ffff_ffff, h <= 15;
    assert((2 * w + 1) * m <= 31 * 0xffff_ffff_ffff_ffff) by (nonlinear_arith)
        requires w <= 15, m <= 0xffff_ffff_ffff_ffff;
    assert(c * h <= 15 * 0xffff_ffff_ffff_ffff) by (nonlinear_arith)
        requires c <= 0xffff_ffff_ffff_ffff, h <= 15;
    assert(w * m <= 15 * 0xffff_ffff_ffff_ffff) by (nonlinear_arith)
        requires w <= 15, m <= 0xffff_ffff_ffff_ffff;
    if 2 * c * h >= (2 * w + 1) * m {
        BarCell::Full
    } else if c * h >= w * m {
        BarCell::Half
    } else {
        BarCell::Empty
    }
}


/// The tallest of `bins`; 1 when there is none.
pub open spec fn tallest(bins: Seq<usize>) -> nat
    decreases bins.len(),
{
    if bins.len() == 0 {
        1
    } else if bins.len() == 1 {
        bins[0] as nat
    } else {
        let m = tallest(bins.drop_last());
        if bins.last() > m { bins.last() as nat } else { m }
    }
}

/// The number of display rows of a histogram `height` high.
pub open spec fn bar_rows(height: nat) -> nat {
    if height < MAX_BAR_ROWS { height } else { MAX_BAR_ROWS as nat }
}

fn tallest_bin(bins: &Vec<usize>) -> (m: usize)
    ensures
        m == tallest(bins@),
{
    if bins.len() == 0 {
        return 1;
    }
    let mut m = bins[0];
    let mut i: usize = 1;
    while i < bins.len()
        invariant
            1 <= i <= bins@.len(),
            m == tallest(bins@.subrange(0, i as int)),
        decreases bins@.len() - i,
    {
        assert(bins@.subrange(0, i + 1).drop_last() =~= bins@.subrange(0, i as int));
        if bins[i] > m {
            m = bins[i];
        }
        i += 1;
    }
    assert(bins@.subrange(0, bins@.len() as int) =~= bins@);
    m
}

/// The bars of a histogram, one line per display row from the top: line
/// `t` is display row `rows - 1 - t`, where there are `min(height, 15)`
/// rows and the tallest bin reaches the top.
pub fn histogram_bars(bins: &Vec<usize>, height: usize) -> (r: Vec<Vec<BarCell>>)
    ensures
        r@.len() == bar_rows(height as nat),
        forall|t: int| 0 <= t < r@.len() ==> (#[trigger] r@[t])@.len() == bins@.len(),
        forall|t: int, b: int|
            0 <= t < r@.len() && 0 <= b < bins@.len() ==> #[trigger] r@[t]@[b] == bar_cell_spec(
                bins@[b] as nat,
                tallest(bins@),
                (r@.len() - 1 - t) as nat,
                r@.len(),
            ),
{
    let rows = if height < MAX_BAR_ROWS { height } else { MAX_BAR_ROWS };
    let max_count = tallest_bin(bins);
    let mut out: Vec<Vec<BarCell>> = Vec::new();
    let mut t: usize = 0;
    while t < rows
        invariant
            rows <= MAX_BAR_ROWS,
            rows == bar_rows(height as nat),
            max_count == tallest(bins@),
            t <= rows,
            out@.len() == t,
            forall|q: int| 0 <= q < t ==> (#[trigger] out@[q])@.len() == bins@.len(),
            forall|q: int, b: int|
                0 <= q < t && 0 <= b < bins@.len() ==> #[trigger] out@[q]@[b] == bar_cell_spec(
                    bins@[b] as nat,
                    tallest(bins@),
                    (rows - 1 - q) as nat,
                    rows as nat,
                ),
        decreases rows - t,
    {
        let row = rows - 1 - t;
        let mut line: Vec<BarCell> = Vec::new();
        let mut b: usize = 0;
        while b < bins.len()
            invariant
                rows <= MAX_BAR_ROWS,
                row < rows,
                max_count == tallest(bins@),
                b <= bins@.len(),
                line@.len() == b,
                forall|q: int|
                    0 <= q < b ==> #[trigger] line@[q] == bar_cell_spec(
                        bins@[q] as nat,
                        tallest(bins@),
                        row as nat,
                        rows as nat,
                    ),
            decreases bins@.len() - b,
        {
            line.push(bar_cell(bins[b], max_count, row, rows));
            b += 1;
        }
        out.push(line);
        t += 1;
    }
    out
}

/// The count printed left of display row `row` of `rows`: the tallest bar
/// at the top, 0 at the bottom, half the tallest in the middle row.
pub fn bar_label(row: usize, rows: usize, max_count: usize) -> (r: Option<usize>)
    ensures
        r == if row + 1 == rows {
            Some(max_count)
        } else if row == 0 {
            Some(0usize)
        } else if row == rows / 2 {
            Some(max_count / 2)
        } else {
            None::<usize>
        },
{
    if rows >= 1 && row == rows - 1 {
        Some(max_count)
    } else if row == 0 {
        Some(0)
    } else if row == rows / 2 {
        Some(max_count / 2)
    } else {
        None
    }
}

/// Every how many bins the histogram's axis carries a label.
pub fn axis_label_step(num_bins: usize) -> (r: usize)
    ensures
        r == if num_bins / 5 > 1 { num_bins / 5 } else { 1 },
{
    let s = num_bins / 5;
    if s > 1 { s } else { 1 }
}

/// `x` clamped to `[lo, hi]`.
pub open spec fn clamp(x: nat, lo: nat, hi: nat) -> nat {
    if x < lo { lo } else if x > hi { hi } else { x }
}

/// Narrowest and widest plot area of a boxplot or scatter plot.
pub const MIN_PLOT_WIDTH: usize = 20;
pub const MAX_PLOT_WIDTH: usize = 60;

/// Lowest and highest plot area of a scatter plot.
pub const MIN_PLOT_HEIGHT: usize = 8;
pub const MAX_PLOT_HEIGHT: usize = 20;

/// The width of a boxplot or scatter plot area.
pub fn plot_width(width: usize) -> (r: usize)
    ensures
        r == clamp(width as nat, MIN_PLOT_WIDTH as nat, MAX_PLOT_WIDTH as nat),
{
    if width < MIN_PLOT_WIDTH {
        MIN_PLOT_WIDTH
    } else if width > MAX_PLOT_WIDTH {
        MAX_PLOT_WIDTH
    } else {
        width
    }
}

/// The height of a scatter plot area.
pub fn plot_height(height: usize) -> (r: usize)
    ensures
        r == clamp(height as nat, MIN_PLOT_HEIGHT as nat, MAX_PLOT_HEIGHT as nat),
{
    if height < MIN_PLOT_HEIGHT {
        MIN_PLOT_HEIGHT
    } else if height > MAX_PLOT_HEIGHT {
        MAX_PLOT_HEIGHT
    } else {
        height
    }
}

/// The character at position `i` of a boxplot line with whisker ends at
/// `lw` and `uw`, box edges at `q1` and `q3` and median at `med`. Later
/// marks cover earlier ones: whisker, box, median, lower end, upper end.
pub open spec fn box_char(i: nat, lw: nat, q1: nat, med: nat, q3: nat, uw: nat) -> char {
    if i == uw {
        '┤'
    } else if i == lw {
        '├'
    } else if i == med {
        '│'
    } else if q1 <= i <= q3 {
        '█'
    } else if lw <= i <= uw {
        '─'
    } else {
        ' '
    }
}

/// The boxplot line, `width` characters, from the positions of its marks.
pub fn box_line(width: usize, lw: usize, q1: usize, med: usize, q3: usize, uw: usize) -> (r: Vec<char>)
    ensures
        r@.len() == width,
        forall|i: int|
            0 <= i < width ==> #[trigger] r@[i] == box_char(
                i as nat,
                lw as nat,
                q1 as nat,
                med as nat,
                q3 as nat,
                uw as nat,
            ),
{
    let mut line: Vec<char> = Vec::new();
    let mut i: usize = 0;
    while i < width
        invariant
            i <= width,
            line@.len() == i,
            forall|q: int|
                0 <= q < i ==> #[trigger] line@[q] == box_char(
                    q as nat,
                    lw as nat,
                    q1 as nat,
                    med as nat,
                    q3 as nat,
                    uw as nat,
                ),
        decreases width - i,
    {
        let c = if i == uw {
            '┤'
        } else if i == lw {
            '├'
        } else if i == med {
            '│'
        } else if q1 <= i && i <= q3 {
            '█'
        } else if lw <= i && i <= uw {
            '─'
        } else {
            ' '
        };
        line.push(c);
        i += 1;
    }
    line
}

/// The line above a boxplot: `o` at each outlier position, blank elsewhere.
pub fn outlier_line(width: usize, positions: &Vec<usize>) -> (r: Vec<char>)
    ensures
        r@.len() == width,
        forall|i: int| 0 <= i < width ==> #[trigger] r@[i] == if positions@.contains(i as usize) { 'o' } else { ' ' },
{
    let mut line: Vec<char> = Vec::new();
    let mut i: usize = 0;
    while i < width
        invariant
            i <= width,
            line@.len() == i,
            forall|q: int| 0 <= q < i ==> #[trigger] line@[q] == if positions@.contains(q as usize) { 'o' } else { ' ' },
        decreases width - i,
    {
        let mut hit = false;
        let mut k: usize = 0;
        while k < positions.len()
            invariant
                k <= positions@.len(),
                hit == exists|m: int| 0 <= m < k && positions@[m] == i,
            decreases positions@.len() - k,
        {
            if positions[k] == i {
                hit = true;
            }
            k += 1;
        }
        assert(hit == positions@.contains(i));
        line.push(if hit { 'o' } else { ' ' });
        i += 1;
    }
    line
}

/// The grid cell of a point placed at (`row`, `col`): positions past the
/// last row or column fall into it.
pub open spec fn grid_cell(p: (usize, usize), w: usize, h: usize) -> (usize, usize) {
    (
        if p.0 < h { p.0 } else { (h - 1) as usize },
        if p.1 < w { p.1 } else { (w - 1) as usize },
    )
}

/// How many of `points` fall into the cell at row `r`, column `c`.
pub open spec fn cell_count(points: Seq<(usize, usize)>, w: usize, h: usize, r: usize, c: usize) -> nat {
    points.filter(|p: (usize, usize)| grid_cell(p, w, h) == (r, c)).len()
}

/// The density mark of a cell holding `count` points.
pub open spec fn density_char(count: nat) -> char {
    if count > 3 {
        '●'
    } else if count > 1 {
        '◦'
    } else if count == 1 {
        '·'
    } else {
        ' '
    }
}

/// Counts the points in each cell of an `h` by `w` grid; each point is
/// given as (row, column).
pub fn density_grid(points: &Vec<(usize, usize)>, w: usize, h: usize) -> (g: Vec<Vec<usize>>)
    requires
        w > 0,
        h > 0,
    ensures
        g@.len() == h,
        forall|r: int| 0 <= r < h ==> (#[trigger] g@[r])@.len() == w,
        forall|r: int, c: int|
            0 <= r < h && 0 <= c < w ==> #[trigger] g@[r]@[c] == cell_count(points@, w, h, r as usize, c as usize),
{
    let mut g: Vec<Vec<usize>> = Vec::new();
    let mut r: usize = 0;
    while r < h
        invariant
            r <= h,
            g@.len() == r,
            forall|q: int| 0 <= q < r ==> (#[trigger] g@[q])@.len() == w,
            forall|q: int, c: int| 0 <= q < r && 0 <= c < w ==> #[trigger] g@[q]@[c] == 0,
        decreases h - r,
    {
        let mut line: Vec<usize> = Vec::new();
        let mut c: usize = 0;
        while c < w
            invariant
                c <= w,
                line@.len() == c,
                forall|q: int| 0 <= q < c ==> #[trigger] line@[q] == 0,
            decreases w - c,
        {
            line.push(0);
            c += 1;
        }
        g.push(line);
        r += 1;
    }
    let mut k: usize = 0;
    while k < points.len()
        invariant
            w > 0,
            h > 0,
            k <= points@.len(),
            g@.len() == h,
            forall|q: int| 0 <= q < h ==> (#[trigger] g@[q])@.len() == w,
            forall|q: int, c: int|
                0 <= q < h && 0 <= c < w ==> #[trigger] g@[q]@[c] == cell_count(
                    points@.subrange(0, k as int),
                    w,
                    h,
                    q as usize,
                    c as usize,
                ),
            forall|q: int, c: int| 0 <= q < h && 0 <= c < w ==> #[trigger] g@[q]@[c] <= k,
        decreases points@.len() - k,
    {
        let npts = points.len();
        let (pr, pc) = points[k];
        let row = if pr < h { pr } else { h - 1 };
        let col = if pc < w { pc } else { w - 1 };
        let ghost old_g = g@;
        let mut line: Vec<usize> = Vec::new();
        let mut c: usize = 0;
        while c < w
            invariant
                c <= w,
                row < h,
                col < w,
                old_g == g@,
                g@.len() == h,
                forall|q: int| 0 <= q < h ==> (#[trigger] g@[q])@.len() == w,
                forall|q: int, c: int| 0 <= q < h && 0 <= c < w ==> #[trigger] g@[q]@[c] <= k,
                k < npts,
                line@.len() == c,
                forall|q: int| 0 <= q < c ==> #[trigger] line@[q] == if q == col { old_g[row as int]@[q] + 1 } else { old_g[row as int]@[q] as int },
            decreases w - c,
        {
            let v = g[row][c];
            assert(g@[row as int]@[c as int] <= k);
            line.push(if c == col { v + 1 } else { v });
            c += 1;
        }
        g.set(row, line);
        proof {
            assert(points@.subrange(0, k + 1).drop_last() =~= points@.subrange(0, k as int));
            assert forall|q: int, c: int| 0 <= q < h && 0 <= c < w implies #[trigger] g@[q]@[c] == cell_count(
                points@.subrange(0, k + 1),
                w,
                h,
                q as usize,
                c as usize,
            ) by {
                reveal(Seq::filter);
                assert(grid_cell(points@[k as int], w, h) == (row, col));
                if q != row {
                    assert(g@[q] == old_g[q]);
                }
            }
            assert forall|q: int, c: int| 0 <= q < h && 0 <= c < w implies #[trigger] g@[q]@[c] <= k + 1 by {
                if q != row {
                    assert(g@[q] == old_g[q]);
                }
            }
        }
        k += 1;
    }
    assert(points@.subrange(0, points@.len() as int) =~= points@);
    g
}

/// The scatter-plot grid: the density mark of each cell.
pub fn scatter_marks(points: &Vec<(usize, usize)>, w: usize, h: usize) -> (m: Vec<Vec<char>>)
    requires
        w > 0,
        h > 0,
    ensures
        m@.len() == h,
        forall|r: int| 0 <= r < h ==> (#[trigger] m@[r])@.len() == w,
        forall|r: int, c: int|
            0 <= r < h && 0 <= c < w ==> #[trigger] m@[r]@[c] == density_char(
                cell_count(points@, w, h, r as usize, c as usize),
            ),
{
    let g = density_grid(points, w, h);
    let mut out: Vec<Vec<char>> = Vec::new();
    let mut r: usize = 0;
    while r < h
        invariant
            r <= h,
            g@.len() == h,
            forall|q: int| 0 <= q < h ==> (#[trigger] g@[q])@.len() == w,
            forall|q: int, c: int|
                0 <= q < h && 0 <= c < w ==> #[trigger] g@[q]@[c] == cell_count(points@, w, h, q as usize, c as usize),
            out@.len() == r,
            forall|q: int| 0 <= q < r ==> (#[trigger] out@[q])@.len() == w,
            forall|q: int, c: int|
                0 <= q < r && 0 <= c < w ==> #[trigger] out@[q]@[c] == density_char(
                    cell_count(points@, w, h, q as usize, c as usize),
                ),
        decreases h - r,
    {
        let mut line: Vec<char> = Vec::new();
        let mut c: usize = 0;
        while c < w
            invariant
                r < h,
                c <= w,
                g@.len() == h,
                forall|q: int| 0 <= q < h ==> (#[trigger] g@[q])@.len() == w,
                forall|q: int, c: int|
                    0 <= q < h && 0 <= c < w ==> #[trigger] g@[q]@[c] == cell_count(points@, w, h, q as usize, c as usize),
                line@.len() == c,
                forall|q: int|
                    0 <= q < c ==> #[trigger] line@[q] == density_char(
                        cell_count(points@, w, h, r as usize, q as usize),
                    ),
            decreases w - c,
        {
            let n = g[r][c];
            let mark = if n > 3 {
                '●'
            } else if n > 1 {
                '◦'
            } else if n == 1 {
                '·'
            } else {
                ' '
            };
            line.push(mark);
            c += 1;
        }
        out.push(line);
        r += 1;
    }
    out
}

/// Whether row `i` of a scatter plot `h` rows high carries a value label:
/// the top, middle and bottom rows do.
pub fn y_label_row(i: usize, h: usize) -> (r: bool)
    ensures
        r == (i == 0 || i + 1 == h || i == h / 2),
{
    i == 0 || (h >= 1 && i == h - 1) || i == h / 2
}

} // verus!
