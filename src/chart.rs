//! Geometry of the co-author bar chart: how wide the bars are, how far apart, and how tall.
use vstd::prelude::*;

verus! {

/// The gap between bars before any widening.
pub const BAR_GAP: usize = 2;

/// The width of each bar before rounding up to an even number: the share of `max_x` per
/// data point, less the default gap, and at least one column.
pub open spec fn raw_bar_width(max_x: int, data_points: int) -> int {
    let w = max_x / data_points - BAR_GAP as int;
    if w < 1 {
        1
    } else {
        w
    }
}

/// `data_points` bars of `bar_width` columns, with gaps of `bar_gap + 1` between them,
/// fit into `max_x` columns.
pub open spec fn bars_fit(data_points: int, bar_width: int, bar_gap: int, max_x: int) -> bool {
    data_points * bar_width + (data_points - 1) * (bar_gap + 1) <= max_x
}

/// Bar width and gap for `data_points` bars on `max_x` columns. The width is even, so that a
/// bar splits into two halves; with more than one bar, the gap is widened one column at a
/// time for as long as the bars, spaced one column wider than the gap, still fit.
pub fn bar_layout(max_x: usize, data_points: usize) -> (r: (usize, usize))
    requires
        data_points >= 1,
    ensures
        ({
            let w = raw_bar_width(max_x as int, data_points as int);
            let g0 = if w % 2 == 1 {
                1int
            } else {
                2int
            };
            &&& r.0 == if w % 2 == 1 {
                w + 1
            } else {
                w
            }
            &&& data_points == 1 ==> r.1 == g0
            &&& data_points > 1 ==> !bars_fit(data_points as int, r.0 as int, r.1 as int, max_x as int)
            &&& data_points > 1 ==> r.1 >= g0
            &&& data_points > 1 && r.1 > g0 ==> bars_fit(
                data_points as int,
                r.0 as int,
                r.1 - 1,
                max_x as int,
            )
        }),
{
    let width_per_author = max_x / data_points;
    let mut bar_gap: usize = BAR_GAP;
    let mut bar_width: usize = if width_per_author > bar_gap + 1 {
        width_per_author - bar_gap
    } else {
        1
    };
    if bar_width % 2 != 0 {
        bar_width = bar_width + 1;
        bar_gap = bar_gap - 1;
    }
    if data_points > 1 {
        let ghost g0 = bar_gap;
        let dp = data_points as u128;
        let bw = bar_width as u128;
        let mx = max_x as u128;
        assert(bw <= max_x as int / data_points as int + 2);
        assert(dp * bw <= mx + 2 * dp) by (nonlinear_arith)
            requires
                bw <= mx / dp + 2,
                dp >= 1,
        {
            assert(dp * (mx / dp) <= mx);
        }
        assert((dp - 1) * (bar_gap as u128 + 1) <= 3 * dp) by (nonlinear_arith)
            requires
                bar_gap <= 2,
                dp > 1,
        ;
        while dp * bw + (dp - 1) * (bar_gap as u128 + 1) <= mx
            invariant
                dp == data_points as u128,
                bw == bar_width as u128,
                mx == max_x as u128,
                dp > 1,
                dp * bw <= mx + 2 * dp,
                mx <= usize::MAX,
                dp <= usize::MAX,
                g0 <= bar_gap,
                bar_gap > g0 ==> bars_fit(dp as int, bw as int, bar_gap - 1, mx as int),
                (dp - 1) * (bar_gap as u128 + 1) <= mx + 3 * dp,
            decreases mx + 3 * dp - (dp - 1) * (bar_gap as u128 + 1),
        {
            assert((dp - 1) * (bar_gap as u128 + 1) <= mx);
            assert(bar_gap < usize::MAX) by (nonlinear_arith)
                requires
                    (dp - 1) * (bar_gap as u128 + 1) <= mx,
                    dp > 1,
                    mx <= usize::MAX,
            {
            }
            assert((dp - 1) * (bar_gap as u128 + 2) == (dp - 1) * (bar_gap as u128 + 1) + (dp - 1))
                by (nonlinear_arith);
            bar_gap = bar_gap + 1;
        }
    }
    (bar_width, bar_gap)
}

/// Height of a bar for `count` out of `max_count` on `max_y` rows: whole rows, and the
/// eighths of a row above them.
pub fn bar_height(max_y: u32, count: u32, max_count: u32) -> (r: (u32, u32))
    requires
        0 < max_count,
        count <= max_count,
    ensures
        r.0 as int == (max_y as int * count as int) / max_count as int,
        r.1 as int == (8 * max_y as int * count as int) / max_count as int - 8 * r.0 as int,
        r.1 < 8,
        r.0 <= max_y,
{
    assert((max_y as u64) * (count as u64) <= u64::MAX) by (nonlinear_arith)
        requires
            max_y <= u32::MAX,
            count <= u32::MAX,
    ;
    let x: u64 = (max_y as u64) * (count as u64);
    let m: u64 = max_count as u64;
    assert(x <= (max_y as u64) * (max_count as u64)) by (nonlinear_arith)
        requires
            x == (max_y as u64) * (count as u64),
            count <= max_count,
    ;
    let top = x / m;
    assert(top <= max_y) by (nonlinear_arith)
        requires
            x <= (max_y as u64) * m,
            top == x / m,
            m > 0,
    ;
    let rem = x % m;
    let part = (8 * rem) / m;
    proof {
        let xi = x as int;
        let mi = m as int;
        let q = xi / mi;
        let r = xi % mi;
        assert(xi == q * mi + r) by (nonlinear_arith)
            requires
                mi > 0,
                q == xi / mi,
                r == xi % mi,
        ;
        assert(8 * xi == 8 * r + (8 * q) * mi) by (nonlinear_arith)
            requires
                xi == q * mi + r,
        ;
        vstd::arithmetic::div_mod::lemma_hoist_over_denominator(8 * r, 8 * q, mi as nat);
        assert((8 * r + (8 * q) * mi) / mi == (8 * r) / mi + 8 * q);
        assert((8 * r) / mi < 8) by (nonlinear_arith)
            requires
                mi > 0,
                0 <= r < mi,
        ;
        assert(8 * (max_y as int) * (count as int) == 8 * xi) by (nonlinear_arith)
            requires
                xi == (max_y as int) * (count as int),
        ;
    }
    (top as u32, part as u32)
}

} // verus!
