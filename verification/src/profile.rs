//! Building the 1-D intensity profile of an extended source: binning traced
//! ray hits into a square histogram (with an overflow tally for hits outside
//! the configured range) and mirroring a half-profile into a symmetric line
//! around the origin.
//!
//! Converting a ray's floating-point landing position into integer bin
//! coordinates is the application layer's job; this module counts and
//! arranges those integer cells exactly.

use vstd::prelude::*;
use vstd::arithmetic::div_mod::{
    lemma_div_multiples_vanish_fancy, lemma_mod_multiples_vanish, lemma_small_mod,
    lemma_fundamental_div_mod, lemma_multiply_divide_lt,
};
use crate::grid::rows_have_len;

verus! {

/// A binned ray hit lands inside an `sbins`-by-`sbins` histogram.
pub open spec fn cell_in_range(cell: (i64, i64), sbins: int) -> bool {
    0 <= cell.0 < sbins && 0 <= cell.1 < sbins
}

/// How many cells of `cells` equal the bin coordinate `(r, c)`.
pub open spec fn count_hits(cells: Seq<(i64, i64)>, r: int, c: int) -> nat
    decreases cells.len(),
{
    if cells.len() == 0 {
        0
    } else {
        count_hits(cells.drop_last(), r, c) + (if cells.last().0 == r && cells.last().1 == c {
            1nat
        } else {
            0nat
        })
    }
}

/// How many cells of `cells` fall outside the histogram: the error tally
/// that is reported alongside the binned data instead of being dropped.
pub open spec fn count_overflow(cells: Seq<(i64, i64)>, sbins: int) -> nat
    decreases cells.len(),
{
    if cells.len() == 0 {
        0
    } else {
        count_overflow(cells.drop_last(), sbins) + (if cell_in_range(cells.last(), sbins) {
            0nat
        } else {
            1nat
        })
    }
}

proof fn lemma_count_hits_le(cells: Seq<(i64, i64)>, r: int, c: int)
    ensures
        count_hits(cells, r, c) <= cells.len(),
    decreases cells.len(),
{
    if cells.len() > 0 {
        lemma_count_hits_le(cells.drop_last(), r, c);
    }
}

/// Accumulate binned ray hits into an `sbins`-by-`sbins` count grid.
/// Every in-range cell is counted in its bin; every out-of-range cell is
/// counted in the returned error tally, so no hit is lost silently.
pub fn bin_ray_hits(cells: &Vec<(i64, i64)>, sbins: usize) -> (out: (Vec<Vec<u64>>, usize))
    requires
        sbins * sbins <= usize::MAX,
    ensures
        out.0@.len() == sbins,
        rows_have_len(out.0@, sbins as int),
        forall|r: int, c: int|
            #![trigger out.0@[r]@[c]]
            0 <= r < sbins && 0 <= c < sbins ==> out.0@[r]@[c] == count_hits(cells@, r, c),
        out.1 == count_overflow(cells@, sbins as int),
{
    let total: usize = sbins * sbins;
    let mut flat: Vec<u64> = Vec::new();
    let mut z: usize = 0;
    while z < total
        invariant
            z <= total,
            flat@.len() == z,
            forall|k: int| 0 <= k < z ==> #[trigger] flat@[k] == 0,
        decreases total - z,
    {
        flat.push(0);
        z = z + 1;
    }
    let n: usize = cells.len();
    let mut errors: usize = 0;
    let mut i: usize = 0;
    while i < n
        invariant
            n == cells@.len(),
            total == sbins * sbins,
            flat@.len() == total,
            i <= n,
            errors == count_overflow(cells@.take(i as int), sbins as int),
            errors <= i,
            forall|k: int|
                0 <= k < total ==> #[trigger] flat@[k] == count_hits(
                    cells@.take(i as int),
                    k / (sbins as int),
                    k % (sbins as int),
                ),
        decreases n - i,
    {
        let cell: (i64, i64) = cells[i];
        proof {
            assert(cells@.take(i + 1).drop_last() =~= cells@.take(i as int));
            assert(cells@.take(i + 1).last() == cells@[i as int]);
        }
        let mut in_range: bool = false;
        let mut row: usize = 0;
        let mut col: usize = 0;
        if cell.0 >= 0 && cell.1 >= 0 {
            let r0: u64 = cell.0 as u64;
            let c0: u64 = cell.1 as u64;
            if r0 < sbins as u64 && c0 < sbins as u64 {
                in_range = true;
                row = r0 as usize;
                col = c0 as usize;
            }
        }
        proof {
            assert(in_range == cell_in_range(cells@[i as int], sbins as int));
            if in_range {
                assert(row == cells@[i as int].0 && col == cells@[i as int].1);
            }
        }
        if in_range {
            proof {
                assert(row as int * (sbins as int) + col < sbins * sbins) by (nonlinear_arith)
                    requires
                        0 <= row < sbins,
                        0 <= col < sbins,
                ;
            }
            let idx: usize = row * sbins + col;
            let v: u64 = flat[idx];
            proof {
                lemma_count_hits_le(cells@.take(i as int), row as int, col as int);
                lemma_div_multiples_vanish_fancy(row as int, col as int, sbins as int);
                lemma_mod_multiples_vanish(row as int, col as int, sbins as int);
                lemma_small_mod(col as nat, sbins as nat);
                assert(sbins as int * (row as int) + col == idx) by (nonlinear_arith)
                    requires
                        idx == row as int * (sbins as int) + col,
                ;
                assert(idx as int / (sbins as int) == row as int);
                assert(idx as int % (sbins as int) == col as int);
            }
            flat.set(idx, v + 1);
            proof {
                assert forall|k: int|
                    0 <= k < total implies #[trigger] flat@[k] == count_hits(
                    cells@.take(i + 1),
                    k / (sbins as int),
                    k % (sbins as int),
                ) by {
                    let kr = k / (sbins as int);
                    let kc = k % (sbins as int);
                    if k == idx as int {
                    } else {
                        // A different flat index means a different bin, so the
                        // new cell does not touch its count.
                        lemma_fundamental_div_mod(k, sbins as int);
                        assert(k == (sbins as int) * kr + kc);
                        if kr == row as int && kc == col as int {
                            assert(k == idx as int) by (nonlinear_arith)
                                requires
                                    k == (sbins as int) * kr + kc,
                                    idx == row as int * (sbins as int) + col,
                                    kr == row as int,
                                    kc == col as int,
                            ;
                        }
                    }
                }
            }
        } else {
            errors = errors + 1;
            proof {
                assert(!cell_in_range(cells@[i as int], sbins as int));
                assert forall|k: int|
                    0 <= k < total implies #[trigger] flat@[k] == count_hits(
                    cells@.take(i + 1),
                    k / (sbins as int),
                    k % (sbins as int),
                ) by {
                    let kr = k / (sbins as int);
                    let kc = k % (sbins as int);
                    assert(sbins > 0);
                    lemma_multiply_divide_lt(k, sbins as int, sbins as int);
                    assert(0 <= kr < sbins);
                    assert(0 <= kc < sbins);
                    assert(!(cells@[i as int].0 == kr && cells@[i as int].1 == kc));
                }
            }
        }
        i = i + 1;
    }
    proof {
        assert(cells@.take(n as int) =~= cells@);
    }
    let mut counts: Vec<Vec<u64>> = Vec::new();
    let mut r: usize = 0;
    while r < sbins
        invariant
            total == sbins * sbins,
            flat@.len() == total,
            r <= sbins,
            counts@.len() == r,
            rows_have_len(counts@, sbins as int),
            forall|k: int|
                0 <= k < total ==> #[trigger] flat@[k] == count_hits(
                    cells@,
                    k / (sbins as int),
                    k % (sbins as int),
                ),
            forall|p: int, c: int|
                #![trigger counts@[p]@[c]]
                0 <= p < r && 0 <= c < sbins ==> counts@[p]@[c] == count_hits(cells@, p, c),
        decreases sbins - r,
    {
        let mut rowv: Vec<u64> = Vec::new();
        let mut c: usize = 0;
        while c < sbins
            invariant
                total == sbins * sbins,
                flat@.len() == total,
                r < sbins,
                c <= sbins,
                rowv@.len() == c,
                forall|k: int|
                    0 <= k < total ==> #[trigger] flat@[k] == count_hits(
                        cells@,
                        k / (sbins as int),
                        k % (sbins as int),
                    ),
                forall|j: int| 0 <= j < c ==> #[trigger] rowv@[j] == count_hits(cells@, r as int, j),
            decreases sbins - c,
        {
            proof {
                assert(r as int * (sbins as int) + c < sbins * sbins) by (nonlinear_arith)
                    requires
                        0 <= r < sbins,
                        0 <= c < sbins,
                ;
            }
            let idx: usize = r * sbins + c;
            proof {
                lemma_div_multiples_vanish_fancy(r as int, c as int, sbins as int);
                lemma_mod_multiples_vanish(r as int, c as int, sbins as int);
                lemma_small_mod(c as nat, sbins as nat);
                assert(sbins as int * (r as int) + c == idx) by (nonlinear_arith)
                    requires
                        idx == r as int * (sbins as int) + c,
                ;
                assert(idx as int / (sbins as int) == r as int);
                assert(idx as int % (sbins as int) == c as int);
            }
            rowv.push(flat[idx]);
            c = c + 1;
        }
        counts.push(rowv);
        r = r + 1;
    }
    (counts, errors)
}

/// Mirror a half-profile around the origin.  `xs` holds the sample abscissas
/// from the origin outward, `negs` their sign-mirrored partners (the caller
/// negates, since negation is numeric), and `ys` the sample values.  The
/// result walks the samples backward through the mirrored abscissas, keeps
/// the origin once, then walks them forward, so the value sequence is
/// symmetric around the origin.
pub fn mirror_data_array<T: Copy>(xs: &Vec<T>, negs: &Vec<T>, ys: &Vec<T>) -> (out: (
    Vec<T>,
    Vec<T>,
))
    requires
        xs@.len() >= 1,
        negs@.len() == xs@.len(),
        ys@.len() == xs@.len(),
    ensures
        out.0@.len() == 2 * xs@.len() - 1,
        out.1@.len() == 2 * xs@.len() - 1,
        forall|p: int|
            0 <= p < xs@.len() ==> #[trigger] out.0@[p] == negs@[xs@.len() - 1 - p],
        forall|p: int|
            0 <= p < xs@.len() ==> #[trigger] out.1@[p] == ys@[xs@.len() - 1 - p],
        forall|p: int|
            xs@.len() <= p < 2 * xs@.len() - 1 ==> #[trigger] out.0@[p] == xs@[p - (xs@.len()
                - 1)],
        forall|p: int|
            xs@.len() - 1 <= p < 2 * xs@.len() - 1 ==> #[trigger] out.1@[p] == ys@[p - (xs@.len()
                - 1)],
        forall|p: int|
            0 <= p < 2 * xs@.len() - 1 ==> #[trigger] out.1@[p] == out.1@[2 * (xs@.len() - 1)
                - p],
{
    let n: usize = xs.len();
    let mut xdata: Vec<T> = Vec::new();
    let mut ydata: Vec<T> = Vec::new();
    let mut p: usize = 0;
    while p < n
        invariant
            n == xs@.len(),
            negs@.len() == n,
            ys@.len() == n,
            n >= 1,
            p <= n,
            xdata@.len() == p,
            ydata@.len() == p,
            forall|j: int| 0 <= j < p ==> #[trigger] xdata@[j] == negs@[n - 1 - j],
            forall|j: int| 0 <= j < p ==> #[trigger] ydata@[j] == ys@[n - 1 - j],
        decreases n - p,
    {
        xdata.push(negs[n - 1 - p]);
        ydata.push(ys[n - 1 - p]);
        p = p + 1;
    }
    let mut j: usize = 1;
    while j < n
        invariant
            n == xs@.len(),
            negs@.len() == n,
            ys@.len() == n,
            n >= 1,
            1 <= j <= n,
            xdata@.len() == n - 1 + j,
            ydata@.len() == n - 1 + j,
            forall|q: int| 0 <= q < n ==> #[trigger] xdata@[q] == negs@[n - 1 - q],
            forall|q: int| 0 <= q < n ==> #[trigger] ydata@[q] == ys@[n - 1 - q],
            forall|q: int|
                n <= q < n - 1 + j ==> #[trigger] xdata@[q] == xs@[q - (n - 1)],
            forall|q: int|
                n <= q < n - 1 + j ==> #[trigger] ydata@[q] == ys@[q - (n - 1)],
        decreases n - j,
    {
        xdata.push(xs[j]);
        ydata.push(ys[j]);
        j = j + 1;
    }
    proof {
        // Symmetry of the value line: positions equidistant from the centre
        // carry the same sample.
        assert forall|q: int|
            0 <= q < 2 * xs@.len() - 1 implies #[trigger] ydata@[q] == ydata@[2 * (xs@.len() - 1)
            - q] by {
            let m = 2 * (xs@.len() - 1) - q;
            assert(ydata@[q] == (if q < xs@.len() {
                ys@[xs@.len() - 1 - q]
            } else {
                ys@[q - (xs@.len() - 1)]
            }));
            assert(ydata@[m] == (if m < xs@.len() {
                ys@[xs@.len() - 1 - m]
            } else {
                ys@[m - (xs@.len() - 1)]
            }));
        }
    }
    (xdata, ydata)
}

} // verus!
