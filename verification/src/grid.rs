//! Data movement around the FFT: bit-reversal reordering, the quadrant and
//! midline shifts that centre the zero-frequency term, slicing the core out
//! of a padded grid, and flattening a grid into a row-major buffer.
//!
//! The FFT butterflies themselves combine floating-point values and live in
//! the application layer; every routine here only moves elements, so each is
//! generic in the element type and its contract pins the exact permutation.

use vstd::prelude::*;
use vstd::arithmetic::div_mod::{
    lemma_div_multiples_vanish_fancy, lemma_mod_multiples_vanish, lemma_small_mod,
};

verus! {

/// Where index `i` of an `n`-point spectrum lands after an FFT shift:
/// the two halves of the axis are exchanged.
pub open spec fn shift_index(i: int, n: int) -> int {
    if i < n / 2 {
        i + n / 2
    } else {
        i - n / 2
    }
}

/// For an even axis length the FFT shift is its own inverse: shifting an
/// index twice brings it back, so applying a shift pass twice restores the
/// grid.
pub proof fn lemma_shift_index_involution(i: int, n: int)
    requires
        0 <= i < n,
        n % 2 == 0,
    ensures
        shift_index(shift_index(i, n), n) == i,
{
}

/// All rows of `g` have length `n`.
pub open spec fn rows_have_len<T>(g: Seq<Vec<T>>, n: int) -> bool {
    forall|r: int| 0 <= r < g.len() ==> (#[trigger] g[r])@.len() == n
}

/// Apply a precomputed involutive permutation table in place by swapping
/// each element upward once, exactly as the FFT reordering pass does.
pub fn reorder_data<T: Copy>(data: &mut Vec<T>, rbits: &Vec<usize>)
    requires
        rbits@.len() == old(data)@.len(),
        forall|i: int| 0 <= i < rbits@.len() ==> #[trigger] rbits@[i] < rbits@.len(),
        forall|i: int| 0 <= i < rbits@.len() ==> rbits@[#[trigger] rbits@[i] as int] as int == i,
    ensures
        final(data)@.len() == old(data)@.len(),
        forall|i: int|
            0 <= i < final(data)@.len() ==> #[trigger] final(data)@[i] == old(data)@[rbits@[i]
                as int],
{
    let datalen: usize = data.len();
    let mut i: usize = 0;
    while i < datalen
        invariant
            datalen == rbits@.len(),
            data@.len() == datalen,
            old(data)@.len() == datalen,
            forall|k: int| 0 <= k < datalen ==> #[trigger] rbits@[k] < datalen,
            forall|k: int| 0 <= k < datalen ==> rbits@[#[trigger] rbits@[k] as int] as int == k,
            i <= datalen,
            forall|j: int| 0 <= j < i ==> #[trigger] data@[j] == old(data)@[rbits@[j] as int],
            forall|j: int|
                i <= j < datalen ==> #[trigger] data@[j] == (if rbits@[j] >= i {
                    old(data)@[j]
                } else {
                    old(data)@[rbits@[j] as int]
                }),
        decreases datalen - i,
    {
        let s: usize = rbits[i];
        if s > i {
            let t: T = data[i];
            let u: T = data[s];
            data.set(i, u);
            data.set(s, t);
        }
        proof {
            // The one index whose partner is `i` is `rbits[i]` itself, so the
            // untouched part of the array keeps its case split intact.
            assert forall|j: int|
                i + 1 <= j < datalen implies #[trigger] data@[j] == (if rbits@[j] >= i + 1 {
                old(data)@[j]
            } else {
                old(data)@[rbits@[j] as int]
            }) by {
                if rbits@[j] as int == i {
                    assert(rbits@[rbits@[j] as int] as int == j);
                }
            }
        }
        i = i + 1;
    }
}

/// The structural half of the FFT round trip: reordering a line with an
/// involutive permutation table and reordering the result with the same
/// table restores the original line.  Instantiated with the bit-reversal
/// table, this says the reordering pass undoes itself.
pub proof fn lemma_reorder_round_trip<T>(a: Seq<T>, b: Seq<T>, c: Seq<T>, rbits: Seq<usize>)
    requires
        rbits.len() == a.len(),
        b.len() == a.len(),
        c.len() == a.len(),
        forall|i: int| 0 <= i < rbits.len() ==> #[trigger] rbits[i] < rbits.len(),
        forall|i: int| 0 <= i < rbits.len() ==> rbits[#[trigger] rbits[i] as int] as int == i,
        forall|i: int| 0 <= i < a.len() ==> #[trigger] b[i] == a[rbits[i] as int],
        forall|i: int| 0 <= i < a.len() ==> #[trigger] c[i] == b[rbits[i] as int],
    ensures
        c == a,
{
    assert forall|i: int| 0 <= i < a.len() implies c[i] == a[i] by {
        assert(c[i] == b[rbits[i] as int]);
        assert(b[rbits[i] as int] == a[rbits[rbits[i] as int] as int]);
    }
    assert(c =~= a);
}

/// One-dimensional FFT shift: exchange the two halves of an even-length line.
pub fn fft1dshift<T: Copy>(q: &Vec<T>) -> (s: Vec<T>)
    requires
        q@.len() % 2 == 0,
    ensures
        s@.len() == q@.len(),
        forall|c: int| 0 <= c < q@.len() ==> #[trigger] s@[c] == q@[shift_index(c, q@.len() as int)],
{
    let cols: usize = q.len();
    let mid: usize = cols / 2;
    let mut s: Vec<T> = Vec::new();
    let mut c: usize = 0;
    while c < cols
        invariant
            cols == q@.len(),
            cols % 2 == 0,
            mid == cols / 2,
            c <= cols,
            s@.len() == c,
            forall|j: int| 0 <= j < c ==> #[trigger] s@[j] == q@[shift_index(j, cols as int)],
        decreases cols - c,
    {
        if c < mid {
            s.push(q[c + mid]);
        } else {
            s.push(q[c - mid]);
        }
        c = c + 1;
    }
    s
}

/// Two-dimensional FFT shift of a square, even-sized grid: both axes are
/// half-rotated, so the origin term moves to the centre.
pub fn fft2shift<T: Copy>(q: &Vec<Vec<T>>) -> (t: Vec<Vec<T>>)
    requires
        q@.len() >= 2,
        q@.len() % 2 == 0,
        rows_have_len(q@, q@.len() as int),
    ensures
        t@.len() == q@.len(),
        rows_have_len(t@, q@.len() as int),
        forall|r: int, c: int|
            #![trigger t@[r]@[c]]
            0 <= r < q@.len() && 0 <= c < q@.len() ==> t@[r]@[c] == q@[shift_index(
                r,
                q@.len() as int,
            )]@[shift_index(c, q@.len() as int)],
{
    let n: usize = q.len();
    let mid: usize = n / 2;
    let mut t: Vec<Vec<T>> = Vec::new();
    let mut r: usize = 0;
    while r < n
        invariant
            n == q@.len(),
            n % 2 == 0,
            n >= 2,
            mid == n / 2,
            rows_have_len(q@, n as int),
            r <= n,
            t@.len() == r,
            rows_have_len(t@, n as int),
            forall|i: int, c: int|
                #![trigger t@[i]@[c]]
                0 <= i < r && 0 <= c < n ==> t@[i]@[c] == q@[shift_index(
                    i,
                    n as int,
                )]@[shift_index(c, n as int)],
        decreases n - r,
    {
        let sr: usize = if r < mid {
            r + mid
        } else {
            r - mid
        };
        let mut row: Vec<T> = Vec::new();
        let mut c: usize = 0;
        while c < n
            invariant
                n == q@.len(),
                n % 2 == 0,
                n >= 2,
                mid == n / 2,
                rows_have_len(q@, n as int),
                sr == shift_index(r as int, n as int),
                0 <= sr < n,
                c <= n,
                row@.len() == c,
                forall|j: int|
                    0 <= j < c ==> #[trigger] row@[j] == q@[sr as int]@[shift_index(j, n as int)],
            decreases n - c,
        {
            if c < mid {
                row.push(q[sr][c + mid]);
            } else {
                row.push(q[sr][c - mid]);
            }
            c = c + 1;
        }
        t.push(row);
        r = r + 1;
    }
    t
}

/// Cut the centred `core`-by-`core` block out of a larger grid, as used to
/// recover the point-spread function from its padded transform.
pub fn slicecore<T: Copy>(data: &Vec<Vec<T>>, core: usize) -> (odata: Vec<Vec<T>>)
    requires
        data@.len() >= 1,
        rows_have_len(data@, data@[0]@.len() as int),
        core <= data@.len(),
        core <= data@[0]@.len(),
    ensures
        odata@.len() == core,
        rows_have_len(odata@, core as int),
        forall|r: int, c: int|
            #![trigger odata@[r]@[c]]
            0 <= r < core && 0 <= c < core ==> odata@[r]@[c] == data@[(data@.len() - core) / 2
                + r]@[(data@[0]@.len() - core) / 2 + c],
{
    let rows: usize = data.len();
    let cols: usize = data[0].len();
    let startrow: usize = (rows - core) / 2;
    let startcol: usize = (cols - core) / 2;
    let mut odata: Vec<Vec<T>> = Vec::new();
    let mut r: usize = 0;
    while r < core
        invariant
            rows == data@.len(),
            cols == data@[0]@.len(),
            rows_have_len(data@, cols as int),
            core <= rows,
            core <= cols,
            startrow == (rows - core) / 2,
            startcol == (cols - core) / 2,
            startrow + core <= rows,
            startcol + core <= cols,
            r <= core,
            odata@.len() == r,
            rows_have_len(odata@, core as int),
            forall|i: int, c: int|
                #![trigger odata@[i]@[c]]
                0 <= i < r && 0 <= c < core ==> odata@[i]@[c] == data@[startrow + i]@[startcol
                    + c],
        decreases core - r,
    {
        let mut row: Vec<T> = Vec::new();
        let mut c: usize = 0;
        while c < core
            invariant
                rows == data@.len(),
                cols == data@[0]@.len(),
                rows_have_len(data@, cols as int),
                core <= rows,
                core <= cols,
                startrow + core <= rows,
                startcol + core <= cols,
                r < core,
                c <= core,
                row@.len() == c,
                forall|j: int|
                    0 <= j < c ==> #[trigger] row@[j] == data@[startrow + r as int]@[startcol + j],
            decreases core - c,
        {
            row.push(data[startrow + r][startcol + c]);
            c = c + 1;
        }
        odata.push(row);
        r = r + 1;
    }
    odata
}

/// Flatten the top-left `n`-by-`n` block of a grid into one row-major buffer.
pub fn flatten_grid<T: Copy>(data: &Vec<Vec<T>>, n: usize) -> (out: Vec<T>)
    requires
        n <= data@.len(),
        forall|r: int| 0 <= r < data@.len() ==> (#[trigger] data@[r])@.len() >= n,
    ensures
        out@.len() == n * n,
        forall|k: int|
            0 <= k < n * n ==> #[trigger] out@[k] == data@[k / (n as int)]@[k % (n as int)],
{
    let mut out: Vec<T> = Vec::new();
    let mut r: usize = 0;
    while r < n
        invariant
            n <= data@.len(),
            forall|i: int| 0 <= i < data@.len() ==> (#[trigger] data@[i])@.len() >= n,
            r <= n,
            out@.len() == r * n,
            forall|k: int|
                0 <= k < r * n ==> #[trigger] out@[k] == data@[k / (n as int)]@[k % (n as int)],
        decreases n - r,
    {
        let mut c: usize = 0;
        while c < n
            invariant
                n <= data@.len(),
                forall|i: int| 0 <= i < data@.len() ==> (#[trigger] data@[i])@.len() >= n,
                r < n,
                c <= n,
                out@.len() == r * n + c,
                forall|k: int|
                    0 <= k < r * n + c ==> #[trigger] out@[k] == data@[k / (n as int)]@[k % (
                    n as int)],
            decreases n - c,
        {
            proof {
                lemma_div_multiples_vanish_fancy(r as int, c as int, n as int);
                lemma_mod_multiples_vanish(r as int, c as int, n as int);
                lemma_small_mod(c as nat, n as nat);
                assert((n * r + c) / (n as int) == r as int);
                assert((n * r + c) % (n as int) == c as int);
                assert(r as int * n + c == n * r + c) by (nonlinear_arith);
            }
            out.push(data[r][c]);
            c = c + 1;
        }
        proof {
            assert(r as int * n + n == (r + 1) as int * n) by (nonlinear_arith);
        }
        r = r + 1;
    }
    proof {
        assert(n as int * n == n * n) by (nonlinear_arith);
    }
    out
}

/// Mirror the first `halfwidth + 1` entries of a line outward around the
/// origin: the result reads `vals[halfwidth] .. vals[1]` and then
/// `vals[0] .. vals[halfwidth]`, the symmetric preview line of the
/// point-spread function.
pub fn mirror_line<T: Copy>(vals: &Vec<T>, halfwidth: usize) -> (out: Vec<T>)
    requires
        halfwidth < vals@.len(),
    ensures
        out@.len() == 2 * halfwidth + 1,
        forall|p: int| 0 <= p <= halfwidth ==> #[trigger] out@[p] == vals@[halfwidth - p],
        forall|p: int|
            halfwidth <= p < 2 * halfwidth + 1 ==> #[trigger] out@[p] == vals@[p - halfwidth],
{
    let len: usize = vals.len();
    let mut out: Vec<T> = Vec::new();
    let mut i: usize = halfwidth;
    while i > 0
        invariant
            len == vals@.len(),
            halfwidth < len,
            i <= halfwidth,
            out@.len() == halfwidth - i,
            forall|p: int| 0 <= p < out@.len() ==> #[trigger] out@[p] == vals@[halfwidth - p],
        decreases i,
    {
        out.push(vals[i]);
        i = i - 1;
    }
    let mut k: usize = 0;
    while k <= halfwidth
        invariant
            len == vals@.len(),
            halfwidth < len,
            k <= halfwidth + 1,
            out@.len() == halfwidth + k,
            forall|p: int| 0 <= p < halfwidth ==> #[trigger] out@[p] == vals@[halfwidth - p],
            forall|p: int|
                halfwidth <= p < halfwidth + k ==> #[trigger] out@[p] == vals@[p - halfwidth],
        decreases halfwidth + 1 - k,
    {
        out.push(vals[k]);
        k = k + 1;
    }
    out
}

} // verus!
