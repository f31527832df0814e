//! Power-of-two arithmetic and bit-reversal indexing for the FFT.
//!
//! The radix-2 FFT needs three integer ingredients: the base-2 logarithm of
//! the grid size, a power-of-two test, and the bit-reversal permutation table
//! that drives the reordering pass.  All of them are exact integer functions
//! and are specified against `pow2` and the `rev_bits` spec below.

use vstd::prelude::*;
use vstd::arithmetic::power2::{
    pow2, is_pow2, lemma_pow2_unfold, lemma_pow2_strictly_increases, lemma_pow2_pos, lemma2_to64,
};
use vstd::arithmetic::div_mod::{
    lemma_div_denominator, lemma_hoist_over_denominator, lemma_mod_multiples_vanish,
    lemma_small_mod, lemma_fundamental_div_mod, lemma_div_multiples_vanish_fancy,
};
use vstd::bits::lemma_u32_shl_is_mul;

verus! {

/// The value of the low `bits` bits of `x`, read back in reverse order:
/// bit 0 of `x` becomes bit `bits - 1` of the result, and so on.
pub open spec fn rev_bits(x: nat, bits: nat) -> nat
    decreases bits,
{
    if bits == 0 {
        0
    } else {
        (x % 2) * pow2((bits - 1) as nat) + rev_bits(x / 2, (bits - 1) as nat)
    }
}

/// A reversed `bits`-bit value fits in `bits` bits.
pub proof fn lemma_rev_bits_bound(x: nat, bits: nat)
    ensures
        rev_bits(x, bits) < pow2(bits),
    decreases bits,
{
    if bits == 0 {
        assert(pow2(0) == 1) by {
            lemma2_to64();
        }
    } else {
        lemma_rev_bits_bound(x / 2, (bits - 1) as nat);
        lemma_pow2_unfold(bits);
        assert((x % 2) * pow2((bits - 1) as nat) <= pow2((bits - 1) as nat))
            by (nonlinear_arith)
            requires
                x % 2 <= 1,
                pow2((bits - 1) as nat) >= 0,
        ;
    }
}

/// Reversal only looks at the low `bits` bits of its argument.
proof fn lemma_rev_bits_low(x: nat, bits: nat)
    ensures
        rev_bits(x, bits) == rev_bits(x % pow2(bits), bits),
    decreases bits,
{
    if bits == 0 {
        assert(pow2(0) == 1) by {
            lemma2_to64();
        }
        assert(rev_bits(x, 0) == 0);
        assert(rev_bits(x % pow2(0), 0) == 0);
    } else {
        lemma_pow2_pos(bits);
        lemma_pow2_pos((bits - 1) as nat);
        lemma_pow2_unfold(bits);
        let p: int = pow2(bits) as int;
        let h: int = pow2((bits - 1) as nat) as int;
        let m: int = (x % pow2(bits)) as int;
        let q: int = (x as int) / p;
        lemma_fundamental_div_mod(x as int, p);
        assert(x as int == p * q + m);
        assert(0 <= m < p);
        // Low bit agrees: x and m differ by a multiple of 2.
        assert(x as int == 2 * (h * q) + m) by (nonlinear_arith)
            requires
                x as int == p * q + m,
                p == 2 * h,
        ;
        lemma_mod_multiples_vanish(h * q, m, 2);
        assert((2 * (h * q) + m) % 2 == m % 2);
        assert(x as int % 2 == m % 2);
        // Upper part agrees after halving: x / 2 == h * q + m / 2.
        lemma_hoist_over_denominator(m, h * q, 2);
        assert(m / 2 + h * q == (m + (h * q) * 2) / 2);
        assert(m + (h * q) * 2 == x as int) by (nonlinear_arith)
            requires
                x as int == 2 * (h * q) + m,
        ;
        assert(x as int / 2 == h * q + m / 2);
        // And m / 2 is exactly (x / 2) % pow2(bits - 1).
        assert(m / 2 < h) by (nonlinear_arith)
            requires
                0 <= m < 2 * h,
                0 < h,
        ;
        lemma_mod_multiples_vanish(q, m / 2, h);
        assert((h * q + m / 2) % h == (m / 2) % h);
        lemma_small_mod((m / 2) as nat, h as nat);
        assert((x as int / 2) % h == m / 2);
        lemma_rev_bits_low(x / 2, (bits - 1) as nat);
        assert((x / 2) % pow2((bits - 1) as nat) == (m / 2) as nat);
        assert(rev_bits(x / 2, (bits - 1) as nat) == rev_bits((m / 2) as nat, (bits - 1) as nat));
        assert(rev_bits(m as nat, bits) == (m % 2) * pow2((bits - 1) as nat) + rev_bits(
            m as nat / 2,
            (bits - 1) as nat,
        ));
        assert(x % pow2(bits) == m as nat);
        assert((m as nat) / 2 == (m / 2) as nat);
        assert(x % 2 == (m as nat) % 2);
        assert(rev_bits(x, bits) == (x % 2) * pow2((bits - 1) as nat) + rev_bits(
            x / 2,
            (bits - 1) as nat,
        ));
        assert(rev_bits(x, bits) == rev_bits(m as nat, bits));
    }
}

/// Peeling the result's low bit: one more reversed bit shifts the previous
/// result up and appends bit `bits` of `x` at the bottom.
proof fn lemma_rev_bits_step(x: nat, bits: nat)
    ensures
        rev_bits(x, (bits + 1) as nat) == 2 * rev_bits(x, bits) + (x / pow2(bits)) % 2,
    decreases bits,
{
    if bits == 0 {
        assert(pow2(0) == 1) by {
            lemma2_to64();
        }
        assert(x / 1 == x);
        assert(rev_bits(x, 1) == (x % 2) * pow2(0) + rev_bits(x / 2, 0));
    } else {
        lemma_rev_bits_step(x / 2, (bits - 1) as nat);
        lemma_pow2_unfold(bits);
        lemma_pow2_pos((bits - 1) as nat);
        // (x / 2) / pow2(bits - 1) == x / pow2(bits)
        lemma_div_denominator(x as int, 2, pow2((bits - 1) as nat) as int);
        assert(2 * pow2((bits - 1) as nat) == pow2(bits));
        // rev_bits(x, bits + 1) unfolds on the low bit of x.
        assert(rev_bits(x, (bits + 1) as nat) == (x % 2) * pow2(bits) + rev_bits(
            x / 2,
            bits,
        ));
        assert(rev_bits(x, bits) == (x % 2) * pow2((bits - 1) as nat) + rev_bits(
            x / 2,
            (bits - 1) as nat,
        ));
        assert((x % 2) * pow2(bits) == 2 * ((x % 2) * pow2((bits - 1) as nat)))
            by (nonlinear_arith)
            requires
                pow2(bits) == 2 * pow2((bits - 1) as nat),
        ;
    }
}

/// Prepending bit `c` above a `bits`-bit value `y` reverses to the reversal
/// of `y` shifted up, with `c` in the lowest position.
proof fn lemma_rev_bits_insert_top(y: nat, c: nat, bits: nat)
    requires
        y < pow2(bits),
        c <= 1,
    ensures
        rev_bits(c * pow2(bits) + y, (bits + 1) as nat) == 2 * rev_bits(y, bits) + c,
{
    lemma_pow2_pos(bits);
    let p: int = pow2(bits) as int;
    let z: nat = (c * pow2(bits) + y) as nat;
    lemma_rev_bits_step(z, bits);
    // z / pow2(bits) == c
    lemma_div_multiples_vanish_fancy(c as int, y as int, p);
    assert((p * c + y) / p == c);
    assert(z as int == p * c + y) by (nonlinear_arith)
        requires
            z == c * pow2(bits) + y,
            p == pow2(bits),
    ;
    assert(z as int / p == c);
    assert(c % 2 == c);
    // z % pow2(bits) == y, so the low `bits` bits of z are exactly y.
    lemma_mod_multiples_vanish(c as int, y as int, p);
    assert((p * c + y) % p == (y as int) % p);
    lemma_small_mod(y, pow2(bits));
    lemma_rev_bits_low(z, bits);
    assert(z % pow2(bits) == y);
}

/// Reversing the low `bits` bits twice is the identity on `bits`-bit values.
pub proof fn lemma_rev_bits_involution(x: nat, bits: nat)
    requires
        x < pow2(bits),
    ensures
        rev_bits(rev_bits(x, bits), bits) == x,
    decreases bits,
{
    if bits == 0 {
        assert(pow2(0) == 1) by {
            lemma2_to64();
        }
    } else {
        lemma_pow2_unfold(bits);
        let c: nat = x % 2;
        let x2: nat = x / 2;
        assert(x2 < pow2((bits - 1) as nat)) by (nonlinear_arith)
            requires
                x < 2 * pow2((bits - 1) as nat),
                x2 == x / 2,
        ;
        lemma_rev_bits_bound(x2, (bits - 1) as nat);
        let y: nat = rev_bits(x2, (bits - 1) as nat);
        assert(rev_bits(x, bits) == c * pow2((bits - 1) as nat) + y);
        lemma_rev_bits_insert_top(y, c, (bits - 1) as nat);
        assert(rev_bits((c * pow2((bits - 1) as nat) + y) as nat, bits) == 2 * rev_bits(
            y,
            (bits - 1) as nat,
        ) + c);
        lemma_rev_bits_involution(x2, (bits - 1) as nat);
        assert(rev_bits(y, (bits - 1) as nat) == x2);
        lemma_fundamental_div_mod(x as int, 2);
        assert(x == 2 * x2 + c);
    }
}

/// A full bit-reversal table over `pow2(bits)` entries is an involutive
/// permutation: every entry is in range and the table applied twice is the
/// identity.  This is the structural half of the FFT round trip: reordering
/// a grid with the table and reordering again restores the original grid.
pub proof fn lemma_rev_table_is_involution(rbits: Seq<usize>, bits: nat)
    requires
        rbits.len() == pow2(bits),
        forall|i: int| 0 <= i < rbits.len() ==> rbits[i] == rev_bits(i as nat, bits),
    ensures
        forall|i: int| 0 <= i < rbits.len() ==> #[trigger] rbits[i] < rbits.len(),
        forall|i: int| 0 <= i < rbits.len() ==> rbits[#[trigger] rbits[i] as int] == i,
{
    assert forall|i: int| 0 <= i < rbits.len() implies #[trigger] rbits[i] < rbits.len()
        && rbits[rbits[i] as int] == i by {
        lemma_rev_bits_bound(i as nat, bits);
        lemma_rev_bits_involution(i as nat, bits);
    }
}

/// Ceiling of the base-2 logarithm: the smallest `r` with `pow2(r) >= x`,
/// and 0 for `x == 0`.
pub fn intlog2(x: u32) -> (r: u32)
    ensures
        x == 0 ==> r == 0,
        x >= 1 ==> pow2(r as nat) >= x,
        x >= 1 && r >= 1 ==> pow2((r - 1) as nat) < x,
        r <= 32,
{
    if x == 0 {
        return 0;
    }
    let mut k: u32 = 0;
    let mut p: u64 = 1;
    proof {
        assert(pow2(0) == 1) by {
            lemma2_to64();
        }
    }
    while p < x as u64
        invariant
            1 <= x,
            p == pow2(k as nat),
            k >= 1 ==> pow2((k - 1) as nat) < x,
            k <= 32,
        decreases 32 - k,
    {
        proof {
            assert(pow2(32) == 0x1_0000_0000) by {
                lemma2_to64();
            }
            if k >= 32 {
                if k > 32 {
                    lemma_pow2_strictly_increases(32, k as nat);
                }
                assert(pow2(k as nat) >= 0x1_0000_0000);
                assert(false);
            }
            lemma_pow2_unfold((k + 1) as nat);
        }
        p = p * 2;
        k = k + 1;
    }
    k
}

/// Power-of-two test.  The result agrees with `is_pow2` for every input;
/// the body is the classic mask trick `x & (x - 1) == 0`.
pub fn _ispowerof2(x: u32) -> (r: bool)
    ensures
        r == is_pow2(x as int),
{
    proof {
        if x > 0 {
            lemma_mask_trick_is_pow2(x);
        } else {
            reveal(is_pow2);
        }
    }
    if (x > 0) && ((x & (x - 1)) == 0) {
        true
    } else {
        false
    }
}

/// For positive `x`, clearing the lowest set bit yields zero exactly when
/// `x` is a power of two.
proof fn lemma_mask_trick_is_pow2(x: u32)
    requires
        x > 0,
    ensures
        ((x & ((x - 1) as u32)) == 0) <==> is_pow2(x as int),
    decreases x,
{
    reveal(is_pow2);
    if x == 1 {
        assert((1u32 & 0u32) == 0) by (bit_vector);
    } else {
        let h: u32 = (x / 2) as u32;
        assert(x % 2 == 1 ==> (x & ((x - 1) as u32)) != 0) by (bit_vector)
            requires
                x > 1,
        ;
        assert(x % 2 == 0 ==> (((x & ((x - 1) as u32)) == 0) <==> ((h & ((h - 1) as u32))
            == 0))) by (bit_vector)
            requires
                x > 1,
                h == x / 2,
        ;
        if x % 2 == 0 {
            lemma_mask_trick_is_pow2(h);
        }
    }
}

/// `pow2(x)` for exponents 1 through 30; zero outside that range, exactly as
/// the FFT sizing code expects.
pub fn _power2(x: u32) -> (r: u32)
    ensures
        1 <= x < 31 ==> r == pow2(x as nat),
        (x == 0 || x >= 31) ==> r == 0,
{
    if x > 0 && x < 31 {
        proof {
            lemma2_to64();
            if x > 1 {
                lemma_pow2_strictly_increases(x as nat, 31);
            }
            assert(1u32 * pow2(x as nat) <= u32::MAX);
            lemma_u32_shl_is_mul(1u32, x);
        }
        1u32 << x
    } else {
        0
    }
}

/// The bit-reversal permutation table for a grid of `totalgridsize` entries:
/// entry `i` is the reversal of the low `numberofbits` bits of `i`.
pub fn get_reversed_bits(numberofbits: u32, totalgridsize: usize) -> (rbits: Vec<usize>)
    requires
        numberofbits <= 32,
    ensures
        rbits@.len() == totalgridsize,
        forall|i: int|
            0 <= i < totalgridsize ==> rbits@[i] == rev_bits(i as nat, numberofbits as nat),
{
    let mut rbits: Vec<usize> = Vec::new();
    let mut i: usize = 0;
    while i < totalgridsize
        invariant
            numberofbits <= 32,
            i <= totalgridsize,
            rbits@.len() == i,
            forall|j: int| 0 <= j < i ==> rbits@[j] == rev_bits(j as nat, numberofbits as nat),
        decreases totalgridsize - i,
    {
        let mut oldbits: usize = i;
        let mut newbits: usize = 0;
        let mut b: u32 = 0;
        proof {
            assert(pow2(0) == 1) by {
                lemma2_to64();
            }
        }
        while b < numberofbits
            invariant
                b <= numberofbits <= 32,
                newbits == rev_bits(i as nat, b as nat),
                newbits < pow2(b as nat),
                oldbits == i as nat / pow2(b as nat),
            decreases numberofbits - b,
        {
            proof {
                lemma_rev_bits_step(i as nat, b as nat);
                lemma_pow2_unfold((b + 1) as nat);
                lemma_pow2_pos(b as nat);
                assert(pow2(32) == 0x1_0000_0000) by {
                    lemma2_to64();
                }
                if b + 1 < 32 {
                    lemma_pow2_strictly_increases((b + 1) as nat, 32);
                }
                assert(pow2((b + 1) as nat) <= 0x1_0000_0000);
                assert(2 * newbits + (oldbits % 2) < pow2((b + 1) as nat));
                // usize holds at least 32 bits, so the accumulator cannot overflow.
                assert(2 * newbits + (oldbits % 2) <= usize::MAX);
                lemma_div_denominator(i as int, pow2(b as nat) as int, 2);
                assert(pow2(b as nat) * 2 == pow2((b + 1) as nat));
            }
            newbits = newbits * 2 + (oldbits % 2);
            oldbits = oldbits / 2;
            b = b + 1;
        }
        rbits.push(newbits);
        i = i + 1;
    }
    rbits
}

} // verus!
