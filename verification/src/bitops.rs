//! Bit-level facts about `mask` and `rev_bits`, and range lemmas showing that
//! every register transformation of the model stays within `mask(wbits)`.

use vstd::prelude::*;

use crate::model::{
    byte_step, cond_poly, finalized, mask, params_ok, rev_bits, run_steps, start_reg, step_normal,
    step_reflected, table_entry, valid_wbits, Params,
};

verus! {

/// `mask(n)` in closed form, for all but the full register width.
pub proof fn lemma_mask_closed(n: nat)
    requires
        n <= 127,
    ensures
        mask(n) == (1u128 << (n as u128)) - 1,
    decreases n,
{
    if n == 0 {
        assert((1u128 << 0u128) == 1) by (bit_vector);
    } else {
        lemma_mask_closed((n - 1) as nat);
        let k: u128 = (n - 1) as u128;
        let m: u128 = n as u128;
        assert(((((1u128 << k) - 1) as u128) << 1u128) | 1 == (1u128 << m) - 1) by (bit_vector)
            requires
                k <= 126,
                m == k + 1,
        ;
    }
}

/// The mask of a full 128-bit register is the all-ones value.
pub proof fn lemma_mask_full()
    ensures
        mask(128) == u128::MAX,
{
    lemma_mask_closed(127);
    assert(((((1u128 << 127u128) - 1) as u128) << 1u128) | 1 == u128::MAX) by (bit_vector);
}

/// The mask values at the five register widths.
pub proof fn lemma_mask_values()
    ensures
        mask(8) == 0xff,
        mask(16) == 0xffff,
        mask(32) == 0xffff_ffff,
        mask(64) == 0xffff_ffff_ffff_ffff,
        mask(128) == u128::MAX,
{
    lemma_mask_closed(8);
    lemma_mask_closed(16);
    lemma_mask_closed(32);
    lemma_mask_closed(64);
    lemma_mask_full();
    assert((1u128 << 8u128) - 1 == 0xff) by (bit_vector);
    assert((1u128 << 16u128) - 1 == 0xffff) by (bit_vector);
    assert((1u128 << 32u128) - 1 == 0xffff_ffff) by (bit_vector);
    assert((1u128 << 64u128) - 1 == 0xffff_ffff_ffff_ffff) by (bit_vector);
}

/// Masks of wider spans dominate masks of narrower spans.
pub proof fn lemma_mask_mono(a: nat, b: nat)
    requires
        a <= b <= 128,
    ensures
        mask(a) <= mask(b),
{
    if b == 128 {
        lemma_mask_full();
    } else {
        lemma_mask_closed(a);
        lemma_mask_closed(b);
        let i: u128 = a as u128;
        let j: u128 = b as u128;
        assert((1u128 << i) - 1 <= (1u128 << j) - 1) by (bit_vector)
            requires
                i <= j,
                j <= 127,
        ;
    }
}

/// Shifting right never increases a value.
pub proof fn lemma_shr_le(x: u128, s: u128)
    ensures
        (x >> s) <= x,
{
    assert((x >> s) <= x) by (bit_vector);
}

/// A bitwise and is bounded by its right operand.
pub proof fn lemma_and_le(x: u128, m: u128)
    ensures
        (x & m) <= m,
{
    assert((x & m) <= m) by (bit_vector);
}

/// Xor of two values below an all-ones mask stays below it.
pub proof fn lemma_xor_le_mask(x: u128, y: u128, n: nat)
    requires
        n <= 128,
        x <= mask(n),
        y <= mask(n),
    ensures
        (x ^ y) <= mask(n),
{
    if n <= 127 {
        lemma_mask_closed(n);
        let k: u128 = n as u128;
        assert((x ^ y) <= (1u128 << k) - 1) by (bit_vector)
            requires
                k <= 127,
                x <= (1u128 << k) - 1,
                y <= (1u128 << k) - 1,
        ;
    } else {
        lemma_mask_full();
    }
}

/// A reversal of `n` bits occupies at most `n` bits.
pub proof fn lemma_rev_le(x: u128, n: nat)
    requires
        n <= 128,
    ensures
        rev_bits(x, n) <= mask(n),
    decreases n,
{
    if n == 0 {
    } else if n == 128 {
        lemma_mask_full();
    } else {
        lemma_rev_le(x, (n - 1) as nat);
        lemma_mask_closed((n - 1) as nat);
        lemma_mask_closed(n);
        let k: u128 = (n - 1) as u128;
        let m: u128 = n as u128;
        let r = rev_bits(x, (n - 1) as nat);
        assert(((r << 1u128) | ((x >> k) & 1)) <= (1u128 << m) - 1) by (bit_vector)
            requires
                k <= 126,
                m == k + 1,
                r <= (1u128 << k) - 1,
        ;
    }
}

/// A byte value shifted into the top byte of a `w`-bit register fits in it.
pub proof fn lemma_byte_shifted_le(b: u128, w: nat)
    requires
        valid_wbits(w),
        b <= 0xff,
    ensures
        (b << ((w - 8) as u128)) <= mask(w),
{
    lemma_mask_values();
    if w == 8 {
        assert((b << 0u128) <= 0xff) by (bit_vector)
            requires
                b <= 0xff,
        ;
    } else if w == 16 {
        assert((b << 8u128) <= 0xffff) by (bit_vector)
            requires
                b <= 0xff,
        ;
    } else if w == 32 {
        assert((b << 24u128) <= 0xffff_ffff) by (bit_vector)
            requires
                b <= 0xff,
        ;
    } else if w == 64 {
        assert((b << 56u128) <= 0xffff_ffff_ffff_ffff) by (bit_vector)
            requires
                b <= 0xff,
        ;
    } else {
        assert((b << 120u128) <= u128::MAX) by (bit_vector);
    }
}

/// The conditioned polynomial fits in the register.
pub proof fn lemma_cond_poly_le(p: Params)
    requires
        params_ok(p),
    ensures
        cond_poly(p) <= mask(p.wbits),
{
    if p.reflect {
        lemma_rev_le(p.poly, p.width);
        lemma_mask_mono(p.width, p.wbits);
    } else {
        lemma_and_le(p.poly << ((p.wbits - p.width) as u128), mask(p.wbits));
    }
}

/// The starting register value fits in the register.
pub proof fn lemma_start_reg_le(p: Params)
    requires
        params_ok(p),
    ensures
        start_reg(p) <= mask(p.wbits),
{
    if p.reflect {
        lemma_rev_le(p.init, p.width);
        lemma_mask_mono(p.width, p.wbits);
    } else {
        lemma_and_le(p.init << ((p.wbits - p.width) as u128), mask(p.wbits));
    }
}

/// One reflected round keeps the register in range.
pub proof fn lemma_step_reflected_le(poly: u128, v: u128, n: nat)
    requires
        n <= 128,
        poly <= mask(n),
        v <= mask(n),
    ensures
        step_reflected(poly, v) <= mask(n),
{
    lemma_shr_le(v, 1);
    lemma_xor_le_mask(v >> 1u128, poly, n);
}

/// One normal round keeps the register in range.
pub proof fn lemma_step_normal_le(poly: u128, v: u128, n: nat)
    requires
        n <= 128,
        poly <= mask(n),
    ensures
        step_normal(poly, n, v) <= mask(n),
{
    lemma_and_le(v << 1u128, mask(n));
    lemma_xor_le_mask((v << 1u128) & mask(n), poly, n);
}

/// Any number of rounds keeps the register in range.
pub proof fn lemma_run_steps_le(poly: u128, wbits: nat, reflect: bool, v: u128, n: nat)
    requires
        wbits <= 128,
        poly <= mask(wbits),
        v <= mask(wbits),
    ensures
        run_steps(poly, wbits, reflect, v, n) <= mask(wbits),
    decreases n,
{
    if n > 0 {
        lemma_run_steps_le(poly, wbits, reflect, v, (n - 1) as nat);
        let prev = run_steps(poly, wbits, reflect, v, (n - 1) as nat);
        if reflect {
            lemma_step_reflected_le(poly, prev, wbits);
        } else {
            lemma_step_normal_le(poly, prev, wbits);
        }
    }
}

/// Every table entry fits in the register.
pub proof fn lemma_table_entry_le(p: Params, i: u8)
    requires
        params_ok(p),
    ensures
        table_entry(p, i) <= mask(p.wbits),
{
    lemma_cond_poly_le(p);
    if p.reflect {
        lemma_mask_values();
        lemma_mask_mono(8, p.wbits);
        lemma_run_steps_le(cond_poly(p), p.wbits, true, i as u128, 8);
    } else {
        lemma_and_le((i as u128) << ((p.wbits - 8) as u128), mask(p.wbits));
        lemma_run_steps_le(
            cond_poly(p),
            p.wbits,
            false,
            ((i as u128) << ((p.wbits - 8) as u128)) & mask(p.wbits),
            8,
        );
    }
}

/// Absorbing a byte keeps the register in range.
pub proof fn lemma_byte_step_le(p: Params, reg: u128, b: u8)
    requires
        params_ok(p),
        reg <= mask(p.wbits),
    ensures
        byte_step(p, reg, b) <= mask(p.wbits),
{
    if p.reflect {
        let i: u8 = ((reg & 0xff) as u8) ^ b;
        lemma_table_entry_le(p, i);
        lemma_shr_le(reg, 8);
        lemma_xor_le_mask(reg >> 8u128, table_entry(p, i), p.wbits);
    } else {
        let i: u8 = (((reg >> ((p.wbits - 8) as u128)) & 0xff) as u8) ^ b;
        lemma_table_entry_le(p, i);
        lemma_and_le(reg << 8u128, mask(p.wbits));
        lemma_xor_le_mask((reg << 8u128) & mask(p.wbits), table_entry(p, i), p.wbits);
    }
}

/// One round of either convention distributes over xor: the shift is linear
/// and the conditional xor of the polynomial follows the xor of the tested
/// bits.
pub proof fn lemma_step_linear(poly: u128, wbits: nat, reflect: bool, x: u128, y: u128)
    requires
        1 <= wbits <= 128,
    ensures
        reflect ==> step_reflected(poly, x ^ y) == step_reflected(poly, x) ^ step_reflected(
            poly,
            y,
        ),
        !reflect ==> step_normal(poly, wbits, x ^ y) == step_normal(poly, wbits, x) ^ step_normal(
            poly,
            wbits,
            y,
        ),
{
    if reflect {
        assert((if (x ^ y) & 1 == 1 {
            ((x ^ y) >> 1u128) ^ poly
        } else {
            (x ^ y) >> 1u128
        }) == (if x & 1 == 1 {
            (x >> 1u128) ^ poly
        } else {
            x >> 1u128
        }) ^ (if y & 1 == 1 {
            (y >> 1u128) ^ poly
        } else {
            y >> 1u128
        })) by (bit_vector);
    } else {
        let m = mask(wbits);
        let s: u128 = (wbits - 1) as u128;
        assert((if ((x ^ y) >> s) & 1 == 1 {
            (((x ^ y) << 1u128) & m) ^ poly
        } else {
            ((x ^ y) << 1u128) & m
        }) == (if (x >> s) & 1 == 1 {
            ((x << 1u128) & m) ^ poly
        } else {
            ((x << 1u128) & m)
        }) ^ (if (y >> s) & 1 == 1 {
            ((y << 1u128) & m) ^ poly
        } else {
            ((y << 1u128) & m)
        })) by (bit_vector);
    }
}

/// Any number of rounds distributes over xor.
pub proof fn lemma_run_steps_linear(
    poly: u128,
    wbits: nat,
    reflect: bool,
    x: u128,
    y: u128,
    n: nat,
)
    requires
        1 <= wbits <= 128,
    ensures
        run_steps(poly, wbits, reflect, x ^ y, n) == run_steps(poly, wbits, reflect, x, n)
            ^ run_steps(poly, wbits, reflect, y, n),
    decreases n,
{
    if n > 0 {
        lemma_run_steps_linear(poly, wbits, reflect, x, y, (n - 1) as nat);
        lemma_step_linear(
            poly,
            wbits,
            reflect,
            run_steps(poly, wbits, reflect, x, (n - 1) as nat),
            run_steps(poly, wbits, reflect, y, (n - 1) as nat),
        );
    }
}

/// On a register whose top byte is clear, up to eight normal rounds only
/// shift: the polynomial is never xored in.
pub proof fn lemma_run_top_clear(poly: u128, wbits: nat, v: u128, k: nat)
    requires
        valid_wbits(wbits),
        v >> ((wbits - 8) as u128) == 0,
        k <= 8,
    ensures
        run_steps(poly, wbits, false, v, k) == (v << (k as u128)) & mask(wbits),
    decreases k,
{
    let s8: u128 = (wbits - 8) as u128;
    if k == 0 {
        if wbits == 128 {
            lemma_mask_full();
            assert((v << 0u128) & 0xffff_ffff_ffff_ffff_ffff_ffff_ffff_ffffu128 == v)
                by (bit_vector);
        } else {
            lemma_mask_closed(wbits);
            let w: u128 = wbits as u128;
            assert((v << 0u128) & (((1u128 << w) - 1) as u128) == v) by (bit_vector)
                requires
                    v >> s8 == 0,
                    s8 == w - 8,
                    8 <= w <= 127,
            ;
        }
    } else {
        lemma_run_top_clear(poly, wbits, v, (k - 1) as nat);
        let j: u128 = (k - 1) as u128;
        let j2: u128 = k as u128;
        let s1: u128 = (wbits - 1) as u128;
        if wbits == 128 {
            lemma_mask_full();
            assert((if (((v << j) & 0xffff_ffff_ffff_ffff_ffff_ffff_ffff_ffffu128) >> 127u128) & 1
                == 1 {
                ((((v << j) & 0xffff_ffff_ffff_ffff_ffff_ffff_ffff_ffffu128) << 1u128)
                    & 0xffff_ffff_ffff_ffff_ffff_ffff_ffff_ffffu128) ^ poly
            } else {
                (((v << j) & 0xffff_ffff_ffff_ffff_ffff_ffff_ffff_ffffu128) << 1u128)
                    & 0xffff_ffff_ffff_ffff_ffff_ffff_ffff_ffffu128
            }) == (v << j2) & 0xffff_ffff_ffff_ffff_ffff_ffff_ffff_ffffu128) by (bit_vector)
                requires
                    v >> 120u128 == 0,
                    j <= 7,
                    j2 == j + 1,
            ;
        } else {
            lemma_mask_closed(wbits);
            let w: u128 = wbits as u128;
            assert((if (((v << j) & (((1u128 << w) - 1) as u128)) >> s1) & 1 == 1 {
                ((((v << j) & (((1u128 << w) - 1) as u128)) << 1u128) & (((1u128 << w) - 1)
                    as u128)) ^ poly
            } else {
                (((v << j) & (((1u128 << w) - 1) as u128)) << 1u128) & (((1u128 << w) - 1) as u128)
            }) == (v << j2) & (((1u128 << w) - 1) as u128)) by (bit_vector)
                requires
                    v >> s8 == 0,
                    s8 == w - 8,
                    s1 == w - 1,
                    8 <= w <= 127,
                    j <= 7,
                    j2 == j + 1,
            ;
        }
    }
}

/// On a register whose low byte is clear, up to eight reflected rounds only
/// shift: the polynomial is never xored in.
pub proof fn lemma_run_low_clear(poly: u128, wbits: nat, v: u128, k: nat)
    requires
        v & 0xff == 0,
        k <= 8,
    ensures
        run_steps(poly, wbits, true, v, k) == v >> (k as u128),
    decreases k,
{
    if k == 0 {
        assert(v >> 0u128 == v) by (bit_vector);
    } else {
        lemma_run_low_clear(poly, wbits, v, (k - 1) as nat);
        let j: u128 = (k - 1) as u128;
        let j2: u128 = k as u128;
        assert((v >> j) & 1 == 0 && (v >> j) >> 1u128 == v >> j2) by (bit_vector)
            requires
                v & 0xff == 0,
                j <= 7,
                j2 == j + 1,
        ;
    }
}

/// The finalized checksum fits in the register.
pub proof fn lemma_finalized_le(p: Params, reg: u128)
    requires
        params_ok(p),
        reg <= mask(p.wbits),
    ensures
        finalized(p, reg) <= mask(p.wbits),
{
    lemma_shr_le(reg, (p.wbits - p.width) as u128);
    lemma_xor_le_mask(reg >> ((p.wbits - p.width) as u128), p.xorout, p.wbits);
    lemma_xor_le_mask(reg, p.xorout, p.wbits);
}

} // verus!
