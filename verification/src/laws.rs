//! The laws of the engine, stated over the model once for every register
//! width: what `update`, `finish` and `init` of the width impls ensure is
//! exactly `advance`, `finalized` and `start_reg`, so each law below
//! transfers to any sequence of calls on a descriptor or a computation. They
//! cover the streaming behavior (determinism, chunk concatenation, repeatable
//! finalization, reset, empty input) and the correctness of the memoized
//! lookup table against bit-serial polynomial division.

use vstd::prelude::*;

use crate::bitops::{
    lemma_mask_closed, lemma_mask_full, lemma_run_low_clear, lemma_run_steps_linear,
    lemma_run_top_clear,
};
use crate::model::{
    advance, advance_bits, byte_step, cond_poly, finalized, mask, params_ok, rev_bits, run_steps,
    start_reg, table_entry, Params,
};

verus! {

/// Determinism: two runs over equal inputs from equal starting registers
/// leave equal registers and read equal checksums.
pub proof fn lemma_deterministic(p: Params, reg1: u128, reg2: u128, data1: Seq<u8>, data2: Seq<u8>)
    requires
        reg1 == reg2,
        data1 == data2,
    ensures
        advance(p, reg1, data1) == advance(p, reg2, data2),
        finalized(p, advance(p, reg1, data1)) == finalized(p, advance(p, reg2, data2)),
{
}

/// Chunk concatenation: absorbing `a` and then `b` leaves the register that
/// absorbing `a + b` in one piece leaves.
pub proof fn lemma_update_chunks(p: Params, reg: u128, a: Seq<u8>, b: Seq<u8>)
    ensures
        advance(p, advance(p, reg, a), b) == advance(p, reg, a + b),
    decreases a.len(),
{
    if a.len() == 0 {
        assert(a + b =~= b);
    } else {
        assert((a + b).drop_first() =~= a.drop_first() + b);
        assert((a + b)[0] == a[0]);
        lemma_update_chunks(p, byte_step(p, reg, a[0]), a.drop_first(), b);
    }
}

/// Idempotent finalization: two reads of the same register, with no update in
/// between, return the same value.
pub proof fn lemma_finalize_idempotent(p: Params, reg: u128, r1: u128, r2: u128)
    requires
        r1 == finalized(p, reg),
        r2 == finalized(p, reg),
    ensures
        r1 == r2,
{
}

/// Reset correctness: a register reset to the starting value behaves, on all
/// further input, exactly like the register of a freshly built computation.
pub proof fn lemma_reset_fresh(p: Params, after_reset: u128, fresh: u128, data: Seq<u8>)
    requires
        after_reset == start_reg(p),
        fresh == start_reg(p),
    ensures
        advance(p, after_reset, data) == advance(p, fresh, data),
        finalized(p, advance(p, after_reset, data)) == finalized(p, advance(p, fresh, data)),
{
}

/// Empty input: absorbing no bytes leaves any register unchanged, so the
/// checksum after an empty update is the checksum of the register as it was.
pub proof fn lemma_empty_update(p: Params, reg: u128)
    ensures
        advance(p, reg, Seq::<u8>::empty()) == reg,
{
}

/// The lookup table is a faithful memoization: absorbing one byte through the
/// table equals xoring the byte into the register (into the low byte when
/// reflected, into the top byte otherwise) and running eight rounds of
/// polynomial division.
pub proof fn lemma_byte_step_is_eight_rounds(p: Params, reg: u128, b: u8)
    requires
        params_ok(p),
        reg <= mask(p.wbits),
    ensures
        p.reflect ==> byte_step(p, reg, b) == run_steps(
            cond_poly(p),
            p.wbits,
            true,
            reg ^ (b as u128),
            8,
        ),
        !p.reflect ==> byte_step(p, reg, b) == run_steps(
            cond_poly(p),
            p.wbits,
            false,
            reg ^ ((b as u128) << ((p.wbits - 8) as u128)),
            8,
        ),
{
    let w = p.wbits;
    let pc = cond_poly(p);
    let bu: u128 = b as u128;
    if p.reflect {
        let low8: u128 = reg & 0xff;
        let high: u128 = reg ^ low8;
        let t2: u128 = low8 ^ bu;
        let i2: u8 = ((reg & 0xff) as u8) ^ b;
        assert(reg ^ bu == high ^ t2 && high & 0xff == 0 && high >> 8u128 == reg >> 8u128 && (
        i2 as u128) == t2) by (bit_vector)
            requires
                low8 == reg & 0xff,
                high == reg ^ low8,
                t2 == low8 ^ bu,
                i2 == ((reg & 0xff) as u8) ^ b,
                bu == b as u128,
        ;
        lemma_run_steps_linear(pc, w, true, high, t2, 8);
        lemma_run_low_clear(pc, w, high, 8);
    } else {
        let m = mask(w);
        let s: u128 = (w - 8) as u128;
        let top: u128 = (reg >> s) & 0xff;
        let low: u128 = reg ^ (top << s);
        let t2: u128 = top ^ bu;
        let i2: u8 = (((reg >> s) & 0xff) as u8) ^ b;
        assert(reg ^ (bu << s) == low ^ (t2 << s) && (i2 as u128) == t2) by (bit_vector)
            requires
                top == (reg >> s) & 0xff,
                low == reg ^ (top << s),
                t2 == top ^ bu,
                i2 == (((reg >> s) & 0xff) as u8) ^ b,
                bu == b as u128,
        ;
        if w == 128 {
            lemma_mask_full();
            assert(low >> s == 0 && ((low << 8u128)
                & 0xffff_ffff_ffff_ffff_ffff_ffff_ffff_ffffu128) == ((reg << 8u128)
                & 0xffff_ffff_ffff_ffff_ffff_ffff_ffff_ffffu128) && ((t2 << s)
                & 0xffff_ffff_ffff_ffff_ffff_ffff_ffff_ffffu128) == (t2 << s)) by (bit_vector)
                requires
                    s == 120,
                    top == (reg >> s) & 0xff,
                    low == reg ^ (top << s),
                    t2 == top ^ bu,
                    bu <= 0xff,
            ;
        } else {
            lemma_mask_closed(w);
            let ww: u128 = w as u128;
            assert(low >> s == 0 && ((low << 8u128) & (((1u128 << ww) - 1) as u128)) == ((reg
                << 8u128) & (((1u128 << ww) - 1) as u128)) && ((t2 << s) & (((1u128 << ww) - 1)
                as u128)) == (t2 << s)) by (bit_vector)
                requires
                    reg <= (1u128 << ww) - 1,
                    8 <= ww <= 127,
                    s == ww - 8,
                    top == (reg >> s) & 0xff,
                    low == reg ^ (top << s),
                    t2 == top ^ bu,
                    bu <= 0xff,
            ;
        }
        lemma_run_steps_linear(pc, w, false, low, t2 << s, 8);
        lemma_run_top_clear(pc, w, low, 8);
        assert(table_entry(p, i2) == run_steps(pc, w, false, ((i2 as u128) << s) & m, 8));
    }
}

/// Feeding a whole byte through the partial-bit update is exactly one byte
/// update: eight remaining rounds absorb the full byte.
pub proof fn lemma_update_bits_full_byte(p: Params, reg: u128, bits: u8)
    requires
        params_ok(p),
        !p.reflect,
        reg <= mask(p.wbits),
    ensures
        advance_bits(p, reg, bits, 0) == byte_step(p, reg, bits),
{
    assert(bits & (0xffu8 << 0u8) == bits) by (bit_vector);
    lemma_byte_step_is_eight_rounds(p, reg, bits);
}

/// The checksum of zero input bytes: for a width-significant initial value it
/// is the initial value itself (non-reflected) or its bit reversal within the
/// configured width (reflected), xored with the output mask.
pub proof fn lemma_zero_input_checksum(p: Params)
    requires
        params_ok(p),
        p.init <= mask(p.width),
    ensures
        finalized(p, start_reg(p)) == (if p.reflect {
            rev_bits(p.init, p.width)
        } else {
            p.init
        }) ^ p.xorout,
{
    if !p.reflect {
        let x = p.init;
        let w: u128 = p.width as u128;
        let s: u128 = (p.wbits - p.width) as u128;
        if p.width == p.wbits {
            if p.wbits == 128 {
                lemma_mask_full();
                assert((((x << 0u128) & 0xffff_ffff_ffff_ffff_ffff_ffff_ffff_ffffu128) >> 0u128)
                    == x) by (bit_vector);
            } else {
                lemma_mask_closed(p.width);
                assert(x <= (1u128 << w) - 1 && w <= 127 ==> (((x << 0u128) & (((1u128 << w) - 1)
                    as u128)) >> 0u128) == x) by (bit_vector);
            }
        } else {
            lemma_mask_closed(p.width);
            if p.wbits == 128 {
                lemma_mask_full();
                assert(x <= (1u128 << w) - 1 && w + s == 128 && 1 <= w <= 127 ==> (((x << s)
                    & 0xffff_ffff_ffff_ffff_ffff_ffff_ffff_ffffu128) >> s) == x) by (bit_vector);
            } else {
                lemma_mask_closed(p.wbits);
                let t: u128 = p.wbits as u128;
                assert(x <= (1u128 << w) - 1 && t == w + s && t <= 127 && s >= 1 ==> (((x << s)
                    & (((1u128 << t) - 1) as u128)) >> s) == x) by (bit_vector);
            }
        }
    }
}

} // verus!
