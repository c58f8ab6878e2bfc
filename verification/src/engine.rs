//! The width-independent core of the engine. All register arithmetic is done
//! in a `u128` carrier; the width impls in the sibling modules only cast their
//! register type from and to it.

use vstd::prelude::*;

use crate::bitops::{
    lemma_byte_shifted_le, lemma_byte_step_le, lemma_cond_poly_le, lemma_finalized_le,
    lemma_step_normal_le, lemma_xor_le_mask,
};
use crate::model::{
    advance, advance_bits, cond_poly, finalized, lemma_advance_push, mask, offset_bits, params_ok,
    rev_bits, run_steps, start_reg, table_entry, valid_wbits, Params,
};

verus! {

/// One CRC variant with every parameter conditioned into register position
/// and the derived 256-entry lookup table.
pub(crate) struct AlgoCore {
    /// The polynomial in register position.
    pub(crate) poly: u128,
    /// `wbits - width`, the number of padding bits.
    pub(crate) offset: usize,
    /// Bit width of the register type this core stands for.
    pub(crate) wbits: usize,
    /// The all-ones value of `wbits` bits.
    pub(crate) msk: u128,
    /// The starting register value.
    pub(crate) init: u128,
    /// The output mask, exactly as supplied.
    pub(crate) xorout: u128,
    /// The reflection convention.
    pub(crate) reflect: bool,
    /// The lookup table: entry `i` is byte value `i` run through eight rounds.
    pub(crate) table: Vec<u128>,
    /// The parameters this core was built from.
    pub(crate) params: Ghost<Params>,
}

impl AlgoCore {
    /// Every field agrees with the model of `params`.
    pub(crate) open spec fn wf(&self) -> bool {
        let p = self.params@;
        &&& params_ok(p)
        &&& self.wbits == p.wbits
        &&& self.offset == offset_bits(p)
        &&& self.msk == mask(p.wbits)
        &&& self.poly == cond_poly(p)
        &&& self.init == start_reg(p)
        &&& self.xorout == p.xorout
        &&& self.reflect == p.reflect
        &&& self.table@.len() == 256
        &&& (forall|i: int| 0 <= i < 256 ==> self.table@[i] == table_entry(p, i as u8))
    }

    /// Builds the core for one parameter set.
    pub(crate) fn make(
        wbits: usize,
        msk: u128,
        poly: u128,
        width: usize,
        init: u128,
        xorout: u128,
        reflect: bool,
    ) -> (c: AlgoCore)
        requires
            valid_wbits(wbits as nat),
            msk == mask(wbits as nat),
            1 <= width <= wbits,
            poly <= mask(wbits as nat),
            init <= mask(wbits as nat),
            xorout <= mask(wbits as nat),
        ensures
            c.wf(),
            c.params@ == (Params {
                wbits: wbits as nat,
                width: width as nat,
                poly,
                init,
                xorout,
                reflect,
            }),
    {
        let ghost p = Params {
            wbits: wbits as nat,
            width: width as nat,
            poly,
            init,
            xorout,
            reflect,
        };
        let offset = wbits - width;
        let pc: u128;
        let ic: u128;
        if reflect {
            pc = reverse_low(poly, width);
            ic = reverse_low(init, width);
        } else {
            pc = (poly << offset) & msk;
            ic = (init << offset) & msk;
        }
        let table = build_table(pc, wbits, msk, reflect, Ghost(p));
        AlgoCore { poly: pc, offset, wbits, msk, init: ic, xorout, reflect, table, params: Ghost(p) }
    }

    /// Advances a register across a byte slice, strictly left to right.
    pub(crate) fn advance_slice(&self, reg: u128, data: &[u8]) -> (r: u128)
        requires
            self.wf(),
            reg <= mask(self.params@.wbits),
        ensures
            r == advance(self.params@, reg, data@),
            r <= mask(self.params@.wbits),
    {
        let ghost p = self.params@;
        let mut cur = reg;
        let mut i: usize = 0;
        proof {
            assert(data@.take(0) =~= Seq::<u8>::empty());
        }
        if self.reflect {
            while i < data.len()
                invariant
                    self.wf(),
                    p == self.params@,
                    p.reflect,
                    i <= data@.len(),
                    reg <= mask(p.wbits),
                    cur == advance(p, reg, data@.take(i as int)),
                    cur <= mask(p.wbits),
                decreases data@.len() - i,
            {
                let b = data[i];
                let idx: u8 = ((cur & 0xff) as u8) ^ b;
                let e = self.table[idx as usize];
                proof {
                    lemma_byte_step_le(p, cur, b);
                    lemma_advance_push(p, reg, data@.take(i as int), b);
                    assert(data@.take(i as int).push(b) =~= data@.take(i + 1));
                }
                cur = (cur >> 8) ^ e;
                i = i + 1;
            }
        } else {
            let sh = self.wbits - 8;
            while i < data.len()
                invariant
                    self.wf(),
                    p == self.params@,
                    !p.reflect,
                    sh == p.wbits - 8,
                    i <= data@.len(),
                    reg <= mask(p.wbits),
                    cur == advance(p, reg, data@.take(i as int)),
                    cur <= mask(p.wbits),
                decreases data@.len() - i,
            {
                let b = data[i];
                let idx: u8 = (((cur >> sh) & 0xff) as u8) ^ b;
                let e = self.table[idx as usize];
                proof {
                    lemma_byte_step_le(p, cur, b);
                    lemma_advance_push(p, reg, data@.take(i as int), b);
                    assert(data@.take(i as int).push(b) =~= data@.take(i + 1));
                }
                cur = ((cur << 8) & self.msk) ^ e;
                i = i + 1;
            }
        }
        proof {
            assert(data@.take(data@.len() as int) =~= data@);
        }
        cur
    }

    /// Advances a register by the top `8 - off` bits of `bits`. Only for the
    /// non-reflected convention.
    pub(crate) fn advance_partial(&self, reg: u128, bits: u8, off: usize) -> (r: u128)
        requires
            self.wf(),
            !self.params@.reflect,
            off < 8,
            reg <= mask(self.params@.wbits),
        ensures
            r == advance_bits(self.params@, reg, bits, off as nat),
            r <= mask(self.params@.wbits),
    {
        let ghost p = self.params@;
        let mb: u8 = bits & (0xffu8 << off);
        let seed: u128 = reg ^ ((mb as u128) << (self.wbits - 8));
        proof {
            lemma_byte_shifted_le(mb as u128, p.wbits);
            lemma_xor_le_mask(reg, (mb as u128) << ((p.wbits - 8) as u128), p.wbits);
            lemma_cond_poly_le(p);
        }
        let mut v = seed;
        let mut k: usize = off;
        while k < 8
            invariant
                self.wf(),
                p == self.params@,
                !p.reflect,
                off <= k <= 8,
                v == run_steps(cond_poly(p), p.wbits, false, seed, (k - off) as nat),
                v <= mask(p.wbits),
            decreases 8 - k,
        {
            proof {
                lemma_cond_poly_le(p);
                lemma_step_normal_le(self.poly, v, p.wbits);
            }
            if (v >> (self.wbits - 1)) & 1 == 1 {
                v = ((v << 1) & self.msk) ^ self.poly;
            } else {
                v = (v << 1) & self.msk;
            }
            k = k + 1;
        }
        v
    }

    /// Reads the finalized checksum from a register, without changing it.
    pub(crate) fn finish_of(&self, reg: u128) -> (r: u128)
        requires
            self.wf(),
            reg <= mask(self.params@.wbits),
        ensures
            r == finalized(self.params@, reg),
            r <= mask(self.params@.wbits),
    {
        proof {
            lemma_finalized_le(self.params@, reg);
        }
        if self.reflect {
            reg ^ self.xorout
        } else {
            (reg >> self.offset) ^ self.xorout
        }
    }
}

/// Reverses the low `n` bits of `x`; bits of `x` at or above `n` are ignored.
fn reverse_low(x: u128, n: usize) -> (r: u128)
    requires
        1 <= n <= 128,
    ensures
        r == rev_bits(x, n as nat),
{
    let mut r: u128 = 0;
    let mut v: u128 = x;
    let mut i: usize = 0;
    proof {
        assert(x >> 0u128 == x) by (bit_vector);
    }
    while i < n
        invariant
            i <= n <= 128,
            r == rev_bits(x, i as nat),
            v == x >> (i as u128),
        decreases n - i,
    {
        let ghost k: u128 = i as u128;
        let ghost m: u128 = (i + 1) as u128;
        r = (r << 1) | (v & 1);
        v = v >> 1;
        i = i + 1;
        proof {
            assert((x >> k) >> 1u128 == x >> m) by (bit_vector)
                requires
                    k <= 127,
                    m == k + 1,
            ;
        }
    }
    r
}

/// Builds the 256-entry lookup table from the conditioned polynomial.
fn build_table(poly: u128, wbits: usize, msk: u128, reflect: bool, Ghost(p): Ghost<Params>) -> (t:
    Vec<u128>)
    requires
        params_ok(p),
        wbits == p.wbits,
        msk == mask(p.wbits),
        poly == cond_poly(p),
        reflect == p.reflect,
    ensures
        t@.len() == 256,
        forall|i: int| 0 <= i < 256 ==> t@[i] == table_entry(p, i as u8),
{
    let mut t: Vec<u128> = Vec::new();
    let mut i: usize = 0;
    while i < 256
        invariant
            params_ok(p),
            wbits == p.wbits,
            msk == mask(p.wbits),
            poly == cond_poly(p),
            reflect == p.reflect,
            i <= 256,
            t@.len() == i,
            forall|j: int| 0 <= j < i ==> t@[j] == table_entry(p, j as u8),
        decreases 256 - i,
    {
        let seed: u128 = if reflect {
            i as u128
        } else {
            ((i as u128) << (wbits - 8)) & msk
        };
        let mut v: u128 = seed;
        let mut k: usize = 0;
        while k < 8
            invariant
                params_ok(p),
                wbits == p.wbits,
                msk == mask(p.wbits),
                poly == cond_poly(p),
                reflect == p.reflect,
                k <= 8,
                v == run_steps(poly, p.wbits, reflect, seed, k as nat),
            decreases 8 - k,
        {
            if reflect {
                if v & 1 == 1 {
                    v = (v >> 1) ^ poly;
                } else {
                    v = v >> 1;
                }
            } else {
                if (v >> (wbits - 1)) & 1 == 1 {
                    v = ((v << 1) & msk) ^ poly;
                } else {
                    v = (v << 1) & msk;
                }
            }
            k = k + 1;
        }
        t.push(v);
        i = i + 1;
    }
    t
}

} // verus!
