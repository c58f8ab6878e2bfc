//! The 64-bit register instantiation of the descriptor and the computation.

use vstd::prelude::*;

use crate::bitops::lemma_mask_values;
use crate::engine::AlgoCore;
use crate::model::{advance, advance_bits, finalized, start_reg, Params};
use crate::{Crc, CrcAlgo};

verus! {

impl CrcAlgo<u64> {
    /// The caller-supplied parameters this descriptor was built from.
    pub closed spec fn params(&self) -> Params {
        self.core.params@
    }

    /// The descriptor is as built: its core and its stored starting value
    /// agree with its parameters.
    pub closed spec fn wf(&self) -> bool {
        &&& self.core.wf()
        &&& self.core.params@.wbits == 64
        &&& self.init as u128 == start_reg(self.core.params@)
    }

    /// Builds the descriptor of the variant `(poly, width, init, xorout,
    /// reflect)`, including its lookup table.
    pub fn new(poly: u64, width: usize, init: u64, xorout: u64, reflect: bool) -> (r: Self)
        requires
            1 <= width <= 64,
        ensures
            r.wf(),
            r.params() == (Params {
                wbits: 64,
                width: width as nat,
                poly: poly as u128,
                init: init as u128,
                xorout: xorout as u128,
                reflect,
            }),
    {
        proof {
            lemma_mask_values();
        }
        let core = AlgoCore::make(
            64,
            0xffff_ffff_ffff_ffff,
            poly as u128,
            width,
            init as u128,
            xorout as u128,
            reflect,
        );
        proof {
            crate::bitops::lemma_start_reg_le(core.params@);
        }
        CrcAlgo { init: core.init as u64, core }
    }

    /// Advances the register across `data`, strictly left to right, and
    /// returns the finalized value as a convenience; the register keeps the
    /// unfinalized running state for further updates.
    pub fn update_crc(&self, crc: &mut u64, data: &[u8]) -> (r: u64)
        requires
            self.wf(),
        ensures
            *final(crc) as u128 == advance(self.params(), *old(crc) as u128, data@),
            r as u128 == finalized(self.params(), *final(crc) as u128),
    {
        proof {
            lemma_mask_values();
        }
        let reg = self.core.advance_slice(*crc as u128, data);
        *crc = reg as u64;
        let out = self.core.finish_of(reg);
        out as u64
    }

    /// Feeds the top `8 - offset` bits of `bits` into the register: the bits
    /// `0b01010000` with offset `3` mean `0b01010`. Only available when the
    /// variant is not reflected.
    pub fn update_bits_crc(&self, crc: &mut u64, bits: u8, offset: usize) -> (r: u64)
        requires
            self.wf(),
            !self.params().reflect,
            offset < 8,
        ensures
            *final(crc) as u128 == advance_bits(
                self.params(),
                *old(crc) as u128,
                bits,
                offset as nat,
            ),
            r as u128 == finalized(self.params(), *final(crc) as u128),
    {
        proof {
            lemma_mask_values();
        }
        let reg = self.core.advance_partial(*crc as u128, bits, offset);
        *crc = reg as u64;
        let out = self.core.finish_of(reg);
        out as u64
    }

    /// Reads the finalized value without touching the register.
    pub fn finish_crc(&self, crc: &u64) -> (r: u64)
        requires
            self.wf(),
        ensures
            r as u128 == finalized(self.params(), *crc as u128),
    {
        proof {
            lemma_mask_values();
        }
        let out = self.core.finish_of(*crc as u128);
        out as u64
    }

    /// Resets the register to the conditioned initial value.
    pub fn init_crc(&self, crc: &mut u64)
        requires
            self.wf(),
        ensures
            *final(crc) as u128 == start_reg(self.params()),
    {
        *crc = self.init;
    }
}

impl Crc<u64> {
    /// The caller-supplied parameters of this computation's variant.
    pub closed spec fn params(&self) -> Params {
        self.algo.params()
    }

    /// The live register, as a value of the model.
    pub closed spec fn reg(&self) -> u128 {
        self.crc as u128
    }

    /// The computation's descriptor is as built.
    pub closed spec fn wf(&self) -> bool {
        self.algo.wf()
    }

    /// Builds a computation for the variant `(poly, width, init, xorout,
    /// reflect)`; the register starts at the conditioned initial value.
    pub fn new(poly: u64, width: usize, init: u64, xorout: u64, reflect: bool) -> (r: Self)
        requires
            1 <= width <= 64,
        ensures
            r.wf(),
            r.params() == (Params {
                wbits: 64,
                width: width as nat,
                poly: poly as u128,
                init: init as u128,
                xorout: xorout as u128,
                reflect,
            }),
            r.reg() == start_reg(r.params()),
    {
        let algo = CrcAlgo::<u64>::new(poly, width, init, xorout, reflect);
        Crc { crc: algo.init, algo }
    }

    /// Advances the register across `data` and returns the finalized value;
    /// accumulation continues across calls.
    pub fn update(&mut self, data: &[u8]) -> (r: u64)
        requires
            old(self).wf(),
        ensures
            final(self).wf(),
            final(self).params() == old(self).params(),
            final(self).reg() == advance(old(self).params(), old(self).reg(), data@),
            r as u128 == finalized(old(self).params(), final(self).reg()),
    {
        self.algo.update_crc(&mut self.crc, data)
    }

    /// Feeds the top `8 - offset` bits of `bits` into the register. Only
    /// available when the variant is not reflected.
    pub fn update_bits(&mut self, bits: u8, offset: usize) -> (r: u64)
        requires
            old(self).wf(),
            !old(self).params().reflect,
            offset < 8,
        ensures
            final(self).wf(),
            final(self).params() == old(self).params(),
            final(self).reg() == advance_bits(
                old(self).params(),
                old(self).reg(),
                bits,
                offset as nat,
            ),
            r as u128 == finalized(old(self).params(), final(self).reg()),
    {
        self.algo.update_bits_crc(&mut self.crc, bits, offset)
    }

    /// Reads the finalized value without consuming the register.
    pub fn finish(&self) -> (r: u64)
        requires
            self.wf(),
        ensures
            r as u128 == finalized(self.params(), self.reg()),
    {
        self.algo.finish_crc(&self.crc)
    }

    /// Resets the register to the conditioned initial value, restoring the
    /// state of a freshly built computation.
    pub fn init(&mut self)
        requires
            old(self).wf(),
        ensures
            final(self).wf(),
            final(self).params() == old(self).params(),
            final(self).reg() == start_reg(old(self).params()),
    {
        self.crc = self.algo.init;
    }
}

} // verus!
