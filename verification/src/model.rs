//! The mathematical model of the CRC engine: the parameters of a variant and
//! the register transformations, stated over a 128-bit carrier.
//!
//! A register of `wbits` bits (8, 16, 32, 64 or 128) is modelled as a `u128`
//! that is at most `mask(wbits)`. In the reflected convention the meaningful
//! `width` bits live in the low end of the register; otherwise they live in
//! the top `width` bits, and the low `wbits - width` bits are padding.

use vstd::prelude::*;

verus! {

/// The caller-supplied parameters of one CRC variant, together with the bit
/// width of the register type they are instantiated at.
pub ghost struct Params {
    /// Bit width of the register type: 8, 16, 32, 64 or 128.
    pub wbits: nat,
    /// Number of meaningful CRC bits, between 1 and `wbits`.
    pub width: nat,
    /// Generator polynomial, exactly as the caller supplied it.
    pub poly: u128,
    /// Initial register value, exactly as the caller supplied it.
    pub init: u128,
    /// Mask xored into the finalized result; never touches the live register.
    pub xorout: u128,
    /// When true, bytes and the result are taken least-significant-bit first.
    pub reflect: bool,
}

/// The register widths the library is instantiated at.
pub open spec fn valid_wbits(w: nat) -> bool {
    w == 8 || w == 16 || w == 32 || w == 64 || w == 128
}

/// The value whose low `n` bits are set and all others clear.
pub open spec fn mask(n: nat) -> u128
    decreases n,
{
    if n == 0 {
        0
    } else {
        (mask((n - 1) as nat) << 1u128) | 1
    }
}

/// The low `n` bits of `x`, in reverse order.
pub open spec fn rev_bits(x: u128, n: nat) -> u128
    decreases n,
{
    if n == 0 {
        0
    } else {
        (rev_bits(x, (n - 1) as nat) << 1u128) | ((x >> ((n - 1) as u128)) & 1)
    }
}

/// The parameters a descriptor can be built from. The three value parameters
/// are only bounded by the register type they arrive in; bits of `poly` and
/// `init` above `width` are ignored by the conditioning below, exactly as the
/// corresponding shifts discard them in the register.
pub open spec fn params_ok(p: Params) -> bool {
    &&& valid_wbits(p.wbits)
    &&& 1 <= p.width <= p.wbits
    &&& p.poly <= mask(p.wbits)
    &&& p.init <= mask(p.wbits)
    &&& p.xorout <= mask(p.wbits)
}

/// Number of padding bits between the configured width and the register width.
pub open spec fn offset_bits(p: Params) -> nat {
    (p.wbits - p.width) as nat
}

/// The polynomial brought into register position: reversed within `width`
/// bits under the reflected convention, shifted into the top bits otherwise.
pub open spec fn cond_poly(p: Params) -> u128 {
    if p.reflect {
        rev_bits(p.poly, p.width)
    } else {
        (p.poly << (offset_bits(p) as u128)) & mask(p.wbits)
    }
}

/// The starting register value: `init` brought into register position the
/// same way the polynomial is.
pub open spec fn start_reg(p: Params) -> u128 {
    if p.reflect {
        rev_bits(p.init, p.width)
    } else {
        (p.init << (offset_bits(p) as u128)) & mask(p.wbits)
    }
}

/// One round of polynomial division, least-significant-bit first.
pub open spec fn step_reflected(poly: u128, v: u128) -> u128 {
    if v & 1 == 1 {
        (v >> 1u128) ^ poly
    } else {
        v >> 1u128
    }
}

/// One round of polynomial division, most-significant-bit first, in a
/// register of `wbits` bits.
pub open spec fn step_normal(poly: u128, wbits: nat, v: u128) -> u128 {
    if (v >> ((wbits - 1) as u128)) & 1 == 1 {
        ((v << 1u128) & mask(wbits)) ^ poly
    } else {
        (v << 1u128) & mask(wbits)
    }
}

/// `n` rounds of polynomial division in the chosen convention.
pub open spec fn run_steps(poly: u128, wbits: nat, reflect: bool, v: u128, n: nat) -> u128
    decreases n,
{
    if n == 0 {
        v
    } else {
        let prev = run_steps(poly, wbits, reflect, v, (n - 1) as nat);
        if reflect {
            step_reflected(poly, prev)
        } else {
            step_normal(poly, wbits, prev)
        }
    }
}

/// Entry `i` of the 256-entry lookup table: the byte value `i`, seeded in the
/// low byte (reflected) or the top byte (normal), run through eight rounds.
pub open spec fn table_entry(p: Params, i: u8) -> u128 {
    if p.reflect {
        run_steps(cond_poly(p), p.wbits, true, i as u128, 8)
    } else {
        run_steps(
            cond_poly(p),
            p.wbits,
            false,
            ((i as u128) << ((p.wbits - 8) as u128)) & mask(p.wbits),
            8,
        )
    }
}

/// The register after absorbing one input byte through the lookup table.
pub open spec fn byte_step(p: Params, reg: u128, b: u8) -> u128 {
    if p.reflect {
        (reg >> 8u128) ^ table_entry(p, ((reg & 0xff) as u8) ^ b)
    } else {
        ((reg << 8u128) & mask(p.wbits)) ^ table_entry(
            p,
            (((reg >> ((p.wbits - 8) as u128)) & 0xff) as u8) ^ b,
        )
    }
}

/// The register after absorbing a byte sequence, strictly left to right.
pub open spec fn advance(p: Params, reg: u128, data: Seq<u8>) -> u128
    decreases data.len(),
{
    if data.len() == 0 {
        reg
    } else {
        advance(p, byte_step(p, reg, data[0]), data.drop_first())
    }
}

/// The register after absorbing the top `8 - off` bits of `bits`: those bits
/// are xored into the top byte of the register and the remaining rounds of a
/// full byte are run. Only defined for the non-reflected convention.
pub open spec fn advance_bits(p: Params, reg: u128, bits: u8, off: nat) -> u128 {
    run_steps(
        cond_poly(p),
        p.wbits,
        false,
        reg ^ (((bits & (0xffu8 << off)) as u128) << ((p.wbits - 8) as u128)),
        (8 - off) as nat,
    )
}

/// The finalized checksum read, without side effect, from a register.
pub open spec fn finalized(p: Params, reg: u128) -> u128 {
    if p.reflect {
        reg ^ p.xorout
    } else {
        (reg >> (offset_bits(p) as u128)) ^ p.xorout
    }
}

/// Absorbing one more byte at the end of a sequence is one more byte step.
pub proof fn lemma_advance_push(p: Params, reg: u128, s: Seq<u8>, b: u8)
    ensures
        advance(p, reg, s.push(b)) == byte_step(p, advance(p, reg, s), b),
    decreases s.len(),
{
    if s.len() == 0 {
        assert(s.push(b).drop_first() =~= Seq::<u8>::empty());
        assert(s.push(b)[0] == b);
        assert(advance(p, reg, s.push(b)) == advance(
            p,
            byte_step(p, reg, b),
            Seq::<u8>::empty(),
        ));
    } else {
        assert(s.push(b).drop_first() =~= s.drop_first().push(b));
        assert(s.push(b)[0] == s[0]);
        lemma_advance_push(p, byte_step(p, reg, s[0]), s.drop_first(), b);
        assert(advance(p, reg, s.push(b)) == advance(
            p,
            byte_step(p, reg, s[0]),
            s.drop_first().push(b),
        ));
        assert(advance(p, reg, s) == advance(p, byte_step(p, reg, s[0]), s.drop_first()));
    }
}

} // verus!
