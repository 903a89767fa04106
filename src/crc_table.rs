//! Lookup tables for the reflected, table-driven 16-bit CRC.
use vstd::prelude::*;

verus! {

/// One shift-and-conditional-XOR step of the reflected bitwise CRC.
pub open spec fn crc_shift(polynomial: u16, value: u16) -> u16 {
    if value & 1 == 1 {
        (value >> 1u16) ^ polynomial
    } else {
        value >> 1u16
    }
}

/// `value` after `n` steps of [`crc_shift`].
pub open spec fn crc_shifts(polynomial: u16, value: u16, n: nat) -> u16
    decreases n,
{
    if n == 0 {
        value
    } else {
        crc_shifts(polynomial, crc_shift(polynomial, value), (n - 1) as nat)
    }
}

/// Entry `index` of the table: the byte `index` run through eight steps.
pub open spec fn lut_entry(polynomial: u16, index: int) -> u16 {
    crc_shifts(polynomial, index as u16, 8)
}

/// The whole 256-entry table for `polynomial`.
pub open spec fn lut_spec(polynomial: u16) -> Seq<u16> {
    Seq::new(256, |i: int| lut_entry(polynomial, i))
}

/// Builds the 256-entry lookup table of the reflected CRC for `polynomial`.
pub fn create_crc_lut(polynomial: u16) -> (table: [u16; 256])
    ensures
        table@ == lut_spec(polynomial),
{
    let mut table: [u16; 256] = [0u16; 256];
    let mut i: usize = 0;
    while i < 256
        invariant
            i <= 256,
            table@.len() == 256,
            forall|k: int| 0 <= k < i ==> table@[k] == lut_entry(polynomial, k),
        decreases 256 - i,
    {
        let mut value: u16 = i as u16;
        let mut bit: usize = 0;
        while bit < 8
            invariant
                i < 256,
                bit <= 8,
                crc_shifts(polynomial, value, (8 - bit) as nat) == lut_entry(polynomial, i as int),
            decreases 8 - bit,
        {
            if value & 1 == 1 {
                value = (value >> 1u16) ^ polynomial;
            } else {
                value = value >> 1u16;
            }
            bit = bit + 1;
        }
        table[i] = value;
        i = i + 1;
    }
    assert(table@ =~= lut_spec(polynomial));
    table
}

/// Whatever the polynomial, a table entry for zero is zero: a zero value has
/// no low bit set, so no step ever XORs the polynomial in.
pub proof fn lut_entry_zero(polynomial: u16)
    ensures
        lut_spec(polynomial)[0] == 0,
{
    lemma_shifts_of_zero(polynomial, 8);
}

proof fn lemma_shifts_of_zero(polynomial: u16, n: nat)
    ensures
        crc_shifts(polynomial, 0, n) == 0,
    decreases n,
{
    if n > 0 {
        assert(crc_shift(polynomial, 0) == 0) by (bit_vector);
        lemma_shifts_of_zero(polynomial, (n - 1) as nat);
    }
}

} // verus!
