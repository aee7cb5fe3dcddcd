//! CRC-16-CCITT: polynomial 0x1021, initial state chosen by the caller,
//! no reflection and no final xor.

use vstd::prelude::*;

verus! {

/// One step of the shift register: the top bit leaves, and where it was set
/// the polynomial is folded in.
pub open spec fn crc_shift_bit(crc: u16) -> u16 {
    if crc & 0x8000 != 0 {
        (crc << 1) ^ 0x1021
    } else {
        crc << 1
    }
}

/// `n` steps of the shift register.
pub open spec fn crc_shift_bits(crc: u16, n: nat) -> u16
    decreases n,
{
    if n == 0 {
        crc
    } else {
        crc_shift_bit(crc_shift_bits(crc, (n - 1) as nat))
    }
}

/// The state after one more byte: the byte enters at the top of the
/// register, which then shifts eight times.
pub open spec fn crc_byte(crc: u16, byte: u8) -> u16 {
    crc_shift_bits(crc ^ ((byte as u16) << 8), 8)
}

/// The state after a sequence of bytes, starting from `crc`.
pub open spec fn crc_ccitt(crc: u16, bytes: Seq<u8>) -> u16
    decreases bytes.len(),
{
    if bytes.len() == 0 {
        crc
    } else {
        crc_byte(crc_ccitt(crc, bytes.drop_last()), bytes.last())
    }
}

/// Feeding `a` and then `b` is feeding `a + b`.
pub proof fn lemma_crc_concat(crc: u16, a: Seq<u8>, b: Seq<u8>)
    ensures
        crc_ccitt(crc, a + b) == crc_ccitt(crc_ccitt(crc, a), b),
    decreases b.len(),
{
    if b.len() == 0 {
        assert(a + b =~= a);
    } else {
        lemma_crc_concat(crc, a, b.drop_last());
        assert((a + b).drop_last() =~= a + b.drop_last());
        assert((a + b).last() == b.last());
    }
}

/// Advances a CRC state over one byte.
pub fn crc_update_byte(crc: u16, byte: u8) -> (next: u16)
    ensures
        next == crc_byte(crc, byte),
{
    let mut state: u16 = crc ^ ((byte as u16) << 8);
    let ghost entered = state;
    let mut bit: u8 = 0;
    while bit < 8
        invariant
            bit <= 8,
            state == crc_shift_bits(entered, bit as nat),
        decreases 8 - bit,
    {
        if state & 0x8000 != 0 {
            state = (state << 1) ^ 0x1021;
        } else {
            state = state << 1;
        }
        bit = bit + 1;
    }
    state
}

/// Advances a CRC state over a run of bytes.
pub fn crc_ccitt_generic(start: u16, input: &[u8]) -> (crc: u16)
    ensures
        crc == crc_ccitt(start, input@),
{
    let mut crc: u16 = start;
    let mut i: usize = 0;
    while i < input.len()
        invariant
            i <= input.len(),
            crc == crc_ccitt(start, input@.take(i as int)),
        decreases input.len() - i,
    {
        proof {
            let next = input@.take(i + 1);
            assert(next.drop_last() =~= input@.take(i as int));
            assert(next.last() == input@[i as int]);
        }
        crc = crc_update_byte(crc, input[i]);
        i = i + 1;
    }
    proof {
        assert(input@.take(i as int) =~= input@);
    }
    crc
}

} // verus!
