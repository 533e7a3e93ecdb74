use vstd::prelude::*;

verus! {

/// Instruction family: bits 12..16 of the word.
pub open spec fn spec_nibble(w: u16) -> u8 {
    ((w >> 12) & 0xF) as u8
}

/// Register selector X: bits 8..12 of the word.
pub open spec fn spec_x(w: u16) -> usize {
    ((w >> 8) & 0xF) as usize
}

/// Register selector Y: bits 4..8 of the word.
pub open spec fn spec_y(w: u16) -> usize {
    ((w >> 4) & 0xF) as usize
}

/// Four-bit immediate: bits 0..4 of the word.
pub open spec fn spec_n(w: u16) -> u8 {
    (w & 0xF) as u8
}

/// Eight-bit immediate: bits 0..8 of the word.
pub open spec fn spec_nn(w: u16) -> u8 {
    (w & 0xFF) as u8
}

/// Twelve-bit address immediate: bits 0..12 of the word.
pub open spec fn spec_nnn(w: u16) -> u16 {
    w & 0xFFF
}

/// One decoded instruction word, split into the standard CHIP-8 fields.
/// The value is ephemeral: it is derived from one opcode word and never
/// outlives the cycle that fetched it.
pub struct Instruction {
    /// The raw 16-bit opcode word.
    pub instruction: u16,
    /// Bits 12..16: the instruction family.
    pub nibble: u8,
    /// Bits 8..12: index of register VX.
    pub x: usize,
    /// Bits 4..8: index of register VY.
    pub y: usize,
    /// Bits 0..4: four-bit immediate.
    pub n: u8,
    /// Bits 0..8: eight-bit immediate.
    pub nn: u8,
    /// Bits 0..12: twelve-bit address immediate.
    pub nnn: u16,
}

impl Instruction {
    /// The fields hold exactly the bit partitions of the stored word.
    pub open spec fn wf(&self) -> bool {
        &&& self.nibble == spec_nibble(self.instruction)
        &&& self.x == spec_x(self.instruction)
        &&& self.y == spec_y(self.instruction)
        &&& self.n == spec_n(self.instruction)
        &&& self.nn == spec_nn(self.instruction)
        &&& self.nnn == spec_nnn(self.instruction)
        &&& self.nibble < 16
        &&& self.x < 16
        &&& self.y < 16
        &&& self.n < 16
        &&& self.nnn < 0x1000
    }

    /// Decode a 16-bit opcode word. Total: every word decodes.
    pub fn new(inst: u16) -> (r: Self)
        ensures
            r.instruction == inst,
            r.wf(),
    {
        proof {
            assert(((inst >> 12) & 0xF) < 16) by (bit_vector);
            assert(((inst >> 8) & 0xF) < 16) by (bit_vector);
            assert(((inst >> 4) & 0xF) < 16) by (bit_vector);
            assert((inst & 0xF) < 16) by (bit_vector);
            assert((inst & 0xFFF) < 0x1000) by (bit_vector);
        }
        Instruction {
            instruction: inst,
            nibble: ((inst >> 12) & 0xF) as u8,
            x: ((inst >> 8) & 0xF) as usize,
            y: ((inst >> 4) & 0xF) as usize,
            n: (inst & 0xF) as u8,
            nn: (inst & 0xFF) as u8,
            nnn: inst & 0xFFF,
        }
    }
}

/// Law: decoding is a lossless partition of the word. The address field is
/// the low twelve bits, and reassembling the four nibble fields gives back
/// exactly the word that was decoded.
pub proof fn lemma_decode_lossless(w: u16)
    ensures
        spec_nnn(w) == w & 0x0FFF,
        ((spec_nibble(w) as u16) << 12) | ((spec_x(w) as u16) << 8)
            | ((spec_y(w) as u16) << 4) | (spec_n(w) as u16) == w,
{
    assert((((((w >> 12) & 0xF) as u8) as u16) << 12) | (((((w >> 8) & 0xF) as usize) as u16) << 8)
        | (((((w >> 4) & 0xF) as usize) as u16) << 4) | (((w & 0xF) as u8) as u16) == w)
        by (bit_vector);
}

} // verus!
