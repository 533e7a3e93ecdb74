use vstd::prelude::*;
use crate::quirks::Quirks;

verus! {

/// The mathematical model of the whole machine: the view that every
/// contract speaks about. Memory is 4096 bytes, the register file holds
/// sixteen 8-bit values, the framebuffer is the 64x32 pixel grid stored
/// row-major (index = row * 64 + column), and the call stack holds sixteen
/// return addresses with the stack pointer always in [0, 16).
#[verifier::ext_equal]
pub ghost struct VmView {
    pub mem: Seq<u8>,
    pub regs: Seq<u8>,
    pub i: u16,
    pub pc: u16,
    pub fb: Seq<bool>,
    pub stack: Seq<u16>,
    pub sp: int,
    pub delay: u8,
    pub sound: u8,
    pub keys: Seq<bool>,
    pub draw: bool,
    pub waiting: bool,
    pub wait_key: int,
    pub quirks: Quirks,
}

impl VmView {
    /// Well-formedness: the fixed geometry of the machine.
    pub open spec fn wf(self) -> bool {
        &&& self.mem.len() == 4096
        &&& self.regs.len() == 16
        &&& self.fb.len() == 2048
        &&& self.stack.len() == 16
        &&& 0 <= self.sp < 16
        &&& self.keys.len() == 16
        &&& 0 <= self.wait_key < 16
    }
}

/// The built-in font table: 16 glyphs of 5 bytes each, resident at offset
/// 0x50 from power-on and addressed by FX29.
pub open spec fn spec_fontset() -> Seq<u8> {
    seq![
        0xF0u8, 0x90, 0x90, 0x90, 0xF0, // 0
        0x20, 0x60, 0x20, 0x20, 0x70, // 1
        0xF0, 0x10, 0xF0, 0x80, 0xF0, // 2
        0xF0, 0x10, 0xF0, 0x10, 0xF0, // 3
        0x90, 0x90, 0xF0, 0x10, 0x10, // 4
        0xF0, 0x80, 0xF0, 0x10, 0xF0, // 5
        0xF0, 0x80, 0xF0, 0x90, 0xF0, // 6
        0xF0, 0x10, 0x20, 0x40, 0x40, // 7
        0xF0, 0x90, 0xF0, 0x90, 0xF0, // 8
        0xF0, 0x90, 0xF0, 0x10, 0xF0, // 9
        0xF0, 0x90, 0xF0, 0x90, 0x90, // A
        0xE0, 0x90, 0xE0, 0x90, 0xE0, // B
        0xF0, 0x80, 0x80, 0x80, 0xF0, // C
        0xE0, 0x90, 0x90, 0x90, 0xE0, // D
        0xF0, 0x80, 0xF0, 0x80, 0xF0, // E
        0xF0, 0x80, 0xF0, 0x80, 0x80, // F
    ]
}

/// The machine state at power-on: cleared dynamic state, the font table
/// resident at 0x50, and the program counter at the ROM load point 0x200.
pub open spec fn power_on(q: Quirks) -> VmView {
    VmView {
        mem: Seq::new(4096, |a: int| if 0x50 <= a < 0x50 + 80 { spec_fontset()[a - 0x50] } else { 0u8 }),
        regs: Seq::new(16, |r: int| 0u8),
        i: 0,
        pc: 0x200,
        fb: Seq::new(2048, |k: int| false),
        stack: Seq::new(16, |e: int| 0u16),
        sp: 0,
        delay: 0,
        sound: 0,
        keys: Seq::new(16, |k: int| false),
        draw: false,
        waiting: false,
        wait_key: 0,
        quirks: q,
    }
}

/// Memory after copying `rom` verbatim at the ROM load point 0x200; all
/// other bytes keep their previous value.
pub open spec fn load_mem(mem: Seq<u8>, rom: Seq<u8>) -> Seq<u8> {
    Seq::new(4096, |a: int| if 0x200 <= a < 0x200 + rom.len() { rom[a - 0x200] } else { mem[a] })
}

/// The big-endian 16-bit opcode word at the program counter.
pub open spec fn fetch_word(s: VmView) -> u16 {
    ((s.mem[s.pc as int] as u16) << 8) | (s.mem[s.pc as int + 1] as u16)
}

/// The state the execution engine sees once the fetch has advanced the
/// program counter past the word it read.
pub open spec fn after_fetch(s: VmView) -> VmView {
    VmView { pc: (s.pc + 2) as u16, ..s }
}

} // verus!
