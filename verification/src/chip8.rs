use vstd::prelude::*;
use vstd::pervasive::VecAdditionalExecFns;
use rand_chacha::ChaCha8Rng;
use crate::instruction::{spec_nibble, Instruction};
use crate::quirks::Quirks;
use crate::rng::{rng_from_zero_seed, rng_next_u32};
use crate::state::{after_fetch, fetch_word, load_mem, power_on, spec_fontset, VmView};
use crate::step::{
    draw_collides_upto, draw_hits, draw_hits_upto, draw_step, draw_target, exec_ok,
    first_pressed_from, key_wait_step, lemma_clipped_row, lemma_collides_row_roll,
    lemma_collides_unfold, lemma_first_pressed_bounds, lemma_first_pressed_prefix,
    lemma_hits_row_roll, lemma_hits_unfold, lemma_targets_distinct, scan_wait_key, scan_waiting,
    sprite_pixel, step, step_alu, step_f, store_load_i, upd_reg, ExecOutcome, VmError,
};

verus! {

/// The CHIP-8 machine: memory, register file, call stack, timers, keypad
/// image, framebuffer and the key-wait sub-state, owned by one execution
/// thread. The caller writes `keypad`, decrements the timers between
/// cycles, and reads `display` when `draw_flag` is set.
pub struct Chip8 {
    /// 4096 bytes; the font table sits at 0x50, ROMs load at 0x200.
    pub memory: Vec<u8>,
    /// Registers V0..VF. VF doubles as the carry/borrow/collision flag.
    pub v: Vec<u8>,
    /// The 16-bit address register.
    pub i: u16,
    /// The program counter.
    pub pc: u16,
    /// The 64x32 monochrome framebuffer, row-major (index = row * 64 + column).
    pub display: Vec<bool>,
    /// The 16-entry return-address stack.
    pub stack: Vec<u16>,
    /// The stack pointer, always in [0, 16).
    pub sp: usize,
    /// Decremented by the caller at 60 Hz.
    pub delay_timer: u8,
    /// Decremented by the caller at 60 Hz; nonzero cues the buzzer.
    pub sound_timer: u8,
    /// The 16 key states, externally maintained, read-only to the engine.
    pub keypad: Vec<bool>,
    /// Raised by every draw instruction; the caller clears it after rendering.
    pub draw_flag: bool,
    /// Whether FX0A has armed on a key and awaits its release.
    pub wait_for_release: bool,
    /// The armed key index, always in [0, 16).
    pub wait_key: usize,
    rng: ChaCha8Rng,
    /// The compatibility configuration, fixed at construction.
    pub quirks: Quirks,
}

impl View for Chip8 {
    type V = VmView;

    closed spec fn view(&self) -> VmView {
        VmView {
            mem: self.memory@,
            regs: self.v@,
            i: self.i,
            pc: self.pc,
            fb: self.display@,
            stack: self.stack@,
            sp: self.sp as int,
            delay: self.delay_timer,
            sound: self.sound_timer,
            keys: self.keypad@,
            draw: self.draw_flag,
            waiting: self.wait_for_release,
            wait_key: self.wait_key as int,
            quirks: self.quirks,
        }
    }
}

/// A vector of `len` copies of `val`.
fn filled<T: Copy>(len: usize, val: T) -> (r: Vec<T>)
    ensures
        r@ == Seq::new(len as nat, |k: int| val),
{
    let mut r: Vec<T> = Vec::new();
    let mut k: usize = 0;
    while k < len
        invariant
            k <= len,
            r@.len() == k,
            forall|j: int| 0 <= j < k ==> r@[j] == val,
        decreases len - k,
    {
        r.push(val);
        k += 1;
    }
    proof {
        assert(r@ =~= Seq::new(len as nat, |k: int| val));
    }
    r
}

/// The built-in font table as bytes.
fn fontset() -> (r: Vec<u8>)
    ensures
        r@ == spec_fontset(),
{
    let r: Vec<u8> = vec![
        0xF0, 0x90, 0x90, 0x90, 0xF0, // 0
        0x20, 0x60, 0x20, 0x20, 0x70, // 1
        0xF0, 0x10, 0xF0, 0x80, 0xF0, // 2
        0xF0, 0x10, 0xF0, 0x10, 0xF0, // 3
        0x90, 0x90, 0xF0, 0x10, 0x10, // 4
        0xF0, 0x80, 0xF0, 0x10, 0xF0, // 5
        0xF0, 0x80, 0xF0, 0x90, 0xF0, // 6
        0xF0, 0x10, 0x20, 0x40, 0x40, // 7
        0xF0, 0x90, 0xF0, 0x90, 0xF0, // 8
        0xF0, 0x90, 0xF0, 0x10, 0xF0, // 9
        0xF0, 0x90, 0xF0, 0x90, 0x90, // A
        0xE0, 0x90, 0xE0, 0x90, 0xE0, // B
        0xF0, 0x80, 0x80, 0x80, 0xF0, // C
        0xE0, 0x90, 0x90, 0x90, 0xE0, // D
        0xF0, 0x80, 0xF0, 0x80, 0xF0, // E
        0xF0, 0x80, 0xF0, 0x80, 0x80, // F
    ];
    proof {
        assert(r@ =~= spec_fontset());
    }
    r
}

impl Chip8 {
    /// Build a powered-on machine with the given quirks configuration:
    /// cleared dynamic state, the font table injected at 0x50, and the
    /// program counter at the ROM load point.
    pub fn new(quirks: Quirks) -> (r: Self)
        ensures
            r@ == power_on(quirks),
            r@.wf(),
    {
        let mut memory: Vec<u8> = filled(4096, 0u8);
        let font: Vec<u8> = fontset();
        let mut k: usize = 0;
        while k < 80
            invariant
                k <= 80,
                memory@.len() == 4096,
                font@ == spec_fontset(),
                forall|j: int| 0 <= j < k ==> memory@[0x50 + j] == spec_fontset()[j],
                forall|a: int| 0 <= a < 4096 && !(0x50 <= a < 0x50 + k) ==> memory@[a] == 0,
            decreases 80 - k,
        {
            memory.set(0x50 + k, font[k]);
            k += 1;
        }
        let c = Chip8 {
            memory,
            v: filled(16, 0u8),
            i: 0,
            pc: 0x200,
            display: filled(2048, false),
            stack: filled(16, 0u16),
            sp: 0,
            delay_timer: 0,
            sound_timer: 0,
            keypad: filled(16, false),
            draw_flag: false,
            wait_for_release: false,
            wait_key: 0,
            rng: rng_from_zero_seed(),
            quirks,
        };
        proof {
            assert(c@.mem =~= power_on(quirks).mem);
            assert(c@ =~= power_on(quirks));
        }
        c
    }

    /// Copy ROM bytes verbatim into memory starting at 0x200. The caller
    /// pre-validates the size against the remaining memory; the engine
    /// does not.
    pub fn load_rom(&mut self, data: &Vec<u8>)
        requires
            old(self)@.wf(),
            data@.len() <= 4096 - 0x200,
        ensures
            final(self)@ == (VmView { mem: load_mem(old(self)@.mem, data@), ..old(self)@ }),
            final(self)@.wf(),
    {
        let mut k: usize = 0;
        while k < data.len()
            invariant
                k <= data@.len(),
                data@.len() <= 4096 - 0x200,
                self@.mem.len() == 4096,
                self@ == (VmView { mem: self@.mem, ..old(self)@ }),
                forall|a: int|
                    0 <= a < 4096 ==> self@.mem[a] == (if 0x200 <= a < 0x200 + k {
                        data@[a - 0x200]
                    } else {
                        old(self)@.mem[a]
                    }),
            decreases data@.len() - k,
        {
            self.memory.set(0x200 + k, data[k]);
            k += 1;
        }
        proof {
            assert(self@.mem =~= load_mem(old(self)@.mem, data@));
            assert(self@ =~= (VmView { mem: load_mem(old(self)@.mem, data@), ..old(self)@ }));
        }
    }

    /// Restore every dynamic field to its power-on value, preserving the
    /// quirks configuration, so the machine can be reused across ROM swaps
    /// without reconstruction.
    pub fn reset(&mut self)
        ensures
            final(self)@ == power_on(old(self)@.quirks),
            final(self)@.wf(),
    {
        *self = Chip8::new(self.quirks);
    }

    /// Read the big-endian opcode word at the program counter, advance the
    /// program counter past it, and decode.
    pub fn fetch(&mut self) -> (r: Instruction)
        requires
            old(self)@.wf(),
            old(self)@.pc + 1 < 4096,
        ensures
            final(self)@ == after_fetch(old(self)@),
            final(self)@.wf(),
            r.wf(),
            r.instruction == fetch_word(old(self)@),
    {
        let hi = self.memory[self.pc as usize];
        let lo = self.memory[self.pc as usize + 1];
        let raw: u16 = ((hi as u16) << 8) | (lo as u16);
        self.pc = self.pc + 2;
        proof {
            assert(self@ =~= after_fetch(old(self)@));
        }
        Instruction::new(raw)
    }

    /// The arithmetic/logic family (nibble 8), dispatched on the low nibble.
    fn op_alu(&mut self, inst: &Instruction) -> (r: Result<ExecOutcome, VmError>)
        requires
            old(self)@.wf(),
            inst.wf(),
            spec_nibble(inst.instruction) == 0x8,
        ensures
            final(self)@ == step_alu(old(self)@, inst.instruction).0,
            r == step_alu(old(self)@, inst.instruction).1,
            final(self)@.wf(),
    {
        let x = inst.x;
        let y = inst.y;
        match inst.n {
            0x0 => {
                let vy = self.v[y];
                self.v.set(x, vy);
                Ok(ExecOutcome::Continue)
            }
            0x1 => {
                let val = self.v[x] | self.v[y];
                self.v.set(x, val);
                if self.quirks.vf_reset {
                    self.v.set(15, 0);
                }
                Ok(ExecOutcome::Continue)
            }
            0x2 => {
                let val = self.v[x] & self.v[y];
                self.v.set(x, val);
                if self.quirks.vf_reset {
                    self.v.set(15, 0);
                }
                Ok(ExecOutcome::Continue)
            }
            0x3 => {
                let val = self.v[x] ^ self.v[y];
                self.v.set(x, val);
                if self.quirks.vf_reset {
                    self.v.set(15, 0);
                }
                Ok(ExecOutcome::Continue)
            }
            0x4 => {
                let vx = self.v[x];
                let vy = self.v[y];
                let carry: bool = (vx as u16) + (vy as u16) > 255;
                self.v.set(x, vx.wrapping_add(vy));
                self.v.set(15, if carry { 1 } else { 0 });
                Ok(ExecOutcome::Continue)
            }
            0x5 => {
                let vx = self.v[x];
                let vy = self.v[y];
                self.v.set(x, vx.wrapping_sub(vy));
                self.v.set(15, if vx < vy { 0 } else { 1 });
                Ok(ExecOutcome::Continue)
            }
            0x6 => {
                let val = self.v[if self.quirks.shift { x } else { y }];
                self.v.set(x, val >> 1);
                self.v.set(15, val & 1);
                Ok(ExecOutcome::Continue)
            }
            0x7 => {
                let vx = self.v[x];
                let vy = self.v[y];
                self.v.set(x, vy.wrapping_sub(vx));
                self.v.set(15, if vy < vx { 0 } else { 1 });
                Ok(ExecOutcome::Continue)
            }
            0xE => {
                let val = self.v[if self.quirks.shift { x } else { y }];
                self.v.set(x, val << 1);
                self.v.set(15, (val >> 7) & 1);
                Ok(ExecOutcome::Continue)
            }
            _ => Err(VmError::Unsupported(inst.instruction)),
        }
    }

    /// Index of the first pressed key, scanning upward from 0; 16 when
    /// nothing is pressed.
    fn first_pressed(&self) -> (r: usize)
        requires
            self@.wf(),
        ensures
            r == first_pressed_from(self@.keys, 0),
    {
        let mut k: usize = 0;
        while k < 16
            invariant
                k <= 16,
                self@.keys.len() == 16,
                forall|j: int| 0 <= j < k ==> !self@.keys[j],
            decreases 16 - k,
        {
            if self.keypad[k] {
                proof {
                    lemma_first_pressed_prefix(self@.keys, 0, k as int);
                }
                return k;
            }
            k += 1;
        }
        proof {
            lemma_first_pressed_prefix(self@.keys, 0, 16);
        }
        16
    }

    /// FX0A, one cycle of the blocking key wait: arm on the first pressed
    /// key while idle; rewind the program counter while idle or while the
    /// armed key is held; on release, deliver the key index into VX.
    fn op_key_wait(&mut self, x: usize)
        requires
            old(self)@.wf(),
            x < 16,
        ensures
            final(self)@ == key_wait_step(old(self)@, x as int),
            final(self)@.wf(),
    {
        if !self.wait_for_release {
            let first = self.first_pressed();
            if first < 16 {
                self.wait_for_release = true;
                self.wait_key = first;
            }
        }
        proof {
            lemma_first_pressed_bounds(old(self)@.keys, 0);
            assert(self.wait_for_release == scan_waiting(old(self)@));
            assert(self.wait_key as int == scan_wait_key(old(self)@));
        }
        if !self.wait_for_release || self.keypad[self.wait_key] {
            self.pc = self.pc.wrapping_sub(2);
        } else {
            self.v.set(x, self.wait_key as u8);
            self.wait_for_release = false;
        }
        proof {
            assert(self@ =~= key_wait_step(old(self)@, x as int));
        }
    }

    /// CXNN: VX receives the next byte drawn from the PRNG, masked by NN.
    /// Whatever byte the generator produced, the register update is the
    /// masked value of it.
    fn op_random(&mut self, x: usize, nn: u8)
        requires
            old(self)@.wf(),
            x < 16,
        ensures
            exists|rb: u8| final(self)@ == upd_reg(old(self)@, x as int, rb & nn),
            final(self)@.wf(),
    {
        let word = rng_next_u32(&mut self.rng);
        let byte = (word & 0xFF) as u8;
        self.v.set(x, byte & nn);
        proof {
            assert(self@ == upd_reg(old(self)@, x as int, byte & nn));
        }
    }

    /// FX55: copy V0..VX into memory at I, then advance I under the
    /// load_store quirk.
    #[verifier::loop_isolation(false)]
    fn op_store_block(&mut self, x: usize)
        requires
            old(self)@.wf(),
            x < 16,
            old(self)@.i + x < 4096,
        ensures
            final(self)@ == (VmView {
                mem: Seq::new(
                    4096,
                    |a: int|
                        if old(self)@.i <= a <= old(self)@.i + x {
                            old(self)@.regs[a - old(self)@.i]
                        } else {
                            old(self)@.mem[a]
                        },
                ),
                i: store_load_i(old(self)@, x as int),
                ..old(self)@
            }),
    {
        let base = self.i as usize;
        let mut k: usize = 0;
        while k <= x
            invariant
                k <= x + 1,
                self@.mem.len() == 4096,
                self@ == (VmView { mem: self@.mem, ..old(self)@ }),
                forall|a: int|
                    0 <= a < 4096 ==> self@.mem[a] == (if old(self)@.i <= a < old(self)@.i + k {
                        old(self)@.regs[a - old(self)@.i]
                    } else {
                        old(self)@.mem[a]
                    }),
            decreases x + 1 - k,
        {
            let val = self.v[k];
            self.memory.set(base + k, val);
            k += 1;
        }
        if self.quirks.load_store {
            self.i = self.i + (x as u16) + 1;
        }
        proof {
            assert(self@.mem =~= Seq::new(
                4096,
                |a: int|
                    if old(self)@.i <= a <= old(self)@.i + x {
                        old(self)@.regs[a - old(self)@.i]
                    } else {
                        old(self)@.mem[a]
                    },
            ));
        }
    }

    /// FX65: fill V0..VX from memory at I, then advance I under the
    /// load_store quirk.
    #[verifier::loop_isolation(false)]
    fn op_load_block(&mut self, x: usize)
        requires
            old(self)@.wf(),
            x < 16,
            old(self)@.i + x < 4096,
        ensures
            final(self)@ == (VmView {
                regs: Seq::new(
                    16,
                    |r0: int|
                        if r0 <= x {
                            old(self)@.mem[old(self)@.i + r0]
                        } else {
                            old(self)@.regs[r0]
                        },
                ),
                i: store_load_i(old(self)@, x as int),
                ..old(self)@
            }),
    {
        let base = self.i as usize;
        let mut k: usize = 0;
        while k <= x
            invariant
                k <= x + 1,
                self@.regs.len() == 16,
                self@ == (VmView { regs: self@.regs, ..old(self)@ }),
                forall|r0: int|
                    0 <= r0 < 16 ==> self@.regs[r0] == (if r0 < k {
                        old(self)@.mem[old(self)@.i + r0]
                    } else {
                        old(self)@.regs[r0]
                    }),
            decreases x + 1 - k,
        {
            let val = self.memory[base + k];
            self.v.set(k, val);
            k += 1;
        }
        if self.quirks.load_store {
            self.i = self.i + (x as u16) + 1;
        }
        proof {
            assert(self@.regs =~= Seq::new(
                16,
                |r0: int|
                    if r0 <= x {
                        old(self)@.mem[old(self)@.i + r0]
                    } else {
                        old(self)@.regs[r0]
                    },
            ));
        }
    }

    /// The F family (FXnn): timers, key wait, address arithmetic, font
    /// addressing, decimal decomposition, and block copies. Unmapped low
    /// bytes are tolerated as no-ops.
    fn op_f(&mut self, inst: &Instruction) -> (r: Result<ExecOutcome, VmError>)
        requires
            old(self)@.wf(),
            inst.wf(),
            spec_nibble(inst.instruction) == 0xF,
            exec_ok(old(self)@, inst.instruction),
        ensures
            final(self)@ == step_f(old(self)@, inst.instruction).0,
            r == step_f(old(self)@, inst.instruction).1,
            final(self)@.wf(),
    {
        let x = inst.x;
        match inst.nn {
            0x07 => {
                let d = self.delay_timer;
                self.v.set(x, d);
                Ok(ExecOutcome::Continue)
            }
            0x0A => {
                self.op_key_wait(x);
                Ok(ExecOutcome::Continue)
            }
            0x15 => {
                self.delay_timer = self.v[x];
                Ok(ExecOutcome::Continue)
            }
            0x18 => {
                self.sound_timer = self.v[x];
                Ok(ExecOutcome::Continue)
            }
            0x1E => {
                // The overflow flag reports a full 16-bit carry only, not
                // a crossing of the 12-bit address space.
                let vx = self.v[x];
                let flag: u8 = if (self.i as u32) + (vx as u32) > 0xFFFF {
                    1
                } else {
                    0
                };
                self.i = self.i.wrapping_add(vx as u16);
                self.v.set(15, flag);
                Ok(ExecOutcome::Continue)
            }
            0x29 => {
                self.i = 0x50 + (self.v[x] as u16) * 5;
                Ok(ExecOutcome::Continue)
            }
            0x33 => {
                let value = self.v[x];
                let base = self.i as usize;
                self.memory.set(base, value / 100);
                self.memory.set(base + 1, (value % 100) / 10);
                self.memory.set(base + 2, value % 10);
                Ok(ExecOutcome::Continue)
            }
            0x55 => {
                self.op_store_block(x);
                Ok(ExecOutcome::Continue)
            }
            0x65 => {
                self.op_load_block(x);
                Ok(ExecOutcome::Continue)
            }
            _ => Ok(ExecOutcome::UnknownIgnored(inst.instruction)),
        }
    }

    /// DXYN: XOR-blit the N-row sprite read from memory at I, anchored at
    /// (VX mod 64, VY mod 32). VF reports whether a set sprite pixel
    /// landed on a pixel that was already lit; out-of-grid pixels are
    /// clipped or wrapped per the clip quirk; the draw flag is raised
    /// whether or not any pixel toggled.
    #[verifier::loop_isolation(false)]
    fn op_draw(&mut self, x: usize, y: usize, n: u8)
        requires
            old(self)@.wf(),
            x < 16,
            y < 16,
            n < 16,
            n > 0 ==> old(self)@.i + n <= 4096,
        ensures
            final(self)@ == draw_step(old(self)@, x as int, y as int, n as int),
            final(self)@.wf(),
    {
        let ghost s0 = old(self)@;
        let x0 = (self.v[x] as usize) % 64;
        let y0 = (self.v[y] as usize) % 32;
        self.v.set(15, 0);
        let ghost gx0 = x0 as int;
        let ghost gy0 = y0 as int;
        let mut row: usize = 0;
        while row < n as usize
            invariant
                row <= n,
                self@.fb.len() == 2048,
                self@.regs.len() == 16,
                self@ == (VmView { fb: self@.fb, regs: self@.regs, ..s0 }),
                forall|k: int|
                    0 <= k < 2048 ==> self@.fb[k] == (s0.fb[k] != draw_hits_upto(
                        s0,
                        gx0,
                        gy0,
                        row as int,
                        0,
                        k,
                    )),
                self@.regs == s0.regs.update(
                    15,
                    if draw_collides_upto(s0, gx0, gy0, row as int, 0) {
                        1u8
                    } else {
                        0u8
                    },
                ),
            decreases n - row,
        {
            let sprite_byte = self.memory[self.i as usize + row];
            let py_raw = y0 + row;
            if self.quirks.clip && py_raw >= 32 {
                // The whole row is clipped off the bottom: nothing is
                // plotted and nothing collides.
                proof {
                    assert forall|k: int| 0 <= k < 2048 implies draw_hits_upto(
                        s0,
                        gx0,
                        gy0,
                        row as int + 1,
                        0,
                        k,
                    ) == draw_hits_upto(s0, gx0, gy0, row as int, 0, k) by {
                        lemma_clipped_row(s0, gx0, gy0, row as int, 8, k);
                        lemma_hits_row_roll(s0, gx0, gy0, row as int, k);
                    }
                    lemma_clipped_row(s0, gx0, gy0, row as int, 8, 0);
                    lemma_collides_row_roll(s0, gx0, gy0, row as int);
                }
            } else {
                let mut bit: usize = 0;
                while bit < 8
                    invariant
                        bit <= 8,
                        self@.fb.len() == 2048,
                        self@.regs.len() == 16,
                        self@ == (VmView { fb: self@.fb, regs: self@.regs, ..s0 }),
                        forall|k: int|
                            0 <= k < 2048 ==> self@.fb[k] == (s0.fb[k] != draw_hits_upto(
                                s0,
                                gx0,
                                gy0,
                                row as int,
                                bit as int,
                                k,
                            )),
                        self@.regs == s0.regs.update(
                            15,
                            if draw_collides_upto(s0, gx0, gy0, row as int, bit as int) {
                                1u8
                            } else {
                                0u8
                            },
                        ),
                    decreases 8 - bit,
                {
                    let ghost tgt = draw_target(s0.quirks.clip, gx0, gy0, row as int, bit as int);
                    let px_raw = x0 + bit;
                    let sh: u8 = (7 - bit) as u8;
                    let sprite_on = (sprite_byte >> sh) & 1 == 1;
                    proof {
                        assert(sprite_on == sprite_pixel(s0.mem[s0.i + row as int], bit as int));
                    }
                    if !(self.quirks.clip && px_raw >= 64) {
                        let px = if self.quirks.clip {
                            px_raw
                        } else {
                            px_raw % 64
                        };
                        let py = if self.quirks.clip {
                            py_raw
                        } else {
                            py_raw % 32
                        };
                        let idx = py * 64 + px;
                        proof {
                            assert(tgt == idx);
                        }
                        if sprite_on {
                            let cur = self.display[idx];
                            proof {
                                assert(!draw_hits_upto(s0, gx0, gy0, row as int, bit as int, tgt))
                                    by {
                                    if draw_hits_upto(s0, gx0, gy0, row as int, bit as int, tgt) {
                                        let (r, b) = choose|r: int, b: int|
                                            0 <= r && 0 <= b < 8 && (r < row as int || (r
                                                == row as int && b < bit as int)) && sprite_pixel(
                                                s0.mem[s0.i + r],
                                                b,
                                            ) && draw_target(s0.quirks.clip, gx0, gy0, r, b) == tgt;
                                        lemma_targets_distinct(
                                            s0.quirks.clip,
                                            gx0,
                                            gy0,
                                            r,
                                            b,
                                            row as int,
                                            bit as int,
                                        );
                                    }
                                }
                                assert(cur == s0.fb[tgt]);
                            }
                            if cur {
                                self.v.set(15, 1);
                            }
                            self.display.set(idx, !cur);
                        }
                    }
                    proof {
                        lemma_collides_unfold(s0, gx0, gy0, row as int, bit as int);
                        assert forall|k: int| 0 <= k < 2048 implies self@.fb[k] == (s0.fb[k]
                            != draw_hits_upto(s0, gx0, gy0, row as int, bit as int + 1, k)) by {
                            lemma_hits_unfold(s0, gx0, gy0, row as int, bit as int, k);
                        }
                        assert(self@.regs =~= s0.regs.update(
                            15,
                            if draw_collides_upto(s0, gx0, gy0, row as int, bit as int + 1) {
                                1u8
                            } else {
                                0u8
                            },
                        ));
                    }
                    bit += 1;
                }
                proof {
                    assert forall|k: int| 0 <= k < 2048 implies draw_hits_upto(
                        s0,
                        gx0,
                        gy0,
                        row as int + 1,
                        0,
                        k,
                    ) == draw_hits_upto(s0, gx0, gy0, row as int, 8, k) by {
                        lemma_hits_row_roll(s0, gx0, gy0, row as int, k);
                    }
                    lemma_collides_row_roll(s0, gx0, gy0, row as int);
                }
            }
            row += 1;
        }
        self.draw_flag = true;
        proof {
            assert(self@.fb =~= Seq::new(
                2048,
                |k: int| s0.fb[k] != draw_hits(s0, gx0, gy0, n as int, k),
            ));
            assert(self@ =~= draw_step(s0, x as int, y as int, n as int));
        }
    }

    /// Dispatch one decoded instruction against the machine state, by
    /// family and then by secondary field. On a fatal unsupported opcode
    /// (families 5, 8, 9, E) the state is left unchanged and the error is
    /// surfaced; unmapped opcodes in families 0 and F are executed as
    /// no-ops so the run continues.
    pub fn execute(&mut self, inst: Instruction) -> (r: Result<ExecOutcome, VmError>)
        requires
            old(self)@.wf(),
            inst.wf(),
            exec_ok(old(self)@, inst.instruction),
        ensures
            final(self)@.wf(),
            r == step(old(self)@, inst.instruction, 0).1,
            spec_nibble(inst.instruction) != 0xC ==> final(self)@ == step(
                old(self)@,
                inst.instruction,
                0,
            ).0,
            spec_nibble(inst.instruction) == 0xC ==> exists|rb: u8|
                final(self)@ == step(old(self)@, inst.instruction, rb).0,
    {
        match inst.nibble {
            0x0 => {
                match inst.nn {
                    0xE0 => {
                        self.display = filled(2048, false);
                        proof {
                            assert(self@ =~= step(old(self)@, inst.instruction, 0).0);
                        }
                        Ok(ExecOutcome::Continue)
                    }
                    0xEE => {
                        if self.sp == 0 {
                            // A top-level return ends the run cleanly
                            // instead of underflowing the stack.
                            Ok(ExecOutcome::Halt)
                        } else {
                            self.sp = self.sp - 1;
                            self.pc = self.stack[self.sp];
                            Ok(ExecOutcome::Continue)
                        }
                    }
                    _ => Ok(ExecOutcome::UnknownIgnored(inst.instruction)),
                }
            }
            0x1 => {
                self.pc = inst.nnn;
                Ok(ExecOutcome::Continue)
            }
            0x2 => {
                // Past sixteen nested calls the oldest entries are
                // silently overwritten; the pointer stays in [0, 16).
                self.stack.set(self.sp, self.pc);
                self.sp = (self.sp + 1) % 16;
                self.pc = inst.nnn;
                Ok(ExecOutcome::Continue)
            }
            0x3 => {
                if self.v[inst.x] == inst.nn {
                    self.pc = self.pc.wrapping_add(2);
                }
                Ok(ExecOutcome::Continue)
            }
            0x4 => {
                if self.v[inst.x] != inst.nn {
                    self.pc = self.pc.wrapping_add(2);
                }
                Ok(ExecOutcome::Continue)
            }
            0x5 => {
                match inst.n {
                    0x0 => {
                        if self.v[inst.x] == self.v[inst.y] {
                            self.pc = self.pc.wrapping_add(2);
                        }
                        Ok(ExecOutcome::Continue)
                    }
                    _ => Err(VmError::Unsupported(inst.instruction)),
                }
            }
            0x6 => {
                self.v.set(inst.x, inst.nn);
                Ok(ExecOutcome::Continue)
            }
            0x7 => {
                let vx = self.v[inst.x];
                self.v.set(inst.x, vx.wrapping_add(inst.nn));
                Ok(ExecOutcome::Continue)
            }
            0x8 => self.op_alu(&inst),
            0x9 => {
                match inst.n {
                    0x0 => {
                        if self.v[inst.x] != self.v[inst.y] {
                            self.pc = self.pc.wrapping_add(2);
                        }
                        Ok(ExecOutcome::Continue)
                    }
                    _ => Err(VmError::Unsupported(inst.instruction)),
                }
            }
            0xA => {
                self.i = inst.nnn;
                Ok(ExecOutcome::Continue)
            }
            0xB => {
                let src = if self.quirks.jump {
                    inst.x
                } else {
                    0
                };
                self.pc = inst.nnn + (self.v[src] as u16);
                Ok(ExecOutcome::Continue)
            }
            0xC => {
                self.op_random(inst.x, inst.nn);
                proof {
                    let rb = choose|rb: u8|
                        self@ == upd_reg(old(self)@, inst.x as int, rb & inst.nn);
                    assert(self@ == step(old(self)@, inst.instruction, rb).0);
                }
                Ok(ExecOutcome::Continue)
            }
            0xD => {
                self.op_draw(inst.x, inst.y, inst.n);
                Ok(ExecOutcome::Continue)
            }
            0xE => {
                match inst.nn {
                    0x9E => {
                        if self.keypad[self.v[inst.x] as usize] {
                            self.pc = self.pc.wrapping_add(2);
                        }
                        Ok(ExecOutcome::Continue)
                    }
                    0xA1 => {
                        if !self.keypad[self.v[inst.x] as usize] {
                            self.pc = self.pc.wrapping_add(2);
                        }
                        Ok(ExecOutcome::Continue)
                    }
                    _ => Err(VmError::Unsupported(inst.instruction)),
                }
            }
            // Families 0 through E are all listed, so every remaining
            // word is in family F.
            _ => self.op_f(&inst),
        }
    }

    /// One fetch-decode-execute step against the word at the program
    /// counter: the outcome says whether the run goes on, has been ended
    /// by a top-level return, or skipped a tolerated unknown opcode; a
    /// fatal unsupported opcode is surfaced as an error with the machine
    /// left as the fetch advanced it.
    pub fn cycle(&mut self) -> (r: Result<ExecOutcome, VmError>)
        requires
            old(self)@.wf(),
            old(self)@.pc + 1 < 4096,
            exec_ok(after_fetch(old(self)@), fetch_word(old(self)@)),
        ensures
            final(self)@.wf(),
            r == step(after_fetch(old(self)@), fetch_word(old(self)@), 0).1,
            spec_nibble(fetch_word(old(self)@)) != 0xC ==> final(self)@ == step(
                after_fetch(old(self)@),
                fetch_word(old(self)@),
                0,
            ).0,
            spec_nibble(fetch_word(old(self)@)) == 0xC ==> exists|rb: u8|
                final(self)@ == step(after_fetch(old(self)@), fetch_word(old(self)@), rb).0,
    {
        let inst = self.fetch();
        self.execute(inst)
    }

    /// Read one framebuffer pixel.
    pub fn pixel(&self, col: usize, row: usize) -> (r: bool)
        requires
            self@.wf(),
            col < 64,
            row < 32,
        ensures
            r == self@.fb[row * 64 + col],
    {
        self.display[row * 64 + col]
    }
}

} // verus!
