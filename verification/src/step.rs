use vstd::prelude::*;
use vstd::wrapping::{u16_specs, u8_specs};
use crate::instruction::{spec_n, spec_nibble, spec_nn, spec_nnn, spec_x, spec_y};
use crate::state::VmView;

verus! {

/// What one executed instruction reports back to the caller's loop.
#[derive(Clone, Copy, Debug, PartialEq, Eq, Structural)]
pub enum ExecOutcome {
    /// Normal completion; the run goes on.
    Continue,
    /// A top-level return against an empty call stack: the program is done.
    Halt,
    /// An unmapped opcode in one of the tolerated families (0 or F) was
    /// executed as a no-op; the word is carried so the caller may report it.
    UnknownIgnored(u16),
}

/// A fatal condition: execution stops and the caller decides.
#[derive(Clone, Copy, Debug, PartialEq, Eq, Structural)]
pub enum VmError {
    /// An unmapped opcode in one of the closed families 5, 8, 9 or E.
    Unsupported(u16),
}

/// The state with register `x` set to `val`.
pub open spec fn upd_reg(s: VmView, x: int, val: u8) -> VmView {
    VmView { regs: s.regs.update(x, val), ..s }
}

/// The state after a conditional skip: the program counter moves past one
/// further instruction when `cond` holds.
pub open spec fn skip_pc(s: VmView, cond: bool) -> VmView {
    if cond {
        VmView { pc: u16_specs::wrapping_add(s.pc, 2), ..s }
    } else {
        s
    }
}

/// 8XY1/8XY2/8XY3 write VX and, under the vf_reset quirk, then clear VF.
pub open spec fn logic_result(s: VmView, x: int, val: u8) -> VmView {
    let s1 = upd_reg(s, x, val);
    if s.quirks.vf_reset {
        upd_reg(s1, 15, 0)
    } else {
        s1
    }
}

/// Index of the first pressed key at or after position `idx`, or 16 when
/// none is pressed.
pub open spec fn first_pressed_from(keys: Seq<bool>, idx: int) -> int
    decreases 16 - idx,
{
    if idx < 0 || idx >= 16 {
        16
    } else if keys[idx] {
        idx
    } else {
        first_pressed_from(keys, idx + 1)
    }
}

/// Scanning from `i`, pressing nothing in [i, k) moves the scan to `k`.
pub proof fn lemma_first_pressed_prefix(keys: Seq<bool>, i: int, k: int)
    requires
        0 <= i <= k <= 16,
        forall|j: int| i <= j < k ==> !keys[j],
    ensures
        first_pressed_from(keys, i) == first_pressed_from(keys, k),
    decreases k - i,
{
    if i < k {
        lemma_first_pressed_prefix(keys, i + 1, k);
    }
}

/// The scan result is either 16 or the index of a pressed key.
pub proof fn lemma_first_pressed_bounds(keys: Seq<bool>, i: int)
    requires
        0 <= i <= 16,
    ensures
        i <= first_pressed_from(keys, i) <= 16,
        first_pressed_from(keys, i) < 16 ==> keys[first_pressed_from(keys, i)],
    decreases 16 - i,
{
    if i < 16 && !keys[i] {
        lemma_first_pressed_bounds(keys, i + 1);
    }
}

/// The wait flag after the scan phase of FX0A: while idle, any pressed key
/// arms the machine.
pub open spec fn scan_waiting(s: VmView) -> bool {
    s.waiting || first_pressed_from(s.keys, 0) < 16
}

/// The awaited key after the scan phase of FX0A: while idle, the pressed
/// key with the lowest index; otherwise whatever was armed before.
pub open spec fn scan_wait_key(s: VmView) -> int {
    if s.waiting {
        s.wait_key
    } else if first_pressed_from(s.keys, 0) < 16 {
        first_pressed_from(s.keys, 0)
    } else {
        s.wait_key
    }
}

/// FX0A, one cycle of the blocking key wait. While no key has been armed,
/// or while the armed key is still held, the instruction does not complete:
/// the program counter rewinds by 2 so the same word is fetched again next
/// cycle. When the armed key is seen released, its index lands in VX and
/// the program counter advances normally.
pub open spec fn key_wait_step(s: VmView, x: int) -> VmView {
    let armed = scan_waiting(s);
    let wkey = scan_wait_key(s);
    if !armed || s.keys[wkey] {
        VmView { pc: u16_specs::wrapping_sub(s.pc, 2), waiting: armed, wait_key: wkey, ..s }
    } else {
        VmView { regs: s.regs.update(x, wkey as u8), waiting: false, wait_key: wkey, ..s }
    }
}

/// Destination framebuffer index for sprite cell (row, bit) of a sprite
/// anchored at (x0, y0), or -1 when the clip quirk drops the pixel. With
/// the quirk off, out-of-grid coordinates wrap by modulo.
pub open spec fn draw_target(clip: bool, x0: int, y0: int, row: int, bit: int) -> int {
    let py = y0 + row;
    let px = x0 + bit;
    if clip {
        if py < 32 && px < 64 {
            py * 64 + px
        } else {
            -1
        }
    } else {
        (py % 32) * 64 + (px % 64)
    }
}

/// Whether sprite row byte `b` has the pixel for `bit` set; bit 7 is the
/// leftmost pixel.
pub open spec fn sprite_pixel(b: u8, bit: int) -> bool {
    (b >> ((7 - bit) as u8)) & 1 == 1
}

/// Whether any sprite cell among the first `row` full rows, plus the first
/// `bit` cells of row `row`, is set and lands on framebuffer index `k`.
pub open spec fn draw_hits_upto(s: VmView, x0: int, y0: int, row: int, bit: int, k: int) -> bool {
    exists|r: int, b: int|
        0 <= r && 0 <= b < 8 && (r < row || (r == row && b < bit))
            && sprite_pixel(s.mem[s.i + r], b)
            && draw_target(s.quirks.clip, x0, y0, r, b) == k
}

/// Whether any such cell is set and lands on a pixel already lit in `s`.
pub open spec fn draw_collides_upto(s: VmView, x0: int, y0: int, row: int, bit: int) -> bool {
    exists|r: int, b: int|
        0 <= r && 0 <= b < 8 && (r < row || (r == row && b < bit))
            && sprite_pixel(s.mem[s.i + r], b)
            && draw_target(s.quirks.clip, x0, y0, r, b) >= 0
            && s.fb[draw_target(s.quirks.clip, x0, y0, r, b)]
}

/// Two different sprite cells never land on the same framebuffer index:
/// rows differ by fewer than 32 and columns by fewer than 64, so neither
/// the wrapped nor the clipped coordinates can coincide.
pub proof fn lemma_targets_distinct(
    clip: bool,
    x0: int,
    y0: int,
    r1: int,
    b1: int,
    r2: int,
    b2: int,
)
    requires
        0 <= x0 < 64,
        0 <= y0 < 32,
        0 <= r1 < 16,
        0 <= b1 < 8,
        0 <= r2 < 16,
        0 <= b2 < 8,
        !(r1 == r2 && b1 == b2),
        draw_target(clip, x0, y0, r1, b1) >= 0,
        draw_target(clip, x0, y0, r2, b2) >= 0,
    ensures
        draw_target(clip, x0, y0, r1, b1) != draw_target(clip, x0, y0, r2, b2),
{
    if clip {
        assert(y0 + r1 < 32 && x0 + b1 < 64);
        assert(y0 + r2 < 32 && x0 + b2 < 64);
    } else {
        lemma_mod_below_double(y0 + r1, 32);
        lemma_mod_below_double(y0 + r2, 32);
        lemma_mod_below_double(x0 + b1, 64);
        lemma_mod_below_double(x0 + b2, 64);
    }
}

/// The remainder of a value below twice the modulus: itself, or itself
/// less the modulus.
pub proof fn lemma_mod_below_double(a: int, m: int)
    requires
        0 <= a < 2 * m,
        0 < m,
    ensures
        a % m == if a < m {
            a
        } else {
            a - m
        },
{
    if a < m {
        vstd::arithmetic::div_mod::lemma_small_mod(a as nat, m as nat);
    } else {
        vstd::arithmetic::div_mod::lemma_mod_sub_multiples_vanish(a, m);
        vstd::arithmetic::div_mod::lemma_small_mod((a - m) as nat, m as nat);
    }
}

/// Processing one more cell of a row extends the hit set by exactly that
/// cell's landing point, when the cell is set and lands in the grid.
pub proof fn lemma_hits_unfold(s: VmView, x0: int, y0: int, row: int, bit: int, k: int)
    requires
        0 <= row,
        0 <= bit < 8,
    ensures
        draw_hits_upto(s, x0, y0, row, bit + 1, k) == (draw_hits_upto(s, x0, y0, row, bit, k) || (
        sprite_pixel(s.mem[s.i + row], bit) && draw_target(s.quirks.clip, x0, y0, row, bit) == k)),
{
    if draw_hits_upto(s, x0, y0, row, bit + 1, k) {
        let (r, b) = choose|r: int, b: int|
            0 <= r && 0 <= b < 8 && (r < row || (r == row && b < bit + 1))
                && sprite_pixel(s.mem[s.i + r], b) && draw_target(s.quirks.clip, x0, y0, r, b)
                == k;
        if r == row && b == bit {
        } else {
            assert(draw_hits_upto(s, x0, y0, row, bit, k));
        }
    }
    if draw_hits_upto(s, x0, y0, row, bit, k) {
        let (r, b) = choose|r: int, b: int|
            0 <= r && 0 <= b < 8 && (r < row || (r == row && b < bit))
                && sprite_pixel(s.mem[s.i + r], b) && draw_target(s.quirks.clip, x0, y0, r, b)
                == k;
        assert(draw_hits_upto(s, x0, y0, row, bit + 1, k));
    }
    if sprite_pixel(s.mem[s.i + row], bit) && draw_target(s.quirks.clip, x0, y0, row, bit) == k {
        assert(draw_hits_upto(s, x0, y0, row, bit + 1, k));
    }
}

/// The collision analogue of the cell-unfolding law.
pub proof fn lemma_collides_unfold(s: VmView, x0: int, y0: int, row: int, bit: int)
    requires
        0 <= row,
        0 <= bit < 8,
    ensures
        draw_collides_upto(s, x0, y0, row, bit + 1) == (draw_collides_upto(s, x0, y0, row, bit)
            || (sprite_pixel(s.mem[s.i + row], bit) && draw_target(s.quirks.clip, x0, y0, row, bit)
            >= 0 && s.fb[draw_target(s.quirks.clip, x0, y0, row, bit)])),
{
    if draw_collides_upto(s, x0, y0, row, bit + 1) {
        let (r, b) = choose|r: int, b: int|
            0 <= r && 0 <= b < 8 && (r < row || (r == row && b < bit + 1))
                && sprite_pixel(s.mem[s.i + r], b) && draw_target(s.quirks.clip, x0, y0, r, b)
                >= 0 && s.fb[draw_target(s.quirks.clip, x0, y0, r, b)];
        if r == row && b == bit {
        } else {
            assert(draw_collides_upto(s, x0, y0, row, bit));
        }
    }
    if draw_collides_upto(s, x0, y0, row, bit) {
        let (r, b) = choose|r: int, b: int|
            0 <= r && 0 <= b < 8 && (r < row || (r == row && b < bit))
                && sprite_pixel(s.mem[s.i + r], b) && draw_target(s.quirks.clip, x0, y0, r, b)
                >= 0 && s.fb[draw_target(s.quirks.clip, x0, y0, r, b)];
        assert(draw_collides_upto(s, x0, y0, row, bit + 1));
    }
    if sprite_pixel(s.mem[s.i + row], bit) && draw_target(s.quirks.clip, x0, y0, row, bit) >= 0
        && s.fb[draw_target(s.quirks.clip, x0, y0, row, bit)] {
        assert(draw_collides_upto(s, x0, y0, row, bit + 1));
    }
}

/// A fully processed row is the same hit set as the next row with no cell
/// processed yet.
pub proof fn lemma_hits_row_roll(s: VmView, x0: int, y0: int, row: int, k: int)
    ensures
        draw_hits_upto(s, x0, y0, row, 8, k) == draw_hits_upto(s, x0, y0, row + 1, 0, k),
{
    if draw_hits_upto(s, x0, y0, row, 8, k) {
        let (r, b) = choose|r: int, b: int|
            0 <= r && 0 <= b < 8 && (r < row || (r == row && b < 8))
                && sprite_pixel(s.mem[s.i + r], b) && draw_target(s.quirks.clip, x0, y0, r, b)
                == k;
        assert(draw_hits_upto(s, x0, y0, row + 1, 0, k));
    }
    if draw_hits_upto(s, x0, y0, row + 1, 0, k) {
        let (r, b) = choose|r: int, b: int|
            0 <= r && 0 <= b < 8 && r < row + 1 && sprite_pixel(s.mem[s.i + r], b) && draw_target(
                s.quirks.clip,
                x0,
                y0,
                r,
                b,
            ) == k;
        assert(draw_hits_upto(s, x0, y0, row, 8, k));
    }
}

/// The collision analogue of the row-rolling law.
pub proof fn lemma_collides_row_roll(s: VmView, x0: int, y0: int, row: int)
    ensures
        draw_collides_upto(s, x0, y0, row, 8) == draw_collides_upto(s, x0, y0, row + 1, 0),
{
    if draw_collides_upto(s, x0, y0, row, 8) {
        let (r, b) = choose|r: int, b: int|
            0 <= r && 0 <= b < 8 && (r < row || (r == row && b < 8))
                && sprite_pixel(s.mem[s.i + r], b) && draw_target(s.quirks.clip, x0, y0, r, b)
                >= 0 && s.fb[draw_target(s.quirks.clip, x0, y0, r, b)];
        assert(draw_collides_upto(s, x0, y0, row + 1, 0));
    }
    if draw_collides_upto(s, x0, y0, row + 1, 0) {
        let (r, b) = choose|r: int, b: int|
            0 <= r && 0 <= b < 8 && r < row + 1 && sprite_pixel(s.mem[s.i + r], b) && draw_target(
                s.quirks.clip,
                x0,
                y0,
                r,
                b,
            ) >= 0 && s.fb[draw_target(s.quirks.clip, x0, y0, r, b)];
        assert(draw_collides_upto(s, x0, y0, row, 8));
    }
}

/// A row the clip quirk drops (its raw row coordinate is off the bottom of
/// the grid) contributes no cells to the hit set and no collisions.
pub proof fn lemma_clipped_row(s: VmView, x0: int, y0: int, row: int, bit: int, k: int)
    requires
        s.quirks.clip,
        0 <= row,
        0 <= k,
        y0 + row >= 32,
        0 <= bit <= 8,
    ensures
        draw_hits_upto(s, x0, y0, row, bit, k) == draw_hits_upto(s, x0, y0, row, 0, k),
        draw_collides_upto(s, x0, y0, row, bit) == draw_collides_upto(s, x0, y0, row, 0),
    decreases bit,
{
    if bit > 0 {
        lemma_clipped_row(s, x0, y0, row, bit - 1, k);
        lemma_hits_unfold(s, x0, y0, row, bit - 1, k);
        lemma_collides_unfold(s, x0, y0, row, bit - 1);
    }
}

/// A landing point that is not clipped away lies inside the framebuffer.
pub proof fn lemma_target_bounds(clip: bool, x0: int, y0: int, row: int, bit: int)
    requires
        0 <= x0 < 64,
        0 <= y0 < 32,
        0 <= row < 16,
        0 <= bit < 8,
    ensures
        -1 <= draw_target(clip, x0, y0, row, bit) < 2048,
{
    if !clip {
        vstd::arithmetic::div_mod::lemma_mod_bound(y0 + row, 32);
        vstd::arithmetic::div_mod::lemma_mod_bound(x0 + bit, 64);
    }
}

/// The hit set depends only on the sprite bytes, the address register and
/// the clip quirk, none of which a draw changes.
pub proof fn lemma_hits_frame(s1: VmView, s2: VmView, x0: int, y0: int, n: int, k: int)
    requires
        s1.mem == s2.mem,
        s1.i == s2.i,
        s1.quirks == s2.quirks,
    ensures
        draw_hits(s1, x0, y0, n, k) == draw_hits(s2, x0, y0, n, k),
{
    if draw_hits(s1, x0, y0, n, k) {
        let (r, b) = choose|r: int, b: int|
            0 <= r && 0 <= b < 8 && r < n && sprite_pixel(s1.mem[s1.i + r], b) && draw_target(
                s1.quirks.clip,
                x0,
                y0,
                r,
                b,
            ) == k;
        assert(draw_hits(s2, x0, y0, n, k));
    }
    if draw_hits(s2, x0, y0, n, k) {
        let (r, b) = choose|r: int, b: int|
            0 <= r && 0 <= b < 8 && r < n && sprite_pixel(s2.mem[s2.i + r], b) && draw_target(
                s2.quirks.clip,
                x0,
                y0,
                r,
                b,
            ) == k;
        assert(draw_hits(s1, x0, y0, n, k));
    }
}

/// With a single sprite row, the hit set is exactly the landing points of
/// that row's set bits.
pub proof fn lemma_single_row_hits(s: VmView, x0: int, y0: int, k: int)
    ensures
        draw_hits(s, x0, y0, 1, k) <==> exists|b: int|
            0 <= b < 8 && sprite_pixel(s.mem[s.i as int], b) && draw_target(
                s.quirks.clip,
                x0,
                y0,
                0,
                b,
            ) == k,
{
    if draw_hits(s, x0, y0, 1, k) {
        let (r, b) = choose|r: int, b: int|
            0 <= r && 0 <= b < 8 && r < 1 && sprite_pixel(s.mem[s.i + r], b) && draw_target(
                s.quirks.clip,
                x0,
                y0,
                r,
                b,
            ) == k;
        assert(0 <= b < 8 && sprite_pixel(s.mem[s.i as int], b) && draw_target(
            s.quirks.clip,
            x0,
            y0,
            0,
            b,
        ) == k);
    }
    if exists|b: int|
        0 <= b < 8 && sprite_pixel(s.mem[s.i as int], b) && draw_target(s.quirks.clip, x0, y0, 0, b)
            == k {
        let b = choose|b: int|
            0 <= b < 8 && sprite_pixel(s.mem[s.i as int], b) && draw_target(
                s.quirks.clip,
                x0,
                y0,
                0,
                b,
            ) == k;
        assert(draw_hits_upto(s, x0, y0, 1, 0, k));
    }
}

/// Whether a set cell of the `n`-row sprite lands on framebuffer index `k`.
pub open spec fn draw_hits(s: VmView, x0: int, y0: int, n: int, k: int) -> bool {
    draw_hits_upto(s, x0, y0, n, 0, k)
}

/// Whether a set cell of the sprite lands on a pixel already lit: the
/// collision condition, judged against the framebuffer before the draw.
pub open spec fn draw_collides(s: VmView, x0: int, y0: int, n: int) -> bool {
    draw_collides_upto(s, x0, y0, n, 0)
}

/// DXYN. The anchor is VX mod 64, VY mod 32. Every set sprite cell that
/// lands in the grid toggles its pixel by XOR; VF reports whether any set
/// cell landed on a pixel that was already lit; the draw flag is raised
/// unconditionally.
pub open spec fn draw_step(s: VmView, x: int, y: int, n: int) -> VmView {
    let x0 = s.regs[x] as int % 64;
    let y0 = s.regs[y] as int % 32;
    let fb1 = Seq::new(2048, |k: int| s.fb[k] != draw_hits(s, x0, y0, n, k));
    let vf: u8 = if draw_collides(s, x0, y0, n) { 1 } else { 0 };
    VmView { fb: fb1, regs: s.regs.update(15, vf), draw: true, ..s }
}

/// FX55/FX65 advance I by X+1 afterwards under the load_store quirk
/// (legacy); otherwise I is unchanged (modern).
pub open spec fn store_load_i(s: VmView, x: int) -> u16 {
    if s.quirks.load_store {
        (s.i + x + 1) as u16
    } else {
        s.i
    }
}

/// The arithmetic/logic family (nibble 8), dispatched on the low nibble.
pub open spec fn step_alu(s: VmView, w: u16) -> (VmView, Result<ExecOutcome, VmError>) {
    let x = spec_x(w) as int;
    let y = spec_y(w) as int;
    let n = spec_n(w);
    let vx = s.regs[x];
    let vy = s.regs[y];
    if n == 0x0 {
        (upd_reg(s, x, vy), Ok(ExecOutcome::Continue))
    } else if n == 0x1 {
        (logic_result(s, x, vx | vy), Ok(ExecOutcome::Continue))
    } else if n == 0x2 {
        (logic_result(s, x, vx & vy), Ok(ExecOutcome::Continue))
    } else if n == 0x3 {
        (logic_result(s, x, vx ^ vy), Ok(ExecOutcome::Continue))
    } else if n == 0x4 {
        let flag: u8 = if vx + vy > 255 { 1 } else { 0 };
        (upd_reg(upd_reg(s, x, u8_specs::wrapping_add(vx, vy)), 15, flag), Ok(ExecOutcome::Continue))
    } else if n == 0x5 {
        let flag: u8 = if vx < vy { 0 } else { 1 };
        (upd_reg(upd_reg(s, x, u8_specs::wrapping_sub(vx, vy)), 15, flag), Ok(ExecOutcome::Continue))
    } else if n == 0x6 {
        let val = s.regs[if s.quirks.shift { x } else { y }];
        (upd_reg(upd_reg(s, x, val >> 1), 15, val & 1), Ok(ExecOutcome::Continue))
    } else if n == 0x7 {
        let flag: u8 = if vy < vx { 0 } else { 1 };
        (upd_reg(upd_reg(s, x, u8_specs::wrapping_sub(vy, vx)), 15, flag), Ok(ExecOutcome::Continue))
    } else if n == 0xE {
        let val = s.regs[if s.quirks.shift { x } else { y }];
        (upd_reg(upd_reg(s, x, val << 1), 15, (val >> 7) & 1), Ok(ExecOutcome::Continue))
    } else {
        (s, Err(VmError::Unsupported(w)))
    }
}

/// The F family, dispatched on the low byte. Unmapped low bytes here are
/// tolerated as no-ops.
pub open spec fn step_f(s: VmView, w: u16) -> (VmView, Result<ExecOutcome, VmError>) {
    let x = spec_x(w) as int;
    let nn = spec_nn(w);
    let vx = s.regs[x];
    if nn == 0x07 {
        (upd_reg(s, x, s.delay), Ok(ExecOutcome::Continue))
    } else if nn == 0x0A {
        (key_wait_step(s, x), Ok(ExecOutcome::Continue))
    } else if nn == 0x15 {
        (VmView { delay: vx, ..s }, Ok(ExecOutcome::Continue))
    } else if nn == 0x18 {
        (VmView { sound: vx, ..s }, Ok(ExecOutcome::Continue))
    } else if nn == 0x1E {
        // The overflow flag is set only on a full 16-bit carry, not on
        // exceeding the 12-bit address space.
        let flag: u8 = if s.i + vx > 0xFFFF { 1 } else { 0 };
        (
            VmView {
                i: u16_specs::wrapping_add(s.i, vx as u16),
                regs: s.regs.update(15, flag),
                ..s
            },
            Ok(ExecOutcome::Continue),
        )
    } else if nn == 0x29 {
        (VmView { i: (0x50 + vx * 5) as u16, ..s }, Ok(ExecOutcome::Continue))
    } else if nn == 0x33 {
        let mem1 = s.mem.update(s.i as int, vx / 100).update(s.i as int + 1, (vx % 100) / 10).update(
            s.i as int + 2,
            vx % 10,
        );
        (VmView { mem: mem1, ..s }, Ok(ExecOutcome::Continue))
    } else if nn == 0x55 {
        let mem1 = Seq::new(
            4096,
            |a: int| if s.i <= a <= s.i + x { s.regs[a - s.i] } else { s.mem[a] },
        );
        (VmView { mem: mem1, i: store_load_i(s, x), ..s }, Ok(ExecOutcome::Continue))
    } else if nn == 0x65 {
        let regs1 = Seq::new(16, |r: int| if r <= x { s.mem[s.i + r] } else { s.regs[r] });
        (VmView { regs: regs1, i: store_load_i(s, x), ..s }, Ok(ExecOutcome::Continue))
    } else {
        (s, Ok(ExecOutcome::UnknownIgnored(w)))
    }
}

/// The instruction transition relation: the state and outcome after
/// executing word `w` against state `s`. `rb` is the byte the PRNG
/// produced this cycle; only the CXNN arm consumes it.
pub open spec fn step(s: VmView, w: u16, rb: u8) -> (VmView, Result<ExecOutcome, VmError>) {
    let nib = spec_nibble(w);
    let x = spec_x(w) as int;
    let y = spec_y(w) as int;
    let n = spec_n(w);
    let nn = spec_nn(w);
    let nnn = spec_nnn(w);
    let vx = s.regs[x];
    let vy = s.regs[y];
    if nib == 0x0 {
        if nn == 0xE0 {
            (VmView { fb: Seq::new(2048, |k: int| false), ..s }, Ok(ExecOutcome::Continue))
        } else if nn == 0xEE {
            if s.sp == 0 {
                (s, Ok(ExecOutcome::Halt))
            } else {
                (
                    VmView { sp: s.sp - 1, pc: s.stack[s.sp - 1], ..s },
                    Ok(ExecOutcome::Continue),
                )
            }
        } else {
            (s, Ok(ExecOutcome::UnknownIgnored(w)))
        }
    } else if nib == 0x1 {
        (VmView { pc: nnn, ..s }, Ok(ExecOutcome::Continue))
    } else if nib == 0x2 {
        (
            VmView { stack: s.stack.update(s.sp, s.pc), sp: (s.sp + 1) % 16, pc: nnn, ..s },
            Ok(ExecOutcome::Continue),
        )
    } else if nib == 0x3 {
        (skip_pc(s, vx == nn), Ok(ExecOutcome::Continue))
    } else if nib == 0x4 {
        (skip_pc(s, vx != nn), Ok(ExecOutcome::Continue))
    } else if nib == 0x5 {
        if n == 0 {
            (skip_pc(s, vx == vy), Ok(ExecOutcome::Continue))
        } else {
            (s, Err(VmError::Unsupported(w)))
        }
    } else if nib == 0x6 {
        (upd_reg(s, x, nn), Ok(ExecOutcome::Continue))
    } else if nib == 0x7 {
        (upd_reg(s, x, u8_specs::wrapping_add(vx, nn)), Ok(ExecOutcome::Continue))
    } else if nib == 0x8 {
        step_alu(s, w)
    } else if nib == 0x9 {
        if n == 0 {
            (skip_pc(s, vx != vy), Ok(ExecOutcome::Continue))
        } else {
            (s, Err(VmError::Unsupported(w)))
        }
    } else if nib == 0xA {
        (VmView { i: nnn, ..s }, Ok(ExecOutcome::Continue))
    } else if nib == 0xB {
        let src = if s.quirks.jump { x } else { 0 };
        (VmView { pc: (nnn + s.regs[src]) as u16, ..s }, Ok(ExecOutcome::Continue))
    } else if nib == 0xC {
        (upd_reg(s, x, rb & nn), Ok(ExecOutcome::Continue))
    } else if nib == 0xD {
        (draw_step(s, x, y, n as int), Ok(ExecOutcome::Continue))
    } else if nib == 0xE {
        if nn == 0x9E {
            (skip_pc(s, s.keys[vx as int]), Ok(ExecOutcome::Continue))
        } else if nn == 0xA1 {
            (skip_pc(s, !s.keys[vx as int]), Ok(ExecOutcome::Continue))
        } else {
            (s, Err(VmError::Unsupported(w)))
        }
    } else {
        // Every remaining word is in family F: all 16 family values are
        // covered, so an out-of-range family is unreachable by construction.
        step_f(s, w)
    }
}

/// The inputs on which the engine is defined: every address an instruction
/// dereferences must lie inside the 4096-byte memory, and a key test must
/// name one of the 16 keys. Outside these bounds a corrupt ROM has driven
/// the machine into territory the hardware model leaves undefined.
pub open spec fn exec_ok(s: VmView, w: u16) -> bool {
    let nib = spec_nibble(w);
    let x = spec_x(w) as int;
    let n = spec_n(w) as int;
    let nn = spec_nn(w);
    &&& (nib == 0xD && n > 0) ==> s.i + n <= 4096
    &&& (nib == 0xE && (nn == 0x9E || nn == 0xA1)) ==> s.regs[x] < 16
    &&& (nib == 0xF && nn == 0x33) ==> s.i + 2 < 4096
    &&& (nib == 0xF && (nn == 0x55 || nn == 0x65)) ==> s.i + x < 4096
}

} // verus!
