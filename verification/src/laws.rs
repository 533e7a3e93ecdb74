use vstd::prelude::*;
use vstd::wrapping::u8_specs;
use crate::instruction::{spec_n, spec_nibble, spec_nn, spec_x, spec_y};
use crate::state::{after_fetch, VmView};
use crate::step::{
    draw_collides, draw_collides_upto, draw_hits, draw_step, draw_target,
    lemma_first_pressed_prefix, lemma_hits_frame, lemma_mod_below_double, lemma_single_row_hits,
    lemma_target_bounds, sprite_pixel, step, ExecOutcome, VmError,
};

verus! {

/// Law: adding an immediate (7XNN) never writes the flag register. VX
/// takes its sum with NN, wrapping at 8 bits, and VF keeps its value
/// whenever X is not the flag register itself.
pub proof fn law_add_immediate_preserves_flag(s: VmView, w: u16)
    requires
        s.wf(),
        spec_nibble(w) == 0x7,
        spec_x(w) != 15,
    ensures
        step(s, w, 0).0.regs[15] == s.regs[15],
        step(s, w, 0).0.regs[spec_x(w) as int] == u8_specs::wrapping_add(
            s.regs[spec_x(w) as int],
            spec_nn(w),
        ),
{
    assert(((w >> 8) & 0xF) < 16) by (bit_vector);
}

/// Law: a top-level return (00EE) against an empty call stack requests a
/// halt and leaves the machine untouched; it never underflows the stack.
pub proof fn law_return_on_empty_stack_halts(s: VmView, w: u16)
    requires
        spec_nibble(w) == 0x0,
        spec_nn(w) == 0xEE,
        s.sp == 0,
    ensures
        step(s, w, 0).0 == s,
        step(s, w, 0).1 == Ok::<ExecOutcome, VmError>(ExecOutcome::Halt),
{
}

/// Law: the shift quirk selects the shifted source register of 8XY6. With
/// the quirk disabled the legacy source VY is read, with it enabled the
/// modern source VX; VX takes the source shifted right once and VF takes
/// the bit shifted out.
pub proof fn law_shift_source_quirk(s: VmView, w: u16)
    requires
        s.wf(),
        spec_nibble(w) == 0x8,
        spec_n(w) == 0x6,
    ensures
        ({
            let x = spec_x(w) as int;
            let y = spec_y(w) as int;
            let src = s.regs[if s.quirks.shift { x } else { y }];
            &&& step(s, w, 0).0.regs == s.regs.update(x, src >> 1).update(15, src & 1)
            &&& step(s, w, 0).1 == Ok::<ExecOutcome, VmError>(ExecOutcome::Continue)
        }),
{
    assert(((w >> 8) & 0xF) < 16) by (bit_vector);
    assert(((w >> 4) & 0xF) < 16) by (bit_vector);
}

/// Law: while nothing is pressed, a fetched key-wait cycle (FX0A) leaves
/// the machine exactly as it was: the fetch advances the program counter
/// and the instruction rewinds it, so any number of such cycles leaves
/// the counter unchanged.
pub proof fn law_key_wait_no_press(s: VmView, w: u16)
    requires
        s.wf(),
        s.pc + 1 < 4096,
        spec_nibble(w) == 0xF,
        spec_nn(w) == 0x0A,
        !s.waiting,
        forall|k: int| 0 <= k < 16 ==> !s.keys[k],
    ensures
        step(after_fetch(s), w, 0).0 == s,
        step(after_fetch(s), w, 0).1 == Ok::<ExecOutcome, VmError>(ExecOutcome::Continue),
{
    assert(((w >> 8) & 0xF) < 16) by (bit_vector);
    lemma_first_pressed_prefix(s.keys, 0, 16);
    assert(step(after_fetch(s), w, 0).0 =~= s);
}

/// Law: when the armed key of a key-wait (FX0A) is seen released, the
/// wait completes in that one cycle: the key's index lands in VX, the
/// machine returns to idle, and the program counter moves exactly one
/// instruction forward.
pub proof fn law_key_wait_release(s: VmView, w: u16)
    requires
        s.wf(),
        s.pc + 1 < 4096,
        spec_nibble(w) == 0xF,
        spec_nn(w) == 0x0A,
        s.waiting,
        !s.keys[s.wait_key],
    ensures
        step(after_fetch(s), w, 0).0 == (VmView {
            pc: (s.pc + 2) as u16,
            regs: s.regs.update(spec_x(w) as int, s.wait_key as u8),
            waiting: false,
            ..s
        }),
        step(after_fetch(s), w, 0).1 == Ok::<ExecOutcome, VmError>(ExecOutcome::Continue),
{
    assert(((w >> 8) & 0xF) < 16) by (bit_vector);
    assert(step(after_fetch(s), w, 0).0 =~= (VmView {
        pc: (s.pc + 2) as u16,
        regs: s.regs.update(spec_x(w) as int, s.wait_key as u8),
        waiting: false,
        ..s
    }));
}

/// Every bit of a fully-set sprite row byte is a set pixel.
proof fn lemma_full_row_bits()
    ensures
        forall|b: int| 0 <= b < 8 ==> sprite_pixel(0xFF, b),
{
    assert((0xFFu8 >> 7u8) & 1 == 1) by (bit_vector);
    assert((0xFFu8 >> 6u8) & 1 == 1) by (bit_vector);
    assert((0xFFu8 >> 5u8) & 1 == 1) by (bit_vector);
    assert((0xFFu8 >> 4u8) & 1 == 1) by (bit_vector);
    assert((0xFFu8 >> 3u8) & 1 == 1) by (bit_vector);
    assert((0xFFu8 >> 2u8) & 1 == 1) by (bit_vector);
    assert((0xFFu8 >> 1u8) & 1 == 1) by (bit_vector);
    assert((0xFFu8 >> 0u8) & 1 == 1) by (bit_vector);
    assert forall|b: int| 0 <= b < 8 implies sprite_pixel(0xFF, b) by {
        let sh = (7 - b) as u8;
        assert(sh == 7 || sh == 6 || sh == 5 || sh == 4 || sh == 3 || sh == 2 || sh == 1 || sh
            == 0);
    }
}

/// Law: drawing a fully-set one-row sprite twice at the same coordinates,
/// onto a cleared framebuffer, toggles every affected pixel back to off;
/// the first draw reports no collision and the second reports one. Stated
/// for anchor registers other than VF, which the first draw overwrites
/// with its collision flag.
pub proof fn law_draw_twice_restores(s: VmView, x: int, y: int)
    requires
        s.wf(),
        0 <= x < 16,
        0 <= y < 16,
        x != 15,
        y != 15,
        s.i < 4096,
        s.mem[s.i as int] == 0xFF,
        forall|k: int| 0 <= k < 2048 ==> !s.fb[k],
    ensures
        draw_step(s, x, y, 1).regs[15] == 0,
        draw_step(draw_step(s, x, y, 1), x, y, 1).regs[15] == 1,
        forall|k: int|
            0 <= k < 2048 ==> draw_step(draw_step(s, x, y, 1), x, y, 1).fb[k] == s.fb[k],
{
    lemma_full_row_bits();
    let x0 = s.regs[x] as int % 64;
    let y0 = s.regs[y] as int % 32;
    vstd::arithmetic::div_mod::lemma_mod_bound(s.regs[x] as int, 64);
    vstd::arithmetic::div_mod::lemma_mod_bound(s.regs[y] as int, 32);
    let s1 = draw_step(s, x, y, 1);

    // The first draw collides nowhere: every landing point is a cleared pixel.
    assert(!draw_collides(s, x0, y0, 1)) by {
        if draw_collides_upto(s, x0, y0, 1, 0) {
            let (r, b) = choose|r: int, b: int|
                0 <= r && 0 <= b < 8 && r < 1 && sprite_pixel(s.mem[s.i + r], b) && draw_target(
                    s.quirks.clip,
                    x0,
                    y0,
                    r,
                    b,
                ) >= 0 && s.fb[draw_target(s.quirks.clip, x0, y0, r, b)];
            lemma_target_bounds(s.quirks.clip, x0, y0, r, b);
        }
    }

    // The second draw anchors at the same coordinates and reads the same
    // sprite byte, and its hit set is the same.
    assert(s1.regs[x] == s.regs[x] && s1.regs[y] == s.regs[y]);
    assert forall|k: int| 0 <= k < 2048 implies draw_hits(s1, x0, y0, 1, k) == draw_hits(
        s,
        x0,
        y0,
        1,
        k,
    ) by {
        lemma_hits_frame(s1, s, x0, y0, 1, k);
    }

    // The cell at the anchor itself is never clipped, so the second draw
    // sees a lit pixel there.
    let t0 = draw_target(s.quirks.clip, x0, y0, 0, 0);
    assert(t0 == y0 * 64 + x0) by {
        if !s.quirks.clip {
            lemma_mod_below_double(y0, 32);
            lemma_mod_below_double(x0, 64);
        }
    }
    assert(draw_hits(s, x0, y0, 1, t0)) by {
        assert(0 <= 0 && 0 <= 0 < 8 && 0 < 1 && sprite_pixel(s.mem[s.i + 0], 0) && draw_target(
            s.quirks.clip,
            x0,
            y0,
            0,
            0,
        ) == t0);
    }
    assert(s1.fb[t0]);
    assert(draw_collides(s1, x0, y0, 1)) by {
        assert(0 <= 0 && 0 <= 0 < 8 && 0 < 1 && sprite_pixel(s1.mem[s1.i + 0], 0) && draw_target(
            s1.quirks.clip,
            x0,
            y0,
            0,
            0,
        ) >= 0 && s1.fb[draw_target(s1.quirks.clip, x0, y0, 0, 0)]);
    }
}

/// Law: wrap against clip for a fully-set one-row sprite anchored at
/// column 62. With the clip quirk off the eight pixels land on columns
/// 62, 63, 0, 1, 2, 3, 4, 5 of the anchor row; with it on, only columns
/// 62 and 63 are plotted, and the clipped pixels never contribute to the
/// collision flag, which reports exactly the two plotted pixels' prior
/// state.
pub proof fn law_wrap_vs_clip_row(s: VmView, x: int, y: int)
    requires
        s.wf(),
        0 <= x < 16,
        0 <= y < 16,
        s.regs[x] == 62,
        s.i < 4096,
        s.mem[s.i as int] == 0xFF,
    ensures
        ({
            let base = (s.regs[y] as int % 32) * 64;
            let post = draw_step(s, x, y, 1);
            &&& !s.quirks.clip ==> forall|k: int|
                0 <= k < 2048 ==> ((post.fb[k] != s.fb[k]) <==> (k == base + 62 || k == base + 63
                    || k == base || k == base + 1 || k == base + 2 || k == base + 3 || k == base + 4
                    || k == base + 5))
            &&& s.quirks.clip ==> forall|k: int|
                0 <= k < 2048 ==> ((post.fb[k] != s.fb[k]) <==> (k == base + 62 || k == base + 63))
            &&& s.quirks.clip ==> (post.regs[15] == 1 <==> (s.fb[base + 62] || s.fb[base + 63]))
        }),
{
    lemma_full_row_bits();
    let x0 = s.regs[x] as int % 64;
    let y0 = s.regs[y] as int % 32;
    vstd::arithmetic::div_mod::lemma_mod_bound(s.regs[y] as int, 32);
    assert(x0 == 62) by {
        lemma_mod_below_double(62, 64);
    }
    let base = y0 * 64;
    let post = draw_step(s, x, y, 1);
    assert(draw_target(s.quirks.clip, x0, y0, 0, 0) == base + 62 && draw_target(
        s.quirks.clip,
        x0,
        y0,
        0,
        1,
    ) == base + 63) by {
        lemma_mod_below_double(y0, 32);
        lemma_mod_below_double(62, 64);
        lemma_mod_below_double(63, 64);
    }
    if s.quirks.clip {
        // Bits 2..8 fall off the right edge and are dropped entirely.
        assert forall|k: int| 0 <= k < 2048 implies ((post.fb[k] != s.fb[k]) <==> (k == base + 62
            || k == base + 63)) by {
            lemma_single_row_hits(s, x0, y0, k);
            if k == base + 62 || k == base + 63 {
                assert(draw_hits(s, x0, y0, 1, k));
            }
        }
        assert(post.regs[15] == 1 <==> (s.fb[base + 62] || s.fb[base + 63])) by {
            if s.fb[base + 62] {
                assert(draw_collides_upto(s, x0, y0, 1, 0)) by {
                    assert(sprite_pixel(s.mem[s.i + 0], 0) && draw_target(true, x0, y0, 0, 0) >= 0
                        && s.fb[draw_target(true, x0, y0, 0, 0)]);
                }
            }
            if s.fb[base + 63] {
                assert(draw_collides_upto(s, x0, y0, 1, 0)) by {
                    assert(sprite_pixel(s.mem[s.i + 0], 1) && draw_target(true, x0, y0, 0, 1) >= 0
                        && s.fb[draw_target(true, x0, y0, 0, 1)]);
                }
            }
            if draw_collides_upto(s, x0, y0, 1, 0) {
                let (r, b) = choose|r: int, b: int|
                    0 <= r && 0 <= b < 8 && r < 1 && sprite_pixel(s.mem[s.i + r], b)
                        && draw_target(true, x0, y0, r, b) >= 0 && s.fb[draw_target(
                        true,
                        x0,
                        y0,
                        r,
                        b,
                    )];
                assert(b == 0 || b == 1);
            }
        }
    } else {
        // Bits 2..8 wrap around the left edge onto columns 0..6.
        assert forall|b: int| 2 <= b < 8 implies draw_target(false, x0, y0, 0, b) == base + (b - 2)
            by {
            lemma_mod_below_double(y0, 32);
            lemma_mod_below_double(62 + b, 64);
        }
        assert forall|k: int| 0 <= k < 2048 implies ((post.fb[k] != s.fb[k]) <==> (k == base + 62
            || k == base + 63 || k == base || k == base + 1 || k == base + 2 || k == base + 3 || k
            == base + 4 || k == base + 5)) by {
            lemma_single_row_hits(s, x0, y0, k);
            if k == base + 62 || k == base + 63 {
                assert(draw_hits(s, x0, y0, 1, k));
            }
            if k == base || k == base + 1 || k == base + 2 || k == base + 3 || k == base + 4 || k
                == base + 5 {
                let b = k - base + 2;
                assert(0 <= b < 8 && sprite_pixel(s.mem[s.i as int], b) && draw_target(
                    false,
                    x0,
                    y0,
                    0,
                    b,
                ) == k);
                assert(draw_hits(s, x0, y0, 1, k));
            }
        }
    }
}

} // verus!
