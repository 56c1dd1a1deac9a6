use vstd::prelude::*;

use crate::model::{
    byte_mask, collides, cycle_spec, exec_alu, draw_mask, draw_spec, execute, opcode_at,
    row_collides, sprite_row, ExecError, Machine, DISPLAY_START, MEMORY_SIZE, STACK_DEPTH,
};

verus! {

/// `k` cycles with the delay timer holding `t`, stopping at the first error.
pub open spec fn run(m: Machine, t: u8, k: nat) -> (Machine, Result<(), ExecError>)
    decreases k,
{
    if k == 0 {
        (m, Ok(()))
    } else {
        let (m1, r) = cycle_spec(m, t);
        if r is Err {
            (m1, r)
        } else {
            run(m1, t, (k - 1) as nat)
        }
    }
}

/// Loading `v` into V0 and then adding `w` to it leaves (v + w) mod 256 in V0;
/// the add does not touch the flag register VF.
pub proof fn load_then_add_wraps(m: Machine, v: u8, w: u8, t1: u8, t2: u8)
    requires
        m.wf(),
        m.wait is None,
        m.pc + 3 < MEMORY_SIZE,
        m.memory[m.pc as int] == 0x60,
        m.memory[m.pc + 1] == v,
        m.memory[m.pc + 2] == 0x70,
        m.memory[m.pc + 3] == w,
    ensures
        ({
            let (m1, r1) = cycle_spec(m, t1);
            let (m2, r2) = cycle_spec(m1, t2);
            &&& r1 is Ok && r2 is Ok
            &&& m1.registers[0] == v
            &&& m2.registers[0] == (v + w) % 256
            &&& m2.registers[15] == m1.registers[15]
            &&& m2.pc == m.pc + 4
        }),
{
    reveal(execute);
    let (m1, r1) = cycle_spec(m, t1);
    assert(opcode_at(m.memory, m.pc as int) == 0x6000 + v);
    assert(m1.op == 0x6000 + v);
    assert(m1.pc == m.pc + 2);
    assert(opcode_at(m1.memory, m1.pc as int) == 0x7000 + w);
}

/// 8XY4 sets VF to 1 exactly when VX + VY exceeds 255; 8XY5 sets it to 1
/// exactly when VX is at least VY.
#[verifier::rlimit(60)]
pub proof fn carry_and_borrow_flags(m: Machine, x: u16, y: u16, t: u8)
    requires
        m.wf(),
        x < 16,
        y < 16,
    ensures
        ({
            let vx = m.registers[x as int];
            let vy = m.registers[y as int];
            let add = Machine { op: (0x8004 + x * 256 + y * 16) as u16, ..m };
            let sub = Machine { op: (0x8005 + x * 256 + y * 16) as u16, ..m };
            &&& execute(add, t).0.registers[15] == if vx + vy > 255 {
                1u8
            } else {
                0u8
            }
            &&& execute(sub, t).0.registers[15] == if vx >= vy {
                1u8
            } else {
                0u8
            }
        }),
{
    reveal(execute);
    let add_op = (0x8004 + x * 256 + y * 16) as u16;
    let sub_op = (0x8005 + x * 256 + y * 16) as u16;
    assert(add_op / 0x1000 == 8 && add_op % 16 == 4);
    assert(add_op / 256 % 16 == x && add_op / 16 % 16 == y);
    assert(sub_op / 0x1000 == 8 && sub_op % 16 == 5);
    assert(sub_op / 256 % 16 == x && sub_op / 16 % 16 == y);
    let add = Machine { op: add_op, ..m };
    let sub = Machine { op: sub_op, ..m };
    assert(execute(add, t) == exec_alu(add));
    assert(execute(sub, t) == exec_alu(sub));
}

proof fn lemma_xor_twice()
    ensures
        forall|a: u8, k: u8| #[trigger] ((a ^ k) ^ k) == a,
{
    assert(forall|a: u8, k: u8| #[trigger] ((a ^ k) ^ k) == a) by (bit_vector);
}

proof fn lemma_draw_keeps_below_display(m: Machine, vx: u8, vy: u8, n: int)
    requires
        m.wf(),
        0 <= n < 16,
    ensures
        forall|p: int|
            0 <= p < DISPLAY_START ==> #[trigger] draw_spec(m, vx, vy, n).memory[p] == m.memory[p],
{
    assert(forall|a: u8| #[trigger] (a ^ 0u8) == a) by (bit_vector);
}

/// Drawing the same sprite twice at the same place gives memory, and so the
/// framebuffer, back as it was, when the first draw leaves the sprite's own
/// bytes alone.
pub proof fn draw_twice_erases(m: Machine, vx: u8, vy: u8, n: int)
    requires
        m.wf(),
        0 <= n < 16,
        m.i + n <= MEMORY_SIZE,
        draw_spec(m, vx, vy, n).memory.subrange(m.i as int, m.i + n) == m.memory.subrange(
            m.i as int,
            m.i + n,
        ),
    ensures
        draw_spec(draw_spec(m, vx, vy, n), vx, vy, n).memory == m.memory,
{
    lemma_xor_twice();
    let m1 = draw_spec(m, vx, vy, n);
    assert(draw_spec(m1, vx, vy, n).memory =~= m.memory);
}

/// A draw reports a collision exactly when some row of the sprite meets a
/// lit pixel of the framebuffer as it was before the draw.
pub proof fn draw_reports_overlap(m: Machine, vx: u8, vy: u8, n: int)
    requires
        m.wf(),
        0 <= n < 16,
        m.i + n <= MEMORY_SIZE,
    ensures
        draw_spec(m, vx, vy, n).registers[15] == 1 <==> exists|r: int|
            0 <= r < n && #[trigger] row_collides(
                m.memory,
                m.memory.subrange(m.i as int, m.i + n),
                (vx % 64) as int,
                (vy % 32) as int,
                r,
            ),
{
}

/// On a blank framebuffer, drawing a sprite a second time at the same place
/// (its bytes left alone by the first draw) reports a collision exactly
/// when some byte of the sprite is not zero.
pub proof fn redraw_on_blank_screen_collides(m: Machine, vx: u8, vy: u8, n: int)
    requires
        m.wf(),
        0 <= n < 16,
        m.i + n <= MEMORY_SIZE,
        forall|p: int| DISPLAY_START <= p < MEMORY_SIZE ==> m.memory[p] == 0,
        draw_spec(m, vx, vy, n).memory.subrange(m.i as int, m.i + n) == m.memory.subrange(
            m.i as int,
            m.i + n,
        ),
    ensures
        draw_spec(draw_spec(m, vx, vy, n), vx, vy, n).registers[15] == 1 <==> exists|r: int|
            0 <= r < n && #[trigger] m.memory[m.i + r] != 0,
{
    let m1 = draw_spec(m, vx, vy, n);
    let s = m.memory.subrange(m.i as int, m.i + n);
    let x = (vx % 64) as int;
    let y = (vy % 32) as int;
    let c0 = x / 8;
    let c1 = (c0 + 1) % 8;
    let sh = (x % 8) as u8;
    assert(m1.memory.subrange(m1.i as int, m1.i + n) == s);
    assert(forall|z: u8| #[trigger] (0u8 ^ z) == z) by (bit_vector);
    assert(forall|z: u8| #[trigger] (z & z) == z) by (bit_vector);
    assert forall|r: int| 0 <= r < n implies #[trigger] row_collides(m1.memory, s, x, y, r) == (
    m.memory[m.i + r] != 0) by {
        let base = DISPLAY_START + (y + r) % 32 * 8;
        assert((base + c0 - DISPLAY_START) / 8 == (y + r) % 32);
        assert((base + c1 - DISPLAY_START) / 8 == (y + r) % 32);
        assert((base + c0 - DISPLAY_START) % 8 == c0);
        assert((base + c1 - DISPLAY_START) % 8 == c1);
        assert(sprite_row(y, (y + r) % 32) == r);
        assert(m1.memory[base + c0] == m.memory[base + c0] ^ byte_mask(s[r], x, c0));
        assert(m1.memory[base + c1] == m.memory[base + c1] ^ byte_mask(s[r], x, c1));
        let b = s[r];
        assert(b == m.memory[m.i + r]);
        assert(sh < 8);
        assert((b != 0) == ((b >> sh) != 0 || (sh != 0 && ((b << (8 - sh) as u8) as u8) != 0)))
            by (bit_vector)
            requires
                sh < 8,
        ;
    }
    if exists|r: int| 0 <= r < n && #[trigger] m.memory[m.i + r] != 0 {
        let r = choose|r: int| 0 <= r < n && #[trigger] m.memory[m.i + r] != 0;
        assert(row_collides(m1.memory, s, x, y, r));
    }
}

/// The second of two draws of one sprite at one place reports no collision
/// when every pixel of the sprite was lit before the first.
pub proof fn redraw_on_lit_pixels_reports_none(m: Machine, vx: u8, vy: u8, n: int)
    requires
        m.wf(),
        0 <= n < 16,
        m.i + n <= DISPLAY_START,
        forall|p: int|
            0 <= p < MEMORY_SIZE ==> #[trigger] (m.memory[p] & draw_mask(
                m.memory.subrange(m.i as int, m.i + n),
                (vx % 64) as int,
                (vy % 32) as int,
                n,
                p,
            )) == draw_mask(
                m.memory.subrange(m.i as int, m.i + n),
                (vx % 64) as int,
                (vy % 32) as int,
                n,
                p,
            ),
    ensures
        draw_spec(draw_spec(m, vx, vy, n), vx, vy, n).registers[15] == 0,
{
    let m1 = draw_spec(m, vx, vy, n);
    let s = m.memory.subrange(m.i as int, m.i + n);
    let x = (vx % 64) as int;
    let y = (vy % 32) as int;
    lemma_draw_keeps_below_display(m, vx, vy, n);
    assert(m1.memory.subrange(m1.i as int, m1.i + n) =~= s);
    assert(forall|a: u8, k: u8| (a & k) == k ==> #[trigger] ((a ^ k) & k) == 0) by (bit_vector);
    assert forall|r: int| 0 <= r < n implies !#[trigger] row_collides(m1.memory, s, x, y, r) by {
        let base = DISPLAY_START + (y + r) % 32 * 8;
        let c0 = x / 8;
        let c1 = (c0 + 1) % 8;
        assert((base + c0 - DISPLAY_START) / 8 == (y + r) % 32);
        assert((base + c1 - DISPLAY_START) / 8 == (y + r) % 32);
        assert((base + c0 - DISPLAY_START) % 8 == c0);
        assert((base + c1 - DISPLAY_START) % 8 == c1);
        assert(sprite_row(y, (y + r) % 32) == r);
        assert(draw_mask(s, x, y, n, base + c0) == byte_mask(s[r], x, c0));
        assert(draw_mask(s, x, y, n, base + c1) == byte_mask(s[r], x, c1));
        assert(m.memory[base + c0] & draw_mask(s, x, y, n, base + c0) == draw_mask(
            s,
            x,
            y,
            n,
            base + c0,
        ));
        assert(m.memory[base + c1] & draw_mask(s, x, y, n, base + c1) == draw_mask(
            s,
            x,
            y,
            n,
            base + c1,
        ));
    }
    assert(!collides(m1.memory, s, x, y, n));
}

/// On a blank framebuffer, drawing a sprite and then another one at the
/// same place whose rows share a lit pixel with it reports a collision.
pub proof fn overlapping_sprites_collide(m: Machine, vx: u8, vy: u8, n: int, i2: u16, r: int)
    requires
        m.wf(),
        0 <= n < 16,
        m.i + n <= DISPLAY_START,
        i2 + n <= DISPLAY_START,
        forall|p: int| DISPLAY_START <= p < MEMORY_SIZE ==> m.memory[p] == 0,
        0 <= r < n,
        m.memory[m.i + r] & m.memory[i2 + r] != 0,
    ensures
        draw_spec(Machine { i: i2, ..draw_spec(m, vx, vy, n) }, vx, vy, n).registers[15] == 1,
{
    let m1 = draw_spec(m, vx, vy, n);
    let s1 = m.memory.subrange(m.i as int, m.i + n);
    let m2 = Machine { i: i2, ..m1 };
    let s2 = m2.memory.subrange(i2 as int, i2 + n);
    let x = (vx % 64) as int;
    let y = (vy % 32) as int;
    let base = DISPLAY_START + (y + r) % 32 * 8;
    let c0 = x / 8;
    let c1 = (c0 + 1) % 8;
    let sh = (x % 8) as u8;
    lemma_draw_keeps_below_display(m, vx, vy, n);
    assert(s2[r] == m.memory[i2 + r]);
    assert(s1[r] == m.memory[m.i + r]);
    assert((base + c0 - DISPLAY_START) / 8 == (y + r) % 32);
    assert((base + c1 - DISPLAY_START) / 8 == (y + r) % 32);
    assert((base + c0 - DISPLAY_START) % 8 == c0);
    assert((base + c1 - DISPLAY_START) % 8 == c1);
    assert(sprite_row(y, (y + r) % 32) == r);
    assert(m1.memory[base + c0] == m.memory[base + c0] ^ byte_mask(s1[r], x, c0));
    assert(m1.memory[base + c1] == m.memory[base + c1] ^ byte_mask(s1[r], x, c1));
    assert(forall|z: u8| #[trigger] (0u8 ^ z) == z) by (bit_vector);
    let a = s1[r];
    let b = s2[r];
    assert(sh < 8);
    assert(((a >> sh) & (b >> sh)) != 0 || (sh != 0 && (((a << (8 - sh) as u8) as u8) & ((b << (8
        - sh) as u8) as u8)) != 0)) by (bit_vector)
        requires
            a & b != 0,
            sh < 8,
    ;
    assert(row_collides(m2.memory, s2, x, y, r));
}

/// A jump to NNN makes the next cycle fetch its opcode from NNN itself.
pub proof fn jump_fetches_target(m: Machine, nnn: u16, t1: u8, t2: u8)
    requires
        m.wf(),
        m.wait is None,
        m.pc + 1 < MEMORY_SIZE,
        nnn < 0x1000,
        nnn + 1 < MEMORY_SIZE,
        opcode_at(m.memory, m.pc as int) == 0x1000 + nnn,
    ensures
        ({
            let (m1, r1) = cycle_spec(m, t1);
            &&& r1 is Ok
            &&& m1.pc == nnn
            &&& cycle_spec(m1, t2).0.op == opcode_at(m.memory, nnn as int)
        }),
{
    reveal(execute);
}

/// With an instruction at `a` that calls `a` itself, each of the first 24
/// cycles from an empty stack pushes one return address and succeeds.
pub proof fn nested_calls_fill_stack(m: Machine, a: u16, t: u8, k: nat)
    requires
        m.wf(),
        m.wait is None,
        m.sp == 0,
        m.pc == a,
        a < 0x1000,
        a + 1 < MEMORY_SIZE,
        opcode_at(m.memory, a as int) == 0x2000 + a,
        k <= STACK_DEPTH,
    ensures
        run(m, t, k).1 is Ok,
        run(m, t, k).0.sp == k,
        run(m, t, k).0.pc == a,
        run(m, t, k).0.memory == m.memory,
        run(m, t, k).0.wf(),
        run(m, t, k).0.wait is None,
    decreases k,
{
    reveal(execute);
    if k > 0 {
        nested_calls_fill_stack(m, a, t, (k - 1) as nat);
        lemma_run_split(m, t, (k - 1) as nat);
    }
}

/// A call with a free stack slot pushes the address after it, which the
/// program counter holds, and jumps to NNN; with all 24 slots in use it fails
/// with a stack overflow and changes nothing.
pub proof fn call_pushes_or_overflows(m: Machine, nnn: u16, t: u8)
    requires
        m.wf(),
        nnn < 0x1000,
    ensures
        ({
            let c = Machine { op: (0x2000 + nnn) as u16, ..m };
            let (m1, r) = execute(c, t);
            &&& m.sp < STACK_DEPTH ==> r is Ok && m1.stack == m.stack.update(m.sp as int, m.pc)
                && m1.sp == m.sp + 1 && m1.pc == nnn && m1.registers == m.registers
                && m1.memory == m.memory
            &&& m.sp == STACK_DEPTH ==> r == Err::<(), ExecError>(ExecError::StackOverflow) && m1
                == c
        }),
{
    reveal(execute);
    let op = (0x2000 + nnn) as u16;
    assert(op / 0x1000 == 2 && op % 0x1000 == nnn);
}

/// One cycle more after `k` error-free ones.
proof fn lemma_run_split(m: Machine, t: u8, k: nat)
    requires
        run(m, t, k).1 is Ok,
    ensures
        run(m, t, k + 1) == cycle_spec(run(m, t, k).0, t),
    decreases k,
{
    reveal(execute);
    let (m1, r) = cycle_spec(m, t);
    if k > 0 {
        assert(r is Ok);
        lemma_run_split(m1, t, (k - 1) as nat);
        assert(run(m, t, k + 1) == run(m1, t, k));
    } else {
        assert(run(m1, t, 0) == (m1, Ok::<(), ExecError>(())));
    }
}

/// The 25th nested call, with all 24 stack slots in use, fails with a stack
/// overflow.
pub proof fn call_on_full_stack_overflows(m: Machine, a: u16, t: u8)
    requires
        m.wf(),
        m.wait is None,
        m.sp == 0,
        m.pc == a,
        a < 0x1000,
        a + 1 < MEMORY_SIZE,
        opcode_at(m.memory, a as int) == 0x2000 + a,
    ensures
        run(m, t, (STACK_DEPTH + 1) as nat).1 == Err::<(), ExecError>(ExecError::StackOverflow),
{
    reveal(execute);
    nested_calls_fill_stack(m, a, t, STACK_DEPTH as nat);
    lemma_run_split(m, t, STACK_DEPTH as nat);
}

/// While the machine waits for a key and none is held, any number of cycles
/// leaves it exactly as it was.
pub proof fn waiting_without_key_changes_nothing(m: Machine, t: u8, k: nat)
    requires
        m.wait is Some,
        m.key is None,
    ensures
        run(m, t, k) == (m, Ok::<(), ExecError>(())),
    decreases k,
{
    reveal(execute);
    if k > 0 {
        waiting_without_key_changes_nothing(m, t, (k - 1) as nat);
    }
}

/// A held key ends the wait on the next cycle, which stores it in the waiting
/// register and fetches nothing; the cycle after it fetches from the program
/// counter again.
pub proof fn key_ends_wait(m: Machine, k: u8, t1: u8, t2: u8)
    requires
        m.wf(),
        m.wait is Some,
        m.key == Some(k),
        m.pc + 1 < MEMORY_SIZE,
    ensures
        ({
            let (m1, r1) = cycle_spec(m, t1);
            let m2 = cycle_spec(m1, t2).0;
            &&& r1 is Ok
            &&& m1.wait is None
            &&& m1.registers[m.wait->Some_0 as int] == k
            &&& m1.pc == m.pc
            &&& m1.memory == m.memory
            &&& m2.op == opcode_at(m.memory, m.pc as int)
        }),
{
    reveal(execute);
}

} // verus!
