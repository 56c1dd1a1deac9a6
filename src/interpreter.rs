use std::sync::atomic::{AtomicU8, Ordering};
use std::sync::Arc;

use vstd::prelude::*;

use crate::model::{
    bcd_spec, byte_mask, timer_write, exec_alu, exec_high, exec_low, exec_misc, clear_spec, collides, cycle_spec, draw_spec, drawn, dump_spec,
    execute, font, keypad_of, restore_spec, row_collides, row_word, set_reg,
    set_reg_flag, skip_if, sprite_row, ExecError, LoadError, Machine, DEFAULT_SEED,
    DISPLAY_START, FONT_SIZE, MEMORY_SIZE, PROGRAM_SPACE, PROGRAM_START, STACK_DEPTH,
};
use crate::rng::RNG;

verus! {

/// Saturating decrement of the delay timer, done once per clock tick.
pub fn timer_tick(t: u8) -> (r: u8)
    ensures
        r == if t > 0 {
            (t - 1) as u8
        } else {
            0u8
        },
{
    if t > 0 {
        t - 1
    } else {
        0
    }
}

proof fn lemma_xor_zero()
    ensures
        forall|a: u8| #[trigger] (a ^ 0u8) == a,
{
    assert(forall|a: u8| #[trigger] (a ^ 0u8) == a) by (bit_vector);
}

/// Drawing sprite row `r` changes the two framebuffer bytes it covers, which
/// no earlier row touched.
proof fn lemma_draw_row(mem: Seq<u8>, sprite: Seq<u8>, x: int, y: int, r: int)
    requires
        mem.len() == MEMORY_SIZE,
        0 <= x < 64,
        0 <= y < 32,
        0 <= r < sprite.len() < 16,
    ensures
        ({
            let cur = drawn(mem, sprite, x, y, r);
            let base = DISPLAY_START + (y + r) % 32 * 8;
            let c0 = x / 8;
            let c1 = (c0 + 1) % 8;
            &&& cur[base + c0] == mem[base + c0]
            &&& cur[base + c1] == mem[base + c1]
            &&& drawn(mem, sprite, x, y, r + 1) == cur.update(
                base + c0,
                mem[base + c0] ^ byte_mask(sprite[r], x, c0),
            ).update(base + c1, mem[base + c1] ^ byte_mask(sprite[r], x, c1))
        }),
{
    lemma_xor_zero();
    let cur = drawn(mem, sprite, x, y, r);
    let next = drawn(mem, sprite, x, y, r + 1);
    let row = (y + r) % 32;
    let base = DISPLAY_START + row * 8;
    let c0 = x / 8;
    let c1 = (c0 + 1) % 8;
    assert((base + c0 - DISPLAY_START) / 8 == row);
    assert((base + c1 - DISPLAY_START) / 8 == row);
    assert((base + c0 - DISPLAY_START) % 8 == c0);
    assert((base + c1 - DISPLAY_START) % 8 == c1);
    assert(sprite_row(y, row) == r);
    let upd = cur.update(base + c0, mem[base + c0] ^ byte_mask(sprite[r], x, c0)).update(
        base + c1,
        mem[base + c1] ^ byte_mask(sprite[r], x, c1),
    );
    assert forall|p: int| 0 <= p < MEMORY_SIZE implies next[p] == upd[p] by {
        let off = p - DISPLAY_START;
        if DISPLAY_START <= p && sprite_row(y, off / 8) == r {
            assert(off / 8 == row);
            if p != base + c0 && p != base + c1 {
                assert(off % 8 != c0 && off % 8 != c1);
                assert(byte_mask(sprite[r], x, off % 8) == 0);
            }
        }
    }
    assert(next =~= upd);
}

proof fn lemma_ok_unit(r: Result<(), ExecError>)
    requires
        r is Ok,
    ensures
        r == Ok::<(), ExecError>(()),
{
    match r {
        Ok(u) => {
            let () = u;
        },
        Err(_) => {},
    }
}

/// A CHIP-8 virtual machine: memory, registers, call stack, framebuffer and
/// the key-wait state. The delay timer is shared with a clock that counts it
/// down; see [`CHIP8::timer`].
pub struct CHIP8 {
    memory: Vec<u8>,
    pc: u16,
    stack: Vec<u16>,
    sp: usize,
    op: u16,
    key: Option<u8>,
    registers: Vec<u8>,
    i: u16,
    rng: RNG,
    delay_timer: Arc<AtomicU8>,
    key_wait_target: Option<usize>,
    pub draw_flag: bool,
    pub clear_flag: bool,
}

impl View for CHIP8 {
    type V = Machine;

    closed spec fn view(&self) -> Machine {
        Machine {
            memory: self.memory@,
            registers: self.registers@,
            stack: self.stack@,
            sp: self.sp,
            pc: self.pc,
            i: self.i,
            op: self.op,
            key: self.key,
            wait: self.key_wait_target,
            rng: self.rng.0,
            draw_flag: self.draw_flag,
            clear_flag: self.clear_flag,
        }
    }
}

/// A fresh machine with the given generator seed, before the font is loaded.
pub open spec fn blank(seed: u8) -> Machine {
    Machine {
        memory: Seq::new(MEMORY_SIZE as nat, |p: int| 0u8),
        registers: Seq::new(16, |r: int| 0u8),
        stack: Seq::new(STACK_DEPTH as nat, |s: int| 0u16),
        sp: 0,
        pc: PROGRAM_START,
        i: PROGRAM_START,
        op: 0,
        key: None,
        wait: None,
        rng: seed,
        draw_flag: false,
        clear_flag: false,
    }
}

/// Memory with the font written at address 0.
pub open spec fn with_font(mem: Seq<u8>) -> Seq<u8> {
    Seq::new(
        mem.len(),
        |p: int|
            if p < FONT_SIZE {
                font()[p]
            } else {
                mem[p]
            },
    )
}

/// A fresh machine with the font loaded.
pub open spec fn initial(seed: u8) -> Machine {
    Machine { memory: with_font(blank(seed).memory), ..blank(seed) }
}

impl Default for CHIP8 {
    fn default() -> (r: Self)
        ensures
            r.wf(),
            r@ == initial(DEFAULT_SEED),
    {
        Self::with_seed(DEFAULT_SEED)
    }
}

impl CHIP8 {
    pub open spec fn wf(&self) -> bool {
        self@.wf()
    }

    /// A machine with the font loaded, the program counter at 0x200 and the
    /// default generator seed.
    pub fn new() -> (r: Self)
        ensures
            r.wf(),
            r@ == initial(DEFAULT_SEED),
    {
        Self::with_seed(DEFAULT_SEED)
    }

    /// A machine as [`CHIP8::new`] makes it, with its generator seeded by `seed`.
    pub fn with_seed(seed: u8) -> (r: Self)
        ensures
            r.wf(),
            r@ == initial(seed),
    {
        let mut m = CHIP8 {
            memory: vec![0u8; MEMORY_SIZE],
            pc: PROGRAM_START,
            stack: vec![0u16; STACK_DEPTH],
            sp: 0,
            op: 0,
            key: None,
            registers: vec![0u8; 16],
            i: PROGRAM_START,
            rng: RNG(seed),
            delay_timer: Arc::new(AtomicU8::new(0)),
            key_wait_target: None,
            draw_flag: false,
            clear_flag: false,
        };
        assert(m.memory@ =~= blank(seed).memory);
        assert(m.registers@ =~= blank(seed).registers);
        assert(m.stack@ =~= blank(seed).stack);
        m.load_fonts();
        m
    }

    /// The delay timer, for the clock that counts it down with
    /// [`timer_tick`].
    pub fn timer(&self) -> &Arc<AtomicU8> {
        &self.delay_timer
    }

    /// Writes the built-in font at address 0.
    pub fn load_fonts(&mut self)
        requires
            old(self).wf(),
        ensures
            final(self).wf(),
            final(self)@ == (Machine { memory: with_font(old(self)@.memory), ..old(self)@ }),
    {
        let f: Vec<u8> = vec![
            0xf0u8, 0x90, 0x90, 0x90, 0xf0,
            0x10, 0x30, 0x10, 0x10, 0x10,
            0xf0, 0x10, 0xf0, 0x80, 0xf0,
            0xf0, 0x10, 0xf0, 0x10, 0xf0,
            0x90, 0x90, 0xf0, 0x10, 0x10,
            0xf0, 0x80, 0xf0, 0x10, 0xf0,
            0xf0, 0x80, 0xf0, 0x90, 0xf0,
            0xf0, 0x10, 0x10, 0x10, 0x10,
            0xf0, 0x90, 0xf0, 0x90, 0xf0,
            0xf0, 0x90, 0xf0, 0x10, 0xf0,
            0xf0, 0x90, 0xf0, 0x90, 0x90,
            0x80, 0x80, 0xf0, 0x90, 0xf0,
            0xf0, 0x80, 0x80, 0x80, 0xf0,
            0x10, 0x10, 0xf0, 0x90, 0xf0,
            0xf0, 0x80, 0xe0, 0x80, 0xf0,
            0xf0, 0x80, 0xe0, 0x80, 0x80,
        ];
        assert(f@ =~= font());
        let ghost pre = self@;
        let ghost old_mem = self.memory@;
        let mut p: usize = 0;
        while p < FONT_SIZE
            invariant
                p <= FONT_SIZE,
                f@ == font(),
                self@ == (Machine { memory: self.memory@, ..pre }),
                self.memory@.len() == MEMORY_SIZE,
                old_mem.len() == MEMORY_SIZE,
                forall|q: int| 0 <= q < p ==> self.memory@[q] == font()[q],
                forall|q: int| p <= q < MEMORY_SIZE ==> self.memory@[q] == old_mem[q],
            decreases FONT_SIZE - p,
        {
            self.memory.set(p, f[p]);
            p += 1;
        }
        assert(self.memory@ =~= with_font(old_mem));
    }

    /// Copies a program to address 0x200. A program longer than the 0xD00
    /// bytes between there and the framebuffer is refused and nothing changes.
    pub fn load_game(&mut self, game: &[u8]) -> (r: Result<(), LoadError>)
        requires
            old(self).wf(),
        ensures
            final(self).wf(),
            game@.len() > PROGRAM_SPACE ==> r == Err::<(), LoadError>(LoadError::RomTooLarge)
                && final(self)@ == old(self)@,
            game@.len() <= PROGRAM_SPACE ==> r is Ok && final(self)@ == (Machine {
                memory: Seq::new(
                    MEMORY_SIZE as nat,
                    |p: int|
                        if PROGRAM_START <= p < PROGRAM_START + game@.len() {
                            game@[p - PROGRAM_START]
                        } else {
                            old(self)@.memory[p]
                        },
                ),
                ..old(self)@
            }),
    {
        if game.len() > PROGRAM_SPACE {
            return Err(LoadError::RomTooLarge);
        }
        let ghost pre = self@;
        let ghost old_mem = self.memory@;
        let mut k: usize = 0;
        while k < game.len()
            invariant
                k <= game@.len() <= PROGRAM_SPACE,
                self@ == (Machine { memory: self.memory@, ..pre }),
                pre.wf(),
                self.memory@.len() == MEMORY_SIZE,
                forall|p: int|
                    0 <= p < MEMORY_SIZE ==> self.memory@[p] == if PROGRAM_START <= p
                        < PROGRAM_START + k {
                        game@[p - PROGRAM_START]
                    } else {
                        old_mem[p]
                    },
            decreases game@.len() - k,
        {
            self.memory.set(PROGRAM_START as usize + k, game[k]);
            k += 1;
        }
        assert(self.memory@ =~= Seq::new(
            MEMORY_SIZE as nat,
            |p: int|
                if PROGRAM_START <= p < PROGRAM_START + game@.len() {
                    game@[p - PROGRAM_START]
                } else {
                    old_mem[p]
                },
        ));
        Ok(())
    }

    /// Framebuffer row `addr` as one word, its leftmost pixel in the top
    /// bit; a row outside 0 to 31 is out of bounds.
    pub fn line_at(&self, addr: isize) -> (r: Result<u64, ExecError>)
        requires
            self.wf(),
        ensures
            0 <= addr < 32 ==> r == Ok::<u64, ExecError>(row_word(self@.memory, addr as int)),
            !(0 <= addr < 32) ==> r == Err::<u64, ExecError>(ExecError::OutOfBounds),
    {
        if addr < 0 || addr >= 32 {
            return Err(ExecError::OutOfBounds);
        }
        let b = DISPLAY_START + addr as usize * 8;
        let w = (((self.memory[b] as u64) << 56u64) | ((self.memory[b + 1] as u64) << 48u64) | ((
        self.memory[b + 2] as u64) << 40u64) | ((self.memory[b + 3] as u64) << 32u64) | ((
        self.memory[b + 4] as u64) << 24u64) | ((self.memory[b + 5] as u64) << 16u64) | ((
        self.memory[b + 6] as u64) << 8u64) | (self.memory[b + 7] as u64));
        Ok(w)
    }

    /// The opcode fetched last.
    pub fn current_op(&self) -> (r: u16)
        ensures
            r == self@.op,
    {
        self.op
    }

    /// Register `VX`.
    pub fn register(&self, x: usize) -> (r: u8)
        requires
            self.wf(),
            x < 16,
        ensures
            r == self@.registers[x as int],
    {
        self.registers[x]
    }

    /// The program counter.
    pub fn pc(&self) -> (r: u16)
        ensures
            r == self@.pc,
    {
        self.pc
    }

    /// The index register `I`.
    pub fn index(&self) -> (r: u16)
        ensures
            r == self@.i,
    {
        self.i
    }

    /// The number of return addresses on the call stack.
    pub fn stack_depth(&self) -> (r: usize)
        ensures
            r == self@.sp,
    {
        self.sp
    }

    /// The byte at address `addr`.
    pub fn memory_at(&self, addr: usize) -> (r: u8)
        requires
            self.wf(),
            addr < MEMORY_SIZE,
        ensures
            r == self@.memory[addr as int],
    {
        self.memory[addr]
    }

    /// The state of the random generator.
    pub fn rng_state(&self) -> (r: u8)
        ensures
            r == self@.rng,
    {
        self.rng.0
    }

    /// Whether the machine waits for a key.
    pub fn is_waiting(&self) -> (r: bool)
        ensures
            r == self@.wait is Some,
    {
        self.key_wait_target.is_some()
    }

    /// Sets the key held down now (0 to 15), or none.
    pub fn set_key(&mut self, k: Option<u8>)
        requires
            old(self).wf(),
            k matches Some(v) ==> v < 16,
        ensures
            final(self).wf(),
            final(self)@ == (Machine { key: k, ..old(self)@ }),
    {
        self.key = k;
    }

    /// Takes a byte from the keyboard: the keys 1234, qwer, asdf and zxcv
    /// stand for the hexadecimal keypad 123C, 456D, 789E and A0BF; any other
    /// byte means no key.
    pub fn key(&mut self, k: u8)
        requires
            old(self).wf(),
        ensures
            final(self).wf(),
            final(self)@ == (Machine { key: keypad_of(k), ..old(self)@ }),
    {
        self.key = if k == '1' as u8 {
            Some(1)
        } else if k == '2' as u8 {
            Some(2)
        } else if k == '3' as u8 {
            Some(3)
        } else if k == 'q' as u8 {
            Some(4)
        } else if k == 'w' as u8 {
            Some(5)
        } else if k == 'e' as u8 {
            Some(6)
        } else if k == 'a' as u8 {
            Some(7)
        } else if k == 's' as u8 {
            Some(8)
        } else if k == 'd' as u8 {
            Some(9)
        } else if k == 'z' as u8 {
            Some(10)
        } else if k == 'x' as u8 {
            Some(0)
        } else if k == 'c' as u8 {
            Some(11)
        } else if k == '4' as u8 {
            Some(12)
        } else if k == 'r' as u8 {
            Some(13)
        } else if k == 'f' as u8 {
            Some(14)
        } else if k == 'v' as u8 {
            Some(15)
        } else {
            None
        };
    }
}


impl CHIP8 {
    fn write_reg(&mut self, x: usize, v: u8)
        requires
            old(self).wf(),
            x < 16,
        ensures
            final(self).wf(),
            final(self)@ == set_reg(old(self)@, x as int, v),
            final(self).delay_timer == old(self).delay_timer,
    {
        self.registers.set(x, v);
    }

    fn write_reg_flag(&mut self, x: usize, v: u8, f: u8)
        requires
            old(self).wf(),
            x < 16,
        ensures
            final(self).wf(),
            final(self)@ == set_reg_flag(old(self)@, x as int, v, f),
    {
        self.registers.set(x, v);
        self.registers.set(15, f);
    }

    fn skip_when(&mut self, c: bool)
        requires
            old(self).wf(),
        ensures
            final(self).wf(),
            final(self)@ == skip_if(old(self)@, c),
    {
        if c {
            self.pc = self.pc.wrapping_add(2);
        }
    }

    /// Clears the framebuffer and raises the clear flag.
    fn clear_screen(&mut self)
        requires
            old(self).wf(),
        ensures
            final(self).wf(),
            final(self)@ == clear_spec(old(self)@),
    {
        let ghost pre = self@;
        let mut p: usize = DISPLAY_START;
        while p < MEMORY_SIZE
            invariant
                DISPLAY_START <= p <= MEMORY_SIZE,
                pre.wf(),
                self@ == (Machine { memory: self.memory@, ..pre }),
                self.memory@.len() == MEMORY_SIZE,
                forall|q: int| 0 <= q < DISPLAY_START ==> self.memory@[q] == pre.memory[q],
                forall|q: int| DISPLAY_START <= q < p ==> self.memory@[q] == 0,
                forall|q: int| p <= q < MEMORY_SIZE ==> self.memory@[q] == pre.memory[q],
            decreases MEMORY_SIZE - p,
        {
            self.memory.set(p, 0);
            p += 1;
        }
        self.clear_flag = true;
        assert(self.memory@ =~= clear_spec(pre).memory);
    }

    fn mask_of(b: u8, x: usize, col: usize) -> (r: u8)
        requires
            x < 64,
            col < 8,
        ensures
            r == byte_mask(b, x as int, col as int),
    {
        let c0 = x / 8;
        let s = x % 8;
        if col == c0 {
            b >> (s as u8)
        } else if s != 0 && col == (c0 + 1) % 8 {
            b << ((8 - s) as u8)
        } else {
            0
        }
    }

    /// XORs the `n` bytes at `I` onto the framebuffer at (`VX` mod 64,
    /// `VY` mod 32), wrapping at both edges; VF tells whether a lit pixel
    /// was hit.
    #[verifier::rlimit(60)]
    fn draw(&mut self, xr: usize, yr: usize, n: usize)
        requires
            old(self).wf(),
            xr < 16,
            yr < 16,
            n < 16,
            old(self)@.i + n <= MEMORY_SIZE,
        ensures
            final(self).wf(),
            final(self)@ == draw_spec(
                old(self)@,
                old(self)@.registers[xr as int],
                old(self)@.registers[yr as int],
                n as int,
            ),
    {
        let ghost pre = self@;
        let start = self.i as usize;
        let mut sprite: Vec<u8> = Vec::new();
        let mut k: usize = 0;
        while k < n
            invariant
                k <= n < 16,
                start + n <= MEMORY_SIZE,
                start == pre.i,
                self@ == pre,
                pre.wf(),
                sprite@ == pre.memory.subrange(start as int, start + k),
            decreases n - k,
        {
            sprite.push(self.memory[start + k]);
            k += 1;
        }
        let x = (self.registers[xr] % 64) as usize;
        let y = (self.registers[yr] % 32) as usize;
        let mut hit = false;
        let mut r: usize = 0;
        proof {
            lemma_xor_zero();
            assert(self.memory@ =~= drawn(pre.memory, sprite@, x as int, y as int, 0));
        }
        while r < n
            invariant
                r <= n < 16,
                x < 64,
                y < 32,
                pre.wf(),
                sprite@.len() == n,
                self@ == (Machine { memory: self.memory@, ..pre }),
                self.memory@ == drawn(pre.memory, sprite@, x as int, y as int, r as int),
                hit == collides(pre.memory, sprite@, x as int, y as int, r as int),
                forall|a: u8| #[trigger] (a ^ 0u8) == a,
            decreases n - r,
        {
            let row = (y + r) % 32;
            let base = DISPLAY_START + row * 8;
            let c0 = x / 8;
            let c1 = (c0 + 1) % 8;
            let m0 = Self::mask_of(sprite[r], x, c0);
            let m1 = Self::mask_of(sprite[r], x, c1);
            let o0 = self.memory[base + c0];
            let o1 = self.memory[base + c1];
            proof {
                lemma_draw_row(pre.memory, sprite@, x as int, y as int, r as int);
            }
            if (o0 & m0) != 0 || (o1 & m1) != 0 {
                hit = true;
            }
            self.memory.set(base + c0, o0 ^ m0);
            self.memory.set(base + c1, o1 ^ m1);
            proof {
                lemma_draw_row(pre.memory, sprite@, x as int, y as int, r as int);
                assert(self.memory@ =~= drawn(pre.memory, sprite@, x as int, y as int, r + 1));
                if hit {
                    if !collides(pre.memory, sprite@, x as int, y as int, r as int) {
                        assert(row_collides(pre.memory, sprite@, x as int, y as int, r as int));
                    }
                } else {
                    assert forall|rr: int| 0 <= rr < r + 1 implies !#[trigger] row_collides(
                        pre.memory,
                        sprite@,
                        x as int,
                        y as int,
                        rr,
                    ) by {
                        if rr < r {
                            assert(!collides(pre.memory, sprite@, x as int, y as int, r as int));
                        }
                    }
                }
            }
            r += 1;
        }
        self.draw_flag = true;
        self.registers.set(
            15,
            if hit {
                1
            } else {
                0
            },
        );
        proof {
            assert(sprite@ =~= pre.memory.subrange(pre.i as int, pre.i + n));
        }
    }
}


impl CHIP8 {
    /// Writes the decimal digits of `v` at `I`, `I + 1` and `I + 2`.
    fn bcd(&mut self, v: u8)
        requires
            old(self).wf(),
            old(self)@.i + 3 <= MEMORY_SIZE,
        ensures
            final(self).wf(),
            final(self)@ == bcd_spec(old(self)@, v),
    {
        let i = self.i as usize;
        self.memory.set(i, v / 100);
        self.memory.set(i + 1, v / 10 % 10);
        self.memory.set(i + 2, v % 10);
    }

    /// Stores registers V0..=VX at `I` on.
    fn dump(&mut self, x: usize)
        requires
            old(self).wf(),
            x < 16,
            old(self)@.i + x < MEMORY_SIZE,
        ensures
            final(self).wf(),
            final(self)@ == dump_spec(old(self)@, x as int),
    {
        let ghost pre = self@;
        let i = self.i as usize;
        let mut k: usize = 0;
        while k <= x
            invariant
                k <= x + 1,
                x < 16,
                i == pre.i,
                i + x < MEMORY_SIZE,
                pre.wf(),
                self@ == (Machine { memory: self.memory@, ..pre }),
                self.memory@.len() == MEMORY_SIZE,
                forall|p: int|
                    0 <= p < MEMORY_SIZE ==> self.memory@[p] == if i <= p < i + k {
                        pre.registers[p - i]
                    } else {
                        pre.memory[p]
                    },
            decreases x + 1 - k,
        {
            self.memory.set(i + k, self.registers[k]);
            k += 1;
        }
        assert(self.memory@ =~= dump_spec(pre, x as int).memory);
    }

    /// Loads registers V0..=VX from `I` on.
    fn restore(&mut self, x: usize)
        requires
            old(self).wf(),
            x < 16,
            old(self)@.i + x < MEMORY_SIZE,
        ensures
            final(self).wf(),
            final(self)@ == restore_spec(old(self)@, x as int),
    {
        let ghost pre = self@;
        let i = self.i as usize;
        let mut k: usize = 0;
        while k <= x
            invariant
                k <= x + 1,
                x < 16,
                i == pre.i,
                i + x < MEMORY_SIZE,
                pre.wf(),
                self@ == (Machine { registers: self.registers@, ..pre }),
                self.registers@.len() == 16,
                forall|r: int|
                    0 <= r < 16 ==> self.registers@[r] == if r < k {
                        pre.memory[i + r]
                    } else {
                        pre.registers[r]
                    },
            decreases x + 1 - k,
        {
            self.registers.set(k, self.memory[i + k]);
            k += 1;
        }
        assert(self.registers@ =~= restore_spec(pre, x as int).registers);
    }

    #[verifier::rlimit(60)]
    fn exec_low(&mut self) -> (r: Result<(), ExecError>)
        requires
            old(self).wf(),
            old(self)@.op / 0x1000 <= 7,
        ensures
            final(self).wf(),
            (final(self)@, r) == exec_low(old(self)@),
    {
        let op = self.op;
        let a = op / 0x1000;
        let c = op / 16 % 16;
        let d = op % 16;
        let x = (op / 256 % 16) as usize;
        let y = (op / 16 % 16) as usize;
        let nn = (op % 256) as u8;
        let nnn = op % 0x1000;
        let vx = self.registers[x];
        let vy = self.registers[y];
        if a == 0 && c == 0xe && d == 0 {
            self.clear_screen();
        } else if a == 0 && c == 0xe && d == 0xe {
            if self.sp == 0 {
                return Err(ExecError::StackUnderflow);
            }
            self.sp = self.sp - 1;
            self.pc = self.stack[self.sp];
        } else if a == 1 {
            self.pc = nnn;
        } else if a == 2 {
            if self.sp >= STACK_DEPTH {
                return Err(ExecError::StackOverflow);
            }
            self.stack.set(self.sp, self.pc);
            self.sp = self.sp + 1;
            self.pc = nnn;
        } else if a == 3 {
            self.skip_when(vx == nn);
        } else if a == 4 {
            self.skip_when(vx != nn);
        } else if a == 5 && d == 0 {
            self.skip_when(vx == vy);
        } else if a == 6 {
            self.write_reg(x, nn);
        } else if a == 7 {
            self.write_reg(x, vx.wrapping_add(nn));
        }
        Ok(())
    }

    #[verifier::rlimit(60)]
    fn exec_alu(&mut self) -> (r: Result<(), ExecError>)
        requires
            old(self).wf(),
            old(self)@.op / 0x1000 == 8,
        ensures
            final(self).wf(),
            (final(self)@, r) == exec_alu(old(self)@),
    {
        let op = self.op;
        let a = op / 0x1000;
        let d = op % 16;
        let x = (op / 256 % 16) as usize;
        let y = (op / 16 % 16) as usize;
        let vx = self.registers[x];
        let vy = self.registers[y];
        if a == 8 && d == 0 {
            self.write_reg(x, vy);
        } else if a == 8 && d == 1 {
            self.write_reg(x, vx | vy);
        } else if a == 8 && d == 2 {
            self.write_reg(x, vx & vy);
        } else if a == 8 && d == 3 {
            self.write_reg(x, vx ^ vy);
        } else if a == 8 && d == 4 {
            let carry: u8 = if vx as u16 + vy as u16 > 255 {
                1
            } else {
                0
            };
            self.write_reg_flag(x, vx.wrapping_add(vy), carry);
        } else if a == 8 && d == 5 {
            let no_borrow: u8 = if vx >= vy {
                1
            } else {
                0
            };
            self.write_reg_flag(x, vx.wrapping_sub(vy), no_borrow);
        } else if a == 8 && d == 6 {
            self.write_reg_flag(y, vx / 2, vx % 2);
        } else if a == 8 && d == 7 {
            let no_borrow: u8 = if vy >= vx {
                1
            } else {
                0
            };
            self.write_reg_flag(x, vy.wrapping_sub(vx), no_borrow);
        } else if a == 8 && d == 0xe {
            self.write_reg_flag(y, vx.wrapping_mul(2), vx / 128);
        }
        Ok(())
    }

    #[verifier::rlimit(60)]
    fn exec_high(&mut self) -> (r: Result<(), ExecError>)
        requires
            old(self).wf(),
            8 < old(self)@.op / 0x1000 <= 0xd,
        ensures
            final(self).wf(),
            (final(self)@, r) == exec_high(old(self)@),
    {
        let op = self.op;
        let a = op / 0x1000;
        let d = op % 16;
        let x = (op / 256 % 16) as usize;
        let y = (op / 16 % 16) as usize;
        let nn = (op % 256) as u8;
        let nnn = op % 0x1000;
        let vx = self.registers[x];
        let vy = self.registers[y];
        if a == 9 && d == 0 {
            self.skip_when(vx != vy);
        } else if a == 0xa {
            self.i = nnn;
        } else if a == 0xb {
            self.pc = nnn.wrapping_add(self.registers[0] as u16);
        } else if a == 0xc {
            self.write_reg(x, self.rng.0 & nn);
        } else if a == 0xd {
            if self.i as usize + (op % 16) as usize > MEMORY_SIZE {
                return Err(ExecError::OutOfBounds);
            }
            self.draw(x, y, (op % 16) as usize);
        }
        Ok(())
    }

    #[verifier::rlimit(60)]
    fn exec_misc(&mut self, timer: u8) -> (r: Result<(), ExecError>)
        requires
            old(self).wf(),
            old(self)@.op / 0x1000 >= 0xe,
        ensures
            final(self).wf(),
            (final(self)@, r) == exec_misc(old(self)@, timer),
    {
        let op = self.op;
        let a = op / 0x1000;
        let c = op / 16 % 16;
        let d = op % 16;
        let x = (op / 256 % 16) as usize;
        let y = (op / 16 % 16) as usize;
        let vx = self.registers[x];
        if a == 0xe && c == 9 && d == 0xe {
            let hit = match self.key {
                Some(k) => k == vx,
                None => false,
            };
            self.skip_when(hit);
        } else if a == 0xe && c == 0xa && d == 1 {
            let miss = match self.key {
                Some(k) => k != vx,
                None => false,
            };
            self.skip_when(miss);
        } else if a == 0xf && c == 0 && d == 7 {
            self.skip_when(vx == timer);
        } else if a == 0xf && c == 0 && d == 0xa {
            self.key_wait_target = Some(x);
        } else if a == 0xf && c == 1 && d == 5 {
        } else if a == 0xf && c == 1 && d == 0xe {
            self.i = self.i.wrapping_add(vx as u16);
        } else if a == 0xf && c == 2 && d == 9 {
            self.i = (vx % 16) as u16 * 5;
        } else if a == 0xf && c == 3 && d == 3 {
            if self.i as usize + 3 > MEMORY_SIZE {
                return Err(ExecError::OutOfBounds);
            }
            self.bcd(vx);
        } else if a == 0xf && c == 5 && d == 5 {
            if self.i as usize + x >= MEMORY_SIZE {
                return Err(ExecError::OutOfBounds);
            }
            self.dump(x);
        } else if a == 0xf && c == 6 && d == 5 {
            if self.i as usize + x >= MEMORY_SIZE {
                return Err(ExecError::OutOfBounds);
            }
            self.restore(x);
        }
        Ok(())
    }

    /// Runs the current opcode; `timer` is what the delay timer holds.
    fn exec(&mut self, timer: u8) -> (r: Result<(), ExecError>)
        requires
            old(self).wf(),
        ensures
            final(self).wf(),
            (final(self)@, r) == execute(old(self)@, timer),
    {
        proof {
            reveal(execute);
        }
        let a = self.op / 0x1000;
        if a <= 7 {
            self.exec_low()
        } else if a == 8 {
            self.exec_alu()
        } else if a <= 0xd {
            self.exec_high()
        } else {
            self.exec_misc(timer)
        }
    }

    /// One cycle, given what the delay timer holds: see [`cycle_spec`].
    /// Gives what the cycle writes into the delay timer (see
    /// [`timer_write`]), for the caller to store.
    #[verifier::rlimit(100)]
    pub fn step(&mut self, timer: u8) -> (r: Result<Option<u8>, ExecError>)
        requires
            old(self).wf(),
        ensures
            final(self).wf(),
            final(self)@ == cycle_spec(old(self)@, timer).0,
            r == match cycle_spec(old(self)@, timer).1 {
                Ok(_) => Ok::<Option<u8>, ExecError>(timer_write(old(self)@)),
                Err(e) => Err(e),
            },
    {
        if let Some(w) = self.key_wait_target {
            if let Some(k) = self.key {
                self.registers.set(w, k);
                self.key_wait_target = None;
            }
            return Ok(None);
        }
        self.rng.clock();
        if self.pc as usize + 1 >= MEMORY_SIZE {
            return Err(ExecError::OutOfBounds);
        }
        let p = self.pc as usize;
        let op = (self.memory[p] as u16) * 256 + self.memory[p + 1] as u16;
        self.op = op;
        self.pc = self.pc.wrapping_add(2);
        let write = if op / 0x1000 == 0xf && op / 16 % 16 == 1 && op % 16 == 5 {
            Some(self.registers[(op / 256 % 16) as usize])
        } else {
            None
        };
        match self.exec(timer) {
            Ok(()) => Ok(write),
            Err(e) => Err(e),
        }
    }

    /// One cycle, reading the delay timer as it stands now. Whatever the
    /// clock has left in it, the machine moves as [`CHIP8::step`] does, and
    /// what the step writes into the delay timer is stored there.
    pub fn cycle(&mut self) -> (r: Result<(), ExecError>)
        requires
            old(self).wf(),
        ensures
            final(self).wf(),
            exists|t: u8| (final(self)@, r) == cycle_spec(old(self)@, t),
    {
        let ghost pre = self@;
        let t = self.delay_timer.load(Ordering::SeqCst);
        let r = match self.step(t) {
            Ok(write) => {
                proof {
                    lemma_ok_unit(cycle_spec(pre, t).1);
                }
                if let Some(v) = write {
                    self.delay_timer.store(v, Ordering::SeqCst);
                }
                Ok(())
            },
            Err(e) => {
                assert(cycle_spec(pre, t).1 == Err::<(), ExecError>(e));
                Err(e)
            },
        };
        assert((self@, r) == cycle_spec(pre, t));
        r
    }
}

} // verus!
