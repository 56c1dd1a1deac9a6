use vstd::prelude::*;

use crate::rng::xorshift_step;

verus! {

/// Size of the addressable memory in bytes.
pub const MEMORY_SIZE: usize = 0x1000;

/// First byte of the framebuffer: 32 rows of 8 bytes at the top of memory.
pub const DISPLAY_START: usize = 0xF00;

/// Address at which programs are loaded and execution starts.
pub const PROGRAM_START: u16 = 0x200;

/// Largest program that fits between the program start and the framebuffer.
pub const PROGRAM_SPACE: usize = 0xD00;

/// Depth of the call stack.
pub const STACK_DEPTH: usize = 24;

/// Number of bytes of the built-in hexadecimal font (16 glyphs of 5 rows).
pub const FONT_SIZE: usize = 80;

/// Seed of the random generator of a fresh machine.
pub const DEFAULT_SEED: u8 = 106;

/// Why a cycle failed.
#[derive(Debug, Clone, Copy, PartialEq, Eq, Structural)]
pub enum ExecError {
    /// A call was made with all stack slots in use.
    StackOverflow,
    /// A return was made with an empty stack.
    StackUnderflow,
    /// An opcode fetch, or an operation, touched memory beyond its end.
    OutOfBounds,
}

/// Why a program could not be loaded.
#[derive(Debug, Clone, Copy, PartialEq, Eq, Structural)]
pub enum LoadError {
    /// The program does not fit in the program region.
    RomTooLarge,
}

/// The abstract state of a machine. The delay timer is not part of it: it is
/// shared with a clock and read as an input of each step.
pub struct Machine {
    pub memory: Seq<u8>,
    pub registers: Seq<u8>,
    pub stack: Seq<u16>,
    pub sp: usize,
    pub pc: u16,
    pub i: u16,
    pub op: u16,
    pub key: Option<u8>,
    pub wait: Option<usize>,
    pub rng: u8,
    pub draw_flag: bool,
    pub clear_flag: bool,
}

impl Machine {
    pub open spec fn wf(self) -> bool {
        &&& self.memory.len() == MEMORY_SIZE
        &&& self.registers.len() == 16
        &&& self.stack.len() == STACK_DEPTH
        &&& self.sp <= STACK_DEPTH
        &&& (self.key matches Some(k) ==> k < 16)
        &&& (self.wait matches Some(w) ==> w < 16)
    }
}

/// Adds modulo 2^16, as the 16-bit registers do.
pub open spec fn wrap16(v: int) -> u16 {
    (v % 0x10000) as u16
}

pub open spec fn op_x(op: u16) -> int {
    (op / 256 % 16) as int
}

pub open spec fn op_y(op: u16) -> int {
    (op / 16 % 16) as int
}

pub open spec fn op_n(op: u16) -> int {
    (op % 16) as int
}

pub open spec fn op_nn(op: u16) -> u8 {
    (op % 256) as u8
}

pub open spec fn op_nnn(op: u16) -> u16 {
    (op % 0x1000) as u16
}

/// The big-endian opcode at `pc`.
pub open spec fn opcode_at(mem: Seq<u8>, pc: int) -> u16 {
    (mem[pc] as int * 256 + mem[pc + 1] as int) as u16
}

pub open spec fn set_reg(m: Machine, x: int, v: u8) -> Machine {
    Machine { registers: m.registers.update(x, v), ..m }
}

/// Writes `v` into register `x`, then `f` into the flag register VF.
pub open spec fn set_reg_flag(m: Machine, x: int, v: u8, f: u8) -> Machine {
    Machine { registers: m.registers.update(x, v).update(15, f), ..m }
}

pub open spec fn skip_if(m: Machine, c: bool) -> Machine {
    if c {
        Machine { pc: wrap16(m.pc + 2), ..m }
    } else {
        m
    }
}

/// The byte of the sprite row `b`, drawn at column `x`, that lands in the
/// framebuffer byte `col` of its row. Pixels are stored most significant bit
/// first, and a sprite that crosses the right edge wraps to the left one.
pub open spec fn byte_mask(b: u8, x: int, col: int) -> u8 {
    let c0 = x / 8;
    let s = x % 8;
    if col == c0 {
        (b >> (s as u8)) as u8
    } else if s != 0 && col == (c0 + 1) % 8 {
        (b << ((8 - s) as u8)) as u8
    } else {
        0
    }
}

/// Which row of a sprite drawn at `y` lands on screen row `row`, counting
/// rows downwards and wrapping at the bottom edge.
pub open spec fn sprite_row(y: int, row: int) -> int {
    (row - y + 32) % 32
}

/// What the first `k` rows of `sprite`, drawn at (`x`, `y`), flip in the byte at
/// address `p`.
pub open spec fn draw_mask(sprite: Seq<u8>, x: int, y: int, k: int, p: int) -> u8 {
    let off = p - DISPLAY_START;
    let r = sprite_row(y, off / 8);
    if DISPLAY_START <= p < MEMORY_SIZE && r < k && r < sprite.len() {
        byte_mask(sprite[r], x, off % 8)
    } else {
        0
    }
}

/// Memory after drawing the first `k` rows of a sprite.
pub open spec fn drawn(mem: Seq<u8>, sprite: Seq<u8>, x: int, y: int, k: int) -> Seq<u8> {
    Seq::new(mem.len(), |p: int| mem[p] ^ draw_mask(sprite, x, y, k, p))
}

/// Whether row `r` of the sprite meets a lit pixel of `mem`.
pub open spec fn row_collides(mem: Seq<u8>, sprite: Seq<u8>, x: int, y: int, r: int) -> bool {
    let base = DISPLAY_START + (y + r) % 32 * 8;
    let c0 = x / 8;
    let c1 = (c0 + 1) % 8;
    (mem[base + c0] & byte_mask(sprite[r], x, c0)) != 0 || (mem[base + c1] & byte_mask(
        sprite[r],
        x,
        c1,
    )) != 0
}

pub open spec fn collides(mem: Seq<u8>, sprite: Seq<u8>, x: int, y: int, k: int) -> bool {
    exists|r: int| 0 <= r < k && #[trigger] row_collides(mem, sprite, x, y, r)
}

/// Draws the `n` bytes at `I` as a sprite at (`VX` mod 64, `VY` mod 32).
pub open spec fn draw_spec(m: Machine, vx: u8, vy: u8, n: int) -> Machine {
    let sprite = m.memory.subrange(m.i as int, m.i + n);
    let x = vx % 64;
    let y = vy % 32;
    Machine {
        memory: drawn(m.memory, sprite, x as int, y as int, n),
        registers: m.registers.update(
            15,
            if collides(m.memory, sprite, x as int, y as int, n) {
                1u8
            } else {
                0u8
            },
        ),
        draw_flag: true,
        ..m
    }
}

pub open spec fn clear_spec(m: Machine) -> Machine {
    Machine {
        memory: Seq::new(
            m.memory.len(),
            |p: int|
                if p >= DISPLAY_START {
                    0u8
                } else {
                    m.memory[p]
                },
        ),
        clear_flag: true,
        ..m
    }
}

pub open spec fn bcd_spec(m: Machine, v: u8) -> Machine {
    Machine {
        memory: m.memory.update(m.i as int, v / 100).update(m.i + 1, v / 10 % 10).update(
            m.i + 2,
            v % 10,
        ),
        ..m
    }
}

/// Memory with registers V0..=VX stored from `I` on.
pub open spec fn dump_spec(m: Machine, x: int) -> Machine {
    Machine {
        memory: Seq::new(
            m.memory.len(),
            |p: int|
                if m.i <= p <= m.i + x {
                    m.registers[p - m.i]
                } else {
                    m.memory[p]
                },
        ),
        ..m
    }
}

/// Registers V0..=VX loaded from memory at `I` on.
pub open spec fn restore_spec(m: Machine, x: int) -> Machine {
    Machine {
        registers: Seq::new(
            16,
            |r: int|
                if r <= x {
                    m.memory[m.i + r]
                } else {
                    m.registers[r]
                },
        ),
        ..m
    }
}

/// Operations 0nnn to 7xnn: the screen clear, control flow, skips and loads.
pub open spec fn exec_low(m: Machine) -> (Machine, Result<(), ExecError>) {
    let op = m.op;
    let a = op / 0x1000;
    let c = op / 16 % 16;
    let d = op % 16;
    let x = op_x(op);
    let y = op_y(op);
    let nn = op_nn(op);
    let nnn = op_nnn(op);
    let vx = m.registers[x];
    let vy = m.registers[y];
    if a == 0 && c == 0xe && d == 0 {
        (clear_spec(m), Ok(()))
    } else if a == 0 && c == 0xe && d == 0xe {
        if m.sp == 0 {
            (m, Err(ExecError::StackUnderflow))
        } else {
            (Machine { sp: (m.sp - 1) as usize, pc: m.stack[m.sp - 1], ..m }, Ok(()))
        }
    } else if a == 1 {
        (Machine { pc: nnn, ..m }, Ok(()))
    } else if a == 2 {
        if m.sp >= STACK_DEPTH {
            (m, Err(ExecError::StackOverflow))
        } else {
            (
                Machine {
                    stack: m.stack.update(m.sp as int, m.pc),
                    sp: (m.sp + 1) as usize,
                    pc: nnn,
                    ..m
                },
                Ok(()),
            )
        }
    } else if a == 3 {
        (skip_if(m, vx == nn), Ok(()))
    } else if a == 4 {
        (skip_if(m, vx != nn), Ok(()))
    } else if a == 5 && d == 0 {
        (skip_if(m, vx == vy), Ok(()))
    } else if a == 6 {
        (set_reg(m, x, nn), Ok(()))
    } else if a == 7 {
        (set_reg(m, x, ((vx + nn) % 256) as u8), Ok(()))
    } else {
        (m, Ok(()))
    }
}

/// Operations 8xyn: arithmetic and logic between registers.
pub open spec fn exec_alu(m: Machine) -> (Machine, Result<(), ExecError>) {
    let op = m.op;
    let a = op / 0x1000;
    let d = op % 16;
    let x = op_x(op);
    let y = op_y(op);
    let vx = m.registers[x];
    let vy = m.registers[y];
    if a == 8 && d == 0 {
        (set_reg(m, x, vy), Ok(()))
    } else if a == 8 && d == 1 {
        (set_reg(m, x, vx | vy), Ok(()))
    } else if a == 8 && d == 2 {
        (set_reg(m, x, vx & vy), Ok(()))
    } else if a == 8 && d == 3 {
        (set_reg(m, x, vx ^ vy), Ok(()))
    } else if a == 8 && d == 4 {
        (
            set_reg_flag(
                m,
                x,
                ((vx + vy) % 256) as u8,
                if vx + vy > 255 {
                    1
                } else {
                    0
                },
            ),
            Ok(()),
        )
    } else if a == 8 && d == 5 {
        (
            set_reg_flag(
                m,
                x,
                ((vx - vy + 256) % 256) as u8,
                if vx >= vy {
                    1
                } else {
                    0
                },
            ),
            Ok(()),
        )
    } else if a == 8 && d == 6 {
        (set_reg_flag(m, y, vx / 2, vx % 2), Ok(()))
    } else if a == 8 && d == 7 {
        (
            set_reg_flag(
                m,
                x,
                ((vy - vx + 256) % 256) as u8,
                if vy >= vx {
                    1
                } else {
                    0
                },
            ),
            Ok(()),
        )
    } else if a == 8 && d == 0xe {
        (set_reg_flag(m, y, ((vx * 2) % 256) as u8, vx / 128), Ok(()))
    } else {
        (m, Ok(()))
    }
}

/// Operations 9xy0 to Dxyn: the index register, jumps with offset, random numbers and drawing.
pub open spec fn exec_high(m: Machine) -> (Machine, Result<(), ExecError>) {
    let op = m.op;
    let a = op / 0x1000;
    let d = op % 16;
    let x = op_x(op);
    let y = op_y(op);
    let nn = op_nn(op);
    let nnn = op_nnn(op);
    let vx = m.registers[x];
    let vy = m.registers[y];
    if a == 9 && d == 0 {
        (skip_if(m, vx != vy), Ok(()))
    } else if a == 0xa {
        (Machine { i: nnn, ..m }, Ok(()))
    } else if a == 0xb {
        (Machine { pc: wrap16(nnn + m.registers[0]), ..m }, Ok(()))
    } else if a == 0xc {
        (set_reg(m, x, m.rng & nn), Ok(()))
    } else if a == 0xd {
        if m.i + op_n(op) > MEMORY_SIZE {
            (m, Err(ExecError::OutOfBounds))
        } else {
            (draw_spec(m, vx, vy, op_n(op)), Ok(()))
        }
    } else {
        (m, Ok(()))
    }
}

/// Operations Exnn and Fxnn: keys, the delay timer, the index register and
/// memory transfers. FX07 skips the next instruction when VX equals the delay
/// timer, which is what this toolchain's `LDD` means, rather than loading
/// the timer into VX. FX15 changes no part of the machine: the value it writes
/// to the delay timer is [`timer_write`]. FX18 (sound) does nothing: there is
/// no sound.
pub open spec fn exec_misc(m: Machine, timer: u8) -> (Machine, Result<(), ExecError>) {
    let op = m.op;
    let a = op / 0x1000;
    let c = op / 16 % 16;
    let d = op % 16;
    let x = op_x(op);
    let y = op_y(op);
    let vx = m.registers[x];
    if a == 0xe && c == 9 && d == 0xe {
        (skip_if(m, m.key == Some(vx)), Ok(()))
    } else if a == 0xe && c == 0xa && d == 1 {
        (skip_if(m, m.key is Some && m.key != Some(vx)), Ok(()))
    } else if a == 0xf && c == 0 && d == 7 {
        (skip_if(m, vx == timer), Ok(()))
    } else if a == 0xf && c == 0 && d == 0xa {
        (Machine { wait: Some(x as usize), ..m }, Ok(()))
    } else if a == 0xf && c == 1 && d == 5 {
        (m, Ok(()))
    } else if a == 0xf && c == 1 && d == 0xe {
        (Machine { i: wrap16(m.i + vx), ..m }, Ok(()))
    } else if a == 0xf && c == 2 && d == 9 {
        (Machine { i: ((vx % 16) * 5) as u16, ..m }, Ok(()))
    } else if a == 0xf && c == 3 && d == 3 {
        if m.i + 3 > MEMORY_SIZE {
            (m, Err(ExecError::OutOfBounds))
        } else {
            (bcd_spec(m, vx), Ok(()))
        }
    } else if a == 0xf && c == 5 && d == 5 {
        if m.i + x >= MEMORY_SIZE {
            (m, Err(ExecError::OutOfBounds))
        } else {
            (dump_spec(m, x), Ok(()))
        }
    } else if a == 0xf && c == 6 && d == 5 {
        if m.i + x >= MEMORY_SIZE {
            (m, Err(ExecError::OutOfBounds))
        } else {
            (restore_spec(m, x), Ok(()))
        }
    } else {
        (m, Ok(()))
    }
}

/// Effect of the current opcode on a machine whose program counter has
/// already moved past it. `timer` is the value the delay timer holds.
/// Opcodes that no operation matches leave the machine as it is.
#[verifier::opaque]
pub open spec fn execute(m: Machine, timer: u8) -> (Machine, Result<(), ExecError>) {
    let a = m.op / 0x1000;
    if a <= 7 {
        exec_low(m)
    } else if a == 8 {
        exec_alu(m)
    } else if a <= 0xd {
        exec_high(m)
    } else {
        exec_misc(m, timer)
    }
}

/// One cycle of the machine, given what the delay timer holds.
///
/// While the machine waits for a key it fetches nothing: a pending key is
/// stored in the waiting register and ends the wait; without one nothing
/// changes. Otherwise the generator advances, the opcode at the program
/// counter is fetched, the program counter moves past it and the opcode runs.
pub open spec fn cycle_spec(m: Machine, timer: u8) -> (Machine, Result<(), ExecError>) {
    match m.wait {
        Some(w) => match m.key {
            Some(k) => (Machine { registers: m.registers.update(w as int, k), wait: None, ..m }, Ok(())),
            None => (m, Ok(())),
        },
        None => {
            let m1 = Machine { rng: xorshift_step(m.rng), ..m };
            if m.pc + 1 >= MEMORY_SIZE {
                (m1, Err(ExecError::OutOfBounds))
            } else {
                execute(
                    Machine { op: opcode_at(m.memory, m.pc as int), pc: wrap16(m.pc + 2), ..m1 },
                    timer,
                )
            }
        },
    }
}

/// What a cycle writes into the delay timer: VX for an FX15 that is fetched
/// and run, nothing for any other cycle.
pub open spec fn timer_write(m: Machine) -> Option<u8> {
    if m.wait is None && m.pc + 1 < MEMORY_SIZE {
        let op = opcode_at(m.memory, m.pc as int);
        if op / 0x1000 == 0xf && op / 16 % 16 == 1 && op % 16 == 5 {
            Some(m.registers[op_x(op)])
        } else {
            None
        }
    } else {
        None
    }
}

/// The key of the hexadecimal keypad that a keyboard byte stands for.
pub open spec fn keypad_of(k: u8) -> Option<u8> {
    if k == '1' as u8 {
        Some(1u8)
    } else if k == '2' as u8 {
        Some(2u8)
    } else if k == '3' as u8 {
        Some(3u8)
    } else if k == 'q' as u8 {
        Some(4u8)
    } else if k == 'w' as u8 {
        Some(5u8)
    } else if k == 'e' as u8 {
        Some(6u8)
    } else if k == 'a' as u8 {
        Some(7u8)
    } else if k == 's' as u8 {
        Some(8u8)
    } else if k == 'd' as u8 {
        Some(9u8)
    } else if k == 'z' as u8 {
        Some(10u8)
    } else if k == 'x' as u8 {
        Some(0u8)
    } else if k == 'c' as u8 {
        Some(11u8)
    } else if k == '4' as u8 {
        Some(12u8)
    } else if k == 'r' as u8 {
        Some(13u8)
    } else if k == 'f' as u8 {
        Some(14u8)
    } else if k == 'v' as u8 {
        Some(15u8)
    } else {
        None
    }
}

/// The built-in font: 16 hexadecimal glyphs of 5 rows each.
pub open spec fn font() -> Seq<u8> {
    seq![
        0xf0u8, 0x90, 0x90, 0x90, 0xf0,
        0x10, 0x30, 0x10, 0x10, 0x10,
        0xf0, 0x10, 0xf0, 0x80, 0xf0,
        0xf0, 0x10, 0xf0, 0x10, 0xf0,
        0x90, 0x90, 0xf0, 0x10, 0x10,
        0xf0, 0x80, 0xf0, 0x10, 0xf0,
        0xf0, 0x80, 0xf0, 0x90, 0xf0,
        0xf0, 0x10, 0x10, 0x10, 0x10,
        0xf0, 0x90, 0xf0, 0x90, 0xf0,
        0xf0, 0x90, 0xf0, 0x10, 0xf0,
        0xf0, 0x90, 0xf0, 0x90, 0x90,
        0x80, 0x80, 0xf0, 0x90, 0xf0,
        0xf0, 0x80, 0x80, 0x80, 0xf0,
        0x10, 0x10, 0xf0, 0x90, 0xf0,
        0xf0, 0x80, 0xe0, 0x80, 0xf0,
        0xf0, 0x80, 0xe0, 0x80, 0x80,
    ]
}

/// The framebuffer row `r` as one word, its leftmost pixel in the top bit.
pub open spec fn row_word(mem: Seq<u8>, r: int) -> u64 {
    let b = DISPLAY_START + r * 8;
    ((mem[b] as u64) << 56u64) | ((mem[b + 1] as u64) << 48u64) | ((mem[b + 2] as u64) << 40u64)
        | ((mem[b + 3] as u64) << 32u64) | ((mem[b + 4] as u64) << 24u64) | ((mem[b + 5] as u64)
        << 16u64) | ((mem[b + 6] as u64) << 8u64) | (mem[b + 7] as u64)
}

} // verus!
