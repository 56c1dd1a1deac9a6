use vstd::prelude::*;

use crate::directives::{
    bytes_form, entrypoint, entrypoint_form, repeat, repeat_form, reserve, reserve_form,
    sequence_bytes,
};
use crate::expr::{lookup, resolved, table_insert, unique_names, value16, SymbolTable, Value, ValueView};
use crate::instructions::{any, any_form, compiled, Instruction, InstructionView};
use crate::misc::{constant, constant_form, label, label_form};
use crate::parse::{find_char, strip_ws_comments, trimmed};

verus! {

/// Bytes a program may take, from 0x200 up to the framebuffer.
pub const ROM_SIZE: usize = 0xD00;

/// Why a source did not assemble.
#[derive(Debug, Clone, Copy, PartialEq, Eq, Structural)]
pub enum AsmError {
    /// An instruction does not fit in what is left of the ROM.
    RomExhausted,
    /// A `.repeat`, `.reserve` or `db` line does not fit in what is left.
    NoRoom,
    /// A line (its index) that is neither a label, a constant, a directive
    /// nor an instruction.
    UnknownLine(usize),
    /// An instruction (its address) whose expressions have no value.
    Unresolved(u16),
    /// The entry point's name has no value.
    NoEntrypoint,
}

/// What assembling has gathered so far.
pub struct AsmState {
    pub rom: Seq<u8>,
    pub address: u16,
    pub table: Seq<(Seq<char>, ValueView<u16>)>,
    pub insns: Seq<(u16, InstructionView)>,
    pub entry: Seq<char>,
}

pub open spec fn dot() -> Seq<char> {
    seq!['.']
}

/// `rom` with `k` bytes `v` from `at` on.
pub open spec fn fill(rom: Seq<u8>, at: int, k: int, v: u8) -> Seq<u8> {
    Seq::new(
        rom.len(),
        |j: int|
            if at <= j < at + k {
                v
            } else {
                rom[j]
            },
    )
}

/// `rom` with `bs` written from `at` on.
pub open spec fn write_at(rom: Seq<u8>, at: int, bs: Seq<u8>) -> Seq<u8> {
    Seq::new(
        rom.len(),
        |j: int|
            if at <= j < at + bs.len() {
                bs[j - at]
            } else {
                rom[j]
            },
    )
}

/// The state with the address moved to `a`, which `.` then names.
pub open spec fn moved(st: AsmState, a: int) -> AsmState {
    AsmState {
        address: a as u16,
        table: table_insert(st.table, dot(), ValueView::Complete(a as u16)),
        ..st
    }
}

/// What line number `index`, `s`, does in the first pass. Its comment and
/// surrounding whitespace are dropped; an empty line does nothing; then it
/// is tried as a label, a constant, `.repeat`, `.reserve`, `.entrypoint`,
/// `db` and an instruction, in that order. A label names the current
/// address; a line that places bytes or an instruction moves the address
/// past them, and `.` names the new address.
pub open spec fn line_step(st: AsmState, s: Seq<char>, index: nat) -> Result<AsmState, AsmError> {
    let rom_addr = st.address - 0x200;
    let t = trimmed(s.take(find_char(s, ';')));
    if t.len() == 0 {
        Ok(st)
    } else if label_form(t) is Some {
        Ok(
            AsmState {
                table: table_insert(st.table, label_form(t)->Some_0, ValueView::Complete(st.address)),
                ..st
            },
        )
    } else if constant_form(t) is Some {
        let (n, e) = constant_form(t)->Some_0;
        Ok(AsmState { table: table_insert(st.table, n, ValueView::Partial(e)), ..st })
    } else if repeat_form(t) is Some {
        let (what, k) = repeat_form(t)->Some_0;
        if rom_addr + k > ROM_SIZE {
            Err(AsmError::NoRoom)
        } else {
            Ok(moved(AsmState { rom: fill(st.rom, rom_addr, k as int, what), ..st }, st.address + k))
        }
    } else if reserve_form(t) is Some {
        let k = reserve_form(t)->Some_0;
        if rom_addr + k > ROM_SIZE {
            Err(AsmError::NoRoom)
        } else {
            Ok(moved(st, st.address + k))
        }
    } else if entrypoint_form(t) is Some {
        Ok(AsmState { entry: entrypoint_form(t)->Some_0, ..st })
    } else if bytes_form(t) is Some {
        let bs = bytes_form(t)->Some_0;
        if rom_addr + bs.len() > ROM_SIZE {
            Err(AsmError::NoRoom)
        } else {
            Ok(moved(AsmState { rom: write_at(st.rom, rom_addr, bs), ..st }, st.address + bs.len()))
        }
    } else if any_form(t) is Some {
        if rom_addr + 2 > ROM_SIZE {
            Err(AsmError::RomExhausted)
        } else {
            Ok(
                moved(
                    AsmState { insns: st.insns.push((st.address, any_form(t)->Some_0)), ..st },
                    st.address + 2,
                ),
            )
        }
    } else {
        Err(AsmError::UnknownLine(index as usize))
    }
}

/// The first pass over the first `k` lines.
pub open spec fn first_pass(st: AsmState, lines: Seq<Seq<char>>, k: int) -> Result<AsmState, AsmError>
    decreases k,
{
    if k <= 0 {
        Ok(st)
    } else {
        match first_pass(st, lines, k - 1) {
            Ok(s) => line_step(s, lines[k - 1], (k - 1) as nat),
            Err(e) => Err(e),
        }
    }
}

/// The state before the first line: an empty ROM, the address just past the
/// jump to the entry point, and `_start` as the entry point.
pub open spec fn initial_state() -> AsmState {
    AsmState {
        rom: Seq::new(ROM_SIZE as nat, |j: int| 0u8),
        address: 0x202,
        table: seq![(dot(), ValueView::Complete(0x202u16))],
        insns: Seq::empty(),
        entry: "_start"@,
    }
}

/// `t` with `.` naming `a`, if `t` names `.` at all.
pub open spec fn set_dot(t: Seq<(Seq<char>, ValueView<u16>)>, a: u16) -> Seq<(Seq<char>, ValueView<u16>)> {
    if lookup(t, dot()) is Some {
        table_insert(t, dot(), ValueView::Complete(a))
    } else {
        t
    }
}

/// The ROM with the first `k` instructions written, each compiled with `.`
/// naming its own address, and the table as the last one left it.
pub open spec fn second_pass(
    rom: Seq<u8>,
    t: Seq<(Seq<char>, ValueView<u16>)>,
    insns: Seq<(u16, InstructionView)>,
    k: int,
) -> Result<(Seq<u8>, Seq<(Seq<char>, ValueView<u16>)>), AsmError>
    decreases k,
{
    if k <= 0 {
        Ok((rom, t))
    } else {
        match second_pass(rom, t, insns, k - 1) {
            Ok((r, tt)) => {
                let (a, i) = insns[k - 1];
                let t2 = set_dot(tt, a);
                match compiled(i, t2) {
                    Some(op) => Ok(
                        (
                            r.update(a - 0x200, (op / 256) as u8).update(a - 0x200 + 1, (op % 256) as u8),
                            t2,
                        ),
                    ),
                    None => Err(AsmError::Unresolved(a)),
                }
            },
            Err(e) => Err(e),
        }
    }
}

/// The second pass: names are given the values they evaluate to (names
/// without one are dropped), instructions are compiled, and the first two
/// bytes jump to the entry point. The ROM ends at the final address.
pub open spec fn finished(st: AsmState) -> Result<Seq<u8>, AsmError> {
    match second_pass(st.rom, resolved(st.table), st.insns, st.insns.len() as int) {
        Ok((r, t)) => match lookup(t, st.entry) {
            Some(v) => match value16(v, t) {
                Some(ep) => Ok(
                    r.update(0, (((ep / 256) as u8) | 0x10u8) as u8).update(1, (ep % 256) as u8).take(
                        st.address - 0x200,
                    ),
                ),
                None => Err(AsmError::NoEntrypoint),
            },
            None => Err(AsmError::NoEntrypoint),
        },
        Err(e) => Err(e),
    }
}

/// The ROM that a source assembles to.
pub open spec fn assembled(lines: Seq<Seq<char>>) -> Result<Seq<u8>, AsmError> {
    match first_pass(initial_state(), lines, lines.len() as int) {
        Ok(st) => finished(st),
        Err(e) => Err(e),
    }
}


proof fn lemma_first_pass_err(st: AsmState, lines: Seq<Seq<char>>, k: int, n: int, e: AsmError)
    requires
        0 <= k <= n,
        first_pass(st, lines, k) == Err::<AsmState, AsmError>(e),
    ensures
        first_pass(st, lines, n) == Err::<AsmState, AsmError>(e),
    decreases n - k,
{
    if n > k {
        lemma_first_pass_err(st, lines, k, n - 1, e);
    }
}

proof fn lemma_second_pass_err(
    rom: Seq<u8>,
    t: Seq<(Seq<char>, ValueView<u16>)>,
    insns: Seq<(u16, InstructionView)>,
    k: int,
    n: int,
    e: AsmError,
)
    requires
        0 <= k <= n,
        second_pass(rom, t, insns, k) == Err::<(Seq<u8>, Seq<(Seq<char>, ValueView<u16>)>), AsmError>(e),
    ensures
        second_pass(rom, t, insns, n) == Err::<(Seq<u8>, Seq<(Seq<char>, ValueView<u16>)>), AsmError>(e),
    decreases n - k,
{
    if n > k {
        lemma_second_pass_err(rom, t, insns, k, n - 1, e);
    }
}

/// The first pass in progress: the ROM, the current address, the names
/// defined so far and the instructions to compile.
pub struct Assembler<'a> {
    rom: Vec<u8>,
    address: u16,
    table: SymbolTable<'a>,
    instructions: Vec<(u16, Instruction<'a>)>,
    entrypoint: &'a str,
}

impl<'a> View for Assembler<'a> {
    type V = AsmState;

    closed spec fn view(&self) -> AsmState {
        AsmState {
            rom: self.rom@,
            address: self.address,
            table: self.table@,
            insns: self.instructions@.map_values(|p: (u16, Instruction<'a>)| (p.0, p.1.view())),
            entry: self.entrypoint@,
        }
    }
}

/// The invariant of the first pass.
pub open spec fn state_ok(st: AsmState) -> bool {
    &&& st.rom.len() == ROM_SIZE
    &&& 0x202 <= st.address <= 0x200 + ROM_SIZE
    &&& unique_names(st.table)
    &&& lookup(st.table, dot()) is Some
    &&& forall|j: int|
        0 <= j < st.insns.len() ==> 0x202 <= #[trigger] st.insns[j].0 && st.insns[j].0 + 2
            <= st.address
}

proof fn lemma_insert_keeps_dot(t: Seq<(Seq<char>, ValueView<u16>)>, n: Seq<char>, v: ValueView<u16>)
    requires
        lookup(t, dot()) is Some,
    ensures
        lookup(table_insert(t, n, v), dot()) is Some,
{
    let t2 = table_insert(t, n, v);
    let i = choose|i: int| 0 <= i < t.len() && t[i].0 == dot();
    if exists|j: int| 0 <= j < t.len() && t[j].0 == n {
        let c = choose|j: int| 0 <= j < t.len() && t[j].0 == n;
        if c == i {
            assert(t2[i].0 == dot());
        } else {
            assert(t2[i].0 == dot());
        }
    } else {
        assert(t2[i].0 == dot());
    }
}

/// Compiles the instruction `i` at address `a`, with `.` naming `a`, into
/// the ROM.
fn emit(rom: &mut Vec<u8>, table: &mut SymbolTable<'_>, a: u16, i: &Instruction<'_>) -> (r: Result<
    (),
    AsmError,
>)
    requires
        old(table).wf(),
        old(rom)@.len() == ROM_SIZE,
        0x202 <= a,
        a + 2 <= 0x200 + ROM_SIZE,
    ensures
        final(table).wf(),
        final(table)@ == set_dot(old(table)@, a),
        final(rom)@.len() == ROM_SIZE,
        match compiled(i.view(), set_dot(old(table)@, a)) {
            Some(op) => r is Ok && final(rom)@ == old(rom)@.update(a - 0x200, (op / 256) as u8).update(
                a - 0x200 + 1,
                (op % 256) as u8,
            ),
            None => r == Err::<(), AsmError>(AsmError::Unresolved(a)),
        },
{
    proof {
        reveal_strlit(".");
        assert("."@ =~= dot());
    }
    if table.get(".").is_some() {
        table.insert(".", Value::Complete(a));
    }
    match i.compile(table) {
        Some(op) => {
            rom.set((a - 0x200) as usize, (op / 256) as u8);
            rom.set((a - 0x200) as usize + 1, (op % 256) as u8);
            Ok(())
        },
        None => Err(AsmError::Unresolved(a)),
    }
}

impl<'a> Assembler<'a> {
    pub open spec fn wf(&self) -> bool {
        state_ok(self@)
    }

    pub fn new() -> (r: Self)
        ensures
            r.wf(),
            r@ == initial_state(),
    {
        let mut table = SymbolTable::new();
        proof {
            reveal_strlit(".");
            assert("."@ =~= dot());
        }
        table.insert(".", Value::Complete(0x202));
        let r = Assembler {
            rom: vec![0u8; ROM_SIZE],
            address: 0x202,
            table,
            instructions: Vec::new(),
            entrypoint: "_start",
        };
        proof {
            assert(r.rom@ =~= initial_state().rom);
            assert(r.table@ =~= initial_state().table);
            assert(r@.insns =~= Seq::<(u16, InstructionView)>::empty());
            assert(r.table@[0].0 == dot());
        }
        r
    }

    /// Moves the address to `a`, which `.` then names.
    fn move_to(&mut self, a: u16)
        requires
            state_ok(AsmState { address: a, ..old(self)@ }),
            old(self).address <= a,
        ensures
            final(self).wf(),
            final(self)@ == moved(old(self)@, a as int),
    {
        proof {
            reveal_strlit(".");
            assert("."@ =~= dot());
            lemma_insert_keeps_dot(self.table@, dot(), ValueView::Complete(a));
        }
        self.address = a;
        self.table.insert(".", Value::Complete(a));
        proof {
            assert(self@.insns =~= old(self)@.insns);
            assert(self@ == moved(old(self)@, a as int));
            assert(unique_names(self@.table));
            assert(lookup(self@.table, dot()) is Some);
            let pre_at = AsmState { address: a, ..old(self)@ };
            assert forall|j: int| 0 <= j < self@.insns.len() implies 0x202 <= #[trigger] self@.insns[j].0
                && self@.insns[j].0 + 2 <= self@.address by {
                assert(self@.insns[j] == old(self)@.insns[j]);
                assert(pre_at.insns[j] == old(self)@.insns[j]);
                assert(0x202 <= pre_at.insns[j].0 && pre_at.insns[j].0 + 2 <= a);
            }
            assert(state_ok(self@));
        }
    }

    /// Takes line number `index` of the source; see [`line_step`].
    pub fn line(&mut self, s: &'a str, index: usize) -> (r: Result<(), AsmError>)
        requires
            old(self).wf(),
        ensures
            match line_step(old(self)@, s@, index as nat) {
                Ok(st) => r is Ok && final(self)@ == st && final(self).wf(),
                Err(e) => r == Err::<(), AsmError>(e),
            },
    {
        let ghost pre = self@;
        let t = strip_ws_comments(s);
        if t.unicode_len() == 0 {
            return Ok(());
        }
        let rom_addr = (self.address - 0x200) as usize;
        if let Some(n) = label(t) {
            proof {
                lemma_insert_keeps_dot(self.table@, n@, ValueView::Complete(self.address));
            }
            self.table.insert(n, Value::Complete(self.address));
            proof {
                assert(self@.insns =~= pre.insns);
            }
            return Ok(());
        }
        if let Some((n, v)) = constant(t) {
            proof {
                lemma_insert_keeps_dot(self.table@, n@, v.view());
            }
            self.table.insert(n, v);
            proof {
                assert(self@.insns =~= pre.insns);
            }
            return Ok(());
        }
        if let Some((what, k)) = repeat(t) {
            if rom_addr + k as usize > ROM_SIZE {
                return Err(AsmError::NoRoom);
            }
            let mut j: usize = 0;
            while j < k as usize
                invariant
                    self.wf() || self.rom@.len() == ROM_SIZE,
                    self@ == (AsmState { rom: self.rom@, ..pre }),
                    state_ok(pre),
                    rom_addr == pre.address - 0x200,
                    rom_addr + k <= ROM_SIZE,
                    j <= k,
                    self.rom@ == fill(pre.rom, rom_addr as int, j as int, what),
                decreases k - j,
            {
                self.rom.set(rom_addr + j, what);
                j += 1;
                assert(self.rom@ =~= fill(pre.rom, rom_addr as int, j as int, what));
            }
            self.move_to(self.address + k);
            return Ok(());
        }
        if let Some(k) = reserve(t) {
            if rom_addr + k as usize > ROM_SIZE {
                return Err(AsmError::NoRoom);
            }
            self.move_to(self.address + k);
            return Ok(());
        }
        if let Some(n) = entrypoint(t) {
            self.entrypoint = n;
            proof {
                assert(self@.insns =~= pre.insns);
            }
            return Ok(());
        }
        if let Some(bs) = sequence_bytes(t) {
            if bs.len() > ROM_SIZE - rom_addr {
                return Err(AsmError::NoRoom);
            }
            let mut j: usize = 0;
            while j < bs.len()
                invariant
                    self@ == (AsmState { rom: self.rom@, ..pre }),
                    state_ok(pre),
                    rom_addr == pre.address - 0x200,
                    rom_addr + bs@.len() <= ROM_SIZE,
                    j <= bs@.len(),
                    self.rom@ == write_at(pre.rom, rom_addr as int, bs@.take(j as int)),
                decreases bs@.len() - j,
            {
                self.rom.set(rom_addr + j, bs[j]);
                j += 1;
                assert(self.rom@ =~= write_at(pre.rom, rom_addr as int, bs@.take(j as int)));
            }
            assert(bs@.take(bs@.len() as int) =~= bs@);
            self.move_to(self.address + bs.len() as u16);
            return Ok(());
        }
        if let Some(i) = any(t) {
            if rom_addr + 2 > ROM_SIZE {
                return Err(AsmError::RomExhausted);
            }
            let ghost iv = i.view();
            self.instructions.push((self.address, i));
            proof {
                assert(self@.insns =~= pre.insns.push((pre.address, iv)));
            }
            self.move_to(self.address + 2);
            return Ok(());
        }
        Err(AsmError::UnknownLine(index))
    }

    /// The second pass; see [`finished`].
    pub fn finish(self) -> (r: Result<Vec<u8>, AsmError>)
        requires
            self.wf(),
        ensures
            match finished(self@) {
                Ok(rom) => r matches Ok(v) && v@ == rom,
                Err(e) => r == Err::<Vec<u8>, AsmError>(e),
            },
    {
        let ghost st = self@;
        let Assembler { rom, address, table, instructions, entrypoint } = self;
        let mut rom = rom;
        let mut table = table.resolve();
        let mut j: usize = 0;
        proof {
            reveal_strlit(".");
            assert("."@ =~= dot());
        }
        while j < instructions.len()
            invariant
                st == self@,
                state_ok(st),
                st.insns.len() == instructions@.len(),
                forall|k: int| 0 <= k < instructions@.len() ==> (#[trigger] instructions@[k]).0 == st.insns[k].0
                    && instructions@[k].1.view() == st.insns[k].1,
                j <= instructions@.len(),
                table.wf(),
                rom@.len() == ROM_SIZE,
                second_pass(st.rom, resolved(st.table), st.insns, j as int) == Ok::<_, AsmError>(
                    (rom@, table@),
                ),
                "."@ == dot(),
            decreases instructions@.len() - j,
        {
            let (a, i) = &instructions[j];
            let ghost rom0 = rom@;
            let ghost table0 = table@;
            proof {
                assert(st.insns[j as int].0 == *a);
                assert(st.insns[j as int].1 == i.view());
            }
            match emit(&mut rom, &mut table, *a, i) {
                Ok(()) => {},
                Err(e) => {
                    proof {
                        assert(second_pass(st.rom, resolved(st.table), st.insns, j as int) == Ok::<
                            _,
                            AsmError,
                        >((rom0, table0)));
                        assert(compiled(st.insns[j as int].1, set_dot(table0, *a)) is None);
                        assert(second_pass(st.rom, resolved(st.table), st.insns, j + 1) == Err::<
                            (Seq<u8>, Seq<(Seq<char>, ValueView<u16>)>),
                            AsmError,
                        >(e));
                        lemma_second_pass_err(
                            st.rom,
                            resolved(st.table),
                            st.insns,
                            j + 1,
                            st.insns.len() as int,
                            e,
                        );
                        assert(finished(st) == Err::<Seq<u8>, AsmError>(e));
                    }
                    return Err(e);
                },
            }
            j += 1;
        }
        let ep = match table.get(entrypoint) {
            Some(v) => match v.consume(&table) {
                Some(ep) => ep,
                None => {
                    return Err(AsmError::NoEntrypoint);
                },
            },
            None => {
                return Err(AsmError::NoEntrypoint);
            },
        };
        rom.set(0, ((ep / 256) as u8) | 0x10u8);
        rom.set(1, (ep % 256) as u8);
        rom.truncate((address - 0x200) as usize);
        proof {
            assert(st.insns.len() == j);
        }
        Ok(rom)
    }
}

/// The ROM that `lines` assemble to; see [`assembled`].
pub fn assemble(lines: &[String]) -> (r: Result<Vec<u8>, AsmError>)
    ensures
        match assembled(lines@.map_values(|l: String| l@)) {
            Ok(rom) => r matches Ok(v) && v@ == rom,
            Err(e) => r == Err::<Vec<u8>, AsmError>(e),
        },
{
    let ghost src = lines@.map_values(|l: String| l@);
    let mut pass = Assembler::new();
    let mut k: usize = 0;
    while k < lines.len()
        invariant
            k <= lines@.len(),
            src == lines@.map_values(|l: String| l@),
            pass.wf(),
            first_pass(initial_state(), src, k as int) == Ok::<AsmState, AsmError>(pass@),
        decreases lines@.len() - k,
    {
        let line = lines[k].as_str();
        assert(line@ == src[k as int]);
        match pass.line(line, k) {
            Ok(()) => {},
            Err(e) => {
                proof {
                    lemma_first_pass_err(initial_state(), src, k + 1, src.len() as int, e);
                }
                return Err(e);
            },
        }
        k += 1;
    }
    pass.finish()
}

} // verus!
