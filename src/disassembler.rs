use vstd::prelude::*;

use std::collections::{HashMap, HashSet};

use crate::text::{hex, hex_padded, push_str};

verus! {

/// An operand of a decoded instruction.
#[derive(Debug, Clone, Copy, PartialEq, Eq, Structural)]
pub enum Argument {
    Constant(u16),
    Register(u16),
}

impl Argument {
    pub open spec fn spec_value(self) -> u16 {
        match self {
            Argument::Constant(v) => v,
            Argument::Register(v) => v,
        }
    }

    /// The number the operand holds: a constant, or a register's index.
    pub fn value(&self) -> (r: u16)
        ensures
            r == self.spec_value(),
    {
        match self {
            Argument::Constant(v) => *v,
            Argument::Register(v) => *v,
        }
    }

    /// The operand as shown in a listing, coloured for a terminal: a constant
    /// in lower-case hexadecimal, a register as `V` and its upper-case digit.
    pub fn text(&self) -> (r: String)
        ensures
            r@ == argument_text(*self),
    {
        let mut out = String::new();
        match self {
            Argument::Constant(v) => {
                push_str(&mut out, "\x1b[38;5;174m");
                let h = hex(*v, 0, false);
                push_str(&mut out, h.as_str());
            },
            Argument::Register(v) => {
                push_str(&mut out, "\x1b[38;5;208mV");
                let h = hex(*v, 1, true);
                push_str(&mut out, h.as_str());
            },
        }
        push_str(&mut out, "\x1b[m");
        out
    }
}

pub open spec fn argument_text(a: Argument) -> Seq<char> {
    match a {
        Argument::Constant(v) => "\x1b[38;5;174m"@ + hex_padded(v as nat, 0, false) + "\x1b[m"@,
        Argument::Register(v) => "\x1b[38;5;208mV"@ + hex_padded(v as nat, 1, true) + "\x1b[m"@,
    }
}

/// A decoded CHIP-8 instruction.
#[derive(Debug, Clone, Copy, PartialEq, Eq, Structural)]
pub enum Instruction {
    Load { what: Argument, into: Argument },
    Add { what: Argument, into: Argument },
    Sub { what: Argument, into: Argument, inverted: bool },
    And(Argument, Argument),
    Or(Argument, Argument),
    Xor(Argument, Argument),
    LoadI(Argument),
    AddI(Argument),
    LoadR(Argument),
    Dump(Argument),
    Draw(Argument, Argument, Argument),
    Call(Argument),
    Jump { target: Argument, adds_v0: bool },
    Ret,
    Clear,
    SkipValue { register: Argument, what: Argument, is_negated: bool },
    SkipKey { register: Argument, is_negated: bool },
    LoadKey(Argument),
    LoadDelay(Argument),
    SetSound(Argument),
    SetDelay(Argument),
    Shift { what: Argument, into: Argument, is_left: bool },
    Bcd(Argument),
    Font(Argument),
    Random(Argument, Argument),
}

/// The instruction an opcode encodes, if any. The opcode is read as four
/// nibbles `A X B C`; most families are told apart by `A`, the others by
/// `A` together with `B` and `C`.
pub open spec fn decoded(opcode: u16) -> Option<Instruction> {
    let a = opcode / 0x1000;
    let x = Argument::Register(opcode / 256 % 16);
    let y = Argument::Register(opcode / 16 % 16);
    let b = opcode / 16 % 16;
    let c = opcode % 16;
    let bc = Argument::Constant(opcode % 256);
    let nnn = Argument::Constant(opcode % 0x1000);
    if a == 0 && b == 0xe && c == 0 {
        Some(Instruction::Clear)
    } else if a == 0 && b == 0xe && c == 0xe {
        Some(Instruction::Ret)
    } else if a == 1 {
        Some(Instruction::Jump { target: nnn, adds_v0: false })
    } else if a == 2 {
        Some(Instruction::Call(nnn))
    } else if a == 3 {
        Some(Instruction::SkipValue { register: x, what: bc, is_negated: false })
    } else if a == 4 {
        Some(Instruction::SkipValue { register: x, what: bc, is_negated: true })
    } else if a == 5 && c == 0 {
        Some(Instruction::SkipValue { register: x, what: y, is_negated: false })
    } else if a == 6 {
        Some(Instruction::Load { what: bc, into: x })
    } else if a == 7 {
        Some(Instruction::Add { what: bc, into: x })
    } else if a == 8 && c == 0 {
        Some(Instruction::Load { what: y, into: x })
    } else if a == 8 && c == 1 {
        Some(Instruction::Or(x, y))
    } else if a == 8 && c == 2 {
        Some(Instruction::And(x, y))
    } else if a == 8 && c == 3 {
        Some(Instruction::Xor(x, y))
    } else if a == 8 && c == 4 {
        Some(Instruction::Add { what: y, into: x })
    } else if a == 8 && c == 5 {
        Some(Instruction::Sub { what: x, into: y, inverted: false })
    } else if a == 8 && c == 6 {
        Some(Instruction::Shift { what: x, into: y, is_left: false })
    } else if a == 8 && c == 7 {
        Some(Instruction::Sub { what: y, into: x, inverted: true })
    } else if a == 8 && c == 0xe {
        Some(Instruction::Shift { what: x, into: y, is_left: true })
    } else if a == 9 && c == 0 {
        Some(Instruction::SkipValue { register: x, what: y, is_negated: true })
    } else if a == 0xa {
        Some(Instruction::LoadI(nnn))
    } else if a == 0xb {
        Some(Instruction::Jump { target: nnn, adds_v0: true })
    } else if a == 0xc {
        Some(Instruction::Random(x, bc))
    } else if a == 0xd {
        Some(Instruction::Draw(x, y, Argument::Constant(c)))
    } else if a == 0xe && b == 9 && c == 0xe {
        Some(Instruction::SkipKey { register: x, is_negated: false })
    } else if a == 0xe && b == 0xa && c == 1 {
        Some(Instruction::SkipKey { register: x, is_negated: true })
    } else if a == 0xf && b == 0 && c == 7 {
        Some(Instruction::LoadDelay(x))
    } else if a == 0xf && b == 0 && c == 0xa {
        Some(Instruction::LoadKey(x))
    } else if a == 0xf && b == 1 && c == 5 {
        Some(Instruction::SetDelay(x))
    } else if a == 0xf && b == 1 && c == 8 {
        Some(Instruction::SetSound(x))
    } else if a == 0xf && b == 1 && c == 0xe {
        Some(Instruction::AddI(x))
    } else if a == 0xf && b == 2 && c == 9 {
        Some(Instruction::Font(x))
    } else if a == 0xf && b == 3 && c == 3 {
        Some(Instruction::Bcd(x))
    } else if a == 0xf && b == 5 && c == 5 {
        Some(Instruction::Dump(x))
    } else if a == 0xf && b == 6 && c == 5 {
        Some(Instruction::LoadR(x))
    } else {
        None
    }
}

/// The mnemonic of an instruction.
pub open spec fn mnemonic(i: Instruction) -> Seq<char> {
    match i {
        Instruction::Load { .. } => "LD"@,
        Instruction::Add { .. } => "ADD"@,
        Instruction::Sub { inverted, .. } => if inverted {
            "SBI"@
        } else {
            "SUB"@
        },
        Instruction::And(..) => "AND"@,
        Instruction::Or(..) => "OR"@,
        Instruction::Xor(..) => "XOR"@,
        Instruction::LoadI(..) => "LDI"@,
        Instruction::AddI(..) => "ADDI"@,
        Instruction::SetSound(..) => "SND"@,
        Instruction::LoadR(..) => "LDR"@,
        Instruction::LoadKey(..) => "LDK"@,
        Instruction::Dump(..) => "DMP"@,
        Instruction::Draw(..) => "DRW"@,
        Instruction::Call(..) => "CALL"@,
        Instruction::Jump { adds_v0, .. } => if adds_v0 {
            "JP0"@
        } else {
            "JP"@
        },
        Instruction::Bcd(..) => "BCD"@,
        Instruction::Random(..) => "RND"@,
        Instruction::SkipKey { is_negated, .. } => if is_negated {
            "SNK"@
        } else {
            "SIK"@
        },
        Instruction::SkipValue { is_negated, .. } => if is_negated {
            "SNE"@
        } else {
            "SEQ"@
        },
        Instruction::SetDelay(..) => "DLY"@,
        Instruction::LoadDelay(..) => "LDD"@,
        Instruction::Ret => "RET"@,
        Instruction::Clear => "CLR"@,
        Instruction::Font(..) => "FNT"@,
        Instruction::Shift { is_left, .. } => if is_left {
            "SHL"@
        } else {
            "SHR"@
        },
    }
}

impl Instruction {
    pub fn is_call(&self) -> (r: bool)
        ensures
            r == (self is Call),
    {
        matches!(self, Instruction::Call(_))
    }

    /// Decodes an opcode; `None` for an opcode that encodes no instruction.
    pub fn from_opcode(opcode: u16) -> (r: Option<Self>)
        ensures
            r == decoded(opcode),
    {
        let a = opcode / 0x1000;
        let x = Argument::Register(opcode / 256 % 16);
        let y = Argument::Register(opcode / 16 % 16);
        let b = opcode / 16 % 16;
        let c = opcode % 16;
        let bc = Argument::Constant(opcode % 256);
        let nnn = Argument::Constant(opcode % 0x1000);
        let value = if a == 0 && b == 0xe && c == 0 {
            Self::Clear
        } else if a == 0 && b == 0xe && c == 0xe {
            Self::Ret
        } else if a == 1 {
            Self::Jump { target: nnn, adds_v0: false }
        } else if a == 2 {
            Self::Call(nnn)
        } else if a == 3 {
            Self::SkipValue { register: x, what: bc, is_negated: false }
        } else if a == 4 {
            Self::SkipValue { register: x, what: bc, is_negated: true }
        } else if a == 5 && c == 0 {
            Self::SkipValue { register: x, what: y, is_negated: false }
        } else if a == 6 {
            Self::Load { what: bc, into: x }
        } else if a == 7 {
            Self::Add { what: bc, into: x }
        } else if a == 8 && c == 0 {
            Self::Load { what: y, into: x }
        } else if a == 8 && c == 1 {
            Self::Or(x, y)
        } else if a == 8 && c == 2 {
            Self::And(x, y)
        } else if a == 8 && c == 3 {
            Self::Xor(x, y)
        } else if a == 8 && c == 4 {
            Self::Add { what: y, into: x }
        } else if a == 8 && c == 5 {
            Self::Sub { what: x, into: y, inverted: false }
        } else if a == 8 && c == 6 {
            Self::Shift { what: x, into: y, is_left: false }
        } else if a == 8 && c == 7 {
            Self::Sub { what: y, into: x, inverted: true }
        } else if a == 8 && c == 0xe {
            Self::Shift { what: x, into: y, is_left: true }
        } else if a == 9 && c == 0 {
            Self::SkipValue { register: x, what: y, is_negated: true }
        } else if a == 0xa {
            Self::LoadI(nnn)
        } else if a == 0xb {
            Self::Jump { target: nnn, adds_v0: true }
        } else if a == 0xc {
            Self::Random(x, bc)
        } else if a == 0xd {
            Self::Draw(x, y, Argument::Constant(c))
        } else if a == 0xe && b == 9 && c == 0xe {
            Self::SkipKey { register: x, is_negated: false }
        } else if a == 0xe && b == 0xa && c == 1 {
            Self::SkipKey { register: x, is_negated: true }
        } else if a == 0xf && b == 0 && c == 7 {
            Self::LoadDelay(x)
        } else if a == 0xf && b == 0 && c == 0xa {
            Self::LoadKey(x)
        } else if a == 0xf && b == 1 && c == 5 {
            Self::SetDelay(x)
        } else if a == 0xf && b == 1 && c == 8 {
            Self::SetSound(x)
        } else if a == 0xf && b == 1 && c == 0xe {
            Self::AddI(x)
        } else if a == 0xf && b == 2 && c == 9 {
            Self::Font(x)
        } else if a == 0xf && b == 3 && c == 3 {
            Self::Bcd(x)
        } else if a == 0xf && b == 5 && c == 5 {
            Self::Dump(x)
        } else if a == 0xf && b == 6 && c == 5 {
            Self::LoadR(x)
        } else {
            return None;
        };
        Some(value)
    }

    /// The mnemonic of the instruction, as the assembler spells it.
    pub fn name_str(&self) -> (r: &'static str)
        ensures
            r@ == mnemonic(*self),
    {
        match self {
            Self::Load { .. } => "LD",
            Self::Add { .. } => "ADD",
            Self::Sub { inverted, .. } => {
                if *inverted {
                    "SBI"
                } else {
                    "SUB"
                }
            },
            Self::And(..) => "AND",
            Self::Or(..) => "OR",
            Self::Xor(..) => "XOR",
            Self::LoadI(..) => "LDI",
            Self::AddI(..) => "ADDI",
            Self::SetSound(..) => "SND",
            Self::LoadR(..) => "LDR",
            Self::LoadKey(..) => "LDK",
            Self::Dump(..) => "DMP",
            Self::Draw(..) => "DRW",
            Self::Call(..) => "CALL",
            Self::Jump { adds_v0, .. } => {
                if *adds_v0 {
                    "JP0"
                } else {
                    "JP"
                }
            },
            Self::Bcd(..) => "BCD",
            Self::Random(..) => "RND",
            Self::SkipKey { is_negated, .. } => {
                if *is_negated {
                    "SNK"
                } else {
                    "SIK"
                }
            },
            Self::SkipValue { is_negated, .. } => {
                if *is_negated {
                    "SNE"
                } else {
                    "SEQ"
                }
            },
            Self::SetDelay(..) => "DLY",
            Self::LoadDelay(..) => "LDD",
            Self::Ret => "RET",
            Self::Clear => "CLR",
            Self::Font(..) => "FNT",
            Self::Shift { is_left, .. } => {
                if *is_left {
                    "SHL"
                } else {
                    "SHR"
                }
            },
        }
    }
}


/// The operands of an instruction as a listing shows them. A jump or call
/// target that has a label shows the label; an index that is a sprite
/// address shows as `@` and the address.
pub open spec fn args_text(i: Instruction, labels: Map<u16, String>, sprites: Set<u16>) -> Seq<
    char,
> {
    match i {
        Instruction::Load { what, into } | Instruction::Add { what, into } | Instruction::Sub {
            what,
            into,
            ..
        } | Instruction::And(into, what) | Instruction::Or(into, what) | Instruction::Xor(
            into,
            what,
        ) | Instruction::SkipValue { register: into, what, .. } => argument_text(into) + ", "@
            + argument_text(what),
        Instruction::AddI(what) | Instruction::LoadDelay(what) | Instruction::SetDelay(what)
        | Instruction::SetSound(what) | Instruction::LoadR(what) | Instruction::Dump(what)
        | Instruction::LoadKey(what) | Instruction::Bcd(what) | Instruction::Font(what)
        | Instruction::SkipKey { register: what, .. } => argument_text(what),
        Instruction::LoadI(what) => if sprites.contains(what.spec_value()) {
            "\x1b[38;5;176m@"@ + hex_padded(what.spec_value() as nat, 0, false)
        } else {
            "\x1b[38;5;176m"@ + argument_text(what)
        },
        Instruction::Jump { target, .. } | Instruction::Call(target) => "\x1b[38;5;68m"@ + if labels.contains_key(
            target.spec_value(),
        ) {
            labels[target.spec_value()]@
        } else {
            argument_text(target)
        },
        Instruction::Random(into, mask) => argument_text(into) + if mask.spec_value() != 0xff {
            ", "@ + argument_text(mask)
        } else {
            Seq::empty()
        },
        Instruction::Draw(a, b, c) => argument_text(a) + ", "@ + argument_text(b) + ", "@
            + argument_text(c),
        Instruction::Ret | Instruction::Clear => Seq::empty(),
        Instruction::Shift { into, what, .. } => argument_text(what) + if into.spec_value()
            != what.spec_value() {
            ", "@ + argument_text(into)
        } else {
            Seq::empty()
        },
    }
}

impl Instruction {
    /// The operands as a listing shows them; see [`args_text`].
    pub fn format_args(&self, labels: &HashMap<u16, String>, sprites: &HashSet<u16>) -> (r: String)
        ensures
            r@ == args_text(*self, labels@, sprites@),
    {
        broadcast use vstd::std_specs::hash::group_hash_axioms;

        let mut out = String::new();
        match self {
            Self::Load { what, into } | Self::Add { what, into } | Self::Sub { what, into, .. }
            | Self::And(into, what) | Self::Or(into, what) | Self::Xor(into, what)
            | Self::SkipValue { register: into, what, .. } => {
                let a = into.text();
                push_str(&mut out, a.as_str());
                push_str(&mut out, ", ");
                let b = what.text();
                push_str(&mut out, b.as_str());
            },
            Self::AddI(what) | Self::LoadDelay(what) | Self::SetDelay(what) | Self::SetSound(what)
            | Self::LoadR(what) | Self::Dump(what) | Self::LoadKey(what) | Self::Bcd(what)
            | Self::Font(what) | Self::SkipKey { register: what, .. } => {
                let a = what.text();
                push_str(&mut out, a.as_str());
            },
            Self::LoadI(what) => {
                if sprites.contains(&what.value()) {
                    push_str(&mut out, "\x1b[38;5;176m@");
                    let h = hex(what.value(), 0, false);
                    push_str(&mut out, h.as_str());
                } else {
                    push_str(&mut out, "\x1b[38;5;176m");
                    let a = what.text();
                    push_str(&mut out, a.as_str());
                }
            },
            Self::Jump { target, .. } | Self::Call(target) => {
                push_str(&mut out, "\x1b[38;5;68m");
                match labels.get(&target.value()) {
                    Some(name) => push_str(&mut out, name.as_str()),
                    None => {
                        let a = target.text();
                        push_str(&mut out, a.as_str());
                    },
                }
            },
            Self::Random(into, mask) => {
                let a = into.text();
                push_str(&mut out, a.as_str());
                if mask.value() != 0xff {
                    push_str(&mut out, ", ");
                    let b = mask.text();
                    push_str(&mut out, b.as_str());
                }
            },
            Self::Draw(a, b, c) => {
                let x = a.text();
                push_str(&mut out, x.as_str());
                push_str(&mut out, ", ");
                let y = b.text();
                push_str(&mut out, y.as_str());
                push_str(&mut out, ", ");
                let z = c.text();
                push_str(&mut out, z.as_str());
            },
            Self::Ret | Self::Clear => {},
            Self::Shift { into, what, .. } => {
                let a = what.text();
                push_str(&mut out, a.as_str());
                if into.value() != what.value() {
                    push_str(&mut out, ", ");
                    let b = into.text();
                    push_str(&mut out, b.as_str());
                }
            },
        }
        proof {
            assert(out@ =~= args_text(*self, labels@, sprites@));
        }
        out
    }
}

} // verus!
