use vstd::prelude::*;

use crate::expr::{
    expr_text, pexpr, value16, value8, SymbolTable, Value, ValueView,
};
use crate::parse::{
    after_comma, hex_val, hex_value, is_hex_char, pcomma, rest_from, skip_ws1, starts_with,
    whitespace1,
};

verus! {

/// An operand of an assembly instruction.
#[derive(Debug, PartialEq, Eq)]
pub enum Argument<'a> {
    Constant(Value<'a, u8>),
    Register(Value<'a, u8>),
}

/// An assembly instruction as parsed, before its expressions are evaluated.
#[derive(Debug, PartialEq, Eq)]
#[allow(inconsistent_fields)]
pub enum Instruction<'a> {
    Load { register: u8, value: Argument<'a> },
    Add { target: u8, value: Argument<'a> },
    Sub { target: u8, value: u8, inverse: bool },
    Shift { from: u8, target: u8, is_left: bool },
    And { from: u8, target: u8 },
    Or { from: u8, target: u8 },
    Xor { from: u8, target: u8 },
    Jump { uses_zero: bool, target: Value<'a, u16> },
    Call(Value<'a, u16>),
    Return,
    ConditionalSkip { a: u8, b: Argument<'a>, negated: bool },
    Dump(u8),
    LoadR(u8),
    LoadI(Value<'a, u16>),
    Font(u8),
    AddI(u8),
    LoadDelay(u8),
    SetDelay(u8),
    SetSound(u8),
    BinaryCodedDecimal(u8),
    Clear,
    Draw { x: u8, y: u8, height: Value<'a, u8> },
    LoadKey(u8),
    ConditionalKey { register: u8, negated: bool },
    Random { target: u8, mask: Value<'a, u8> },
}

/// An [`Argument`] with its text as characters.
pub enum ArgumentView {
    Constant(ValueView<u8>),
    Register(ValueView<u8>),
}

/// An [`Instruction`] with its texts as characters.
#[allow(inconsistent_fields)]
pub enum InstructionView {
    Load { register: u8, value: ArgumentView },
    Add { target: u8, value: ArgumentView },
    Sub { target: u8, value: u8, inverse: bool },
    Shift { from: u8, target: u8, is_left: bool },
    And { from: u8, target: u8 },
    Or { from: u8, target: u8 },
    Xor { from: u8, target: u8 },
    Jump { uses_zero: bool, target: ValueView<u16> },
    Call(ValueView<u16>),
    Return,
    ConditionalSkip { a: u8, b: ArgumentView, negated: bool },
    Dump(u8),
    LoadR(u8),
    LoadI(ValueView<u16>),
    Font(u8),
    AddI(u8),
    LoadDelay(u8),
    SetDelay(u8),
    SetSound(u8),
    BinaryCodedDecimal(u8),
    Clear,
    Draw { x: u8, y: u8, height: ValueView<u8> },
    LoadKey(u8),
    ConditionalKey { register: u8, negated: bool },
    Random { target: u8, mask: ValueView<u8> },
}

impl<'a> Argument<'a> {
    pub open spec fn view(self) -> ArgumentView {
        match self {
            Argument::Constant(v) => ArgumentView::Constant(v.view()),
            Argument::Register(v) => ArgumentView::Register(v.view()),
        }
    }
}

impl<'a> Instruction<'a> {
    pub open spec fn view(self) -> InstructionView {
        match self {
            Instruction::Load { register, value } => InstructionView::Load {
                register,
                value: value.view(),
            },
            Instruction::Add { target, value } => InstructionView::Add {
                target,
                value: value.view(),
            },
            Instruction::Sub { target, value, inverse } => InstructionView::Sub {
                target,
                value,
                inverse,
            },
            Instruction::Shift { from, target, is_left } => InstructionView::Shift {
                from,
                target,
                is_left,
            },
            Instruction::And { from, target } => InstructionView::And { from, target },
            Instruction::Or { from, target } => InstructionView::Or { from, target },
            Instruction::Xor { from, target } => InstructionView::Xor { from, target },
            Instruction::Jump { uses_zero, target } => InstructionView::Jump {
                uses_zero,
                target: target.view(),
            },
            Instruction::Call(v) => InstructionView::Call(v.view()),
            Instruction::Return => InstructionView::Return,
            Instruction::ConditionalSkip { a, b, negated } => InstructionView::ConditionalSkip {
                a,
                b: b.view(),
                negated,
            },
            Instruction::Dump(x) => InstructionView::Dump(x),
            Instruction::LoadR(x) => InstructionView::LoadR(x),
            Instruction::LoadI(v) => InstructionView::LoadI(v.view()),
            Instruction::Font(x) => InstructionView::Font(x),
            Instruction::AddI(x) => InstructionView::AddI(x),
            Instruction::LoadDelay(x) => InstructionView::LoadDelay(x),
            Instruction::SetDelay(x) => InstructionView::SetDelay(x),
            Instruction::SetSound(x) => InstructionView::SetSound(x),
            Instruction::BinaryCodedDecimal(x) => InstructionView::BinaryCodedDecimal(x),
            Instruction::Clear => InstructionView::Clear,
            Instruction::Draw { x, y, height } => InstructionView::Draw {
                x,
                y,
                height: height.view(),
            },
            Instruction::LoadKey(x) => InstructionView::LoadKey(x),
            Instruction::ConditionalKey { register, negated } => InstructionView::ConditionalKey {
                register,
                negated,
            },
            Instruction::Random { target, mask } => InstructionView::Random {
                target,
                mask: mask.view(),
            },
        }
    }
}

pub open spec fn opt_view<'a>(r: Option<Instruction<'a>>) -> Option<InstructionView> {
    match r {
        Some(i) => Some(i.view()),
        None => None,
    }
}

// ---------------------------------------------------------------------------
// The grammar, over characters.

/// A register: `V` and one hexadecimal digit.
pub open spec fn reg_of(s: Seq<char>) -> Option<u8> {
    if s.len() >= 2 && s[0] == 'V' && is_hex_char(s[1]) {
        Some(hex_val(s[1]) as u8)
    } else {
        None
    }
}

/// What follows the word `w` and at least one whitespace character.
pub open spec fn after_word(s: Seq<char>, w: Seq<char>) -> Option<Seq<char>> {
    if w.len() <= s.len() && s.take(w.len() as int) == w {
        skip_ws1(s.skip(w.len() as int))
    } else {
        None
    }
}

/// `w Vx`.
pub open spec fn one_reg(s: Seq<char>, w: Seq<char>) -> Option<u8> {
    match after_word(s, w) {
        Some(t) => reg_of(t),
        None => None,
    }
}

/// `w Vx, ...`: the register and what follows the comma.
pub open spec fn reg_comma(s: Seq<char>, w: Seq<char>) -> Option<(u8, Seq<char>)> {
    match after_word(s, w) {
        Some(t) => match reg_of(t) {
            Some(x) => match after_comma(t.skip(2)) {
                Some(u) => Some((x, u)),
                None => None,
            },
            None => None,
        },
        None => None,
    }
}

/// `w Vx, Vy`.
pub open spec fn two_regs(s: Seq<char>, w: Seq<char>) -> Option<(u8, u8)> {
    match reg_comma(s, w) {
        Some((x, u)) => match reg_of(u) {
            Some(y) => Some((x, y)),
            None => None,
        },
        None => None,
    }
}

/// An operand: a register, or else an expression.
pub open spec fn arg_of(s: Seq<char>) -> Option<ArgumentView> {
    match reg_of(s) {
        Some(x) => Some(ArgumentView::Register(ValueView::Complete(x))),
        None => match expr_text(s) {
            Some(e) => Some(ArgumentView::Constant(ValueView::Partial(e))),
            None => None,
        },
    }
}

/// `w Vx, operand`.
pub open spec fn reg_arg(s: Seq<char>, w: Seq<char>) -> Option<(u8, ArgumentView)> {
    match reg_comma(s, w) {
        Some((x, u)) => match arg_of(u) {
            Some(a) => Some((x, a)),
            None => None,
        },
        None => None,
    }
}

/// `w expression`.
pub open spec fn word_expr(s: Seq<char>, w: Seq<char>) -> Option<Seq<char>> {
    match after_word(s, w) {
        Some(t) => expr_text(t),
        None => None,
    }
}

pub open spec fn begins(s: Seq<char>, w: Seq<char>) -> bool {
    w.len() <= s.len() && s.take(w.len() as int) == w
}


pub open spec fn dump_form(s: Seq<char>) -> Option<InstructionView> {
    match one_reg(s, "DMP"@) {
        Some(x) => Some(InstructionView::Dump(x)),
        None => None,
    }
}

pub open spec fn load_registers_form(s: Seq<char>) -> Option<InstructionView> {
    match one_reg(s, "LDR"@) {
        Some(x) => Some(InstructionView::LoadR(x)),
        None => None,
    }
}

pub open spec fn font_form(s: Seq<char>) -> Option<InstructionView> {
    match one_reg(s, "FNT"@) {
        Some(x) => Some(InstructionView::Font(x)),
        None => None,
    }
}

pub open spec fn add_i_form(s: Seq<char>) -> Option<InstructionView> {
    match one_reg(s, "ADDI"@) {
        Some(x) => Some(InstructionView::AddI(x)),
        None => None,
    }
}

pub open spec fn load_delay_form(s: Seq<char>) -> Option<InstructionView> {
    match one_reg(s, "LDD"@) {
        Some(x) => Some(InstructionView::LoadDelay(x)),
        None => None,
    }
}

pub open spec fn set_delay_form(s: Seq<char>) -> Option<InstructionView> {
    match one_reg(s, "DLY"@) {
        Some(x) => Some(InstructionView::SetDelay(x)),
        None => None,
    }
}

pub open spec fn set_sound_form(s: Seq<char>) -> Option<InstructionView> {
    match one_reg(s, "SND"@) {
        Some(x) => Some(InstructionView::SetSound(x)),
        None => None,
    }
}

pub open spec fn bcd_form(s: Seq<char>) -> Option<InstructionView> {
    match one_reg(s, "BCD"@) {
        Some(x) => Some(InstructionView::BinaryCodedDecimal(x)),
        None => None,
    }
}

pub open spec fn load_key_form(s: Seq<char>) -> Option<InstructionView> {
    match one_reg(s, "LDK"@) {
        Some(x) => Some(InstructionView::LoadKey(x)),
        None => None,
    }
}

pub open spec fn and_form(s: Seq<char>) -> Option<InstructionView> {
    match two_regs(s, "AND"@) {
        Some((x, y)) => Some(InstructionView::And { from: y, target: x }),
        None => None,
    }
}

pub open spec fn or_form(s: Seq<char>) -> Option<InstructionView> {
    match two_regs(s, "OR"@) {
        Some((x, y)) => Some(InstructionView::Or { from: y, target: x }),
        None => None,
    }
}

pub open spec fn xor_form(s: Seq<char>) -> Option<InstructionView> {
    match two_regs(s, "XOR"@) {
        Some((x, y)) => Some(InstructionView::Xor { from: y, target: x }),
        None => None,
    }
}

pub open spec fn load_form(s: Seq<char>) -> Option<InstructionView> {
    match reg_arg(s, "LD"@) {
        Some((x, a)) => Some(InstructionView::Load { register: x, value: a }),
        None => None,
    }
}

pub open spec fn add_form(s: Seq<char>) -> Option<InstructionView> {
    match reg_arg(s, "ADD"@) {
        Some((x, a)) => Some(InstructionView::Add { target: x, value: a }),
        None => None,
    }
}

pub open spec fn sub_form(s: Seq<char>) -> Option<InstructionView> {
    let inverse = begins(s, "SBI"@);
    match two_regs(s, if inverse { "SBI"@ } else { "SUB"@ }) {
        Some((x, y)) => Some(InstructionView::Sub { target: x, value: y, inverse }),
        None => None,
    }
}

pub open spec fn shift_form(s: Seq<char>) -> Option<InstructionView> {
    let is_left = begins(s, "SHL"@);
    match after_word(s, if is_left { "SHL"@ } else { "SHR"@ }) {
        Some(t) => match reg_of(t) {
            Some(x) => match after_comma(t.skip(2)) {
                Some(u) => match reg_of(u) {
                    Some(y) => Some(InstructionView::Shift { from: x, target: y, is_left }),
                    None => None,
                },
                None => Some(InstructionView::Shift { from: x, target: x, is_left }),
            },
            None => None,
        },
        None => None,
    }
}

pub open spec fn jmp_form(s: Seq<char>) -> Option<InstructionView> {
    let uses_zero = begins(s, "JP0"@);
    match word_expr(s, if uses_zero { "JP0"@ } else { "JP"@ }) {
        Some(e) => Some(InstructionView::Jump { uses_zero, target: ValueView::Partial(e) }),
        None => None,
    }
}

pub open spec fn call_form(s: Seq<char>) -> Option<InstructionView> {
    match word_expr(s, "CALL"@) {
        Some(e) => Some(InstructionView::Call(ValueView::Partial(e))),
        None => None,
    }
}

pub open spec fn ret_form(s: Seq<char>) -> Option<InstructionView> {
    if begins(s, "RET"@) {
        Some(InstructionView::Return)
    } else {
        None
    }
}

pub open spec fn conditional_skip_form(s: Seq<char>) -> Option<InstructionView> {
    let negated = begins(s, "SNE"@);
    match reg_arg(s, if negated { "SNE"@ } else { "SEQ"@ }) {
        Some((x, a)) => Some(InstructionView::ConditionalSkip { a: x, b: a, negated }),
        None => None,
    }
}

pub open spec fn set_address_form(s: Seq<char>) -> Option<InstructionView> {
    match word_expr(s, "LDI"@) {
        Some(e) => Some(InstructionView::LoadI(ValueView::Partial(e))),
        None => None,
    }
}

pub open spec fn clear_form(s: Seq<char>) -> Option<InstructionView> {
    if s == "CLR"@ {
        Some(InstructionView::Clear)
    } else {
        None
    }
}

pub open spec fn draw_form(s: Seq<char>) -> Option<InstructionView> {
    match reg_comma(s, "DRW"@) {
        Some((x, u)) => match reg_of(u) {
            Some(y) => match after_comma(u.skip(2)) {
                Some(v) => match expr_text(v) {
                    Some(e) => Some(InstructionView::Draw { x, y, height: ValueView::Partial(e) }),
                    None => None,
                },
                None => None,
            },
            None => None,
        },
        None => None,
    }
}

pub open spec fn conditional_key_form(s: Seq<char>) -> Option<InstructionView> {
    let negated = begins(s, "SNK"@);
    match one_reg(s, if negated { "SNK"@ } else { "SIK"@ }) {
        Some(x) => Some(InstructionView::ConditionalKey { register: x, negated }),
        None => None,
    }
}

pub open spec fn random_form(s: Seq<char>) -> Option<InstructionView> {
    match after_word(s, "RND"@) {
        Some(t) => match reg_of(t) {
            Some(x) => match after_comma(t.skip(2)) {
                Some(u) => match expr_text(u) {
                    Some(e) => Some(InstructionView::Random { target: x, mask: ValueView::Partial(e) }),
                    None => None,
                },
                None => Some(InstructionView::Random { target: x, mask: ValueView::Complete(0xff) }),
            },
            None => None,
        },
        None => None,
    }
}

/// The first of the instruction forms that `s` matches, tried in a fixed
/// order.
pub open spec fn any_form(s: Seq<char>) -> Option<InstructionView> {
    if clear_form(s) is Some {
        clear_form(s)
    } else if ret_form(s) is Some {
        ret_form(s)
    } else if random_form(s) is Some {
        random_form(s)
    } else if conditional_key_form(s) is Some {
        conditional_key_form(s)
    } else if conditional_skip_form(s) is Some {
        conditional_skip_form(s)
    } else if and_form(s) is Some {
        and_form(s)
    } else if or_form(s) is Some {
        or_form(s)
    } else if xor_form(s) is Some {
        xor_form(s)
    } else if load_key_form(s) is Some {
        load_key_form(s)
    } else if load_registers_form(s) is Some {
        load_registers_form(s)
    } else if load_delay_form(s) is Some {
        load_delay_form(s)
    } else if jmp_form(s) is Some {
        jmp_form(s)
    } else if call_form(s) is Some {
        call_form(s)
    } else if dump_form(s) is Some {
        dump_form(s)
    } else if bcd_form(s) is Some {
        bcd_form(s)
    } else if add_i_form(s) is Some {
        add_i_form(s)
    } else if add_form(s) is Some {
        add_form(s)
    } else if sub_form(s) is Some {
        sub_form(s)
    } else if set_address_form(s) is Some {
        set_address_form(s)
    } else if set_delay_form(s) is Some {
        set_delay_form(s)
    } else if set_sound_form(s) is Some {
        set_sound_form(s)
    } else if font_form(s) is Some {
        font_form(s)
    } else if shift_form(s) is Some {
        shift_form(s)
    } else if load_form(s) is Some {
        load_form(s)
    } else {
        draw_form(s)
    }
}

// ---------------------------------------------------------------------------
// Parsers.

/// A register: `V` and one hexadecimal digit.
pub fn preg(input: &str) -> (r: Option<u8>)
    ensures
        r == reg_of(input@),
{
    if input.unicode_len() >= 2 && input.get_char(0) == 'V' {
        let c = input.get_char(1);
        if ('0' <= c && c <= '9') || ('a' <= c && c <= 'f') || ('A' <= c && c <= 'F') {
            return Some(hex_value(c) as u8);
        }
    }
    None
}

/// What follows the word `w` and at least one whitespace character.
fn word_then<'b>(input: &'b str, w: &str) -> (r: Option<&'b str>)
    ensures
        r matches Some(t) ==> after_word(input@, w@) == Some(t@),
        r is None ==> after_word(input@, w@) is None,
{
    if !starts_with(input, w) {
        return None;
    }
    whitespace1(rest_from(input, w.unicode_len()))
}

fn word_reg(input: &str, w: &str) -> (r: Option<u8>)
    ensures
        r == one_reg(input@, w@),
{
    match word_then(input, w) {
        Some(t) => preg(t),
        None => None,
    }
}

fn word_reg_comma<'b>(input: &'b str, w: &str) -> (r: Option<(u8, &'b str)>)
    ensures
        r matches Some(p) ==> reg_comma(input@, w@) == Some((p.0, p.1@)),
        r is None ==> reg_comma(input@, w@) is None,
{
    let t = match word_then(input, w) {
        Some(t) => t,
        None => {
            return None;
        },
    };
    let x = match preg(t) {
        Some(x) => x,
        None => {
            return None;
        },
    };
    match pcomma(rest_from(t, 2)) {
        Some(u) => Some((x, u)),
        None => None,
    }
}

fn word_regs(input: &str, w: &str) -> (r: Option<(u8, u8)>)
    ensures
        r == two_regs(input@, w@),
{
    match word_reg_comma(input, w) {
        Some((x, u)) => match preg(u) {
            Some(y) => Some((x, y)),
            None => None,
        },
        None => None,
    }
}

pub open spec fn opt_arg_view<'a>(r: Option<Argument<'a>>) -> Option<ArgumentView> {
    match r {
        Some(a) => Some(a.view()),
        None => None,
    }
}

/// An operand: a register, or else an expression.
pub fn parg(input: &str) -> (r: Option<Argument<'_>>)
    ensures
        opt_arg_view(r) == arg_of(input@),
{
    if let Some(x) = preg(input) {
        Some(Argument::Register(Value::Complete(x)))
    } else {
        match pexpr(input) {
            Some(e) => Some(Argument::Constant(e)),
            None => None,
        }
    }
}

fn word_reg_arg<'b>(input: &'b str, w: &str) -> (r: Option<(u8, Argument<'b>)>)
    ensures
        r matches Some(p) ==> reg_arg(input@, w@) == Some((p.0, p.1.view())),
        r is None ==> reg_arg(input@, w@) is None,
{
    match word_reg_comma(input, w) {
        Some((x, u)) => match parg(u) {
            Some(a) => Some((x, a)),
            None => None,
        },
        None => None,
    }
}

fn word_expr_value<'b, T>(input: &'b str, w: &str) -> (r: Option<Value<'b, T>>)
    ensures
        r matches Some(v) ==> word_expr(input@, w@) matches Some(e) && v.view() == ValueView::<
            T,
        >::Partial(e),
        r is None ==> word_expr(input@, w@) is None,
{
    match word_then(input, w) {
        Some(t) => pexpr(t),
        None => None,
    }
}

/// `DMP Vx`.
pub fn dump(input: &str) -> (r: Option<Instruction<'_>>)
    ensures
        opt_view(r) == dump_form(input@),
{
    match word_reg(input, "DMP") {
        Some(x) => Some(Instruction::Dump(x)),
        None => None,
    }
}

/// `LDR Vx`.
pub fn load_registers(input: &str) -> (r: Option<Instruction<'_>>)
    ensures
        opt_view(r) == load_registers_form(input@),
{
    match word_reg(input, "LDR") {
        Some(x) => Some(Instruction::LoadR(x)),
        None => None,
    }
}

/// `FNT Vx`.
pub fn font(input: &str) -> (r: Option<Instruction<'_>>)
    ensures
        opt_view(r) == font_form(input@),
{
    match word_reg(input, "FNT") {
        Some(x) => Some(Instruction::Font(x)),
        None => None,
    }
}

/// `ADDI Vx`.
pub fn add_i(input: &str) -> (r: Option<Instruction<'_>>)
    ensures
        opt_view(r) == add_i_form(input@),
{
    match word_reg(input, "ADDI") {
        Some(x) => Some(Instruction::AddI(x)),
        None => None,
    }
}

/// `LDD Vx`.
pub fn load_delay(input: &str) -> (r: Option<Instruction<'_>>)
    ensures
        opt_view(r) == load_delay_form(input@),
{
    match word_reg(input, "LDD") {
        Some(x) => Some(Instruction::LoadDelay(x)),
        None => None,
    }
}

/// `DLY Vx`.
pub fn set_delay(input: &str) -> (r: Option<Instruction<'_>>)
    ensures
        opt_view(r) == set_delay_form(input@),
{
    match word_reg(input, "DLY") {
        Some(x) => Some(Instruction::SetDelay(x)),
        None => None,
    }
}

/// `SND Vx`.
pub fn set_sound(input: &str) -> (r: Option<Instruction<'_>>)
    ensures
        opt_view(r) == set_sound_form(input@),
{
    match word_reg(input, "SND") {
        Some(x) => Some(Instruction::SetSound(x)),
        None => None,
    }
}

/// `BCD Vx`.
pub fn bcd(input: &str) -> (r: Option<Instruction<'_>>)
    ensures
        opt_view(r) == bcd_form(input@),
{
    match word_reg(input, "BCD") {
        Some(x) => Some(Instruction::BinaryCodedDecimal(x)),
        None => None,
    }
}

/// `LDK Vx`.
pub fn load_key(input: &str) -> (r: Option<Instruction<'_>>)
    ensures
        opt_view(r) == load_key_form(input@),
{
    match word_reg(input, "LDK") {
        Some(x) => Some(Instruction::LoadKey(x)),
        None => None,
    }
}

/// `AND Vx, Vy`.
pub fn and(input: &str) -> (r: Option<Instruction<'_>>)
    ensures
        opt_view(r) == and_form(input@),
{
    match word_regs(input, "AND") {
        Some((x, y)) => Some(Instruction::And { from: y, target: x }),
        None => None,
    }
}

/// `OR Vx, Vy`.
pub fn or(input: &str) -> (r: Option<Instruction<'_>>)
    ensures
        opt_view(r) == or_form(input@),
{
    match word_regs(input, "OR") {
        Some((x, y)) => Some(Instruction::Or { from: y, target: x }),
        None => None,
    }
}

/// `XOR Vx, Vy`.
pub fn xor(input: &str) -> (r: Option<Instruction<'_>>)
    ensures
        opt_view(r) == xor_form(input@),
{
    match word_regs(input, "XOR") {
        Some((x, y)) => Some(Instruction::Xor { from: y, target: x }),
        None => None,
    }
}

/// `LD Vx, operand`.
pub fn load(input: &str) -> (r: Option<Instruction<'_>>)
    ensures
        opt_view(r) == load_form(input@),
{
    match word_reg_arg(input, "LD") {
        Some((x, a)) => Some(Instruction::Load { register: x, value: a }),
        None => None,
    }
}

/// `ADD Vx, operand`.
pub fn add(input: &str) -> (r: Option<Instruction<'_>>)
    ensures
        opt_view(r) == add_form(input@),
{
    match word_reg_arg(input, "ADD") {
        Some((x, a)) => Some(Instruction::Add { target: x, value: a }),
        None => None,
    }
}

/// `SUB Vx, Vy`, or `SBI Vx, Vy` for the inverse subtraction.
pub fn sub(input: &str) -> (r: Option<Instruction<'_>>)
    ensures
        opt_view(r) == sub_form(input@),
{
    let inverse = starts_with(input, "SBI");
    let w = if inverse {
        "SBI"
    } else {
        "SUB"
    };
    match word_regs(input, w) {
        Some((x, y)) => Some(Instruction::Sub { target: x, value: y, inverse }),
        None => None,
    }
}

/// `SHL Vx` or `SHR Vx`, with an optional `, Vy` to shift into.
pub fn shift(input: &str) -> (r: Option<Instruction<'_>>)
    ensures
        opt_view(r) == shift_form(input@),
{
    let is_left = starts_with(input, "SHL");
    let w = if is_left {
        "SHL"
    } else {
        "SHR"
    };
    let t = match word_then(input, w) {
        Some(t) => t,
        None => {
            return None;
        },
    };
    let x = match preg(t) {
        Some(x) => x,
        None => {
            return None;
        },
    };
    let mut y = x;
    if let Some(u) = pcomma(rest_from(t, 2)) {
        y = match preg(u) {
            Some(y) => y,
            None => {
                return None;
            },
        };
    }
    Some(Instruction::Shift { is_left, from: x, target: y })
}

/// `JP expression`, or `JP0 expression` to add V0 to the target.
pub fn jmp(input: &str) -> (r: Option<Instruction<'_>>)
    ensures
        opt_view(r) == jmp_form(input@),
{
    let uses_zero = starts_with(input, "JP0");
    let w = if uses_zero {
        "JP0"
    } else {
        "JP"
    };
    match word_expr_value(input, w) {
        Some(target) => Some(Instruction::Jump { target, uses_zero }),
        None => None,
    }
}

/// `CALL expression`.
pub fn call(input: &str) -> (r: Option<Instruction<'_>>)
    ensures
        opt_view(r) == call_form(input@),
{
    match word_expr_value(input, "CALL") {
        Some(target) => Some(Instruction::Call(target)),
        None => None,
    }
}

/// `RET`.
pub fn ret(input: &str) -> (r: Option<Instruction<'_>>)
    ensures
        opt_view(r) == ret_form(input@),
{
    if !starts_with(input, "RET") {
        None
    } else {
        Some(Instruction::Return)
    }
}

/// `SEQ Vx, operand`, or `SNE Vx, operand` for the negated skip.
pub fn conditional_skip(input: &str) -> (r: Option<Instruction<'_>>)
    ensures
        opt_view(r) == conditional_skip_form(input@),
{
    let negated = starts_with(input, "SNE");
    let w = if negated {
        "SNE"
    } else {
        "SEQ"
    };
    match word_reg_arg(input, w) {
        Some((x, b)) => Some(Instruction::ConditionalSkip { a: x, b, negated }),
        None => None,
    }
}

/// `LDI expression`.
pub fn set_address(input: &str) -> (r: Option<Instruction<'_>>)
    ensures
        opt_view(r) == set_address_form(input@),
{
    match word_expr_value(input, "LDI") {
        Some(v) => Some(Instruction::LoadI(v)),
        None => None,
    }
}

/// `CLR`, and nothing else.
pub fn clear(input: &str) -> (r: Option<Instruction<'_>>)
    ensures
        opt_view(r) == clear_form(input@),
{
    if !crate::parse::same_str(input, "CLR") {
        return None;
    }
    Some(Instruction::Clear)
}

/// `DRW Vx, Vy, expression`.
pub fn draw(input: &str) -> (r: Option<Instruction<'_>>)
    ensures
        opt_view(r) == draw_form(input@),
{
    let (x, u) = match word_reg_comma(input, "DRW") {
        Some(p) => p,
        None => {
            return None;
        },
    };
    let y = match preg(u) {
        Some(y) => y,
        None => {
            return None;
        },
    };
    let v = match pcomma(rest_from(u, 2)) {
        Some(v) => v,
        None => {
            return None;
        },
    };
    match pexpr(v) {
        Some(height) => Some(Instruction::Draw { x, y, height }),
        None => None,
    }
}

/// `SIK Vx`, or `SNK Vx` for the negated skip.
pub fn conditional_key(input: &str) -> (r: Option<Instruction<'_>>)
    ensures
        opt_view(r) == conditional_key_form(input@),
{
    let negated = starts_with(input, "SNK");
    let w = if negated {
        "SNK"
    } else {
        "SIK"
    };
    match word_reg(input, w) {
        Some(x) => Some(Instruction::ConditionalKey { register: x, negated }),
        None => None,
    }
}

/// `RND Vx`, with an optional `, expression` for the mask (0xff without).
pub fn random(input: &str) -> (r: Option<Instruction<'_>>)
    ensures
        opt_view(r) == random_form(input@),
{
    let t = match word_then(input, "RND") {
        Some(t) => t,
        None => {
            return None;
        },
    };
    let x = match preg(t) {
        Some(x) => x,
        None => {
            return None;
        },
    };
    let mut mask = Value::Complete(0xff);
    if let Some(u) = pcomma(rest_from(t, 2)) {
        mask = match pexpr(u) {
            Some(m) => m,
            None => {
                return None;
            },
        };
    }
    Some(Instruction::Random { target: x, mask })
}

/// The first instruction form that `input` matches; see [`any_form`].
pub fn any(input: &str) -> (r: Option<Instruction<'_>>)
    ensures
        opt_view(r) == any_form(input@),
{
    if let Some(i) = clear(input) {
        return Some(i);
    }
    if let Some(i) = ret(input) {
        return Some(i);
    }
    if let Some(i) = random(input) {
        return Some(i);
    }
    if let Some(i) = conditional_key(input) {
        return Some(i);
    }
    if let Some(i) = conditional_skip(input) {
        return Some(i);
    }
    if let Some(i) = and(input) {
        return Some(i);
    }
    if let Some(i) = or(input) {
        return Some(i);
    }
    if let Some(i) = xor(input) {
        return Some(i);
    }
    if let Some(i) = load_key(input) {
        return Some(i);
    }
    if let Some(i) = load_registers(input) {
        return Some(i);
    }
    if let Some(i) = load_delay(input) {
        return Some(i);
    }
    if let Some(i) = jmp(input) {
        return Some(i);
    }
    if let Some(i) = call(input) {
        return Some(i);
    }
    if let Some(i) = dump(input) {
        return Some(i);
    }
    if let Some(i) = bcd(input) {
        return Some(i);
    }
    if let Some(i) = add_i(input) {
        return Some(i);
    }
    if let Some(i) = crate::instructions::add(input) {
        return Some(i);
    }
    if let Some(i) = crate::instructions::sub(input) {
        return Some(i);
    }
    if let Some(i) = set_address(input) {
        return Some(i);
    }
    if let Some(i) = set_delay(input) {
        return Some(i);
    }
    if let Some(i) = set_sound(input) {
        return Some(i);
    }
    if let Some(i) = font(input) {
        return Some(i);
    }
    if let Some(i) = shift(input) {
        return Some(i);
    }
    if let Some(i) = load(input) {
        return Some(i);
    }
    draw(input)
}


/// The opcode of an instruction, its expressions evaluated in `t`; `None`
/// when one of them has no value. Register operands are encoded as the
/// disassembler decodes them: `SUB`/`SBI` as 8XY5/8XY7, `AND`/`OR`/`XOR`
/// with the target in X, `SND` as FX18 and `RND` as CXNN.
pub open spec fn compiled(i: InstructionView, t: Seq<(Seq<char>, ValueView<u16>)>) -> Option<u16> {
    match i {
        InstructionView::Load { register, value } => match value {
            ArgumentView::Constant(x) => match value8(x, t) {
                Some(nn) => Some(0x6000u16 | (register as u16) << 8u16 | nn as u16),
                None => None,
            },
            ArgumentView::Register(x) => match value8(x, t) {
                Some(v) => Some(0x8000u16 | (register as u16) << 8u16 | ((v & 0xf) as u16) << 4u16),
                None => None,
            },
        },
        InstructionView::Add { target, value } => match value {
            ArgumentView::Constant(x) => match value8(x, t) {
                Some(nn) => Some(0x7000u16 | (target as u16) << 8u16 | nn as u16),
                None => None,
            },
            ArgumentView::Register(x) => match value8(x, t) {
                Some(v) => Some(0x8004u16 | (target as u16) << 8u16 | (v as u16) << 4u16),
                None => None,
            },
        },
        InstructionView::Sub { target, value, inverse } => Some(
            (if inverse {
                0x8007u16
            } else {
                0x8005u16
            }) | (target as u16) << 8u16 | (value as u16) << 4u16,
        ),
        InstructionView::Shift { from, target, is_left } => Some(
            0x8000u16 | (from as u16) << 8u16 | (target as u16) << 4u16 | if is_left {
                0xeu16
            } else {
                6u16
            },
        ),
        InstructionView::And { from, target } => Some(
            0x8002u16 | (target as u16) << 8u16 | (from as u16) << 4u16,
        ),
        InstructionView::Or { from, target } => Some(
            0x8001u16 | (target as u16) << 8u16 | (from as u16) << 4u16,
        ),
        InstructionView::Xor { from, target } => Some(
            0x8003u16 | (target as u16) << 8u16 | (from as u16) << 4u16,
        ),
        InstructionView::Jump { uses_zero, target } => match value16(target, t) {
            Some(v) => Some(
                (if uses_zero {
                    0xb000u16
                } else {
                    0x1000u16
                }) | (v & 0xfff),
            ),
            None => None,
        },
        InstructionView::Call(target) => match value16(target, t) {
            Some(v) => Some(0x2000u16 | (v & 0xfff)),
            None => None,
        },
        InstructionView::Return => Some(0xeeu16),
        InstructionView::ConditionalSkip { a, b, negated } => match b {
            ArgumentView::Register(x) => match value8(x, t) {
                Some(vy) => Some(
                    (if negated {
                        0x9000u16
                    } else {
                        0x5000u16
                    }) | (vy as u16) << 4u16 | (a as u16) << 8u16,
                ),
                None => None,
            },
            ArgumentView::Constant(x) => match value8(x, t) {
                Some(nn) => Some(
                    (if negated {
                        0x4000u16
                    } else {
                        0x3000u16
                    }) | nn as u16 | (a as u16) << 8u16,
                ),
                None => None,
            },
        },
        InstructionView::Dump(x) => Some(0xf055u16 | (x as u16) << 8u16),
        InstructionView::LoadR(x) => Some(0xf065u16 | (x as u16) << 8u16),
        InstructionView::LoadI(v) => match value16(v, t) {
            Some(a) => Some(0xa000u16 | a),
            None => None,
        },
        InstructionView::Font(x) => Some(0xf029u16 | (x as u16) << 8u16),
        InstructionView::AddI(x) => Some(0xf01eu16 | (x as u16) << 8u16),
        InstructionView::LoadDelay(x) => Some(0xf007u16 | (x as u16) << 8u16),
        InstructionView::SetDelay(x) => Some(0xf015u16 | (x as u16) << 8u16),
        InstructionView::SetSound(x) => Some(0xf018u16 | (x as u16) << 8u16),
        InstructionView::BinaryCodedDecimal(x) => Some(0xf033u16 | (x as u16) << 8u16),
        InstructionView::Clear => Some(0xe0u16),
        InstructionView::Draw { x, y, height } => match value8(height, t) {
            Some(h) => Some(0xd000u16 | (x as u16) << 8u16 | (y as u16) << 4u16 | (h & 0xf) as u16),
            None => None,
        },
        InstructionView::LoadKey(x) => Some(0xf00au16 | (x as u16) << 8u16),
        InstructionView::ConditionalKey { register, negated } => Some(
            0xe000u16 | (register as u16) << 8u16 | if negated {
                0xa1u16
            } else {
                0x9eu16
            },
        ),
        InstructionView::Random { target, mask } => match value8(mask, t) {
            Some(m) => Some(0xc000u16 | (target as u16) << 8u16 | (m as u16) & 0xff),
            None => None,
        },
    }
}

fn arg_value(a: &Argument<'_>, table: &SymbolTable<'_>) -> (r: Option<u8>)
    requires
        table.wf(),
    ensures
        r == value8(
            match a.view() {
                ArgumentView::Constant(v) => v,
                ArgumentView::Register(v) => v,
            },
            table@,
        ),
{
    match a {
        Argument::Constant(v) => v.consume(table),
        Argument::Register(v) => v.consume(table),
    }
}

impl<'a> Instruction<'a> {
    /// The opcode; see [`compiled`].
    pub fn compile(&self, table: &SymbolTable<'_>) -> (r: Option<u16>)
        requires
            table.wf(),
        ensures
            r == compiled(self.view(), table@),
    {
        let v = match self {
            Instruction::Load { register, value } => {
                let x = match arg_value(value, table) {
                    Some(x) => x,
                    None => {
                        return None;
                    },
                };
                match value {
                    Argument::Constant(_) => 0x6000u16 | (*register as u16) << 8u16 | x as u16,
                    Argument::Register(_) => 0x8000u16 | (*register as u16) << 8u16 | ((x & 0xf)
                        as u16) << 4u16,
                }
            },
            Instruction::Add { target, value } => {
                let x = match arg_value(value, table) {
                    Some(x) => x,
                    None => {
                        return None;
                    },
                };
                match value {
                    Argument::Constant(_) => 0x7000u16 | (*target as u16) << 8u16 | x as u16,
                    Argument::Register(_) => 0x8004u16 | (*target as u16) << 8u16 | (x as u16)
                        << 4u16,
                }
            },
            Instruction::Sub { target, value, inverse } => (if *inverse {
                0x8007u16
            } else {
                0x8005u16
            }) | (*target as u16) << 8u16 | (*value as u16) << 4u16,
            Instruction::Shift { from, target, is_left } => 0x8000u16 | (*from as u16) << 8u16 | (
            *target as u16) << 4u16 | if *is_left {
                0xeu16
            } else {
                6u16
            },
            Instruction::And { from, target } => 0x8002u16 | (*target as u16) << 8u16 | (
            *from as u16) << 4u16,
            Instruction::Or { from, target } => 0x8001u16 | (*target as u16) << 8u16 | (
            *from as u16) << 4u16,
            Instruction::Xor { from, target } => 0x8003u16 | (*target as u16) << 8u16 | (
            *from as u16) << 4u16,
            Instruction::Jump { uses_zero, target } => {
                let v = match target.consume(table) {
                    Some(v) => v,
                    None => {
                        return None;
                    },
                };
                (if *uses_zero {
                    0xb000u16
                } else {
                    0x1000u16
                }) | (v & 0xfff)
            },
            Instruction::Call(target) => {
                let v = match target.consume(table) {
                    Some(v) => v,
                    None => {
                        return None;
                    },
                };
                0x2000u16 | (v & 0xfff)
            },
            Instruction::Return => 0xeeu16,
            Instruction::ConditionalSkip { a, b, negated } => {
                let x = match arg_value(b, table) {
                    Some(x) => x,
                    None => {
                        return None;
                    },
                };
                match b {
                    Argument::Register(_) => (if *negated {
                        0x9000u16
                    } else {
                        0x5000u16
                    }) | (x as u16) << 4u16 | (*a as u16) << 8u16,
                    Argument::Constant(_) => (if *negated {
                        0x4000u16
                    } else {
                        0x3000u16
                    }) | x as u16 | (*a as u16) << 8u16,
                }
            },
            Instruction::Dump(x) => 0xf055u16 | (*x as u16) << 8u16,
            Instruction::LoadR(x) => 0xf065u16 | (*x as u16) << 8u16,
            Instruction::LoadI(v) => {
                let a = match v.consume(table) {
                    Some(a) => a,
                    None => {
                        return None;
                    },
                };
                0xa000u16 | a
            },
            Instruction::Font(x) => 0xf029u16 | (*x as u16) << 8u16,
            Instruction::AddI(x) => 0xf01eu16 | (*x as u16) << 8u16,
            Instruction::LoadDelay(x) => 0xf007u16 | (*x as u16) << 8u16,
            Instruction::SetDelay(x) => 0xf015u16 | (*x as u16) << 8u16,
            Instruction::SetSound(x) => 0xf018u16 | (*x as u16) << 8u16,
            Instruction::BinaryCodedDecimal(x) => 0xf033u16 | (*x as u16) << 8u16,
            Instruction::Clear => 0xe0u16,
            Instruction::Draw { x, y, height } => {
                let h = match height.consume(table) {
                    Some(h) => h,
                    None => {
                        return None;
                    },
                };
                0xd000u16 | (*x as u16) << 8u16 | (*y as u16) << 4u16 | (h & 0xf) as u16
            },
            Instruction::LoadKey(x) => 0xf00au16 | (*x as u16) << 8u16,
            Instruction::ConditionalKey { register, negated } => 0xe000u16 | (*register as u16)
                << 8u16 | if *negated {
                0xa1u16
            } else {
                0x9eu16
            },
            Instruction::Random { target, mask } => {
                let m = match mask.consume(table) {
                    Some(m) => m,
                    None => {
                        return None;
                    },
                };
                0xc000u16 | (*target as u16) << 8u16 | (m as u16) & 0xff
            },
        };
        Some(v)
    }
}

} // verus!
