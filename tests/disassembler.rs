use chip8::disassembler::{Argument, Instruction};
use chip8::program::{read_u16, Program, U16Reader};
use chip8::text::hex;
use std::collections::{HashMap, HashSet};

#[test]
fn decodes_opcodes() {
    assert_eq!(
        Instruction::from_opcode(0x1234),
        Some(Instruction::Jump {
            target: Argument::Constant(0x234),
            adds_v0: false
        })
    );
    assert_eq!(
        Instruction::from_opcode(0x8125),
        Some(Instruction::Sub {
            what: Argument::Register(1),
            into: Argument::Register(2),
            inverted: false
        })
    );
    assert_eq!(
        Instruction::from_opcode(0xd125),
        Some(Instruction::Draw(
            Argument::Register(1),
            Argument::Register(2),
            Argument::Constant(5)
        ))
    );
    assert_eq!(Instruction::from_opcode(0xffff), None);
    assert_eq!(Instruction::from_opcode(0x5121), None);
    assert_eq!(Instruction::from_opcode(0x00e0), Some(Instruction::Clear));
}

#[test]
fn names_and_calls() {
    assert_eq!(Instruction::from_opcode(0x8127).unwrap().name_str(), "SBI");
    assert_eq!(Instruction::from_opcode(0xb200).unwrap().name_str(), "JP0");
    assert_eq!(Instruction::from_opcode(0xf318).unwrap().name_str(), "SND");
    assert!(Instruction::from_opcode(0x2300).unwrap().is_call());
    assert!(!Instruction::from_opcode(0x1300).unwrap().is_call());
}

#[test]
fn operand_text() {
    assert_eq!(Argument::Constant(0x2a).text(), "\x1b[38;5;174m2a\x1b[m");
    assert_eq!(Argument::Register(0xa).text(), "\x1b[38;5;208mVA\x1b[m");
    assert_eq!(Argument::Constant(0).value(), 0);
    assert_eq!(hex(0x2ab, 4, true), "02AB");
    assert_eq!(hex(0xbeef, 2, false), "beef");
    assert_eq!(hex(0, 0, false), "0");
}

#[test]
fn format_arguments() {
    let mut labels = HashMap::new();
    labels.insert(0x20c, String::from("function@20c()"));
    let mut sprites = HashSet::new();
    sprites.insert(0x210);
    let call = Instruction::from_opcode(0x220c).unwrap();
    assert_eq!(call.format_args(&labels, &sprites), "\x1b[38;5;68mfunction@20c()");
    let ldi = Instruction::from_opcode(0xa210).unwrap();
    assert_eq!(ldi.format_args(&labels, &sprites), "\x1b[38;5;176m@210");
    let rnd = Instruction::from_opcode(0xc1ff).unwrap();
    assert_eq!(rnd.format_args(&labels, &sprites), "\x1b[38;5;208mV1\x1b[m");
    let shift = Instruction::from_opcode(0x8116).unwrap();
    assert_eq!(shift.format_args(&labels, &sprites), "\x1b[38;5;208mV1\x1b[m");
    assert_eq!(Instruction::Ret.format_args(&labels, &sprites), "");
}

#[test]
fn reader_walks_words() {
    assert_eq!(read_u16(&[0x12, 0x34, 0x56]), Some(0x1234));
    assert_eq!(read_u16(&[0x12]), None);
    let buf = [0x12, 0x04, 0xaa, 0xbb, 0xcc, 0xdd];
    let mut r = U16Reader(&buf, 0).starting_from(0x202);
    assert_eq!(r.next(), Some((0x202, 0xaabb)));
    assert_eq!(r.next(), Some((0x204, 0xccdd)));
    assert_eq!(r.next(), None);
}

fn sample() -> Vec<u8> {
    vec![
        0x12, 0x04, // JP 0x204
        0xff, 0xff, // data
        0xa2, 0x10, // LDI 0x210
        0xd0, 0x15, // DRW V0, V1, 5
        0x22, 0x0c, // CALL 0x20C
        0x12, 0x04, // JP 0x204
        0x00, 0xee, // RET
        0xff, 0xff, // data
    ]
}

#[test]
fn program_follows_control_flow() {
    let buf = sample();
    let p = Program::try_from(&buf).unwrap();
    let mut addrs: Vec<u16> = p.instructions.keys().copied().collect();
    addrs.sort();
    assert_eq!(addrs, vec![0x204, 0x206, 0x208, 0x20a, 0x20c]);
    assert_eq!(p.labels.get(&0x204).map(|s| s.as_str()), Some("main"));
    assert_eq!(p.labels.get(&0x20c).map(|s| s.as_str()), Some("function@20c()"));
    assert_eq!(p.labels.len(), 2);
    assert!(p.sprites.contains(&0x210));
    assert!(p.draw_sizes.contains(&5));
    let text = p.render();
    assert!(text.starts_with(
        "\x1b[38;5;49mmain:\x1b[m\n\x1b[38;5;239m0204 \x1b[38;5;236ma210 \x1b[38;5;204mLDI \x1b[38;5;176m@210\x1b[m\n"
    ));
    assert!(text.contains("\x1b[38;5;49mfunction@20c():\x1b[m\n"));
}

#[test]
fn program_must_start_with_a_jump() {
    assert!(Program::try_from(&[0x60, 0x01]).is_err());
    assert!(Program::try_from(&[0x12]).is_err());
    // A jump outside the buffer yields an empty listing.
    let p = Program::try_from(&[0x13, 0x00]).unwrap();
    assert!(p.instructions.is_empty());
    assert_eq!(p.render(), "");
}

#[test]
fn jump_targets_get_plain_labels() {
    // JP 0x202; (0x202) JP 0x206; (0x204) data; (0x206) RET.
    let buf = [0x12, 0x02, 0x12, 0x06, 0xff, 0xff, 0x00, 0xee];
    let p = Program::try_from(&buf).unwrap();
    assert_eq!(p.labels.get(&0x206).map(|s| s.as_str()), Some("label@206"));
    let mut addrs: Vec<u16> = p.instructions.keys().copied().collect();
    addrs.sort();
    assert_eq!(addrs, vec![0x202, 0x206]);
}
