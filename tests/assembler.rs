use chip8::assembler::{assemble, AsmError};
use chip8::directives;
use chip8::expr;
use chip8::expr::{pexpr, SymbolTable, Value};
use chip8::instructions;
use chip8::instructions::{Argument, Instruction};
use chip8::misc;
use chip8::parse;

#[test]
fn repeat() {
    assert_eq!(directives::repeat(".repeat 0x80, 15"), Some((0x80, 15)));
}

#[test]
fn draw() {
    assert_eq!(
        instructions::draw("DRW V0, V1, sprite_length"),
        Some(Instruction::Draw {
            x: 0,
            y: 1,
            height: Value::Partial("sprite_length")
        })
    );
}

#[test]
fn load() {
    assert_eq!(
        instructions::load("LD V0, VE"),
        Some(Instruction::Load {
            register: 0,
            value: Argument::Register(Value::Complete(0xe))
        })
    );
    assert_eq!(
        instructions::load("LD V0, 3"),
        Some(Instruction::Load {
            register: 0,
            value: Argument::Constant(Value::Partial("3"))
        })
    );
}

#[test]
fn shift() {
    assert_eq!(
        instructions::shift("SHR V0, VE"),
        Some(Instruction::Shift {
            is_left: false,
            target: 0xe,
            from: 0
        })
    );
    assert_eq!(
        instructions::shift("SHL V0, VE"),
        Some(Instruction::Shift {
            is_left: true,
            target: 0xe,
            from: 0
        })
    );
    assert_eq!(
        instructions::shift("SHL V0"),
        Some(Instruction::Shift {
            is_left: true,
            target: 0,
            from: 0
        })
    );
    assert_eq!(
        instructions::shift("SHR V0"),
        Some(Instruction::Shift {
            is_left: false,
            target: 0,
            from: 0
        })
    );
}

#[test]
fn font() {
    assert_eq!(instructions::font("FNT V0"), Some(Instruction::Font(0)));
}

#[test]
fn set_sound() {
    assert_eq!(instructions::set_sound("SND V0"), Some(Instruction::SetSound(0)));
}

#[test]
fn set_delay() {
    assert_eq!(instructions::set_delay("DLY V0"), Some(Instruction::SetDelay(0)));
}

#[test]
fn set_address() {
    assert_eq!(
        instructions::set_address("LDI 0x202"),
        Some(Instruction::LoadI(Value::Partial("0x202")))
    );
}

#[test]
fn sub() {
    assert_eq!(
        instructions::sub("SUB V0, VE"),
        Some(Instruction::Sub {
            target: 0,
            value: 0xe,
            inverse: false
        })
    );
    assert_eq!(
        instructions::sub("SBI V0, VE"),
        Some(Instruction::Sub {
            target: 0,
            value: 0xe,
            inverse: true
        })
    );
}

#[test]
fn add() {
    assert_eq!(
        instructions::add("ADD V0, VE"),
        Some(Instruction::Add {
            target: 0,
            value: Argument::Register(Value::Complete(0xe))
        })
    );
    assert_eq!(
        instructions::add("ADD V0, 0xff"),
        Some(Instruction::Add {
            target: 0,
            value: Argument::Constant(Value::Partial("0xff"))
        })
    );
}

#[test]
fn add_i() {
    assert_eq!(instructions::add_i("ADDI V0"), Some(Instruction::AddI(0)));
}

#[test]
fn bcd() {
    assert_eq!(
        instructions::bcd("BCD V0"),
        Some(Instruction::BinaryCodedDecimal(0))
    );
}

#[test]
fn dump() {
    assert_eq!(instructions::dump("DMP V0"), Some(Instruction::Dump(0)));
}

#[test]
fn call() {
    assert_eq!(
        instructions::call("CALL draw_number"),
        Some(Instruction::Call(Value::Partial("draw_number")))
    );
}

#[test]
fn jmp() {
    assert_eq!(
        instructions::jmp("JP0 0x202"),
        Some(Instruction::Jump {
            target: Value::Partial("0x202"),
            uses_zero: true,
        })
    );
    assert_eq!(
        instructions::jmp("JP 0x202"),
        Some(Instruction::Jump {
            target: Value::Partial("0x202"),
            uses_zero: false,
        })
    );
}

#[test]
fn load_delay() {
    assert_eq!(instructions::load_delay("LDD V0"), Some(Instruction::LoadDelay(0)));
}

#[test]
fn load_registers() {
    assert_eq!(instructions::load_registers("LDR V0"), Some(Instruction::LoadR(0)));
}

#[test]
fn load_key() {
    assert_eq!(instructions::load_key("LDK V0"), Some(Instruction::LoadKey(0)));
}

#[test]
fn xor() {
    assert_eq!(
        instructions::xor("XOR V0, VF"),
        Some(Instruction::Xor {
            from: 0xf,
            target: 0
        })
    );
}

#[test]
fn or() {
    assert_eq!(
        instructions::or("OR V0, VF"),
        Some(Instruction::Or {
            from: 0xf,
            target: 0
        })
    );
}

#[test]
fn and() {
    assert_eq!(
        instructions::and("AND V0, VF"),
        Some(Instruction::And {
            from: 0xf,
            target: 0
        })
    );
}

#[test]
fn constant() {
    assert_eq!(
        misc::constant("hey = 10"),
        Some(("hey", Value::Partial("10")))
    );
}

#[test]
fn label() {
    assert_eq!(misc::label("hello:"), Some("hello"));
}

#[test]
fn whitespace() {
    assert_eq!(parse::whitespace(" hello world!"), "hello world!");
    assert_eq!(parse::whitespace1("hello, world!"), None);
    assert_eq!(
        parse::whitespace1("\t   hello, world!"),
        Some("hello, world!")
    );
}

#[test]
fn constants() {
    assert_eq!(parse::parse_hex("0xf0"), Some(("", 0xf0)));
    assert_eq!(parse::parse_hex("f0f"), None);
    assert_eq!(
        parse::parse_hex("0xf0, hello, world!"),
        Some((", hello, world!", 0xf0))
    );
    assert_eq!(parse::parse_dec("100"), Some(("", 100)));
    assert_eq!(parse::parse_dec(""), None);
    assert_eq!(parse::parse_dec("100 bytes"), Some((" bytes", 100)));

    let mut map = SymbolTable::new();
    map.insert(".", 10.into());
    map.insert("hey", 25.into());
    assert_eq!(
        pexpr::<u16>(". + 10 - 3 + hey").and_then(|x| x.consume(&map)),
        Some(42u16)
    );
}

#[test]
fn whitespace_only_keeps_last_character() {
    assert_eq!(parse::whitespace("   "), " ");
    assert_eq!(parse::whitespace(""), "");
}

#[test]
fn decimal_above_u16_is_refused() {
    assert_eq!(parse::parse_dec("65535"), Some(("", 65535)));
    assert_eq!(parse::parse_dec("65536"), None);
    assert_eq!(parse::parse_num("0x12"), Some(("", 0x12)));
    assert_eq!(parse::parse_num("12x"), Some(("x", 12)));
    assert_eq!(parse::parse_num("0x12345"), None);
    assert_eq!(parse::parse_hex("0x12345"), None);
    assert_eq!(parse::parse_hex("0xffff,"), Some((",", 0xffff)));
    assert_eq!(parse::parse_num("0xg"), Some(("xg", 0)));
}

#[test]
fn names_and_comments() {
    assert_eq!(parse::parse_name("_start: x"), Some((": x", "_start")));
    assert_eq!(parse::parse_name("9abc"), None);
    assert_eq!(parse::strip_ws_comments("  LD V0, 3 ; load"), "LD V0, 3");
    assert_eq!(parse::strip_ws_comments("; only a comment"), "");
    assert_eq!(parse::pcomma(" ,  V1"), Some("V1"));
}

#[test]
fn expressions_follow_definitions() {
    let mut table = SymbolTable::new();
    table.insert("base", Value::Partial("0x200 + 4"));
    table.insert("end", Value::Partial("base + 2"));
    table.insert("loop", Value::Partial("loop + 1"));
    assert_eq!(Value::<u16>::Partial("end - 1").consume(&table), Some(0x205));
    assert_eq!(Value::<u16>::Partial("loop").consume(&table), None);
    assert_eq!(Value::<u16>::Partial("missing").consume(&table), None);
    assert_eq!(Value::<u8>::Partial("0x1ff").consume(&table), Some(0xff));
    assert_eq!(expr::parse_const("end rest", &table), Some((" rest", 0x206)));
    assert_eq!(Value::<u16>::Partial("0 - 1").consume(&table), Some(0xffff));
}

#[test]
fn directives_parse() {
    assert_eq!(directives::reserve(".reserve 16"), Some(16));
    assert_eq!(directives::entrypoint(".entrypoint main"), Some("main"));
    assert_eq!(
        directives::sequence_bytes("db 0x1, 2 ,0x103"),
        Some(vec![1, 2, 3])
    );
    assert_eq!(directives::sequence_bytes("db 1, x"), None);
    assert_eq!(directives::repeat(".repeat 1"), None);
}

#[test]
fn any_picks_the_first_form() {
    assert_eq!(instructions::any("CLR"), Some(Instruction::Clear));
    assert_eq!(instructions::any("RET"), Some(Instruction::Return));
    assert_eq!(instructions::any("ADDI V3"), Some(Instruction::AddI(3)));
    assert_eq!(
        instructions::any("RND V2"),
        Some(Instruction::Random {
            target: 2,
            mask: Value::Complete(0xff)
        })
    );
    assert_eq!(
        instructions::any("SNE V1, V2"),
        Some(Instruction::ConditionalSkip {
            a: 1,
            b: Argument::Register(Value::Complete(2)),
            negated: true
        })
    );
    assert_eq!(
        instructions::any("SIK V4"),
        Some(Instruction::ConditionalKey {
            register: 4,
            negated: false
        })
    );
    assert_eq!(instructions::any("NOPE"), None);
    assert_eq!(instructions::any("A"), None);
}

#[test]
fn compile_encodes_opcodes() {
    let mut table = SymbolTable::new();
    table.insert("sprite", Value::Complete(0x2ab));
    let c = |s: &str| instructions::any(s).and_then(|i| i.compile(&table));
    assert_eq!(c("LD V1, 0x23"), Some(0x6123));
    assert_eq!(c("LD V1, V2"), Some(0x8120));
    assert_eq!(c("ADD V1, 3"), Some(0x7103));
    assert_eq!(c("ADD V1, V2"), Some(0x8124));
    assert_eq!(c("SUB V1, V2"), Some(0x8125));
    assert_eq!(c("SBI V1, V2"), Some(0x8127));
    assert_eq!(c("SHR V1, V2"), Some(0x8126));
    assert_eq!(c("SHL V1"), Some(0x811e));
    assert_eq!(c("AND V1, V2"), Some(0x8122));
    assert_eq!(c("OR V1, V2"), Some(0x8121));
    assert_eq!(c("XOR V1, V2"), Some(0x8123));
    assert_eq!(c("JP sprite"), Some(0x12ab));
    assert_eq!(c("JP0 0x300"), Some(0xb300));
    assert_eq!(c("CALL 0x1234"), Some(0x2234));
    assert_eq!(c("RET"), Some(0x00ee));
    assert_eq!(c("CLR"), Some(0x00e0));
    assert_eq!(c("SEQ V1, 7"), Some(0x3107));
    assert_eq!(c("SNE V1, 7"), Some(0x4107));
    assert_eq!(c("SEQ V1, V2"), Some(0x5120));
    assert_eq!(c("SNE V1, V2"), Some(0x9120));
    assert_eq!(c("DMP V3"), Some(0xf355));
    assert_eq!(c("LDR V3"), Some(0xf365));
    assert_eq!(c("LDI sprite"), Some(0xa2ab));
    assert_eq!(c("FNT V3"), Some(0xf329));
    assert_eq!(c("ADDI V3"), Some(0xf31e));
    assert_eq!(c("LDD V3"), Some(0xf307));
    assert_eq!(c("DLY V3"), Some(0xf315));
    assert_eq!(c("SND V3"), Some(0xf318));
    assert_eq!(c("BCD V3"), Some(0xf333));
    assert_eq!(c("DRW V1, V2, 5"), Some(0xd125));
    assert_eq!(c("LDK V3"), Some(0xf30a));
    assert_eq!(c("SIK V3"), Some(0xe39e));
    assert_eq!(c("SNK V3"), Some(0xe3a1));
    assert_eq!(c("RND V3"), Some(0xc3ff));
    assert_eq!(c("RND V3, 0x0f"), Some(0xc30f));
    assert_eq!(c("JP nowhere"), None);
}

fn lines(src: &[&str]) -> Vec<String> {
    src.iter().map(|s| s.to_string()).collect()
}

#[test]
fn assembles_a_program() {
    let src = lines(&[
        "_start:",
        "  LD V0, 5",
        "  ADD V0, 3",
        "end:",
        "  JP end ; spin",
        "  db 1, 2",
    ]);
    let rom = assemble(&src).unwrap();
    assert_eq!(
        rom,
        vec![0x12, 0x02, 0x60, 0x05, 0x70, 0x03, 0x12, 0x06, 0x01, 0x02]
    );
    let mut m = chip8::interpreter::CHIP8::new();
    m.load_game(&rom).unwrap();
    for _ in 0..3 {
        m.cycle().unwrap();
    }
    assert_eq!(m.register(0), 8);
}

#[test]
fn assembler_directives_and_constants() {
    let src = lines(&[
        ".entrypoint main",
        "size = 2 + 1",
        ".repeat 0xaa, 2",
        "main:",
        "  DRW V0, V1, size",
        "  .reserve 2",
        "  LDI . + 0",
    ]);
    let rom = assemble(&src).unwrap();
    assert_eq!(
        rom,
        vec![0x12, 0x04, 0xaa, 0xaa, 0xd0, 0x13, 0x00, 0x00, 0xa2, 0x08]
    );
}

#[test]
fn assembler_errors() {
    assert_eq!(
        assemble(&lines(&["_start:", "what is this"])),
        Err(AsmError::UnknownLine(1))
    );
    assert_eq!(assemble(&lines(&["CLR"])), Err(AsmError::NoEntrypoint));
    assert_eq!(
        assemble(&lines(&["_start:", "JP nowhere"])),
        Err(AsmError::Unresolved(0x202))
    );
    assert_eq!(
        assemble(&lines(&["_start:", ".reserve 0xD00"])),
        Err(AsmError::NoRoom)
    );
    assert_eq!(
        assemble(&lines(&["_start:", ".reserve 0xCFE", "CLR"])),
        Err(AsmError::RomExhausted)
    );
}
