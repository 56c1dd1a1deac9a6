use chip8::interpreter::{timer_tick, CHIP8};
use chip8::model::{ExecError, LoadError};
use chip8::rng::RNG;
use std::sync::atomic::Ordering;

fn machine_with(program: &[u8]) -> CHIP8 {
    let mut m = CHIP8::new();
    m.load_game(program).unwrap();
    m
}

fn run(m: &mut CHIP8, n: usize) {
    for _ in 0..n {
        m.step(0).unwrap();
    }
}

#[test]
fn load_then_add_end_to_end() {
    let mut m = machine_with(&[0x60, 0x05, 0x70, 0x03]);
    m.cycle().unwrap();
    m.cycle().unwrap();
    assert_eq!(m.register(0), 8);
    assert_eq!(m.pc(), 0x204);
}

#[test]
fn add_immediate_wraps_and_keeps_flag() {
    let mut m = machine_with(&[0x6f, 0x07, 0x60, 0xfe, 0x70, 0x05]);
    run(&mut m, 3);
    assert_eq!(m.register(0), 3);
    assert_eq!(m.register(0xf), 7);
}

#[test]
fn carry_flag_of_register_add() {
    // V0 = 200, V1 = 100, V0 += V1 -> 44 with carry.
    let mut m = machine_with(&[0x60, 200, 0x61, 100, 0x80, 0x14]);
    run(&mut m, 3);
    assert_eq!(m.register(0), 44);
    assert_eq!(m.register(0xf), 1);
    // V0 = 100, V1 = 155 -> 255, no carry.
    let mut m = machine_with(&[0x60, 100, 0x61, 155, 0x80, 0x14]);
    run(&mut m, 3);
    assert_eq!(m.register(0), 255);
    assert_eq!(m.register(0xf), 0);
}

#[test]
fn borrow_flag_of_register_sub() {
    // V0 = 5, V1 = 5: 5 - 5 = 0, no borrow.
    let mut m = machine_with(&[0x60, 5, 0x61, 5, 0x80, 0x15]);
    run(&mut m, 3);
    assert_eq!(m.register(0), 0);
    assert_eq!(m.register(0xf), 1);
    // V0 = 3, V1 = 5: borrow.
    let mut m = machine_with(&[0x60, 3, 0x61, 5, 0x80, 0x15]);
    run(&mut m, 3);
    assert_eq!(m.register(0), 254);
    assert_eq!(m.register(0xf), 0);
    // 8XY7: V0 = V1 - V0 = 5 - 3.
    let mut m = machine_with(&[0x60, 3, 0x61, 5, 0x80, 0x17]);
    run(&mut m, 3);
    assert_eq!(m.register(0), 2);
    assert_eq!(m.register(0xf), 1);
}

#[test]
fn shifts_write_the_other_register() {
    // V0 = 0x81; SHR V0 into V1; SHL V0 into V2.
    let mut m = machine_with(&[0x60, 0x81, 0x80, 0x16, 0x80, 0x2e]);
    run(&mut m, 2);
    assert_eq!(m.register(1), 0x40);
    assert_eq!(m.register(0), 0x81);
    assert_eq!(m.register(0xf), 1);
    run(&mut m, 1);
    assert_eq!(m.register(2), 0x02);
    assert_eq!(m.register(0xf), 1);
}

#[test]
fn drawing_twice_erases_and_overlap_collides() {
    // I = 0x300 (sprite 0xF0), draw at (0, 0) twice.
    let mut prog = vec![0xa3, 0x00, 0xd0, 0x01, 0xd0, 0x01];
    prog.resize(0x100, 0);
    prog.push(0xf0);
    let mut m = machine_with(&prog);
    run(&mut m, 2);
    assert_eq!(m.line_at(0).unwrap(), 0xf000_0000_0000_0000);
    assert_eq!(m.register(0xf), 0);
    run(&mut m, 1);
    assert_eq!(m.line_at(0).unwrap(), 0);
    // The second draw turned lit pixels off.
    assert_eq!(m.register(0xf), 1);

    // Two distinct sprites that share pixels: 0xF0 then 0x3C.
    let mut prog = vec![0xa3, 0x00, 0xd0, 0x01, 0xa3, 0x01, 0xd0, 0x01];
    prog.resize(0x100, 0);
    prog.push(0xf0);
    prog.push(0x3c);
    let mut m = machine_with(&prog);
    run(&mut m, 4);
    assert_eq!(m.register(0xf), 1);
    assert_eq!(m.line_at(0).unwrap(), 0xcc00_0000_0000_0000);
}

#[test]
fn drawing_wraps_around_both_edges() {
    // V0 = 60, V1 = 31, I = 0x300: sprite rows 0xFF, 0x81 at (60, 31).
    let mut prog = vec![0x60, 60, 0x61, 31, 0xa3, 0x00, 0xd0, 0x12];
    prog.resize(0x100, 0);
    prog.push(0xff);
    prog.push(0x81);
    let mut m = machine_with(&prog);
    run(&mut m, 4);
    assert_eq!(m.line_at(31).unwrap(), 0xf000_0000_0000_000f);
    assert_eq!(m.line_at(0).unwrap(), 0x1000_0000_0000_0008);
    assert_eq!(m.register(0xf), 0);
}

#[test]
fn jump_fetches_from_target() {
    // JP 0x206; at 0x204 V0 = 1 (skipped); at 0x206 V0 = 2.
    let mut m = machine_with(&[0x12, 0x06, 0x60, 0x01, 0x60, 0x01, 0x60, 0x02]);
    m.cycle().unwrap();
    assert_eq!(m.pc(), 0x206);
    m.cycle().unwrap();
    assert_eq!(m.current_op(), 0x6002);
    assert_eq!(m.register(0), 2);
}

#[test]
fn twenty_fifth_call_overflows() {
    // CALL 0x200 at 0x200: each cycle calls itself.
    let mut m = machine_with(&[0x22, 0x00]);
    for k in 1..=24 {
        assert_eq!(m.cycle(), Ok(()));
        assert_eq!(m.stack_depth(), k);
    }
    assert_eq!(m.cycle(), Err(ExecError::StackOverflow));
}

#[test]
fn return_on_empty_stack_underflows() {
    let mut m = machine_with(&[0x00, 0xee]);
    assert_eq!(m.cycle(), Err(ExecError::StackUnderflow));
}

#[test]
fn call_and_return() {
    // CALL 0x204; (0x202) V1 = 9; (0x204) RET.
    let mut m = machine_with(&[0x22, 0x04, 0x61, 0x09, 0x00, 0xee]);
    run(&mut m, 3);
    assert_eq!(m.pc(), 0x204);
    assert_eq!(m.register(1), 9);
    assert_eq!(m.stack_depth(), 0);
}

#[test]
fn key_wait_blocks_until_a_key() {
    // LDK V3; V4 = 7.
    let mut m = machine_with(&[0xf3, 0x0a, 0x64, 0x07]);
    m.cycle().unwrap();
    assert!(m.is_waiting());
    let rng = m.rng_state();
    for _ in 0..10 {
        m.cycle().unwrap();
        assert_eq!(m.pc(), 0x202);
        assert_eq!(m.register(3), 0);
        assert_eq!(m.rng_state(), rng);
    }
    m.key(b'w');
    m.cycle().unwrap();
    assert!(!m.is_waiting());
    assert_eq!(m.register(3), 5);
    assert_eq!(m.pc(), 0x202);
    m.cycle().unwrap();
    assert_eq!(m.register(4), 7);
    assert_eq!(m.pc(), 0x204);
}

#[test]
fn keypad_layout() {
    let mut m = CHIP8::new();
    let keys = [
        (b'x', 0),
        (b'1', 1),
        (b'2', 2),
        (b'3', 3),
        (b'q', 4),
        (b'w', 5),
        (b'e', 6),
        (b'a', 7),
        (b's', 8),
        (b'd', 9),
        (b'z', 10),
        (b'c', 11),
        (b'4', 12),
        (b'r', 13),
        (b'f', 14),
        (b'v', 15),
    ];
    for (k, v) in keys {
        m.key(k);
        // SIK V0 with V0 = v skips.
        let mut prog = vec![0x60, v, 0xe0, 0x9e];
        prog.push(0);
        let mut n = machine_with(&prog);
        n.key(k);
        run(&mut n, 2);
        assert_eq!(n.pc(), 0x206);
    }
    m.key(b'p');
    let mut n = machine_with(&[0xe0, 0xa1]);
    n.key(b'p');
    run(&mut n, 1);
    assert_eq!(n.pc(), 0x202);
}

#[test]
fn bcd_dump_and_restore() {
    // V0 = 234; I = 0x300; BCD V0; LDR V2 (V0..V2 = digits); I = 0x310; DMP V2.
    let mut m = machine_with(&[
        0x60, 234, 0xa3, 0x00, 0xf0, 0x33, 0xf2, 0x65, 0xa3, 0x10, 0xf2, 0x55,
    ]);
    run(&mut m, 3);
    assert_eq!(m.memory_at(0x300), 2);
    assert_eq!(m.memory_at(0x301), 3);
    assert_eq!(m.memory_at(0x302), 4);
    run(&mut m, 1);
    assert_eq!((m.register(0), m.register(1), m.register(2)), (2, 3, 4));
    run(&mut m, 2);
    assert_eq!(m.memory_at(0x310), 2);
    assert_eq!(m.memory_at(0x312), 4);
    assert_eq!(m.memory_at(0x313), 0);
}

#[test]
fn out_of_bounds_accesses_fail() {
    // I = 0xFFE; DRW with 5 rows reads past the end.
    let mut m = machine_with(&[0xaf, 0xfe, 0xd0, 0x05]);
    run(&mut m, 1);
    assert_eq!(m.cycle(), Err(ExecError::OutOfBounds));
    // A jump to the last byte leaves no room to fetch.
    let mut m = machine_with(&[0x1f, 0xff]);
    run(&mut m, 1);
    assert_eq!(m.cycle(), Err(ExecError::OutOfBounds));
    // I = 0xFFF; BCD needs three bytes.
    let mut m = machine_with(&[0xaf, 0xff, 0xf0, 0x33]);
    run(&mut m, 1);
    assert_eq!(m.cycle(), Err(ExecError::OutOfBounds));
}

#[test]
fn oversized_rom_is_refused() {
    let mut m = CHIP8::new();
    assert_eq!(m.load_game(&vec![0u8; 0xd01]), Err(LoadError::RomTooLarge));
    assert_eq!(m.load_game(&vec![0x12u8; 0xd00]), Ok(()));
    assert_eq!(m.memory_at(0xeff), 0x12);
    assert_eq!(m.memory_at(0xf00), 0);
}

#[test]
fn font_is_loaded_and_addressed() {
    // V0 = 0xA; FNT V0.
    let mut m = machine_with(&[0x60, 0x0a, 0xf0, 0x29]);
    run(&mut m, 2);
    assert_eq!(m.index(), 50);
    assert_eq!(m.memory_at(50), 0xf0);
    assert_eq!(m.memory_at(54), 0x90);
    assert_eq!(m.memory_at(0), 0xf0);
    assert_eq!(m.memory_at(79), 0x80);
}

#[test]
fn clear_screen_raises_flag() {
    let mut prog = vec![0xa3, 0x00, 0xd0, 0x01, 0x00, 0xe0];
    prog.resize(0x100, 0);
    prog.push(0xff);
    let mut m = machine_with(&prog);
    run(&mut m, 2);
    assert!(m.draw_flag);
    assert_eq!(m.line_at(0).unwrap(), 0xff00_0000_0000_0000);
    run(&mut m, 1);
    assert!(m.clear_flag);
    assert_eq!(m.line_at(0).unwrap(), 0);
}

#[test]
fn timer_skip_and_tick() {
    assert_eq!(timer_tick(5), 4);
    assert_eq!(timer_tick(0), 0);
    // LDD V0 skips when V0 equals the timer.
    let mut m = machine_with(&[0xf0, 0x07]);
    m.step(0).unwrap();
    assert_eq!(m.pc(), 0x204);
    let mut m = machine_with(&[0xf0, 0x07]);
    m.step(3).unwrap();
    assert_eq!(m.pc(), 0x202);
}

#[test]
fn random_generator_sequence() {
    let mut r = RNG(106);
    r.clock();
    assert_eq!(r.0, 223);
    // RND V0, 0x0F uses the state after this cycle's clock.
    let mut m = machine_with(&[0xc0, 0x0f]);
    m.step(0).unwrap();
    assert_eq!(m.rng_state(), 223);
    assert_eq!(m.register(0), 223 & 0x0f);
}

#[test]
fn unknown_opcode_is_a_no_op() {
    let mut m = machine_with(&[0x5a, 0xb1]);
    m.step(0).unwrap();
    assert_eq!(m.pc(), 0x202);
    assert_eq!(m.register(0xa), 0);
}

#[test]
fn empty_rom_and_default_machine() {
    let mut m = CHIP8::default();
    assert_eq!(m.load_game(&[]), Ok(()));
    assert_eq!(m.pc(), 0x200);
    assert_eq!(m.index(), 0x200);
    assert_eq!(m.stack_depth(), 0);
    assert_eq!(m.rng_state(), 106);
    // 0x0000 is no operation.
    m.cycle().unwrap();
    assert_eq!(m.pc(), 0x202);
    assert_eq!(CHIP8::with_seed(7).rng_state(), 7);
}

#[test]
fn held_key_skips_and_releases() {
    // V2 = 0xC; SIK V2; V3 = 1 (skipped); SNK V2; V4 = 1.
    let mut m = machine_with(&[0x62, 0x0c, 0xe2, 0x9e, 0x63, 0x01, 0xe2, 0xa1, 0x64, 0x01]);
    m.set_key(Some(0xc));
    run(&mut m, 2);
    assert_eq!(m.pc(), 0x206);
    run(&mut m, 2);
    assert_eq!(m.register(3), 0);
    assert_eq!(m.register(4), 1);
    m.set_key(None);
    assert_eq!(m.current_op(), 0x6401);
}

#[test]
fn delay_timer_is_set_by_fx15_only() {
    // V0 = 5; DLY V0; V1 = 1; ADDI V0.
    let mut m = machine_with(&[0x60, 0x05, 0xf0, 0x15, 0x61, 0x01, 0xf0, 0x1e]);
    assert_eq!(m.step(0), Ok(None));
    assert_eq!(m.step(0), Ok(Some(5)));
    assert_eq!(m.step(0), Ok(None));
    let mut m = machine_with(&[0x60, 0x05, 0xf0, 0x15, 0x61, 0x01]);
    for _ in 0..3 {
        m.cycle().unwrap();
    }
    assert_eq!(m.timer().load(Ordering::SeqCst), 5);
}

#[test]
fn add_to_index_uses_register_value() {
    // V3 = 0x10; I = 0x300; ADDI V3.
    let mut m = machine_with(&[0x63, 0x10, 0xa3, 0x00, 0xf3, 0x1e]);
    run(&mut m, 3);
    assert_eq!(m.index(), 0x310);
}

#[test]
fn rows_outside_the_screen_are_out_of_bounds() {
    let m = CHIP8::new();
    assert_eq!(m.line_at(31), Ok(0));
    assert_eq!(m.line_at(32), Err(ExecError::OutOfBounds));
    assert_eq!(m.line_at(-1), Err(ExecError::OutOfBounds));
}
