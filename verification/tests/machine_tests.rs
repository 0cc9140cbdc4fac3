use chip8::chip_8::{Chip8, PROGRAM_START_ADDRESS};
use chip8::opcodes::{fetch_op, match_opcode, ExecError, Opcode};

#[test]
fn test_opcode_jp_v0() {
    let mut chip_8 = Chip8::default();

    chip_8.opcode_ld(0, 5).unwrap();
    chip_8.opcode_jp_v0(0x300).unwrap();

    assert_eq!(chip_8.pc, 0x305);
}

#[test]
fn test_opcode_rnd() {
    let mut chip_8 = Chip8::default();

    chip_8.opcode_rnd(0, 0x0F, 0xAB).unwrap();
    assert_eq!(chip_8.v_reg[0], 0x0B);

    chip_8.opcode_rnd(1, 0x00, 0xFF).unwrap();
    assert_eq!(chip_8.v_reg[1], 0);
}

#[test]
fn test_opcode_drw() {
    let mut chip_8 = Chip8::default();

    // one sprite row of eight lit pixels, placed at the program start
    chip_8.load_program(&[0xFF]).unwrap();
    chip_8.opcode_ld_i(0x200).unwrap();

    chip_8.opcode_drw(0, 1, 1).unwrap();
    for px in 0..8 {
        assert!(chip_8.display[px]);
    }
    assert!(!chip_8.display[8]);
    assert_eq!(chip_8.v_reg[0xF], 0);

    // drawing the same sprite again erases it and reports the collision
    chip_8.opcode_drw(0, 1, 1).unwrap();
    for px in 0..8 {
        assert!(!chip_8.display[px]);
    }
    assert_eq!(chip_8.v_reg[0xF], 1);
}

#[test]
fn test_opcode_drw_wraps_around() {
    let mut chip_8 = Chip8::default();

    chip_8.load_program(&[0xFF]).unwrap();
    chip_8.opcode_ld_i(0x200).unwrap();
    chip_8.opcode_ld(0, 60).unwrap();
    chip_8.opcode_ld(1, 31).unwrap();

    chip_8.opcode_drw(0, 1, 1).unwrap();

    // columns 60..64 of the last row, wrapping into columns 0..4
    for px in [60, 61, 62, 63] {
        assert!(chip_8.display[31 * 64 + px]);
    }
    for px in [0, 1, 2, 3] {
        assert!(chip_8.display[31 * 64 + px]);
    }
    assert!(!chip_8.display[31 * 64 + 4]);
    assert_eq!(chip_8.v_reg[0xF], 0);
}

#[test]
fn test_opcode_drw_out_of_bounds() {
    let mut chip_8 = Chip8::default();

    chip_8.opcode_ld_i(0xFFF).unwrap();

    assert_eq!(
        chip_8.opcode_drw(0, 1, 2),
        Err(ExecError::OutOfBoundsAddress)
    );
    assert_eq!(chip_8.v_reg[0xF], 0);
}

#[test]
fn test_opcode_skp() {
    let mut chip_8 = Chip8::default();

    chip_8.opcode_ld(0, 3).unwrap();

    chip_8.opcode_skp(0, 0).unwrap();
    assert_eq!(chip_8.pc, PROGRAM_START_ADDRESS);

    chip_8.opcode_skp(0, 1 << 3).unwrap();
    assert_eq!(chip_8.pc, PROGRAM_START_ADDRESS + 2);
}

#[test]
fn test_opcode_sknp() {
    let mut chip_8 = Chip8::default();

    chip_8.opcode_ld(0, 3).unwrap();

    chip_8.opcode_sknp(0, 1 << 3).unwrap();
    assert_eq!(chip_8.pc, PROGRAM_START_ADDRESS);

    chip_8.opcode_sknp(0, 0).unwrap();
    assert_eq!(chip_8.pc, PROGRAM_START_ADDRESS + 2);
}

#[test]
fn test_opcode_ld_vx_dt() {
    let mut chip_8 = Chip8::default();

    chip_8.opcode_ld(0, 42).unwrap();
    chip_8.opcode_ld_dt_vx(0).unwrap();
    chip_8.opcode_ld_vx_dt(1).unwrap();

    assert_eq!(chip_8.v_reg[1], 42);
}

#[test]
fn test_opcode_ld_vx_k() {
    let mut chip_8 = Chip8::default();

    // no key held: the wait steps the program counter back one instruction
    chip_8.opcode_ld_vx_k(0, 0).unwrap();
    assert_eq!(chip_8.pc, PROGRAM_START_ADDRESS - 2);

    // keys 5 and 9 held: the lowest held key lands in the register
    chip_8.opcode_ld_vx_k(0, (1 << 5) | (1 << 9)).unwrap();
    assert_eq!(chip_8.v_reg[0], 5);
    assert_eq!(chip_8.pc, PROGRAM_START_ADDRESS - 2);
}

#[test]
fn test_opcode_ld_dt_vx() {
    let mut chip_8 = Chip8::default();

    chip_8.opcode_ld(0, 7).unwrap();
    chip_8.opcode_ld_dt_vx(0).unwrap();

    assert_eq!(chip_8.delay_timer, 7);
}

#[test]
fn test_opcode_ld_st_vx() {
    let mut chip_8 = Chip8::default();

    assert!(!chip_8.sound_active());

    chip_8.opcode_ld(0, 7).unwrap();
    chip_8.opcode_ld_st_vx(0).unwrap();

    assert_eq!(chip_8.sound_timer, 7);
    assert!(chip_8.sound_active());
}

#[test]
fn test_opcode_add_1_vx() {
    let mut chip_8 = Chip8::default();

    chip_8.opcode_ld_i(0x100).unwrap();
    chip_8.opcode_ld(0, 5).unwrap();
    chip_8.opcode_add_i(0).unwrap();

    assert_eq!(chip_8.i, 0x105);

    chip_8.opcode_ld_i(0xFFF).unwrap();
    chip_8.opcode_ld(0, 1).unwrap();

    assert_eq!(chip_8.opcode_add_i(0), Err(ExecError::OutOfBoundsAddress));
    assert_eq!(chip_8.i, 0xFFF);
}

#[test]
fn test_opcode_ld_f_vx() {
    let mut chip_8 = Chip8::default();

    chip_8.opcode_ld(0, 0xA).unwrap();
    chip_8.opcode_ld_f(0).unwrap();

    assert_eq!(chip_8.i, 50);

    // only the low nibble names the digit
    chip_8.opcode_ld(0, 0xF3).unwrap();
    chip_8.opcode_ld_f(0).unwrap();

    assert_eq!(chip_8.i, 15);
}

#[test]
fn test_opcode_ld_b_vx() {
    let mut chip_8 = Chip8::default();

    chip_8.opcode_ld(0, 254).unwrap();
    chip_8.opcode_ld_i(0x300).unwrap();
    chip_8.opcode_ld_b(0).unwrap();

    assert_eq!(chip_8.memory[0x300], 2);
    assert_eq!(chip_8.memory[0x301], 5);
    assert_eq!(chip_8.memory[0x302], 4);
}

#[test]
fn test_opcode_ld_1_vx() {
    let mut chip_8 = Chip8::default();

    chip_8.opcode_ld(0, 11).unwrap();
    chip_8.opcode_ld(1, 22).unwrap();
    chip_8.opcode_ld(2, 33).unwrap();
    chip_8.opcode_ld_i(0x400).unwrap();
    chip_8.opcode_ld_i_vx(2).unwrap();

    assert_eq!(chip_8.memory[0x400], 11);
    assert_eq!(chip_8.memory[0x401], 22);
    assert_eq!(chip_8.memory[0x402], 33);
    assert_eq!(chip_8.memory[0x403], 0);
}

#[test]
fn test_opcode_ld_vx_1() {
    let mut chip_8 = Chip8::default();

    chip_8.load_program(&[10, 20, 30]).unwrap();
    chip_8.opcode_ld_i(0x200).unwrap();
    chip_8.opcode_ld_vx_i(2).unwrap();

    assert_eq!(chip_8.v_reg[0], 10);
    assert_eq!(chip_8.v_reg[1], 20);
    assert_eq!(chip_8.v_reg[2], 30);
    assert_eq!(chip_8.v_reg[3], 0);
}

#[test]
fn test_load_program_too_large() {
    let mut chip_8 = Chip8::default();

    let program = vec![0xAB; 3585];
    assert_eq!(
        chip_8.load_program(&program),
        Err(ExecError::ProgramTooLarge)
    );
    // nothing was written
    assert_eq!(chip_8.memory, vec![0; 4096]);

    let program = vec![0xAB; 3584];
    chip_8.load_program(&program).unwrap();
    assert_eq!(chip_8.memory[0x200], 0xAB);
    assert_eq!(chip_8.memory[4095], 0xAB);
}

#[test]
fn test_load_program_leaves_rest_untouched() {
    let mut chip_8 = Chip8::default();

    chip_8.load_program(&[1, 2, 3, 4, 5, 6, 7]).unwrap();

    for a in 0..0x200 {
        assert_eq!(chip_8.memory[a], 0);
    }
    for a in 0x207..4096 {
        assert_eq!(chip_8.memory[a], 0);
    }
}

#[test]
fn test_fetch_op_big_endian() {
    let mut chip_8 = Chip8::default();

    chip_8.load_program(&[0x12, 0x34]).unwrap();

    assert_eq!(fetch_op(&chip_8.memory, &0x200), 0x1234);
}

#[test]
fn test_match_opcode_families() {
    assert_eq!(match_opcode(0x00E0), Opcode::CLS);
    assert_eq!(match_opcode(0x00EE), Opcode::RET);
    assert_eq!(match_opcode(0x0123), Opcode::SYS(0x123));
    assert_eq!(match_opcode(0x1234), Opcode::JP(0x234));
    assert_eq!(match_opcode(0x2345), Opcode::CALL(0x345));
    assert_eq!(match_opcode(0x3055), Opcode::SE(0, 0x55));
    assert_eq!(match_opcode(0x41AA), Opcode::SNE(1, 0xAA));
    assert_eq!(match_opcode(0x5230), Opcode::SEVy(2, 3));
    assert_eq!(match_opcode(0x6377), Opcode::LD(3, 0x77));
    assert_eq!(match_opcode(0x7401), Opcode::ADD(4, 1));
    assert_eq!(match_opcode(0x8120), Opcode::LDVy(1, 2));
    assert_eq!(match_opcode(0x8121), Opcode::OR(1, 2));
    assert_eq!(match_opcode(0x8122), Opcode::AND(1, 2));
    assert_eq!(match_opcode(0x8123), Opcode::XOR(1, 2));
    assert_eq!(match_opcode(0x8124), Opcode::ADDVy(1, 2));
    assert_eq!(match_opcode(0x8125), Opcode::SUB(1, 2));
    assert_eq!(match_opcode(0x8126), Opcode::SHR(1));
    assert_eq!(match_opcode(0x8127), Opcode::SUBN(1, 2));
    assert_eq!(match_opcode(0x812E), Opcode::SHL(1));
    assert_eq!(match_opcode(0x9230), Opcode::SNEVy(2, 3));
    assert_eq!(match_opcode(0xA123), Opcode::LDI(0x123));
    assert_eq!(match_opcode(0xB123), Opcode::JPV0(0x123));
    assert_eq!(match_opcode(0xC2AB), Opcode::RND(2, 0xAB));
    assert_eq!(match_opcode(0xD125), Opcode::DRW(1, 2, 5));
    assert_eq!(match_opcode(0xE19E), Opcode::SKP(1));
    assert_eq!(match_opcode(0xE1A1), Opcode::SKNP(1));
    assert_eq!(match_opcode(0xF107), Opcode::LDVxDT(1));
    assert_eq!(match_opcode(0xF10A), Opcode::LDVxK(1));
    assert_eq!(match_opcode(0xF115), Opcode::LDDTVx(1));
    assert_eq!(match_opcode(0xF118), Opcode::LDSTVx(1));
    assert_eq!(match_opcode(0xF11E), Opcode::ADDI(1));
    assert_eq!(match_opcode(0xF129), Opcode::LDF(1));
    assert_eq!(match_opcode(0xF133), Opcode::LDB(1));
    assert_eq!(match_opcode(0xF155), Opcode::LDIVx(1));
    assert_eq!(match_opcode(0xF165), Opcode::LDVxI(1));
    // patterns outside the set fall through to the unknown variant
    assert_eq!(match_opcode(0x5231), Opcode::ERROR(0x5231));
    assert_eq!(match_opcode(0x8128), Opcode::ERROR(0x8128));
    assert_eq!(match_opcode(0xFFFF), Opcode::ERROR(0xFFFF));
}

#[test]
fn test_tick_skip_scenario() {
    // SE V0, 0x55 at the program start, with V0 holding 0x55: the skip
    // lands two instructions further on.
    let mut chip_8 = Chip8::default();
    chip_8.load_program(&[0x30, 0x55]).unwrap();
    chip_8.opcode_ld(0, 0x55).unwrap();

    assert_eq!(chip_8.pc, 0x200);
    chip_8.tick(0, 0).unwrap();
    assert_eq!(chip_8.pc, 0x204);

    // SE V0, 0x66 with V0 still 0x55: no skip, one instruction further.
    let mut chip_8 = Chip8::default();
    chip_8.load_program(&[0x30, 0x66]).unwrap();
    chip_8.opcode_ld(0, 0x55).unwrap();

    chip_8.tick(0, 0).unwrap();
    assert_eq!(chip_8.pc, 0x202);
}

#[test]
fn test_add_carry_sequence() {
    let mut chip_8 = Chip8::default();

    chip_8.opcode_ld(0, 254).unwrap();
    chip_8.opcode_ld(1, 1).unwrap();

    chip_8.opcode_add_vy(0, 1).unwrap();
    assert_eq!(chip_8.v_reg[0], 255);
    assert_eq!(chip_8.v_reg[0xF], 0);

    chip_8.opcode_add_vy(0, 1).unwrap();
    assert_eq!(chip_8.v_reg[0], 0);
    assert_eq!(chip_8.v_reg[0xF], 1);
}

#[test]
fn test_tick_call_then_ret() {
    // CALL 0x204 at the program start, RET at 0x204: the return resumes
    // at the instruction following the call.
    let mut chip_8 = Chip8::default();
    chip_8
        .load_program(&[0x22, 0x04, 0x00, 0x00, 0x00, 0xEE])
        .unwrap();

    chip_8.tick(0, 0).unwrap();
    assert_eq!(chip_8.pc, 0x204);

    chip_8.tick(0, 0).unwrap();
    assert_eq!(chip_8.pc, 0x202);
}

#[test]
fn test_call_nesting_depth() {
    let mut chip_8 = Chip8::default();

    // sixteen nested calls fill the stack
    for d in 0..16 {
        chip_8.opcode_call(0x300 + d).unwrap();
    }
    // the seventeenth overflows and changes nothing
    assert_eq!(chip_8.opcode_call(0x400), Err(ExecError::StackOverflow));
    assert_eq!(chip_8.pc, 0x300 + 15);

    // sixteen returns unwind back to the start
    for d in (0..16).rev() {
        chip_8.opcode_ret().unwrap();
        let expected = if d == 0 {
            PROGRAM_START_ADDRESS
        } else {
            0x300 + d - 1
        };
        assert_eq!(chip_8.pc, expected);
    }
    // one more underflows
    assert_eq!(chip_8.opcode_ret(), Err(ExecError::StackUnderflow));
}

#[test]
fn test_tick_unknown_opcode() {
    let mut chip_8 = Chip8::default();
    chip_8.load_program(&[0xFF, 0xFF]).unwrap();

    assert_eq!(
        chip_8.tick(0, 0),
        Err(ExecError::UnimplementedOpcode(0xFFFF))
    );
    // the failing cycle left the machine untouched
    assert_eq!(chip_8.pc, PROGRAM_START_ADDRESS);
}

#[test]
fn test_tick_out_of_bounds_pc() {
    let mut chip_8 = Chip8::default();

    chip_8.opcode_jmp(0xFFF).unwrap();

    assert_eq!(chip_8.tick(0, 0), Err(ExecError::OutOfBoundsAddress));
    assert_eq!(chip_8.pc, 0xFFF);
}

#[test]
fn test_tick_rnd_and_keys() {
    // RND V0, 0xF0 with the host-supplied byte 0xAB
    let mut chip_8 = Chip8::default();
    chip_8.load_program(&[0xC0, 0xF0]).unwrap();
    chip_8.tick(0, 0xAB).unwrap();
    assert_eq!(chip_8.v_reg[0], 0xA0);
    assert_eq!(chip_8.pc, 0x202);

    // SKP V0 with key 2 held and V0 naming key 2
    let mut chip_8 = Chip8::default();
    chip_8.load_program(&[0xE0, 0x9E]).unwrap();
    chip_8.opcode_ld(0, 2).unwrap();
    chip_8.tick(1 << 2, 0).unwrap();
    assert_eq!(chip_8.pc, 0x204);

    // LD V0, K with no key held: the machine waits on the instruction
    let mut chip_8 = Chip8::default();
    chip_8.load_program(&[0xF0, 0x0A]).unwrap();
    chip_8.tick(0, 0).unwrap();
    assert_eq!(chip_8.pc, 0x200);
    chip_8.tick(1 << 7, 0).unwrap();
    assert_eq!(chip_8.v_reg[0], 7);
    assert_eq!(chip_8.pc, 0x202);
}

#[test]
fn test_timer_ticks_floor_at_zero() {
    let mut chip_8 = Chip8::default();

    chip_8.opcode_ld(0, 2).unwrap();
    chip_8.opcode_ld_dt_vx(0).unwrap();
    chip_8.opcode_ld(0, 1).unwrap();
    chip_8.opcode_ld_st_vx(0).unwrap();

    assert!(chip_8.sound_active());

    chip_8.tick_timers();
    assert_eq!(chip_8.delay_timer, 1);
    assert_eq!(chip_8.sound_timer, 0);
    assert!(!chip_8.sound_active());

    chip_8.tick_timers();
    assert_eq!(chip_8.delay_timer, 0);
    assert_eq!(chip_8.sound_timer, 0);

    chip_8.tick_timers();
    assert_eq!(chip_8.delay_timer, 0);
    assert_eq!(chip_8.sound_timer, 0);
}

#[test]
fn test_sys_is_ignored() {
    let mut chip_8 = Chip8::default();
    chip_8.load_program(&[0x01, 0x23]).unwrap();

    chip_8.tick(0, 0).unwrap();

    assert_eq!(chip_8.pc, 0x202);
    assert_eq!(chip_8.v_reg, vec![0; 16]);
}
