use chip8::instruction::Instruction;
use chip8::system::{Fault, System, FONT, PROGRAM_START};

#[test]
fn new_system_has_font_and_zeroed_state() {
    let s = System::new();
    assert_eq!(&s.mem[0..80], &FONT[..]);
    assert!(s.mem[80..].iter().all(|&b| b == 0));
    assert_eq!(s.regs, [0u8; 16]);
    assert_eq!((s.i, s.pc, s.sp, s.dt, s.st), (0, 0, 0, 0, 0));
    assert_eq!(s.waiting, None);
    for y in 0..32 {
        for x in 0..64 {
            assert!(!s.framebuffer().get(x, y));
        }
    }
}

#[test]
fn add_literal_wraps_without_flag() {
    let mut s = System::new();
    s.regs[3] = 0xff;
    s.regs[15] = 0x42;
    s.execute(Instruction::AddReg(3, 0x02), 0).unwrap();
    assert_eq!(s.regs[3], 0x01);
    assert_eq!(s.regs[15], 0x42);
}

#[test]
fn add_with_carry_sets_flag() {
    let mut s = System::new();
    s.regs[0] = 0xff;
    s.regs[1] = 0x01;
    s.execute(Instruction::AddCarry(0, 1), 0).unwrap();
    assert_eq!(s.regs[0], 0x00);
    assert_eq!(s.regs[15], 1);
    s.regs[0] = 0x10;
    s.execute(Instruction::AddCarry(0, 1), 0).unwrap();
    assert_eq!(s.regs[0], 0x11);
    assert_eq!(s.regs[15], 0);
}

#[test]
fn sub_with_borrow_clears_flag() {
    let mut s = System::new();
    s.regs[0] = 0x01;
    s.regs[1] = 0x02;
    s.execute(Instruction::Sub(0, 1), 0).unwrap();
    assert_eq!(s.regs[0], 0xff);
    assert_eq!(s.regs[15], 0);
    s.regs[0] = 0x05;
    s.execute(Instruction::Sub(0, 1), 0).unwrap();
    assert_eq!(s.regs[0], 0x03);
    assert_eq!(s.regs[15], 1);
}

#[test]
fn subn_and_shifts() {
    let mut s = System::new();
    s.regs[2] = 0x03;
    s.regs[4] = 0x01;
    s.execute(Instruction::Subn(2, 4), 0).unwrap();
    assert_eq!(s.regs[2], 0xfe);
    assert_eq!(s.regs[15], 0);
    s.regs[5] = 0x81;
    s.execute(Instruction::Shr(5, 0), 0).unwrap();
    assert_eq!((s.regs[5], s.regs[15]), (0x40, 1));
    s.regs[6] = 0x81;
    s.execute(Instruction::Shl(6, 0), 0).unwrap();
    assert_eq!((s.regs[6], s.regs[15]), (0x02, 1));
    s.regs[6] = 0x41;
    s.execute(Instruction::Shl(6, 0), 0).unwrap();
    assert_eq!((s.regs[6], s.regs[15]), (0x82, 0));
}

#[test]
fn bitwise_ops() {
    let mut s = System::new();
    s.regs[0] = 0b1100;
    s.regs[1] = 0b1010;
    s.execute(Instruction::Or(0, 1), 0).unwrap();
    assert_eq!(s.regs[0], 0b1110);
    s.regs[0] = 0b1100;
    s.execute(Instruction::And(0, 1), 0).unwrap();
    assert_eq!(s.regs[0], 0b1000);
    s.regs[0] = 0b1100;
    s.execute(Instruction::Xor(0, 1), 0).unwrap();
    assert_eq!(s.regs[0], 0b0110);
}

#[test]
fn random_is_masked() {
    let mut s = System::new();
    s.execute(Instruction::Rnd(2, 0x0f), 0xab).unwrap();
    assert_eq!(s.regs[2], 0x0b);
    s.apply(Instruction::Rnd(3, 0x00)).unwrap();
    assert_eq!(s.regs[3], 0);
}

#[test]
fn skips_advance_pc_by_two() {
    let mut s = System::new();
    s.pc = 0x202;
    s.regs[1] = 7;
    s.execute(Instruction::Se(1, 7), 0).unwrap();
    assert_eq!(s.pc, 0x204);
    s.execute(Instruction::Sne(1, 7), 0).unwrap();
    assert_eq!(s.pc, 0x204);
    s.regs[2] = 7;
    s.execute(Instruction::SeReg(1, 2), 0).unwrap();
    assert_eq!(s.pc, 0x206);
    s.execute(Instruction::SneReg(1, 2), 0).unwrap();
    assert_eq!(s.pc, 0x206);
}

#[test]
fn key_skips_read_the_key_in_the_register() {
    let mut s = System::new();
    s.pc = 0x300;
    s.regs[0] = 0xa;
    s.execute(Instruction::Skp(0), 0).unwrap();
    assert_eq!(s.pc, 0x300);
    s.execute(Instruction::Sknp(0), 0).unwrap();
    assert_eq!(s.pc, 0x302);
    s.set_key(0xa, true);
    s.execute(Instruction::Skp(0), 0).unwrap();
    assert_eq!(s.pc, 0x304);
    s.regs[0] = 0x20;
    s.execute(Instruction::Skp(0), 0).unwrap();
    assert_eq!(s.pc, 0x304);
}

#[test]
fn draw_twice_restores_and_collides() {
    let mut s = System::new();
    s.regs[0] = 62;
    s.regs[1] = 30;
    s.i = 0;
    s.execute(Instruction::Drw(0, 1, 5), 0).unwrap();
    assert_eq!(s.regs[15], 0);
    // glyph 0 starts with 0xF0: columns 62, 63, 0, 1 of row 30
    assert!(s.framebuffer().get(62, 30));
    assert!(s.framebuffer().get(1, 30));
    assert!(!s.framebuffer().get(2, 30));
    // its third row wraps to screen row 0
    assert!(s.framebuffer().get(62, 0));
    s.execute(Instruction::Drw(0, 1, 5), 0).unwrap();
    assert_eq!(s.regs[15], 1);
    for y in 0..32 {
        for x in 0..64 {
            assert!(!s.framebuffer().get(x, y));
        }
    }
}

#[test]
fn clear_screen_leaves_registers() {
    let mut s = System::new();
    s.regs[0] = 3;
    s.execute(Instruction::Drw(0, 0, 1), 0).unwrap();
    s.execute(Instruction::Cls, 0).unwrap();
    assert!(!s.framebuffer().get(3, 0));
    assert_eq!(s.regs[0], 3);
}

#[test]
fn calls_and_returns_balance() {
    let mut s = System::new();
    s.pc = 0x234;
    for k in 0..16u16 {
        s.execute(Instruction::Call(0x300 + 2 * k), 0).unwrap();
    }
    assert_eq!(s.sp, 16);
    assert_eq!(s.execute(Instruction::Call(0x400), 0), Err(Fault::StackOverflow));
    assert_eq!(s.sp, 16);
    for _ in 0..16 {
        s.execute(Instruction::Ret, 0).unwrap();
    }
    assert_eq!(s.pc, 0x234);
    assert_eq!(s.sp, 0);
    s.execute(Instruction::Ret, 0).unwrap();
    assert_eq!(s.pc, 0x234);
}

#[test]
fn jumps() {
    let mut s = System::new();
    s.execute(Instruction::Jp(0x345), 0).unwrap();
    assert_eq!(s.pc, 0x345);
    s.regs[0] = 0x10;
    s.execute(Instruction::JpV0(0x300), 0).unwrap();
    assert_eq!(s.pc, 0x310);
    s.execute(Instruction::Sys(0x123), 0).unwrap();
    assert_eq!(s.pc, 0x310);
}

#[test]
fn timers_count_down_to_zero() {
    let mut s = System::new();
    s.regs[4] = 3;
    s.execute(Instruction::LdDelayTimerReg(4), 0).unwrap();
    s.regs[4] = 1;
    s.execute(Instruction::LdSoundTimer(4), 0).unwrap();
    s.tick_timers();
    assert_eq!((s.dt, s.st), (2, 0));
    s.execute(Instruction::LdDelayTimerValue(7), 0).unwrap();
    assert_eq!(s.regs[7], 2);
    for _ in 0..5 {
        s.tick_timers();
    }
    assert_eq!((s.dt, s.st), (0, 0));
}

#[test]
fn index_register_ops() {
    let mut s = System::new();
    s.execute(Instruction::LdI(0xfff0), 0).unwrap();
    s.regs[2] = 0x20;
    s.execute(Instruction::AddI(2), 0).unwrap();
    assert_eq!(s.i, 0x0010);
    assert_eq!(s.regs[15], 0);
    s.regs[3] = 0xb;
    s.execute(Instruction::LdSprite(3), 0).unwrap();
    assert_eq!(s.i, 55);
    assert_eq!(s.mem[55], 0xe0);
}

#[test]
fn bcd_digits() {
    let mut s = System::new();
    s.i = 0x300;
    s.regs[9] = 254;
    s.execute(Instruction::LdBCD(9), 0).unwrap();
    assert_eq!(&s.mem[0x300..0x303], &[2, 5, 4]);
    s.i = 0xfff;
    s.regs[9] = 7;
    s.execute(Instruction::LdBCD(9), 0).unwrap();
    assert_eq!((s.mem[0xfff], s.mem[0], s.mem[1]), (0, 0, 7));
}

#[test]
fn register_dump_and_load_round_trip() {
    let mut s = System::new();
    for k in 0..16 {
        s.regs[k] = (k as u8) * 11 + 1;
    }
    let saved = s.regs;
    s.i = 0x400;
    s.execute(Instruction::LdStoreV0(5), 0).unwrap();
    assert_eq!(s.mem[0x405], saved[5]);
    assert_eq!(s.mem[0x406], 0);
    s.regs = [0; 16];
    s.execute(Instruction::LdReadV0(5), 0).unwrap();
    assert_eq!(&s.regs[0..6], &saved[0..6]);
    assert_eq!(s.regs[6], 0);
}

#[test]
fn wait_for_key_suspends_steps() {
    let mut s = System::new();
    s.load(&[0xf3, 0x0a, 0x60, 0x05]);
    s.pc = PROGRAM_START;
    s.step().unwrap();
    assert_eq!(s.waiting, Some(3));
    s.step().unwrap();
    assert_eq!(s.pc, 0x202);
    s.set_key(0x7, true);
    assert_eq!(s.waiting, None);
    assert_eq!(s.regs[3], 0x7);
    s.step().unwrap();
    assert_eq!(s.regs[0], 5);
}

#[test]
fn unknown_opcode_is_reported_with_pc() {
    let mut s = System::new();
    s.load(&[0x60, 0x01, 0xff, 0xff]);
    let r = s.run(10);
    assert_eq!(r, Err(Fault::UnknownOpcode { opcode: 0xffff, pc: 0x202 }));
    assert_eq!(s.regs[0], 1);
}

#[test]
fn run_stops_after_the_step_budget() {
    let mut s = System::new();
    // 0x200: ADD V0, 1; 0x202: JP 0x200
    s.load(&[0x70, 0x01, 0x12, 0x00]);
    assert_eq!(s.run(7), Ok(()));
    assert_eq!(s.regs[0], 4);
}

#[test]
fn fetch_reads_big_endian_and_advances() {
    let mut s = System::new();
    s.load(&[0xd1, 0x23]);
    s.pc = PROGRAM_START;
    assert_eq!(s.fetch_instr(), Some(Instruction::Drw(1, 2, 3)));
    assert_eq!(s.pc, 0x202);
}

#[test]
fn keyboard_and_registers() {
    let mut s = System::new();
    s.regs[4] = 9;
    assert_eq!(*s.reg(4), 9);
    *s.reg(5) = 3;
    assert_eq!(s.regs[5], 3);
    s.set_key(2, true);
    assert!(s.keyboard.is_pressed(2));
    s.set_key(2, false);
    assert!(!s.keyboard.is_pressed(2));
    s.inc_pc();
    assert_eq!(s.pc, 2);
    s.inc_sp();
    assert_eq!(s.sp, 1);
}
