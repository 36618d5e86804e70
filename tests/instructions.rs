use chip8::instruction::Instruction;
use chip8::instruction::InstructionIterator;

fn check(word: u16, expected: Instruction) {
    assert_eq!(Instruction::parse(word).unwrap(), expected);
}

#[test]
fn test_instructions() {
    check(0x00e0, Instruction::Cls);
    check(0x00ee, Instruction::Ret);
    check(0x1111, Instruction::Jp(0x0111));
    check(0x2111, Instruction::Call(0x0111));
    check(0x3111, Instruction::Se(0x1, 0x11));
    check(0x4111, Instruction::Sne(0x1, 0x11));
    check(0x5110, Instruction::SeReg(0x1, 0x1));
    check(0x6111, Instruction::Ld(0x1, 0x11));
    check(0x7111, Instruction::AddReg(0x1, 0x11));
    check(0x8110, Instruction::LdReg(0x1, 0x1));
    check(0x8111, Instruction::Or(0x1, 0x1));
    check(0x8112, Instruction::And(0x1, 0x1));
    check(0x8113, Instruction::Xor(0x1, 0x1));
    check(0x8114, Instruction::AddCarry(0x1, 0x1));
    check(0x8115, Instruction::Sub(0x1, 0x1));
    check(0x8116, Instruction::Shr(0x1, 0x1));
    check(0x8117, Instruction::Subn(0x1, 0x1));
    check(0x811e, Instruction::Shl(0x1, 0x1));
    check(0x9110, Instruction::SneReg(0x1, 0x1));
    check(0xa000, Instruction::LdI(0x000));
    check(0xb000, Instruction::JpV0(0x000));
    check(0xc111, Instruction::Rnd(0x1, 0x11));
    check(0xd123, Instruction::Drw(0x1, 0x2, 0x3));
    check(0xe19e, Instruction::Skp(0x1));
    check(0xe1a1, Instruction::Sknp(0x1));
    check(0xf107, Instruction::LdDelayTimerValue(0x1));
    check(0xf10a, Instruction::LdKeypress(0x1));
    check(0xf115, Instruction::LdDelayTimerReg(0x1));
    check(0xf118, Instruction::LdSoundTimer(0x1));
    check(0xf11e, Instruction::AddI(0x1));
    check(0xf129, Instruction::LdSprite(0x1));
    check(0xf133, Instruction::LdBCD(0x1));
    check(0xf155, Instruction::LdStoreV0(0x1));
    check(0xf165, Instruction::LdReadV0(0x1));
}

#[test]
fn sys_takes_the_low_twelve_bits() {
    check(0x0123, Instruction::Sys(0x123));
    check(0x0fff, Instruction::Sys(0xfff));
}

#[test]
fn operands_come_from_the_right_nibbles() {
    check(0xdabc, Instruction::Drw(0xa, 0xb, 0xc));
    check(0x3f42, Instruction::Se(0xf, 0x42));
    check(0x1abc, Instruction::Jp(0xabc));
    check(0x8fe4, Instruction::AddCarry(0xf, 0xe));
}

#[test]
fn unassigned_patterns_do_not_decode() {
    for word in [0x5121u16, 0x8008, 0x800f, 0x9001, 0xe000, 0xe19f, 0xf000, 0xf1ff, 0xf166] {
        assert_eq!(Instruction::parse(word), None, "{:#06x}", word);
    }
}

#[test]
fn decoding_twice_gives_the_same_result() {
    for word in 0..=u16::MAX {
        assert_eq!(Instruction::parse(word), Instruction::parse(word));
    }
}

#[test]
fn iterator_reads_two_bytes_per_instruction() {
    let mut it = InstructionIterator::new(vec![0x00, 0xe0, 0x12, 0x34, 0x56]);
    assert_eq!(it.next(), Some(Instruction::Cls));
    assert_eq!(it.next(), Some(Instruction::Jp(0x234)));
    assert_eq!(it.next(), None);
}
