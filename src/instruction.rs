//! The Chip-8 instruction set and its decoder.
use vstd::prelude::*;

verus! {

/// A 12-bit address, held in 16 bits.
pub type Addr = u16;

/// A 4-bit value, held in 8 bits.
pub type Nibble = u8;

/// An 8-bit value.
pub type Byte = u8;

/// One decoded Chip-8 instruction.
///
/// Operand names: *x* and *y* are register indices (nibbles), *n* is a
/// nibble, *nnn* an address and *kk* a byte.
#[derive(Debug, Copy, Clone, PartialEq, Eq, Structural)]
pub enum Instruction {
    /// **SYS nnn**. Jump to a machine code routine; has no effect here.
    Sys(Addr),
    /// **CLS**. Clear the display.
    Cls,
    /// **RET**. Return from a subroutine.
    Ret,
    /// **JP nnn**. Jump to location nnn.
    Jp(Addr),
    /// **CALL nnn**. Call subroutine at nnn.
    Call(Addr),
    /// **SE Vx, kk**. Skip next instruction if Vx == kk.
    Se(Nibble, Byte),
    /// **SNE Vx, kk**. Skip next instruction if Vx != kk.
    Sne(Nibble, Byte),
    /// **SE Vx, Vy**. Skip next instruction if Vx == Vy.
    SeReg(Nibble, Nibble),
    /// **LD Vx, kk**. Set Vx = kk.
    Ld(Nibble, Byte),
    /// **ADD Vx, kk**. Set Vx = Vx + kk, wrapping, flag untouched.
    AddReg(Nibble, Byte),
    /// **LD Vx, Vy**. Set Vx = Vy.
    LdReg(Nibble, Nibble),
    /// **OR Vx, Vy**. Set Vx = Vx OR Vy.
    Or(Nibble, Nibble),
    /// **AND Vx, Vy**. Set Vx = Vx AND Vy.
    And(Nibble, Nibble),
    /// **XOR Vx, Vy**. Set Vx = Vx XOR Vy.
    Xor(Nibble, Nibble),
    /// **ADD Vx, Vy**. Set Vx = Vx + Vy, VF = carry.
    AddCarry(Nibble, Nibble),
    /// **SUB Vx, Vy**. Set Vx = Vx - Vy, VF = NOT borrow.
    Sub(Nibble, Nibble),
    /// **SHR Vx**. Set Vx = Vx SHR 1, VF = the bit shifted out.
    Shr(Nibble, Nibble),
    /// **SUBN Vx, Vy**. Set Vx = Vy - Vx, VF = NOT borrow.
    Subn(Nibble, Nibble),
    /// **SHL Vx**. Set Vx = Vx SHL 1, VF = the bit shifted out.
    Shl(Nibble, Nibble),
    /// **SNE Vx, Vy**. Skip next instruction if Vx != Vy.
    SneReg(Nibble, Nibble),
    /// **LD I, nnn**. Set I = nnn.
    LdI(Addr),
    /// **JP V0, nnn**. Jump to location nnn + V0.
    JpV0(Addr),
    /// **RND Vx, kk**. Set Vx = random byte AND kk.
    Rnd(Nibble, Byte),
    /// **DRW Vx, Vy, n**. Draw an n-byte sprite from memory at I at (Vx, Vy), VF = collision.
    Drw(Nibble, Nibble, Nibble),
    /// **SKP Vx**. Skip next instruction if the key with the value of Vx is pressed.
    Skp(Nibble),
    /// **SKNP Vx**. Skip next instruction if the key with the value of Vx is not pressed.
    Sknp(Nibble),
    /// **LD Vx, DT**. Set Vx = delay timer value.
    LdDelayTimerValue(Nibble),
    /// **LD Vx, K**. Wait for a key press, store the value of the key in Vx.
    LdKeypress(Nibble),
    /// **LD DT, Vx**. Set delay timer = Vx.
    LdDelayTimerReg(Nibble),
    /// **LD ST, Vx**. Set sound timer = Vx.
    LdSoundTimer(Nibble),
    /// **ADD I, Vx**. Set I = I + Vx, wrapping, flag untouched.
    AddI(Nibble),
    /// **LD F, Vx**. Set I = location of the font glyph for digit Vx.
    LdSprite(Nibble),
    /// **LD B, Vx**. Store the BCD digits of Vx at I, I+1 and I+2.
    LdBCD(Nibble),
    /// **LD [I], Vx**. Store registers V0 through Vx in memory starting at I.
    LdStoreV0(Nibble),
    /// **LD Vx, [I]**. Read registers V0 through Vx from memory starting at I.
    LdReadV0(Nibble),
}

/// The most significant nibble of a word.
pub open spec fn nib0(w: u16) -> u8 {
    (w / 4096) as u8
}

/// The second nibble of a word: the *x* operand.
pub open spec fn nib1(w: u16) -> u8 {
    ((w / 256) % 16) as u8
}

/// The third nibble of a word: the *y* operand.
pub open spec fn nib2(w: u16) -> u8 {
    ((w / 16) % 16) as u8
}

/// The least significant nibble of a word: the *n* operand.
pub open spec fn nib3(w: u16) -> u8 {
    (w % 16) as u8
}

/// The low twelve bits of a word: the *nnn* operand.
pub open spec fn addr_of(w: u16) -> u16 {
    w % 4096
}

/// The low byte of a word: the *kk* operand.
pub open spec fn byte_of(w: u16) -> u8 {
    (w % 256) as u8
}

/// What a 16-bit word decodes to: the instruction of the opcode table, or
/// `None` for an unassigned bit pattern.
pub open spec fn decode(w: u16) -> Option<Instruction> {
    let (x, y, n, a, kk) = (nib1(w), nib2(w), nib3(w), addr_of(w), byte_of(w));
    match (nib0(w), x, y, n) {
        (0, 0, 0xe, 0) => Some(Instruction::Cls),
        (0, 0, 0xe, 0xe) => Some(Instruction::Ret),
        (0, _, _, _) => Some(Instruction::Sys(a)),
        (1, _, _, _) => Some(Instruction::Jp(a)),
        (2, _, _, _) => Some(Instruction::Call(a)),
        (3, _, _, _) => Some(Instruction::Se(x, kk)),
        (4, _, _, _) => Some(Instruction::Sne(x, kk)),
        (5, _, _, 0) => Some(Instruction::SeReg(x, y)),
        (6, _, _, _) => Some(Instruction::Ld(x, kk)),
        (7, _, _, _) => Some(Instruction::AddReg(x, kk)),
        (8, _, _, 0) => Some(Instruction::LdReg(x, y)),
        (8, _, _, 1) => Some(Instruction::Or(x, y)),
        (8, _, _, 2) => Some(Instruction::And(x, y)),
        (8, _, _, 3) => Some(Instruction::Xor(x, y)),
        (8, _, _, 4) => Some(Instruction::AddCarry(x, y)),
        (8, _, _, 5) => Some(Instruction::Sub(x, y)),
        (8, _, _, 6) => Some(Instruction::Shr(x, y)),
        (8, _, _, 7) => Some(Instruction::Subn(x, y)),
        (8, _, _, 0xe) => Some(Instruction::Shl(x, y)),
        (9, _, _, 0) => Some(Instruction::SneReg(x, y)),
        (0xa, _, _, _) => Some(Instruction::LdI(a)),
        (0xb, _, _, _) => Some(Instruction::JpV0(a)),
        (0xc, _, _, _) => Some(Instruction::Rnd(x, kk)),
        (0xd, _, _, _) => Some(Instruction::Drw(x, y, n)),
        (0xe, _, 9, 0xe) => Some(Instruction::Skp(x)),
        (0xe, _, 0xa, 1) => Some(Instruction::Sknp(x)),
        (0xf, _, 0, 7) => Some(Instruction::LdDelayTimerValue(x)),
        (0xf, _, 0, 0xa) => Some(Instruction::LdKeypress(x)),
        (0xf, _, 1, 5) => Some(Instruction::LdDelayTimerReg(x)),
        (0xf, _, 1, 8) => Some(Instruction::LdSoundTimer(x)),
        (0xf, _, 1, 0xe) => Some(Instruction::AddI(x)),
        (0xf, _, 2, 9) => Some(Instruction::LdSprite(x)),
        (0xf, _, 3, 3) => Some(Instruction::LdBCD(x)),
        (0xf, _, 5, 5) => Some(Instruction::LdStoreV0(x)),
        (0xf, _, 6, 5) => Some(Instruction::LdReadV0(x)),
        _ => None,
    }
}

/// The masks and shifts that pick a word apart are its digits in base 16.
proof fn lemma_fields(w: u16)
    ensures
        (w & 0xf000) >> 12 == w / 4096,
        (w & 0x0f00) >> 8 == (w / 256) % 16,
        (w & 0x00f0) >> 4 == (w / 16) % 16,
        w & 0x000f == w % 16,
        w & 0x0fff == w % 4096,
        w & 0x00ff == w % 256,
{
    assert((w & 0xf000) >> 12 == w / 4096) by (bit_vector);
    assert((w & 0x0f00) >> 8 == (w / 256) % 16) by (bit_vector);
    assert((w & 0x00f0) >> 4 == (w / 16) % 16) by (bit_vector);
    assert(w & 0x000f == w % 16) by (bit_vector);
    assert(w & 0x0fff == w % 4096) by (bit_vector);
    assert(w & 0x00ff == w % 256) by (bit_vector);
}

fn get_x(val: u16) -> (r: Nibble)
    ensures
        r == nib1(val),
{
    proof {
        lemma_fields(val);
    }
    ((val & 0x0f00) >> 8) as u8
}

fn get_y(val: u16) -> (r: Nibble)
    ensures
        r == nib2(val),
{
    proof {
        lemma_fields(val);
    }
    ((val & 0x00f0) >> 4) as u8
}

fn get_addr(val: u16) -> (r: Addr)
    ensures
        r == addr_of(val),
{
    proof {
        lemma_fields(val);
    }
    val & 0x0fff
}

fn get_byte(val: u16) -> (r: Byte)
    ensures
        r == byte_of(val),
{
    proof {
        lemma_fields(val);
    }
    (val & 0x00ff) as u8
}

fn get_nibble(val: u16) -> (r: Nibble)
    ensures
        r == nib3(val),
{
    proof {
        lemma_fields(val);
    }
    (val & 0x000f) as u8
}

impl Instruction {
    /// Decodes a 16-bit opcode; `None` for an unassigned bit pattern.
    pub fn parse(val: u16) -> (r: Option<Instruction>)
        ensures
            r == decode(val),
    {
        proof {
            lemma_fields(val);
        }
        let n = ((val & 0xf000) >> 12, (val & 0x0f00) >> 8, (val & 0x00f0) >> 4, val & 0x000f);
        match n {
            (0x0, 0x0, 0xe, 0x0) => Some(Instruction::Cls),
            (0x0, 0x0, 0xe, 0xe) => Some(Instruction::Ret),
            (0x0, _, _, _) => Some(Instruction::Sys(get_addr(val))),
            (0x1, _, _, _) => Some(Instruction::Jp(get_addr(val))),
            (0x2, _, _, _) => Some(Instruction::Call(get_addr(val))),
            (0x3, _, _, _) => Some(Instruction::Se(get_x(val), get_byte(val))),
            (0x4, _, _, _) => Some(Instruction::Sne(get_x(val), get_byte(val))),
            (0x5, _, _, 0x0) => Some(Instruction::SeReg(get_x(val), get_y(val))),
            (0x6, _, _, _) => Some(Instruction::Ld(get_x(val), get_byte(val))),
            (0x7, _, _, _) => Some(Instruction::AddReg(get_x(val), get_byte(val))),
            (0x8, _, _, 0x0) => Some(Instruction::LdReg(get_x(val), get_y(val))),
            (0x8, _, _, 0x1) => Some(Instruction::Or(get_x(val), get_y(val))),
            (0x8, _, _, 0x2) => Some(Instruction::And(get_x(val), get_y(val))),
            (0x8, _, _, 0x3) => Some(Instruction::Xor(get_x(val), get_y(val))),
            (0x8, _, _, 0x4) => Some(Instruction::AddCarry(get_x(val), get_y(val))),
            (0x8, _, _, 0x5) => Some(Instruction::Sub(get_x(val), get_y(val))),
            (0x8, _, _, 0x6) => Some(Instruction::Shr(get_x(val), get_y(val))),
            (0x8, _, _, 0x7) => Some(Instruction::Subn(get_x(val), get_y(val))),
            (0x8, _, _, 0xe) => Some(Instruction::Shl(get_x(val), get_y(val))),
            (0x9, _, _, 0x0) => Some(Instruction::SneReg(get_x(val), get_y(val))),
            (0xa, _, _, _) => Some(Instruction::LdI(get_addr(val))),
            (0xb, _, _, _) => Some(Instruction::JpV0(get_addr(val))),
            (0xc, _, _, _) => Some(Instruction::Rnd(get_x(val), get_byte(val))),
            (0xd, _, _, _) => Some(Instruction::Drw(get_x(val), get_y(val), get_nibble(val))),
            (0xe, _, 0x9, 0xe) => Some(Instruction::Skp(get_x(val))),
            (0xe, _, 0xa, 0x1) => Some(Instruction::Sknp(get_x(val))),
            (0xf, _, 0x0, 0x7) => Some(Instruction::LdDelayTimerValue(get_x(val))),
            (0xf, _, 0x0, 0xa) => Some(Instruction::LdKeypress(get_x(val))),
            (0xf, _, 0x1, 0x5) => Some(Instruction::LdDelayTimerReg(get_x(val))),
            (0xf, _, 0x1, 0x8) => Some(Instruction::LdSoundTimer(get_x(val))),
            (0xf, _, 0x1, 0xe) => Some(Instruction::AddI(get_x(val))),
            (0xf, _, 0x2, 0x9) => Some(Instruction::LdSprite(get_x(val))),
            (0xf, _, 0x3, 0x3) => Some(Instruction::LdBCD(get_x(val))),
            (0xf, _, 0x5, 0x5) => Some(Instruction::LdStoreV0(get_x(val))),
            (0xf, _, 0x6, 0x5) => Some(Instruction::LdReadV0(get_x(val))),
            _ => None,
        }
    }
}

/// Whether every operand of an instruction fits its field: register indices
/// and nibbles below 16, addresses below 4096.
pub open spec fn operands_fit(ins: Instruction) -> bool {
    match ins {
        Instruction::Sys(a) | Instruction::Jp(a) | Instruction::Call(a) | Instruction::LdI(a)
        | Instruction::JpV0(a) => a < 4096,
        Instruction::Se(x, _) | Instruction::Sne(x, _) | Instruction::Ld(x, _)
        | Instruction::AddReg(x, _) | Instruction::Rnd(x, _) => x < 16,
        Instruction::SeReg(x, y) | Instruction::LdReg(x, y) | Instruction::Or(x, y)
        | Instruction::And(x, y) | Instruction::Xor(x, y) | Instruction::AddCarry(x, y)
        | Instruction::Sub(x, y) | Instruction::Shr(x, y) | Instruction::Subn(x, y)
        | Instruction::Shl(x, y) | Instruction::SneReg(x, y) => x < 16 && y < 16,
        Instruction::Drw(x, y, n) => x < 16 && y < 16 && n < 16,
        Instruction::Skp(x) | Instruction::Sknp(x) | Instruction::LdDelayTimerValue(x)
        | Instruction::LdKeypress(x) | Instruction::LdDelayTimerReg(x)
        | Instruction::LdSoundTimer(x) | Instruction::AddI(x) | Instruction::LdSprite(x)
        | Instruction::LdBCD(x) | Instruction::LdStoreV0(x) | Instruction::LdReadV0(x) => x < 16,
        Instruction::Cls | Instruction::Ret => true,
    }
}

/// A word built from four nibbles, most significant first.
pub open spec fn word(n0: int, n1: int, n2: int, n3: int) -> int {
    n0 * 4096 + n1 * 256 + n2 * 16 + n3
}

/// The opcode of an instruction, as the opcode table gives it.
pub open spec fn encode(ins: Instruction) -> int {
    match ins {
        Instruction::Sys(a) => a as int,
        Instruction::Cls => 0x00e0,
        Instruction::Ret => 0x00ee,
        Instruction::Jp(a) => 0x1000 + a,
        Instruction::Call(a) => 0x2000 + a,
        Instruction::Se(x, kk) => word(3, x as int, 0, 0) + kk,
        Instruction::Sne(x, kk) => word(4, x as int, 0, 0) + kk,
        Instruction::SeReg(x, y) => word(5, x as int, y as int, 0),
        Instruction::Ld(x, kk) => word(6, x as int, 0, 0) + kk,
        Instruction::AddReg(x, kk) => word(7, x as int, 0, 0) + kk,
        Instruction::LdReg(x, y) => word(8, x as int, y as int, 0),
        Instruction::Or(x, y) => word(8, x as int, y as int, 1),
        Instruction::And(x, y) => word(8, x as int, y as int, 2),
        Instruction::Xor(x, y) => word(8, x as int, y as int, 3),
        Instruction::AddCarry(x, y) => word(8, x as int, y as int, 4),
        Instruction::Sub(x, y) => word(8, x as int, y as int, 5),
        Instruction::Shr(x, y) => word(8, x as int, y as int, 6),
        Instruction::Subn(x, y) => word(8, x as int, y as int, 7),
        Instruction::Shl(x, y) => word(8, x as int, y as int, 0xe),
        Instruction::SneReg(x, y) => word(9, x as int, y as int, 0),
        Instruction::LdI(a) => 0xa000 + a,
        Instruction::JpV0(a) => 0xb000 + a,
        Instruction::Rnd(x, kk) => word(0xc, x as int, 0, 0) + kk,
        Instruction::Drw(x, y, n) => word(0xd, x as int, y as int, n as int),
        Instruction::Skp(x) => word(0xe, x as int, 9, 0xe),
        Instruction::Sknp(x) => word(0xe, x as int, 0xa, 1),
        Instruction::LdDelayTimerValue(x) => word(0xf, x as int, 0, 7),
        Instruction::LdKeypress(x) => word(0xf, x as int, 0, 0xa),
        Instruction::LdDelayTimerReg(x) => word(0xf, x as int, 1, 5),
        Instruction::LdSoundTimer(x) => word(0xf, x as int, 1, 8),
        Instruction::AddI(x) => word(0xf, x as int, 1, 0xe),
        Instruction::LdSprite(x) => word(0xf, x as int, 2, 9),
        Instruction::LdBCD(x) => word(0xf, x as int, 3, 3),
        Instruction::LdStoreV0(x) => word(0xf, x as int, 5, 5),
        Instruction::LdReadV0(x) => word(0xf, x as int, 6, 5),
    }
}

/// A word made of a leading nibble, a second nibble and a low byte has
/// exactly those as its fields.
proof fn lemma_split(n0: int, x: int, low: int)
    requires
        0 <= n0 < 16,
        0 <= x < 16,
        0 <= low < 256,
    ensures
        ({
            let w = (n0 * 4096 + x * 256 + low) as u16;
            &&& nib0(w) == n0
            &&& nib1(w) == x
            &&& nib2(w) == low / 16
            &&& nib3(w) == low % 16
            &&& addr_of(w) == x * 256 + low
            &&& byte_of(w) == low
        }),
{
    let w = n0 * 4096 + x * 256 + low;
    assert(w / 4096 == n0) by (nonlinear_arith)
        requires
            w == n0 * 4096 + x * 256 + low,
            0 <= x < 16,
            0 <= low < 256,
    ;
    assert(w % 4096 == x * 256 + low) by (nonlinear_arith)
        requires
            w == n0 * 4096 + x * 256 + low,
            0 <= n0,
            0 <= x < 16,
            0 <= low < 256,
    ;
    assert(w / 256 == n0 * 16 + x) by (nonlinear_arith)
        requires
            w == n0 * 4096 + x * 256 + low,
            0 <= low < 256,
    ;
    assert((n0 * 16 + x) % 16 == x) by (nonlinear_arith)
        requires
            0 <= n0,
            0 <= x < 16,
    ;
    assert(w % 256 == low) by (nonlinear_arith)
        requires
            w == n0 * 4096 + x * 256 + low,
            0 <= n0,
            0 <= x,
            0 <= low < 256,
    ;
    assert(w / 16 == n0 * 256 + x * 16 + low / 16) by (nonlinear_arith)
        requires
            w == n0 * 4096 + x * 256 + low,
            0 <= low < 256,
    ;
    assert((n0 * 256 + x * 16 + low / 16) % 16 == low / 16) by (nonlinear_arith)
        requires
            0 <= n0,
            0 <= x,
            0 <= low < 256,
    ;
    assert(w % 16 == low % 16) by (nonlinear_arith)
        requires
            w == n0 * 4096 + x * 256 + low,
            0 <= n0,
            0 <= x,
            0 <= low < 256,
    ;
}

/// A word is the sum of its fields, each at its place.
proof fn lemma_join(w: u16)
    ensures
        w == nib0(w) * 4096 + addr_of(w),
        addr_of(w) == nib1(w) * 256 + byte_of(w),
        byte_of(w) == nib2(w) * 16 + nib3(w),
        nib0(w) < 16,
        nib1(w) < 16,
        nib2(w) < 16,
        nib3(w) < 16,
{
    let v = w as int;
    assert(v % 4096 == (v / 256) % 16 * 256 + v % 256) by (nonlinear_arith)
        requires
            0 <= v,
    ;
    assert(v % 256 == (v / 16) % 16 * 16 + v % 16) by (nonlinear_arith)
        requires
            0 <= v,
    ;
}

/// Decoding the opcode of an instruction gives that instruction back, for
/// every instruction whose operands fit their fields. The two `Sys`
/// addresses that spell `CLS` and `RET` are the exception: those words
/// belong to `Cls` and `Ret`.
pub proof fn lemma_decode_encode(ins: Instruction)
    requires
        operands_fit(ins),
        ins != Instruction::Sys(0x0e0),
        ins != Instruction::Sys(0x0ee),
    ensures
        0 <= encode(ins) < 0x10000,
        decode(encode(ins) as u16) == Some(ins),
{
    match ins {
        Instruction::Sys(a) => lemma_split(0, a as int / 256, a as int % 256),
        Instruction::Cls => lemma_split(0, 0, 0xe0),
        Instruction::Ret => lemma_split(0, 0, 0xee),
        Instruction::Jp(a) => lemma_split(1, a as int / 256, a as int % 256),
        Instruction::Call(a) => lemma_split(2, a as int / 256, a as int % 256),
        Instruction::Se(x, kk) => lemma_split(3, x as int, kk as int),
        Instruction::Sne(x, kk) => lemma_split(4, x as int, kk as int),
        Instruction::SeReg(x, y) => lemma_split(5, x as int, y * 16),
        Instruction::Ld(x, kk) => lemma_split(6, x as int, kk as int),
        Instruction::AddReg(x, kk) => lemma_split(7, x as int, kk as int),
        Instruction::LdReg(x, y) => lemma_split(8, x as int, y * 16),
        Instruction::Or(x, y) => lemma_split(8, x as int, y * 16 + 1),
        Instruction::And(x, y) => lemma_split(8, x as int, y * 16 + 2),
        Instruction::Xor(x, y) => lemma_split(8, x as int, y * 16 + 3),
        Instruction::AddCarry(x, y) => lemma_split(8, x as int, y * 16 + 4),
        Instruction::Sub(x, y) => lemma_split(8, x as int, y * 16 + 5),
        Instruction::Shr(x, y) => lemma_split(8, x as int, y * 16 + 6),
        Instruction::Subn(x, y) => lemma_split(8, x as int, y * 16 + 7),
        Instruction::Shl(x, y) => lemma_split(8, x as int, y * 16 + 0xe),
        Instruction::SneReg(x, y) => lemma_split(9, x as int, y * 16),
        Instruction::LdI(a) => lemma_split(0xa, a as int / 256, a as int % 256),
        Instruction::JpV0(a) => lemma_split(0xb, a as int / 256, a as int % 256),
        Instruction::Rnd(x, kk) => lemma_split(0xc, x as int, kk as int),
        Instruction::Drw(x, y, n) => lemma_split(0xd, x as int, y * 16 + n),
        Instruction::Skp(x) => lemma_split(0xe, x as int, 0x9e),
        Instruction::Sknp(x) => lemma_split(0xe, x as int, 0xa1),
        Instruction::LdDelayTimerValue(x) => lemma_split(0xf, x as int, 0x07),
        Instruction::LdKeypress(x) => lemma_split(0xf, x as int, 0x0a),
        Instruction::LdDelayTimerReg(x) => lemma_split(0xf, x as int, 0x15),
        Instruction::LdSoundTimer(x) => lemma_split(0xf, x as int, 0x18),
        Instruction::AddI(x) => lemma_split(0xf, x as int, 0x1e),
        Instruction::LdSprite(x) => lemma_split(0xf, x as int, 0x29),
        Instruction::LdBCD(x) => lemma_split(0xf, x as int, 0x33),
        Instruction::LdStoreV0(x) => lemma_split(0xf, x as int, 0x55),
        Instruction::LdReadV0(x) => lemma_split(0xf, x as int, 0x65),
    }
}

/// Decoding loses nothing: a word that decodes to an instruction is that
/// instruction's opcode.
pub proof fn lemma_encode_decode(w: u16)
    requires
        decode(w) is Some,
    ensures
        operands_fit(decode(w)->Some_0),
        encode(decode(w)->Some_0) == w,
{
    lemma_join(w);
}

/// The word made of two bytes, high byte first.
pub open spec fn word_of(hi: u8, lo: u8) -> u16 {
    (hi * 256 + lo) as u16
}

/// Reads instructions one by one from a program image, two bytes each.
pub struct InstructionIterator {
    bytes: Vec<u8>,
    pos: usize,
}

impl InstructionIterator {
    /// The bytes of the image.
    pub closed spec fn bytes(&self) -> Seq<u8> {
        self.bytes@
    }

    /// How many bytes have been read.
    pub closed spec fn pos(&self) -> nat {
        self.pos as nat
    }

    /// A reader at the start of `bytes`.
    pub fn new(bytes: Vec<u8>) -> (r: InstructionIterator)
        ensures
            r.bytes() == bytes@,
            r.pos() == 0,
    {
        InstructionIterator { bytes, pos: 0 }
    }

    /// The next instruction: `None` once fewer than two bytes are left,
    /// or when the next word is no instruction.
    pub fn next(&mut self) -> (r: Option<Instruction>)
        requires
            old(self).pos() <= old(self).bytes().len(),
        ensures
            final(self).bytes() == old(self).bytes(),
            final(self).pos() <= final(self).bytes().len(),
            ({
                let (b, p) = (old(self).bytes(), old(self).pos());
                if p + 2 <= b.len() {
                    &&& final(self).pos() == p + 2
                    &&& r == decode(word_of(b[p as int], b[p + 1int]))
                } else {
                    &&& final(self).pos() == p
                    &&& r is None
                }
            }),
    {
        if self.bytes.len() - self.pos < 2 {
            return None;
        }
        let hi = self.bytes[self.pos] as u16;
        let lo = self.bytes[self.pos + 1] as u16;
        self.pos = self.pos + 2;
        Instruction::parse(hi * 256 + lo)
    }
}

} // verus!
