//! The machine state and the execution rules of each instruction.
use vstd::prelude::*;
use crate::display::{Display, all_clear};
use crate::instruction::{Instruction, decode, lemma_encode_decode, operands_fit};
use crate::keyboard::Keyboard;

verus! {

/// The built-in glyphs of the hexadecimal digits 0 to F, five rows each.
pub const FONT: [u8; 80] = [
    0xF0, 0x90, 0x90, 0x90, 0xF0,  // 0
    0x20, 0x60, 0x20, 0x20, 0x70,  // 1
    0xF0, 0x10, 0xF0, 0x80, 0xF0,  // 2
    0xF0, 0x10, 0xF0, 0x10, 0xF0,  // 3
    0x90, 0x90, 0xF0, 0x10, 0x10,  // 4
    0xF0, 0x80, 0xF0, 0x10, 0xF0,  // 5
    0xF0, 0x80, 0xF0, 0x90, 0xF0,  // 6
    0xF0, 0x10, 0x20, 0x40, 0x40,  // 7
    0xF0, 0x90, 0xF0, 0x90, 0xF0,  // 8
    0xF0, 0x90, 0xF0, 0x10, 0xF0,  // 9
    0xF0, 0x90, 0xF0, 0x90, 0x90,  // A
    0xE0, 0x90, 0xE0, 0x90, 0xE0,  // B
    0xF0, 0x80, 0x80, 0x80, 0xF0,  // C
    0xE0, 0x90, 0x90, 0x90, 0xE0,  // D
    0xF0, 0x80, 0xF0, 0x80, 0xF0,  // E
    0xF0, 0x80, 0xF0, 0x80, 0x80,  // F
];

/// Where a loaded program image begins in memory.
pub const PROGRAM_START: u16 = 0x200;

/// Depth of the return-address stack.
pub const STACK_DEPTH: u8 = 16;

/// Index of the flag register VF.
pub const FLAG: usize = 15;

/// What stops the machine.
#[derive(Debug, Copy, Clone, PartialEq, Eq, Structural)]
pub enum Fault {
    /// The word fetched at `pc` is no instruction.
    UnknownOpcode { opcode: u16, pc: u16 },
    /// A call with all 16 stack slots in use.
    StackOverflow,
}

/// The mathematical state of a machine: the fields of `System`, with its
/// arrays, framebuffer and key pad as sequences.
pub struct Machine {
    pub regs: Seq<u8>,
    pub i: u16,
    pub pc: u16,
    pub sp: u8,
    pub dt: u8,
    pub st: u8,
    pub stack: Seq<u16>,
    pub mem: Seq<u8>,
    pub display: Seq<bool>,
    pub keys: Seq<bool>,
    pub waiting: Option<u8>,
}

/// Whether a machine state has its sizes and its stack pointer in range,
/// and waits for a key, if it does, on behalf of a valid register.
pub open spec fn machine_wf(m: Machine) -> bool {
    &&& m.regs.len() == 16
    &&& m.stack.len() == 16
    &&& m.mem.len() == 4096
    &&& m.display.len() == 2048
    &&& m.keys.len() == 16
    &&& m.sp <= 16
    &&& m.waiting matches Some(x) ==> x < 16
}

/// The program counter moved on by one instruction, wrapping at 16 bits.
pub open spec fn advance(pc: u16) -> u16 {
    ((pc + 2) % 0x10000) as u16
}

/// The memory cell that address `a` names: addresses wrap at 4096.
pub open spec fn cell_of(a: int) -> int {
    a % 4096
}

/// A flag value: 1 for true, 0 for false.
pub open spec fn flag(b: bool) -> u8 {
    if b {
        1
    } else {
        0
    }
}

/// Bit `col` of a sprite row, counted from the most significant bit.
pub open spec fn bit_of(b: u8, col: int) -> bool {
    (b >> ((7 - col) as u8)) & 1 == 1
}

/// Whether key `v` exists and is pressed.
pub open spec fn key_down(m: Machine, v: u8) -> bool {
    v < 16 && m.keys[v as int]
}

/// `m` with the program counter moved past the next instruction when `c` holds.
pub open spec fn skip_if(m: Machine, c: bool) -> Machine {
    if c {
        Machine { pc: advance(m.pc), ..m }
    } else {
        m
    }
}

/// `m` with register `x` set to `v`.
pub open spec fn with_reg(m: Machine, x: int, v: u8) -> Machine {
    Machine { regs: m.regs.update(x, v), ..m }
}

/// `m` with register `x` set to `v` and then the flag register to `f`.
pub open spec fn with_reg_flag(m: Machine, x: int, v: u8, f: bool) -> Machine {
    Machine { regs: m.regs.update(x, v).update(15, flag(f)), ..m }
}

/// How far right of column `x0` framebuffer cell `k` lies, wrapping at 64.
pub open spec fn col_off(x0: u8, k: int) -> int {
    (k % 64 - x0) % 64
}

/// How far below row `y0` framebuffer cell `k` lies, wrapping at 32.
pub open spec fn row_off(y0: u8, k: int) -> int {
    (k / 64 - y0) % 32
}

/// Whether a sprite of `n` rows drawn at (x0, y0) from memory at I covers
/// framebuffer cell `k` with a set bit. Coordinates wrap: x modulo 64, y
/// modulo 32.
pub open spec fn hit(m: Machine, x0: u8, y0: u8, n: u8, k: int) -> bool {
    let col = col_off(x0, k);
    let row = row_off(y0, k);
    row < n && col < 8 && bit_of(m.mem[cell_of(m.i + row)], col)
}

/// Whether drawing that sprite turns a lit pixel off.
pub open spec fn collides(m: Machine, x0: u8, y0: u8, n: u8) -> bool {
    exists|k: int| 0 <= k < 2048 && #[trigger] hit(m, x0, y0, n, k) && m.display[k]
}

/// The framebuffer after XOR-plotting that sprite.
pub open spec fn drawn(m: Machine, x0: u8, y0: u8, n: u8) -> Seq<bool> {
    Seq::new(2048, |k: int| m.display[k] != hit(m, x0, y0, n, k))
}

/// How far memory cell `a` lies past address `i`, wrapping at 4096.
pub open spec fn offset_from(i: u16, a: int) -> int {
    (a - i) % 4096
}

/// Memory after the registers 0 to x are stored from address I on.
pub open spec fn stored(m: Machine, x: u8) -> Seq<u8> {
    Seq::new(
        4096,
        |a: int|
            {
                let off = offset_from(m.i, a);
                if off <= x {
                    m.regs[off]
                } else {
                    m.mem[a]
                }
            },
    )
}

/// Registers after 0 to x are loaded from memory at address I on.
pub open spec fn loaded(m: Machine, x: u8) -> Seq<u8> {
    Seq::new(16, |k: int| if k <= x { m.mem[cell_of(m.i + k)] } else { m.regs[k] })
}

/// Memory after the decimal digits of `v` are stored at I, I+1 and I+2.
pub open spec fn bcd(m: Machine, v: u8) -> Seq<u8> {
    m.mem.update(cell_of(m.i as int), (v / 100) as u8).update(
        cell_of(m.i + 1),
        ((v / 10) % 10) as u8,
    ).update(cell_of(m.i + 2), (v % 10) as u8)
}

/// Whether the set bit of the sprite at cell `k`, if there is one, comes
/// before row `r`, column `c` in drawing order.
pub open spec fn plotted(m: Machine, x0: u8, y0: u8, n: u8, k: int, r: int, c: int) -> bool {
    let col = col_off(x0, k);
    let row = row_off(y0, k);
    hit(m, x0, y0, n, k) && (row < r || (row == r && col < c))
}

/// The cell that row `row`, column `col` of a sprite at (x0, y0) lands on
/// has that row and column as its offsets from (x0, y0), and it is the
/// only cell that has them.
proof fn lemma_cell(x0: u8, y0: u8, row: int, col: int)
    requires
        0 <= row < 32,
        0 <= col < 64,
    ensures
        ({
            let k = ((y0 + row) % 32) * 64 + (x0 + col) % 64;
            &&& 0 <= k < 2048
            &&& col_off(x0, k) == col
            &&& row_off(y0, k) == row
            &&& forall|j: int|
                #![trigger col_off(x0, j), row_off(y0, j)]
                0 <= j < 2048 && col_off(x0, j) == col && row_off(y0, j) == row ==> j == k
        }),
{
    let px = (x0 + col) % 64;
    let py = (y0 + row) % 32;
    let k = py * 64 + px;
    assert(k % 64 == px && k / 64 == py) by (nonlinear_arith)
        requires
            k == py * 64 + px,
            0 <= px < 64,
            0 <= py,
    ;
    assert((px - x0) % 64 == col) by (nonlinear_arith)
        requires
            px == (x0 + col) % 64,
            0 <= col < 64,
    ;
    assert((py - y0) % 32 == row) by (nonlinear_arith)
        requires
            py == (y0 + row) % 32,
            0 <= row < 32,
    ;
    assert forall|j: int|
        #![trigger col_off(x0, j), row_off(y0, j)]
        0 <= j < 2048 && col_off(x0, j) == col && row_off(y0, j) == row implies j == k by {
        assert(j % 64 == px) by (nonlinear_arith)
            requires
                (j % 64 - x0) % 64 == col,
                px == (x0 + col) % 64,
                0 <= j,
        ;
        assert(j / 64 == py) by (nonlinear_arith)
            requires
                (j / 64 - y0) % 32 == row,
                py == (y0 + row) % 32,
                0 <= j < 2048,
        ;
        assert(j == (j / 64) * 64 + j % 64) by (nonlinear_arith);
    }
}

/// Whether executing `ins` on `m` is a stack overflow.
pub open spec fn overflows(m: Machine, ins: Instruction) -> bool {
    ins is Call && m.sp >= 16
}

/// The state after one of the register-arithmetic instructions. All
/// arithmetic wraps at 8 bits; VF is written last, so it wins when x is 15.
pub open spec fn alu_spec(m: Machine, ins: Instruction) -> Machine {
    match ins {
        Instruction::Ld(x, kk) => with_reg(m, x as int, kk),
        Instruction::AddReg(x, kk) => with_reg(m, x as int, ((m.regs[x as int] + kk) % 256) as u8),
        Instruction::LdReg(x, y) => with_reg(m, x as int, m.regs[y as int]),
        Instruction::Or(x, y) => with_reg(m, x as int, m.regs[x as int] | m.regs[y as int]),
        Instruction::And(x, y) => with_reg(m, x as int, m.regs[x as int] & m.regs[y as int]),
        Instruction::Xor(x, y) => with_reg(m, x as int, m.regs[x as int] ^ m.regs[y as int]),
        Instruction::AddCarry(x, y) => {
            let s = m.regs[x as int] + m.regs[y as int];
            with_reg_flag(m, x as int, (s % 256) as u8, s > 255)
        },
        Instruction::Sub(x, y) => {
            let (a, b) = (m.regs[x as int], m.regs[y as int]);
            with_reg_flag(m, x as int, ((a - b) % 256) as u8, a >= b)
        },
        Instruction::Subn(x, y) => {
            let (a, b) = (m.regs[x as int], m.regs[y as int]);
            with_reg_flag(m, x as int, ((b - a) % 256) as u8, b >= a)
        },
        Instruction::Shr(x, _) => {
            let a = m.regs[x as int];
            with_reg_flag(m, x as int, (a / 2) as u8, a % 2 == 1)
        },
        Instruction::Shl(x, _) => {
            let a = m.regs[x as int];
            with_reg_flag(m, x as int, ((a * 2) % 256) as u8, a >= 128)
        },
        _ => m,
    }
}

/// The state after executing `ins` on `m`, where `rnd` is the random byte
/// that a `Rnd` instruction draws. A stack overflow leaves `m` as it is.
pub open spec fn execute_spec(m: Machine, ins: Instruction, rnd: u8) -> Machine {
    match ins {
        Instruction::Sys(_) => m,
        Instruction::Cls => Machine { display: Seq::new(2048, |k: int| false), ..m },
        Instruction::Ret => if m.sp == 0 {
            m
        } else {
            Machine { sp: (m.sp - 1) as u8, pc: m.stack[m.sp - 1], ..m }
        },
        Instruction::Jp(a) => Machine { pc: a, ..m },
        Instruction::Call(a) => if m.sp >= 16 {
            m
        } else {
            Machine { stack: m.stack.update(m.sp as int, m.pc), sp: (m.sp + 1) as u8, pc: a, ..m }
        },
        Instruction::Se(x, kk) => skip_if(m, m.regs[x as int] == kk),
        Instruction::Sne(x, kk) => skip_if(m, m.regs[x as int] != kk),
        Instruction::SeReg(x, y) => skip_if(m, m.regs[x as int] == m.regs[y as int]),
        Instruction::SneReg(x, y) => skip_if(m, m.regs[x as int] != m.regs[y as int]),
        Instruction::Skp(x) => skip_if(m, key_down(m, m.regs[x as int])),
        Instruction::Sknp(x) => skip_if(m, !key_down(m, m.regs[x as int])),
        Instruction::Ld(..) | Instruction::AddReg(..) | Instruction::LdReg(..)
        | Instruction::Or(..) | Instruction::And(..) | Instruction::Xor(..)
        | Instruction::AddCarry(..) | Instruction::Sub(..) | Instruction::Subn(..)
        | Instruction::Shr(..) | Instruction::Shl(..) => alu_spec(m, ins),
        Instruction::LdI(a) => Machine { i: a, ..m },
        Instruction::JpV0(a) => Machine { pc: ((a + m.regs[0]) % 0x10000) as u16, ..m },
        Instruction::Rnd(x, kk) => with_reg(m, x as int, rnd & kk),
        Instruction::Drw(x, y, n) => {
            let (x0, y0) = (m.regs[x as int], m.regs[y as int]);
            Machine {
                display: drawn(m, x0, y0, n),
                regs: m.regs.update(15, flag(collides(m, x0, y0, n))),
                ..m
            }
        },
        Instruction::LdDelayTimerValue(x) => with_reg(m, x as int, m.dt),
        Instruction::LdKeypress(x) => Machine { waiting: Some(x), ..m },
        Instruction::LdDelayTimerReg(x) => Machine { dt: m.regs[x as int], ..m },
        Instruction::LdSoundTimer(x) => Machine { st: m.regs[x as int], ..m },
        Instruction::AddI(x) => Machine { i: ((m.i + m.regs[x as int]) % 0x10000) as u16, ..m },
        Instruction::LdSprite(x) => Machine { i: (m.regs[x as int] * 5) as u16, ..m },
        Instruction::LdBCD(x) => Machine { mem: bcd(m, m.regs[x as int]), ..m },
        Instruction::LdStoreV0(x) => Machine { mem: stored(m, x), ..m },
        Instruction::LdReadV0(x) => Machine { regs: loaded(m, x), ..m },
    }
}

/// The wrapping operations of `u8` compute modulo 256.
proof fn lemma_wrapping(a: u8, b: u8)
    ensures
        a.wrapping_add(b) == ((a + b) % 256) as u8,
        a.wrapping_sub(b) == ((a - b) % 256) as u8,
        (if a >= 128 { (a - 128) * 2 } else { a * 2 }) == ((a * 2) % 256) as u8,
{
}

/// One step of a run, taken apart from the rest.
proof fn lemma_run_unfold(m: Machine, n: nat, b: u8, tail: Seq<u8>)
    requires
        n > 0,
        m.waiting is None,
    ensures
        run_spec(m, n, seq![b] + tail) == if step_spec(m, b).1 is Err {
            step_spec(m, b)
        } else {
            run_spec(step_spec(m, b).0, (n - 1) as nat, tail)
        },
{
    assert((seq![b] + tail).drop_first() =~= tail);
    assert((seq![b] + tail)[0] == b);
}

/// Relies on rand::random: a byte drawn from the thread-local generator.
/// Nothing is known of its value.
#[verifier::external_body]
fn random_byte() -> (r: u8) {
    rand::random::<u8>()
}

/// The eight pixels of a sprite row, most significant bit first.
fn bits(val: u8) -> (r: [bool; 8])
    ensures
        forall|i: int| 0 <= i < 8 ==> r@[i] == bit_of(val, i),
{
    let mut result = [false; 8];
    let mut i: u8 = 0;
    while i < 8
        invariant
            i <= 8,
            forall|j: int| 0 <= j < i ==> result@[j] == bit_of(val, j),
        decreases 8 - i,
    {
        let mask: u8 = 0x80u8 >> i;
        let bit: u8 = (val & mask) >> (7 - i);
        let ghost sh: u8 = (7 - i) as u8;
        assert(((val & (0x80u8 >> i)) >> sh == 1u8) == ((val >> sh) & 1u8 == 1u8)) by (bit_vector)
            requires
                i < 8,
                sh == 7 - i,
        ;
        result[i as usize] = bit == 1;
        i = i + 1;
    }
    result
}


/// The word stored at address `pc`, high byte first.
pub open spec fn opcode_at(m: Machine, pc: u16) -> u16 {
    (m.mem[cell_of(pc as int)] * 256 + m.mem[cell_of(pc + 1)]) as u16
}

/// The outcome of executing `ins` on `m`.
pub open spec fn outcome(m: Machine, ins: Instruction) -> Result<(), Fault> {
    if overflows(m, ins) {
        Err(Fault::StackOverflow)
    } else {
        Ok(())
    }
}

/// The state and outcome of one fetch-decode-execute step, with `rnd` the
/// random byte for a `Rnd` instruction. While a wait-for-key is pending a
/// step does nothing.
#[verifier::opaque]
pub open spec fn step_spec(m: Machine, rnd: u8) -> (Machine, Result<(), Fault>) {
    if m.waiting is Some {
        (m, Ok(()))
    } else {
        let w = opcode_at(m, m.pc);
        let m1 = Machine { pc: advance(m.pc), ..m };
        match decode(w) {
            None => (m1, Err(Fault::UnknownOpcode { opcode: w, pc: m.pc })),
            Some(ins) => (execute_spec(m1, ins, rnd), outcome(m1, ins)),
        }
    }
}

/// The state and outcome of at most `n` steps, which stop early at a fault
/// or at a pending wait-for-key; `rnd[j]` is the random byte of step j.
pub open spec fn run_spec(m: Machine, n: nat, rnd: Seq<u8>) -> (Machine, Result<(), Fault>)
    decreases n,
{
    if n == 0 || m.waiting is Some {
        (m, Ok(()))
    } else {
        let (m2, r) = step_spec(m, rnd[0]);
        if r is Err {
            (m2, r)
        } else {
            run_spec(m2, (n - 1) as nat, rnd.drop_first())
        }
    }
}

/// Both timers one tick further down, stopping at zero.
pub open spec fn ticked(m: Machine) -> Machine {
    Machine {
        dt: if m.dt > 0 {
            (m.dt - 1) as u8
        } else {
            0
        },
        st: if m.st > 0 {
            (m.st - 1) as u8
        } else {
            0
        },
        ..m
    }
}

/// The state after key `code` goes down (`pressed`) or up. A key that goes
/// from up to down ends a pending wait-for-key: its code lands in the
/// register that waited.
pub open spec fn key_event(m: Machine, code: u8, pressed: bool) -> Machine {
    let m1 = Machine { keys: m.keys.update(code as int, pressed), ..m };
    match m.waiting {
        Some(x) => if pressed && !m.keys[code as int] {
            Machine { regs: m.regs.update(x as int, code), waiting: None, ..m1 }
        } else {
            m1
        },
        None => m1,
    }
}

/// Memory with a program image copied in at `PROGRAM_START`.
pub open spec fn with_program(mem: Seq<u8>, image: Seq<u8>) -> Seq<u8> {
    Seq::new(
        4096,
        |a: int|
            if 0x200 <= a < 0x200 + image.len() {
                image[a - 0x200]
            } else {
                mem[a]
            },
    )
}

/// The Chip-8 machine: registers, memory, stack, timers, framebuffer and
/// key pad.
#[derive(Copy, Clone)]
pub struct System {
    /// General purpose registers V0 to VF; VF doubles as the flag register.
    pub regs: [u8; 16],
    /// The address register I.
    pub i: u16,
    /// The program counter.
    pub pc: u16,
    /// The stack pointer: the number of return addresses on the stack.
    pub sp: u8,
    /// The delay timer.
    pub dt: u8,
    /// The sound timer.
    pub st: u8,
    /// The return-address stack.
    pub stack: [u16; 16],
    /// Memory; the font glyphs occupy its first 80 bytes.
    pub mem: [u8; 4096],
    /// The framebuffer.
    pub display: Display,
    /// The key pad.
    pub keyboard: Keyboard,
    /// The register that a pending wait-for-key instruction fills, if any.
    pub waiting: Option<u8>,
}

impl View for System {
    type V = Machine;

    open spec fn view(&self) -> Machine {
        Machine {
            regs: self.regs@,
            i: self.i,
            pc: self.pc,
            sp: self.sp,
            dt: self.dt,
            st: self.st,
            stack: self.stack@,
            mem: self.mem@,
            display: self.display@,
            keys: self.keyboard@,
            waiting: self.waiting,
        }
    }
}

impl System {
    /// Whether the stack pointer is in range and a pending wait-for-key
    /// names a valid register.
    pub open spec fn wf(&self) -> bool {
        &&& self.sp <= 16
        &&& self.waiting matches Some(x) ==> x < 16
    }

    /// A well-formed system has a well-formed model.
    pub proof fn lemma_wf(&self)
        requires
            self.wf(),
        ensures
            machine_wf(self@),
    {
        self.display.lemma_len();
        self.keyboard.lemma_len();
    }

    /// A mutable reference to register `id`.
    pub fn reg(&mut self, id: u8) -> (r: &mut u8)
        requires
            id < 16,
        ensures
            *r == old(self).regs@[id as int],
            final(self)@ == (Machine {
                regs: old(self)@.regs.update(id as int, *final(r)),
                ..old(self)@
            }),
    {
        &mut self.regs[id as usize]
    }

    /// Moves the program counter past one instruction, wrapping at 16 bits.
    pub fn inc_pc(&mut self)
        ensures
            final(self)@ == (Machine { pc: advance(old(self).pc), ..old(self)@ }),
    {
        self.pc = self.pc.wrapping_add(2);
    }

    /// Counts one more return address on the stack.
    pub fn inc_sp(&mut self)
        requires
            old(self).sp < 16,
        ensures
            final(self)@ == (Machine { sp: (old(self).sp + 1) as u8, ..old(self)@ }),
    {
        self.sp = self.sp + 1;
    }

    /// A machine with zeroed registers, stack, timers and memory but for
    /// the font glyphs at address 0, a clear framebuffer and no key pressed.
    pub fn new() -> (r: System)
        ensures
            r.wf(),
            r@.regs == Seq::new(16, |k: int| 0u8),
            r@.i == 0 && r@.pc == 0 && r@.sp == 0 && r@.dt == 0 && r@.st == 0,
            r@.stack == Seq::new(16, |k: int| 0u16),
            r@.mem == Seq::new(4096, |a: int| if a < 80 { FONT@[a] } else { 0u8 }),
            all_clear(r@.display),
            r@.keys == Seq::new(16, |k: int| false),
            r@.waiting is None,
    {
        let mut mem = [0u8; 4096];
        let mut k: usize = 0;
        while k < 80
            invariant
                k <= 80,
                forall|a: int| 0 <= a < 4096 ==> #[trigger] mem@[a] == if a < k { FONT@[a] } else { 0u8 },
            decreases 80 - k,
        {
            mem[k] = FONT[k];
            k = k + 1;
        }
        let r = System {
            regs: [0u8; 16],
            i: 0,
            pc: 0,
            sp: 0,
            dt: 0,
            st: 0,
            stack: [0u16; 16],
            mem: mem,
            display: Display::new(),
            keyboard: Keyboard::new(),
            waiting: None,
        };
        assert(r@.regs =~= Seq::new(16, |k: int| 0u8));
        assert(r@.stack =~= Seq::new(16, |k: int| 0u16));
        assert(r@.mem =~= Seq::new(4096, |a: int| if a < 80 { FONT@[a] } else { 0u8 }));
        r
    }

    /// XOR-plots the `n`-row sprite at memory address I onto the
    /// framebuffer at (regs[x], regs[y]) and sets VF to whether a lit pixel
    /// went unlit.
    fn draw(&mut self, x: u8, y: u8, n: u8)
        requires
            old(self).wf(),
            x < 16,
            y < 16,
            n < 16,
        ensures
            final(self)@ == execute_spec(old(self)@, Instruction::Drw(x, y, n), 0),
    {
        let ghost m0 = self@;
        proof {
            self.lemma_wf();
        }
        let x0 = self.regs[x as usize];
        let y0 = self.regs[y as usize];
        let mut collision = false;
        let mut row: u8 = 0;
        while row < n
            invariant
                row <= n,
                n < 16,
                self@ == (Machine { display: self@.display, ..m0 }),
                machine_wf(m0),
                self@.display.len() == 2048,
                x0 == m0.regs[x as int],
                y0 == m0.regs[y as int],
                forall|k: int|
                    0 <= k < 2048 ==> #[trigger] self@.display[k] == (m0.display[k] != plotted(
                        m0,
                        x0,
                        y0,
                        n,
                        k,
                        row as int,
                        0,
                    )),
                collision == exists|k: int|
                    0 <= k < 2048 && #[trigger] plotted(m0, x0, y0, n, k, row as int, 0)
                        && m0.display[k],
            decreases n - row,
        {
            let byte = self.mem[(self.i as usize + row as usize) % 4096];
            let line = bits(byte);
            let mut col: usize = 0;
            while col < 8
                invariant
                    row < n,
                    n < 16,
                    col <= 8,
                    self@ == (Machine { display: self@.display, ..m0 }),
                    machine_wf(m0),
                    self@.display.len() == 2048,
                    x0 == m0.regs[x as int],
                    y0 == m0.regs[y as int],
                    byte == m0.mem[cell_of(m0.i + row)],
                    forall|i: int| 0 <= i < 8 ==> line@[i] == bit_of(byte, i),
                    forall|k: int|
                        0 <= k < 2048 ==> #[trigger] self@.display[k] == (m0.display[k]
                            != plotted(m0, x0, y0, n, k, row as int, col as int)),
                    collision == exists|k: int|
                        0 <= k < 2048 && #[trigger] plotted(
                            m0,
                            x0,
                            y0,
                            n,
                            k,
                            row as int,
                            col as int,
                        ) && m0.display[k],
                decreases 8 - col,
            {
                let px = (x0 as usize + col) % 64;
                let py = (y0 as usize + row as usize) % 32;
                let ghost k0 = py * 64 + px;
                proof {
                    lemma_cell(x0, y0, row as int, col as int);
                }
                assert forall|k: int| 0 <= k < 2048 && k != k0 implies plotted(
                    m0,
                    x0,
                    y0,
                    n,
                    k,
                    row as int,
                    col + 1,
                ) == plotted(m0, x0, y0, n, k, row as int, col as int) by {}
                assert(hit(m0, x0, y0, n, k0) == line@[col as int]);
                assert(!plotted(m0, x0, y0, n, k0, row as int, col as int));
                let ghost before = collision;
                if line[col] {
                    let c = self.display.xor(px, py, true);
                    if c {
                        assert(plotted(m0, x0, y0, n, k0, row as int, col + 1) && m0.display[k0]);
                    }
                    collision = collision || c;
                }
                proof {
                    let c2 = col + 1;
                    if before {
                        let k = choose|k: int|
                            0 <= k < 2048 && #[trigger] plotted(
                                m0,
                                x0,
                                y0,
                                n,
                                k,
                                row as int,
                                col as int,
                            ) && m0.display[k];
                        assert(plotted(m0, x0, y0, n, k, row as int, c2));
                    }
                    if exists|k: int|
                        0 <= k < 2048 && #[trigger] plotted(m0, x0, y0, n, k, row as int, c2)
                            && m0.display[k] {
                        let k = choose|k: int|
                            0 <= k < 2048 && #[trigger] plotted(m0, x0, y0, n, k, row as int, c2)
                                && m0.display[k];
                        if k != k0 {
                            assert(plotted(m0, x0, y0, n, k, row as int, col as int));
                        }
                    }
                }
                col = col + 1;
            }
            assert forall|k: int| 0 <= k < 2048 implies plotted(
                m0,
                x0,
                y0,
                n,
                k,
                row as int,
                8,
            ) == plotted(m0, x0, y0, n, k, row + 1, 0) by {}
            proof {
                let r2 = row + 1;
                if collision {
                    let k = choose|k: int|
                        0 <= k < 2048 && #[trigger] plotted(m0, x0, y0, n, k, row as int, 8)
                            && m0.display[k];
                    assert(plotted(m0, x0, y0, n, k, r2, 0));
                }
                if exists|k: int|
                    0 <= k < 2048 && #[trigger] plotted(m0, x0, y0, n, k, r2, 0) && m0.display[k] {
                    let k = choose|k: int|
                        0 <= k < 2048 && #[trigger] plotted(m0, x0, y0, n, k, r2, 0)
                            && m0.display[k];
                    assert(plotted(m0, x0, y0, n, k, row as int, 8));
                }
            }
            row = row + 1;
        }
        self.regs[FLAG] = if collision {
            1
        } else {
            0
        };
        assert forall|k: int| 0 <= k < 2048 implies plotted(m0, x0, y0, n, k, n as int, 0) == hit(
            m0,
            x0,
            y0,
            n,
            k,
        ) by {}
        assert(self@.display =~= drawn(m0, x0, y0, n));
        assert(self@.regs =~= m0.regs.update(15, flag(collides(m0, x0, y0, n))));
    }

    /// Writes registers 0 to x to memory from address I on.
    fn store_regs(&mut self, x: u8)
        requires
            old(self).wf(),
            x < 16,
        ensures
            final(self)@ == (Machine { mem: stored(old(self)@, x), ..old(self)@ }),
    {
        let ghost m0 = self@;
        proof {
            self.lemma_wf();
        }
        let mut k: u8 = 0;
        while k <= x
            invariant
                x < 16,
                k <= x + 1,
                machine_wf(m0),
                self@ == (Machine { mem: self@.mem, ..m0 }),
                self@.mem.len() == 4096,
                forall|a: int|
                    0 <= a < 4096 ==> #[trigger] self@.mem[a] == if offset_from(m0.i, a) < k {
                        m0.regs[offset_from(m0.i, a)]
                    } else {
                        m0.mem[a]
                    },
            decreases x + 1 - k,
        {
            let a = (self.i as usize + k as usize) % 4096;
            assert(offset_from(m0.i, a as int) == k) by (nonlinear_arith)
                requires
                    a == (m0.i + k) % 4096,
                    0 <= k < 4096,
            ;
            assert forall|b: int|
                0 <= b < 4096 && #[trigger] offset_from(m0.i, b) == k implies b == a by {
                assert(b == (m0.i + k) % 4096) by (nonlinear_arith)
                    requires
                        (b - m0.i) % 4096 == k,
                        0 <= b < 4096,
                ;
            }
            self.mem[a] = self.regs[k as usize];
            k = k + 1;
        }
        assert(self@.mem =~= stored(m0, x));
    }

    /// Reads registers 0 to x from memory from address I on.
    fn load_regs(&mut self, x: u8)
        requires
            old(self).wf(),
            x < 16,
        ensures
            final(self)@ == (Machine { regs: loaded(old(self)@, x), ..old(self)@ }),
    {
        let ghost m0 = self@;
        proof {
            self.lemma_wf();
        }
        let mut k: u8 = 0;
        while k <= x
            invariant
                x < 16,
                k <= x + 1,
                machine_wf(m0),
                self@ == (Machine { regs: self@.regs, ..m0 }),
                self@.regs.len() == 16,
                forall|j: int|
                    0 <= j < 16 ==> #[trigger] self@.regs[j] == if j < k {
                        m0.mem[cell_of(m0.i + j)]
                    } else {
                        m0.regs[j]
                    },
            decreases x + 1 - k,
        {
            self.regs[k as usize] = self.mem[(self.i as usize + k as usize) % 4096];
            k = k + 1;
        }
        assert(self@.regs =~= loaded(m0, x));
    }

    /// Writes the hundreds, tens and ones digits of `v` to addresses I,
    /// I+1 and I+2.
    fn store_bcd(&mut self, v: u8)
        requires
            old(self).wf(),
        ensures
            final(self)@ == (Machine { mem: bcd(old(self)@, v), ..old(self)@ }),
    {
        let base = self.i as usize;
        self.mem[base % 4096] = v / 100;
        self.mem[(base + 1) % 4096] = (v / 10) % 10;
        self.mem[(base + 2) % 4096] = v % 10;
    }

    /// Whether key `v` exists and is pressed.
    fn key_down(&self, v: u8) -> (r: bool)
        ensures
            r == key_down(self@, v),
    {
        v < 16 && self.keyboard.is_pressed(v)
    }

    /// Moves past the next instruction when `c` holds.
    fn skip_if(&mut self, c: bool)
        ensures
            final(self)@ == skip_if(old(self)@, c),
    {
        if c {
            self.inc_pc();
        }
    }

    /// Sets register `x` to `v`.
    fn set_reg(&mut self, x: u8, v: u8)
        requires
            x < 16,
        ensures
            final(self)@ == with_reg(old(self)@, x as int, v),
    {
        self.regs[x as usize] = v;
    }

    /// Sets register `x` to `v`, then the flag register to `f`.
    fn set_reg_flag(&mut self, x: u8, v: u8, f: bool)
        requires
            x < 16,
        ensures
            final(self)@ == with_reg_flag(old(self)@, x as int, v, f),
    {
        self.regs[x as usize] = v;
        self.regs[FLAG] = if f {
            1
        } else {
            0
        };
    }

    /// Executes one of the register-arithmetic instructions.
    fn execute_alu(&mut self, instruction: Instruction)
        requires
            old(self).wf(),
            operands_fit(instruction),
        ensures
            final(self)@ == alu_spec(old(self)@, instruction),
    {
        match instruction {
            Instruction::Ld(x, kk) => self.set_reg(x, kk),
            Instruction::AddReg(x, kk) => {
                proof {
                    lemma_wrapping(self.regs@[x as int], kk);
                }
                let v = self.regs[x as usize].wrapping_add(kk);
                self.set_reg(x, v);
            },
            Instruction::LdReg(x, y) => {
                let v = self.regs[y as usize];
                self.set_reg(x, v);
            },
            Instruction::Or(x, y) => {
                let v = self.regs[x as usize] | self.regs[y as usize];
                self.set_reg(x, v);
            },
            Instruction::And(x, y) => {
                let v = self.regs[x as usize] & self.regs[y as usize];
                self.set_reg(x, v);
            },
            Instruction::Xor(x, y) => {
                let v = self.regs[x as usize] ^ self.regs[y as usize];
                self.set_reg(x, v);
            },
            Instruction::AddCarry(x, y) => {
                let (a, b) = (self.regs[x as usize], self.regs[y as usize]);
                proof {
                    lemma_wrapping(a, b);
                }
                self.set_reg_flag(x, a.wrapping_add(b), a as u16 + b as u16 > 255);
            },
            Instruction::Sub(x, y) => {
                let (a, b) = (self.regs[x as usize], self.regs[y as usize]);
                proof {
                    lemma_wrapping(a, b);
                }
                self.set_reg_flag(x, a.wrapping_sub(b), a >= b);
            },
            Instruction::Subn(x, y) => {
                let (a, b) = (self.regs[x as usize], self.regs[y as usize]);
                proof {
                    lemma_wrapping(b, a);
                }
                self.set_reg_flag(x, b.wrapping_sub(a), b >= a);
            },
            Instruction::Shr(x, _) => {
                let a = self.regs[x as usize];
                self.set_reg_flag(x, a / 2, a % 2 == 1);
            },
            Instruction::Shl(x, _) => {
                let a = self.regs[x as usize];
                proof {
                    lemma_wrapping(a, a);
                }
                let v = if a >= 128 {
                    (a - 128) * 2
                } else {
                    a * 2
                };
                self.set_reg_flag(x, v, a >= 128);
            },
            _ => {},
        }
    }

    /// Executes one instruction; `random` is the byte that `Rnd` masks.
    /// Fails only on a call with a full stack, and then changes nothing.
    pub fn execute(&mut self, instruction: Instruction, random: u8) -> (r: Result<(), Fault>)
        requires
            old(self).wf(),
            operands_fit(instruction),
        ensures
            final(self).wf(),
            final(self)@ == execute_spec(old(self)@, instruction, random),
            r == if overflows(old(self)@, instruction) {
                Err::<(), Fault>(Fault::StackOverflow)
            } else {
                Ok(())
            },
    {
        proof {
            self.lemma_wf();
        }
        match instruction {
            Instruction::Sys(_) => {},
            Instruction::Cls => {
                self.display.clear_screen();
                assert(self@.display =~= Seq::new(2048, |k: int| false));
            },
            Instruction::Ret => {
                if self.sp != 0 {
                    self.pc = self.stack[self.sp as usize - 1];
                    self.sp = self.sp - 1;
                }
            },
            Instruction::Jp(a) => {
                self.pc = a;
            },
            Instruction::Call(a) => {
                if self.sp >= STACK_DEPTH {
                    return Err(Fault::StackOverflow);
                }
                self.stack[self.sp as usize] = self.pc;
                self.inc_sp();
                self.pc = a;
            },
            Instruction::Se(x, kk) => {
                let c = self.regs[x as usize] == kk;
                self.skip_if(c);
            },
            Instruction::Sne(x, kk) => {
                let c = self.regs[x as usize] != kk;
                self.skip_if(c);
            },
            Instruction::SeReg(x, y) => {
                let c = self.regs[x as usize] == self.regs[y as usize];
                self.skip_if(c);
            },
            Instruction::SneReg(x, y) => {
                let c = self.regs[x as usize] != self.regs[y as usize];
                self.skip_if(c);
            },
            Instruction::Skp(x) => {
                let c = self.key_down(self.regs[x as usize]);
                self.skip_if(c);
            },
            Instruction::Sknp(x) => {
                let c = !self.key_down(self.regs[x as usize]);
                self.skip_if(c);
            },
            Instruction::Ld(..) | Instruction::AddReg(..) | Instruction::LdReg(..)
            | Instruction::Or(..) | Instruction::And(..) | Instruction::Xor(..)
            | Instruction::AddCarry(..) | Instruction::Sub(..) | Instruction::Subn(..)
            | Instruction::Shr(..) | Instruction::Shl(..) => {
                self.execute_alu(instruction);
            },
            Instruction::LdI(a) => {
                self.i = a;
            },
            Instruction::JpV0(a) => {
                self.pc = a.wrapping_add(self.regs[0] as u16);
            },
            Instruction::Rnd(x, kk) => {
                self.regs[x as usize] = random & kk;
            },
            Instruction::Drw(x, y, n) => {
                self.draw(x, y, n);
            },
            Instruction::LdDelayTimerValue(x) => {
                self.regs[x as usize] = self.dt;
            },
            Instruction::LdKeypress(x) => {
                self.waiting = Some(x);
            },
            Instruction::LdDelayTimerReg(x) => {
                self.dt = self.regs[x as usize];
            },
            Instruction::LdSoundTimer(x) => {
                self.st = self.regs[x as usize];
            },
            Instruction::AddI(x) => {
                self.i = self.i.wrapping_add(self.regs[x as usize] as u16);
            },
            Instruction::LdSprite(x) => {
                self.i = self.regs[x as usize] as u16 * 5;
            },
            Instruction::LdBCD(x) => {
                let v = self.regs[x as usize];
                self.store_bcd(v);
            },
            Instruction::LdStoreV0(x) => {
                self.store_regs(x);
            },
            Instruction::LdReadV0(x) => {
                self.load_regs(x);
            },
        }
        Ok(())
    }

    /// Reads the word at the program counter, moves the program counter on
    /// and decodes the word.
    pub fn fetch_instr(&mut self) -> (r: Option<Instruction>)
        ensures
            final(self)@ == (Machine { pc: advance(old(self).pc), ..old(self)@ }),
            r == decode(opcode_at(old(self)@, old(self).pc)),
    {
        let opcode = self.fetch_word();
        self.inc_pc();
        Instruction::parse(opcode)
    }

    /// The word at the program counter, high byte first.
    fn fetch_word(&self) -> (r: u16)
        ensures
            r == opcode_at(self@, self.pc),
    {
        let hi = self.mem[self.pc as usize % 4096] as u16;
        let lo = self.mem[(self.pc as usize + 1) % 4096] as u16;
        hi * 256 + lo
    }

    /// One fetch-decode-execute step, with `random` as the byte that a
    /// `Rnd` instruction masks. Does nothing while a wait-for-key is
    /// pending.
    pub fn step_with(&mut self, random: u8) -> (r: Result<(), Fault>)
        requires
            old(self).wf(),
        ensures
            final(self).wf(),
            (final(self)@, r) == step_spec(old(self)@, random),
    {
        proof {
            reveal(step_spec);
        }
        if self.waiting.is_some() {
            return Ok(());
        }
        let pc = self.pc;
        let opcode = self.fetch_word();
        self.inc_pc();
        match Instruction::parse(opcode) {
            None => Err(Fault::UnknownOpcode { opcode, pc }),
            Some(ins) => {
                proof {
                    lemma_encode_decode(opcode);
                }
                self.execute(ins, random)
            },
        }
    }

    /// One fetch-decode-execute step, drawing a random byte for `Rnd`.
    pub fn step(&mut self) -> (r: Result<(), Fault>)
        requires
            old(self).wf(),
        ensures
            final(self).wf(),
            exists|b: u8| (final(self)@, r) == step_spec(old(self)@, b),
    {
        let b = random_byte();
        self.step_with(b)
    }

    /// Executes one instruction, drawing a random byte for `Rnd`.
    pub fn apply(&mut self, instruction: Instruction) -> (r: Result<(), Fault>)
        requires
            old(self).wf(),
            operands_fit(instruction),
        ensures
            final(self).wf(),
            exists|b: u8| final(self)@ == execute_spec(old(self)@, instruction, b),
            r == outcome(old(self)@, instruction),
    {
        let b = random_byte();
        self.execute(instruction, b)
    }

    /// Counts both timers down by one, stopping at zero.
    pub fn tick_timers(&mut self)
        ensures
            final(self)@ == ticked(old(self)@),
    {
        if self.dt > 0 {
            self.dt = self.dt - 1;
        }
        if self.st > 0 {
            self.st = self.st - 1;
        }
    }

    /// Reports key `code` going down (`pressed`) or up.
    pub fn set_key(&mut self, code: u8, pressed: bool)
        requires
            old(self).wf(),
            code < 16,
        ensures
            final(self).wf(),
            final(self)@ == key_event(old(self)@, code, pressed),
    {
        let was = self.keyboard.is_pressed(code);
        if pressed {
            self.keyboard.down(code);
        } else {
            self.keyboard.up(code);
        }
        if let Some(x) = self.waiting {
            if pressed && !was {
                self.regs[x as usize] = code;
                self.waiting = None;
            }
        }
    }

    /// Copies a program image into memory at `PROGRAM_START`.
    pub fn load(&mut self, image: &[u8])
        requires
            image@.len() <= 0xe00,
        ensures
            final(self)@ == (Machine { mem: with_program(old(self)@.mem, image@), ..old(self)@ }),
    {
        let ghost m0 = self@;
        let mut k: usize = 0;
        while k < image.len()
            invariant
                image@.len() <= 0xe00,
                k <= image@.len(),
                self@ == (Machine { mem: self@.mem, ..m0 }),
                self@.mem.len() == 4096,
                m0.mem.len() == 4096,
                forall|a: int|
                    0 <= a < 4096 ==> #[trigger] self@.mem[a] == if 0x200 <= a < 0x200 + k {
                        image@[a - 0x200]
                    } else {
                        m0.mem[a]
                    },
            decreases image@.len() - k,
        {
            self.mem[0x200 + k] = image[k];
            k = k + 1;
        }
        assert(self@.mem =~= with_program(m0.mem, image@));
    }

    /// The framebuffer, for rendering.
    pub fn framebuffer(&self) -> (r: &Display)
        ensures
            r@ == self@.display,
    {
        &self.display
    }

    /// Runs the program from `PROGRAM_START` for at most `max_steps` steps;
    /// stops early at a fault, returned, or at a pending wait-for-key.
    pub fn run(&mut self, max_steps: u64) -> (r: Result<(), Fault>)
        requires
            old(self).wf(),
        ensures
            final(self).wf(),
            exists|rnd: Seq<u8>|
                rnd.len() == max_steps && (final(self)@, r) == run_spec(
                    (Machine { pc: PROGRAM_START, ..old(self)@ }),
                    max_steps as nat,
                    rnd,
                ),
    {
        self.pc = PROGRAM_START;
        let ghost start = self@;
        let ghost drawn: Seq<u8> = Seq::empty();
        let mut k: u64 = 0;
        while k < max_steps && self.waiting.is_none()
            invariant
                self.wf(),
                k <= max_steps,
                drawn.len() == k,
                start == (Machine { pc: PROGRAM_START, ..old(self)@ }),
                forall|tail: Seq<u8>|
                    tail.len() == max_steps - k ==> #[trigger] run_spec(
                        start,
                        max_steps as nat,
                        drawn + tail,
                    ) == run_spec(self@, (max_steps - k) as nat, tail),
            decreases max_steps - k,
        {
            let ghost cur = self@;
            let b = random_byte();
            let res = self.step_with(b);
            assert forall|tail: Seq<u8>| tail.len() == max_steps - k - 1 implies #[trigger] run_spec(
                start,
                max_steps as nat,
                drawn.push(b) + tail,
            ) == if res is Err {
                (self@, res)
            } else {
                run_spec(self@, (max_steps - k - 1) as nat, tail)
            } by {
                let t2 = seq![b] + tail;
                assert(drawn.push(b) + tail =~= drawn + t2);
                lemma_run_unfold(cur, (max_steps - k) as nat, b, tail);
            }
            proof {
                drawn = drawn.push(b);
            }
            k = k + 1;
            if res.is_err() {
                let ghost rest = Seq::new((max_steps - k) as nat, |j: int| 0u8);
                assert(run_spec(start, max_steps as nat, drawn + rest) == (self@, res));
                assert((drawn + rest).len() == max_steps);
                assert(start == (Machine { pc: PROGRAM_START, ..old(self)@ }));
                return res;
            }
        }
        let ghost rest = Seq::new((max_steps - k) as nat, |j: int| 0u8);
        assert(run_spec(start, max_steps as nat, drawn + rest) == run_spec(
            self@,
            (max_steps - k) as nat,
            rest,
        ));
        assert((drawn + rest).len() == max_steps);
        Ok(())
    }
}

} // verus!
