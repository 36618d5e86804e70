//! Properties of the machine that span several instructions or calls.
use vstd::prelude::*;
use crate::display::all_clear;
use crate::instruction::Instruction;
use crate::system::{
    Fault,
    Machine,
    cell_of,
    execute_spec,
    hit,
    machine_wf,
    offset_from,
    outcome,
    ticked,
};

verus! {

/// The state after executing `prog` in order from `m`, with no random bytes
/// drawn.
#[verifier::opaque]
pub open spec fn exec_all(m: Machine, prog: Seq<Instruction>) -> Machine
    decreases prog.len(),
{
    if prog.len() == 0 {
        m
    } else {
        exec_all(execute_spec(m, prog[0], 0), prog.drop_first())
    }
}

/// One call instruction for each address, in order.
pub open spec fn calls(addrs: Seq<u16>) -> Seq<Instruction> {
    Seq::new(addrs.len(), |j: int| Instruction::Call(addrs[j]))
}

/// `n` return instructions.
pub open spec fn rets(n: nat) -> Seq<Instruction> {
    Seq::new(n, |j: int| Instruction::Ret)
}

/// The state after `k` timer ticks.
pub open spec fn ticks(m: Machine, k: nat) -> Machine
    decreases k,
{
    if k == 0 {
        m
    } else {
        ticked(ticks(m, (k - 1) as nat))
    }
}

/// Executing two programs one after the other is executing the joined
/// program.
pub proof fn lemma_exec_all_append(m: Machine, p: Seq<Instruction>, q: Seq<Instruction>)
    ensures
        exec_all(m, p + q) == exec_all(exec_all(m, p), q),
    decreases p.len(),
{
    reveal(exec_all);
    if p.len() > 0 {
        assert((p + q).drop_first() =~= p.drop_first() + q);
        assert((p + q)[0] == p[0]);
        lemma_exec_all_append(execute_spec(m, p[0], 0), p.drop_first(), q);
    } else {
        assert(p + q =~= q);
    }
}

/// Executing a one-instruction program is executing that instruction.
pub proof fn lemma_exec_one(m: Machine, ins: Instruction)
    ensures
        exec_all(m, seq![ins]) == execute_spec(m, ins, 0),
{
    reveal_with_fuel(exec_all, 2);
    assert(seq![ins].drop_first() =~= Seq::<Instruction>::empty());
}

/// Calls followed by as many returns, with room on the stack for all the
/// calls, come back to where they started: the program counter and the
/// stack pointer are restored and the stack below the start is untouched.
pub proof fn lemma_call_return_balance(m: Machine, addrs: Seq<u16>)
    requires
        m.stack.len() == 16,
        m.sp + addrs.len() <= 16,
    ensures
        ({
            let e = exec_all(m, calls(addrs) + rets(addrs.len()));
            &&& e.pc == m.pc
            &&& e.sp == m.sp
            &&& e.stack.len() == 16
            &&& forall|j: int| 0 <= j < m.sp ==> #[trigger] e.stack[j] == m.stack[j]
        }),
    decreases addrs.len(),
{
    let n = addrs.len();
    if n > 0 {
        let a0 = addrs[0];
        let rest = addrs.drop_first();
        let m1 = execute_spec(m, Instruction::Call(a0), 0);
        lemma_call_return_balance(m1, rest);
        let inner = calls(rest) + rets(rest.len());
        let whole = calls(addrs) + rets(n);
        assert(whole =~= seq![Instruction::Call(a0)] + inner + seq![Instruction::Ret]);
        lemma_exec_all_append(m, seq![Instruction::Call(a0)] + inner, seq![Instruction::Ret]);
        lemma_exec_all_append(m, seq![Instruction::Call(a0)], inner);
        lemma_exec_one(m, Instruction::Call(a0));
        let e2 = exec_all(m1, inner);
        lemma_exec_one(e2, Instruction::Ret);
        assert(e2.stack[m.sp as int] == m.pc);
    } else {
        reveal(exec_all);
        assert(calls(addrs) + rets(0) =~= Seq::<Instruction>::empty());
    }
}

/// Each call with room on the stack pushes one return address.
pub proof fn lemma_calls_depth(m: Machine, addrs: Seq<u16>)
    requires
        m.stack.len() == 16,
        m.sp + addrs.len() <= 16,
    ensures
        exec_all(m, calls(addrs)).sp == m.sp + addrs.len(),
        exec_all(m, calls(addrs)).stack.len() == 16,
    decreases addrs.len(),
{
    reveal(exec_all);
    if addrs.len() > 0 {
        let m1 = execute_spec(m, Instruction::Call(addrs[0]), 0);
        assert(calls(addrs).drop_first() =~= calls(addrs.drop_first()));
        lemma_calls_depth(m1, addrs.drop_first());
    }
}

/// From an empty stack, sixteen nested calls fill it, and one more call is
/// a stack overflow.
pub proof fn lemma_stack_overflow(m: Machine, addrs: Seq<u16>, a: u16)
    requires
        m.stack.len() == 16,
        m.sp == 0,
        addrs.len() == 16,
    ensures
        outcome(exec_all(m, calls(addrs)), Instruction::Call(a)) == Err::<(), Fault>(
            Fault::StackOverflow,
        ),
{
    lemma_calls_depth(m, addrs);
}

/// Drawing the same sprite twice at the same place restores the
/// framebuffer; the second draw reports a collision exactly when the sprite
/// covers a pixel that was unlit before the first, so always when it is
/// drawn on a clear screen with at least one set bit. VF must not be one of
/// the coordinate registers, since the first draw rewrites it.
pub proof fn lemma_draw_twice(m: Machine, x: u8, y: u8, n: u8)
    requires
        machine_wf(m),
        x < 15,
        y < 15,
        n < 16,
    ensures
        ({
            let d = Instruction::Drw(x, y, n);
            let m1 = execute_spec(m, d, 0);
            let m2 = execute_spec(m1, d, 0);
            let (x0, y0) = (m.regs[x as int], m.regs[y as int]);
            &&& m2.display == m.display
            &&& m2.regs[15] == if exists|k: int|
                0 <= k < 2048 && #[trigger] hit(m, x0, y0, n, k) && !m.display[k] {
                1u8
            } else {
                0u8
            }
            &&& all_clear(m.display) && (exists|k: int|
                0 <= k < 2048 && #[trigger] hit(m, x0, y0, n, k)) ==> m2.regs[15] == 1
        }),
{
    let d = Instruction::Drw(x, y, n);
    let m1 = execute_spec(m, d, 0);
    let m2 = execute_spec(m1, d, 0);
    let (x0, y0) = (m.regs[x as int], m.regs[y as int]);
    assert(m1.regs[x as int] == x0 && m1.regs[y as int] == y0);
    assert forall|k: int| 0 <= k < 2048 implies #[trigger] hit(m1, x0, y0, n, k) == hit(
        m,
        x0,
        y0,
        n,
        k,
    ) by {}
    assert(m2.display =~= m.display);
    if exists|k: int| 0 <= k < 2048 && #[trigger] hit(m, x0, y0, n, k) && !m.display[k] {
        let k = choose|k: int| 0 <= k < 2048 && #[trigger] hit(m, x0, y0, n, k) && !m.display[k];
        assert(hit(m1, x0, y0, n, k) && m1.display[k]);
    }
    if exists|k: int| 0 <= k < 2048 && #[trigger] hit(m1, x0, y0, n, k) && m1.display[k] {
        let k = choose|k: int| 0 <= k < 2048 && #[trigger] hit(m1, x0, y0, n, k) && m1.display[k];
        assert(hit(m, x0, y0, n, k) && !m.display[k]);
    }
}

/// Timers count down by one per tick, never below zero: after `k` ticks a
/// timer holds its start value less `k`, or zero once it got there.
pub proof fn lemma_timers_count_down(m: Machine, k: nat)
    ensures
        ticks(m, k).dt == if m.dt >= k {
            m.dt - k
        } else {
            0
        },
        ticks(m, k).st == if m.st >= k {
            m.st - k
        } else {
            0
        },
    decreases k,
{
    if k > 0 {
        lemma_timers_count_down(m, (k - 1) as nat);
    }
}

/// Storing registers 0 to x at I and loading them back from I, into any
/// register file, gives back their values.
pub proof fn lemma_dump_load(m: Machine, x: u8, regs: Seq<u8>)
    requires
        machine_wf(m),
        x < 16,
        regs.len() == 16,
    ensures
        ({
            let m1 = execute_spec(m, Instruction::LdStoreV0(x), 0);
            let m2 = execute_spec(Machine { regs, ..m1 }, Instruction::LdReadV0(x), 0);
            forall|k: int| 0 <= k <= x ==> #[trigger] m2.regs[k] == m.regs[k]
        }),
{
    let m1 = execute_spec(m, Instruction::LdStoreV0(x), 0);
    assert forall|k: int| 0 <= k <= x implies #[trigger] m1.mem[cell_of(m.i + k)] == m.regs[k] by {
        let a = cell_of(m.i + k);
        assert(offset_from(m.i, a) == k) by (nonlinear_arith)
            requires
                a == (m.i + k) % 4096,
                0 <= k < 16,
        ;
    }
}

} // verus!
