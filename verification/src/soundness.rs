use crate::builtins::{spec_binary, spec_unary};
use crate::byte_code::{ByteCode, OpCode};
use crate::optimizer::{
    bump_run_end, fold_binary, fold_binary_from, fold_easy, fold_easy_from, fold_iter,
    fold_round, fold_unary, fold_unary_from, is_binary_fold_at, is_unary_fold_at, spec_optimize,
};
use crate::semantics::{
    after_exit, exit_code_of, run_spec, step_spec, RunOutcome, Step, VmState,
};
use vstd::prelude::*;

verus! {

/// Code that only runs forward: no jump ever moves the program counter and
/// no reserved no-op stalls it. Bytecode emitted for a program without the
/// jump command has this shape.
pub open spec fn straight_line(code: Seq<ByteCode>) -> bool {
    forall|j: int|
        0 <= j < code.len() ==> (#[trigger] code[j]).op_code != OpCode::Jump && code[j].op_code
            != OpCode::NoOp
}

/// The state with the program counter replaced.
pub open spec fn with_pc(st: VmState, pc: int) -> VmState {
    VmState { pc, stack: st.stack, inputs: st.inputs, outputs: st.outputs }
}

/// Two states that agree on everything the machine's observer sees: the
/// stack, the remaining inputs and the emitted outputs. The program counter
/// is an address into one particular instruction sequence and is excluded.
pub open spec fn obs_eq(a: VmState, b: VmState) -> bool {
    a.stack == b.stack && a.inputs == b.inputs && a.outputs == b.outputs
}

/// Two run outcomes that cannot be told apart: same exit code or fault
/// message, and observably equal final states.
pub open spec fn same_observable(a: RunOutcome, b: RunOutcome) -> bool {
    match (a, b) {
        (RunOutcome::Done(e1, s1), RunOutcome::Done(e2, s2)) => e1 == e2 && obs_eq(s1, s2),
        (RunOutcome::Fault(m1, s1), RunOutcome::Fault(m2, s2)) => m1 == m2 && obs_eq(s1, s2),
        _ => false,
    }
}

/// What one instruction does, wherever it stands: the step semantics of a
/// one-instruction program.
pub open spec fn sl_step(instr: ByteCode, st: VmState) -> Step {
    step_spec(seq![instr], with_pc(st, 0))
}

/// Straight-line evaluation: execute the instructions left to right against
/// the state, ending with the exit code or the first fault.
pub open spec fn sl_run(code: Seq<ByteCode>, st: VmState) -> RunOutcome
    decreases code.len(),
{
    if code.len() == 0 {
        RunOutcome::Done(exit_code_of(st), after_exit(st))
    } else {
        match sl_step(code[0], st) {
            Step::Next(st2) => sl_run(code.drop_first(), st2),
            Step::Fault(m, st2) => RunOutcome::Fault(m, st2),
        }
    }
}

/// A single instruction treats observably equal states alike.
proof fn lemma_sl_step_obs(instr: ByteCode, a: VmState, b: VmState)
    requires
        obs_eq(a, b),
    ensures
        sl_step(instr, a) == sl_step(instr, b),
{
    assert(with_pc(a, 0) =~= with_pc(b, 0));
}

/// Straight-line evaluation treats observably equal states alike.
proof fn lemma_sl_run_obs(code: Seq<ByteCode>, a: VmState, b: VmState)
    requires
        obs_eq(a, b),
    ensures
        same_observable(sl_run(code, a), sl_run(code, b)),
    decreases code.len(),
{
    if code.len() > 0 {
        lemma_sl_step_obs(code[0], a, b);
        match sl_step(code[0], a) {
            Step::Next(a2) => {
                lemma_sl_run_obs(code.drop_first(), a2, a2);
            },
            Step::Fault(m, a2) => {},
        }
    }
}

/// Being observably the same is an equivalence between outcomes.
proof fn lemma_same_observable_trans(a: RunOutcome, b: RunOutcome, c: RunOutcome)
    requires
        same_observable(a, b),
        same_observable(b, c),
    ensures
        same_observable(a, c),
{
}

/// In straight-line code, one step of the full machine is one step of the
/// instruction at the program counter, and it advances the counter by one.
proof fn lemma_step_shift(code: Seq<ByteCode>, st: VmState)
    requires
        straight_line(code),
        0 <= st.pc < code.len(),
    ensures
        match step_spec(code, st) {
            Step::Next(s2) => s2.pc == st.pc + 1 && (match sl_step(code[st.pc], st) {
                Step::Next(t2) => obs_eq(s2, t2),
                Step::Fault(m, t2) => false,
            }),
            Step::Fault(m, s2) => (match sl_step(code[st.pc], st) {
                Step::Next(t2) => false,
                Step::Fault(m2, t2) => m2 == m && obs_eq(s2, t2),
            }),
        },
{
    let instr = code[st.pc];
    assert(instr.op_code != OpCode::Jump && instr.op_code != OpCode::NoOp);
    assert(seq![instr][0] == instr);
    if instr.op_code == OpCode::Func && st.stack.len() > 0 {
        let f = st.stack.last();
        let rest = st.stack.drop_last();
        crate::semantics::lemma_builtin_obs(
            f,
            VmState { pc: st.pc, stack: rest, inputs: st.inputs, outputs: st.outputs },
            VmState { pc: 0, stack: rest, inputs: st.inputs, outputs: st.outputs },
        );
    }
}

/// Straight-line code halts or faults within `code.len() - pc` steps.
proof fn lemma_sl_terminates(code: Seq<ByteCode>, st: VmState)
    requires
        straight_line(code),
        0 <= st.pc <= code.len(),
    ensures
        !(run_spec(code, st, (code.len() - st.pc) as nat) is Ongoing),
    decreases code.len() - st.pc,
{
    if st.pc < code.len() {
        lemma_step_shift(code, st);
        match step_spec(code, st) {
            Step::Next(s2) => {
                lemma_sl_terminates(code, s2);
            },
            Step::Fault(m, s2) => {},
        }
    }
}

/// For straight-line code, a terminal machine run is the straight-line
/// evaluation of the instructions from the program counter on.
proof fn lemma_run_is_sl(code: Seq<ByteCode>, st: VmState, fuel: nat)
    requires
        straight_line(code),
        0 <= st.pc <= code.len(),
        !(run_spec(code, st, fuel) is Ongoing),
    ensures
        same_observable(run_spec(code, st, fuel), sl_run(code.skip(st.pc), st)),
    decreases fuel,
{
    let suffix = code.skip(st.pc);
    if st.pc == code.len() {
        assert(suffix =~= Seq::<ByteCode>::empty());
    } else {
        lemma_step_shift(code, st);
        assert(suffix[0] == code[st.pc]);
        assert(suffix.drop_first() =~= code.skip(st.pc + 1));
        match step_spec(code, st) {
            Step::Next(s2) => {
                lemma_run_is_sl(code, s2, (fuel - 1) as nat);
                match sl_step(code[st.pc], st) {
                    Step::Next(t2) => {
                        lemma_sl_run_obs(code.skip(st.pc + 1), s2, t2);
                        lemma_same_observable_trans(
                            run_spec(code, s2, (fuel - 1) as nat),
                            sl_run(code.skip(st.pc + 1), s2),
                            sl_run(code.skip(st.pc + 1), t2),
                        );
                        assert(sl_run(suffix, st) == sl_run(code.skip(st.pc + 1), t2));
                    },
                    Step::Fault(m, t2) => {
                        assert(false);
                    },
                }
            },
            Step::Fault(m, s2) => {},
        }
    }
}

proof fn lemma_same_observable_sym(a: RunOutcome, b: RunOutcome)
    requires
        same_observable(a, b),
    ensures
        same_observable(b, a),
{
}

/// The unary folding pass preserves straight-line evaluation exactly: a
/// folded pattern computes in one push what its three instructions compute
/// in three steps.
proof fn lemma_fold_unary_sound(code: Seq<ByteCode>, i: int, st: VmState)
    requires
        0 <= i <= code.len(),
    ensures
        same_observable(sl_run(fold_unary_from(code, i), st), sl_run(code.skip(i), st)),
    decreases code.len() - i,
{
    let out = fold_unary_from(code, i);
    let suffix = code.skip(i);
    if i == code.len() {
        assert(suffix =~= Seq::<ByteCode>::empty());
    } else if is_unary_fold_at(code, i) {
        let v = code[i].arg;
        let f = code[i + 1].arg;
        let folded = ByteCode { op_code: OpCode::PushConst, arg: spec_unary(f, v) };
        let rest = fold_unary_from(code, i + 3);
        assert(out == seq![folded] + rest);
        assert(out[0] == folded);
        assert(out.drop_first() =~= rest);
        assert(seq![folded][0] == folded);
        let joined = VmState {
            pc: 1,
            stack: st.stack.push(spec_unary(f, v)),
            inputs: st.inputs,
            outputs: st.outputs,
        };
        assert(sl_step(folded, st) == Step::Next(joined));
        assert(sl_run(out, st) == sl_run(rest, joined));

        // The three source instructions, stepped one by one.
        assert(suffix[0] == code[i]);
        assert(suffix.drop_first() =~= code.skip(i + 1));
        assert(code.skip(i + 1)[0] == code[i + 1]);
        assert(code.skip(i + 1).drop_first() =~= code.skip(i + 2));
        assert(code.skip(i + 2)[0] == code[i + 2]);
        assert(code.skip(i + 2).drop_first() =~= code.skip(i + 3));
        assert(seq![code[i]][0] == code[i]);
        assert(seq![code[i + 1]][0] == code[i + 1]);
        assert(seq![code[i + 2]][0] == code[i + 2]);
        let st1 = VmState {
            pc: 1,
            stack: st.stack.push(v),
            inputs: st.inputs,
            outputs: st.outputs,
        };
        let st2 = VmState {
            pc: 1,
            stack: st.stack.push(v).push(f),
            inputs: st.inputs,
            outputs: st.outputs,
        };
        assert(sl_step(code[i], st) == Step::Next(st1));
        assert(sl_step(code[i + 1], st1) == Step::Next(st2));
        assert(st.stack.push(v).push(f).last() == f);
        assert(st.stack.push(v).push(f).drop_last() =~= st.stack.push(v));
        assert(st.stack.push(v).last() == v);
        assert(st.stack.push(v).drop_last() =~= st.stack);
        assert(sl_step(code[i + 2], st2) == Step::Next(joined));
        assert(sl_run(suffix, st) == sl_run(code.skip(i + 1), st1));
        assert(sl_run(code.skip(i + 1), st1) == sl_run(code.skip(i + 2), st2));
        assert(sl_run(code.skip(i + 2), st2) == sl_run(code.skip(i + 3), joined));

        lemma_fold_unary_sound(code, i + 3, joined);
    } else {
        let rest = fold_unary_from(code, i + 1);
        assert(out == seq![code[i]] + rest);
        assert(out[0] == code[i]);
        assert(out.drop_first() =~= rest);
        assert(suffix[0] == code[i]);
        assert(suffix.drop_first() =~= code.skip(i + 1));
        match sl_step(code[i], st) {
            Step::Next(t2) => {
                lemma_fold_unary_sound(code, i + 1, t2);
            },
            Step::Fault(m, t2) => {},
        }
    }
}

/// The binary folding pass preserves straight-line evaluation exactly: a
/// folded pattern computes in one push what its four instructions compute
/// in four steps, the earlier push being the bottom operand.
proof fn lemma_fold_binary_sound(code: Seq<ByteCode>, i: int, st: VmState)
    requires
        0 <= i <= code.len(),
    ensures
        same_observable(sl_run(fold_binary_from(code, i), st), sl_run(code.skip(i), st)),
    decreases code.len() - i,
{
    let out = fold_binary_from(code, i);
    let suffix = code.skip(i);
    if i == code.len() {
        assert(suffix =~= Seq::<ByteCode>::empty());
    } else if is_binary_fold_at(code, i) {
        let v1 = code[i].arg;
        let v0 = code[i + 1].arg;
        let f = code[i + 2].arg;
        let folded = ByteCode { op_code: OpCode::PushConst, arg: spec_binary(f, v1, v0) };
        let rest = fold_binary_from(code, i + 4);
        assert(out == seq![folded] + rest);
        assert(out[0] == folded);
        assert(out.drop_first() =~= rest);
        assert(seq![folded][0] == folded);
        let joined = VmState {
            pc: 1,
            stack: st.stack.push(spec_binary(f, v1, v0)),
            inputs: st.inputs,
            outputs: st.outputs,
        };
        assert(sl_step(folded, st) == Step::Next(joined));
        assert(sl_run(out, st) == sl_run(rest, joined));

        // The four source instructions, stepped one by one.
        assert(suffix[0] == code[i]);
        assert(suffix.drop_first() =~= code.skip(i + 1));
        assert(code.skip(i + 1)[0] == code[i + 1]);
        assert(code.skip(i + 1).drop_first() =~= code.skip(i + 2));
        assert(code.skip(i + 2)[0] == code[i + 2]);
        assert(code.skip(i + 2).drop_first() =~= code.skip(i + 3));
        assert(code.skip(i + 3)[0] == code[i + 3]);
        assert(code.skip(i + 3).drop_first() =~= code.skip(i + 4));
        assert(seq![code[i]][0] == code[i]);
        assert(seq![code[i + 1]][0] == code[i + 1]);
        assert(seq![code[i + 2]][0] == code[i + 2]);
        assert(seq![code[i + 3]][0] == code[i + 3]);
        let stack1 = st.stack.push(v1);
        let stack2 = st.stack.push(v1).push(v0);
        let stack3 = st.stack.push(v1).push(v0).push(f);
        let st1 = VmState { pc: 1, stack: stack1, inputs: st.inputs, outputs: st.outputs };
        let st2 = VmState { pc: 1, stack: stack2, inputs: st.inputs, outputs: st.outputs };
        let st3 = VmState { pc: 1, stack: stack3, inputs: st.inputs, outputs: st.outputs };
        assert(sl_step(code[i], st) == Step::Next(st1));
        assert(sl_step(code[i + 1], st1) == Step::Next(st2));
        assert(sl_step(code[i + 2], st2) == Step::Next(st3));
        assert(stack3.last() == f);
        assert(stack3.drop_last() =~= stack2);
        assert(stack2.last() == v0);
        assert(stack2.len() >= 2);
        assert(stack2[stack2.len() - 2] == v1);
        assert(stack2.drop_last() =~= stack1);
        assert(stack1.drop_last() =~= st.stack);
        assert(stack2.drop_last().drop_last() =~= st.stack);
        assert(sl_step(code[i + 3], st3) == Step::Next(joined));
        assert(sl_run(suffix, st) == sl_run(code.skip(i + 1), st1));
        assert(sl_run(code.skip(i + 1), st1) == sl_run(code.skip(i + 2), st2));
        assert(sl_run(code.skip(i + 2), st2) == sl_run(code.skip(i + 3), st3));
        assert(sl_run(code.skip(i + 3), st3) == sl_run(code.skip(i + 4), joined));

        lemma_fold_binary_sound(code, i + 4, joined);
    } else {
        let rest = fold_binary_from(code, i + 1);
        assert(out == seq![code[i]] + rest);
        assert(out[0] == code[i]);
        assert(out.drop_first() =~= rest);
        assert(suffix[0] == code[i]);
        assert(suffix.drop_first() =~= code.skip(i + 1));
        match sl_step(code[i], st) {
            Step::Next(t2) => {
                lemma_fold_binary_sound(code, i + 1, t2);
            },
            Step::Fault(m, t2) => {},
        }
    }
}

/// Running a chain of `Bump`s adds the chain's length to the value on top
/// of the stack, which stays within range.
proof fn lemma_bump_chain(code: Seq<ByteCode>, j: int, e: int, base: Seq<i32>, v: i32, st: VmState)
    requires
        0 <= j <= e <= code.len(),
        forall|m: int| j <= m < e ==> (#[trigger] code[m]).op_code == OpCode::Bump,
        st.stack == base.push(v),
        0 <= v,
        v + (e - j) <= i32::MAX,
    ensures
        same_observable(
            sl_run(code.skip(j), st),
            sl_run(
                code.skip(e),
                VmState {
                    pc: 1,
                    stack: base.push((v + (e - j)) as i32),
                    inputs: st.inputs,
                    outputs: st.outputs,
                },
            ),
        ),
    decreases e - j,
{
    let target = VmState {
        pc: 1,
        stack: base.push((v + (e - j)) as i32),
        inputs: st.inputs,
        outputs: st.outputs,
    };
    if j == e {
        assert(base.push((v + 0) as i32) == st.stack);
        assert(obs_eq(st, target));
        lemma_sl_run_obs(code.skip(j), st, target);
    } else {
        assert(code[j].op_code == OpCode::Bump);
        assert(code.skip(j)[0] == code[j]);
        assert(code.skip(j).drop_first() =~= code.skip(j + 1));
        assert(seq![code[j]][0] == code[j]);
        assert(st.stack.len() > 0);
        assert(st.stack.last() == v);
        assert(st.stack.drop_last() =~= base);
        let st1 = VmState {
            pc: 1,
            stack: base.push((v + 1) as i32),
            inputs: st.inputs,
            outputs: st.outputs,
        };
        assert(vstd::wrapping::i32_specs::wrapping_add(v, 1i32) == (v + 1) as i32);
        assert(sl_step(code[j], st) == Step::Next(st1));
        assert(sl_run(code.skip(j), st) == sl_run(code.skip(j + 1), st1));
        lemma_bump_chain(code, j + 1, e, base, (v + 1) as i32, st1);
        assert((v + 1) + (e - (j + 1)) == v + (e - j));
    }
}

/// The easy-constant pass preserves straight-line evaluation exactly: a
/// `Push0` and its bump chain leave the chain's length on the stack, as the
/// single folded push does.
proof fn lemma_fold_easy_sound(code: Seq<ByteCode>, i: int, st: VmState)
    requires
        0 <= i <= code.len(),
        code.len() < 0x7fff_ffff,
    ensures
        same_observable(sl_run(fold_easy_from(code, i), st), sl_run(code.skip(i), st)),
    decreases code.len() - i,
{
    let out = fold_easy_from(code, i);
    let suffix = code.skip(i);
    if i == code.len() {
        assert(suffix =~= Seq::<ByteCode>::empty());
    } else if code[i].op_code == OpCode::Push0 {
        let e = bump_run_end(code, i + 1);
        crate::optimizer::lemma_bump_run_end(code, i + 1);
        let k = e - i - 1;
        let rest = fold_easy_from(code, e);
        assert(suffix[0] == code[i]);
        assert(suffix.drop_first() =~= code.skip(i + 1));
        assert(seq![code[i]][0] == code[i]);
        let st0 = VmState {
            pc: 1,
            stack: st.stack.push(0i32),
            inputs: st.inputs,
            outputs: st.outputs,
        };
        assert(sl_step(code[i], st) == Step::Next(st0));
        assert(sl_run(suffix, st) == sl_run(code.skip(i + 1), st0));
        if k > 0 {
            let head = ByteCode { op_code: OpCode::PushConst, arg: k as i32 };
            assert(out == seq![head] + rest);
            assert(out[0] == head);
            assert(out.drop_first() =~= rest);
            assert(seq![head][0] == head);
            let joined = VmState {
                pc: 1,
                stack: st.stack.push(k as i32),
                inputs: st.inputs,
                outputs: st.outputs,
            };
            assert(sl_step(head, st) == Step::Next(joined));
            assert(sl_run(out, st) == sl_run(rest, joined));
            lemma_bump_chain(code, i + 1, e, st.stack, 0i32, st0);
            assert((0 + (e - (i + 1))) as i32 == k as i32);
            lemma_fold_easy_sound(code, e, joined);
            lemma_same_observable_sym(
                sl_run(code.skip(i + 1), st0),
                sl_run(code.skip(e), joined),
            );
            lemma_same_observable_trans(
                sl_run(rest, joined),
                sl_run(code.skip(e), joined),
                sl_run(code.skip(i + 1), st0),
            );
        } else {
            assert(e == i + 1);
            let head = code[i];
            assert(out == seq![head] + rest);
            assert(out[0] == head);
            assert(out.drop_first() =~= rest);
            assert(sl_run(out, st) == sl_run(rest, st0));
            lemma_fold_easy_sound(code, e, st0);
        }
    } else {
        let rest = fold_easy_from(code, i + 1);
        assert(out == seq![code[i]] + rest);
        assert(out[0] == code[i]);
        assert(out.drop_first() =~= rest);
        assert(suffix[0] == code[i]);
        assert(suffix.drop_first() =~= code.skip(i + 1));
        match sl_step(code[i], st) {
            Step::Next(t2) => {
                lemma_fold_easy_sound(code, i + 1, t2);
            },
            Step::Fault(m, t2) => {},
        }
    }
}

proof fn lemma_fold_easy_straight(code: Seq<ByteCode>, i: int)
    requires
        0 <= i <= code.len(),
        straight_line(code),
    ensures
        straight_line(fold_easy_from(code, i)),
    decreases code.len() - i,
{
    if i < code.len() {
        let out = fold_easy_from(code, i);
        if code[i].op_code == OpCode::Push0 {
            let e = bump_run_end(code, i + 1);
            crate::optimizer::lemma_bump_run_end(code, i + 1);
            lemma_fold_easy_straight(code, e);
            let rest = fold_easy_from(code, e);
            assert forall|j: int|
                0 <= j < out.len() implies (#[trigger] out[j]).op_code != OpCode::Jump
                && out[j].op_code != OpCode::NoOp by {
                if j > 0 {
                    assert(out[j] == rest[j - 1]);
                }
            };
        } else {
            lemma_fold_easy_straight(code, i + 1);
            let rest = fold_easy_from(code, i + 1);
            assert forall|j: int|
                0 <= j < out.len() implies (#[trigger] out[j]).op_code != OpCode::Jump
                && out[j].op_code != OpCode::NoOp by {
                if j == 0 {
                    assert(out[0] == code[i]);
                } else {
                    assert(out[j] == rest[j - 1]);
                }
            };
        }
    }
}

proof fn lemma_fold_unary_straight(code: Seq<ByteCode>, i: int)
    requires
        0 <= i <= code.len(),
        straight_line(code),
    ensures
        straight_line(fold_unary_from(code, i)),
    decreases code.len() - i,
{
    if i < code.len() {
        let out = fold_unary_from(code, i);
        let next = if is_unary_fold_at(code, i) {
            i + 3
        } else {
            i + 1
        };
        lemma_fold_unary_straight(code, next);
        let rest = fold_unary_from(code, next);
        assert forall|j: int|
            0 <= j < out.len() implies (#[trigger] out[j]).op_code != OpCode::Jump
            && out[j].op_code != OpCode::NoOp by {
            if j == 0 {
                if !is_unary_fold_at(code, i) {
                    assert(out[0] == code[i]);
                }
            } else {
                assert(out[j] == rest[j - 1]);
            }
        };
    }
}

proof fn lemma_fold_binary_straight(code: Seq<ByteCode>, i: int)
    requires
        0 <= i <= code.len(),
        straight_line(code),
    ensures
        straight_line(fold_binary_from(code, i)),
    decreases code.len() - i,
{
    if i < code.len() {
        let out = fold_binary_from(code, i);
        let next = if is_binary_fold_at(code, i) {
            i + 4
        } else {
            i + 1
        };
        lemma_fold_binary_straight(code, next);
        let rest = fold_binary_from(code, next);
        assert forall|j: int|
            0 <= j < out.len() implies (#[trigger] out[j]).op_code != OpCode::Jump
            && out[j].op_code != OpCode::NoOp by {
            if j == 0 {
                if !is_binary_fold_at(code, i) {
                    assert(out[0] == code[i]);
                }
            } else {
                assert(out[j] == rest[j - 1]);
            }
        };
    }
}

proof fn lemma_fold_round_sound(code: Seq<ByteCode>, st: VmState)
    ensures
        same_observable(sl_run(fold_round(code), st), sl_run(code, st)),
{
    assert(code.skip(0) =~= code);
    let c1 = if fold_unary(code).len() < code.len() {
        fold_unary(code)
    } else {
        code
    };
    assert(c1.skip(0) =~= c1);
    lemma_fold_unary_sound(code, 0, st);
    lemma_sl_run_obs(c1, st, st);
    assert(same_observable(sl_run(c1, st), sl_run(code, st)));
    lemma_fold_binary_sound(c1, 0, st);
    assert(same_observable(sl_run(fold_round(code), st), sl_run(c1, st)));
    lemma_same_observable_trans(sl_run(fold_round(code), st), sl_run(c1, st), sl_run(code, st));
}

proof fn lemma_fold_round_straight(code: Seq<ByteCode>)
    requires
        straight_line(code),
    ensures
        straight_line(fold_round(code)),
{
    lemma_fold_unary_straight(code, 0);
    let c1 = if fold_unary(code).len() < code.len() {
        fold_unary(code)
    } else {
        code
    };
    lemma_fold_binary_straight(c1, 0);
}

proof fn lemma_fold_iter_sound(code: Seq<ByteCode>, n: nat, st: VmState)
    ensures
        same_observable(sl_run(fold_iter(code, n), st), sl_run(code, st)),
    decreases n,
{
    if n == 0 {
        lemma_sl_run_obs(code, st, st);
    } else {
        lemma_fold_round_sound(code, st);
        let r = fold_round(code);
        if r.len() < code.len() {
            lemma_fold_iter_sound(r, (n - 1) as nat, st);
            lemma_same_observable_trans(
                sl_run(fold_iter(r, (n - 1) as nat), st),
                sl_run(r, st),
                sl_run(code, st),
            );
        }
    }
}

proof fn lemma_fold_iter_straight(code: Seq<ByteCode>, n: nat)
    requires
        straight_line(code),
    ensures
        straight_line(fold_iter(code, n)),
    decreases n,
{
    if n > 0 {
        lemma_fold_round_straight(code);
        let r = fold_round(code);
        if r.len() < code.len() {
            lemma_fold_iter_straight(r, (n - 1) as nat);
        }
    }
}

/// Bytecode generated from a syntax tree that holds no jump command is
/// straight-line: only jump nodes emit `Jump`, and nothing emits `NoOp`.
pub proof fn lemma_generate_straight_line(
    nodes: Seq<crate::shrek_parser::NodeV>,
    i: int,
    labels: Seq<Seq<char>>,
)
    requires
        0 <= i <= nodes.len(),
        crate::shrek_parser::spec_generate(nodes, i, labels) is Ok,
        forall|k: int|
            i <= k < nodes.len() ==> crate::shrek_parser::op_code_of((#[trigger] nodes[k]).0.2)
                != Some(OpCode::Jump),
    ensures
        straight_line(crate::shrek_parser::spec_generate(nodes, i, labels)->Ok_0.0),
    decreases nodes.len() - i,
{
    if i < nodes.len() {
        let t = nodes[i].0;
        let out = crate::shrek_parser::spec_generate(nodes, i, labels)->Ok_0.0;
        match t.0 {
            crate::shrek_parser::TokenType::Label => {
                let labels1 = crate::shrek_parser::spec_get_label_num(labels, t.2).1;
                lemma_generate_straight_line(nodes, i + 1, labels1);
                let rest = crate::shrek_parser::spec_generate(nodes, i + 1, labels1)->Ok_0.0;
                assert forall|j: int|
                    0 <= j < out.len() implies (#[trigger] out[j]).op_code != OpCode::Jump
                    && out[j].op_code != OpCode::NoOp by {
                    if j > 0 {
                        assert(out[j] == rest[j - 1]);
                    }
                };
            },
            crate::shrek_parser::TokenType::Command => {
                let op = crate::shrek_parser::op_code_of(t.2)->Some_0;
                assert(op != OpCode::Jump);
                lemma_generate_straight_line(nodes, i + 1, labels);
                let rest = crate::shrek_parser::spec_generate(nodes, i + 1, labels)->Ok_0.0;
                assert forall|j: int|
                    0 <= j < out.len() implies (#[trigger] out[j]).op_code != OpCode::Jump
                    && out[j].op_code != OpCode::NoOp by {
                    if j > 0 {
                        assert(out[j] == rest[j - 1]);
                    }
                };
            },
            _ => {
                lemma_generate_straight_line(nodes, i + 1, labels);
            },
        }
    }
}

/// Fold soundness for bytecode without jumps: whenever running the original
/// sequence from some start ends — in an exit code or in a fault — running
/// the optimized sequence from the same start ends the same way, with the
/// same emitted outputs, the same final stack, the same remaining inputs,
/// and the same exit code or fault message. Jump-carrying bytecode is
/// outside this lemma.
pub proof fn lemma_optimize_sound_straight_line(code: Seq<ByteCode>, st: VmState, fuel: nat)
    requires
        straight_line(code),
        code.len() < 0x7fff_ffff,
        st.pc == 0,
        !(run_spec(code, st, fuel) is Ongoing),
    ensures
        exists|n: nat|
            same_observable(
                run_spec(spec_optimize(code), st, n),
                run_spec(code, st, fuel),
            ),
{
    let opt = spec_optimize(code);
    lemma_fold_easy_straight(code, 0);
    lemma_fold_iter_straight(fold_easy(code), crate::optimizer::MAX_OPTIMIZE_LOOPS as nat);
    assert(straight_line(opt));

    // Both runs are their straight-line evaluations.
    lemma_run_is_sl(code, st, fuel);
    assert(code.skip(0) =~= code);
    lemma_sl_terminates(opt, st);
    let n = (opt.len() - 0) as nat;
    lemma_run_is_sl(opt, st, n);
    assert(opt.skip(0) =~= opt);

    // The optimizer preserves straight-line evaluation.
    lemma_fold_easy_sound(code, 0, st);
    lemma_fold_iter_sound(fold_easy(code), crate::optimizer::MAX_OPTIMIZE_LOOPS as nat, st);
    lemma_same_observable_trans(
        sl_run(opt, st),
        sl_run(fold_easy(code), st),
        sl_run(code, st),
    );

    // Chain the three equivalences into the claim.
    lemma_same_observable_sym(run_spec(code, st, fuel), sl_run(code, st));
    lemma_same_observable_trans(run_spec(opt, st, n), sl_run(opt, st), sl_run(code, st));
    lemma_same_observable_trans(
        run_spec(opt, st, n),
        sl_run(code, st),
        run_spec(code, st, fuel),
    );
}

} // verus!
