use crate::builtins::{is_unary_selector, spec_binary, spec_unary, ops};
use crate::byte_code::{ByteCode, OpCode};
use vstd::prelude::*;

verus! {

/// The observable state of the virtual machine: the instruction pointer, the
/// value stack, the input lines not yet consumed, and the values emitted by
/// the output builtin so far.
#[verifier::ext_equal]
pub ghost struct VmState {
    pub pc: int,
    pub stack: Seq<i32>,
    pub inputs: Seq<Seq<u8>>,
    pub outputs: Seq<i32>,
}

/// Effect of one builtin dispatch on the machine state.
pub ghost enum BuiltinOutcome {
    Success(VmState),
    Fault(Seq<char>),
}

/// Effect of executing one instruction.
pub ghost enum Step {
    Next(VmState),
    Fault(Seq<char>, VmState),
}

/// Outcome of running the machine with a bounded number of steps.
pub ghost enum RunOutcome {
    Ongoing(VmState),
    Done(i32, VmState),
    Fault(Seq<char>, VmState),
}

/// Whether `f` selects one of the five binary arithmetic builtins.
pub open spec fn is_binary_selector(f: i32) -> bool {
    f == ops::ADD || f == ops::SUBTRACT || f == ops::MULTIPLY || f == ops::DIVIDE || f
        == ops::MOD_
}

/// An input line with its trailing line terminator removed: a final
/// carriage-return-and-newline pair counts as one terminator, as does a
/// final newline alone. Every other byte stays, trailing whitespace
/// included — it is data.
pub open spec fn strip_line_terminator(line: Seq<u8>) -> Seq<u8> {
    if line.len() >= 2 && line[line.len() - 2] == 13 && line[line.len() - 1] == 10 {
        line.take(line.len() - 2)
    } else if line.len() >= 1 && line[line.len() - 1] == 10 {
        line.take(line.len() - 1)
    } else {
        line
    }
}

/// The values an input line leaves on the stack, topmost last: a zero
/// terminator, then the line's bytes in reverse, so that popping yields the
/// characters left to right.
pub open spec fn input_pushes(line: Seq<u8>) -> Seq<i32> {
    seq![0i32] + strip_line_terminator(line).reverse().map_values(|b: u8| b as i32)
}

/// The depth-fault message of a binary builtin.
pub open spec fn binary_depth_msg(f: i32) -> Seq<char> {
    if f == ops::ADD {
        "add requires 2 items on the stack"@
    } else if f == ops::SUBTRACT {
        "subtract requires 2 items on the stack"@
    } else if f == ops::MULTIPLY {
        "multiply requires 2 items on the stack"@
    } else if f == ops::DIVIDE {
        "divide requires 2 items on the stack"@
    } else {
        "mod requires 2 items on the stack"@
    }
}

/// The depth-fault message of a unary builtin.
pub open spec fn unary_depth_msg(f: i32) -> Seq<char> {
    if f == ops::DOUBLE_VAL {
        "double_val requires 1 item on the stack"@
    } else if f == ops::NEGATE {
        "negate requires 1 item on the stack"@
    } else {
        "square requires 1 item on the stack"@
    }
}

/// What one builtin dispatch does to the state. The program counter is not
/// touched here; the `Func` instruction advances it.
pub open spec fn spec_builtin(f: i32, st: VmState) -> BuiltinOutcome {
    if f == ops::INPUT {
        if st.inputs.len() == 0 {
            BuiltinOutcome::Fault("Error reading input"@)
        } else {
            BuiltinOutcome::Success(
                VmState {
                    pc: st.pc,
                    stack: st.stack + input_pushes(st.inputs.first()),
                    inputs: st.inputs.drop_first(),
                    outputs: st.outputs,
                },
            )
        }
    } else if f == ops::OUTPUT {
        if st.stack.len() == 0 {
            BuiltinOutcome::Fault("cannot peek: stack is empty"@)
        } else {
            BuiltinOutcome::Success(
                VmState {
                    pc: st.pc,
                    stack: st.stack,
                    inputs: st.inputs,
                    outputs: st.outputs.push(st.stack.last()),
                },
            )
        }
    } else if is_binary_selector(f) {
        if st.stack.len() < 2 {
            BuiltinOutcome::Fault(binary_depth_msg(f))
        } else if f == ops::DIVIDE && st.stack.last() == 0 {
            BuiltinOutcome::Fault("division by zero"@)
        } else if f == ops::MOD_ && st.stack.last() == 0 {
            BuiltinOutcome::Fault("modulo by zero"@)
        } else {
            BuiltinOutcome::Success(
                VmState {
                    pc: st.pc,
                    stack: st.stack.drop_last().drop_last().push(
                        spec_binary(f, st.stack[st.stack.len() - 2], st.stack.last()),
                    ),
                    inputs: st.inputs,
                    outputs: st.outputs,
                },
            )
        }
    } else if is_unary_selector(f) {
        if st.stack.len() < 1 {
            BuiltinOutcome::Fault(unary_depth_msg(f))
        } else {
            BuiltinOutcome::Success(
                VmState {
                    pc: st.pc,
                    stack: st.stack.drop_last().push(spec_unary(f, st.stack.last())),
                    inputs: st.inputs,
                    outputs: st.outputs,
                },
            )
        }
    } else if f == ops::CLONE {
        if st.stack.len() < 1 {
            BuiltinOutcome::Fault("clone requires 1 item on the stack"@)
        } else {
            BuiltinOutcome::Success(
                VmState {
                    pc: st.pc,
                    stack: st.stack.push(st.stack.last()),
                    inputs: st.inputs,
                    outputs: st.outputs,
                },
            )
        }
    } else {
        BuiltinOutcome::Fault("invalid builtin function number"@)
    }
}

/// A builtin never reads the program counter: on states that agree on
/// stack, inputs and outputs it takes the same branch and computes the same
/// stack, inputs, outputs and message.
pub proof fn lemma_builtin_obs(f: i32, a: VmState, b: VmState)
    requires
        a.stack == b.stack,
        a.inputs == b.inputs,
        a.outputs == b.outputs,
    ensures
        match (spec_builtin(f, a), spec_builtin(f, b)) {
            (BuiltinOutcome::Success(x), BuiltinOutcome::Success(y)) => x.stack == y.stack
                && x.inputs == y.inputs && x.outputs == y.outputs,
            (BuiltinOutcome::Fault(m1), BuiltinOutcome::Fault(m2)) => m1 == m2,
            _ => false,
        },
{
}

/// Index of the `Label` instruction with identifier `label` that the jump
/// table maps it to: the last such instruction in the sequence.
pub open spec fn spec_find_label(code: Seq<ByteCode>, label: i32) -> Option<int>
    decreases code.len(),
{
    if code.len() == 0 {
        None
    } else if code.last().op_code == OpCode::Label && code.last().arg == label {
        Some(code.len() - 1)
    } else {
        spec_find_label(code.drop_last(), label)
    }
}

/// A found label stands within the sequence and is a `Label` instruction
/// with the sought identifier.
pub proof fn lemma_find_label_bounds(code: Seq<ByteCode>, label: i32)
    requires
        spec_find_label(code, label) is Some,
    ensures
        0 <= spec_find_label(code, label)->Some_0 < code.len(),
        code[spec_find_label(code, label)->Some_0].op_code == OpCode::Label,
        code[spec_find_label(code, label)->Some_0].arg == label,
    decreases code.len(),
{
    if code.len() > 0 && !(code.last().op_code == OpCode::Label && code.last().arg == label) {
        lemma_find_label_bounds(code.drop_last(), label);
    }
}

/// What the instruction at `st.pc` does to the state.
pub open spec fn step_spec(code: Seq<ByteCode>, st: VmState) -> Step
    recommends
        0 <= st.pc < code.len(),
{
    let instr = code[st.pc];
    match instr.op_code {
        OpCode::NoOp => Step::Next(st),
        OpCode::Label => Step::Next(
            VmState { pc: st.pc + 1, stack: st.stack, inputs: st.inputs, outputs: st.outputs },
        ),
        OpCode::Push0 => Step::Next(
            VmState {
                pc: st.pc + 1,
                stack: st.stack.push(0i32),
                inputs: st.inputs,
                outputs: st.outputs,
            },
        ),
        OpCode::Pop => if st.stack.len() == 0 {
            Step::Fault("cannot pop: stack is empty"@, st)
        } else {
            Step::Next(
                VmState {
                    pc: st.pc + 1,
                    stack: st.stack.drop_last(),
                    inputs: st.inputs,
                    outputs: st.outputs,
                },
            )
        },
        OpCode::Bump => if st.stack.len() == 0 {
            Step::Fault("cannot pop: stack is empty"@, st)
        } else {
            Step::Next(
                VmState {
                    pc: st.pc + 1,
                    stack: st.stack.drop_last().push(
                        vstd::wrapping::i32_specs::wrapping_add(st.stack.last(), 1i32),
                    ),
                    inputs: st.inputs,
                    outputs: st.outputs,
                },
            )
        },
        OpCode::Func => if st.stack.len() == 0 {
            Step::Fault("cannot pop: stack is empty"@, st)
        } else {
            let f = st.stack.last();
            let st1 = VmState {
                pc: st.pc,
                stack: st.stack.drop_last(),
                inputs: st.inputs,
                outputs: st.outputs,
            };
            match spec_builtin(f, st1) {
                BuiltinOutcome::Fault(m) => Step::Fault(m, st1),
                BuiltinOutcome::Success(st2) => Step::Next(
                    VmState {
                        pc: st.pc + 1,
                        stack: st2.stack,
                        inputs: st2.inputs,
                        outputs: st2.outputs,
                    },
                ),
            }
        },
        OpCode::Jump => if st.stack.len() == 0 {
            Step::Fault("cannot pop: stack is empty"@, st)
        } else {
            let jump_type = st.stack.last();
            let st1 = VmState {
                pc: st.pc,
                stack: st.stack.drop_last(),
                inputs: st.inputs,
                outputs: st.outputs,
            };
            if jump_type == 0 {
                jump_to(code, st1, instr.arg)
            } else if jump_type == 1 {
                if st1.stack.len() == 0 {
                    Step::Fault("cannot peek: stack is empty"@, st1)
                } else if st1.stack.last() == 0 {
                    jump_to(code, st1, instr.arg)
                } else {
                    Step::Next(
                        VmState {
                            pc: st.pc + 1,
                            stack: st1.stack,
                            inputs: st1.inputs,
                            outputs: st1.outputs,
                        },
                    )
                }
            } else if jump_type == 2 {
                if st1.stack.len() == 0 {
                    Step::Fault("cannot peek: stack is empty"@, st1)
                } else if st1.stack.last() < 0 {
                    jump_to(code, st1, instr.arg)
                } else {
                    Step::Next(
                        VmState {
                            pc: st.pc + 1,
                            stack: st1.stack,
                            inputs: st1.inputs,
                            outputs: st1.outputs,
                        },
                    )
                }
            } else {
                Step::Fault("invalid jump type"@, st1)
            }
        },
        OpCode::PushConst => Step::Next(
            VmState {
                pc: st.pc + 1,
                stack: st.stack.push(instr.arg),
                inputs: st.inputs,
                outputs: st.outputs,
            },
        ),
    }
}

/// Transfers control one past the label instruction `label` resolves to, or
/// faults if the jump table holds no such label.
pub open spec fn jump_to(code: Seq<ByteCode>, st: VmState, label: i32) -> Step {
    match spec_find_label(code, label) {
        Some(idx) => Step::Next(
            VmState { pc: idx + 1, stack: st.stack, inputs: st.inputs, outputs: st.outputs },
        ),
        None => Step::Fault("jump label not found in jump map"@, st),
    }
}

/// The exit code when execution runs past the end: the top of the stack, or
/// zero if the stack is empty.
pub open spec fn exit_code_of(st: VmState) -> i32 {
    if st.stack.len() == 0 {
        0i32
    } else {
        st.stack.last()
    }
}

/// The state after the exit code has been popped.
pub open spec fn after_exit(st: VmState) -> VmState {
    if st.stack.len() == 0 {
        st
    } else {
        VmState { pc: st.pc, stack: st.stack.drop_last(), inputs: st.inputs, outputs: st.outputs }
    }
}

/// Running the machine for at most `fuel` steps: the final outcome, or
/// `Ongoing` if the budget ran out first.
pub open spec fn run_spec(code: Seq<ByteCode>, st: VmState, fuel: nat) -> RunOutcome
    decreases fuel,
{
    if !(0 <= st.pc < code.len()) {
        RunOutcome::Done(exit_code_of(st), after_exit(st))
    } else if fuel == 0 {
        RunOutcome::Ongoing(st)
    } else {
        match step_spec(code, st) {
            Step::Next(st2) => run_spec(code, st2, (fuel - 1) as nat),
            Step::Fault(m, st2) => RunOutcome::Fault(m, st2),
        }
    }
}

/// A terminal outcome is stable: granting more fuel does not change it.
pub proof fn lemma_run_spec_monotonic(code: Seq<ByteCode>, st: VmState, fuel: nat, more: nat)
    requires
        fuel <= more,
        !(run_spec(code, st, fuel) is Ongoing),
    ensures
        run_spec(code, st, more) == run_spec(code, st, fuel),
    decreases fuel,
{
    if 0 <= st.pc < code.len() {
        match step_spec(code, st) {
            Step::Next(st2) => {
                lemma_run_spec_monotonic(code, st2, (fuel - 1) as nat, (more - 1) as nat);
            },
            Step::Fault(m, st2) => {},
        }
    }
}

/// Two terminal outcomes of the same machine agree, whatever fuel found
/// them: execution is deterministic.
pub proof fn lemma_run_spec_deterministic(code: Seq<ByteCode>, st: VmState, n1: nat, n2: nat)
    requires
        !(run_spec(code, st, n1) is Ongoing),
        !(run_spec(code, st, n2) is Ongoing),
    ensures
        run_spec(code, st, n1) == run_spec(code, st, n2),
{
    if n1 <= n2 {
        lemma_run_spec_monotonic(code, st, n1, n2);
    } else {
        lemma_run_spec_monotonic(code, st, n2, n1);
    }
}

} // verus!
