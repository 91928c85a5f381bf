use crate::builtins;
use crate::byte_code::{ByteCode, OpCode};
use crate::semantics::{
    after_exit, exit_code_of, run_spec, spec_find_label, step_spec, RunOutcome, Step, VmState,
};
use vstd::prelude::*;

verus! {

/// The stack machine. Its observable state is `self.state()`: the program
/// counter, the value stack, the queued input lines and the emitted outputs.
/// The jump table is rebuilt from the bytecode each run.
pub struct ShrekVM {
    pub byte_code: Vec<ByteCode>,
    pub program_counter: usize,
    pub stack: Vec<i32>,
    pub jump_table: Vec<(i32, usize)>,
    pub input_lines: Vec<Vec<u8>>,
    pub outputs: Vec<i32>,
}

/// A fatal fault raised during execution.
#[derive(Debug, Clone)]
pub struct ShrekRuntimeError {
    pub message: String,
}

pub type VmResult<T> = Result<T, ShrekRuntimeError>;

impl ShrekRuntimeError {
    pub fn new(message: &str) -> (r: ShrekRuntimeError)
        ensures
            r.message@ == message@,
    {
        ShrekRuntimeError { message: String::from_str(message) }
    }
}

/// Looks `label` up in the table as the machine does: the entry pushed last
/// wins.
pub open spec fn table_find(table: Seq<(i32, usize)>, label: i32) -> Option<int>
    decreases table.len(),
{
    if table.len() == 0 {
        None
    } else if table.last().0 == label {
        Some(table.last().1 as int)
    } else {
        table_find(table.drop_last(), label)
    }
}

impl ShrekVM {
    /// The machine's observable state.
    pub open spec fn state(&self) -> VmState {
        VmState {
            pc: self.program_counter as int,
            stack: self.stack@,
            inputs: self.input_lines@.map_values(|l: Vec<u8>| l@),
            outputs: self.outputs@,
        }
    }

    /// The jump table resolves every label exactly as the bytecode does:
    /// to the last `Label` instruction carrying it.
    pub open spec fn table_ok(&self) -> bool {
        forall|l: i32| #[trigger]
            table_find(self.jump_table@, l) == spec_find_label(self.byte_code@, l)
    }

    /// A fresh machine over `byte_code`: empty stack, empty input queue, no
    /// outputs, program counter at the start.
    pub fn new(byte_code: Vec<ByteCode>) -> (vm: ShrekVM)
        ensures
            vm.byte_code@ == byte_code@,
            vm.program_counter == 0,
            vm.stack@ == Seq::<i32>::empty(),
            vm.jump_table@ == Seq::<(i32, usize)>::empty(),
            vm.input_lines@ == Seq::<Vec<u8>>::empty(),
            vm.outputs@ == Seq::<i32>::empty(),
    {
        ShrekVM {
            byte_code,
            program_counter: 0,
            stack: Vec::new(),
            jump_table: Vec::new(),
            input_lines: Vec::new(),
            outputs: Vec::new(),
        }
    }

    /// Queues one line for the input builtin to consume.
    pub fn push_input_line(&mut self, line: Vec<u8>)
        ensures
            final(self).input_lines@ == old(self).input_lines@.push(line),
            final(self).byte_code@ == old(self).byte_code@,
            final(self).program_counter == old(self).program_counter,
            final(self).stack@ == old(self).stack@,
            final(self).jump_table@ == old(self).jump_table@,
            final(self).outputs@ == old(self).outputs@,
    {
        self.input_lines.push(line);
    }

    pub fn push(&mut self, value: i32)
        ensures
            final(self).stack@ == old(self).stack@.push(value),
            final(self).byte_code@ == old(self).byte_code@,
            final(self).program_counter == old(self).program_counter,
            final(self).jump_table@ == old(self).jump_table@,
            final(self).input_lines@ == old(self).input_lines@,
            final(self).outputs@ == old(self).outputs@,
    {
        self.stack.push(value);
    }

    pub fn pop(&mut self) -> (r: VmResult<i32>)
        ensures
            final(self).byte_code@ == old(self).byte_code@,
            final(self).program_counter == old(self).program_counter,
            final(self).jump_table@ == old(self).jump_table@,
            final(self).input_lines@ == old(self).input_lines@,
            final(self).outputs@ == old(self).outputs@,
            match r {
                Ok(x) => old(self).stack@.len() > 0 && x == old(self).stack@.last()
                    && final(self).stack@ == old(self).stack@.drop_last(),
                Err(e) => old(self).stack@.len() == 0 && final(self).stack@ == old(self).stack@
                    && e.message@ == "cannot pop: stack is empty"@,
            },
    {
        match self.stack.pop() {
            Some(x) => Ok(x),
            None => Err(ShrekRuntimeError::new("cannot pop: stack is empty")),
        }
    }

    pub fn peek(&self) -> (r: VmResult<i32>)
        ensures
            match r {
                Ok(x) => self.stack@.len() > 0 && x == self.stack@.last(),
                Err(e) => self.stack@.len() == 0 && e.message@
                    == "cannot peek: stack is empty"@,
            },
    {
        if self.stack.len() == 0 {
            Err(ShrekRuntimeError::new("cannot peek: stack is empty"))
        } else {
            Ok(self.stack[self.stack.len() - 1])
        }
    }

    pub fn count(&self) -> (r: usize)
        ensures
            r == self.stack@.len(),
    {
        self.stack.len()
    }

    /// Runs the bytecode to completion: the exit code of a run that ends, or
    /// the first fault. The outcome is exactly what the step semantics
    /// computes from the starting state, for some number of steps.
    ///
    /// A program that still runs after `u64::MAX` steps is abandoned with a
    /// distinct fault; no physical machine reaches that bound.
    pub fn run(&mut self) -> (r: VmResult<i32>)
        ensures
            final(self).byte_code@ == old(self).byte_code@,
            match r {
                Ok(exit) => exists|n: nat|
                    run_spec(old(self).byte_code@, old(self).state(), n) == RunOutcome::Done(
                        exit,
                        final(self).state(),
                    ),
                Err(e) => (exists|n: nat|
                    run_spec(old(self).byte_code@, old(self).state(), n) == RunOutcome::Fault(
                        e.message@,
                        final(self).state(),
                    )) || (run_spec(old(self).byte_code@, old(self).state(), u64::MAX as nat)
                    == RunOutcome::Ongoing(final(self).state()) && e.message@
                    == "step limit reached"@),
            },
    {
        let ghost code = self.byte_code@;
        let ghost s0 = self.state();
        self.build_jump_table();
        let ghost mut steps: nat = 0nat;
        let mut budget: u64 = u64::MAX;

        while self.program_counter < self.byte_code.len()
            invariant
                self.byte_code@ == code,
                code == old(self).byte_code@,
                s0 == old(self).state(),
                self.table_ok(),
                steps + budget == u64::MAX as nat,
                forall|k: nat|
                    run_spec(code, s0, (steps + k) as nat) == #[trigger] run_spec(
                        code,
                        self.state(),
                        k,
                    ),
            decreases budget,
        {
            if budget == 0 {
                proof {
                    let k0: nat = 0nat;
                    assert(run_spec(code, s0, (steps + k0) as nat) == run_spec(
                        code,
                        self.state(),
                        k0,
                    ));
                }
                return Err(ShrekRuntimeError::new("step limit reached"));
            }
            budget = budget - 1;
            let ghost cur = self.state();
            match self.step() {
                Ok(()) => {},
                Err(e) => {
                    proof {
                        let k1: nat = 1nat;
                        assert(run_spec(code, s0, (steps + k1) as nat) == run_spec(
                            code,
                            cur,
                            k1,
                        ));
                        assert(run_spec(code, cur, 1nat) == RunOutcome::Fault(
                            e.message@,
                            self.state(),
                        ));
                    }
                    return Err(e);
                },
            }
            proof {
                let s2 = self.state();
                assert forall|k: nat|
                    run_spec(code, s0, #[trigger] (((steps + 1) as nat + k) as nat)) == run_spec(
                        code,
                        s2,
                        k,
                    ) by {
                    let kp: nat = (1 + k) as nat;
                    assert(run_spec(code, s0, (steps + kp) as nat) == run_spec(code, cur, kp));
                    assert(run_spec(code, cur, kp) == run_spec(code, s2, k));
                };
                steps = (steps + 1) as nat;
            }
        }

        let ghost cur = self.state();
        proof {
            let k0: nat = 0nat;
            assert(run_spec(code, s0, (steps + k0) as nat) == run_spec(code, cur, k0));
            assert(run_spec(code, cur, 0nat) == RunOutcome::Done(
                exit_code_of(cur),
                after_exit(cur),
            ));
        }

        let exit_code = match self.stack.pop() {
            Some(x) => x,
            None => 0,
        };

        proof {
            assert(final(self).state() =~= after_exit(cur));
            assert(run_spec(code, s0, steps) == RunOutcome::Done(
                exit_code,
                final(self).state(),
            ));
        }
        Ok(exit_code)
    }

    /// Rebuilds the jump table: for every `Label` instruction, its
    /// identifier and its index, later entries overriding earlier ones.
    fn build_jump_table(&mut self)
        ensures
            final(self).byte_code@ == old(self).byte_code@,
            final(self).program_counter == old(self).program_counter,
            final(self).stack@ == old(self).stack@,
            final(self).input_lines@ == old(self).input_lines@,
            final(self).outputs@ == old(self).outputs@,
            final(self).table_ok(),
    {
        self.jump_table.clear();
        let n = self.byte_code.len();
        let mut i: usize = 0;

        proof {
            assert forall|l: i32| #[trigger]
                table_find(self.jump_table@, l) == spec_find_label(
                    self.byte_code@.take(0),
                    l,
                ) by {
                assert(self.byte_code@.take(0) =~= Seq::<ByteCode>::empty());
            };
        }

        while i < n
            invariant
                i <= n == self.byte_code@.len(),
                self.byte_code@ == old(self).byte_code@,
                self.program_counter == old(self).program_counter,
                self.stack@ == old(self).stack@,
                self.input_lines@ == old(self).input_lines@,
                self.outputs@ == old(self).outputs@,
                forall|l: i32| #[trigger]
                    table_find(self.jump_table@, l) == spec_find_label(
                        self.byte_code@.take(i as int),
                        l,
                    ),
            decreases n - i,
        {
            let ghost table0 = self.jump_table@;
            let op = self.byte_code[i];
            if op.op_code == OpCode::Label {
                self.jump_table.push((op.arg, i));
            }
            proof {
                let pre = self.byte_code@.take(i as int);
                let post = self.byte_code@.take(i + 1);
                assert(post.drop_last() =~= pre);
                assert(post.last() == self.byte_code@[i as int]);
                assert forall|l: i32| #[trigger]
                    table_find(self.jump_table@, l) == spec_find_label(post, l) by {
                    if op.op_code == OpCode::Label {
                        assert(self.jump_table@ == table0.push((op.arg, i)));
                        assert(self.jump_table@.drop_last() =~= table0);
                        if op.arg != l {
                            assert(table_find(self.jump_table@, l) == table_find(table0, l));
                        }
                    }
                };
            }
            i += 1;
        }

        proof {
            assert(self.byte_code@.take(n as int) =~= self.byte_code@);
        }
    }

    /// Resolves a jump's label identifier to the index of its `Label`
    /// instruction.
    fn find_jump_target(&self, label_num: i32) -> (r: Option<usize>)
        requires
            table_find(self.jump_table@, label_num) == spec_find_label(
                self.byte_code@,
                label_num,
            ),
        ensures
            match r {
                Some(idx) => spec_find_label(self.byte_code@, label_num) == Some(idx as int),
                None => spec_find_label(self.byte_code@, label_num) is None,
            },
    {
        let mut k = self.jump_table.len();
        proof {
            assert(self.jump_table@.take(k as int) =~= self.jump_table@);
        }
        while k > 0
            invariant
                k <= self.jump_table@.len(),
                table_find(self.jump_table@, label_num) == spec_find_label(
                    self.byte_code@,
                    label_num,
                ),
                table_find(self.jump_table@, label_num) == table_find(
                    self.jump_table@.take(k as int),
                    label_num,
                ),
            decreases k,
        {
            k -= 1;
            let entry = self.jump_table[k];
            proof {
                let post = self.jump_table@.take(k + 1);
                assert(post.last() == self.jump_table@[k as int]);
                assert(post.drop_last() =~= self.jump_table@.take(k as int));
            }
            if entry.0 == label_num {
                proof {
                    assert(table_find(self.jump_table@.take(k + 1), label_num) == Some(
                        entry.1 as int,
                    ));
                }
                return Some(entry.1);
            }
        }
        proof {
            assert(self.jump_table@.take(0) =~= Seq::<(i32, usize)>::empty());
        }
        None
    }

    /// Executes the single instruction at the program counter.
    fn step(&mut self) -> (r: VmResult<()>)
        requires
            old(self).program_counter < old(self).byte_code@.len(),
            old(self).table_ok(),
        ensures
            final(self).byte_code@ == old(self).byte_code@,
            final(self).jump_table@ == old(self).jump_table@,
            final(self).table_ok(),
            match r {
                Ok(()) => step_spec(old(self).byte_code@, old(self).state()) == Step::Next(
                    final(self).state(),
                ),
                Err(e) => step_spec(old(self).byte_code@, old(self).state()) == Step::Fault(
                    e.message@,
                    final(self).state(),
                ),
            },
    {
        match self.byte_code[self.program_counter].op_code {
            OpCode::Label => {
                self.step_code();
                Ok(())
            },
            OpCode::Push0 => self.op_push0(),
            OpCode::Pop => self.op_pop(),
            OpCode::Bump => self.op_bump(),
            OpCode::Func => self.op_func(),
            OpCode::Jump => self.op_jump(),
            OpCode::PushConst => self.op_push_const(),
            OpCode::NoOp => Ok(()),
        }
    }

    /// Advances the program counter past the current instruction.
    fn step_code(&mut self)
        requires
            old(self).program_counter < old(self).byte_code@.len(),
        ensures
            final(self).program_counter == old(self).program_counter + 1,
            final(self).byte_code@ == old(self).byte_code@,
            final(self).stack@ == old(self).stack@,
            final(self).jump_table@ == old(self).jump_table@,
            final(self).input_lines@ == old(self).input_lines@,
            final(self).outputs@ == old(self).outputs@,
    {
        let n = self.byte_code.len();
        self.program_counter += 1;
    }

    fn op_push0(&mut self) -> (r: VmResult<()>)
        requires
            old(self).program_counter < old(self).byte_code@.len(),
            old(self).byte_code@[old(self).program_counter as int].op_code == OpCode::Push0,
        ensures
            final(self).byte_code@ == old(self).byte_code@,
            final(self).jump_table@ == old(self).jump_table@,
            r is Ok && step_spec(old(self).byte_code@, old(self).state()) == Step::Next(
                final(self).state(),
            ),
    {
        self.push(0);
        self.step_code();
        Ok(())
    }

    fn op_pop(&mut self) -> (r: VmResult<()>)
        requires
            old(self).program_counter < old(self).byte_code@.len(),
            old(self).byte_code@[old(self).program_counter as int].op_code == OpCode::Pop,
        ensures
            final(self).byte_code@ == old(self).byte_code@,
            final(self).jump_table@ == old(self).jump_table@,
            match r {
                Ok(()) => step_spec(old(self).byte_code@, old(self).state()) == Step::Next(
                    final(self).state(),
                ),
                Err(e) => step_spec(old(self).byte_code@, old(self).state()) == Step::Fault(
                    e.message@,
                    final(self).state(),
                ),
            },
    {
        let _ = match self.pop() {
            Ok(x) => x,
            Err(e) => {
                return Err(e);
            },
        };
        self.step_code();
        Ok(())
    }

    fn op_bump(&mut self) -> (r: VmResult<()>)
        requires
            old(self).program_counter < old(self).byte_code@.len(),
            old(self).byte_code@[old(self).program_counter as int].op_code == OpCode::Bump,
        ensures
            final(self).byte_code@ == old(self).byte_code@,
            final(self).jump_table@ == old(self).jump_table@,
            match r {
                Ok(()) => step_spec(old(self).byte_code@, old(self).state()) == Step::Next(
                    final(self).state(),
                ),
                Err(e) => step_spec(old(self).byte_code@, old(self).state()) == Step::Fault(
                    e.message@,
                    final(self).state(),
                ),
            },
    {
        let v = match self.pop() {
            Ok(x) => x,
            Err(e) => {
                return Err(e);
            },
        };
        self.push(v.wrapping_add(1));
        self.step_code();
        Ok(())
    }

    fn op_func(&mut self) -> (r: VmResult<()>)
        requires
            old(self).program_counter < old(self).byte_code@.len(),
            old(self).byte_code@[old(self).program_counter as int].op_code == OpCode::Func,
        ensures
            final(self).byte_code@ == old(self).byte_code@,
            final(self).jump_table@ == old(self).jump_table@,
            match r {
                Ok(()) => step_spec(old(self).byte_code@, old(self).state()) == Step::Next(
                    final(self).state(),
                ),
                Err(e) => step_spec(old(self).byte_code@, old(self).state()) == Step::Fault(
                    e.message@,
                    final(self).state(),
                ),
            },
    {
        let func_num = match self.pop() {
            Ok(x) => x,
            Err(e) => {
                return Err(e);
            },
        };
        match builtins::execute_builtin(self, func_num) {
            Ok(()) => {},
            Err(e) => {
                return Err(e);
            },
        }
        self.step_code();
        Ok(())
    }

    fn op_jump(&mut self) -> (r: VmResult<()>)
        requires
            old(self).program_counter < old(self).byte_code@.len(),
            old(self).byte_code@[old(self).program_counter as int].op_code == OpCode::Jump,
            old(self).table_ok(),
        ensures
            final(self).byte_code@ == old(self).byte_code@,
            final(self).jump_table@ == old(self).jump_table@,
            match r {
                Ok(()) => step_spec(old(self).byte_code@, old(self).state()) == Step::Next(
                    final(self).state(),
                ),
                Err(e) => step_spec(old(self).byte_code@, old(self).state()) == Step::Fault(
                    e.message@,
                    final(self).state(),
                ),
            },
    {
        let n = self.byte_code.len();
        // Pop the jump-type selector off the stack.
        let jump_type = match self.pop() {
            Ok(x) => x,
            Err(e) => {
                return Err(e);
            },
        };

        // Decide from the selector whether the jump is taken; conditional
        // jumps inspect the new top of the stack without popping it.
        let should_jump = if jump_type == 0 {
            true
        } else if jump_type == 1 {
            let s1 = match self.peek() {
                Ok(x) => x,
                Err(e) => {
                    return Err(e);
                },
            };
            s1 == 0
        } else if jump_type == 2 {
            let s1 = match self.peek() {
                Ok(x) => x,
                Err(e) => {
                    return Err(e);
                },
            };
            s1 < 0
        } else {
            return Err(ShrekRuntimeError::new("invalid jump type"));
        };

        if !should_jump {
            self.step_code();
            return Ok(());
        }

        // The instruction's argument holds the label number to jump to.
        let label_num = self.byte_code[self.program_counter].arg;
        match self.find_jump_target(label_num) {
            Some(x) => {
                proof {
                    crate::semantics::lemma_find_label_bounds(self.byte_code@, label_num);
                }
                // Move one past the label to save an operation.
                self.program_counter = x + 1;
                Ok(())
            },
            None => Err(ShrekRuntimeError::new("jump label not found in jump map")),
        }
    }

    fn op_push_const(&mut self) -> (r: VmResult<()>)
        requires
            old(self).program_counter < old(self).byte_code@.len(),
            old(self).byte_code@[old(self).program_counter as int].op_code == OpCode::PushConst,
        ensures
            final(self).byte_code@ == old(self).byte_code@,
            final(self).jump_table@ == old(self).jump_table@,
            r is Ok && step_spec(old(self).byte_code@, old(self).state()) == Step::Next(
                final(self).state(),
            ),
    {
        let arg = self.byte_code[self.program_counter].arg;
        self.push(arg);
        self.step_code();
        Ok(())
    }
}

} // verus!
