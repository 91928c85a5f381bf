pub mod ops;

use crate::semantics::{spec_builtin, BuiltinOutcome};
use crate::shrek_vm::{ShrekRuntimeError, ShrekVM, VmResult};
use vstd::prelude::*;
use vstd::wrapping::i32_specs;

verus! {

/// The parts of the machine a builtin never touches.
pub open spec fn program_unchanged(pre: ShrekVM, post: ShrekVM) -> bool {
    &&& pre.byte_code@ == post.byte_code@
    &&& pre.jump_table@ == post.jump_table@
    &&& pre.program_counter == post.program_counter
}

/// What every builtin guarantees: on success the state is exactly what the
/// builtin semantics computes; on a fault the machine is left as it was and
/// the error carries the semantics' message.
pub open spec fn builtin_post(f: i32, pre: ShrekVM, post: ShrekVM, r: VmResult<()>) -> bool {
    &&& program_unchanged(pre, post)
    &&& match r {
        Ok(()) => spec_builtin(f, pre.state()) == BuiltinOutcome::Success(post.state()),
        Err(e) => spec_builtin(f, pre.state()) == BuiltinOutcome::Fault(e.message@)
            && post.state() == pre.state(),
    }
}

/// Whether `f` selects one of the three unary arithmetic builtins.
pub open spec fn is_unary_selector(f: i32) -> bool {
    f == ops::DOUBLE_VAL || f == ops::NEGATE || f == ops::SQUARE
}

/// Whether `f` selects one of the four binary builtins the optimizer folds:
/// add, subtract, divide, modulo.
pub open spec fn is_foldable_binary_selector(f: i32) -> bool {
    f == ops::ADD || f == ops::SUBTRACT || f == ops::DIVIDE || f == ops::MOD_
}

/// Truncated division as the machine computes it, with the one overflowing
/// quotient wrapped back into range. Never applied to a zero divisor.
pub open spec fn spec_div(v1: i32, v0: i32) -> i32 {
    match v1.checked_div(v0) {
        Some(q) => q,
        None => i32::MIN,
    }
}

/// Truncated remainder as the machine computes it, with the one overflowing
/// case yielding zero. Never applied to a zero divisor.
pub open spec fn spec_rem(v1: i32, v0: i32) -> i32 {
    match v1.checked_rem(v0) {
        Some(q) => q,
        None => 0,
    }
}

/// Result of a unary arithmetic builtin: double, negate or square.
pub open spec fn spec_unary(f: i32, v: i32) -> i32 {
    if f == ops::DOUBLE_VAL {
        i32_specs::wrapping_mul(v, 2i32)
    } else if f == ops::NEGATE {
        i32_specs::wrapping_mul(v, -1i32)
    } else {
        i32_specs::wrapping_mul(v, v)
    }
}

/// Result of a binary arithmetic builtin on bottom operand `v1` and top
/// operand `v0`.
pub open spec fn spec_binary(f: i32, v1: i32, v0: i32) -> i32 {
    if f == ops::ADD {
        i32_specs::wrapping_add(v1, v0)
    } else if f == ops::SUBTRACT {
        i32_specs::wrapping_sub(v1, v0)
    } else if f == ops::MULTIPLY {
        i32_specs::wrapping_mul(v1, v0)
    } else if f == ops::DIVIDE {
        spec_div(v1, v0)
    } else {
        spec_rem(v1, v0)
    }
}

/// Dispatches to the builtin that `func_num` selects.
pub fn execute_builtin(vm: &mut ShrekVM, func_num: i32) -> (r: VmResult<()>)
    ensures
        builtin_post(func_num, *old(vm), *final(vm), r),
{
    if func_num == ops::INPUT {
        input(vm)
    } else if func_num == ops::OUTPUT {
        output(vm)
    } else if func_num == ops::ADD {
        crate::builtins::add(vm)
    } else if func_num == ops::SUBTRACT {
        subtract(vm)
    } else if func_num == ops::MULTIPLY {
        multiply(vm)
    } else if func_num == ops::DIVIDE {
        divide(vm)
    } else if func_num == ops::MOD_ {
        mod_(vm)
    } else if func_num == ops::DOUBLE_VAL {
        double_val(vm)
    } else if func_num == ops::NEGATE {
        negate(vm)
    } else if func_num == ops::SQUARE {
        square(vm)
    } else if func_num == ops::CLONE {
        clone(vm)
    } else {
        Err(ShrekRuntimeError::new("invalid builtin function number"))
    }
}

/// The input builtin: consumes the next queued line, strips its trailing
/// line terminator, then pushes a zero terminator and the line's bytes in
/// reverse, so that popping yields the characters left to right. Faults
/// when no line is queued.
pub fn input(vm: &mut ShrekVM) -> (r: VmResult<()>)
    ensures
        builtin_post(ops::INPUT, *old(vm), *final(vm), r),
{
    if vm.input_lines.len() == 0 {
        return Err(ShrekRuntimeError::new("Error reading input"));
    }
    let mut line = vm.input_lines.remove(0);
    let ghost line0 = line@;
    proof {
        let lines0 = old(vm).input_lines@.map_values(|l: Vec<u8>| l@);
        assert(lines0.first() == line0);
        assert(vm.input_lines@.map_values(|l: Vec<u8>| l@) =~= lines0.drop_first());
    }

    // Drop the line terminator: a final carriage-return-and-newline pair,
    // or a final newline alone. Other trailing bytes are data.
    let n = line.len();
    if n >= 2 && line[n - 2] == 13 && line[n - 1] == 10 {
        line.pop();
        line.pop();
        proof {
            assert(line@ =~= line0.take(line0.len() - 2));
        }
    } else if n >= 1 && line[n - 1] == 10 {
        line.pop();
        proof {
            assert(line@ =~= line0.take(line0.len() - 1));
        }
    }
    proof {
        assert(line@ == crate::semantics::strip_line_terminator(line0));
    }

    // A zero terminator below the characters.
    vm.push(0);
    let ghost mid = *vm;
    let ghost stack1 = vm.stack@;

    let mut k = line.len();
    proof {
        assert(line@.subrange(k as int, line@.len() as int).reverse().map_values(
            |b: u8| b as i32,
        ) =~= Seq::<i32>::empty());
        assert(stack1 + Seq::<i32>::empty() =~= stack1);
    }
    while k > 0
        invariant
            k <= line@.len(),
            line@ == crate::semantics::strip_line_terminator(line0),
            vm.byte_code@ == mid.byte_code@,
            vm.jump_table@ == mid.jump_table@,
            vm.program_counter == mid.program_counter,
            vm.input_lines@ == mid.input_lines@,
            vm.outputs@ == mid.outputs@,
            vm.stack@ == stack1 + line@.subrange(k as int, line@.len() as int).reverse()
                .map_values(|b: u8| b as i32),
        decreases k,
    {
        k -= 1;
        let b = line[k];
        proof {
            let rest = line@.subrange(k as int, line@.len() as int).reverse();
            let shorter = line@.subrange(k + 1, line@.len() as int).reverse();
            assert(rest =~= shorter.push(line@[k as int]));
            assert(rest.map_values(|x: u8| x as i32) =~= shorter.map_values(|x: u8| x as i32)
                .push(line@[k as int] as i32));
        }
        vm.push(b as i32);
        proof {
            assert(vm.stack@ =~= stack1 + line@.subrange(k as int, line@.len() as int)
                .reverse().map_values(|x: u8| x as i32));
        }
    }

    proof {
        let full = line@.reverse().map_values(|b: u8| b as i32);
        assert(line@.subrange(0, line@.len() as int) =~= line@);
        assert(old(vm).stack@ + (seq![0i32] + full) =~= stack1 + full);
        assert(final(vm).state() =~= (match spec_builtin(ops::INPUT, old(vm).state()) {
            BuiltinOutcome::Success(st) => st,
            BuiltinOutcome::Fault(m) => final(vm).state(),
        }));
    }
    Ok(())
}

/// The output builtin: reads the top of the stack without popping it and
/// emits it.
pub fn output(vm: &mut ShrekVM) -> (r: VmResult<()>)
    ensures
        builtin_post(ops::OUTPUT, *old(vm), *final(vm), r),
{
    let v0 = match vm.peek() {
        Ok(x) => x,
        Err(e) => {
            return Err(e);
        },
    };
    vm.outputs.push(v0);
    Ok(())
}

/// Pops the top two values and pushes their sum, bottom-plus-top.
pub fn add(vm: &mut ShrekVM) -> (r: VmResult<()>)
    ensures
        builtin_post(ops::ADD, *old(vm), *final(vm), r),
{
    if vm.count() < 2 {
        Err(ShrekRuntimeError::new("add requires 2 items on the stack"))
    } else {
        let v0 = match vm.pop() {
            Ok(x) => x,
            Err(e) => {
                return Err(e);
            },
        };
        let v1 = match vm.pop() {
            Ok(x) => x,
            Err(e) => {
                return Err(e);
            },
        };
        vm.push(apply_binary(ops::ADD, v1, v0));
        Ok(())
    }
}

/// Pops the top two values and pushes bottom-minus-top.
pub fn subtract(vm: &mut ShrekVM) -> (r: VmResult<()>)
    ensures
        builtin_post(ops::SUBTRACT, *old(vm), *final(vm), r),
{
    if vm.count() < 2 {
        Err(ShrekRuntimeError::new("subtract requires 2 items on the stack"))
    } else {
        let v0 = match vm.pop() {
            Ok(x) => x,
            Err(e) => {
                return Err(e);
            },
        };
        let v1 = match vm.pop() {
            Ok(x) => x,
            Err(e) => {
                return Err(e);
            },
        };
        vm.push(apply_binary(ops::SUBTRACT, v1, v0));
        Ok(())
    }
}

/// Pops the top two values and pushes their product.
pub fn multiply(vm: &mut ShrekVM) -> (r: VmResult<()>)
    ensures
        builtin_post(ops::MULTIPLY, *old(vm), *final(vm), r),
{
    if vm.count() < 2 {
        Err(ShrekRuntimeError::new("multiply requires 2 items on the stack"))
    } else {
        let v0 = match vm.pop() {
            Ok(x) => x,
            Err(e) => {
                return Err(e);
            },
        };
        let v1 = match vm.pop() {
            Ok(x) => x,
            Err(e) => {
                return Err(e);
            },
        };
        vm.push(apply_binary(ops::MULTIPLY, v1, v0));
        Ok(())
    }
}

/// Pops the top two values and pushes bottom-divided-by-top. Division by
/// zero is a runtime fault.
pub fn divide(vm: &mut ShrekVM) -> (r: VmResult<()>)
    ensures
        builtin_post(ops::DIVIDE, *old(vm), *final(vm), r),
{
    if vm.count() < 2 {
        Err(ShrekRuntimeError::new("divide requires 2 items on the stack"))
    } else {
        let top = match vm.peek() {
            Ok(x) => x,
            Err(e) => {
                return Err(e);
            },
        };
        if top == 0 {
            return Err(ShrekRuntimeError::new("division by zero"));
        }
        let v0 = match vm.pop() {
            Ok(x) => x,
            Err(e) => {
                return Err(e);
            },
        };
        let v1 = match vm.pop() {
            Ok(x) => x,
            Err(e) => {
                return Err(e);
            },
        };
        vm.push(apply_binary(ops::DIVIDE, v1, v0));
        Ok(())
    }
}

/// Pops the top two values and pushes the remainder of bottom-by-top.
/// A zero divisor is a runtime fault.
pub fn mod_(vm: &mut ShrekVM) -> (r: VmResult<()>)
    ensures
        builtin_post(ops::MOD_, *old(vm), *final(vm), r),
{
    if vm.count() < 2 {
        Err(ShrekRuntimeError::new("mod requires 2 items on the stack"))
    } else {
        let top = match vm.peek() {
            Ok(x) => x,
            Err(e) => {
                return Err(e);
            },
        };
        if top == 0 {
            return Err(ShrekRuntimeError::new("modulo by zero"));
        }
        let v0 = match vm.pop() {
            Ok(x) => x,
            Err(e) => {
                return Err(e);
            },
        };
        let v1 = match vm.pop() {
            Ok(x) => x,
            Err(e) => {
                return Err(e);
            },
        };
        vm.push(apply_binary(ops::MOD_, v1, v0));
        Ok(())
    }
}

/// Pops the top value and pushes its double.
pub fn double_val(vm: &mut ShrekVM) -> (r: VmResult<()>)
    ensures
        builtin_post(ops::DOUBLE_VAL, *old(vm), *final(vm), r),
{
    if vm.count() < 1 {
        Err(ShrekRuntimeError::new("double_val requires 1 item on the stack"))
    } else {
        let v0 = match vm.pop() {
            Ok(x) => x,
            Err(e) => {
                return Err(e);
            },
        };
        vm.push(apply_unary(ops::DOUBLE_VAL, v0));
        Ok(())
    }
}

/// Pops the top value and pushes its negation.
pub fn negate(vm: &mut ShrekVM) -> (r: VmResult<()>)
    ensures
        builtin_post(ops::NEGATE, *old(vm), *final(vm), r),
{
    if vm.count() < 1 {
        Err(ShrekRuntimeError::new("negate requires 1 item on the stack"))
    } else {
        let v0 = match vm.pop() {
            Ok(x) => x,
            Err(e) => {
                return Err(e);
            },
        };
        vm.push(apply_unary(ops::NEGATE, v0));
        Ok(())
    }
}

/// Pops the top value and pushes its square.
pub fn square(vm: &mut ShrekVM) -> (r: VmResult<()>)
    ensures
        builtin_post(ops::SQUARE, *old(vm), *final(vm), r),
{
    if vm.count() < 1 {
        Err(ShrekRuntimeError::new("square requires 1 item on the stack"))
    } else {
        let v0 = match vm.pop() {
            Ok(x) => x,
            Err(e) => {
                return Err(e);
            },
        };
        vm.push(apply_unary(ops::SQUARE, v0));
        Ok(())
    }
}

/// Reads the top value without popping it and pushes a duplicate.
pub fn clone(vm: &mut ShrekVM) -> (r: VmResult<()>)
    ensures
        builtin_post(ops::CLONE, *old(vm), *final(vm), r),
{
    if vm.count() < 1 {
        Err(ShrekRuntimeError::new("clone requires 1 item on the stack"))
    } else {
        let v0 = match vm.peek() {
            Ok(x) => x,
            Err(e) => {
                return Err(e);
            },
        };
        vm.push(v0);
        Ok(())
    }
}

/// Computes a unary arithmetic builtin's result.
pub fn apply_unary(f: i32, v: i32) -> (r: i32)
    requires
        is_unary_selector(f),
    ensures
        r == spec_unary(f, v),
{
    if f == ops::DOUBLE_VAL {
        v.wrapping_mul(2)
    } else if f == ops::NEGATE {
        v.wrapping_mul(-1)
    } else {
        v.wrapping_mul(v)
    }
}

/// Computes a binary arithmetic builtin's result for a non-zero divisor.
pub fn apply_binary(f: i32, v1: i32, v0: i32) -> (r: i32)
    requires
        f == ops::ADD || f == ops::SUBTRACT || f == ops::MULTIPLY || f == ops::DIVIDE || f
            == ops::MOD_,
        (f == ops::DIVIDE || f == ops::MOD_) ==> v0 != 0,
    ensures
        r == spec_binary(f, v1, v0),
{
    if f == ops::ADD {
        v1.wrapping_add(v0)
    } else if f == ops::SUBTRACT {
        v1.wrapping_sub(v0)
    } else if f == ops::MULTIPLY {
        v1.wrapping_mul(v0)
    } else if f == ops::DIVIDE {
        match v1.checked_div(v0) {
            Some(q) => q,
            None => i32::MIN,
        }
    } else {
        match v1.checked_rem(v0) {
            Some(q) => q,
            None => 0,
        }
    }
}

} // verus!
