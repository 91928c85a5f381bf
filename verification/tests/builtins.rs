use shrek_lang::builtins::{
    add, clone, divide, double_val, input, mod_, multiply, negate, output, square, subtract,
};
use shrek_lang::shrek_vm::ShrekVM;

#[test]
fn test_input() {
    let mut vm = ShrekVM::new(Vec::new());
    vm.push_input_line("asdf".to_string().into_bytes());

    input(&mut vm).unwrap();

    assert_eq!('a' as i32, vm.pop().unwrap());
    assert_eq!('s' as i32, vm.pop().unwrap());
    assert_eq!('d' as i32, vm.pop().unwrap());
    assert_eq!('f' as i32, vm.pop().unwrap());
    assert_eq!(0, vm.pop().unwrap());

    assert_eq!(0, vm.count());
}

#[test]
fn test_output() {
    let mut vm = ShrekVM::new(Vec::new());
    vm.push(123);

    output(&mut vm).unwrap();

    assert_eq!(123, vm.peek().unwrap());
    assert_eq!(1, vm.count());
}

#[test]
fn test_add() {
    let mut vm = ShrekVM::new(Vec::new());

    vm.push(1);
    vm.push(3);

    add(&mut vm).unwrap();

    assert_eq!(4, vm.peek().unwrap());
    // Two values added above should be popped.
    assert_eq!(1, vm.count());
}

#[test]
fn test_add_bad_stack() {
    let mut vm = ShrekVM::new(Vec::new());
    vm.push(3);
    assert!(add(&mut vm).is_err());
}

#[test]
fn test_subtract() {
    let mut vm = ShrekVM::new(Vec::new());

    vm.push(1);
    vm.push(3);

    subtract(&mut vm).unwrap();

    assert_eq!(-2, vm.peek().unwrap());
    // Two values added above should be popped.
    assert_eq!(1, vm.count());
}

#[test]
fn test_subtract_bad_stack() {
    let mut vm = ShrekVM::new(Vec::new());
    vm.push(3);
    assert!(subtract(&mut vm).is_err());
}

#[test]
fn test_multiply() {
    let mut vm = ShrekVM::new(Vec::new());

    vm.push(8);
    vm.push(3);

    multiply(&mut vm).unwrap();

    assert_eq!(24, vm.peek().unwrap());
    // Two values added above should be popped.
    assert_eq!(1, vm.count());
}

#[test]
fn test_multiply_bad_stack() {
    let mut vm = ShrekVM::new(Vec::new());
    vm.push(3);
    assert!(multiply(&mut vm).is_err());
}

#[test]
fn test_divide() {
    let mut vm = ShrekVM::new(Vec::new());

    vm.push(13);
    vm.push(3);

    divide(&mut vm).unwrap();

    assert_eq!(4, vm.peek().unwrap());
    // Two values added above should be popped.
    assert_eq!(1, vm.count());
}

#[test]
fn test_divide_bad_stack() {
    let mut vm = ShrekVM::new(Vec::new());
    vm.push(3);
    assert!(divide(&mut vm).is_err());
}

#[test]
fn test_mod_() {
    let mut vm = ShrekVM::new(Vec::new());

    vm.push(13);
    vm.push(3);

    mod_(&mut vm).unwrap();

    assert_eq!(1, vm.peek().unwrap());
    // Two values added above should be popped.
    assert_eq!(1, vm.count());
}

#[test]
fn test_mod_bad_stack() {
    let mut vm = ShrekVM::new(Vec::new());
    vm.push(3);
    assert!(mod_(&mut vm).is_err());
}

#[test]
fn test_double_val() {
    let mut vm = ShrekVM::new(Vec::new());

    vm.push(3);

    double_val(&mut vm).unwrap();

    assert_eq!(6, vm.peek().unwrap());
    // Value on stack should be replaced with result.
    assert_eq!(1, vm.count());
}

#[test]
fn test_double_bad_stack() {
    let mut vm = ShrekVM::new(Vec::new());
    assert!(double_val(&mut vm).is_err());
}

#[test]
fn test_negate() {
    let mut vm = ShrekVM::new(Vec::new());

    vm.push(3);

    negate(&mut vm).unwrap();

    assert_eq!(-3, vm.peek().unwrap());
    // Value on stack should be replaced with result.
    assert_eq!(1, vm.count());
}

#[test]
fn test_negate_bad_stack() {
    let mut vm = ShrekVM::new(Vec::new());
    assert!(negate(&mut vm).is_err());
}

#[test]
fn test_square() {
    let mut vm = ShrekVM::new(Vec::new());

    vm.push(4);

    square(&mut vm).unwrap();

    assert_eq!(16, vm.peek().unwrap());
    // Value on stack should be replaced with result.
    assert_eq!(1, vm.count());
}

#[test]
fn test_square_bad_stack() {
    let mut vm = ShrekVM::new(Vec::new());
    assert!(square(&mut vm).is_err());
}

#[test]
fn test_clone() {
    let mut vm = ShrekVM::new(Vec::new());

    vm.push(3);

    clone(&mut vm).unwrap();

    assert_eq!(3, vm.peek().unwrap());
    // Initial pushed value should be kept.
    assert_eq!(2, vm.count());
}

#[test]
fn test_clone_bad_stack() {
    let mut vm = ShrekVM::new(Vec::new());
    assert!(clone(&mut vm).is_err());
}
