use shrek_lang::builtins::ops;
use shrek_lang::byte_code::{ByteCode, OpCode};
use shrek_lang::optimizer::optimize;
use shrek_lang::parse_code;
use shrek_lang::shrek_parser::{generate_byte_code, SyntaxNode, SyntaxTree, Token, TokenType,
    Tokenizer};
use shrek_lang::shrek_vm::ShrekVM;

fn push_const(arg: i32) -> ByteCode {
    ByteCode { op_code: OpCode::PushConst, arg }
}

fn op(op_code: OpCode) -> ByteCode {
    ByteCode { op_code, arg: 0 }
}

#[test]
fn tokenize_is_lossless() {
    let source = "!SK! K!SK!# note\n  SHREK";
    let tokens = Tokenizer::new().tokenize(source).unwrap();
    let mut rebuilt = String::new();
    for t in &tokens {
        rebuilt.push_str(&t.value);
    }
    assert_eq!(source, rebuilt);
}

#[test]
fn tokenize_comment_through_newline() {
    let tokens = Tokenizer::new().tokenize("# note\nS").unwrap();
    assert_eq!(2, tokens.len());
    assert!(matches!(tokens[0].token_type, TokenType::Comment));
    assert_eq!("# note\n", tokens[0].value);
    assert_eq!(0, tokens[0].index);
    assert!(matches!(tokens[1].token_type, TokenType::Command));
    assert_eq!("S", tokens[1].value);
    assert_eq!(7, tokens[1].index);
}

#[test]
fn tokenize_rejects_unknown_character() {
    let err = Tokenizer::new().tokenize("SS?").unwrap_err();
    assert_eq!(2, err.index);
    assert_eq!("Invalid Token", err.message);
}

#[test]
fn lone_marker_is_not_a_label() {
    // `!` with no closing marker matches no pattern at all.
    let err = Tokenizer::new().tokenize("!S").unwrap_err();
    assert_eq!(0, err.index);
    assert_eq!("Invalid Token", err.message);
}

#[test]
fn comment_scenario_compiles_and_runs_to_zero() {
    let code = parse_code("# note\nS").unwrap();
    assert_eq!(vec![op(OpCode::Push0)], code);
    let mut vm = ShrekVM::new(code);
    assert_eq!(0, vm.run().unwrap());
}

#[test]
fn push_bump_bump_folds_to_push_const_two() {
    let code = parse_code("S R R").unwrap();
    assert_eq!(vec![push_const(2)], code);
    let mut vm = ShrekVM::new(code);
    assert_eq!(2, vm.run().unwrap());
}

#[test]
fn jump_needs_adjacent_label() {
    // Even one space between the jump and its label is rejected.
    let err = parse_code("K !S!").unwrap_err();
    assert_eq!(0, err.index);
    assert_eq!("missing label after jump", err.message);
}

#[test]
fn jump_at_end_of_input() {
    let err = parse_code("SS K").unwrap_err();
    assert_eq!(3, err.index);
    assert_eq!("missing command after jump", err.message);
}

#[test]
fn binary_fold_subtracts_bottom_minus_top() {
    let code = vec![push_const(5), push_const(3), push_const(ops::SUBTRACT), op(OpCode::Func)];
    let optimized = optimize(&code);
    assert_eq!(vec![push_const(2)], optimized);

    // The unoptimized program pops 3 then 5 and computes 5 - 3 as well.
    let mut vm = ShrekVM::new(code);
    assert_eq!(2, vm.run().unwrap());
}

#[test]
fn unary_fold_squares_constant() {
    let code = vec![push_const(7), push_const(ops::SQUARE), op(OpCode::Func)];
    assert_eq!(vec![push_const(49)], optimize(&code));
}

#[test]
fn fold_keeps_division_by_zero_for_runtime() {
    let code = vec![push_const(1), push_const(0), push_const(ops::DIVIDE), op(OpCode::Func)];
    assert_eq!(code, optimize(&code));
    let mut vm = ShrekVM::new(code);
    assert_eq!("division by zero", vm.run().unwrap_err().message);
}

#[test]
fn optimizer_is_idempotent_on_its_output() {
    let code = parse_code("S R R S R S H E K!SK! !SK! S R R R R R R R S R R R E").unwrap();
    assert_eq!(code, optimize(&code));
}

#[test]
fn generation_is_deterministic() {
    let tokens = Tokenizer::new().tokenize("!SK!K!HR!!HR!K!SK!").unwrap();
    let tree = SyntaxTree::generate(&tokens).unwrap();
    let first = generate_byte_code(&tree).unwrap();
    let second = generate_byte_code(&tree).unwrap();
    assert_eq!(first, second);
}

#[test]
fn labels_are_numbered_by_first_occurrence() {
    // The jump's target is seen first and takes identifier 0; the label
    // defined first in source order but seen second takes 1.
    let code = parse_code("K!HR!!SK!!HR!").unwrap();
    assert_eq!(
        vec![
            ByteCode { op_code: OpCode::Jump, arg: 0 },
            ByteCode { op_code: OpCode::Label, arg: 1 },
            ByteCode { op_code: OpCode::Label, arg: 0 },
        ],
        code
    );
}

#[test]
fn distinct_label_texts_are_distinct_labels() {
    let code = parse_code("!R!!K!").unwrap();
    assert_eq!(
        vec![
            ByteCode { op_code: OpCode::Label, arg: 0 },
            ByteCode { op_code: OpCode::Label, arg: 1 },
        ],
        code
    );
}

#[test]
fn empty_and_trivia_only_programs_run_to_zero() {
    for source in ["", "   \n\t ", "# only a comment", " # a\n# b\n "] {
        let code = parse_code(source).unwrap();
        assert_eq!(0, code.len());
        let mut vm = ShrekVM::new(code);
        assert_eq!(0, vm.run().unwrap());
    }
}

#[test]
fn missing_jump_label_faults_only_when_executed() {
    // The target of the jump was numbered, but no label instruction exists.
    // A conditional jump that is not taken never consults the jump table.
    let skipped = parse_code("SRRRRR SR K!SK!").unwrap();
    let mut vm = ShrekVM::new(skipped);
    assert_eq!(5, vm.run().unwrap());

    // The same dangling target faults at run time when the jump is taken.
    let taken = parse_code("S K!SK!").unwrap();
    let mut vm = ShrekVM::new(taken);
    let err = vm.run().unwrap_err();
    assert_eq!("jump label not found in jump map", err.message);
}

#[test]
fn conditional_jump_loops_until_zero() {
    // Count 3 down to 0: each pass subtracts 1, then a type-1 jump leaves
    // the loop once the top reaches zero, and a type-0 jump loops back
    // otherwise. The remaining 0 becomes the exit code.
    let code = vec![
        push_const(3),
        ByteCode { op_code: OpCode::Label, arg: 0 },
        push_const(1),
        push_const(ops::SUBTRACT),
        op(OpCode::Func),
        push_const(1),
        ByteCode { op_code: OpCode::Jump, arg: 9 },
        push_const(0),
        ByteCode { op_code: OpCode::Jump, arg: 0 },
        ByteCode { op_code: OpCode::Label, arg: 9 },
    ];
    let mut vm = ShrekVM::new(code);
    assert_eq!(0, vm.run().unwrap());
}

#[test]
fn jump_type_two_checks_for_negative() {
    // Push -2 (0 - 2), then a type-2 jump over a bump to the exit.
    let code = vec![
        push_const(-2),
        push_const(2),
        ByteCode { op_code: OpCode::Jump, arg: 0 },
        op(OpCode::Bump),
        ByteCode { op_code: OpCode::Label, arg: 0 },
    ];
    let mut vm = ShrekVM::new(code);
    assert_eq!(-2, vm.run().unwrap());
}

#[test]
fn invalid_jump_type_faults() {
    let code = vec![push_const(7), ByteCode { op_code: OpCode::Jump, arg: 0 }];
    let mut vm = ShrekVM::new(code);
    assert_eq!("invalid jump type", vm.run().unwrap_err().message);
}

#[test]
fn invalid_builtin_selector_faults() {
    let code = vec![push_const(99), op(OpCode::Func)];
    let mut vm = ShrekVM::new(code);
    assert_eq!("invalid builtin function number", vm.run().unwrap_err().message);
}

#[test]
fn pop_on_empty_stack_faults() {
    let code = vec![op(OpCode::Pop)];
    let mut vm = ShrekVM::new(code);
    assert_eq!("cannot pop: stack is empty", vm.run().unwrap_err().message);
}

#[test]
fn generator_rejects_unknown_command_text() {
    let tree = SyntaxTree {
        tree: vec![SyntaxNode {
            token: Token { token_type: TokenType::Command, index: 4, value: "Z".to_string() },
            children: Vec::new(),
        }],
    };
    let err = generate_byte_code(&tree).unwrap_err();
    assert_eq!(4, err.index);
    assert_eq!("invalid operation code", err.message);
}

#[test]
fn generator_rejects_jump_without_child() {
    let tree = SyntaxTree {
        tree: vec![SyntaxNode {
            token: Token { token_type: TokenType::Command, index: 2, value: "K".to_string() },
            children: Vec::new(),
        }],
    };
    let err = generate_byte_code(&tree).unwrap_err();
    assert_eq!(2, err.index);
    assert_eq!("jump must be followed by a label", err.message);
}

#[test]
fn bump_wraps_at_the_integer_boundary() {
    let code = vec![push_const(i32::MAX), op(OpCode::Bump)];
    let mut vm = ShrekVM::new(code);
    assert_eq!(i32::MIN, vm.run().unwrap());
}

#[test]
fn input_keeps_trailing_whitespace_data() {
    // Only the line terminator is discarded; a trailing space is data.
    let mut vm = ShrekVM::new(Vec::new());
    vm.push_input_line("a \n".to_string().into_bytes());
    shrek_lang::builtins::input(&mut vm).unwrap();
    assert_eq!('a' as i32, vm.pop().unwrap());
    assert_eq!(' ' as i32, vm.pop().unwrap());
    assert_eq!(0, vm.pop().unwrap());
    assert_eq!(0, vm.count());
}

#[test]
fn unicode_whitespace_is_trivia() {
    // The whitespace class is the Unicode one: a no-break space and an
    // em space separate commands like any blank.
    let code = parse_code("S\u{a0}\u{2003}R").unwrap();
    assert_eq!(vec![push_const(1)], code);
}

#[test]
fn offsets_count_bytes() {
    // A two-byte character inside a comment shifts every later offset by
    // two bytes, not one position.
    let tokens = Tokenizer::new().tokenize("#\u{e9}\nS\u{a0}R").unwrap();
    assert_eq!(4, tokens.len());
    assert_eq!(0, tokens[0].index);
    assert_eq!("#\u{e9}\n", tokens[0].value);
    assert_eq!(4, tokens[1].index);
    assert_eq!("S", tokens[1].value);
    assert_eq!(5, tokens[2].index);
    assert_eq!(7, tokens[3].index);
    assert_eq!("R", tokens[3].value);

    // Error offsets count bytes too.
    let err = Tokenizer::new().tokenize("\u{a0}?").unwrap_err();
    assert_eq!(2, err.index);
    assert_eq!("Invalid Token", err.message);
}

#[test]
fn input_strips_line_terminator() {
    let mut vm = ShrekVM::new(Vec::new());
    vm.push_input_line("hi\r\n".to_string().into_bytes());
    shrek_lang::builtins::input(&mut vm).unwrap();
    assert_eq!('h' as i32, vm.pop().unwrap());
    assert_eq!('i' as i32, vm.pop().unwrap());
    assert_eq!(0, vm.pop().unwrap());
    assert_eq!(0, vm.count());
}

#[test]
fn input_without_queued_line_faults() {
    let mut vm = ShrekVM::new(Vec::new());
    let err = shrek_lang::builtins::input(&mut vm).unwrap_err();
    assert_eq!("Error reading input", err.message);
}

#[test]
fn output_builtin_records_emissions_in_order() {
    // Push 1, emit it, bump to 2, emit again; the run exits with 2.
    let code = vec![
        push_const(1),
        push_const(ops::OUTPUT),
        op(OpCode::Func),
        op(OpCode::Bump),
        push_const(ops::OUTPUT),
        op(OpCode::Func),
    ];
    let mut vm = ShrekVM::new(code);
    assert_eq!(2, vm.run().unwrap());
    assert_eq!(vec![1, 2], vm.outputs);
}

#[test]
fn optimized_and_unoptimized_runs_agree() {
    // A program mixing folds, builtins and output: both versions must
    // emit the same values and exit alike.
    let code = vec![
        push_const(6),
        push_const(2),
        push_const(ops::DIVIDE),
        op(OpCode::Func),
        push_const(ops::OUTPUT),
        op(OpCode::Func),
        op(OpCode::Push0),
        op(OpCode::Bump),
        op(OpCode::Bump),
        push_const(ops::ADD),
        op(OpCode::Func),
    ];
    let optimized = optimize(&code);
    assert!(optimized.len() < code.len());

    let mut plain_vm = ShrekVM::new(code);
    let plain_exit = plain_vm.run().unwrap();
    let mut opt_vm = ShrekVM::new(optimized);
    let opt_exit = opt_vm.run().unwrap();

    assert_eq!(plain_exit, opt_exit);
    assert_eq!(plain_vm.outputs, opt_vm.outputs);
}
