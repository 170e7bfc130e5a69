use rforth::instructions::{
    add, and, branch, branch0, clearstack, div, dot, dot_quote, drop, dup, else_, eq, from_r,
    greater_than, if_, invert, less_than, mod_, mult, or, over, rot, sdot, sub, swap, then_,
    to_r,
};
use rforth::{tokenize_input, ErrorType, Function, Machine, Output, Value};

fn run(m: &mut Machine, src: &str) -> Result<(), ErrorType> {
    let input = tokenize_input(&src.to_string());
    m.execute(&input)
}

fn with_stack(values: &[i32]) -> Machine {
    let mut m = Machine::new();
    for v in values {
        m.push(*v);
    }
    m
}

fn word(w: &str) -> Value {
    Value::Word(w.to_string())
}

#[test]
fn binary_primitives_underflow_on_empty_stack() {
    let ops: Vec<fn(&mut Machine) -> Result<(), ErrorType>> =
        vec![add, sub, mult, div, mod_, eq, greater_than, less_than, and, or, swap, over, rot];
    for op in ops {
        let mut m = Machine::new();
        assert_eq!(op(&mut m), Err(ErrorType::StackUnderflow));
        assert!(m.stack.is_empty());
    }
}

#[test]
fn binary_primitives_underflow_with_one_value_pop_it() {
    let ops: Vec<fn(&mut Machine) -> Result<(), ErrorType>> =
        vec![add, sub, mult, div, mod_, eq, greater_than, less_than, and, or, swap, over, rot];
    for op in ops {
        let mut m = with_stack(&[7]);
        assert_eq!(op(&mut m), Err(ErrorType::StackUnderflow));
        assert!(m.stack.is_empty());
    }
}

#[test]
fn rot_underflow_with_two_values_pops_both() {
    let mut m = with_stack(&[1, 2]);
    assert_eq!(rot(&mut m), Err(ErrorType::StackUnderflow));
    assert!(m.stack.is_empty());
}

#[test]
fn unary_primitives_underflow_on_empty_stack() {
    let ops: Vec<fn(&mut Machine) -> Result<(), ErrorType>> =
        vec![dup, drop, invert, dot, to_r, branch0, if_];
    for op in ops {
        let mut m = Machine::new();
        assert_eq!(op(&mut m), Err(ErrorType::StackUnderflow));
        assert!(m.stack.is_empty());
    }
}

#[test]
fn underflow_through_execute_leaves_unpopped_values() {
    let mut m = Machine::new();
    assert_eq!(run(&mut m, "5 +"), Err(ErrorType::StackUnderflow));
    assert!(m.stack.is_empty());
    let mut m = Machine::new();
    assert_eq!(run(&mut m, "1 2 rot"), Err(ErrorType::StackUnderflow));
    assert!(m.stack.is_empty());
}

#[test]
fn from_r_underflow_on_empty_return_stack() {
    let mut m = with_stack(&[4]);
    assert_eq!(from_r(&mut m), Err(ErrorType::StackUnderflow));
    assert_eq!(m.stack, vec![4]);
}

#[test]
fn stack_shuffles_follow_their_laws() {
    let mut m = with_stack(&[1, 2, 3]);
    assert_eq!(swap(&mut m), Ok(()));
    assert_eq!(m.stack, vec![1, 3, 2]);

    let mut m = with_stack(&[1, 2, 3]);
    assert_eq!(over(&mut m), Ok(()));
    assert_eq!(m.stack, vec![1, 2, 3, 2]);

    let mut m = with_stack(&[1, 2, 3]);
    assert_eq!(rot(&mut m), Ok(()));
    assert_eq!(m.stack, vec![2, 3, 1]);

    let mut m = with_stack(&[1, 2, 3]);
    assert_eq!(dup(&mut m), Ok(()));
    assert_eq!(m.stack, vec![1, 2, 3, 3]);

    let mut m = with_stack(&[1, 2, 3]);
    assert_eq!(drop(&mut m), Ok(()));
    assert_eq!(m.stack, vec![1, 2]);
}

#[test]
fn swap_twice_and_rot_thrice_restore_the_stack() {
    let mut m = Machine::new();
    assert_eq!(run(&mut m, "1 2 3 swap swap"), Ok(()));
    assert_eq!(m.stack, vec![1, 2, 3]);
    assert_eq!(run(&mut m, "rot rot rot"), Ok(()));
    assert_eq!(m.stack, vec![1, 2, 3]);
}

#[test]
fn subtraction_pop_order() {
    let mut m = Machine::new();
    assert_eq!(run(&mut m, "10 3 -"), Ok(()));
    assert_eq!(m.stack, vec![-7]);
}

#[test]
fn arithmetic_pop_order() {
    let mut m = Machine::new();
    assert_eq!(run(&mut m, "10 3 +"), Ok(()));
    assert_eq!(m.stack, vec![13]);
    let mut m = Machine::new();
    assert_eq!(run(&mut m, "6 7 *"), Ok(()));
    assert_eq!(m.stack, vec![42]);
    let mut m = Machine::new();
    assert_eq!(run(&mut m, "2 10 /"), Ok(()));
    assert_eq!(m.stack, vec![5]);
    let mut m = Machine::new();
    assert_eq!(run(&mut m, "10 2 /"), Ok(()));
    assert_eq!(m.stack, vec![0]);
    let mut m = Machine::new();
    assert_eq!(run(&mut m, "3 10 mod"), Ok(()));
    assert_eq!(m.stack, vec![1]);
    let mut m = Machine::new();
    assert_eq!(run(&mut m, "3 -7 /"), Ok(()));
    assert_eq!(m.stack, vec![-2]);
    let mut m = Machine::new();
    assert_eq!(run(&mut m, "3 -7 mod"), Ok(()));
    assert_eq!(m.stack, vec![-1]);
}

#[test]
fn arithmetic_wraps_around() {
    let mut m = Machine::new();
    assert_eq!(run(&mut m, "2147483647 1 +"), Ok(()));
    assert_eq!(m.stack, vec![i32::MIN]);
    let mut m = Machine::new();
    assert_eq!(run(&mut m, "-1 -2147483648 /"), Ok(()));
    assert_eq!(m.stack, vec![i32::MIN]);
    let mut m = Machine::new();
    assert_eq!(run(&mut m, "65536 65536 *"), Ok(()));
    assert_eq!(m.stack, vec![0]);
}

#[test]
fn division_by_zero_fails() {
    let mut m = Machine::new();
    assert_eq!(run(&mut m, "1 0 5 /"), Err(ErrorType::DivisionByZero));
    assert_eq!(m.stack, vec![1]);
    let mut m = Machine::new();
    assert_eq!(run(&mut m, "0 5 mod"), Err(ErrorType::DivisionByZero));
    assert!(m.stack.is_empty());
}

#[test]
fn comparisons_push_flags() {
    let mut m = Machine::new();
    assert_eq!(run(&mut m, "4 4 = 4 5 = 5 3 > 3 5 > 3 5 < 5 3 <"), Ok(()));
    assert_eq!(m.stack, vec![-1, 0, -1, 0, -1, 0]);
}

#[test]
fn bitwise_primitives() {
    let mut m = Machine::new();
    assert_eq!(run(&mut m, "12 10 and 12 10 or 0 invert 5 invert"), Ok(()));
    assert_eq!(m.stack, vec![8, 14, -1, -6]);
}

#[test]
fn clearstack_empties_the_stack() {
    let mut m = with_stack(&[1, 2, 3]);
    assert_eq!(clearstack(&mut m), Ok(()));
    assert!(m.stack.is_empty());
}

#[test]
fn return_stack_transfer() {
    let mut m = Machine::new();
    assert_eq!(run(&mut m, "1 2 >r 3 r>"), Ok(()));
    assert_eq!(m.stack, vec![1, 3, 2]);
    assert!(m.return_stack.is_empty());
}

#[test]
fn dot_prints_and_sdot_keeps() {
    let mut m = Machine::new();
    assert_eq!(run(&mut m, "1 2 .s ."), Ok(()));
    assert_eq!(m.output, vec![Output::Stack(vec![1, 2]), Output::Number(2)]);
    assert_eq!(m.stack, vec![1]);
    assert_eq!(sdot(&mut m), Ok(()));
    assert_eq!(m.output[2], Output::Stack(vec![1]));
}

#[test]
fn square_definition_prints_25() {
    let mut m = Machine::new();
    assert_eq!(run(&mut m, ": square dup * ;"), Ok(()));
    assert_eq!(run(&mut m, "5 square ."), Ok(()));
    assert_eq!(m.output, vec![Output::Number(25)]);
    assert!(m.stack.is_empty());
}

#[test]
fn undefined_reference_fails_and_defines_nothing() {
    let mut m = Machine::new();
    assert_eq!(run(&mut m, ": bad foo ;"), Err(ErrorType::CompilationError));
    assert_eq!(m.output, vec![Output::UndefinedWord("foo".to_string())]);
    assert!(!m.compile_mode);
    assert!(m.compile_buffer.is_empty());
    assert!(!m.dictionary.contains_key(&"bad".to_string()));
    assert_eq!(run(&mut m, "bad"), Err(ErrorType::WordNotFound));
    assert_eq!(m.output[1], Output::UnknownWord("bad".to_string()));
}

#[test]
fn forward_reference_is_rejected() {
    let mut m = Machine::new();
    assert_eq!(run(&mut m, ": first second ;"), Err(ErrorType::CompilationError));
    assert_eq!(run(&mut m, ": second 2 ;"), Ok(()));
    assert_eq!(run(&mut m, "first"), Err(ErrorType::WordNotFound));
}

#[test]
fn empty_definition_is_a_compilation_error() {
    let mut m = Machine::new();
    assert_eq!(run(&mut m, ": ;"), Err(ErrorType::CompilationError));
    assert!(!m.compile_mode);
}

#[test]
fn if_else_then_selects_branch() {
    let mut m = Machine::new();
    assert_eq!(run(&mut m, ": test if 111 else 222 then . ;"), Ok(()));
    assert_eq!(run(&mut m, "0 test"), Ok(()));
    assert_eq!(run(&mut m, "7 test"), Ok(()));
    assert_eq!(m.output, vec![Output::Number(222), Output::Number(111)]);
    assert!(m.stack.is_empty());
}

#[test]
fn if_with_literal_flag_consumes_only_that_flag() {
    let mut m = Machine::new();
    assert_eq!(run(&mut m, ": test 1 if 111 else 222 then . ;"), Ok(()));
    assert_eq!(run(&mut m, "0 test"), Ok(()));
    assert_eq!(m.output, vec![Output::Number(111)]);
    assert_eq!(m.stack, vec![0]);
}

#[test]
fn if_then_compiles_to_forward_branch() {
    let mut m = Machine::new();
    assert_eq!(run(&mut m, ": t if 5 then 6 ;"), Ok(()));
    match m.dictionary.get(&"t".to_string()) {
        Some(Function::UserDefined(body)) => {
            assert_eq!(body, &vec![word("0branch"), Value::Number(2), Value::Number(5), Value::Number(6)]);
        }
        _ => panic!("t is not a user-defined word"),
    }
    assert_eq!(run(&mut m, "0 t 1 t"), Ok(()));
    assert_eq!(m.stack, vec![6, 5, 6]);
}

#[test]
fn if_else_then_compiles_to_two_branches() {
    let mut m = Machine::new();
    assert_eq!(run(&mut m, ": t if 1 2 else 3 then ;"), Ok(()));
    match m.dictionary.get(&"t".to_string()) {
        Some(Function::UserDefined(body)) => {
            assert_eq!(
                body,
                &vec![
                    word("0branch"),
                    Value::Number(5),
                    Value::Number(1),
                    Value::Number(2),
                    word("branch"),
                    Value::Number(2),
                    Value::Number(3),
                ]
            );
        }
        _ => panic!("t is not a user-defined word"),
    }
}

#[test]
fn nested_if_pairs_match_their_own_then() {
    let mut m = Machine::new();
    assert_eq!(run(&mut m, ": n if if 1 else 2 then else 3 then 9 ;"), Ok(()));
    assert_eq!(run(&mut m, "1 1 n"), Ok(()));
    assert_eq!(m.stack, vec![1, 9]);
    m.stack.clear();
    assert_eq!(run(&mut m, "0 1 n"), Ok(()));
    assert_eq!(m.stack, vec![2, 9]);
    m.stack.clear();
    assert_eq!(run(&mut m, "1 0 n"), Ok(()));
    assert_eq!(m.stack, vec![1, 3, 9]);
}

#[test]
fn sequential_if_pairs_match_their_own_then() {
    let mut m = Machine::new();
    assert_eq!(run(&mut m, ": s if 10 . then if 20 . then 30 ;"), Ok(()));
    assert_eq!(run(&mut m, "0 1 s"), Ok(()));
    assert_eq!(m.output, vec![Output::Number(10)]);
    assert_eq!(m.stack, vec![30]);
    assert_eq!(run(&mut m, "clearstack 1 0 s"), Ok(()));
    assert_eq!(m.output, vec![Output::Number(10), Output::Number(20)]);
    assert_eq!(m.stack, vec![30]);
    assert_eq!(run(&mut m, "clearstack 0 0 s"), Ok(()));
    assert_eq!(m.output.len(), 2);
    assert_eq!(m.stack, vec![30]);
}

#[test]
fn unbalanced_definition_is_rejected() {
    let mut m = Machine::new();
    assert_eq!(run(&mut m, ": u if 1 ;"), Err(ErrorType::UnbalancedControl));
    assert!(!m.dictionary.contains_key(&"u".to_string()));
    assert_eq!(run(&mut m, ": v 1 then ;"), Err(ErrorType::UnbalancedControl));
    assert_eq!(run(&mut m, ": w if 1 else 2 else 3 then ;"), Err(ErrorType::UnbalancedControl));
    assert!(m.compile_buffer.is_empty());
}

#[test]
fn interpreted_if_else_then() {
    let mut m = Machine::new();
    assert_eq!(run(&mut m, "0 if 1 else 2 then"), Ok(()));
    assert_eq!(m.stack, vec![2]);
    m.stack.clear();
    assert_eq!(run(&mut m, "5 if 1 else 2 then"), Ok(()));
    assert_eq!(m.stack, vec![1]);
    m.stack.clear();
    assert_eq!(run(&mut m, "0 if 1 if 2 then 3 then 4"), Ok(()));
    assert_eq!(m.stack, vec![4]);
    assert_eq!(run(&mut m, "0 if 1"), Err(ErrorType::UnbalancedControl));
}

#[test]
fn if_and_else_primitives_move_the_pointer() {
    let mut m = with_stack(&[0]);
    m.data = vec![word("if"), Value::Number(1), word("else"), Value::Number(2), word("then")];
    m.pc = 1;
    assert_eq!(if_(&mut m), Ok(()));
    assert_eq!(m.pc, 2);
    assert_eq!(m.control_flow_stack, vec![0]);
    assert_eq!(else_(&mut m), Ok(()));
    assert!(m.control_flow_stack.is_empty());
    assert_eq!(m.pc, 2);
    m.pc = 3;
    assert_eq!(else_(&mut m), Ok(()));
    assert_eq!(m.pc, 4);
    assert_eq!(then_(&mut m), Ok(()));
    assert_eq!(m.pc, 4);
}

#[test]
fn recursive_factorial() {
    let mut m = Machine::new();
    assert_eq!(run(&mut m, ": fact ;"), Ok(()));
    assert_eq!(run(&mut m, ": fact dup 1 > if dup 1 swap - fact * then ;"), Ok(()));
    assert_eq!(run(&mut m, "5 fact . 1 fact ."), Ok(()));
    assert_eq!(m.output, vec![Output::Number(120), Output::Number(1)]);
}

#[test]
fn recursion_restores_caller_pointer() {
    let mut m = Machine::new();
    assert_eq!(run(&mut m, ": down ;"), Ok(()));
    assert_eq!(run(&mut m, ": down dup 0 > if 1 swap - down then 7 ;"), Ok(()));
    assert_eq!(run(&mut m, "3 down 99"), Ok(()));
    assert_eq!(m.stack, vec![0, 7, 7, 7, 7, 99]);
    assert_eq!(m.pc, 3);
}

#[test]
fn unbounded_recursion_is_stopped() {
    let mut m = Machine::new();
    assert_eq!(run(&mut m, ": loop_forever ;"), Ok(()));
    assert_eq!(run(&mut m, ": loop_forever loop_forever ;"), Ok(()));
    assert_eq!(run(&mut m, "loop_forever"), Err(ErrorType::CallDepthExceeded));
}

#[test]
fn redefinition_replaces_entry() {
    let mut m = Machine::new();
    assert_eq!(run(&mut m, ": foo 1 ;"), Ok(()));
    assert_eq!(run(&mut m, ": user foo ;"), Ok(()));
    assert_eq!(run(&mut m, "user"), Ok(()));
    assert_eq!(run(&mut m, ": foo 2 ;"), Ok(()));
    assert_eq!(run(&mut m, "foo user"), Ok(()));
    assert_eq!(m.stack, vec![1, 2, 2]);
}

#[test]
fn redefinition_by_a_running_word() {
    let mut m = Machine::new();
    assert_eq!(run(&mut m, ": foo 1 ;"), Ok(()));
    assert_eq!(run(&mut m, ": start : foo 3 ;"), Ok(()));
    assert_eq!(run(&mut m, "foo start ; foo"), Ok(()));
    assert_eq!(m.stack, vec![1, 3]);
}

#[test]
fn numeric_name_is_stringified() {
    let mut m = Machine::new();
    assert_eq!(run(&mut m, ": 42 7 ;"), Ok(()));
    assert!(m.dictionary.contains_key(&"42".to_string()));
    assert_eq!(run(&mut m, "42"), Ok(()));
    assert_eq!(m.stack, vec![42]);
    assert_eq!(run(&mut m, ": -5 1 ;"), Ok(()));
    assert!(m.dictionary.contains_key(&"-5".to_string()));
}

#[test]
fn string_literal_prints_text() {
    let mut m = Machine::new();
    assert_eq!(run(&mut m, ".\" hello 5 world\" 1"), Ok(()));
    assert_eq!(m.output, vec![Output::Text("hello 5 world\n".to_string())]);
    assert_eq!(m.stack, vec![1]);
}

#[test]
fn string_literal_in_definition_is_not_validated() {
    let mut m = Machine::new();
    assert_eq!(run(&mut m, ": greet .\" undefined if words\" 3 ;"), Ok(()));
    assert_eq!(run(&mut m, "greet"), Ok(()));
    assert_eq!(m.output, vec![Output::Text("undefined if words\n".to_string())]);
    assert_eq!(m.stack, vec![3]);
}

#[test]
fn unclosed_string_literal_runs_to_end() {
    let mut m = Machine::new();
    m.data = vec![word("a"), Value::Number(-12)];
    m.pc = 0;
    assert_eq!(dot_quote(&mut m), Ok(()));
    assert_eq!(m.output, vec![Output::Text("a -12 ".to_string())]);
    assert_eq!(m.pc, 2);
}

#[test]
fn branch_errors() {
    let mut m = Machine::new();
    assert_eq!(run(&mut m, "0 0branch"), Err(ErrorType::BranchOutOfBounds));
    let mut m = Machine::new();
    assert_eq!(run(&mut m, "0 0branch foo"), Err(ErrorType::InvalidOffset));
    let mut m = Machine::new();
    assert_eq!(run(&mut m, "branch -1"), Err(ErrorType::InvalidOffset));
}

#[test]
fn jump_past_the_end_ends_the_run() {
    let mut m = Machine::new();
    assert_eq!(run(&mut m, "branch 5 1"), Ok(()));
    assert!(m.stack.is_empty());
    assert_eq!(m.pc, 6);
    let mut m = Machine::new();
    assert_eq!(run(&mut m, "7 0 0branch 9 1"), Ok(()));
    assert_eq!(m.stack, vec![7]);
    assert_eq!(m.pc, 12);
    let mut m = Machine::new();
    m.data = vec![word("branch"), Value::Number(100)];
    m.pc = 1;
    assert_eq!(branch(&mut m), Ok(()));
    assert_eq!(m.pc, 101);
}

#[test]
fn branches_jump_forward() {
    let mut m = Machine::new();
    assert_eq!(run(&mut m, "branch 2 1 2 0 0branch 2 3 4 5 0branch 9 6"), Ok(()));
    assert_eq!(m.stack, vec![2, 4, 6]);
    let mut m = Machine::new();
    m.data = vec![word("branch"), Value::Number(1)];
    m.pc = 1;
    assert_eq!(branch(&mut m), Ok(()));
    assert_eq!(m.pc, 2);
}

#[test]
fn structural_and_misplaced_words_fail() {
    let mut m = Machine::new();
    assert_eq!(run(&mut m, "do"), Err(ErrorType::OutsideCompileMode));
    assert_eq!(run(&mut m, ";"), Err(ErrorType::OutsideCompileMode));
    assert_eq!(run(&mut m, "nothing"), Err(ErrorType::WordNotFound));
}

#[test]
fn compile_mode_spans_lines() {
    let mut m = Machine::new();
    assert_eq!(run(&mut m, ": two"), Ok(()));
    assert!(m.compile_mode);
    assert_eq!(run(&mut m, "2 ;"), Ok(()));
    assert!(!m.compile_mode);
    assert_eq!(run(&mut m, "two two +"), Ok(()));
    assert_eq!(m.stack, vec![4]);
}

#[test]
fn tokenizer_splits_and_parses() {
    let tokens = tokenize_input(&"  1 -2\t+3 foo\n2147483648 -2147483648 - + 12a ".to_string());
    assert_eq!(
        tokens,
        vec![
            Value::Number(1),
            Value::Number(-2),
            Value::Number(3),
            word("foo"),
            word("2147483648"),
            Value::Number(i32::MIN),
            word("-"),
            word("+"),
            word("12a"),
        ]
    );
    assert!(tokenize_input(&" \u{3000} ".to_string()).is_empty());
    assert_eq!(tokenize_input(&"a\u{a0}b".to_string()), vec![word("a"), word("b")]);
}

#[test]
fn branch0_true_flag_steps_past_offset_even_at_end() {
    let mut m = with_stack(&[1]);
    assert_eq!(branch0(&mut m), Ok(()));
    assert_eq!(m.pc, 1);
    assert!(m.stack.is_empty());
    let mut m = Machine::new();
    assert_eq!(run(&mut m, "5 0branch"), Ok(()));
    assert_eq!(m.pc, 3);
    assert!(m.stack.is_empty());
}

#[test]
fn deeper_calls_with_a_larger_bound() {
    let mut m = Machine::new();
    assert_eq!(run(&mut m, ": down ;"), Ok(()));
    assert_eq!(run(&mut m, ": down dup 0 > if 1 swap - down then ;"), Ok(()));
    assert_eq!(run(&mut m, "600 down"), Err(ErrorType::CallDepthExceeded));
    let mut m = Machine::new();
    assert_eq!(run(&mut m, ": down ;"), Ok(()));
    assert_eq!(run(&mut m, ": down dup 0 > if 1 swap - down then ;"), Ok(()));
    let input = tokenize_input(&"600 down".to_string());
    assert_eq!(m.execute_with_depth(&input, 1000), Ok(()));
    assert_eq!(m.stack, vec![0]);
}
