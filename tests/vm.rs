use toirs::bytecode::{decode, BinaryOp, Instruction};
use toirs::vm::{binary, run, FrameState, MAX_CALL_DEPTH};
use toirs::program::{Constant, ErrorKind, FunctionDefinition, VmError};

const POP: u8 = 0;
const BINARY: u8 = 1;
const JUMP_IF_FALSE: u8 = 3;
const JUMP_FORWARD: u8 = 4;
const INLINE: u8 = 6;
const LOAD: u8 = 7;
const READ: u8 = 8;
const SET: u8 = 9;
const CALL: u8 = 11;
const PRINTLN: u8 = 12;

const PLUS: u8 = 0;
const SUBTRACT: u8 = 1;
const MULTIPLY: u8 = 2;
const DIVIDE: u8 = 3;
const LESS_THAN: u8 = 7;

fn names(n: usize) -> Vec<String> {
    (0..n).map(|i| format!("v{}", i)).collect()
}

fn function(name: &str, has_out_var: bool, params: usize, slots: usize, code: Vec<u8>) -> FunctionDefinition {
    FunctionDefinition {
        name: name.to_string(),
        has_out_var,
        parameters: names(params),
        variables: names(slots),
        instructions: code,
    }
}

fn exec(
    code: &[u8],
    constants: &[Constant],
    slots: usize,
    functions: &[FunctionDefinition],
) -> (Result<FrameState, VmError>, Vec<Vec<i64>>) {
    let mut out = Vec::new();
    let r = run(code, constants, &names(slots), functions, &mut out);
    (r, out)
}

fn fails(code: &[u8], constants: &[Constant], slots: usize, functions: &[FunctionDefinition]) -> VmError {
    exec(code, constants, slots, functions).0.unwrap_err()
}

#[test]
fn plus_of_two_inline_numbers() {
    let (r, out) = exec(&[INLINE, 3, INLINE, 4, BINARY, PLUS], &[], 0, &[]);
    assert_eq!(r.unwrap().stack, vec![7]);
    assert!(out.is_empty());
}

#[test]
fn plus_of_constants_and_inline_numbers() {
    let consts = [Constant::Number(1_000_000_000_000), Constant::Number(-5)];
    let (r, _) = exec(&[LOAD, 0, INLINE, 200, LOAD, 1, BINARY, PLUS], &consts, 0, &[]);
    assert_eq!(r.unwrap().stack, vec![1_000_000_000_000, 195]);
}

#[test]
fn plus_past_64_bits_overflows() {
    let consts = [Constant::Number(i64::MAX)];
    let e = fails(&[LOAD, 0, INLINE, 1, BINARY, PLUS], &consts, 0, &[]);
    assert_eq!(e, VmError { kind: ErrorKind::ArithmeticOverflow, position: 4 });
}

#[test]
fn subtract_is_left_minus_right() {
    let (r, _) = exec(&[INLINE, 10, INLINE, 3, BINARY, SUBTRACT], &[], 0, &[]);
    assert_eq!(r.unwrap().stack, vec![7]);
}

#[test]
fn divide_is_left_over_right_truncated() {
    let (r, _) = exec(&[INLINE, 10, INLINE, 3, BINARY, DIVIDE], &[], 0, &[]);
    assert_eq!(r.unwrap().stack, vec![3]);
    let consts = [Constant::Number(-7)];
    let (r, _) = exec(&[LOAD, 0, INLINE, 2, BINARY, DIVIDE], &consts, 0, &[]);
    assert_eq!(r.unwrap().stack, vec![-3]);
}

#[test]
fn multiply_and_comparisons() {
    let (r, _) = exec(
        &[INLINE, 6, INLINE, 7, BINARY, MULTIPLY, INLINE, 2, INLINE, 5, BINARY, LESS_THAN, INLINE, 2, INLINE, 5, BINARY, 6],
        &[],
        0,
        &[],
    );
    assert_eq!(r.unwrap().stack, vec![42, 1, 0]);
}

#[test]
fn divide_by_zero_fails() {
    let e = fails(&[INLINE, 9, INLINE, 0, BINARY, DIVIDE], &[], 0, &[]);
    assert_eq!(e, VmError { kind: ErrorKind::DivisionByZero, position: 4 });
    assert_eq!(binary(BinaryOp::Divide, 0, 0), Err(ErrorKind::DivisionByZero));
}

#[test]
fn divide_min_by_minus_one_overflows() {
    assert_eq!(binary(BinaryOp::Divide, i64::MIN, -1), Err(ErrorKind::ArithmeticOverflow));
}

#[test]
fn set_then_read_round_trips() {
    let consts = [Constant::Number(-123_456_789_012)];
    for k in 0..3u8 {
        let (r, _) = exec(&[LOAD, 0, SET, k, READ, k], &consts, 3, &[]);
        let state = r.unwrap();
        assert_eq!(state.stack, vec![-123_456_789_012]);
        assert_eq!(state.variables[k as usize], -123_456_789_012);
    }
}

#[test]
fn jump_if_false_on_zero_skips() {
    // condition 0: the INLINE 1 is skipped
    let (r, _) = exec(&[INLINE, 0, JUMP_IF_FALSE, 0, 2, INLINE, 1, INLINE, 2], &[], 0, &[]);
    assert_eq!(r.unwrap().stack, vec![2]);
}

#[test]
fn jump_if_false_on_nonzero_falls_through() {
    let (r, _) = exec(&[INLINE, 5, JUMP_IF_FALSE, 0, 2, INLINE, 1, INLINE, 2], &[], 0, &[]);
    assert_eq!(r.unwrap().stack, vec![1, 2]);
}

#[test]
fn jump_forward_ignores_the_stack() {
    let (r, _) = exec(&[INLINE, 0, JUMP_FORWARD, 0, 2, INLINE, 1, INLINE, 2], &[], 0, &[]);
    assert_eq!(r.unwrap().stack, vec![0, 2]);
    let (r, _) = exec(&[JUMP_FORWARD, 0, 2, INLINE, 1, INLINE, 2], &[], 0, &[]);
    assert_eq!(r.unwrap().stack, vec![2]);
}

#[test]
fn jump_past_the_end_ends_the_body() {
    let (r, _) = exec(&[INLINE, 1, JUMP_FORWARD, 1, 0, INLINE, 2], &[], 0, &[]);
    assert_eq!(r.unwrap().stack, vec![1]);
}

#[test]
fn identity_function_returns_its_argument() {
    let id = function("id", true, 1, 2, vec![READ, 0, SET, 1]);
    let consts = [Constant::Text("id".to_string()), Constant::Number(i64::MIN), Constant::Number(77)];
    let (r, _) = exec(&[LOAD, 1, CALL, 0, LOAD, 2, CALL, 0, INLINE, 255, CALL, 0], &consts, 0, &[id]);
    assert_eq!(r.unwrap().stack, vec![i64::MIN, 77, 255]);
}

#[test]
fn function_without_out_var_yields_zero() {
    let f = function("f", false, 1, 2, vec![READ, 0, INLINE, 9, BINARY, PLUS, SET, 1]);
    let consts = [Constant::Text("f".to_string())];
    let (r, _) = exec(&[INLINE, 4, CALL, 0], &consts, 0, &[f]);
    assert_eq!(r.unwrap().stack, vec![0]);
}

fn factorial() -> FunctionDefinition {
    function(
        "fact",
        true,
        1,
        2,
        vec![
            READ, 0, INLINE, 2, BINARY, LESS_THAN, JUMP_IF_FALSE, 0, 7, INLINE, 1, SET, 1, JUMP_FORWARD, 0, 14,
            READ, 0, READ, 0, INLINE, 1, BINARY, SUBTRACT, CALL, 0, BINARY, MULTIPLY, SET, 1,
        ],
    )
}

#[test]
fn recursive_factorial() {
    let consts = [Constant::Text("fact".to_string())];
    let expected = [1, 1, 2, 6, 24, 120, 720, 5040, 40320, 362880, 3628800];
    for (n, want) in expected.iter().enumerate() {
        let (r, _) = exec(&[INLINE, n as u8, CALL, 0, SET, 0], &consts, 1, &[factorial()]);
        assert_eq!(r.unwrap().variables, vec![*want]);
    }
}

#[test]
fn runaway_recursion_is_stopped() {
    let f = function("loop", false, 0, 0, vec![CALL, 0]);
    let consts = [Constant::Text("loop".to_string())];
    let e = fails(&[CALL, 0], &consts, 0, &[f]);
    assert_eq!(e, VmError { kind: ErrorKind::StackOverflow, position: 0 });
    assert!(MAX_CALL_DEPTH > 0);
}

#[test]
fn println_prints_in_declared_order() {
    let (r, out) = exec(&[INLINE, 7, INLINE, 1, INLINE, 2, INLINE, 3, PRINTLN, 3], &[], 0, &[]);
    assert_eq!(r.unwrap().stack, vec![7, 0]);
    assert_eq!(out, vec![vec![1, 2, 3]]);
}

#[test]
fn println_of_nothing_pushes_zero() {
    let (r, out) = exec(&[PRINTLN, 0], &[], 0, &[]);
    assert_eq!(r.unwrap().stack, vec![0]);
    assert_eq!(out, vec![Vec::<i64>::new()]);
}

#[test]
fn println_underflow() {
    let (r, out) = exec(&[INLINE, 1, PRINTLN, 2], &[], 0, &[]);
    assert_eq!(r.unwrap_err(), VmError { kind: ErrorKind::StackUnderflow, position: 2 });
    assert!(out.is_empty());
}

#[test]
fn output_before_an_error_is_kept() {
    let (r, out) = exec(&[INLINE, 1, PRINTLN, 1, POP, POP], &[], 0, &[]);
    assert_eq!(r.unwrap_err(), VmError { kind: ErrorKind::StackUnderflow, position: 5 });
    assert_eq!(out, vec![vec![1]]);
}

#[test]
fn callee_output_goes_to_the_same_place() {
    let f = function("show", false, 2, 2, vec![READ, 1, READ, 0, PRINTLN, 2, POP]);
    let consts = [Constant::Text("show".to_string())];
    let (r, out) = exec(&[INLINE, 1, INLINE, 2, CALL, 0, POP, INLINE, 3, PRINTLN, 1], &consts, 0, &[f]);
    assert_eq!(r.unwrap().stack, vec![0]);
    assert_eq!(out, vec![vec![2, 1], vec![3]]);
}

#[test]
fn truncated_operands_are_malformed() {
    let cases = [
        (vec![INLINE], 0),
        (vec![BINARY], 0),
        (vec![JUMP_IF_FALSE, 0], 0),
        (vec![INLINE, 1, JUMP_FORWARD], 2),
        (vec![INLINE, 1, PRINTLN], 2),
    ];
    for (code, position) in cases {
        assert_eq!(fails(&code, &[], 0, &[]), VmError { kind: ErrorKind::MalformedProgram, position });
    }
}

#[test]
fn unknown_and_reserved_opcodes() {
    assert_eq!(fails(&[14], &[], 0, &[]).kind, ErrorKind::UnknownOpcode);
    assert_eq!(fails(&[10, 0], &[], 0, &[]).kind, ErrorKind::UnknownOpcode);
    assert_eq!(fails(&[200], &[], 0, &[]).kind, ErrorKind::UnknownOpcode);
    assert_eq!(fails(&[2], &[], 0, &[]).kind, ErrorKind::UnsupportedOperation);
    assert_eq!(fails(&[5, 0, 0], &[], 0, &[]).kind, ErrorKind::UnsupportedOperation);
    for sub in [4u8, 5, 8] {
        assert_eq!(fails(&[INLINE, 1, INLINE, 1, BINARY, sub], &[], 0, &[]).kind, ErrorKind::UnsupportedOperation);
    }
    assert_eq!(fails(&[INLINE, 1, INLINE, 1, BINARY, 9], &[], 0, &[]).kind, ErrorKind::UnknownOpcode);
}

#[test]
fn indexes_out_of_range() {
    let consts = [Constant::Number(1)];
    assert_eq!(fails(&[LOAD, 1], &consts, 0, &[]), VmError { kind: ErrorKind::IndexOutOfRange, position: 0 });
    assert_eq!(fails(&[READ, 2], &[], 2, &[]), VmError { kind: ErrorKind::IndexOutOfRange, position: 0 });
    assert_eq!(fails(&[INLINE, 1, SET, 0], &[], 0, &[]), VmError { kind: ErrorKind::IndexOutOfRange, position: 2 });
    assert_eq!(fails(&[CALL, 3], &consts, 0, &[]), VmError { kind: ErrorKind::IndexOutOfRange, position: 0 });
}

#[test]
fn stack_underflows() {
    assert_eq!(fails(&[POP], &[], 0, &[]).kind, ErrorKind::StackUnderflow);
    assert_eq!(fails(&[INLINE, 1, BINARY, PLUS], &[], 0, &[]).kind, ErrorKind::StackUnderflow);
    assert_eq!(fails(&[JUMP_IF_FALSE, 0, 0], &[], 0, &[]).kind, ErrorKind::StackUnderflow);
    assert_eq!(fails(&[SET, 0], &[], 1, &[]).kind, ErrorKind::StackUnderflow);
    let f = function("two", false, 2, 2, vec![]);
    let consts = [Constant::Text("two".to_string())];
    assert_eq!(fails(&[INLINE, 1, CALL, 0], &consts, 0, &[f]), VmError { kind: ErrorKind::StackUnderflow, position: 2 });
}

#[test]
fn bad_calls() {
    let consts = [Constant::Text("nowhere".to_string()), Constant::Number(3)];
    let f = function("somewhere", false, 0, 0, vec![]);
    assert_eq!(fails(&[CALL, 0], &consts, 0, &[f]).kind, ErrorKind::UndefinedFunction);
    assert_eq!(fails(&[CALL, 1], &consts, 0, &[]).kind, ErrorKind::ExpectedStringConstant);
    let text = [Constant::Text("s".to_string())];
    assert_eq!(fails(&[LOAD, 0], &text, 0, &[]).kind, ErrorKind::UnsupportedConstantType);
}

#[test]
fn ill_formed_callees_are_malformed() {
    let consts = [Constant::Text("f".to_string())];
    let no_slot = function("f", true, 0, 0, vec![]);
    assert_eq!(fails(&[CALL, 0], &consts, 0, &[no_slot]).kind, ErrorKind::MalformedProgram);
    let few_slots = function("f", false, 2, 1, vec![]);
    assert_eq!(fails(&[INLINE, 1, INLINE, 2, CALL, 0], &consts, 0, &[few_slots]).kind, ErrorKind::MalformedProgram);
}

#[test]
fn first_function_of_a_name_wins() {
    let first = function("f", true, 0, 1, vec![INLINE, 1, SET, 0]);
    let second = function("f", true, 0, 1, vec![INLINE, 2, SET, 0]);
    let consts = [Constant::Text("f".to_string())];
    let (r, _) = exec(&[CALL, 0], &consts, 0, &[first, second]);
    assert_eq!(r.unwrap().stack, vec![1]);
}

#[test]
fn callee_frames_are_isolated() {
    // the callee writes its own slot 0; the caller's slot 0 keeps its value
    let f = function("f", false, 0, 1, vec![INLINE, 99, SET, 0]);
    let consts = [Constant::Text("f".to_string())];
    let (r, _) = exec(&[INLINE, 5, SET, 0, INLINE, 8, CALL, 0, POP], &consts, 1, &[f]);
    let state = r.unwrap();
    assert_eq!(state.variables, vec![5]);
    assert_eq!(state.stack, vec![8]);
}

#[test]
fn empty_program_does_nothing() {
    let (r, out) = exec(&[], &[], 2, &[]);
    let state = r.unwrap();
    assert!(state.stack.is_empty());
    assert_eq!(state.variables, vec![0, 0]);
    assert!(out.is_empty());
}

#[test]
fn encode_then_decode() {
    let all = [
        Instruction::Pop,
        Instruction::Binary(BinaryOp::Plus),
        Instruction::Binary(BinaryOp::LessThan),
        Instruction::JumpIfFalse(0x1234),
        Instruction::JumpForward(300),
        Instruction::InlineNumber(255),
        Instruction::LoadConstant(1),
        Instruction::ReadVariable(2),
        Instruction::SetVariable(3),
        Instruction::CallFunction(4),
        Instruction::Println(5),
    ];
    for i in all {
        let bytes = i.encode();
        assert_eq!(bytes.len(), i.size());
        assert_eq!(decode(&bytes, 0), Ok(i));
    }
    assert_eq!(Instruction::JumpForward(300).encode(), vec![JUMP_FORWARD, 1, 44]);
}

#[test]
fn reversed_operands_subtract_and_divide() {
    let (r, _) = exec(&[INLINE, 3, INLINE, 10, BINARY, SUBTRACT, INLINE, 3, INLINE, 10, BINARY, DIVIDE], &[], 0, &[]);
    assert_eq!(r.unwrap().stack, vec![-7, 0]);
}

#[test]
fn jump_if_false_on_negative_condition_falls_through() {
    let consts = [Constant::Number(-1), Constant::Number(0)];
    let (r, _) = exec(&[LOAD, 0, JUMP_IF_FALSE, 0, 4, INLINE, 7, SET, 0], &consts, 1, &[]);
    assert_eq!(r.unwrap().variables, vec![7]);
    let (r, _) = exec(&[INLINE, 42, SET, 0, LOAD, 1, JUMP_IF_FALSE, 0, 4, INLINE, 7, SET, 0], &consts, 1, &[]);
    assert_eq!(r.unwrap().variables, vec![42]);
}

#[test]
fn factorial_up_to_twenty_is_printed() {
    let consts = [Constant::Text("fact".to_string())];
    let mut want: i64 = 1;
    for n in 0..=20u8 {
        if n > 0 {
            want *= n as i64;
        }
        let (r, out) = exec(&[INLINE, n, CALL, 0, PRINTLN, 1], &consts, 0, &[factorial()]);
        assert_eq!(r.unwrap().stack, vec![0]);
        assert_eq!(out, vec![vec![want]]);
    }
}
