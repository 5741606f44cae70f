use vstd::prelude::*;

use crate::bytecode::{spec_decode, BinaryOp, Instruction};
use crate::vm::{
    spec_binary, entry_frame, spec_call, spec_lookup, spec_run, spec_step, Fault, Frame,
};
use crate::loader::{
    block_spec, byte_spec, code_spec, constant_spec, constants_spec, count_spec, flag_spec,
    function_spec, functions_from, functions_spec, line_bytes, names_spec, program_spec,
};
use crate::program::{Constant, ErrorKind, FunctionDefinition, VmError};

verus! {

/// The bytes of an instruction sequence, one instruction after the other.
pub open spec fn encode_all(s: Seq<Instruction>) -> Seq<u8>
    decreases s.len(),
{
    if s.len() == 0 {
        Seq::empty()
    } else {
        encode_all(s.drop_last()) + s.last().spec_encode()
    }
}

/// The value an instruction pushes when it only pushes one: an inline number,
/// or a constant that is a number.
pub open spec fn pushed_value(consts: Seq<Constant>, i: Instruction) -> Option<i64> {
    match i {
        Instruction::InlineNumber(v) => Some(v as i64),
        Instruction::LoadConstant(id) => if id < consts.len() {
            match consts[id as int] {
                Constant::Number(v) => Some(v),
                Constant::Text(_) => None,
            }
        } else {
            None
        },
        _ => None,
    }
}

pub open spec fn pushes_values(consts: Seq<Constant>, s: Seq<Instruction>) -> Seq<i64> {
    Seq::new(s.len(), |k: int| pushed_value(consts, s[k])->0)
}

/// The bytes of `i` stand in `code` from offset `ip`.
pub open spec fn stands_at(code: Seq<u8>, ip: int, i: Instruction) -> bool {
    &&& 0 <= ip
    &&& ip + i.spec_size() <= code.len()
    &&& code.subrange(ip, ip + i.spec_size()) == i.spec_encode()
}

/// Where a jump of `by` bytes from `ip` lands: a target past the end ends
/// the body.
pub open spec fn landing(code: Seq<u8>, ip: int, by: int) -> int {
    if ip + by > code.len() {
        code.len() as int
    } else {
        ip + by
    }
}

/// The instruction whose bytes stand at `ip` decodes back to itself.
pub proof fn lemma_decode_at(code: Seq<u8>, ip: int, i: Instruction)
    requires
        stands_at(code, ip, i),
    ensures
        spec_decode(code, ip) == Ok::<Instruction, ErrorKind>(i),
{
    let e = i.spec_encode();
    assert(code[ip] == e[0]);
    if i.spec_size() >= 2 {
        assert(code[ip + 1] == e[1]);
    }
    if i.spec_size() >= 3 {
        assert(code[ip + 2] == e[2]);
        match i {
            Instruction::JumpIfFalse(n) | Instruction::JumpForward(n) => {
                assert(crate::bytecode::be16(code[ip + 1], code[ip + 2]) == n);
            },
            _ => {},
        }
    }
}

proof fn lemma_encode_all_len(s: Seq<Instruction>)
    requires
        forall|k: int| 0 <= k < s.len() ==> (#[trigger] s[k]).spec_size() == 2,
    ensures
        encode_all(s).len() == 2 * s.len(),
    decreases s.len(),
{
    if s.len() > 0 {
        lemma_encode_all_len(s.drop_last());
        crate::bytecode::lemma_decode_encode(s.last(), Seq::empty());
    }
}

/// Running a stretch of instructions that only push values leaves those
/// values on the stack, in order, and nothing else changed.
pub proof fn lemma_pushes(
    depth: nat,
    consts: Seq<Constant>,
    funcs: Seq<FunctionDefinition>,
    pushes: Seq<Instruction>,
    tail: Seq<u8>,
    f: Frame,
)
    requires
        forall|k: int| 0 <= k < pushes.len() ==> pushed_value(consts, #[trigger] pushes[k]) is Some,
    ensures
        spec_run(depth, encode_all(pushes) + tail, consts, funcs, 0, f) == spec_run(
            depth,
            encode_all(pushes) + tail,
            consts,
            funcs,
            encode_all(pushes).len() as int,
            Frame { stack: f.stack + pushes_values(consts, pushes), ..f },
        ),
    decreases pushes.len(),
{
    if pushes.len() == 0 {
        assert(encode_all(pushes) + tail =~= tail);
        assert(f.stack + pushes_values(consts, pushes) =~= f.stack);
    } else {
        let init = pushes.drop_last();
        let last = pushes.last();
        let code = encode_all(pushes) + tail;
        let rest = last.spec_encode() + tail;
        assert(code =~= encode_all(init) + rest);
        assert forall|k: int| 0 <= k < init.len() implies pushed_value(consts, #[trigger] init[k]) is Some by {
            assert(init[k] == pushes[k]);
        }
        lemma_pushes(depth, consts, funcs, init, rest, f);
        let ip = encode_all(init).len() as int;
        let g = Frame { stack: f.stack + pushes_values(consts, init), ..f };
        crate::bytecode::lemma_decode_encode(last, tail);
        assert(code.subrange(ip, ip + last.spec_size()) =~= last.spec_encode());
        lemma_decode_at(code, ip, last);
        assert(pushed_value(consts, pushes[pushes.len() - 1]) is Some);
        let h = Frame { stack: f.stack + pushes_values(consts, pushes), ..f };
        assert(g.stack.push(pushed_value(consts, last)->0) =~= h.stack);
        assert(spec_step(consts, last, g) == Ok::<(Frame, nat), ErrorKind>((h, 0)));
    }
}

/// A run of pushes followed by `BINARY PLUS` leaves the values pushed before
/// the last two, then the sum of those two; a sum beyond 64 bits stops the
/// run with `ArithmeticOverflow` at the `BINARY`.
pub proof fn law_pushes_then_plus(
    depth: nat,
    consts: Seq<Constant>,
    funcs: Seq<FunctionDefinition>,
    pushes: Seq<Instruction>,
    vars: Seq<i64>,
    output: Seq<Seq<i64>>,
)
    requires
        pushes.len() >= 2,
        forall|k: int| 0 <= k < pushes.len() ==> pushed_value(consts, #[trigger] pushes[k]) is Some,
    ensures
        ({
            let v = pushes_values(consts, pushes);
            let n = v.len() as int;
            let sum = v[n - 2] + v[n - 1];
            let code = encode_all(pushes) + Instruction::Binary(BinaryOp::Plus).spec_encode();
            spec_run(depth, code, consts, funcs, 0, entry_frame(vars, output)) == if i64::MIN <= sum
                <= i64::MAX {
                Ok::<Frame, Fault>(
                    Frame { stack: v.subrange(0, n - 2).push(sum as i64), vars, output },
                )
            } else {
                Err(
                    Fault {
                        error: VmError::at(ErrorKind::ArithmeticOverflow, 2 * n),
                        output,
                    },
                )
            }
        }),
{
    law_pushes_then_binary(depth, consts, funcs, pushes, BinaryOp::Plus, vars, output);
}

/// A run of pushes followed by any `BINARY op` applies `op` with the value
/// pushed second to last as left operand and the last one as right operand.
pub proof fn law_pushes_then_binary(
    depth: nat,
    consts: Seq<Constant>,
    funcs: Seq<FunctionDefinition>,
    pushes: Seq<Instruction>,
    op: BinaryOp,
    vars: Seq<i64>,
    output: Seq<Seq<i64>>,
)
    requires
        pushes.len() >= 2,
        forall|k: int| 0 <= k < pushes.len() ==> pushed_value(consts, #[trigger] pushes[k]) is Some,
    ensures
        ({
            let v = pushes_values(consts, pushes);
            let n = v.len() as int;
            let code = encode_all(pushes) + Instruction::Binary(op).spec_encode();
            spec_run(depth, code, consts, funcs, 0, entry_frame(vars, output)) == match spec_binary(
                op,
                v[n - 2],
                v[n - 1],
            ) {
                Ok(x) => Ok::<Frame, Fault>(
                    Frame { stack: v.subrange(0, n - 2).push(x), vars, output },
                ),
                Err(k) => Err(Fault { error: VmError::at(k, 2 * n), output }),
            }
        }),
{
    let bin = Instruction::Binary(op);
    let code = encode_all(pushes) + bin.spec_encode();
    let f = entry_frame(vars, output);
    lemma_pushes(depth, consts, funcs, pushes, bin.spec_encode(), f);
    assert forall|k: int| 0 <= k < pushes.len() implies (#[trigger] pushes[k]).spec_size() == 2 by {
        assert(pushed_value(consts, pushes[k]) is Some);
    }
    lemma_encode_all_len(pushes);
    let ip = encode_all(pushes).len() as int;
    assert(code.subrange(ip, ip + 2) =~= bin.spec_encode());
    lemma_decode_at(code, ip, bin);
    let v = pushes_values(consts, pushes);
    assert(f.stack + v =~= v);
    let n = v.len() as int;
    match spec_binary(op, v[n - 2], v[n - 1]) {
        Ok(x) => {
            let g = Frame { stack: v.subrange(0, n - 2).push(x), vars, output };
            assert(spec_run(depth, code, consts, funcs, ip + 2, g) == Ok::<Frame, Fault>(g));
        },
        Err(_) => {},
    }
}

/// Rust's integer division, which truncates toward zero.
pub open spec fn truncated_quotient(l: int, r: int) -> int {
    let q = (if l < 0 { -l } else { l }) / (if r < 0 { -r } else { r });
    if (l < 0) == (r < 0) {
        q
    } else {
        -q
    }
}

/// `SUBTRACT` and `DIVIDE` take the left operand minus, or divided by, the
/// right one, never the other way round; division truncates toward zero.
pub proof fn law_subtract_divide_order(l: i64, r: i64)
    ensures
        spec_binary(BinaryOp::Subtract, l, r) == if i64::MIN <= l - r <= i64::MAX {
            Ok::<i64, ErrorKind>((l - r) as i64)
        } else {
            Err(ErrorKind::ArithmeticOverflow)
        },
        r != 0 ==> spec_binary(BinaryOp::Divide, l, r) == if i64::MIN <= truncated_quotient(
            l as int,
            r as int,
        ) <= i64::MAX {
            Ok::<i64, ErrorKind>(truncated_quotient(l as int, r as int) as i64)
        } else {
            Err(ErrorKind::ArithmeticOverflow)
        },
{
}

/// Dividing by zero stops the run with `DivisionByZero` at the `BINARY`,
/// whatever the left operand.
pub proof fn law_divide_by_zero(
    depth: nat,
    code: Seq<u8>,
    consts: Seq<Constant>,
    funcs: Seq<FunctionDefinition>,
    ip: int,
    f: Frame,
)
    requires
        stands_at(code, ip, Instruction::Binary(BinaryOp::Divide)),
        f.stack.len() >= 2,
        f.stack.last() == 0,
    ensures
        spec_run(depth, code, consts, funcs, ip, f) == Err::<Frame, Fault>(
            Fault { error: VmError::at(ErrorKind::DivisionByZero, ip), output: f.output },
        ),
{
    lemma_decode_at(code, ip, Instruction::Binary(BinaryOp::Divide));
}

/// `SET_VARIABLE k` then `READ_VARIABLE k` stores the top of the stack in
/// slot `k` and reads back exactly that value.
pub proof fn law_set_then_read(
    depth: nat,
    code: Seq<u8>,
    consts: Seq<Constant>,
    funcs: Seq<FunctionDefinition>,
    ip: int,
    k: u8,
    f: Frame,
)
    requires
        stands_at(code, ip, Instruction::SetVariable(k)),
        stands_at(code, ip + 2, Instruction::ReadVariable(k)),
        f.stack.len() > 0,
        k < f.vars.len(),
    ensures
        spec_run(depth, code, consts, funcs, ip, f) == spec_run(
            depth,
            code,
            consts,
            funcs,
            ip + 4,
            Frame { stack: f.stack, vars: f.vars.update(k as int, f.stack.last()), output: f.output },
        ),
{
    lemma_decode_at(code, ip, Instruction::SetVariable(k));
    lemma_decode_at(code, ip + 2, Instruction::ReadVariable(k));
    let g = Frame {
        stack: f.stack.drop_last(),
        vars: f.vars.update(k as int, f.stack.last()),
        output: f.output,
    };
    assert(g.stack.push(g.vars[k as int]) =~= f.stack);
    let h = Frame { stack: f.stack, ..g };
    assert(spec_run(depth, code, consts, funcs, ip, f) == spec_run(depth, code, consts, funcs, ip + 2, g));
    assert(spec_run(depth, code, consts, funcs, ip + 2, g) == spec_run(depth, code, consts, funcs, ip + 4, h));
}

/// `JUMP_IF_FALSE n` pops the condition and skips `n` bytes past its operands
/// when it is zero, none otherwise.
pub proof fn law_jump_if_false(
    depth: nat,
    code: Seq<u8>,
    consts: Seq<Constant>,
    funcs: Seq<FunctionDefinition>,
    ip: int,
    n: u16,
    f: Frame,
)
    requires
        stands_at(code, ip, Instruction::JumpIfFalse(n)),
        f.stack.len() > 0,
    ensures
        spec_run(depth, code, consts, funcs, ip, f) == spec_run(
            depth,
            code,
            consts,
            funcs,
            if f.stack.last() == 0 {
                landing(code, ip, 3 + n)
            } else {
                ip + 3
            },
            Frame { stack: f.stack.drop_last(), ..f },
        ),
{
    lemma_decode_at(code, ip, Instruction::JumpIfFalse(n));
}

/// `JUMP_FORWARD n` skips `n` bytes past its operands, whatever the stack
/// holds.
pub proof fn law_jump_forward(
    depth: nat,
    code: Seq<u8>,
    consts: Seq<Constant>,
    funcs: Seq<FunctionDefinition>,
    ip: int,
    n: u16,
    f: Frame,
)
    requires
        stands_at(code, ip, Instruction::JumpForward(n)),
    ensures
        spec_run(depth, code, consts, funcs, ip, f) == spec_run(
            depth,
            code,
            consts,
            funcs,
            landing(code, ip, 3 + n),
            f,
        ),
{
    lemma_decode_at(code, ip, Instruction::JumpForward(n));
}

/// `PRINTLN n` takes the top `n` values off the stack, prints them in the
/// order they were pushed, and leaves one `0` in their place.
pub proof fn law_println(
    depth: nat,
    code: Seq<u8>,
    consts: Seq<Constant>,
    funcs: Seq<FunctionDefinition>,
    ip: int,
    n: u8,
    f: Frame,
)
    requires
        stands_at(code, ip, Instruction::Println(n)),
        f.stack.len() >= n,
    ensures
        ({
            let len = f.stack.len() as int;
            spec_run(depth, code, consts, funcs, ip, f) == spec_run(
                depth,
                code,
                consts,
                funcs,
                ip + 2,
                Frame {
                    stack: f.stack.subrange(0, len - n).push(0),
                    vars: f.vars,
                    output: f.output.push(f.stack.subrange(len - n, len)),
                },
            )
        }),
{
    lemma_decode_at(code, ip, Instruction::Println(n));
}

/// The function that `CALL_FUNCTION id` names.
pub open spec fn callee_of(
    consts: Seq<Constant>,
    funcs: Seq<FunctionDefinition>,
    id: u8,
    k: int,
) -> bool {
    &&& id < consts.len()
    &&& consts[id as int] matches Constant::Text(name) && spec_lookup(funcs, name@) == Some(k)
}

/// A function of one parameter with a result, whose body copies the
/// parameter into its last slot, hands back exactly its argument: the
/// caller's stack is as it was before the argument was pushed, plus the
/// argument.
pub proof fn law_identity_call(
    depth: nat,
    consts: Seq<Constant>,
    funcs: Seq<FunctionDefinition>,
    id: u8,
    k: int,
    ip: int,
    f: Frame,
)
    requires
        callee_of(consts, funcs, id, k),
        funcs[k].parameters.len() == 1,
        funcs[k].has_out_var,
        1 <= funcs[k].variables.len() <= 256,
        funcs[k].instructions@ == Instruction::ReadVariable(0).spec_encode()
            + Instruction::SetVariable((funcs[k].variables.len() - 1) as u8).spec_encode(),
        depth > 0,
        f.stack.len() > 0,
    ensures
        spec_call(depth, consts, funcs, id, ip, f) == Ok::<Frame, Fault>(f),
{
    let callee = funcs[k];
    let m = callee.variables.len() as int;
    let code = callee.instructions@;
    let n = f.stack.len() as int;
    let v = f.stack.last();
    let args = f.stack.subrange(n - 1, n);
    let slots = crate::vm::entry_slots(args, m as nat);
    let entry = entry_frame(slots, f.output);
    let last = Instruction::SetVariable((m - 1) as u8);
    assert(code.subrange(0, 2) =~= Instruction::ReadVariable(0).spec_encode());
    assert(code.subrange(2, 4) =~= last.spec_encode());
    lemma_decode_at(code, 0, Instruction::ReadVariable(0));
    lemma_decode_at(code, 2, last);
    assert(slots[0] == v);
    let done = Frame { stack: Seq::empty(), vars: slots.update(m - 1, v), output: f.output };
    let read = Frame { stack: seq![v], ..entry };
    let d = (depth - 1) as nat;
    assert(spec_run(d, code, consts, funcs, 4, done) == Ok::<Frame, Fault>(done));
    assert(read.stack.drop_last() =~= Seq::<i64>::empty());
    assert(spec_run(d, code, consts, funcs, 2, read) == spec_run(d, code, consts, funcs, 4, done));
    assert(entry.stack.push(slots[0]) =~= read.stack);
    assert(spec_run(d, code, consts, funcs, 0, entry) == spec_run(d, code, consts, funcs, 2, read));
    assert(callee.result_of(done.vars) == v);
    assert(Seq::<i64>::empty().push(v).drop_last() =~= Seq::<i64>::empty());
    assert(f.stack.subrange(0, n - 1).push(v) =~= f.stack);
}

/// A call of a function without a result yields `0`, whatever its body
/// computed.
pub proof fn law_no_out_var_yields_zero(
    depth: nat,
    consts: Seq<Constant>,
    funcs: Seq<FunctionDefinition>,
    id: u8,
    k: int,
    ip: int,
    f: Frame,
)
    requires
        callee_of(consts, funcs, id, k),
        !funcs[k].has_out_var,
    ensures
        spec_call(depth, consts, funcs, id, ip, f) matches Ok(g) ==> g.stack.len() > 0
            && g.stack.last() == 0,
{
}

/// The operand bytes an opcode needs, for those that take any.
pub open spec fn operand_bytes(op: u8) -> nat {
    if op == crate::bytecode::OP_JUMP_IF_FALSE || op == crate::bytecode::OP_JUMP_FORWARD {
        2
    } else if op == crate::bytecode::OP_BINARY || op == crate::bytecode::OP_INLINE_NUMBER
        || op == crate::bytecode::OP_LOAD_CONSTANT || op == crate::bytecode::OP_READ_VARIABLE
        || op == crate::bytecode::OP_SET_VARIABLE || op == crate::bytecode::OP_CALL_FUNCTION
        || op == crate::bytecode::OP_PRINTLN {
        1
    } else {
        0
    }
}

/// An opcode whose operands would run past the end of the stream stops the
/// run with `MalformedProgram` at that opcode.
pub proof fn law_truncated_operand(
    depth: nat,
    code: Seq<u8>,
    consts: Seq<Constant>,
    funcs: Seq<FunctionDefinition>,
    ip: int,
    f: Frame,
)
    requires
        0 <= ip < code.len(),
        operand_bytes(code[ip]) > 0,
        ip + operand_bytes(code[ip]) >= code.len(),
    ensures
        spec_run(depth, code, consts, funcs, ip, f) == Err::<Frame, Fault>(
            Fault { error: VmError::at(ErrorKind::MalformedProgram, ip), output: f.output },
        ),
{
}

/// A constant or slot index beyond its table stops the run with
/// `IndexOutOfRange`, and so does a call through a constant index beyond the
/// pool; a call by a name that no function has stops it with
/// `UndefinedFunction`.
pub proof fn law_bad_reference(
    depth: nat,
    code: Seq<u8>,
    consts: Seq<Constant>,
    funcs: Seq<FunctionDefinition>,
    ip: int,
    i: Instruction,
    f: Frame,
)
    requires
        stands_at(code, ip, i),
        match i {
            Instruction::LoadConstant(id) => id >= consts.len(),
            Instruction::ReadVariable(id) => id >= f.vars.len(),
            Instruction::SetVariable(id) => id >= f.vars.len() && f.stack.len() > 0,
            Instruction::CallFunction(id) => id >= consts.len() || (consts[id as int] matches Constant::Text(
                name,
            ) && spec_lookup(funcs, name@) is None),
            _ => false,
        },
    ensures
        spec_run(depth, code, consts, funcs, ip, f) == Err::<Frame, Fault>(
            Fault {
                error: VmError::at(
                    if i is CallFunction && i->CallFunction_0 < consts.len() {
                        ErrorKind::UndefinedFunction
                    } else {
                        ErrorKind::IndexOutOfRange
                    },
                    ip,
                ),
                output: f.output,
            },
        ),
{
    lemma_decode_at(code, ip, i);
    match i {
        Instruction::CallFunction(id) => {
            if id < consts.len() {
                assert(spec_call(depth, consts, funcs, id, ip, f) == Err::<Frame, Fault>(
                    Fault { error: VmError::at(ErrorKind::UndefinedFunction, ip), output: f.output },
                ));
            }
        },
        _ => {},
    }
}

/// A text that does not open with the `constants` header is rejected.
pub proof fn law_first_header_is_constants(lines: Seq<String>)
    requires
        lines.len() == 0 || lines[0]@ != "constants"@,
    ensures
        program_spec(lines) is None,
{
}

/// A section whose count announces more items than lines remain is
/// rejected, whichever section it is.
pub proof fn law_count_past_end(lines: Seq<String>, at: int, word: Seq<char>, n: nat)
    requires
        count_spec(lines, at + 1) == Some(n),
        at + 2 + n > lines.len(),
    ensures
        block_spec(lines, at, word) is None,
        names_spec(lines, at, word) is None,
        code_spec(lines, at) is None,
        constants_spec(lines, at) is None,
{
}

proof fn lemma_block_extends(lines: Seq<String>, extra: Seq<String>, at: int, word: Seq<char>)
    requires
        block_spec(lines, at, word) is Some,
    ensures
        block_spec(lines + extra, at, word) == block_spec(lines, at, word),
{
    let all = lines + extra;
    assert(all[at] == lines[at]);
    assert(all[at + 1] == lines[at + 1]);
}

proof fn lemma_names_extends(lines: Seq<String>, extra: Seq<String>, at: int, word: Seq<char>)
    requires
        names_spec(lines, at, word) is Some,
    ensures
        names_spec(lines + extra, at, word) == names_spec(lines, at, word),
{
    let all = lines + extra;
    lemma_block_extends(lines, extra, at, word);
    let n = block_spec(lines, at, word).unwrap().0;
    assert(Seq::new(n, |i: int| all[at + 2 + i]@) =~= Seq::new(n, |i: int| lines[at + 2 + i]@));
}

proof fn lemma_code_extends(lines: Seq<String>, extra: Seq<String>, at: int)
    requires
        code_spec(lines, at) is Some,
    ensures
        code_spec(lines + extra, at) == code_spec(lines, at),
{
    let all = lines + extra;
    lemma_block_extends(lines, extra, at, "instructions"@);
    let n = block_spec(lines, at, "instructions"@).unwrap().0;
    assert forall|i: int| 0 <= i < n implies #[trigger] byte_spec(all[at + 2 + i]) == byte_spec(
        lines[at + 2 + i],
    ) by {
        assert(all[at + 2 + i] == lines[at + 2 + i]);
    }
    assert(Seq::new(n, |i: int| byte_spec(all[at + 2 + i])->0 as u8) =~= Seq::new(
        n,
        |i: int| byte_spec(lines[at + 2 + i])->0 as u8,
    ));
}

proof fn lemma_constants_extends(lines: Seq<String>, extra: Seq<String>, at: int)
    requires
        constants_spec(lines, at) is Some,
    ensures
        constants_spec(lines + extra, at) == constants_spec(lines, at),
{
    let all = lines + extra;
    lemma_block_extends(lines, extra, at, "constants"@);
    let n = block_spec(lines, at, "constants"@).unwrap().0;
    assert forall|i: int| 0 <= i < n implies #[trigger] constant_spec(line_bytes(all[at + 2 + i]))
        == constant_spec(line_bytes(lines[at + 2 + i])) by {
        assert(all[at + 2 + i] == lines[at + 2 + i]);
    }
    assert(Seq::new(n, |i: int| constant_spec(line_bytes(all[at + 2 + i]))->0) =~= Seq::new(
        n,
        |i: int| constant_spec(line_bytes(lines[at + 2 + i]))->0,
    ));
}

proof fn lemma_function_extends(lines: Seq<String>, extra: Seq<String>, at: int)
    requires
        function_spec(lines, at) is Some,
    ensures
        function_spec(lines + extra, at) == function_spec(lines, at),
{
    let all = lines + extra;
    assert(all[at] == lines[at]);
    assert(all[at + 1] == lines[at + 1]);
    assert(flag_spec(all, at + 1) == flag_spec(lines, at + 1));
    lemma_names_extends(lines, extra, at + 2, "parameters"@);
    let p = names_spec(lines, at + 2, "parameters"@).unwrap().1;
    lemma_names_extends(lines, extra, p, "variables"@);
    let v = names_spec(lines, p, "variables"@).unwrap().1;
    lemma_code_extends(lines, extra, v);
}

proof fn lemma_functions_from_extends(lines: Seq<String>, extra: Seq<String>, at: int, count: nat)
    requires
        functions_from(lines, at, count) is Some,
    ensures
        functions_from(lines + extra, at, count) == functions_from(lines, at, count),
    decreases count,
{
    if count > 0 {
        lemma_functions_from_extends(lines, extra, at, (count - 1) as nat);
        let mid = functions_from(lines, at, (count - 1) as nat).unwrap().1;
        lemma_function_extends(lines, extra, mid);
    }
}

/// A text that holds a whole program and then more lines is rejected.
pub proof fn law_trailing_lines(lines: Seq<String>, extra: Seq<String>)
    requires
        program_spec(lines) is Some,
        extra.len() > 0,
    ensures
        program_spec(lines + extra) is None,
{
    let all = lines + extra;
    lemma_constants_extends(lines, extra, 0);
    let a = constants_spec(lines, 0).unwrap().1;
    assert(all[a] == lines[a]);
    assert(all[a + 1] == lines[a + 1]);
    assert(count_spec(all, a + 1) == count_spec(lines, a + 1));
    let n = count_spec(lines, a + 1)->0;
    lemma_functions_from_extends(lines, extra, a + 2, n);
    assert(functions_spec(all, a) == functions_spec(lines, a));
    let b = functions_spec(lines, a).unwrap().1;
    lemma_names_extends(lines, extra, b, "variables"@);
    let c = names_spec(lines, b, "variables"@).unwrap().1;
    lemma_code_extends(lines, extra, c);
}

/// A function block whose has-out-var line is neither `0` nor `1` is
/// rejected.
pub proof fn law_flag_is_zero_or_one(lines: Seq<String>, at: int)
    requires
        0 <= at,
        at + 1 < lines.len(),
        lines[at + 1]@ != "0"@,
        lines[at + 1]@ != "1"@,
    ensures
        function_spec(lines, at) is None,
{
}

/// A `constants` or `functions` section that does not start with its own
/// header is rejected.
pub proof fn law_section_headers(lines: Seq<String>, at: int)
    ensures
        !(0 <= at < lines.len() && lines[at]@ == "constants"@) ==> constants_spec(lines, at) is None,
        !(0 <= at < lines.len() && lines[at]@ == "functions"@) ==> functions_spec(lines, at) is None,
{
}

pub open spec fn factorial(n: nat) -> nat
    decreases n,
{
    if n == 0 {
        1
    } else {
        n * factorial((n - 1) as nat)
    }
}

proof fn lemma_factorial_grows(m: nat, n: nat)
    requires
        m <= n,
    ensures
        factorial(m) <= factorial(n),
    decreases n,
{
    if m < n {
        let p = (n - 1) as nat;
        lemma_factorial_grows(m, p);
        assert(factorial(p) <= n * factorial(p)) by (nonlinear_arith)
            requires
                n >= 1,
        {
        }
    }
}

proof fn lemma_factorial_fits(n: nat)
    requires
        n <= 20,
    ensures
        factorial(n) <= i64::MAX,
{
    assert(factorial(20) == 2432902008176640000) by {
        reveal_with_fuel(factorial, 21);
    }
    lemma_factorial_grows(n, 20);
}

/// The body of a recursive factorial over slots `n` and `r`:
/// `r = if n < 2 { 1 } else { n * fact(n - 1) }`, calling itself through
/// constant 0.
pub open spec fn factorial_code() -> Seq<u8> {
    seq![
        8u8, 0, 6, 2, 1, 7, 3, 0, 7, 6, 1, 9, 1, 4, 0, 14,
        8, 0, 8, 0, 6, 1, 1, 1, 11, 0, 1, 2, 9, 1,
    ]
}

proof fn lemma_factorial_step(code: Seq<u8>, ip: int, i: Instruction)
    requires
        code == factorial_code(),
        0 <= ip,
        ip + i.spec_size() <= 30,
        forall|j: int| 0 <= j < i.spec_size() ==> code[ip + j] == #[trigger] i.spec_encode()[j],
    ensures
        spec_decode(code, ip) == Ok::<Instruction, ErrorKind>(i),
{
    crate::bytecode::lemma_decode_encode(i, Seq::empty());
    assert(code.subrange(ip, ip + i.spec_size()) =~= i.spec_encode());
    lemma_decode_at(code, ip, i);
}

/// A recursive function that computes the factorial, with a base case that
/// avoids the recursive call and an argument that decreases by one on each
/// call, returns `n!` for every `n` whose factorial fits in 64 bits (up to
/// 20), given enough call depth.
pub proof fn law_recursive_factorial(
    depth: nat,
    consts: Seq<Constant>,
    funcs: Seq<FunctionDefinition>,
    k: int,
    ip: int,
    f: Frame,
    n: nat,
)
    requires
        callee_of(consts, funcs, 0, k),
        funcs[k].has_out_var,
        funcs[k].parameters.len() == 1,
        funcs[k].variables.len() == 2,
        funcs[k].instructions@ == factorial_code(),
        f.stack.len() > 0,
        f.stack.last() == n,
        n <= 20,
        depth > n,
    ensures
        spec_call(depth, consts, funcs, 0, ip, f) == Ok::<Frame, Fault>(
            Frame { stack: f.stack.drop_last().push(factorial(n) as i64), ..f },
        ),
    decreases n,
{
    lemma_factorial_fits(n);
    let code = factorial_code();
    let d = (depth - 1) as nat;
    let len = f.stack.len() as int;
    let slots = crate::vm::entry_slots(f.stack.subrange(len - 1, len), 2);
    assert(slots =~= seq![n as i64, 0i64]);
    let ni = n as i64;
    let e0 = entry_frame(slots, f.output);
    let e = |st: Seq<i64>, vs: Seq<i64>| Frame { stack: st, vars: vs, output: f.output };
    lemma_factorial_step(code, 0, Instruction::ReadVariable(0));
    lemma_factorial_step(code, 2, Instruction::InlineNumber(2));
    lemma_factorial_step(code, 4, Instruction::Binary(BinaryOp::LessThan));
    lemma_factorial_step(code, 6, Instruction::JumpIfFalse(7));
    assert(spec_run(d, code, consts, funcs, 0, e0) == spec_run(d, code, consts, funcs, 2, e(seq![ni], slots)));
    assert(seq![ni].push(2 as i64) =~= seq![ni, 2]);
    assert(spec_run(d, code, consts, funcs, 2, e(seq![ni], slots)) == spec_run(d, code, consts, funcs, 4, e(seq![ni, 2], slots)));
    let lt: i64 = if n < 2 { 1 } else { 0 };
    assert(seq![ni, 2i64].subrange(0, 0).push(lt) =~= seq![lt]);
    assert(spec_run(d, code, consts, funcs, 4, e(seq![ni, 2], slots)) == spec_run(d, code, consts, funcs, 6, e(seq![lt], slots)));
    assert(seq![lt].drop_last() =~= Seq::<i64>::empty());
    let result: i64 = factorial(n) as i64;
    let done = e(Seq::empty(), seq![ni, result]);
    assert(spec_run(d, code, consts, funcs, 30, done) == Ok::<Frame, Fault>(done));
    if n < 2 {
        assert(factorial(n) == 1) by {
            if n == 1 {
                assert(factorial(0) == 1);
            }
        }
        lemma_factorial_step(code, 9, Instruction::InlineNumber(1));
        lemma_factorial_step(code, 11, Instruction::SetVariable(1));
        lemma_factorial_step(code, 13, Instruction::JumpForward(14));
        assert(spec_run(d, code, consts, funcs, 6, e(seq![lt], slots)) == spec_run(d, code, consts, funcs, 9, e(Seq::empty(), slots)));
        assert(Seq::<i64>::empty().push(1) =~= seq![1i64]);
        assert(spec_run(d, code, consts, funcs, 9, e(Seq::empty(), slots)) == spec_run(d, code, consts, funcs, 11, e(seq![1], slots)));
        assert(seq![1i64].drop_last() =~= Seq::<i64>::empty());
        assert(slots.update(1, 1) =~= seq![ni, result]);
        assert(spec_run(d, code, consts, funcs, 11, e(seq![1], slots)) == spec_run(d, code, consts, funcs, 13, done));
        assert(spec_run(d, code, consts, funcs, 13, done) == spec_run(d, code, consts, funcs, 30, done));
    } else {
        let m = (n - 1) as nat;
        assert(factorial(n) == n * factorial(m));
        assert(factorial(m) <= factorial(n)) by (nonlinear_arith)
            requires
                factorial(n) == n * factorial(m),
                n >= 2,
        {
        }
        let mi = m as i64;
        lemma_factorial_step(code, 16, Instruction::ReadVariable(0));
        lemma_factorial_step(code, 18, Instruction::ReadVariable(0));
        lemma_factorial_step(code, 20, Instruction::InlineNumber(1));
        lemma_factorial_step(code, 22, Instruction::Binary(BinaryOp::Subtract));
        lemma_factorial_step(code, 24, Instruction::CallFunction(0));
        lemma_factorial_step(code, 26, Instruction::Binary(BinaryOp::Multiply));
        lemma_factorial_step(code, 28, Instruction::SetVariable(1));
        assert(spec_run(d, code, consts, funcs, 6, e(seq![lt], slots)) == spec_run(d, code, consts, funcs, 16, e(Seq::empty(), slots)));
        assert(Seq::<i64>::empty().push(ni) =~= seq![ni]);
        assert(spec_run(d, code, consts, funcs, 16, e(Seq::empty(), slots)) == spec_run(d, code, consts, funcs, 18, e(seq![ni], slots)));
        assert(seq![ni].push(slots[0]) =~= seq![ni, ni]);
        assert(seq![ni, ni].push(1 as i64) =~= seq![ni, ni, 1]);
        assert(spec_run(d, code, consts, funcs, 18, e(seq![ni], slots)) == spec_run(d, code, consts, funcs, 20, e(seq![ni, ni], slots)));
        assert(spec_run(d, code, consts, funcs, 20, e(seq![ni, ni], slots)) == spec_run(d, code, consts, funcs, 22, e(seq![ni, ni, 1], slots)));
        assert(seq![ni, ni, 1i64].subrange(0, 1).push(mi) =~= seq![ni, mi]);
        assert(spec_run(d, code, consts, funcs, 22, e(seq![ni, ni, 1], slots)) == spec_run(d, code, consts, funcs, 24, e(seq![ni, mi], slots)));
        let fm = factorial(m) as i64;
        law_recursive_factorial(d, consts, funcs, k, 24, e(seq![ni, mi], slots), m);
        assert(seq![ni, mi].drop_last().push(fm) =~= seq![ni, fm]);
        assert(spec_run(d, code, consts, funcs, 24, e(seq![ni, mi], slots)) == spec_run(d, code, consts, funcs, 26, e(seq![ni, fm], slots)));
        assert(seq![ni, fm].subrange(0, 0).push(result) =~= seq![result]);
        assert(spec_run(d, code, consts, funcs, 26, e(seq![ni, fm], slots)) == spec_run(d, code, consts, funcs, 28, e(seq![result], slots)));
        assert(seq![result].drop_last() =~= Seq::<i64>::empty());
        assert(slots.update(1, result) =~= seq![ni, result]);
        assert(spec_run(d, code, consts, funcs, 28, e(seq![result], slots)) == spec_run(d, code, consts, funcs, 30, done));
    }
    assert(funcs[k].result_of(done.vars) == result);
}

} // verus!
