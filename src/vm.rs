use vstd::prelude::*;

use crate::bytecode::{decode, spec_decode, BinaryOp, Instruction};
use crate::program::{Constant, ErrorKind, FunctionDefinition, VmError};

verus! {

/// How deep calls may nest before a program is stopped with `StackOverflow`.
pub const MAX_CALL_DEPTH: usize = 256;

/// The state of one frame while its body runs: its evaluation stack, its
/// variable slots, and every line printed so far (each line the values of
/// one `PRINTLN`, in declared order).
pub struct Frame {
    pub stack: Seq<i64>,
    pub vars: Seq<i64>,
    pub output: Seq<Seq<i64>>,
}

/// A run that stopped on an error, with the lines printed before it.
pub struct Fault {
    pub error: VmError,
    pub output: Seq<Seq<i64>>,
}

/// A frame's stack and slots when its instruction stream is exhausted.
#[derive(Debug)]
pub struct FrameState {
    pub stack: Vec<i64>,
    pub variables: Vec<i64>,
}

/// `BINARY op` applied to the left and right operands.
pub open spec fn spec_binary(op: BinaryOp, l: i64, r: i64) -> Result<i64, ErrorKind> {
    let checked = |v: Option<i64>|
        match v {
            Some(x) => Ok(x),
            None => Err(ErrorKind::ArithmeticOverflow),
        };
    match op {
        BinaryOp::Plus => checked(l.checked_add(r)),
        BinaryOp::Subtract => checked(l.checked_sub(r)),
        BinaryOp::Multiply => checked(l.checked_mul(r)),
        BinaryOp::Divide => if r == 0 {
            Err(ErrorKind::DivisionByZero)
        } else {
            checked(l.checked_div(r))
        },
        BinaryOp::GreaterThan => Ok(if l > r { 1 } else { 0 }),
        BinaryOp::LessThan => Ok(if l < r { 1 } else { 0 }),
    }
}

/// The effect of an instruction other than a call on a frame, with the
/// number of bytes to skip after it.
pub open spec fn spec_step(consts: Seq<Constant>, ins: Instruction, f: Frame) -> Result<
    (Frame, nat),
    ErrorKind,
> {
    let s = f.stack;
    let n = s.len();
    let with_stack = |t: Seq<i64>| Frame { stack: t, vars: f.vars, output: f.output };
    match ins {
        Instruction::Pop => if n == 0 {
            Err(ErrorKind::StackUnderflow)
        } else {
            Ok((with_stack(s.drop_last()), 0))
        },
        Instruction::Binary(op) => if n < 2 {
            Err(ErrorKind::StackUnderflow)
        } else {
            match spec_binary(op, s[n - 2], s[n - 1]) {
                Ok(v) => Ok((with_stack(s.subrange(0, n - 2).push(v)), 0)),
                Err(k) => Err(k),
            }
        },
        Instruction::JumpIfFalse(offset) => if n == 0 {
            Err(ErrorKind::StackUnderflow)
        } else {
            Ok((with_stack(s.drop_last()), if s.last() == 0 { offset as nat } else { 0 }))
        },
        Instruction::JumpForward(offset) => Ok((f, offset as nat)),
        Instruction::InlineNumber(v) => Ok((with_stack(s.push(v as i64)), 0)),
        Instruction::LoadConstant(id) => if id >= consts.len() {
            Err(ErrorKind::IndexOutOfRange)
        } else {
            match consts[id as int] {
                Constant::Number(v) => Ok((with_stack(s.push(v)), 0)),
                Constant::Text(_) => Err(ErrorKind::UnsupportedConstantType),
            }
        },
        Instruction::ReadVariable(id) => if id >= f.vars.len() {
            Err(ErrorKind::IndexOutOfRange)
        } else {
            Ok((with_stack(s.push(f.vars[id as int])), 0))
        },
        Instruction::SetVariable(id) => if n == 0 {
            Err(ErrorKind::StackUnderflow)
        } else if id >= f.vars.len() {
            Err(ErrorKind::IndexOutOfRange)
        } else {
            Ok(
                (
                    Frame {
                        stack: s.drop_last(),
                        vars: f.vars.update(id as int, s.last()),
                        output: f.output,
                    },
                    0,
                ),
            )
        },
        Instruction::Println(count) => if n < count {
            Err(ErrorKind::StackUnderflow)
        } else {
            Ok(
                (
                    Frame {
                        stack: s.subrange(0, n - count).push(0),
                        vars: f.vars,
                        output: f.output.push(s.subrange(n - count, n as int)),
                    },
                    0,
                ),
            )
        },
        // a call's effect is `spec_call`
        Instruction::CallFunction(_) => Err(ErrorKind::UnsupportedOperation),
    }
}

/// `k` is the first function of the table with this name.
pub open spec fn first_named(funcs: Seq<FunctionDefinition>, name: Seq<char>, k: int) -> bool {
    &&& 0 <= k < funcs.len()
    &&& funcs[k].name@ == name
    &&& forall|j: int| 0 <= j < k ==> funcs[j].name@ != name
}

/// Where a call by this name goes: the first function so named, if any.
pub open spec fn spec_lookup(funcs: Seq<FunctionDefinition>, name: Seq<char>) -> Option<int> {
    if exists|k: int| first_named(funcs, name, k) {
        Some(choose|k: int| first_named(funcs, name, k))
    } else {
        None
    }
}

/// A callee's slots on entry: the arguments, then zeros.
pub open spec fn entry_slots(args: Seq<i64>, slot_count: nat) -> Seq<i64> {
    args + Seq::new((slot_count - args.len()) as nat, |i: int| 0i64)
}

/// `CALL_FUNCTION id` at offset `ip`, with `depth` further calls allowed.
pub open spec fn spec_call(
    depth: nat,
    consts: Seq<Constant>,
    funcs: Seq<FunctionDefinition>,
    id: u8,
    ip: int,
    f: Frame,
) -> Result<Frame, Fault>
    decreases depth, 0int,
{
    let fail = Fault { error: VmError::at(ErrorKind::IndexOutOfRange, ip), output: f.output };
    if id >= consts.len() {
        Err(fail)
    } else {
        match consts[id as int] {
            Constant::Number(_) => Err(
                Fault { error: VmError::at(ErrorKind::ExpectedStringConstant, ip), ..fail },
            ),
            Constant::Text(name) => match spec_lookup(funcs, name@) {
                None => Err(Fault { error: VmError::at(ErrorKind::UndefinedFunction, ip), ..fail }),
                Some(k) => {
                    let callee = funcs[k];
                    let arity = callee.parameters.len();
                    let n = f.stack.len();
                    if !callee.well_formed() {
                        Err(Fault { error: VmError::at(ErrorKind::MalformedProgram, ip), ..fail })
                    } else if n < arity {
                        Err(Fault { error: VmError::at(ErrorKind::StackUnderflow, ip), ..fail })
                    } else if depth == 0 {
                        Err(Fault { error: VmError::at(ErrorKind::StackOverflow, ip), ..fail })
                    } else {
                        let entry = Frame {
                            stack: Seq::empty(),
                            vars: entry_slots(f.stack.subrange(n - arity, n as int), callee.variables.len() as nat),
                            output: f.output,
                        };
                        match spec_run((depth - 1) as nat, callee.instructions@, consts, funcs, 0, entry) {
                            Err(e) => Err(e),
                            Ok(g) => Ok(
                                Frame {
                                    stack: f.stack.subrange(0, n - arity).push(callee.result_of(g.vars)),
                                    vars: f.vars,
                                    output: g.output,
                                },
                            ),
                        }
                    }
                }
            },
        }
    }
}

/// Runs `code` from offset `ip` until the stream is exhausted or an error
/// stops it.
pub open spec fn spec_run(
    depth: nat,
    code: Seq<u8>,
    consts: Seq<Constant>,
    funcs: Seq<FunctionDefinition>,
    ip: int,
    f: Frame,
) -> Result<Frame, Fault>
    decreases depth, code.len() - ip,
{
    if ip < 0 || ip >= code.len() {
        Ok(f)
    } else {
        match spec_decode(code, ip) {
            Err(k) => Err(Fault { error: VmError::at(k, ip), output: f.output }),
            Ok(ins) => match ins {
                Instruction::CallFunction(id) => match spec_call(depth, consts, funcs, id, ip, f) {
                    Err(e) => Err(e),
                    Ok(g) => spec_run(depth, code, consts, funcs, ip + ins.spec_size(), g),
                },
                _ => match spec_step(consts, ins, f) {
                    Err(k) => Err(Fault { error: VmError::at(k, ip), output: f.output }),
                    Ok((g, skip)) => {
                        // a jump past the end ends the body like falling off it
                        let next = ip + ins.spec_size() + skip;
                        let next = if next > code.len() { code.len() as int } else { next };
                        spec_run(depth, code, consts, funcs, next, g)
                    },
                },
            },
        }
    }
}

/// A frame whose body starts with an empty stack at offset 0.
pub open spec fn entry_frame(vars: Seq<i64>, output: Seq<Seq<i64>>) -> Frame {
    Frame { stack: Seq::empty(), vars, output }
}

/// `r` and the final output are what the specified run gives.
pub open spec fn reports(
    outcome: Result<Frame, Fault>,
    r: Result<FrameState, VmError>,
    out: Seq<Seq<i64>>,
) -> bool {
    match outcome {
        Ok(g) => r matches Ok(s) && s.stack@ == g.stack && s.variables@ == g.vars && out == g.output,
        Err(fault) => r matches Err(e) && e == fault.error && out == fault.output,
    }
}

/// A whole program: its top-level stream runs in a frame of zeroed slots,
/// one per variable name.
pub open spec fn spec_program(
    code: Seq<u8>,
    consts: Seq<Constant>,
    slot_count: nat,
    funcs: Seq<FunctionDefinition>,
    output: Seq<Seq<i64>>,
) -> Result<Frame, Fault> {
    spec_run(
        MAX_CALL_DEPTH as nat,
        code,
        consts,
        funcs,
        0,
        entry_frame(Seq::new(slot_count, |i: int| 0i64), output),
    )
}

/// Applies a binary operation: left is the operand pushed first.
pub fn binary(op: BinaryOp, l: i64, r: i64) -> (res: Result<i64, ErrorKind>)
    ensures
        res == spec_binary(op, l, r),
{
    let v = match op {
        BinaryOp::Plus => l.checked_add(r),
        BinaryOp::Subtract => l.checked_sub(r),
        BinaryOp::Multiply => l.checked_mul(r),
        BinaryOp::Divide => {
            if r == 0 {
                return Err(ErrorKind::DivisionByZero);
            }
            l.checked_div(r)
        },
        BinaryOp::GreaterThan => Some(if l > r { 1 } else { 0 }),
        BinaryOp::LessThan => Some(if l < r { 1 } else { 0 }),
    };
    match v {
        Some(x) => Ok(x),
        None => Err(ErrorKind::ArithmeticOverflow),
    }
}

/// Performs one instruction other than a call; returns how many bytes to
/// skip after it. On an error nothing is printed.
fn step(
    consts: &[Constant],
    ins: Instruction,
    stack: &mut Vec<i64>,
    vars: &mut Vec<i64>,
    out: &mut Vec<Vec<i64>>,
) -> (r: Result<u16, ErrorKind>)
    requires
        !(ins is CallFunction),
    ensures
        match spec_step(
            consts@,
            ins,
            Frame { stack: old(stack)@, vars: old(vars)@, output: old(out).deep_view() },
        ) {
            Ok((g, skip)) => r == Ok::<u16, ErrorKind>(skip as u16) && skip <= u16::MAX
                && final(stack)@ == g.stack && final(vars)@ == g.vars && final(out).deep_view() == g.output,
            Err(k) => r == Err::<u16, ErrorKind>(k) && final(out).deep_view() == old(out).deep_view(),
        },
{
    let n = stack.len();
    match ins {
        Instruction::Pop => {
            if n == 0 {
                return Err(ErrorKind::StackUnderflow);
            }
            stack.truncate(n - 1);
            Ok(0)
        },
        Instruction::Binary(op) => {
            if n < 2 {
                return Err(ErrorKind::StackUnderflow);
            }
            let v = match binary(op, stack[n - 2], stack[n - 1]) {
                Ok(v) => v,
                Err(k) => return Err(k),
            };
            stack.truncate(n - 2);
            stack.push(v);
            Ok(0)
        },
        Instruction::JumpIfFalse(offset) => {
            if n == 0 {
                return Err(ErrorKind::StackUnderflow);
            }
            let cond = stack[n - 1];
            stack.truncate(n - 1);
            Ok(if cond == 0 { offset } else { 0 })
        },
        Instruction::JumpForward(offset) => Ok(offset),
        Instruction::InlineNumber(v) => {
            stack.push(v as i64);
            Ok(0)
        },
        Instruction::LoadConstant(id) => {
            if id as usize >= consts.len() {
                return Err(ErrorKind::IndexOutOfRange);
            }
            match &consts[id as usize] {
                Constant::Number(v) => {
                    stack.push(*v);
                    Ok(0)
                },
                Constant::Text(_) => Err(ErrorKind::UnsupportedConstantType),
            }
        },
        Instruction::ReadVariable(id) => {
            if id as usize >= vars.len() {
                return Err(ErrorKind::IndexOutOfRange);
            }
            stack.push(vars[id as usize]);
            Ok(0)
        },
        Instruction::SetVariable(id) => {
            if n == 0 {
                return Err(ErrorKind::StackUnderflow);
            }
            if id as usize >= vars.len() {
                return Err(ErrorKind::IndexOutOfRange);
            }
            let v = stack[n - 1];
            stack.truncate(n - 1);
            vars.set(id as usize, v);
            Ok(0)
        },
        Instruction::Println(count) => {
            if n < count as usize {
                return Err(ErrorKind::StackUnderflow);
            }
            let line = stack.split_off(n - count as usize);
            let ghost before = out.deep_view();
            out.push(line);
            assert(line.deep_view() =~= line@);
            assert(out.deep_view() =~= before.push(line@));
            stack.push(0);
            Ok(0)
        },
        // calls are performed by `call_function`
        Instruction::CallFunction(_) => Err(ErrorKind::UnsupportedOperation),
    }
}

/// Finds the first function of the table with this name.
pub fn lookup(funcs: &[FunctionDefinition], name: &String) -> (r: Option<usize>)
    ensures
        spec_lookup(funcs@, name@) == (match r {
            Some(k) => Some(k as int),
            None => None::<int>,
        }),
{
    let mut i: usize = 0;
    while i < funcs.len()
        invariant
            i <= funcs@.len(),
            forall|j: int| 0 <= j < i ==> funcs@[j].name@ != name@,
        decreases funcs@.len() - i,
    {
        if funcs[i].name == *name {
            assert(first_named(funcs@, name@, i as int));
            assert forall|k: int| first_named(funcs@, name@, k) implies k == i by {
                if k < i {
                } else if k > i {
                    assert(funcs@[i as int].name@ == name@);
                }
            }
            return Some(i);
        }
        i = i + 1;
    }
    assert(!exists|k: int| first_named(funcs@, name@, k));
    None
}

/// Performs `CALL_FUNCTION id` at offset `ip`: the arguments leave the top of
/// the caller's stack and the call's value takes their place.
fn call_function(
    consts: &[Constant],
    funcs: &[FunctionDefinition],
    id: u8,
    ip: usize,
    depth: usize,
    stack: &mut Vec<i64>,
    vars: &Vec<i64>,
    out: &mut Vec<Vec<i64>>,
) -> (r: Result<(), VmError>)
    ensures
        match spec_call(
            depth as nat,
            consts@,
            funcs@,
            id,
            ip as int,
            Frame { stack: old(stack)@, vars: vars@, output: old(out).deep_view() },
        ) {
            Ok(g) => r is Ok && final(stack)@ == g.stack && g.vars == vars@ && final(out).deep_view() == g.output,
            Err(fault) => r == Err::<(), VmError>(fault.error) && final(out).deep_view() == fault.output,
        },
    decreases depth, 0nat,
{
    let idx = id as usize;
    if idx >= consts.len() {
        return Err(VmError::new(ErrorKind::IndexOutOfRange, ip));
    }
    let name = match &consts[idx] {
        Constant::Number(_) => return Err(VmError::new(ErrorKind::ExpectedStringConstant, ip)),
        Constant::Text(t) => t,
    };
    let k = match lookup(funcs, name) {
        Some(k) => k,
        None => return Err(VmError::new(ErrorKind::UndefinedFunction, ip)),
    };
    let callee = &funcs[k];
    let arity = callee.parameters.len();
    let slot_count = callee.variables.len();
    if arity > slot_count || (callee.has_out_var && slot_count == 0) {
        return Err(VmError::new(ErrorKind::MalformedProgram, ip));
    }
    let n = stack.len();
    if n < arity {
        return Err(VmError::new(ErrorKind::StackUnderflow, ip));
    }
    if depth == 0 {
        return Err(VmError::new(ErrorKind::StackOverflow, ip));
    }
    let mut slots = stack.split_off(n - arity);
    let ghost args = slots@;
    let mut i = arity;
    while i < slot_count
        invariant
            arity <= i <= slot_count,
            args.len() == arity,
            slots@ == entry_slots(args, i as nat),
        decreases slot_count - i,
    {
        assert(entry_slots(args, i as nat).push(0) =~= entry_slots(args, (i + 1) as nat));
        slots.push(0);
        i = i + 1;
    }
    let finished = match execute(callee.instructions.as_slice(), consts, funcs, slots, depth - 1, out) {
        Ok(g) => g,
        Err(e) => return Err(e),
    };
    let last = finished.variables.len();
    let value = if callee.has_out_var && last > 0 {
        finished.variables[last - 1]
    } else {
        0
    };
    stack.push(value);
    Ok(())
}

/// Runs one body in a frame whose slots start as given, until its stream is
/// exhausted; `depth` further calls may nest.
fn execute(
    code: &[u8],
    consts: &[Constant],
    funcs: &[FunctionDefinition],
    slots: Vec<i64>,
    depth: usize,
    out: &mut Vec<Vec<i64>>,
) -> (r: Result<FrameState, VmError>)
    ensures
        reports(
            spec_run(depth as nat, code@, consts@, funcs@, 0, entry_frame(slots@, old(out).deep_view())),
            r,
            final(out).deep_view(),
        ),
    decreases depth, 1nat,
{
    let ghost start = spec_run(depth as nat, code@, consts@, funcs@, 0, entry_frame(slots@, old(out).deep_view()));
    let mut stack: Vec<i64> = Vec::new();
    let mut vars = slots;
    let mut ip: usize = 0;
    while ip < code.len()
        invariant
            ip <= code@.len(),
            start == spec_run(depth as nat, code@, consts@, funcs@, 0, entry_frame(slots@, old(out).deep_view())),
            start == spec_run(
                depth as nat,
                code@,
                consts@,
                funcs@,
                ip as int,
                Frame { stack: stack@, vars: vars@, output: out.deep_view() },
            ),
        decreases code@.len() - ip,
    {
        let ins = match decode(code, ip) {
            Ok(i) => i,
            Err(k) => return Err(VmError::new(k, ip)),
        };
        let size = ins.size();
        match ins {
            Instruction::CallFunction(id) => {
                match call_function(consts, funcs, id, ip, depth, &mut stack, &vars, out) {
                    Ok(()) => {},
                    Err(e) => return Err(e),
                }
                ip = ip + size;
            },
            _ => {
                match step(consts, ins, &mut stack, &mut vars, out) {
                    Ok(skip) => {
                        let rest = code.len() - ip - size;
                        if skip as usize > rest {
                            ip = code.len();
                        } else {
                            ip = ip + size + skip as usize;
                        }
                    },
                    Err(k) => return Err(VmError::new(k, ip)),
                }
            },
        }
    }
    Ok(FrameState { stack, variables: vars })
}

/// Runs a program: the top-level stream in a frame with one zeroed slot per
/// variable name. Each `PRINTLN` appends one line to `out`, also when a later
/// error stops the run; the error is returned with the offset of the
/// instruction that raised it.
pub fn run(
    instructions: &[u8],
    constants: &[Constant],
    variable_names: &[String],
    functions: &[FunctionDefinition],
    out: &mut Vec<Vec<i64>>,
) -> (r: Result<FrameState, VmError>)
    ensures
        reports(
            spec_program(instructions@, constants@, variable_names@.len(), functions@, old(out).deep_view()),
            r,
            final(out).deep_view(),
        ),
{
    let mut slots: Vec<i64> = Vec::new();
    let mut i: usize = 0;
    while i < variable_names.len()
        invariant
            i <= variable_names@.len(),
            slots@ == Seq::new(i as nat, |j: int| 0i64),
        decreases variable_names@.len() - i,
    {
        slots.push(0);
        i = i + 1;
        assert(slots@ =~= Seq::new(i as nat, |j: int| 0i64));
    }
    execute(instructions, constants, functions, slots, MAX_CALL_DEPTH, out)
}

} // verus!
