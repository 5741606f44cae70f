use vstd::prelude::*;

verus! {

/// A literal of the constant pool.
#[derive(Debug)]
pub enum Constant {
    Number(i64),
    Text(String),
}

/// A named function: its parameters, its variable slots (the parameters
/// first) and its own instruction stream.
#[derive(Debug)]
pub struct FunctionDefinition {
    pub name: String,
    pub has_out_var: bool,
    pub parameters: Vec<String>,
    pub variables: Vec<String>,
    pub instructions: Vec<u8>,
}

/// What went wrong while loading or running a program.
#[derive(Debug, Clone, Copy, PartialEq, Eq, Structural)]
pub enum ErrorKind {
    MalformedProgram,
    UnknownOpcode,
    UnsupportedOperation,
    StackUnderflow,
    UndefinedFunction,
    ExpectedStringConstant,
    UnsupportedConstantType,
    DivisionByZero,
    IndexOutOfRange,
    StackOverflow,
    ArithmeticOverflow,
}

/// An error and where it arose: the offset of the instruction in its stream
/// while running, the line index while loading.
#[derive(Debug, Clone, Copy, PartialEq, Eq, Structural)]
pub struct VmError {
    pub kind: ErrorKind,
    pub position: usize,
}

impl VmError {
    pub open spec fn at(kind: ErrorKind, position: int) -> VmError {
        VmError { kind, position: position as usize }
    }

    pub fn new(kind: ErrorKind, position: usize) -> (r: VmError)
        ensures
            r == VmError::at(kind, position as int),
    {
        VmError { kind, position }
    }
}

impl FunctionDefinition {
    /// A definition can be called: every parameter has a slot, and a function
    /// with a result has a last slot to take it from.
    pub open spec fn well_formed(&self) -> bool {
        &&& self.parameters.len() <= self.variables.len()
        &&& self.has_out_var ==> self.variables.len() > 0
    }

    /// The value a call yields, given the callee's slots when its body ends.
    pub open spec fn result_of(&self, slots: Seq<i64>) -> i64 {
        if self.has_out_var && slots.len() > 0 {
            slots.last()
        } else {
            0
        }
    }
}

} // verus!

verus! {

/// A loaded program: constant pool, function table, top-level variable
/// names and top-level instruction stream.
#[derive(Debug)]
pub struct Program {
    pub constants: Vec<Constant>,
    pub functions: Vec<FunctionDefinition>,
    pub variables: Vec<String>,
    pub instructions: Vec<u8>,
}

} // verus!
