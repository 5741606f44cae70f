use vstd::prelude::*;

use crate::program::ErrorKind;

verus! {

pub const OP_POP: u8 = 0;
pub const OP_BINARY: u8 = 1;
pub const OP_NOT: u8 = 2;
pub const OP_JUMP_IF_FALSE: u8 = 3;
pub const OP_JUMP_FORWARD: u8 = 4;
pub const OP_JUMP_BACK: u8 = 5;
pub const OP_INLINE_NUMBER: u8 = 6;
pub const OP_LOAD_CONSTANT: u8 = 7;
pub const OP_READ_VARIABLE: u8 = 8;
pub const OP_SET_VARIABLE: u8 = 9;
pub const OP_CALL_FUNCTION: u8 = 11;
pub const OP_PRINTLN: u8 = 12;

pub const OP_BINARY_PLUS: u8 = 0;
pub const OP_BINARY_SUBTRACT: u8 = 1;
pub const OP_BINARY_MULTIPLY: u8 = 2;
pub const OP_BINARY_DIVIDE: u8 = 3;
pub const OP_BINARY_REMAINDER: u8 = 4;
pub const OP_BINARY_EQUAL: u8 = 5;
pub const OP_BINARY_GREATER_THAN: u8 = 6;
pub const OP_BINARY_LESS_THAN: u8 = 7;
pub const OP_BINARY_CONCAT: u8 = 8;

/// The sub-operations of `BINARY` that have a meaning.
#[derive(Debug, Clone, Copy, PartialEq, Eq, Structural)]
pub enum BinaryOp {
    Plus,
    Subtract,
    Multiply,
    Divide,
    GreaterThan,
    LessThan,
}

/// One decoded instruction with its operand.
#[derive(Debug, Clone, Copy, PartialEq, Eq, Structural)]
pub enum Instruction {
    Pop,
    Binary(BinaryOp),
    JumpIfFalse(u16),
    JumpForward(u16),
    InlineNumber(u8),
    LoadConstant(u8),
    ReadVariable(u8),
    SetVariable(u8),
    CallFunction(u8),
    Println(u8),
}

pub open spec fn spec_binary_op(sub: u8) -> Result<BinaryOp, ErrorKind> {
    if sub == OP_BINARY_PLUS {
        Ok(BinaryOp::Plus)
    } else if sub == OP_BINARY_SUBTRACT {
        Ok(BinaryOp::Subtract)
    } else if sub == OP_BINARY_MULTIPLY {
        Ok(BinaryOp::Multiply)
    } else if sub == OP_BINARY_DIVIDE {
        Ok(BinaryOp::Divide)
    } else if sub == OP_BINARY_GREATER_THAN {
        Ok(BinaryOp::GreaterThan)
    } else if sub == OP_BINARY_LESS_THAN {
        Ok(BinaryOp::LessThan)
    } else if sub == OP_BINARY_REMAINDER || sub == OP_BINARY_EQUAL || sub == OP_BINARY_CONCAT {
        Err(ErrorKind::UnsupportedOperation)
    } else {
        Err(ErrorKind::UnknownOpcode)
    }
}

impl BinaryOp {
    pub open spec fn spec_code(self) -> u8 {
        match self {
            BinaryOp::Plus => OP_BINARY_PLUS,
            BinaryOp::Subtract => OP_BINARY_SUBTRACT,
            BinaryOp::Multiply => OP_BINARY_MULTIPLY,
            BinaryOp::Divide => OP_BINARY_DIVIDE,
            BinaryOp::GreaterThan => OP_BINARY_GREATER_THAN,
            BinaryOp::LessThan => OP_BINARY_LESS_THAN,
        }
    }

    /// The sub-opcode byte that encodes this operation.
    pub fn code(&self) -> (r: u8)
        ensures
            r == self.spec_code(),
    {
        match self {
            BinaryOp::Plus => OP_BINARY_PLUS,
            BinaryOp::Subtract => OP_BINARY_SUBTRACT,
            BinaryOp::Multiply => OP_BINARY_MULTIPLY,
            BinaryOp::Divide => OP_BINARY_DIVIDE,
            BinaryOp::GreaterThan => OP_BINARY_GREATER_THAN,
            BinaryOp::LessThan => OP_BINARY_LESS_THAN,
        }
    }

    /// Decodes a sub-opcode: reserved ones are unsupported, others unknown.
    pub fn from_code(sub: u8) -> (r: Result<BinaryOp, ErrorKind>)
        ensures
            r == spec_binary_op(sub),
    {
        if sub == OP_BINARY_PLUS {
            Ok(BinaryOp::Plus)
        } else if sub == OP_BINARY_SUBTRACT {
            Ok(BinaryOp::Subtract)
        } else if sub == OP_BINARY_MULTIPLY {
            Ok(BinaryOp::Multiply)
        } else if sub == OP_BINARY_DIVIDE {
            Ok(BinaryOp::Divide)
        } else if sub == OP_BINARY_GREATER_THAN {
            Ok(BinaryOp::GreaterThan)
        } else if sub == OP_BINARY_LESS_THAN {
            Ok(BinaryOp::LessThan)
        } else if sub == OP_BINARY_REMAINDER || sub == OP_BINARY_EQUAL || sub == OP_BINARY_CONCAT {
            Err(ErrorKind::UnsupportedOperation)
        } else {
            Err(ErrorKind::UnknownOpcode)
        }
    }
}

/// The big-endian 16-bit value of two operand bytes.
pub open spec fn be16(hi: u8, lo: u8) -> u16 {
    (hi as int * 256 + lo as int) as u16
}

/// The instruction at `ip`, read from the opcode byte and the operand bytes
/// that follow it.
pub open spec fn spec_decode(code: Seq<u8>, ip: int) -> Result<Instruction, ErrorKind> {
    let op = code[ip];
    let has = |n: int| ip + n < code.len();
    if op == OP_POP {
        Ok(Instruction::Pop)
    } else if op == OP_BINARY {
        if has(1) {
            match spec_binary_op(code[ip + 1]) {
                Ok(b) => Ok(Instruction::Binary(b)),
                Err(k) => Err(k),
            }
        } else {
            Err(ErrorKind::MalformedProgram)
        }
    } else if op == OP_JUMP_IF_FALSE || op == OP_JUMP_FORWARD {
        if has(2) {
            let offset = be16(code[ip + 1], code[ip + 2]);
            if op == OP_JUMP_IF_FALSE {
                Ok(Instruction::JumpIfFalse(offset))
            } else {
                Ok(Instruction::JumpForward(offset))
            }
        } else {
            Err(ErrorKind::MalformedProgram)
        }
    } else if op == OP_INLINE_NUMBER || op == OP_LOAD_CONSTANT || op == OP_READ_VARIABLE
        || op == OP_SET_VARIABLE || op == OP_CALL_FUNCTION || op == OP_PRINTLN {
        if has(1) {
            let a = code[ip + 1];
            Ok(
                if op == OP_INLINE_NUMBER {
                    Instruction::InlineNumber(a)
                } else if op == OP_LOAD_CONSTANT {
                    Instruction::LoadConstant(a)
                } else if op == OP_READ_VARIABLE {
                    Instruction::ReadVariable(a)
                } else if op == OP_SET_VARIABLE {
                    Instruction::SetVariable(a)
                } else if op == OP_CALL_FUNCTION {
                    Instruction::CallFunction(a)
                } else {
                    Instruction::Println(a)
                },
            )
        } else {
            Err(ErrorKind::MalformedProgram)
        }
    } else if op == OP_NOT || op == OP_JUMP_BACK {
        Err(ErrorKind::UnsupportedOperation)
    } else {
        Err(ErrorKind::UnknownOpcode)
    }
}

impl Instruction {
    /// The number of bytes the instruction takes, opcode included.
    pub open spec fn spec_size(self) -> nat {
        match self {
            Instruction::Pop => 1,
            Instruction::JumpIfFalse(_) | Instruction::JumpForward(_) => 3,
            _ => 2,
        }
    }

    pub open spec fn spec_encode(self) -> Seq<u8> {
        match self {
            Instruction::Pop => seq![OP_POP],
            Instruction::Binary(b) => seq![OP_BINARY, b.spec_code()],
            Instruction::JumpIfFalse(n) => seq![OP_JUMP_IF_FALSE, (n / 256) as u8, (n % 256) as u8],
            Instruction::JumpForward(n) => seq![OP_JUMP_FORWARD, (n / 256) as u8, (n % 256) as u8],
            Instruction::InlineNumber(a) => seq![OP_INLINE_NUMBER, a],
            Instruction::LoadConstant(a) => seq![OP_LOAD_CONSTANT, a],
            Instruction::ReadVariable(a) => seq![OP_READ_VARIABLE, a],
            Instruction::SetVariable(a) => seq![OP_SET_VARIABLE, a],
            Instruction::CallFunction(a) => seq![OP_CALL_FUNCTION, a],
            Instruction::Println(a) => seq![OP_PRINTLN, a],
        }
    }

    pub fn size(&self) -> (r: usize)
        ensures
            r == self.spec_size(),
    {
        match self {
            Instruction::Pop => 1,
            Instruction::JumpIfFalse(_) | Instruction::JumpForward(_) => 3,
            _ => 2,
        }
    }

    /// The bytes of the instruction: opcode, then operands (a jump offset
    /// big-endian).
    pub fn encode(&self) -> (r: Vec<u8>)
        ensures
            r@ == self.spec_encode(),
    {
        match self {
            Instruction::Pop => vec![OP_POP],
            Instruction::Binary(b) => vec![OP_BINARY, b.code()],
            Instruction::JumpIfFalse(n) => vec![OP_JUMP_IF_FALSE, (*n / 256) as u8, (*n % 256) as u8],
            Instruction::JumpForward(n) => vec![OP_JUMP_FORWARD, (*n / 256) as u8, (*n % 256) as u8],
            Instruction::InlineNumber(a) => vec![OP_INLINE_NUMBER, *a],
            Instruction::LoadConstant(a) => vec![OP_LOAD_CONSTANT, *a],
            Instruction::ReadVariable(a) => vec![OP_READ_VARIABLE, *a],
            Instruction::SetVariable(a) => vec![OP_SET_VARIABLE, *a],
            Instruction::CallFunction(a) => vec![OP_CALL_FUNCTION, *a],
            Instruction::Println(a) => vec![OP_PRINTLN, *a],
        }
    }
}

/// Decodes the instruction at `ip`. An operand that would lie past the end of
/// the stream makes the program malformed.
pub fn decode(code: &[u8], ip: usize) -> (r: Result<Instruction, ErrorKind>)
    requires
        ip < code@.len(),
    ensures
        r == spec_decode(code@, ip as int),
        r matches Ok(i) ==> ip + i.spec_size() <= code@.len(),
{
    let op = code[ip];
    let n = code.len();
    if op == OP_POP {
        Ok(Instruction::Pop)
    } else if op == OP_BINARY {
        if ip + 1 < n {
            match BinaryOp::from_code(code[ip + 1]) {
                Ok(b) => Ok(Instruction::Binary(b)),
                Err(k) => Err(k),
            }
        } else {
            Err(ErrorKind::MalformedProgram)
        }
    } else if op == OP_JUMP_IF_FALSE || op == OP_JUMP_FORWARD {
        if n - ip > 2 {
            let offset = (code[ip + 1] as u16) * 256 + code[ip + 2] as u16;
            if op == OP_JUMP_IF_FALSE {
                Ok(Instruction::JumpIfFalse(offset))
            } else {
                Ok(Instruction::JumpForward(offset))
            }
        } else {
            Err(ErrorKind::MalformedProgram)
        }
    } else if op == OP_INLINE_NUMBER || op == OP_LOAD_CONSTANT || op == OP_READ_VARIABLE
        || op == OP_SET_VARIABLE || op == OP_CALL_FUNCTION || op == OP_PRINTLN {
        if ip + 1 < n {
            let a = code[ip + 1];
            Ok(
                if op == OP_INLINE_NUMBER {
                    Instruction::InlineNumber(a)
                } else if op == OP_LOAD_CONSTANT {
                    Instruction::LoadConstant(a)
                } else if op == OP_READ_VARIABLE {
                    Instruction::ReadVariable(a)
                } else if op == OP_SET_VARIABLE {
                    Instruction::SetVariable(a)
                } else if op == OP_CALL_FUNCTION {
                    Instruction::CallFunction(a)
                } else {
                    Instruction::Println(a)
                },
            )
        } else {
            Err(ErrorKind::MalformedProgram)
        }
    } else if op == OP_NOT || op == OP_JUMP_BACK {
        Err(ErrorKind::UnsupportedOperation)
    } else {
        Err(ErrorKind::UnknownOpcode)
    }
}

/// Decoding the bytes of an instruction, whatever follows them, gives the
/// instruction back.
pub proof fn lemma_decode_encode(i: Instruction, rest: Seq<u8>)
    ensures
        spec_decode(i.spec_encode() + rest, 0) == Ok::<Instruction, ErrorKind>(i),
        i.spec_encode().len() == i.spec_size(),
{
    let s = i.spec_encode() + rest;
    match i {
        Instruction::JumpIfFalse(n) | Instruction::JumpForward(n) => {
            assert(s[1] == (n / 256) as u8 && s[2] == (n % 256) as u8);
            assert(be16(s[1], s[2]) == n);
        },
        Instruction::Binary(b) => {
            assert(s[1] == b.spec_code());
        },
        _ => {
            assert(s[0] == i.spec_encode()[0]);
        },
    }
}

} // verus!
