use vstd::prelude::*;

verus! {

/// The instruction set. Each opcode occupies one byte of a chunk's code;
/// `Constant`, `DefineGlobal` and `GetGlobal` are followed by one operand
/// byte, an index into the chunk's constant pool.
#[derive(Debug, PartialEq, Eq, Structural, Copy, Clone)]
pub enum OpCode {
    Constant,
    Return,
    Negate,
    Add,
    Subtract,
    Multiply,
    Divide,
    Nil,
    True,
    False,
    Not,
    Equal,
    Greater,
    Less,
    BangEqual,
    GreaterEqual,
    LessEqual,
    Print,
    Pop,
    DefineGlobal,
    GetGlobal,
}

/// The stable one-byte encoding of each opcode.
pub open spec fn opcode_value(op: OpCode) -> u8 {
    match op {
        OpCode::Constant => 0,
        OpCode::Return => 1,
        OpCode::Negate => 2,
        OpCode::Add => 3,
        OpCode::Subtract => 4,
        OpCode::Multiply => 5,
        OpCode::Divide => 6,
        OpCode::Nil => 7,
        OpCode::True => 8,
        OpCode::False => 9,
        OpCode::Not => 10,
        OpCode::Equal => 11,
        OpCode::Greater => 12,
        OpCode::Less => 13,
        OpCode::BangEqual => 14,
        OpCode::GreaterEqual => 15,
        OpCode::LessEqual => 16,
        OpCode::Print => 17,
        OpCode::Pop => 18,
        OpCode::DefineGlobal => 19,
        OpCode::GetGlobal => 20,
    }
}

/// The opcode a byte decodes to; bytes above 20 decode to nothing.
pub open spec fn opcode_of_byte(b: u8) -> Option<OpCode> {
    if b == 0 {
        Some(OpCode::Constant)
    } else if b == 1 {
        Some(OpCode::Return)
    } else if b == 2 {
        Some(OpCode::Negate)
    } else if b == 3 {
        Some(OpCode::Add)
    } else if b == 4 {
        Some(OpCode::Subtract)
    } else if b == 5 {
        Some(OpCode::Multiply)
    } else if b == 6 {
        Some(OpCode::Divide)
    } else if b == 7 {
        Some(OpCode::Nil)
    } else if b == 8 {
        Some(OpCode::True)
    } else if b == 9 {
        Some(OpCode::False)
    } else if b == 10 {
        Some(OpCode::Not)
    } else if b == 11 {
        Some(OpCode::Equal)
    } else if b == 12 {
        Some(OpCode::Greater)
    } else if b == 13 {
        Some(OpCode::Less)
    } else if b == 14 {
        Some(OpCode::BangEqual)
    } else if b == 15 {
        Some(OpCode::GreaterEqual)
    } else if b == 16 {
        Some(OpCode::LessEqual)
    } else if b == 17 {
        Some(OpCode::Print)
    } else if b == 18 {
        Some(OpCode::Pop)
    } else if b == 19 {
        Some(OpCode::DefineGlobal)
    } else if b == 20 {
        Some(OpCode::GetGlobal)
    } else {
        None
    }
}

/// Decoding inverts encoding.
pub proof fn lemma_opcode_roundtrip(op: OpCode)
    ensures
        opcode_of_byte(opcode_value(op)) == Some(op),
{
}

impl OpCode {
    pub fn to_byte(self) -> (b: u8)
        ensures
            b == opcode_value(self),
    {
        match self {
            OpCode::Constant => 0,
            OpCode::Return => 1,
            OpCode::Negate => 2,
            OpCode::Add => 3,
            OpCode::Subtract => 4,
            OpCode::Multiply => 5,
            OpCode::Divide => 6,
            OpCode::Nil => 7,
            OpCode::True => 8,
            OpCode::False => 9,
            OpCode::Not => 10,
            OpCode::Equal => 11,
            OpCode::Greater => 12,
            OpCode::Less => 13,
            OpCode::BangEqual => 14,
            OpCode::GreaterEqual => 15,
            OpCode::LessEqual => 16,
            OpCode::Print => 17,
            OpCode::Pop => 18,
            OpCode::DefineGlobal => 19,
            OpCode::GetGlobal => 20,
        }
    }

    pub fn from_byte(b: u8) -> (r: Option<OpCode>)
        ensures
            r == opcode_of_byte(b),
    {
        if b == 0 {
            Some(OpCode::Constant)
        } else if b == 1 {
            Some(OpCode::Return)
        } else if b == 2 {
            Some(OpCode::Negate)
        } else if b == 3 {
            Some(OpCode::Add)
        } else if b == 4 {
            Some(OpCode::Subtract)
        } else if b == 5 {
            Some(OpCode::Multiply)
        } else if b == 6 {
            Some(OpCode::Divide)
        } else if b == 7 {
            Some(OpCode::Nil)
        } else if b == 8 {
            Some(OpCode::True)
        } else if b == 9 {
            Some(OpCode::False)
        } else if b == 10 {
            Some(OpCode::Not)
        } else if b == 11 {
            Some(OpCode::Equal)
        } else if b == 12 {
            Some(OpCode::Greater)
        } else if b == 13 {
            Some(OpCode::Less)
        } else if b == 14 {
            Some(OpCode::BangEqual)
        } else if b == 15 {
            Some(OpCode::GreaterEqual)
        } else if b == 16 {
            Some(OpCode::LessEqual)
        } else if b == 17 {
            Some(OpCode::Print)
        } else if b == 18 {
            Some(OpCode::Pop)
        } else if b == 19 {
            Some(OpCode::DefineGlobal)
        } else if b == 20 {
            Some(OpCode::GetGlobal)
        } else {
            None
        }
    }

    /// Whether this opcode is followed by a one-byte constant-pool operand.
    pub fn has_operand(self) -> (r: bool)
        ensures
            r == opcode_has_operand(self),
    {
        match self {
            OpCode::Constant => true,
            OpCode::DefineGlobal => true,
            OpCode::GetGlobal => true,
            _ => false,
        }
    }
}

/// Whether an opcode carries a one-byte constant-pool operand.
pub open spec fn opcode_has_operand(op: OpCode) -> bool {
    op == OpCode::Constant || op == OpCode::DefineGlobal || op == OpCode::GetGlobal
}

} // verus!
