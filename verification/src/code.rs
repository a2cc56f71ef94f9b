//! Bytecode instructions of the virtual machine.

use vstd::prelude::*;
use vstd::string::*;
use crate::text::{decimal, u64_to_decimal};

verus! {

/// One bytecode instruction. Operands index the chunk's constants, the frame's
/// locals or upvalues, or give a jump distance.
#[allow(non_camel_case_types)]
#[derive(Debug, Clone, Copy, PartialEq, Eq, Structural)]
pub enum OpCode {
    CONSTANT { constant: u8 },
    CLOSURE { constant: u8 },
    DEFINE_GLOBAL { constant: u8 },
    GET_GLOBAL { constant: u8 },
    SET_GLOBAL { constant: u8 },
    DEFINE_LOCAL { constant: u8 },
    GET_LOCAL { index: u8 },
    SET_LOCAL { index: u8 },
    GET_UPVALUE { index: u8 },
    SET_UPVALUE { index: u8 },
    GOTO_IF_FALSE(u16),
    GOTO_IF_TRUE(u16),
    POP_AND_GOTO_IF_FALSE(u16),
    FOR_NUMERIC(u16),
    FORWARD(u16),
    REWIND(u16),
    RETURN,
    POP,
    POPS(u8),
    CLOSE_UPVALUES(u8),
    ADD,
    SUB,
    MULTIPLY,
    DIVIDE,
    NEGATE,
    CONCAT,
    NOT,
    NIL,
    TRUE,
    FALSE,
    EQUAL,
    NOT_EQUAL,
    LESS,
    LESS_EQUAL,
    GREATER,
    GREATER_EQUAL,
    PRINT,
    META(u8),
    CALL(u8),
    REGISTER_UPVALUE { index: u8, neighboring: bool },
    LITERAL { dest: u8, literal: u8 },
    LENGTH,
    NEW_TABLE,
    TABLE_INSERT { offset: u8 },
    TABLE_BUILD(u8),
    TABLE_GET { depth: u8 },
    TABLE_GET_BY_CONSTANT { constant: u8 },
    TABLE_GET_FROM { index: u8 },
    TABLE_SET { depth: u8 },
    INCREMENT { index: u8 },
}

/// A probe instruction used by tests of the compiler.
#[derive(Debug, Clone, Copy, PartialEq, Eq, Structural)]
pub enum Tester {
    CONSTANT(u8),
    RETURN,
}

/// How an instruction is written in a disassembly.
pub open spec fn opcode_text(op: OpCode) -> Seq<char> {
    match op {
        OpCode::CONSTANT { constant } => "OP_CONSTANT "@ + decimal(constant as nat),
        OpCode::CLOSURE { constant } => "OP_CLOSURE "@ + decimal(constant as nat),
        OpCode::DEFINE_GLOBAL { constant } => "OP_DEFINE_GLOBAL "@ + decimal(constant as nat),
        OpCode::GET_GLOBAL { constant } => "OP_GET_GLOBAL "@ + decimal(constant as nat),
        OpCode::SET_GLOBAL { constant } => "OP_SET_GLOBAL "@ + decimal(constant as nat),
        OpCode::DEFINE_LOCAL { constant } => "OP_DEFINE_LOCAL "@ + decimal(constant as nat),
        OpCode::GET_LOCAL { index } => "OP_GET_LOCAL "@ + decimal(index as nat),
        OpCode::SET_LOCAL { index } => "OP_SET_LOCAL "@ + decimal(index as nat),
        OpCode::GET_UPVALUE { index } => "OP_GET_UPVALUE "@ + decimal(index as nat),
        OpCode::SET_UPVALUE { index } => "OP_SET_UPVALUE "@ + decimal(index as nat),
        OpCode::GOTO_IF_FALSE(a0) => "OP_GOTO_IF_FALSE "@ + decimal(a0 as nat),
        OpCode::GOTO_IF_TRUE(a0) => "OP_GOTO_IF_TRUE "@ + decimal(a0 as nat),
        OpCode::POP_AND_GOTO_IF_FALSE(a0) => "OP_POP_AND_GOTO_IF_FALSE "@ + decimal(a0 as nat),
        OpCode::FOR_NUMERIC(a0) => "OP_FOR_NUMERIC "@ + decimal(a0 as nat),
        OpCode::FORWARD(a0) => "OP_FORWARD "@ + decimal(a0 as nat),
        OpCode::REWIND(a0) => "OP_REWIND "@ + decimal(a0 as nat),
        OpCode::RETURN => "OP_RETURN"@,
        OpCode::POP => "OP_POP"@,
        OpCode::POPS(a0) => "OP_POPx"@ + decimal(a0 as nat),
        OpCode::CLOSE_UPVALUES(a0) => "OP_CLOSE_UPVALUEx"@ + decimal(a0 as nat),
        OpCode::ADD => "OP_ADD"@,
        OpCode::SUB => "OP_SUBTRACT"@,
        OpCode::MULTIPLY => "OP_MULTIPLY"@,
        OpCode::DIVIDE => "OP_DIVIDE"@,
        OpCode::NEGATE => "OP_NEGATE"@,
        OpCode::CONCAT => "OP_CONCAT"@,
        OpCode::NOT => "OP_NOT"@,
        OpCode::NIL => "OP_NIL"@,
        OpCode::TRUE => "OP_TRUE"@,
        OpCode::FALSE => "OP_FALSE"@,
        OpCode::EQUAL => "OP_EQUAL"@,
        OpCode::NOT_EQUAL => "OP_NOT_EQUAL"@,
        OpCode::LESS => "OP_LESS"@,
        OpCode::LESS_EQUAL => "OP_LESS_EQUAL"@,
        OpCode::GREATER => "OP_GREATER"@,
        OpCode::GREATER_EQUAL => "OP_GREATER_EQUAL"@,
        OpCode::PRINT => "OP_PRINT"@,
        OpCode::META(_) => "META"@,
        OpCode::CALL(a0) => "OP_CALL("@ + decimal(a0 as nat) + ")"@,
        OpCode::REGISTER_UPVALUE { index, .. } => "OP_REG_UPVALUE "@ + decimal(index as nat),
        OpCode::LITERAL { dest, literal } => "OP_LITERAL "@ + decimal(dest as nat) + " "@ + decimal(literal as nat),
        OpCode::LENGTH => "OP_LENGTH"@,
        OpCode::NEW_TABLE => "OP_NEW_TABLE"@,
        OpCode::TABLE_INSERT { offset } => "OP_TABLE_INSERT @"@ + decimal(offset as nat),
        OpCode::TABLE_BUILD(a0) => "OP_TABLE_BUILD [;"@ + decimal(a0 as nat) + "]"@,
        OpCode::TABLE_GET { depth } => "OP_TABLE_GET "@ + decimal(depth as nat) + "[]"@,
        OpCode::TABLE_GET_BY_CONSTANT { constant } => "OP_TABLE_GET_BY_CONSTANT "@ + decimal(constant as nat),
        OpCode::TABLE_GET_FROM { index } => "OP_TABLE_GET_FROM "@ + decimal(index as nat),
        OpCode::TABLE_SET { depth } => "OP_TABLE_SET "@ + decimal(depth as nat) + "[]"@,
        OpCode::INCREMENT { index } => "OP_INCREMENT "@ + decimal(index as nat),
    }
}

impl OpCode {
    /// The instruction as written in a disassembly.
    #[verifier::rlimit(30)]
    pub fn to_string(&self) -> (r: String)
        ensures
            r@ == opcode_text(*self),
    {
        match *self {
            OpCode::CONSTANT { constant } => {
                let mut r = String::from_str("OP_CONSTANT ");
                let d_constant = u64_to_decimal(constant as u64);
                r.append(d_constant.as_str());
                proof { assert(r@ =~= opcode_text(*self)); }
                r
            },
            OpCode::CLOSURE { constant } => {
                let mut r = String::from_str("OP_CLOSURE ");
                let d_constant = u64_to_decimal(constant as u64);
                r.append(d_constant.as_str());
                proof { assert(r@ =~= opcode_text(*self)); }
                r
            },
            OpCode::DEFINE_GLOBAL { constant } => {
                let mut r = String::from_str("OP_DEFINE_GLOBAL ");
                let d_constant = u64_to_decimal(constant as u64);
                r.append(d_constant.as_str());
                proof { assert(r@ =~= opcode_text(*self)); }
                r
            },
            OpCode::GET_GLOBAL { constant } => {
                let mut r = String::from_str("OP_GET_GLOBAL ");
                let d_constant = u64_to_decimal(constant as u64);
                r.append(d_constant.as_str());
                proof { assert(r@ =~= opcode_text(*self)); }
                r
            },
            OpCode::SET_GLOBAL { constant } => {
                let mut r = String::from_str("OP_SET_GLOBAL ");
                let d_constant = u64_to_decimal(constant as u64);
                r.append(d_constant.as_str());
                proof { assert(r@ =~= opcode_text(*self)); }
                r
            },
            OpCode::DEFINE_LOCAL { constant } => {
                let mut r = String::from_str("OP_DEFINE_LOCAL ");
                let d_constant = u64_to_decimal(constant as u64);
                r.append(d_constant.as_str());
                proof { assert(r@ =~= opcode_text(*self)); }
                r
            },
            OpCode::GET_LOCAL { index } => {
                let mut r = String::from_str("OP_GET_LOCAL ");
                let d_index = u64_to_decimal(index as u64);
                r.append(d_index.as_str());
                proof { assert(r@ =~= opcode_text(*self)); }
                r
            },
            OpCode::SET_LOCAL { index } => {
                let mut r = String::from_str("OP_SET_LOCAL ");
                let d_index = u64_to_decimal(index as u64);
                r.append(d_index.as_str());
                proof { assert(r@ =~= opcode_text(*self)); }
                r
            },
            OpCode::GET_UPVALUE { index } => {
                let mut r = String::from_str("OP_GET_UPVALUE ");
                let d_index = u64_to_decimal(index as u64);
                r.append(d_index.as_str());
                proof { assert(r@ =~= opcode_text(*self)); }
                r
            },
            OpCode::SET_UPVALUE { index } => {
                let mut r = String::from_str("OP_SET_UPVALUE ");
                let d_index = u64_to_decimal(index as u64);
                r.append(d_index.as_str());
                proof { assert(r@ =~= opcode_text(*self)); }
                r
            },
            OpCode::GOTO_IF_FALSE(a0) => {
                let mut r = String::from_str("OP_GOTO_IF_FALSE ");
                let d_a0 = u64_to_decimal(a0 as u64);
                r.append(d_a0.as_str());
                proof { assert(r@ =~= opcode_text(*self)); }
                r
            },
            OpCode::GOTO_IF_TRUE(a0) => {
                let mut r = String::from_str("OP_GOTO_IF_TRUE ");
                let d_a0 = u64_to_decimal(a0 as u64);
                r.append(d_a0.as_str());
                proof { assert(r@ =~= opcode_text(*self)); }
                r
            },
            OpCode::POP_AND_GOTO_IF_FALSE(a0) => {
                let mut r = String::from_str("OP_POP_AND_GOTO_IF_FALSE ");
                let d_a0 = u64_to_decimal(a0 as u64);
                r.append(d_a0.as_str());
                proof { assert(r@ =~= opcode_text(*self)); }
                r
            },
            OpCode::FOR_NUMERIC(a0) => {
                let mut r = String::from_str("OP_FOR_NUMERIC ");
                let d_a0 = u64_to_decimal(a0 as u64);
                r.append(d_a0.as_str());
                proof { assert(r@ =~= opcode_text(*self)); }
                r
            },
            OpCode::FORWARD(a0) => {
                let mut r = String::from_str("OP_FORWARD ");
                let d_a0 = u64_to_decimal(a0 as u64);
                r.append(d_a0.as_str());
                proof { assert(r@ =~= opcode_text(*self)); }
                r
            },
            OpCode::REWIND(a0) => {
                let mut r = String::from_str("OP_REWIND ");
                let d_a0 = u64_to_decimal(a0 as u64);
                r.append(d_a0.as_str());
                proof { assert(r@ =~= opcode_text(*self)); }
                r
            },
            OpCode::RETURN => {
                let mut r = String::from_str("OP_RETURN");
                r
            },
            OpCode::POP => {
                let mut r = String::from_str("OP_POP");
                r
            },
            OpCode::POPS(a0) => {
                let mut r = String::from_str("OP_POPx");
                let d_a0 = u64_to_decimal(a0 as u64);
                r.append(d_a0.as_str());
                proof { assert(r@ =~= opcode_text(*self)); }
                r
            },
            OpCode::CLOSE_UPVALUES(a0) => {
                let mut r = String::from_str("OP_CLOSE_UPVALUEx");
                let d_a0 = u64_to_decimal(a0 as u64);
                r.append(d_a0.as_str());
                proof { assert(r@ =~= opcode_text(*self)); }
                r
            },
            OpCode::ADD => {
                let mut r = String::from_str("OP_ADD");
                r
            },
            OpCode::SUB => {
                let mut r = String::from_str("OP_SUBTRACT");
                r
            },
            OpCode::MULTIPLY => {
                let mut r = String::from_str("OP_MULTIPLY");
                r
            },
            OpCode::DIVIDE => {
                let mut r = String::from_str("OP_DIVIDE");
                r
            },
            OpCode::NEGATE => {
                let mut r = String::from_str("OP_NEGATE");
                r
            },
            OpCode::CONCAT => {
                let mut r = String::from_str("OP_CONCAT");
                r
            },
            OpCode::NOT => {
                let mut r = String::from_str("OP_NOT");
                r
            },
            OpCode::NIL => {
                let mut r = String::from_str("OP_NIL");
                r
            },
            OpCode::TRUE => {
                let mut r = String::from_str("OP_TRUE");
                r
            },
            OpCode::FALSE => {
                let mut r = String::from_str("OP_FALSE");
                r
            },
            OpCode::EQUAL => {
                let mut r = String::from_str("OP_EQUAL");
                r
            },
            OpCode::NOT_EQUAL => {
                let mut r = String::from_str("OP_NOT_EQUAL");
                r
            },
            OpCode::LESS => {
                let mut r = String::from_str("OP_LESS");
                r
            },
            OpCode::LESS_EQUAL => {
                let mut r = String::from_str("OP_LESS_EQUAL");
                r
            },
            OpCode::GREATER => {
                let mut r = String::from_str("OP_GREATER");
                r
            },
            OpCode::GREATER_EQUAL => {
                let mut r = String::from_str("OP_GREATER_EQUAL");
                r
            },
            OpCode::PRINT => {
                let mut r = String::from_str("OP_PRINT");
                r
            },
            OpCode::META(_) => {
                let mut r = String::from_str("META");
                r
            },
            OpCode::CALL(a0) => {
                let mut r = String::from_str("OP_CALL(");
                let d_a0 = u64_to_decimal(a0 as u64);
                r.append(d_a0.as_str());
                r.append(")");
                proof { assert(r@ =~= opcode_text(*self)); }
                r
            },
            OpCode::REGISTER_UPVALUE { index, .. } => {
                let mut r = String::from_str("OP_REG_UPVALUE ");
                let d_index = u64_to_decimal(index as u64);
                r.append(d_index.as_str());
                proof { assert(r@ =~= opcode_text(*self)); }
                r
            },
            OpCode::LITERAL { dest, literal } => {
                let mut r = String::from_str("OP_LITERAL ");
                let d_dest = u64_to_decimal(dest as u64);
                r.append(d_dest.as_str());
                r.append(" ");
                let d_literal = u64_to_decimal(literal as u64);
                r.append(d_literal.as_str());
                proof { assert(r@ =~= opcode_text(*self)); }
                r
            },
            OpCode::LENGTH => {
                let mut r = String::from_str("OP_LENGTH");
                r
            },
            OpCode::NEW_TABLE => {
                let mut r = String::from_str("OP_NEW_TABLE");
                r
            },
            OpCode::TABLE_INSERT { offset } => {
                let mut r = String::from_str("OP_TABLE_INSERT @");
                let d_offset = u64_to_decimal(offset as u64);
                r.append(d_offset.as_str());
                proof { assert(r@ =~= opcode_text(*self)); }
                r
            },
            OpCode::TABLE_BUILD(a0) => {
                let mut r = String::from_str("OP_TABLE_BUILD [;");
                let d_a0 = u64_to_decimal(a0 as u64);
                r.append(d_a0.as_str());
                r.append("]");
                proof { assert(r@ =~= opcode_text(*self)); }
                r
            },
            OpCode::TABLE_GET { depth } => {
                let mut r = String::from_str("OP_TABLE_GET ");
                let d_depth = u64_to_decimal(depth as u64);
                r.append(d_depth.as_str());
                r.append("[]");
                proof { assert(r@ =~= opcode_text(*self)); }
                r
            },
            OpCode::TABLE_GET_BY_CONSTANT { constant } => {
                let mut r = String::from_str("OP_TABLE_GET_BY_CONSTANT ");
                let d_constant = u64_to_decimal(constant as u64);
                r.append(d_constant.as_str());
                proof { assert(r@ =~= opcode_text(*self)); }
                r
            },
            OpCode::TABLE_GET_FROM { index } => {
                let mut r = String::from_str("OP_TABLE_GET_FROM ");
                let d_index = u64_to_decimal(index as u64);
                r.append(d_index.as_str());
                proof { assert(r@ =~= opcode_text(*self)); }
                r
            },
            OpCode::TABLE_SET { depth } => {
                let mut r = String::from_str("OP_TABLE_SET ");
                let d_depth = u64_to_decimal(depth as u64);
                r.append(d_depth.as_str());
                r.append("[]");
                proof { assert(r@ =~= opcode_text(*self)); }
                r
            },
            OpCode::INCREMENT { index } => {
                let mut r = String::from_str("OP_INCREMENT ");
                let d_index = u64_to_decimal(index as u64);
                r.append(d_index.as_str());
                proof { assert(r@ =~= opcode_text(*self)); }
                r
            },
        }
    }
}

} // verus!
