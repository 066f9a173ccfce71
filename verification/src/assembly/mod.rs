//! The assembly representation and the passes that produce and refine it.
pub mod fix_instruction;
pub mod generate;
pub mod replace_pseudo;
pub mod translate;

pub use fix_instruction::fix_program;
pub use replace_pseudo::replace_pseudo_registers;
pub use translate::translate_program;

use vstd::prelude::*;

verus! {

pub type Identifier = String;

pub type Int = i32;

#[derive(Debug)]
pub struct Program {
    pub functions: Vec<Function>,
}

#[derive(Debug)]
pub struct Function {
    pub name: String,
    pub instructions: Vec<Instruction>,
    pub stack_size: i32,
}

#[derive(Debug)]
pub enum Instruction {
    Move { src: Operand, dst: Operand },
    Unary { op: UnaryOp, operand: Operand },
    Binary { op: BinaryOp, left: Operand, right: Operand },
    AllocateStack(Int),
    Idiv(Operand),
    Cdq,
    Cmp { left: Operand, right: Operand },
    Jmp(Identifier),
    JmpCC { cond_code: ConditionalCode, target: Identifier },
    SetCC { cond_code: ConditionalCode, operand: Operand },
    Label(Identifier),
    DeallocateStack(Int),
    Push(Operand),
    Call(Identifier),
    Ret,
}

#[derive(Debug, Clone, Copy, PartialEq, Eq, Structural)]
pub enum ConditionalCode {
    E,
    NE,
    G,
    GE,
    L,
    LE,
}

#[derive(Debug, Clone, Copy, PartialEq, Eq, Structural)]
pub enum UnaryOp {
    Neg,
    Not,
}

#[derive(Debug, Clone, Copy, PartialEq, Eq, Structural)]
pub enum BinaryOp {
    Add,
    Sub,
    Mult,
}

#[derive(Debug)]
pub enum Operand {
    Imm(i32),
    Register(Register),
    Pseudo(Identifier),
    Stack(Int),
}

#[derive(Debug, Clone, Copy, PartialEq, Eq, Structural)]
pub enum Register {
    AX,
    CX,
    DX,
    DI,
    SI,
    R8,
    R9,
    R10,
    R11,
}

impl Clone for Operand {
    fn clone(&self) -> (r: Self)
        ensures
            r == *self,
    {
        match self {
            Operand::Imm(i) => Operand::Imm(*i),
            Operand::Register(r) => Operand::Register(*r),
            Operand::Pseudo(name) => Operand::Pseudo(name.clone()),
            Operand::Stack(offset) => Operand::Stack(*offset),
        }
    }
}

impl Operand {
    pub fn is_stack_operand(&self) -> (r: bool)
        ensures
            r == self.is_stack(),
    {
        match self {
            Operand::Stack(_) => true,
            _ => false,
        }
    }

    pub fn is_imm_operand(&self) -> (r: bool)
        ensures
            r == self.is_imm(),
    {
        match self {
            Operand::Imm(_) => true,
            _ => false,
        }
    }

    /// True when the operand is a memory address on the stack.
    pub open spec fn is_stack(self) -> bool {
        self is Stack
    }

    /// True when the operand is an immediate value.
    pub open spec fn is_imm(self) -> bool {
        self is Imm
    }
}

} // verus!
