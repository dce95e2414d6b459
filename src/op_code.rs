//! The instruction language consumed by the code generator.
use crate::text::{concat, decimal, push_decimal, str_equal};
use vstd::prelude::*;
use vstd::string::*;

verus! {

/// Whether `segment` names one of the four segments whose base address
/// lives in a dedicated cell (`local`, `argument`, `this`, `that`).
pub open spec fn scoped(segment: Seq<char>) -> bool {
    segment == "local"@ || segment == "argument"@ || segment == "this"@ || segment == "that"@
}

/// Whether `segment` names one of the eight memory segments of the language.
pub open spec fn known_segment(segment: Seq<char>) -> bool {
    scoped(segment) || segment == "pointer"@ || segment == "static"@ || segment == "temp"@
        || segment == "constant"@
}

/// Whether `offset` lies inside the fixed window of `segment`: eight `temp`
/// cells and two `pointer` cells.
pub open spec fn in_window(segment: Seq<char>, offset: nat) -> bool {
    &&& segment == "temp"@ ==> offset < 8
    &&& segment == "pointer"@ ==> offset < 2
}

/// A segment access: `push`/`pop` of `segment` at `offset`.
pub struct SegmentOpCode<'a> {
    pub segment: &'a str,
    pub offset: u32,
}

impl<'a> SegmentOpCode<'a> {
    pub fn is_scoped_segment(&self) -> (r: bool)
        ensures
            r == scoped(self.segment@),
    {
        str_equal(self.segment, "local") || str_equal(self.segment, "argument") || str_equal(
            self.segment,
            "this",
        ) || str_equal(self.segment, "that")
    }
}

/// The label operand of `label`, `goto` and `if-goto`.
pub struct LabelOpCode<'a> {
    pub label: &'a str,
}

/// One instruction of the stack-machine language.
pub enum OpCode<'a> {
    Add,
    Sub,
    Neg,
    Eq,
    Gt,
    Lt,
    And,
    Or,
    Not,
    Push(SegmentOpCode<'a>),
    Pop(SegmentOpCode<'a>),
    Label(LabelOpCode<'a>),
    Goto(LabelOpCode<'a>),
    If(LabelOpCode<'a>),
    Call { func_name: &'a str, num_args: u8 },
    Return,
    Function { func_name: &'a str, num_locals: u8 },
}

/// Whether `op` is one of the nine arithmetic and logical instructions.
pub open spec fn is_arithmetic(op: OpCode) -> bool {
    match op {
        OpCode::Add | OpCode::Sub | OpCode::Neg | OpCode::Eq | OpCode::Gt | OpCode::Lt
        | OpCode::And | OpCode::Or | OpCode::Not => true,
        _ => false,
    }
}

/// `word`, a space, then the decimal rendering of `n`.
pub open spec fn with_number(word: Seq<char>, n: nat) -> Seq<char> {
    word + " "@ + decimal(n)
}

/// The canonical source rendering of an instruction.
pub open spec fn op_text(op: OpCode) -> Seq<char> {
    match op {
        OpCode::Add => "add"@,
        OpCode::Sub => "sub"@,
        OpCode::Neg => "neg"@,
        OpCode::Eq => "eq"@,
        OpCode::Gt => "gt"@,
        OpCode::Lt => "lt"@,
        OpCode::And => "and"@,
        OpCode::Or => "or"@,
        OpCode::Not => "not"@,
        OpCode::Push(s) => with_number("push "@ + s.segment@, s.offset as nat),
        OpCode::Pop(s) => with_number("pop "@ + s.segment@, s.offset as nat),
        OpCode::Label(l) => "label "@ + l.label@,
        OpCode::Goto(l) => "goto "@ + l.label@,
        OpCode::If(l) => "if-goto "@ + l.label@,
        OpCode::Call { func_name, num_args } => with_number(
            "call "@ + func_name@,
            num_args as nat,
        ),
        OpCode::Function { func_name, num_locals } => with_number(
            "function "@ + func_name@,
            num_locals as nat,
        ),
        OpCode::Return => "return"@,
    }
}

fn word_and_number(word: &str, name: &str, n: u64) -> (r: String)
    ensures
        r@ == with_number(word@ + name@, n as nat),
{
    let mut r = concat(word, name);
    r.append(" ");
    push_decimal(&mut r, n);
    r
}

impl<'a> OpCode<'a> {
    /// The instruction as source text, e.g. `push constant 7`.
    pub fn to_text(&self) -> (r: String)
        ensures
            r@ == op_text(*self),
    {
        match self {
            OpCode::Add => String::from_str("add"),
            OpCode::Sub => String::from_str("sub"),
            OpCode::Neg => String::from_str("neg"),
            OpCode::Eq => String::from_str("eq"),
            OpCode::Gt => String::from_str("gt"),
            OpCode::Lt => String::from_str("lt"),
            OpCode::And => String::from_str("and"),
            OpCode::Or => String::from_str("or"),
            OpCode::Not => String::from_str("not"),
            OpCode::Push(s) => word_and_number("push ", s.segment, s.offset as u64),
            OpCode::Pop(s) => word_and_number("pop ", s.segment, s.offset as u64),
            OpCode::Label(l) => concat("label ", l.label),
            OpCode::Goto(l) => concat("goto ", l.label),
            OpCode::If(l) => concat("if-goto ", l.label),
            OpCode::Call { func_name, num_args } => word_and_number(
                "call ",
                func_name,
                *num_args as u64,
            ),
            OpCode::Function { func_name, num_locals } => word_and_number(
                "function ",
                func_name,
                *num_locals as u64,
            ),
            OpCode::Return => String::from_str("return"),
        }
    }
}

} // verus!
