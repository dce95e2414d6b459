//! The exact assembly listings the generator emits, as spec functions over
//! lines of text. Instruction lines start with a tab; label definitions and
//! comments do not, and only instruction lines occupy a program address.
use crate::op_code::{scoped, OpCode};
use crate::text::decimal;
use vstd::prelude::*;

verus! {

/// An instruction line.
pub open spec fn ins(l: Seq<char>) -> Seq<char> {
    "\t"@ + l
}

/// The instruction that loads the address register with the number `n`.
pub open spec fn at_num(n: nat) -> Seq<char> {
    ins("@"@ + decimal(n))
}

/// The instruction that loads the address register with the symbol `name`.
pub open spec fn at_sym(name: Seq<char>) -> Seq<char> {
    ins("@"@ + name)
}

/// Writes the data register to the top of the stack and grows the stack.
pub open spec fn push_d() -> Seq<Seq<char>> {
    seq![at_sym("SP"@), ins("A=M"@), ins("M=D"@), at_sym("SP"@), ins("M=M+1"@)]
}

/// Shrinks the stack, reads the popped value into the data register and
/// clears the vacated cell.
pub open spec fn pop_d() -> Seq<Seq<char>> {
    seq![at_sym("SP"@), ins("AM=M-1"@), ins("D=M"@), ins("M=0"@)]
}

/// Pops the right operand into the data register and addresses the left one.
pub open spec fn two_operands() -> Seq<Seq<char>> {
    pop_d() + seq![at_sym("SP"@), ins("AM=M-1"@)]
}

/// A comparison whose first line stands at program address `n`: the result is
/// -1 when `jump` holds of left minus right, else 0. The two jump targets are
/// absolute addresses within the listing.
pub open spec fn comparison(jump: Seq<char>, n: nat) -> Seq<Seq<char>> {
    two_operands() + seq![
        ins("D=M-D"@),
        ins("M=0"@),
        at_num(n + 13),
        ins(jump),
        ins("D=0"@),
        at_num(n + 14),
        ins("0;JMP"@),
        ins("D=-1"@),
    ]
}

/// The listing of an arithmetic or logical instruction whose first line
/// stands at program address `n`.
pub open spec fn arithmetic_code(op: OpCode, n: nat) -> Seq<Seq<char>> {
    let body = match op {
        OpCode::Add => two_operands().push(ins("D=D+M"@)),
        OpCode::Sub => two_operands().push(ins("D=M-D"@)),
        OpCode::Neg => pop_d().push(ins("D=-D"@)),
        OpCode::Eq => comparison("D;JEQ"@, n),
        OpCode::Gt => comparison("D;JGT"@, n),
        OpCode::Lt => comparison("D;JLT"@, n),
        OpCode::And => two_operands().push(ins("D=D&M"@)),
        OpCode::Or => two_operands().push(ins("D=D|M"@)),
        _ => pop_d().push(ins("D=!D"@)),
    };
    body + push_d()
}

/// The cell holding the base address of a scoped segment.
pub open spec fn base_cell(segment: Seq<char>) -> Seq<char> {
    if segment == "local"@ {
        "LCL"@
    } else if segment == "argument"@ {
        "ARG"@
    } else if segment == "this"@ {
        "THIS"@
    } else {
        "THAT"@
    }
}

/// The symbol of static variable `offset` of unit `unit`.
pub open spec fn static_symbol(unit: Seq<char>, offset: nat) -> Seq<char> {
    unit + "."@ + decimal(offset)
}

/// The instruction addressing a `temp`, `pointer` or `static` cell.
pub open spec fn direct_address(segment: Seq<char>, offset: nat, unit: Seq<char>) -> Seq<char> {
    if segment == "temp"@ {
        at_num(offset + 5)
    } else if segment == "pointer"@ {
        at_num(offset + 3)
    } else {
        at_sym(static_symbol(unit, offset))
    }
}

/// The listing of `push segment offset` within unit `unit`.
pub open spec fn push_code(segment: Seq<char>, offset: nat, unit: Seq<char>) -> Seq<Seq<char>> {
    let load = if scoped(segment) {
        seq![
            at_sym(base_cell(segment)),
            ins("D=M"@),
            at_num(offset),
            ins("A=D+A"@),
            ins("D=M"@),
        ]
    } else if segment == "constant"@ {
        seq![at_num(offset), ins("D=A"@)]
    } else {
        seq![direct_address(segment, offset, unit), ins("D=M"@)]
    };
    load + push_d()
}

/// The listing of `pop segment offset` within unit `unit`: the destination
/// address is computed into R13 before the stack shrinks.
pub open spec fn pop_code(segment: Seq<char>, offset: nat, unit: Seq<char>) -> Seq<Seq<char>> {
    let address = if scoped(segment) {
        seq![at_sym(base_cell(segment)), ins("D=M"@), at_num(offset), ins("D=D+A"@)]
    } else {
        seq![direct_address(segment, offset, unit), ins("D=A"@)]
    };
    address + seq![at_sym("R13"@), ins("M=D"@)] + pop_d() + seq![
        at_sym("R13"@),
        ins("A=M"@),
        ins("M=D"@),
    ]
}

/// The function whose labels are being emitted: the innermost open one, or
/// `Sys` outside any function.
pub open spec fn current_scope(scopes: Seq<Seq<char>>) -> Seq<char> {
    if scopes.len() == 0 {
        "Sys"@
    } else {
        scopes.last()
    }
}

/// A label qualified by the function that owns it. `$` cannot occur in the
/// names of the language, so it separates the two parts unambiguously.
pub open spec fn scoped_label(scope: Seq<char>, label: Seq<char>) -> Seq<char> {
    scope + "$"@ + label
}

/// The definition of label `label` within function `scope`.
pub open spec fn label_line(scope: Seq<char>, label: Seq<char>) -> Seq<char> {
    "("@ + scoped_label(scope, label) + ")"@
}

pub open spec fn goto_code(scope: Seq<char>, label: Seq<char>) -> Seq<Seq<char>> {
    seq![at_sym(scoped_label(scope, label)), ins("0;JMP"@)]
}

pub open spec fn if_code(scope: Seq<char>, label: Seq<char>) -> Seq<Seq<char>> {
    pop_d() + seq![at_sym(scoped_label(scope, label)), ins("D;JNE"@)]
}

/// The return-address label of the `k`-th call site of an engine; it starts
/// with `$`, so no label of the source can take its name.
pub open spec fn return_label(k: nat) -> Seq<char> {
    "$ret."@ + decimal(k)
}

/// Pushes the value of cell `cell`.
pub open spec fn save_cell(cell: Seq<char>) -> Seq<Seq<char>> {
    seq![at_sym(cell), ins("D=M"@)] + push_d()
}

/// The listing of the `k`-th call site, calling `callee` with `n_args`
/// arguments from within function `scope`.
pub open spec fn call_code(scope: Seq<char>, callee: Seq<char>, n_args: nat, k: nat) -> Seq<
    Seq<char>,
> {
    seq![at_sym(scoped_label(scope, return_label(k))), ins("D=A"@)] + push_d() + save_cell(
        "LCL"@,
    ) + save_cell("ARG"@) + save_cell("THIS"@) + save_cell("THAT"@) + seq![
        at_sym("SP"@),
        ins("D=M"@),
        at_num(n_args),
        ins("D=D-A"@),
        at_num(5),
        ins("D=D-A"@),
        at_sym("ARG"@),
        ins("M=D"@),
        at_sym("SP"@),
        ins("D=M"@),
        at_sym("LCL"@),
        ins("M=D"@),
        at_sym(callee),
        ins("0;JMP"@),
    ] + seq![label_line(scope, return_label(k))]
}

/// Reads the saved word at `frame - back` (held in R14) into cell `cell`.
pub open spec fn restore(back: nat, cell: Seq<char>) -> Seq<Seq<char>> {
    seq![
        at_sym("R14"@),
        ins("D=M"@),
        at_num(back),
        ins("D=D-A"@),
        ins("A=D"@),
        ins("D=M"@),
        at_sym(cell),
        ins("M=D"@),
    ]
}

/// Saves the frame base (the callee's `LCL`) in R14 and the return address
/// (the word five below it) in R15, two scratch cells outside the `temp`
/// window.
pub open spec fn capture_frame() -> Seq<Seq<char>> {
    seq![
        at_sym("LCL"@),
        ins("D=M"@),
        at_sym("R14"@),
        ins("M=D"@),
        at_sym("R14"@),
        ins("D=M"@),
        at_num(5),
        ins("D=D-A"@),
        ins("A=D"@),
        ins("D=M"@),
        at_sym("R15"@),
        ins("M=D"@),
    ]
}

/// Moves the return value to the caller's first argument slot and sets the
/// stack pointer just above it.
pub open spec fn place_result() -> Seq<Seq<char>> {
    pop_d() + seq![
        at_sym("ARG"@),
        ins("A=M"@),
        ins("M=D"@),
        at_sym("ARG"@),
        ins("D=M+1"@),
        at_sym("SP"@),
        ins("M=D"@),
    ]
}

/// Restores the caller's `THAT`, `THIS`, `ARG` and `LCL`, in that order.
pub open spec fn restore_frame() -> Seq<Seq<char>> {
    restore(1, "THAT"@) + restore(2, "THIS"@) + restore(3, "ARG"@) + restore(4, "LCL"@,
    )
}

/// The listing of `return`.
pub open spec fn return_code() -> Seq<Seq<char>> {
    capture_frame() + place_result() + restore_frame() + seq![
        at_sym("R15"@),
        ins("A=M"@),
        ins("0;JMP"@),
    ]
}

/// Pushes the constant 0: one local of a function being entered.
pub open spec fn zero_local() -> Seq<Seq<char>> {
    seq![at_num(0), ins("D=A"@)] + push_d()
}

/// Pushes `k` zeros: the locals of a function being entered.
pub open spec fn zero_locals(k: nat) -> Seq<Seq<char>>
    decreases k,
{
    if k == 0 {
        Seq::empty()
    } else {
        zero_locals((k - 1) as nat) + zero_local()
    }
}

/// The listing of `function name k`.
pub open spec fn function_code(name: Seq<char>, k: nat) -> Seq<Seq<char>> {
    seq!["("@ + name + ")"@] + zero_locals(k)
}

/// The bootstrap: the stack pointer is set to 256, then `Sys.init` is called
/// as call site 0.
pub open spec fn bootstrap_code() -> Seq<Seq<char>> {
    seq![at_num(256), ins("D=A"@), at_sym("SP"@), ins("M=D"@)] + call_code(
        "Sys"@,
        "Sys.init"@,
        0,
        0,
    )
}

/// A comment line.
pub open spec fn comment_line(text: Seq<char>) -> Seq<char> {
    "// "@ + text
}

/// The text of a listing: every line followed by a newline.
pub open spec fn joined(lines: Seq<Seq<char>>) -> Seq<char>
    decreases lines.len(),
{
    if lines.len() == 0 {
        Seq::empty()
    } else {
        joined(lines.drop_last()) + lines.last() + "\n"@
    }
}

} // verus!
