//! A model of the target machine running straight-line code, and the
//! listings of the generator read as its instructions. Values are modelled
//! as mathematical integers, where the machine has 16-bit words that wrap
//! around: moving, zeroing and counting words agree between the two, and
//! where a property states a computed value it asks that the value fit in a
//! word.
use crate::listing::{
    arithmetic_code, at_num, at_sym, base_cell, call_code, capture_frame, function_code, ins,
    label_line,
    place_result, restore, restore_frame, return_code, return_label, save_cell, scoped_label, pop_code, pop_d, push_code, push_d,
    static_symbol, two_operands, zero_local, zero_locals,
};
use crate::op_code::{known_segment, scoped};
use crate::op_code::OpCode;
use vstd::prelude::*;

verus! {

/// The registers the listings name: 0 `SP`, 1 `LCL`, 2 `ARG`, 3 `THIS`,
/// 4 `THAT`, 13 `R13`, 14 `R14`, 15 `R15`.
pub open spec fn reg_name(r: nat) -> Seq<char> {
    if r == 0 {
        "SP"@
    } else if r == 1 {
        "LCL"@
    } else if r == 2 {
        "ARG"@
    } else if r == 3 {
        "THIS"@
    } else if r == 4 {
        "THAT"@
    } else if r == 13 {
        "R13"@
    } else if r == 14 {
        "R14"@
    } else {
        "R15"@
    }
}

/// The computation instructions the listings use.
pub ghost enum Cmd {
    DgetsM,
    AgetsM,
    MgetsD,
    IncM,
    DecAM,
    ZeroM,
    DgetsA,
    AgetsDplusA,
    DgetsDplusA,
    DgetsDminusA,
    AgetsD,
    DgetsMplusOne,
    DgetsDplusM,
    DgetsMminusD,
    DgetsNegD,
    DgetsNotD,
    DgetsDandM,
    DgetsDorM,
    DgetsZero,
    DgetsMinusOne,
}

pub open spec fn cmd_text(c: Cmd) -> Seq<char> {
    match c {
        Cmd::DgetsM => "D=M"@,
        Cmd::AgetsM => "A=M"@,
        Cmd::MgetsD => "M=D"@,
        Cmd::IncM => "M=M+1"@,
        Cmd::DecAM => "AM=M-1"@,
        Cmd::ZeroM => "M=0"@,
        Cmd::DgetsA => "D=A"@,
        Cmd::AgetsDplusA => "A=D+A"@,
        Cmd::DgetsDplusA => "D=D+A"@,
        Cmd::DgetsDminusA => "D=D-A"@,
        Cmd::AgetsD => "A=D"@,
        Cmd::DgetsMplusOne => "D=M+1"@,
        Cmd::DgetsDplusM => "D=D+M"@,
        Cmd::DgetsMminusD => "D=M-D"@,
        Cmd::DgetsNegD => "D=-D"@,
        Cmd::DgetsNotD => "D=!D"@,
        Cmd::DgetsDandM => "D=D&M"@,
        Cmd::DgetsDorM => "D=D|M"@,
        Cmd::DgetsZero => "D=0"@,
        Cmd::DgetsMinusOne => "D=-1"@,
    }
}

/// One straight-line instruction.
pub ghost enum Asm {
    Num(nat),
    Reg(nat),
    Sym(Seq<char>),
    Op(Cmd),
}

/// The text line of an instruction, as the generator writes it.
pub open spec fn render(i: Asm) -> Seq<char> {
    match i {
        Asm::Num(n) => at_num(n),
        Asm::Reg(r) => at_sym(reg_name(r)),
        Asm::Sym(s) => at_sym(s),
        Asm::Op(c) => ins(cmd_text(c)),
    }
}

pub open spec fn render_all(code: Seq<Asm>) -> Seq<Seq<char>> {
    code.map_values(|i: Asm| render(i))
}

/// Registers, memory, and the addresses the assembler gave to symbols.
pub ghost struct Machine {
    pub a: int,
    pub d: int,
    pub ram: spec_fn(int) -> int,
    pub syms: spec_fn(Seq<char>) -> int,
}

pub open spec fn write(m: Machine, addr: int, v: int) -> spec_fn(int) -> int {
    |x: int| if x == addr { v } else { (m.ram)(x) }
}

pub open spec fn step(m: Machine, i: Asm) -> Machine {
    let mv = (m.ram)(m.a);
    match i {
        Asm::Num(n) => Machine { a: n as int, ..m },
        Asm::Reg(r) => Machine { a: r as int, ..m },
        Asm::Sym(s) => Machine { a: (m.syms)(s), ..m },
        Asm::Op(c) => match c {
            Cmd::DgetsM => Machine { d: mv, ..m },
            Cmd::AgetsM => Machine { a: mv, ..m },
            Cmd::MgetsD => Machine { ram: write(m, m.a, m.d), ..m },
            Cmd::IncM => Machine { ram: write(m, m.a, mv + 1), ..m },
            Cmd::DecAM => Machine { a: mv - 1, ram: write(m, m.a, mv - 1), ..m },
            Cmd::ZeroM => Machine { ram: write(m, m.a, 0), ..m },
            Cmd::DgetsA => Machine { d: m.a, ..m },
            Cmd::AgetsDplusA => Machine { a: m.d + m.a, ..m },
            Cmd::DgetsDplusA => Machine { d: m.d + m.a, ..m },
            Cmd::DgetsDminusA => Machine { d: m.d - m.a, ..m },
            Cmd::AgetsD => Machine { a: m.d, ..m },
            Cmd::DgetsMplusOne => Machine { d: mv + 1, ..m },
            Cmd::DgetsDplusM => Machine { d: m.d + mv, ..m },
            Cmd::DgetsMminusD => Machine { d: mv - m.d, ..m },
            Cmd::DgetsNegD => Machine { d: -m.d, ..m },
            Cmd::DgetsNotD => Machine { d: -m.d - 1, ..m },
            Cmd::DgetsDandM => Machine { d: ((m.d as i16) & (mv as i16)) as int, ..m },
            Cmd::DgetsDorM => Machine { d: ((m.d as i16) | (mv as i16)) as int, ..m },
            Cmd::DgetsZero => Machine { d: 0, ..m },
            Cmd::DgetsMinusOne => Machine { d: -1, ..m },
        },
    }
}

/// Runs `code` from its first instruction to its last.
pub open spec fn exec(m: Machine, code: Seq<Asm>) -> Machine
    decreases code.len(),
{
    if code.len() == 0 {
        m
    } else {
        exec(step(m, code[0]), code.drop_first())
    }
}

pub proof fn lemma_exec_append(m: Machine, a: Seq<Asm>, b: Seq<Asm>)
    ensures
        exec(m, a + b) == exec(exec(m, a), b),
    decreases a.len(),
{
    if a.len() == 0 {
        assert(a + b =~= b);
    } else {
        assert((a + b).drop_first() =~= a.drop_first() + b);
        lemma_exec_append(step(m, a[0]), a.drop_first(), b);
    }
}

pub open spec fn push_d_asm() -> Seq<Asm> {
    seq![
        Asm::Reg(0),
        Asm::Op(Cmd::AgetsM),
        Asm::Op(Cmd::MgetsD),
        Asm::Reg(0),
        Asm::Op(Cmd::IncM),
    ]
}

pub open spec fn pop_d_asm() -> Seq<Asm> {
    seq![Asm::Reg(0), Asm::Op(Cmd::DecAM), Asm::Op(Cmd::DgetsM), Asm::Op(Cmd::ZeroM)]
}

pub open spec fn two_operands_asm() -> Seq<Asm> {
    pop_d_asm() + seq![Asm::Reg(0), Asm::Op(Cmd::DecAM)]
}

proof fn lemma_render_blocks()
    ensures
        render_all(push_d_asm()) == push_d(),
        render_all(pop_d_asm()) == pop_d(),
        render_all(two_operands_asm()) == two_operands(),
{
    assert(render_all(push_d_asm()) =~= push_d());
    assert(render_all(pop_d_asm()) =~= pop_d());
    assert(render_all(two_operands_asm()) =~= two_operands());
}

/// Pushing D: the word at the old stack pointer becomes D and the stack
/// grows by one.
proof fn lemma_push_d(m: Machine)
    requires
        (m.ram)(0) != 0,
    ensures
        ({
            let r = exec(m, push_d_asm());
            let sp = (m.ram)(0);
            &&& r.d == m.d
            &&& r.syms == m.syms
            &&& (r.ram)(0) == sp + 1
            &&& (r.ram)(sp) == m.d
            &&& forall|x: int| x != 0 && x != sp ==> #[trigger] (r.ram)(x) == (m.ram)(x)
        }),
{
    reveal_with_fuel(exec, 6);
}

/// Popping into D: the stack shrinks by one, D holds the popped word and
/// its cell is cleared.
proof fn lemma_pop_d(m: Machine)
    requires
        (m.ram)(0) != 1,
    ensures
        ({
            let r = exec(m, pop_d_asm());
            let sp = (m.ram)(0);
            &&& r.d == (m.ram)(sp - 1)
            &&& r.a == sp - 1
            &&& r.syms == m.syms
            &&& (r.ram)(0) == sp - 1
            &&& (r.ram)(sp - 1) == 0
            &&& forall|x: int| x != 0 && x != sp - 1 ==> #[trigger] (r.ram)(x) == (m.ram)(x)
        }),
{
    reveal_with_fuel(exec, 5);
}

/// Whether `v` fits in one 16-bit machine word.
pub open spec fn is_word(v: int) -> bool {
    -0x8000 <= v < 0x8000
}

/// Whether `op` is an arithmetic or logical instruction without a branch.
pub open spec fn is_straight_arithmetic(op: OpCode) -> bool {
    match op {
        OpCode::Add | OpCode::Sub | OpCode::Neg | OpCode::And | OpCode::Or | OpCode::Not => true,
        _ => false,
    }
}

pub open spec fn is_binary(op: OpCode) -> bool {
    match op {
        OpCode::Add | OpCode::Sub | OpCode::And | OpCode::Or => true,
        _ => false,
    }
}

/// The listing of a branch-free arithmetic or logical instruction.
pub open spec fn arith_asm(op: OpCode) -> Seq<Asm> {
    let body = match op {
        OpCode::Add => two_operands_asm().push(Asm::Op(Cmd::DgetsDplusM)),
        OpCode::Sub => two_operands_asm().push(Asm::Op(Cmd::DgetsMminusD)),
        OpCode::Neg => pop_d_asm().push(Asm::Op(Cmd::DgetsNegD)),
        OpCode::And => two_operands_asm().push(Asm::Op(Cmd::DgetsDandM)),
        OpCode::Or => two_operands_asm().push(Asm::Op(Cmd::DgetsDorM)),
        _ => pop_d_asm().push(Asm::Op(Cmd::DgetsNotD)),
    };
    body + push_d_asm()
}

/// What a branch-free instruction computes from its left operand `x` and
/// right operand `y` (unary ones read only `y`).
pub open spec fn arith_value(op: OpCode, x: int, y: int) -> int {
    match op {
        OpCode::Add => x + y,
        OpCode::Sub => x - y,
        OpCode::Neg => -y,
        OpCode::And => ((y as i16) & (x as i16)) as int,
        OpCode::Or => ((y as i16) | (x as i16)) as int,
        _ => -y - 1,
    }
}

/// A branch-free arithmetic or logical instruction, as emitted, replaces
/// its operands on top of the stack by its result: binary ones shrink the
/// stack by one word, unary ones keep its depth, and no other word below
/// the stack pointer changes. The result is the operation's value whenever
/// that value fits in a word.
pub proof fn arithmetic_stack_effect(op: OpCode, m: Machine, n: nat)
    requires
        is_straight_arithmetic(op),
        (m.ram)(0) >= 16,
    ensures
        render_all(arith_asm(op)) == arithmetic_code(op, n),
        ({
            let r = exec(m, arith_asm(op));
            let sp = (m.ram)(0);
            let x = (m.ram)(sp - 2);
            let y = (m.ram)(sp - 1);
            &&& is_binary(op) ==> (r.ram)(0) == sp - 1
            &&& !is_binary(op) ==> (r.ram)(0) == sp
            &&& is_word(arith_value(op, x, y)) && is_binary(op) ==> (r.ram)(sp - 2) == arith_value(
                op,
                x,
                y,
            )
            &&& is_word(arith_value(op, x, y)) && !is_binary(op) ==> (r.ram)(sp - 1)
                == arith_value(op, x, y)
            &&& forall|k: int| 0 < k < sp - 2 ==> #[trigger] (r.ram)(k) == (m.ram)(k)
        }),
{
    lemma_render_blocks();
    assert(render_all(arith_asm(op)) =~= arithmetic_code(op, n));
    let sp = (m.ram)(0);
    if is_binary(op) {
        let last = arith_asm(op)[6];
        assert(arith_asm(op) =~= pop_d_asm() + (seq![Asm::Reg(0), Asm::Op(Cmd::DecAM), last]
            + push_d_asm()));
        lemma_exec_append(m, pop_d_asm(), seq![Asm::Reg(0), Asm::Op(Cmd::DecAM), last]
            + push_d_asm());
        lemma_pop_d(m);
        let m1 = exec(m, pop_d_asm());
        lemma_exec_append(m1, seq![Asm::Reg(0), Asm::Op(Cmd::DecAM), last], push_d_asm());
        let m2 = exec(m1, seq![Asm::Reg(0), Asm::Op(Cmd::DecAM), last]);
        reveal_with_fuel(exec, 4);
        assert((m2.ram)(0) == sp - 2);
        lemma_push_d(m2);
    } else {
        let last = arith_asm(op)[4];
        assert(arith_asm(op) =~= pop_d_asm() + (seq![last] + push_d_asm()));
        lemma_exec_append(m, pop_d_asm(), seq![last] + push_d_asm());
        lemma_pop_d(m);
        let m1 = exec(m, pop_d_asm());
        lemma_exec_append(m1, seq![last], push_d_asm());
        let m2 = exec(m1, seq![last]);
        reveal_with_fuel(exec, 2);
        lemma_push_d(m2);
    }
}

/// The register holding the base of a scoped segment.
pub open spec fn base_reg(segment: Seq<char>) -> nat {
    if segment == "local"@ {
        1
    } else if segment == "argument"@ {
        2
    } else if segment == "this"@ {
        3
    } else {
        4
    }
}

pub open spec fn direct_asm(segment: Seq<char>, offset: nat, unit: Seq<char>) -> Asm {
    if segment == "temp"@ {
        Asm::Num(offset + 5)
    } else if segment == "pointer"@ {
        Asm::Num(offset + 3)
    } else {
        Asm::Sym(static_symbol(unit, offset))
    }
}

/// The address that `segment offset` denotes on machine `m`.
pub open spec fn target(m: Machine, segment: Seq<char>, offset: nat, unit: Seq<char>) -> int {
    if scoped(segment) {
        (m.ram)(base_reg(segment) as int) + offset
    } else if segment == "temp"@ {
        (offset + 5) as int
    } else if segment == "pointer"@ {
        (offset + 3) as int
    } else {
        (m.syms)(static_symbol(unit, offset))
    }
}

pub open spec fn load_asm(segment: Seq<char>, offset: nat, unit: Seq<char>) -> Seq<Asm> {
    if scoped(segment) {
        seq![
            Asm::Reg(base_reg(segment)),
            Asm::Op(Cmd::DgetsM),
            Asm::Num(offset),
            Asm::Op(Cmd::AgetsDplusA),
            Asm::Op(Cmd::DgetsM),
        ]
    } else if segment == "constant"@ {
        seq![Asm::Num(offset), Asm::Op(Cmd::DgetsA)]
    } else {
        seq![direct_asm(segment, offset, unit), Asm::Op(Cmd::DgetsM)]
    }
}

pub open spec fn address_asm(segment: Seq<char>, offset: nat, unit: Seq<char>) -> Seq<Asm> {
    if scoped(segment) {
        seq![
            Asm::Reg(base_reg(segment)),
            Asm::Op(Cmd::DgetsM),
            Asm::Num(offset),
            Asm::Op(Cmd::DgetsDplusA),
        ]
    } else {
        seq![direct_asm(segment, offset, unit), Asm::Op(Cmd::DgetsA)]
    }
}

/// The listing of `push segment offset`.
pub open spec fn push_asm(segment: Seq<char>, offset: nat, unit: Seq<char>) -> Seq<Asm> {
    load_asm(segment, offset, unit) + push_d_asm()
}

/// The listing of `pop segment offset`.
pub open spec fn pop_asm(segment: Seq<char>, offset: nat, unit: Seq<char>) -> Seq<Asm> {
    address_asm(segment, offset, unit) + seq![Asm::Reg(13), Asm::Op(Cmd::MgetsD)] + pop_d_asm()
        + seq![Asm::Reg(13), Asm::Op(Cmd::AgetsM), Asm::Op(Cmd::MgetsD)]
}

proof fn lemma_render_segment_access(segment: Seq<char>, offset: nat, unit: Seq<char>)
    ensures
        render_all(push_asm(segment, offset, unit)) == push_code(segment, offset, unit),
        render_all(pop_asm(segment, offset, unit)) == pop_code(segment, offset, unit),
{
    lemma_render_blocks();
    assert(scoped(segment) ==> reg_name(base_reg(segment)) == base_cell(segment));
    assert(render_all(push_asm(segment, offset, unit)) =~= push_code(segment, offset, unit));
    assert(render_all(pop_asm(segment, offset, unit)) =~= pop_code(segment, offset, unit));
}

/// A push immediately followed by a pop of the same segment and offset, as
/// emitted, leaves the stack depth and the addressed word as they were; it
/// changes no other word but the scratch cell `R13` and the cleared cell
/// just above the stack.
pub proof fn push_pop_round_trip(m: Machine, segment: Seq<char>, offset: nat, unit: Seq<char>)
    requires
        known_segment(segment),
        segment != "constant"@,
        (m.ram)(0) >= 16,
    ensures
        render_all(push_asm(segment, offset, unit)) == push_code(segment, offset, unit),
        render_all(pop_asm(segment, offset, unit)) == pop_code(segment, offset, unit),
        ({
            let r = exec(exec(m, push_asm(segment, offset, unit)), pop_asm(segment, offset, unit));
            let t = target(m, segment, offset, unit);
            &&& (r.ram)(0) == (m.ram)(0)
            &&& (r.ram)(t) == (m.ram)(t)
            &&& forall|x: int|
                x != 13 && x != (m.ram)(0) ==> #[trigger] (r.ram)(x) == (m.ram)(x)
        }),
{
    lemma_render_segment_access(segment, offset, unit);
    let t = target(m, segment, offset, unit);
    let sp = (m.ram)(0);
    let load = load_asm(segment, offset, unit);
    lemma_exec_append(m, load, push_d_asm());
    reveal_with_fuel(exec, 6);
    let m1 = exec(m, load);
    assert(m1.d == (m.ram)(t) && m1.ram == m.ram && m1.syms == m.syms);
    lemma_push_d(m1);
    let m2 = exec(m1, push_d_asm());
    assert((m2.ram)(0) == sp + 1 && (m2.ram)(sp) == (m.ram)(t));
    assert(target(m2, segment, offset, unit) == t);
    let addr = address_asm(segment, offset, unit);
    let keep = seq![Asm::Reg(13), Asm::Op(Cmd::MgetsD)];
    let store = seq![Asm::Reg(13), Asm::Op(Cmd::AgetsM), Asm::Op(Cmd::MgetsD)];
    let pop = pop_asm(segment, offset, unit);
    assert(pop == addr + keep + pop_d_asm() + store);
    lemma_exec_append(m2, addr + keep + pop_d_asm(), store);
    lemma_exec_append(m2, addr + keep, pop_d_asm());
    lemma_exec_append(m2, addr, keep);
    let m3 = exec(m2, addr);
    assert(m3.d == t && m3.ram == m2.ram);
    let m4 = exec(m3, keep);
    assert((m4.ram)(13) == t && (m4.ram)(0) == sp + 1 && (m4.ram)(sp) == (m.ram)(t));
    lemma_pop_d(m4);
    let m5 = exec(m4, pop_d_asm());
    assert((m5.ram)(13) == t && (m5.ram)(0) == sp && m5.d == (m.ram)(t));
}

/// The instructions that push one zero.
pub open spec fn zero_local_asm() -> Seq<Asm> {
    seq![Asm::Num(0), Asm::Op(Cmd::DgetsA)] + push_d_asm()
}

pub open spec fn zero_locals_asm(k: nat) -> Seq<Asm>
    decreases k,
{
    if k == 0 {
        Seq::empty()
    } else {
        zero_locals_asm((k - 1) as nat) + zero_local_asm()
    }
}

proof fn lemma_zero_local(m: Machine)
    requires
        (m.ram)(0) >= 16,
    ensures
        ({
            let r = exec(m, zero_local_asm());
            let sp = (m.ram)(0);
            &&& (r.ram)(0) == sp + 1
            &&& (r.ram)(sp) == 0
            &&& forall|x: int| x != 0 && x != sp ==> #[trigger] (r.ram)(x) == (m.ram)(x)
            &&& r.syms == m.syms
        }),
{
    lemma_exec_append(m, seq![Asm::Num(0), Asm::Op(Cmd::DgetsA)], push_d_asm());
    reveal_with_fuel(exec, 3);
    lemma_push_d(exec(m, seq![Asm::Num(0), Asm::Op(Cmd::DgetsA)]));
}

/// Entering a function, as emitted, pushes one zero for each of its `k`
/// locals: the stack grows by `k` words, all zero, and nothing else
/// changes. Right after a call `LCL` equals `SP`, so these words are locals
/// `0 .. k`, and the body's own pushes land above them.
pub proof fn locals_start_at_zero(m: Machine, name: Seq<char>, k: nat)
    requires
        (m.ram)(0) >= 16,
    ensures
        render_all(zero_locals_asm(k)) == zero_locals(k),
        function_code(name, k) == seq!["("@ + name + ")"@] + render_all(zero_locals_asm(k)),
        ({
            let r = exec(m, zero_locals_asm(k));
            let sp = (m.ram)(0);
            &&& (r.ram)(0) == sp + k
            &&& forall|j: int| 0 <= j < k ==> #[trigger] (r.ram)(sp + j) == 0
            &&& (r.ram)(1) == (m.ram)(1)
            &&& (m.ram)(1) == sp ==> forall|j: int|
                0 <= j < k ==> #[trigger] (r.ram)((r.ram)(1) + j) == 0
            &&& forall|x: int| x != 0 && !(sp <= x < sp + k) ==> #[trigger] (r.ram)(x) == (m.ram)(
                x)
            &&& r.syms == m.syms
        }),
    decreases k,
{
    lemma_render_blocks();
    assert(render_all(zero_local_asm()) =~= zero_local());
    if k > 0 {
        let j = (k - 1) as nat;
        locals_start_at_zero(m, name, j);
        assert(render_all(zero_locals_asm(k)) =~= render_all(zero_locals_asm(j)) + render_all(
            zero_local_asm(),
        ));
        lemma_exec_append(m, zero_locals_asm(j), zero_local_asm());
        let m1 = exec(m, zero_locals_asm(j));
        lemma_zero_local(m1);
    } else {
        assert(render_all(zero_locals_asm(k)) =~= zero_locals(k));
    }
}

/// Pushes the value of register `r`.
pub open spec fn save_asm(r: nat) -> Seq<Asm> {
    seq![Asm::Reg(r), Asm::Op(Cmd::DgetsM)] + push_d_asm()
}

/// Points `ARG` at the first of `n` arguments and `LCL` at the stack top.
pub open spec fn reposition_asm(n: nat) -> Seq<Asm> {
    seq![
        Asm::Reg(0),
        Asm::Op(Cmd::DgetsM),
        Asm::Num(n),
        Asm::Op(Cmd::DgetsDminusA),
        Asm::Num(5),
        Asm::Op(Cmd::DgetsDminusA),
        Asm::Reg(2),
        Asm::Op(Cmd::MgetsD),
        Asm::Reg(0),
        Asm::Op(Cmd::DgetsM),
        Asm::Reg(1),
        Asm::Op(Cmd::MgetsD),
    ]
}

/// A call site up to its jump: the return address `ret` and the caller's
/// four bases are pushed, then the callee's bases are set and the callee's
/// entry `callee` is addressed.
pub open spec fn call_asm(ret: Seq<char>, n: nat, callee: Seq<char>) -> Seq<Asm> {
    seq![Asm::Sym(ret), Asm::Op(Cmd::DgetsA)] + push_d_asm() + save_asm(1) + save_asm(2)
        + save_asm(3) + save_asm(4) + reposition_asm(n) + seq![Asm::Sym(callee)]
}

pub open spec fn capture_asm() -> Seq<Asm> {
    seq![
        Asm::Reg(1),
        Asm::Op(Cmd::DgetsM),
        Asm::Reg(14),
        Asm::Op(Cmd::MgetsD),
        Asm::Reg(14),
        Asm::Op(Cmd::DgetsM),
        Asm::Num(5),
        Asm::Op(Cmd::DgetsDminusA),
        Asm::Op(Cmd::AgetsD),
        Asm::Op(Cmd::DgetsM),
        Asm::Reg(15),
        Asm::Op(Cmd::MgetsD),
    ]
}

pub open spec fn place_asm() -> Seq<Asm> {
    pop_d_asm() + seq![
        Asm::Reg(2),
        Asm::Op(Cmd::AgetsM),
        Asm::Op(Cmd::MgetsD),
        Asm::Reg(2),
        Asm::Op(Cmd::DgetsMplusOne),
        Asm::Reg(0),
        Asm::Op(Cmd::MgetsD),
    ]
}

pub open spec fn restore_asm(back: nat, r: nat) -> Seq<Asm> {
    seq![
        Asm::Reg(14),
        Asm::Op(Cmd::DgetsM),
        Asm::Num(back),
        Asm::Op(Cmd::DgetsDminusA),
        Asm::Op(Cmd::AgetsD),
        Asm::Op(Cmd::DgetsM),
        Asm::Reg(r),
        Asm::Op(Cmd::MgetsD),
    ]
}

pub open spec fn restore_frame_asm() -> Seq<Asm> {
    restore_asm(1, 4) + restore_asm(2, 3) + restore_asm(3, 2) + restore_asm(4, 1)
}

/// `return` up to its jump, which ends with the return address in `A`.
pub open spec fn return_asm() -> Seq<Asm> {
    capture_asm() + place_asm() + restore_frame_asm() + seq![Asm::Reg(15), Asm::Op(Cmd::AgetsM)]
}

proof fn lemma_render_call_return(scope: Seq<char>, callee: Seq<char>, n: nat, k: nat)
    ensures
        render_all(call_asm(scoped_label(scope, return_label(k)), n, callee)) + seq![
            ins("0;JMP"@),
            label_line(scope, return_label(k)),
        ] == call_code(scope, callee, n, k),
        render_all(return_asm()) + seq![ins("0;JMP"@)] == return_code(),
{
    lemma_render_blocks();
    let ret = scoped_label(scope, return_label(k));
    assert(render_all(save_asm(1)) =~= save_cell("LCL"@));
    assert(render_all(save_asm(2)) =~= save_cell("ARG"@));
    assert(render_all(save_asm(3)) =~= save_cell("THIS"@));
    assert(render_all(save_asm(4)) =~= save_cell("THAT"@));
    assert(render_all(call_asm(ret, n, callee)) + seq![
        ins("0;JMP"@),
        label_line(scope, return_label(k)),
    ] =~= call_code(scope, callee, n, k));
    assert(render_all(capture_asm()) =~= capture_frame());
    assert(render_all(place_asm()) =~= place_result());
    assert(render_all(restore_asm(1, 4)) =~= restore(1, "THAT"@));
    assert(render_all(restore_asm(2, 3)) =~= restore(2, "THIS"@));
    assert(render_all(restore_asm(3, 2)) =~= restore(3, "ARG"@));
    assert(render_all(restore_asm(4, 1)) =~= restore(4, "LCL"@));
    assert(render_all(restore_frame_asm()) =~= restore_frame());
    assert(render_all(return_asm()) + seq![ins("0;JMP"@)] =~= return_code());
}

proof fn lemma_save(m: Machine, r: nat)
    requires
        (m.ram)(0) >= 16,
        1 <= r <= 4,
    ensures
        ({
            let x = exec(m, save_asm(r));
            let sp = (m.ram)(0);
            &&& (x.ram)(0) == sp + 1
            &&& (x.ram)(sp) == (m.ram)(r as int)
            &&& forall|y: int| y != 0 && y != sp ==> #[trigger] (x.ram)(y) == (m.ram)(y)
            &&& x.syms == m.syms
        }),
{
    lemma_exec_append(m, seq![Asm::Reg(r), Asm::Op(Cmd::DgetsM)], push_d_asm());
    reveal_with_fuel(exec, 3);
    lemma_push_d(exec(m, seq![Asm::Reg(r), Asm::Op(Cmd::DgetsM)]));
}

proof fn lemma_push_return_address(m: Machine, ret: Seq<char>)
    requires
        (m.ram)(0) >= 16,
    ensures
        ({
            let x = exec(m, seq![Asm::Sym(ret), Asm::Op(Cmd::DgetsA)] + push_d_asm());
            let sp = (m.ram)(0);
            &&& (x.ram)(0) == sp + 1
            &&& (x.ram)(sp) == (m.syms)(ret)
            &&& forall|y: int| y != 0 && y != sp ==> #[trigger] (x.ram)(y) == (m.ram)(y)
            &&& x.syms == m.syms
        }),
{
    let head = seq![Asm::Sym(ret), Asm::Op(Cmd::DgetsA)];
    lemma_exec_append(m, head, push_d_asm());
    reveal_with_fuel(exec, 3);
    lemma_push_d(exec(m, head));
}

proof fn lemma_reposition(m: Machine, n: nat)
    ensures
        ({
            let x = exec(m, reposition_asm(n));
            let sp = (m.ram)(0);
            &&& (x.ram)(0) == sp
            &&& (x.ram)(1) == sp
            &&& (x.ram)(2) == sp - n - 5
            &&& forall|y: int| y != 1 && y != 2 ==> #[trigger] (x.ram)(y) == (m.ram)(y)
        }),
{
    reveal_with_fuel(exec, 13);
}

/// What a call site leaves: the frame above the arguments, the callee's
/// bases, and the rest of memory.
proof fn lemma_call(m: Machine, ret: Seq<char>, n: nat, callee: Seq<char>)
    requires
        (m.ram)(0) >= 16 + n,
    ensures
        ({
            let x = exec(m, call_asm(ret, n, callee));
            let sp = (m.ram)(0);
            &&& (x.ram)(0) == sp + 5
            &&& (x.ram)(1) == sp + 5
            &&& (x.ram)(2) == sp - n
            &&& (x.ram)(3) == (m.ram)(3)
            &&& (x.ram)(4) == (m.ram)(4)
            &&& (x.ram)(sp) == (m.syms)(ret)
            &&& (x.ram)(sp + 1) == (m.ram)(1)
            &&& (x.ram)(sp + 2) == (m.ram)(2)
            &&& (x.ram)(sp + 3) == (m.ram)(3)
            &&& (x.ram)(sp + 4) == (m.ram)(4)
        }),
{
    let sp = (m.ram)(0);
    let c1 = seq![Asm::Sym(ret), Asm::Op(Cmd::DgetsA)] + push_d_asm();
    let c2 = c1 + save_asm(1);
    let c3 = c2 + save_asm(2);
    let c4 = c3 + save_asm(3);
    let c5 = c4 + save_asm(4);
    let c6 = c5 + reposition_asm(n);
    assert(call_asm(ret, n, callee) == c6 + seq![Asm::Sym(callee)]);
    lemma_push_return_address(m, ret);
    let m1 = exec(m, c1);
    assert((m1.ram)(0) == sp + 1 && (m1.ram)(sp) == (m.syms)(ret));
    assert((m1.ram)(1) == (m.ram)(1) && (m1.ram)(2) == (m.ram)(2));
    assert((m1.ram)(3) == (m.ram)(3) && (m1.ram)(4) == (m.ram)(4));
    lemma_exec_append(m, c1, save_asm(1));
    lemma_save(m1, 1);
    let m2 = exec(m, c2);
    assert((m2.ram)(0) == sp + 2 && (m2.ram)(sp) == (m.syms)(ret) && (m2.ram)(sp + 1) == (
    m.ram)(1));
    assert((m2.ram)(2) == (m.ram)(2) && (m2.ram)(3) == (m.ram)(3) && (m2.ram)(4) == (m.ram)(4));
    lemma_exec_append(m, c2, save_asm(2));
    lemma_save(m2, 2);
    let m3 = exec(m, c3);
    assert((m3.ram)(0) == sp + 3 && (m3.ram)(sp) == (m.syms)(ret) && (m3.ram)(sp + 1) == (
    m.ram)(1) && (m3.ram)(sp + 2) == (m.ram)(2));
    assert((m3.ram)(3) == (m.ram)(3) && (m3.ram)(4) == (m.ram)(4));
    lemma_exec_append(m, c3, save_asm(3));
    lemma_save(m3, 3);
    let m4 = exec(m, c4);
    assert((m4.ram)(0) == sp + 4 && (m4.ram)(sp) == (m.syms)(ret) && (m4.ram)(sp + 1) == (
    m.ram)(1) && (m4.ram)(sp + 2) == (m.ram)(2) && (m4.ram)(sp + 3) == (m.ram)(3));
    assert((m4.ram)(3) == (m.ram)(3) && (m4.ram)(4) == (m.ram)(4));
    lemma_exec_append(m, c4, save_asm(4));
    lemma_save(m4, 4);
    let m5 = exec(m, c5);
    assert((m5.ram)(0) == sp + 5 && (m5.ram)(sp) == (m.syms)(ret) && (m5.ram)(sp + 1) == (
    m.ram)(1) && (m5.ram)(sp + 2) == (m.ram)(2) && (m5.ram)(sp + 3) == (m.ram)(3) && (m5.ram)(
    sp + 4) == (m.ram)(4));
    assert((m5.ram)(3) == (m.ram)(3) && (m5.ram)(4) == (m.ram)(4));
    lemma_exec_append(m, c5, reposition_asm(n));
    lemma_reposition(m5, n);
    let m6 = exec(m, c6);
    lemma_exec_append(m, c6, seq![Asm::Sym(callee)]);
    reveal_with_fuel(exec, 2);
}

proof fn lemma_capture(m: Machine)
    requires
        (m.ram)(1) > 20,
    ensures
        ({
            let x = exec(m, capture_asm());
            &&& (x.ram)(14) == (m.ram)(1)
            &&& (x.ram)(15) == (m.ram)((m.ram)(1) - 5)
            &&& forall|y: int| y != 14 && y != 15 ==> #[trigger] (x.ram)(y) == (m.ram)(y)
        }),
{
    reveal_with_fuel(exec, 13);
}

proof fn lemma_place(m: Machine)
    requires
        (m.ram)(0) > 16,
        (m.ram)(2) >= 16,
    ensures
        ({
            let x = exec(m, place_asm());
            let sp = (m.ram)(0);
            let arg = (m.ram)(2);
            &&& (x.ram)(arg) == (m.ram)(sp - 1)
            &&& (x.ram)(0) == arg + 1
            &&& forall|y: int| y != 0 && y != sp - 1 && y != arg ==> #[trigger] (x.ram)(y) == (
            m.ram)(y)
        }),
{
    let tail = seq![
        Asm::Reg(2),
        Asm::Op(Cmd::AgetsM),
        Asm::Op(Cmd::MgetsD),
        Asm::Reg(2),
        Asm::Op(Cmd::DgetsMplusOne),
        Asm::Reg(0),
        Asm::Op(Cmd::MgetsD),
    ];
    lemma_exec_append(m, pop_d_asm(), tail);
    lemma_pop_d(m);
    reveal_with_fuel(exec, 8);
}

proof fn lemma_restore(m: Machine, back: nat, r: nat)
    requires
        1 <= r <= 4,
        (m.ram)(14) > 16,
        1 <= back <= 5,
    ensures
        ({
            let x = exec(m, restore_asm(back, r));
            &&& (x.ram)(r as int) == (m.ram)((m.ram)(14) - back)
            &&& forall|y: int| y != r ==> #[trigger] (x.ram)(y) == (m.ram)(y)
        }),
{
    reveal_with_fuel(exec, 9);
}

/// A call of a function with `n` arguments, followed (whatever the callee
/// did in between, so long as it kept its frame and bases and left a value
/// on its stack) by `return`, as emitted, restores the caller's `LCL`,
/// `ARG`, `THIS` and `THAT`, leaves exactly the callee's return value where
/// the arguments began, keeps the `temp` cells, `R13` and every word below
/// the arguments, and jumps back to the call site's return label.
pub proof fn call_return_restores_caller(
    m0: Machine,
    scope: Seq<char>,
    k: nat,
    n: nat,
    callee: Seq<char>,
    m2: Machine,
)
    requires
        (m0.ram)(0) >= 16 + n,
        ({
            let m1 = exec(m0, call_asm(scoped_label(scope, return_label(k)), n, callee));
            let frame = (m1.ram)(1);
            &&& (m2.ram)(1) == frame
            &&& (m2.ram)(2) == (m1.ram)(2)
            &&& forall|j: int| 1 <= j <= 5 ==> #[trigger] (m2.ram)(frame - j) == (m1.ram)(
                frame - j,
            )
            &&& (m2.ram)(0) > frame
        }),
    ensures
        render_all(call_asm(scoped_label(scope, return_label(k)), n, callee)) + seq![
            ins("0;JMP"@),
            label_line(scope, return_label(k)),
        ] == call_code(scope, callee, n, k),
        render_all(return_asm()) + seq![ins("0;JMP"@)] == return_code(),
        ({
            let r = exec(m2, return_asm());
            let sp = (m0.ram)(0);
            &&& (r.ram)(1) == (m0.ram)(1)
            &&& (r.ram)(2) == (m0.ram)(2)
            &&& (r.ram)(3) == (m0.ram)(3)
            &&& (r.ram)(4) == (m0.ram)(4)
            &&& (r.ram)(0) == sp - n + 1
            &&& (r.ram)(sp - n) == (m2.ram)((m2.ram)(0) - 1)
            &&& r.a == (m0.syms)(scoped_label(scope, return_label(k)))
            &&& forall|x: int|
                (5 <= x <= 13 || 16 <= x < sp - n) ==> #[trigger] (r.ram)(x) == (m2.ram)(x)
        }),
{
    lemma_render_call_return(scope, callee, n, k);
    let ret = scoped_label(scope, return_label(k));
    let sp = (m0.ram)(0);
    lemma_call(m0, ret, n, callee);
    let m1 = exec(m0, call_asm(ret, n, callee));
    let frame = sp + 5;
    assert((m2.ram)(frame - 5) == (m0.syms)(ret));
    assert((m2.ram)(frame - 4) == (m0.ram)(1));
    assert((m2.ram)(frame - 3) == (m0.ram)(2));
    assert((m2.ram)(frame - 2) == (m0.ram)(3));
    assert((m2.ram)(frame - 1) == (m0.ram)(4));
    let top = (m2.ram)(0);
    let v = (m2.ram)(top - 1);
    let c1 = capture_asm();
    lemma_capture(m2);
    let m3 = exec(m2, c1);
    assert((m3.ram)(14) == frame && (m3.ram)(15) == (m0.syms)(ret));
    assert((m3.ram)(2) == sp - n && (m3.ram)(0) == top);
    let c2 = c1 + place_asm();
    lemma_exec_append(m2, c1, place_asm());
    lemma_place(m3);
    let m4 = exec(m2, c2);
    assert((m4.ram)(0) == sp - n + 1);
    assert((m4.ram)(sp - n) == v);
    assert((m4.ram)(14) == frame && (m4.ram)(15) == (m0.syms)(ret));
    assert(forall|j: int| 1 <= j <= 4 ==> #[trigger] (m4.ram)(frame - j) == (m2.ram)(frame - j));
    let c3 = c2 + restore_asm(1, 4);
    lemma_exec_append(m2, c2, restore_asm(1, 4));
    lemma_restore(m4, 1, 4);
    let m5 = exec(m2, c3);
    let c4 = c3 + restore_asm(2, 3);
    lemma_exec_append(m2, c3, restore_asm(2, 3));
    lemma_restore(m5, 2, 3);
    let m6 = exec(m2, c4);
    let c5 = c4 + restore_asm(3, 2);
    lemma_exec_append(m2, c4, restore_asm(3, 2));
    lemma_restore(m6, 3, 2);
    let m7 = exec(m2, c5);
    let c6 = c5 + restore_asm(4, 1);
    lemma_exec_append(m2, c5, restore_asm(4, 1));
    lemma_restore(m7, 4, 1);
    let m8 = exec(m2, c6);
    assert(return_asm() =~= c6 + seq![Asm::Reg(15), Asm::Op(Cmd::AgetsM)]);
    lemma_exec_append(m2, c6, seq![Asm::Reg(15), Asm::Op(Cmd::AgetsM)]);
    reveal_with_fuel(exec, 3);
}

/// The jump condition of a comparison, on left minus right.
pub open spec fn jump_holds(op: OpCode, v: int) -> bool {
    match op {
        OpCode::Eq => v == 0,
        OpCode::Gt => v > 0,
        _ => v < 0,
    }
}

pub open spec fn jump_text(op: OpCode) -> Seq<char> {
    match op {
        OpCode::Eq => "D;JEQ"@,
        OpCode::Gt => "D;JGT"@,
        _ => "D;JLT"@,
    }
}

/// The start of a comparison: D gets left minus right, the left cell is
/// cleared and the stack holds one word less.
pub open spec fn compare_prefix() -> Seq<Asm> {
    two_operands_asm() + seq![Asm::Op(Cmd::DgetsMminusD), Asm::Op(Cmd::ZeroM)]
}

/// The instructions a comparison at address `n` executes, jumps left out
/// (they touch no register and no memory): with the jump taken it sets D
/// to true, otherwise to false and then jumps over that.
pub open spec fn compare_path(taken: bool, n: nat) -> Seq<Asm> {
    compare_prefix() + seq![Asm::Num(n + 13)] + (if taken {
        seq![Asm::Op(Cmd::DgetsMinusOne)]
    } else {
        seq![Asm::Op(Cmd::DgetsZero), Asm::Num(n + 14)]
    }) + push_d_asm()
}

proof fn lemma_compare_path(m: Machine, n: nat, taken: bool)
    requires
        (m.ram)(0) >= 16,
    ensures
        ({
            let sp = (m.ram)(0);
            let r = exec(m, compare_path(taken, n));
            &&& (r.ram)(0) == sp - 1
            &&& (r.ram)(sp - 2) == (if taken {
                -1int
            } else {
                0int
            })
            &&& forall|k: int| 0 < k < sp - 2 ==> #[trigger] (r.ram)(k) == (m.ram)(k)
        }),
{
    let sp = (m.ram)(0);
    let middle = seq![
        Asm::Reg(0),
        Asm::Op(Cmd::DecAM),
        Asm::Op(Cmd::DgetsMminusD),
        Asm::Op(Cmd::ZeroM),
        Asm::Num(n + 13),
    ] + (if taken {
        seq![Asm::Op(Cmd::DgetsMinusOne)]
    } else {
        seq![Asm::Op(Cmd::DgetsZero), Asm::Num(n + 14)]
    });
    assert(compare_path(taken, n) =~= pop_d_asm() + (middle + push_d_asm()));
    lemma_exec_append(m, pop_d_asm(), middle + push_d_asm());
    lemma_pop_d(m);
    let m1 = exec(m, pop_d_asm());
    lemma_exec_append(m1, middle, push_d_asm());
    reveal_with_fuel(exec, 8);
    let m2 = exec(m1, middle);
    assert((m2.ram)(0) == sp - 2);
    lemma_push_d(m2);
}

/// A comparison emitted at address `n` replaces its two operands by one
/// word on either of its paths: all bits set when the comparison holds and
/// zero otherwise, whenever left minus right fits in a word (the machine
/// decides on that difference). Its jump targets are the addresses of the
/// line that sets true and of the push that follows.
pub proof fn comparison_stack_effect(op: OpCode, m: Machine, n: nat)
    requires
        op is Eq || op is Gt || op is Lt,
        (m.ram)(0) >= 16,
    ensures
        ({
            let code = arithmetic_code(op, n);
            &&& code.len() == 19
            &&& render_all(compare_prefix()) == code.subrange(0, 8)
            &&& code[8] == render(Asm::Num(n + 13))
            &&& code[9] == ins(jump_text(op))
            &&& code[10] == render(Asm::Op(Cmd::DgetsZero))
            &&& code[11] == render(Asm::Num(n + 14))
            &&& code[12] == ins("0;JMP"@)
            &&& code[13] == render(Asm::Op(Cmd::DgetsMinusOne))
            &&& render_all(push_d_asm()) == code.subrange(14, 19)
        }),
        forall|taken: bool|
            #![trigger compare_path(taken, n)]
            ({
                let sp = (m.ram)(0);
                let r = exec(m, compare_path(taken, n));
                &&& (r.ram)(0) == sp - 1
                &&& forall|k: int| 0 < k < sp - 2 ==> #[trigger] (r.ram)(k) == (m.ram)(k)
            }),
        ({
            let sp = (m.ram)(0);
            let x = (m.ram)(sp - 2);
            let y = (m.ram)(sp - 1);
            let taken = jump_holds(op, x - y);
            is_word(x - y) ==> (exec(m, compare_path(taken, n)).ram)(sp - 2) == (if taken {
                -1int
            } else {
                0int
            })
        }),
{
    lemma_render_blocks();
    let code = arithmetic_code(op, n);
    assert(render_all(compare_prefix()) =~= code.subrange(0, 8));
    assert(render_all(push_d_asm()) =~= code.subrange(14, 19));
    lemma_compare_path(m, n, true);
    lemma_compare_path(m, n, false);
    assert forall|taken: bool| #![trigger compare_path(taken, n)] ({
        let sp = (m.ram)(0);
        let r = exec(m, compare_path(taken, n));
        &&& (r.ram)(0) == sp - 1
        &&& forall|k: int| 0 < k < sp - 2 ==> #[trigger] (r.ram)(k) == (m.ram)(k)
    }) by {
        if taken {
        } else {
        }
    }
}

} // verus!
