//! The code generation engine: one entry point per instruction category,
//! each appending its exact listing to the engine's output.
use crate::listing::{
    arithmetic_code, at_num, at_sym, base_cell, bootstrap_code, call_code, capture_frame, comment_line,
    comparison, place_result, restore_frame,
    current_scope, direct_address, function_code, if_code, goto_code, ins, joined, label_line,
    pop_code, pop_d, push_code, push_d, restore, return_code, save_cell,
    scoped_label, two_operands, zero_local, zero_locals,
};
use crate::op_code::{in_window, is_arithmetic, known_segment, scoped, LabelOpCode, OpCode, SegmentOpCode};
use crate::text::{concat, push_decimal, str_equal};
use vstd::prelude::*;
use vstd::string::*;

verus! {

/// Room left in the line counter that every entry point asks for; the
/// longest single listing is far shorter.
pub const ROOM: u64 = 4096;

/// What an engine holds, as mathematical values.
pub ghost struct EngineState {
    /// The lines emitted and not yet flushed.
    pub lines: Seq<Seq<char>>,
    /// The program address of the next instruction.
    pub line_count: nat,
    /// The unit whose static variables are being addressed.
    pub unit: Seq<char>,
    /// The open functions, innermost last.
    pub scopes: Seq<Seq<char>>,
    /// The number of call sites emitted.
    pub call_count: nat,
}

/// The counters of `s` can take one more listing.
pub open spec fn room(s: EngineState) -> bool {
    s.line_count + ROOM <= u64::MAX && s.call_count < u64::MAX
}

/// The names of the open functions, innermost last.
struct FunctionNameStack(Vec<String>);

impl FunctionNameStack {
    closed spec fn view(&self) -> Seq<Seq<char>> {
        self.0@.map_values(|s: String| s@)
    }

    fn new() -> (r: Self)
        ensures
            r.view() == Seq::<Seq<char>>::empty(),
    {
        let r = FunctionNameStack(Vec::new());
        assert(r.view() =~= Seq::<Seq<char>>::empty());
        r
    }

    fn push(&mut self, func_name: &str)
        ensures
            final(self).view() == old(self).view().push(func_name@),
    {
        self.0.push(String::from_str(func_name));
        assert(self.view() =~= old(self).view().push(func_name@));
    }

    fn pop(&mut self)
        ensures
            final(self).view() == (if old(self).view().len() == 0 {
                old(self).view()
            } else {
                old(self).view().drop_last()
            }),
    {
        if self.0.len() > 0 {
            self.0.pop();
            assert(self.view() =~= old(self).view().drop_last());
        }
    }

    fn peek(&self) -> (r: Option<String>)
        ensures
            self.view().len() == 0 ==> r is None,
            self.view().len() > 0 ==> r is Some && r->0@ == self.view().last(),
    {
        let n = self.0.len();
        if n == 0 {
            None
        } else {
            Some(self.0[n - 1].clone())
        }
    }
}

/// The engine state for one output stream.
pub struct CodeWriter {
    out: Vec<String>,
    lines_written: u64,
    current_filename: String,
    function_name: FunctionNameStack,
    calls: u64,
}

impl CodeWriter {
    /// The lines emitted and not yet flushed.
    pub closed spec fn lines(&self) -> Seq<Seq<char>> {
        self.out@.map_values(|s: String| s@)
    }

    /// The number of instruction lines emitted so far: the program address of
    /// the next instruction.
    pub closed spec fn line_count(&self) -> nat {
        self.lines_written as nat
    }

    /// The unit whose static variables are being addressed.
    pub closed spec fn unit(&self) -> Seq<char> {
        self.current_filename@
    }

    /// The open functions, innermost last.
    pub closed spec fn scopes(&self) -> Seq<Seq<char>> {
        self.function_name.view()
    }

    /// The number of call sites emitted so far.
    pub closed spec fn call_count(&self) -> nat {
        self.calls as nat
    }

    pub open spec fn state(&self) -> EngineState {
        EngineState {
            lines: self.lines(),
            line_count: self.line_count(),
            unit: self.unit(),
            scopes: self.scopes(),
            call_count: self.call_count(),
        }
    }

    /// The counters can take one more listing.
    pub open spec fn has_room(&self) -> bool {
        room(self.state())
    }

    /// `self` is `prev` with `code` appended, of which `count` lines are
    /// instructions, and nothing else changed.
    pub open spec fn emitted(&self, prev: CodeWriter, code: Seq<Seq<char>>, count: nat) -> bool {
        &&& self.lines() == prev.lines() + code
        &&& self.line_count() == prev.line_count() + count
        &&& self.unit() == prev.unit()
        &&& self.scopes() == prev.scopes()
        &&& self.call_count() == prev.call_count()
    }

    /// A fresh engine; with `bootstrap`, its output starts with the bootstrap.
    pub fn new(bootstrap: bool) -> (r: Self)
        ensures
            r.lines() == (if bootstrap {
                bootstrap_code()
            } else {
                Seq::empty()
            }),
            r.line_count() == (if bootstrap {
                bootstrap_code().len() - 1
            } else {
                0
            }),
            r.unit() == "Sys"@,
            r.scopes() == Seq::<Seq<char>>::empty(),
            r.call_count() == (if bootstrap {
                1nat
            } else {
                0nat
            }),
    {
        let mut code_writer = CodeWriter {
            out: Vec::new(),
            lines_written: 0,
            current_filename: String::from_str("Sys"),
            function_name: FunctionNameStack::new(),
            calls: 0,
        };
        assert(code_writer.lines() =~= Seq::<Seq<char>>::empty());
        if bootstrap {
            code_writer.write_init();
            assert(code_writer.lines() =~= bootstrap_code());
        }
        code_writer
    }

    fn write_init(&mut self)
        requires
            old(self).line_count() == 0,
            old(self).scopes().len() == 0,
            old(self).call_count() == 0,
        ensures
            final(self).lines() == old(self).lines() + bootstrap_code(),
            final(self).line_count() == old(self).line_count() + bootstrap_code().len() - 1,
            final(self).unit() == old(self).unit(),
            final(self).scopes() == old(self).scopes(),
            final(self).call_count() == 1,
    {
        self.write_number(256);
        self.write("D=A");
        self.write_at("SP");
        self.write("M=D");
        self.write_call("Sys.init", 0);
        assert(self.lines() =~= old(self).lines() + bootstrap_code());
    }

    /// Whether the counters can take one more listing.
    pub fn has_enough_room(&self) -> (r: bool)
        ensures
            r == self.has_room(),
    {
        self.lines_written <= u64::MAX - ROOM && self.calls < u64::MAX
    }

    /// Static variables are qualified by `filename` from now on.
    pub fn set_current_filename(&mut self, filename: &str)
        ensures
            final(self).unit() == filename@,
            final(self).lines() == old(self).lines(),
            final(self).line_count() == old(self).line_count(),
            final(self).scopes() == old(self).scopes(),
            final(self).call_count() == old(self).call_count(),
    {
        self.current_filename = String::from_str(filename);
    }

    fn get_current_func(&self) -> (r: String)
        ensures
            r@ == current_scope(self.scopes()),
    {
        let func_name = self.function_name.peek();
        match func_name {
            Some(name) => name,
            None => String::from_str("Sys"),
        }
    }

    /// Appends one instruction line.
    fn write(&mut self, line: &str)
        requires
            old(self).line_count() < u64::MAX,
        ensures
            final(self).emitted(*old(self), seq![ins(line@)], 1),
    {
        self.out.push(concat("\t", line));
        self.lines_written = self.lines_written + 1;
        assert(self.lines() =~= old(self).lines() + seq![ins(line@)]);
    }

    /// Appends a line that occupies no program address.
    fn label(&mut self, line: &str)
        ensures
            final(self).emitted(*old(self), seq![line@], 0),
    {
        self.out.push(String::from_str(line));
        assert(self.lines() =~= old(self).lines() + seq![line@]);
    }

    fn write_at(&mut self, name: &str)
        requires
            old(self).line_count() < u64::MAX,
        ensures
            final(self).emitted(*old(self), seq![at_sym(name@)], 1),
    {
        let s = concat("@", name);
        self.write(s.as_str());
    }

    fn write_number(&mut self, n: u64)
        requires
            old(self).line_count() < u64::MAX,
        ensures
            final(self).emitted(*old(self), seq![at_num(n as nat)], 1),
    {
        let mut s = String::from_str("@");
        push_decimal(&mut s, n);
        self.write(s.as_str());
    }

    fn write_to_stack(&mut self)
        requires
            old(self).line_count() + 5 <= u64::MAX,
        ensures
            final(self).emitted(*old(self), push_d(), 5),
    {
        self.write_at("SP");
        self.write("A=M");
        self.write("M=D");
        self.write_at("SP");
        self.write("M=M+1");
        assert(self.lines() =~= old(self).lines() + push_d());
    }

    fn pop_stack(&mut self)
        requires
            old(self).line_count() + 4 <= u64::MAX,
        ensures
            final(self).emitted(*old(self), pop_d(), 4),
    {
        self.write_at("SP");
        self.write("AM=M-1");
        self.write("D=M");
        self.write("M=0");
        assert(self.lines() =~= old(self).lines() + pop_d());
    }

    fn write_double_operand(&mut self)
        requires
            old(self).line_count() + 6 <= u64::MAX,
        ensures
            final(self).emitted(*old(self), two_operands(), 6),
    {
        self.pop_stack();
        self.write_at("SP");
        self.write("AM=M-1");
        assert(self.lines() =~= old(self).lines() + two_operands());
    }

    fn write_conditional(&mut self, condition: &str)
        requires
            old(self).line_count() + 14 <= u64::MAX,
        ensures
            final(self).emitted(
                *old(self),
                comparison(condition@, old(self).line_count()),
                14,
            ),
    {
        let ghost n = self.line_count();
        self.write_double_operand();
        self.write("D=M-D");
        self.write("M=0");
        let t = self.lines_written + 5;
        assert(t == n + 13);
        self.write_number(t);
        self.write(condition);
        self.write("D=0");
        let f = self.lines_written + 3;
        assert(f == n + 14);
        self.write_number(f);
        self.write("0;JMP");
        self.write("D=-1");
        assert(self.lines() =~= old(self).lines() + comparison(condition@, n));
    }

    fn scoped_name(&self, label: &str) -> (r: String)
        ensures
            r@ == scoped_label(current_scope(self.scopes()), label@),
    {
        let mut r = self.get_current_func();
        r.append("$");
        r.append(label);
        r
    }

    fn write_save(&mut self, cell: &str)
        requires
            old(self).line_count() + 7 <= u64::MAX,
        ensures
            final(self).emitted(*old(self), save_cell(cell@), 7),
    {
        self.write_at(cell);
        self.write("D=M");
        self.write_to_stack();
        assert(self.lines() =~= old(self).lines() + save_cell(cell@));
    }

    fn write_restore(&mut self, back: u64, cell: &str)
        requires
            old(self).line_count() + 8 <= u64::MAX,
        ensures
            final(self).emitted(*old(self), restore(back as nat, cell@), 8),
    {
        self.write_at("R14");
        self.write("D=M");
        self.write_number(back);
        self.write("D=D-A");
        self.write("A=D");
        self.write("D=M");
        self.write_at(cell);
        self.write("M=D");
        assert(self.lines() =~= old(self).lines() + restore(back as nat, cell@));
    }

    /// Emits an arithmetic or logical instruction: binary operators replace
    /// their two operands by the result, unary ones replace their operand.
    pub fn write_arithmetic(&mut self, op_code: &OpCode)
        requires
            old(self).has_room(),
            is_arithmetic(*op_code),
        ensures
            final(self).emitted(
                *old(self),
                arithmetic_code(*op_code, old(self).line_count()),
                arithmetic_code(*op_code, old(self).line_count()).len(),
            ),
    {
        let ghost n = self.line_count();
        match op_code {
            OpCode::Add => {
                self.write_double_operand();
                self.write("D=D+M");
            },
            OpCode::Sub => {
                self.write_double_operand();
                self.write("D=M-D");
            },
            OpCode::Neg => {
                self.pop_stack();
                self.write("D=-D");
            },
            OpCode::Eq => self.write_conditional("D;JEQ"),
            OpCode::Gt => self.write_conditional("D;JGT"),
            OpCode::Lt => self.write_conditional("D;JLT"),
            OpCode::And => {
                self.write_double_operand();
                self.write("D=D&M");
            },
            OpCode::Or => {
                self.write_double_operand();
                self.write("D=D|M");
            },
            _ => {
                self.pop_stack();
                self.write("D=!D");
            },
        }
        self.write_to_stack();
        assert(self.lines() =~= old(self).lines() + arithmetic_code(*op_code, n));
    }

    fn write_direct_address(&mut self, op_code: &SegmentOpCode)
        requires
            old(self).line_count() < u64::MAX,
        ensures
            final(self).emitted(
                *old(self),
                seq![direct_address(op_code.segment@, op_code.offset as nat, old(self).unit())],
                1,
            ),
    {
        if str_equal(op_code.segment, "temp") {
            self.write_number(op_code.offset as u64 + 5);
        } else if str_equal(op_code.segment, "pointer") {
            self.write_number(op_code.offset as u64 + 3);
        } else {
            let mut symbol = concat(self.current_filename.as_str(), ".");
            push_decimal(&mut symbol, op_code.offset as u64);
            self.write_at(symbol.as_str());
        }
    }

    /// Emits `push segment offset`.
    pub fn write_push(&mut self, op_code: &SegmentOpCode)
        requires
            old(self).has_room(),
            known_segment(op_code.segment@),
            in_window(op_code.segment@, op_code.offset as nat),
        ensures
            final(self).emitted(
                *old(self),
                push_code(op_code.segment@, op_code.offset as nat, old(self).unit()),
                push_code(op_code.segment@, op_code.offset as nat, old(self).unit()).len(),
            ),
    {
        if op_code.is_scoped_segment() {
            self.write_at(base_cell_name(op_code.segment));
            self.write("D=M");
            self.write_number(op_code.offset as u64);
            self.write("A=D+A");
            self.write("D=M");
        } else if str_equal(op_code.segment, "constant") {
            self.write_number(op_code.offset as u64);
            self.write("D=A");
        } else {
            self.write_direct_address(op_code);
            self.write("D=M");
        }
        self.write_to_stack();
        assert(self.lines() =~= old(self).lines() + push_code(
            op_code.segment@,
            op_code.offset as nat,
            old(self).unit(),
        ));
    }

    /// Emits `pop segment offset`; `constant` has no pop form.
    pub fn write_pop(&mut self, op_code: &SegmentOpCode)
        requires
            old(self).has_room(),
            known_segment(op_code.segment@),
            op_code.segment@ != "constant"@,
            in_window(op_code.segment@, op_code.offset as nat),
        ensures
            final(self).emitted(
                *old(self),
                pop_code(op_code.segment@, op_code.offset as nat, old(self).unit()),
                pop_code(op_code.segment@, op_code.offset as nat, old(self).unit()).len(),
            ),
    {
        if op_code.is_scoped_segment() {
            self.write_at(base_cell_name(op_code.segment));
            self.write("D=M");
            self.write_number(op_code.offset as u64);
            self.write("D=D+A");
        } else {
            self.write_direct_address(op_code);
            self.write("D=A");
        }
        self.write_at("R13");
        self.write("M=D");
        self.pop_stack();
        self.write_at("R13");
        self.write("A=M");
        self.write("M=D");
        assert(self.lines() =~= old(self).lines() + pop_code(
            op_code.segment@,
            op_code.offset as nat,
            old(self).unit(),
        ));
    }

    /// Defines `label` within the current function.
    pub fn write_label(&mut self, label: &str)
        ensures
            final(self).emitted(
                *old(self),
                seq![label_line(current_scope(old(self).scopes()), label@)],
                0,
            ),
    {
        let mut line = String::from_str("(");
        let name = self.scoped_name(label);
        line.append(name.as_str());
        line.append(")");
        self.label(line.as_str());
    }

    /// Jumps to `label` of the current function.
    pub fn write_goto(&mut self, op_code: &LabelOpCode)
        requires
            old(self).has_room(),
        ensures
            final(self).emitted(
                *old(self),
                goto_code(current_scope(old(self).scopes()), op_code.label@),
                2,
            ),
    {
        let name = self.scoped_name(op_code.label);
        self.write_at(name.as_str());
        self.write("0;JMP");
        assert(self.lines() =~= old(self).lines() + goto_code(
            current_scope(old(self).scopes()),
            op_code.label@,
        ));
    }

    /// Pops a value and jumps to `label` of the current function when it is
    /// not zero.
    pub fn write_if(&mut self, op_code: &LabelOpCode)
        requires
            old(self).has_room(),
        ensures
            final(self).emitted(
                *old(self),
                if_code(current_scope(old(self).scopes()), op_code.label@),
                6,
            ),
    {
        self.pop_stack();
        let name = self.scoped_name(op_code.label);
        self.write_at(name.as_str());
        self.write("D;JNE");
        assert(self.lines() =~= old(self).lines() + if_code(
            current_scope(old(self).scopes()),
            op_code.label@,
        ));
    }

    /// Calls `func_name` with `num_args` arguments already on the stack; the
    /// return address is a fresh label numbered by the engine's call count.
    pub fn write_call(&mut self, func_name: &str, num_args: u8)
        requires
            old(self).has_room(),
        ensures
            final(self).lines() == old(self).lines() + call_code(
                current_scope(old(self).scopes()),
                func_name@,
                num_args as nat,
                old(self).call_count(),
            ),
            final(self).line_count() == old(self).line_count() + 49,
            final(self).call_count() == old(self).call_count() + 1,
            final(self).unit() == old(self).unit(),
            final(self).scopes() == old(self).scopes(),
    {
        let ghost scope = current_scope(self.scopes());
        let ghost k = self.call_count();
        let mut return_address = String::from_str("$ret.");
        push_decimal(&mut return_address, self.calls);
        self.calls = self.calls + 1;
        let target = self.scoped_name(return_address.as_str());
        self.write_at(target.as_str());
        self.write("D=A");
        self.write_to_stack();
        self.write_save("LCL");
        self.write_save("ARG");
        self.write_save("THIS");
        self.write_save("THAT");
        self.write_at("SP");
        self.write("D=M");
        self.write_number(num_args as u64);
        self.write("D=D-A");
        self.write_number(5);
        self.write("D=D-A");
        self.write_at("ARG");
        self.write("M=D");
        self.write_at("SP");
        self.write("D=M");
        self.write_at("LCL");
        self.write("M=D");
        self.write_at(func_name);
        self.write("0;JMP");
        self.write_label(return_address.as_str());
        assert(self.lines() =~= old(self).lines() + call_code(
            scope,
            func_name@,
            num_args as nat,
            k,
        ));
    }

    fn write_capture_frame(&mut self)
        requires
            old(self).line_count() + 12 <= u64::MAX,
        ensures
            final(self).emitted(*old(self), capture_frame(), 12),
    {
        self.write_at("LCL");
        self.write("D=M");
        self.write_at("R14");
        self.write("M=D");
        self.write_at("R14");
        self.write("D=M");
        self.write_number(5);
        self.write("D=D-A");
        self.write("A=D");
        self.write("D=M");
        self.write_at("R15");
        self.write("M=D");
        assert(self.lines() =~= old(self).lines() + capture_frame());
    }

    fn write_place_result(&mut self)
        requires
            old(self).line_count() + 11 <= u64::MAX,
        ensures
            final(self).emitted(*old(self), place_result(), 11),
    {
        self.pop_stack();
        self.write_at("ARG");
        self.write("A=M");
        self.write("M=D");
        self.write_at("ARG");
        self.write("D=M+1");
        self.write_at("SP");
        self.write("M=D");
        assert(self.lines() =~= old(self).lines() + place_result());
    }

    fn write_restore_frame(&mut self)
        requires
            old(self).line_count() + 32 <= u64::MAX,
        ensures
            final(self).emitted(*old(self), restore_frame(), 32),
    {
        self.write_restore(1, "THAT");
        self.write_restore(2, "THIS");
        self.write_restore(3, "ARG");
        self.write_restore(4, "LCL");
        assert(self.lines() =~= old(self).lines() + restore_frame());
    }

    /// Returns from the current function and closes its label scope.
    pub fn write_return(&mut self)
        requires
            old(self).has_room(),
        ensures
            final(self).lines() == old(self).lines() + return_code(),
            final(self).line_count() == old(self).line_count() + 58,
            final(self).scopes() == (if old(self).scopes().len() == 0 {
                old(self).scopes()
            } else {
                old(self).scopes().drop_last()
            }),
            final(self).unit() == old(self).unit(),
            final(self).call_count() == old(self).call_count(),
    {
        self.write_capture_frame();
        self.write_place_result();
        self.write_restore_frame();
        self.write_at("R15");
        self.write("A=M");
        self.write("0;JMP");
        assert(self.lines() =~= old(self).lines() + return_code());
        self.function_name.pop();
    }

    /// Opens function `func_name`: defines its entry label and pushes one
    /// zero for each of its `num_locals` locals.
    pub fn write_function(&mut self, func_name: &str, num_locals: u8)
        requires
            old(self).has_room(),
        ensures
            final(self).lines() == old(self).lines() + function_code(func_name@, num_locals as nat),
            final(self).line_count() == old(self).line_count() + 7 * num_locals,
            final(self).scopes() == old(self).scopes().push(func_name@),
            final(self).unit() == old(self).unit(),
            final(self).call_count() == old(self).call_count(),
    {
        self.function_name.push(func_name);
        let mut entry = String::from_str("(");
        entry.append(func_name);
        entry.append(")");
        self.label(entry.as_str());
        let ghost start = self.lines();
        let mut k: u8 = 0;
        while k < num_locals
            invariant
                k <= num_locals,
                start == old(self).lines() + seq!["("@ + func_name@ + ")"@],
                self.lines() == start + zero_locals(k as nat),
                self.line_count() == old(self).line_count() + 7 * k,
                old(self).line_count() + ROOM <= u64::MAX,
                self.scopes() == old(self).scopes().push(func_name@),
                self.unit() == old(self).unit(),
                self.call_count() == old(self).call_count(),
            decreases num_locals - k,
        {
            let ghost before = self.lines();
            self.write_number(0);
            self.write("D=A");
            self.write_to_stack();
            assert(self.lines() =~= before + zero_local());
            assert(zero_locals((k + 1) as nat) == zero_locals(k as nat) + zero_local());
            assert(self.lines() =~= start + zero_locals((k + 1) as nat));
            k = k + 1;
        }
        assert(self.lines() =~= old(self).lines() + function_code(func_name@, num_locals as nat));
    }

    /// Emits a comment line.
    pub fn comment(&mut self, comment: &str)
        ensures
            final(self).emitted(*old(self), seq![comment_line(comment@)], 0),
    {
        let line = concat("// ", comment);
        self.label(line.as_str());
    }

    /// Hands out the text of every line emitted since the last flush, each
    /// followed by a newline, and empties the output.
    pub fn flush(&mut self) -> (r: String)
        ensures
            r@ == joined(old(self).lines()),
            final(self).lines() == Seq::<Seq<char>>::empty(),
            final(self).line_count() == old(self).line_count(),
            final(self).unit() == old(self).unit(),
            final(self).scopes() == old(self).scopes(),
            final(self).call_count() == old(self).call_count(),
    {
        let mut r = String::new();
        let n = self.out.len();
        let mut i: usize = 0;
        while i < n
            invariant
                n == self.out@.len(),
                *self == *old(self),
                i <= n,
                r@ == joined(self.lines().take(i as int)),
            decreases n - i,
        {
            proof {
                let t = self.lines().take(i + 1);
                assert(t.drop_last() =~= self.lines().take(i as int));
            }
            r.append(self.out[i].as_str());
            r.append("\n");
            i = i + 1;
        }
        assert(self.lines().take(n as int) =~= self.lines());
        self.out = Vec::new();
        assert(self.lines() =~= Seq::<Seq<char>>::empty());
        r
    }
}

fn base_cell_name(segment: &str) -> (r: &'static str)
    requires
        scoped(segment@),
    ensures
        r@ == base_cell(segment@),
{
    if str_equal(segment, "local") {
        "LCL"
    } else if str_equal(segment, "argument") {
        "ARG"
    } else if str_equal(segment, "this") {
        "THIS"
    } else {
        "THAT"
    }
}

} // verus!
