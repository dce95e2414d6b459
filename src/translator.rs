//! Feeding instructions to an engine, one unit at a time.
use crate::code_writer::{room, CodeWriter, EngineState};
use crate::listing::{
    arithmetic_code, call_code, comment_line, current_scope, function_code, goto_code, if_code,
    label_line, pop_code, push_code, return_code,
};
use crate::op_code::{in_window, known_segment, op_text, OpCode, SegmentOpCode};
use crate::text::str_equal;
use vstd::prelude::*;

verus! {

/// Whether the engine accepts `op`: segments are known, `temp` and
/// `pointer` offsets lie in their windows, and `constant` is never popped.
pub open spec fn well_formed(op: OpCode) -> bool {
    match op {
        OpCode::Push(s) => known_segment(s.segment@) && in_window(s.segment@, s.offset as nat),
        OpCode::Pop(s) => known_segment(s.segment@) && in_window(s.segment@, s.offset as nat)
            && s.segment@ != "constant"@,
        _ => true,
    }
}

/// The listing an engine in state `s` emits for `op`.
pub open spec fn op_listing(op: OpCode, s: EngineState) -> Seq<Seq<char>> {
    let scope = current_scope(s.scopes);
    match op {
        OpCode::Push(p) => push_code(p.segment@, p.offset as nat, s.unit),
        OpCode::Pop(p) => pop_code(p.segment@, p.offset as nat, s.unit),
        OpCode::Label(l) => seq![label_line(scope, l.label@)],
        OpCode::Goto(l) => goto_code(scope, l.label@),
        OpCode::If(l) => if_code(scope, l.label@),
        OpCode::Call { func_name, num_args } => call_code(
            scope,
            func_name@,
            num_args as nat,
            s.call_count,
        ),
        OpCode::Function { func_name, num_locals } => function_code(
            func_name@,
            num_locals as nat,
        ),
        OpCode::Return => return_code(),
        _ => arithmetic_code(op, s.line_count),
    }
}

/// How many instruction lines the listing of `op` holds.
pub open spec fn op_instructions(op: OpCode, s: EngineState) -> nat {
    match op {
        OpCode::Label(_) => 0,
        OpCode::Goto(_) => 2,
        OpCode::If(_) => 6,
        OpCode::Call { .. } => 49,
        OpCode::Function { num_locals, .. } => 7 * num_locals as nat,
        OpCode::Return => 58,
        _ => op_listing(op, s).len(),
    }
}

/// The engine state after `op`, echoed as a comment and then translated.
pub open spec fn step(s: EngineState, op: OpCode) -> EngineState {
    EngineState {
        lines: s.lines + seq![comment_line(op_text(op))] + op_listing(op, s),
        line_count: s.line_count + op_instructions(op, s),
        unit: s.unit,
        scopes: match op {
            OpCode::Function { func_name, .. } => s.scopes.push(func_name@),
            OpCode::Return => if s.scopes.len() == 0 {
                s.scopes
            } else {
                s.scopes.drop_last()
            },
            _ => s.scopes,
        },
        call_count: match op {
            OpCode::Call { .. } => s.call_count + 1,
            _ => s.call_count,
        },
    }
}

/// The engine state after `ops`, in order.
pub open spec fn run(s: EngineState, ops: Seq<OpCode>) -> EngineState
    decreases ops.len(),
{
    if ops.len() == 0 {
        s
    } else {
        run(step(s, ops[0]), ops.drop_first())
    }
}

/// `s` with static variables qualified by `unit`.
pub open spec fn with_unit(s: EngineState, unit: Seq<char>) -> EngineState {
    EngineState { unit, ..s }
}

/// Whether the counters have room before each of `ops`.
pub open spec fn fits(s: EngineState, ops: Seq<OpCode>) -> bool
    decreases ops.len(),
{
    ops.len() == 0 || (room(s) && fits(step(s, ops[0]), ops.drop_first()))
}

/// Echoes `op_code` as a comment and emits its listing.
pub fn translate_op(code_writer: &mut CodeWriter, op_code: &OpCode)
    requires
        old(code_writer).has_room(),
        well_formed(*op_code),
    ensures
        final(code_writer).state() == step(old(code_writer).state(), *op_code),
{
    let text = op_code.to_text();
    code_writer.comment(text.as_str());
    let ghost s = old(code_writer).state();
    match op_code {
        OpCode::Push(p) => code_writer.write_push(p),
        OpCode::Pop(p) => code_writer.write_pop(p),
        OpCode::Label(l) => code_writer.write_label(l.label),
        OpCode::Goto(l) => code_writer.write_goto(l),
        OpCode::If(l) => code_writer.write_if(l),
        OpCode::Call { func_name, num_args } => code_writer.write_call(func_name, *num_args),
        OpCode::Function { func_name, num_locals } => code_writer.write_function(
            func_name,
            *num_locals,
        ),
        OpCode::Return => code_writer.write_return(),
        _ => code_writer.write_arithmetic(op_code),
    }
    assert(code_writer.lines() =~= step(s, *op_code).lines);
}

fn is_known_segment(segment: &str) -> (r: bool)
    ensures
        r == known_segment(segment@),
{
    str_equal(segment, "local") || str_equal(segment, "argument") || str_equal(segment, "this")
        || str_equal(segment, "that") || str_equal(segment, "pointer") || str_equal(
        segment,
        "static",
    ) || str_equal(segment, "temp") || str_equal(segment, "constant")
}

fn is_in_window(s: &SegmentOpCode) -> (r: bool)
    ensures
        r == in_window(s.segment@, s.offset as nat),
{
    (!str_equal(s.segment, "temp") || s.offset < 8) && (!str_equal(s.segment, "pointer")
        || s.offset < 2)
}

/// Whether the engine accepts `op_code`.
pub fn is_well_formed(op_code: &OpCode) -> (r: bool)
    ensures
        r == well_formed(*op_code),
{
    match op_code {
        OpCode::Push(s) => is_known_segment(s.segment) && is_in_window(s),
        OpCode::Pop(s) => is_known_segment(s.segment) && is_in_window(s) && !str_equal(
            s.segment,
            "constant",
        ),
        _ => true,
    }
}

/// Why a unit could not be translated.
pub enum TranslateError {
    /// The instruction at this index names an unknown segment, addresses
    /// `temp` or `pointer` outside its window, or pops `constant`; nothing
    /// was emitted.
    Malformed(usize),
    /// The engine's counters ran out of room.
    Full,
}

/// Translates `op_codes` as unit `unit`. Fails, emitting nothing, when an
/// instruction is malformed (naming the first); otherwise succeeds exactly
/// when the counters have room for every instruction, and the engine then
/// holds their listings.
pub fn translate_unit(code_writer: &mut CodeWriter, unit: &str, op_codes: &Vec<OpCode>) -> (r:
    Result<(), TranslateError>)
    ensures
        r matches Err(TranslateError::Malformed(i)) ==> i < op_codes@.len() && !well_formed(
            op_codes@[i as int],
        ) && (forall|j: int| 0 <= j < i ==> well_formed(#[trigger] op_codes@[j]))
            && *final(code_writer) == *old(code_writer),
        (forall|j: int| 0 <= j < op_codes@.len() ==> well_formed(#[trigger] op_codes@[j])) ==> (
        r is Ok <==> fits(with_unit(old(code_writer).state(), unit@), op_codes@)),
        (forall|j: int| 0 <= j < op_codes@.len() ==> well_formed(#[trigger] op_codes@[j]))
            <==> !(r matches Err(TranslateError::Malformed(_))),
        r is Ok ==> final(code_writer).state() == run(
            with_unit(old(code_writer).state(), unit@),
            op_codes@,
        ),
{
    let n = op_codes.len();
    let mut i: usize = 0;
    while i < n
        invariant
            n == op_codes@.len(),
            i <= n,
            forall|j: int| 0 <= j < i ==> well_formed(#[trigger] op_codes@[j]),
        decreases n - i,
    {
        if !is_well_formed(&op_codes[i]) {
            return Err(TranslateError::Malformed(i));
        }
        i = i + 1;
    }
    code_writer.set_current_filename(unit);
    let ghost start = code_writer.state();
    assert(start == with_unit(old(code_writer).state(), unit@));
    let mut i: usize = 0;
    assert(op_codes@.skip(0) =~= op_codes@);
    while i < n
        invariant
            n == op_codes@.len(),
            i <= n,
            start == with_unit(old(code_writer).state(), unit@),
            forall|j: int| 0 <= j < op_codes@.len() ==> well_formed(#[trigger] op_codes@[j]),
            run(code_writer.state(), op_codes@.skip(i as int)) == run(start, op_codes@),
            fits(code_writer.state(), op_codes@.skip(i as int)) == fits(start, op_codes@),
        decreases n - i,
    {
        let ghost rest = op_codes@.skip(i as int);
        assert(rest.drop_first() =~= op_codes@.skip(i + 1));
        assert(rest[0] == op_codes@[i as int]);
        if !code_writer.has_enough_room() {
            assert(rest.len() > 0);
            assert(!fits(code_writer.state(), rest));
            return Err(TranslateError::Full);
        }
        translate_op(code_writer, &op_codes[i]);
        i = i + 1;
    }
    assert(op_codes@.skip(n as int) =~= Seq::<OpCode>::empty());
    Ok(())
}

/// The paths and options of one translation run.
pub struct Translator {
    pub input_filepath: String,
    pub output_filepath: String,
    pub bootstrap: bool,
}

impl Translator {
    pub fn new(input_filepath: String, output_filepath: String, bootstrap: bool) -> (r: Self)
        ensures
            r.input_filepath == input_filepath,
            r.output_filepath == output_filepath,
            r.bootstrap == bootstrap,
    {
        Translator { input_filepath, output_filepath, bootstrap }
    }
}

} // verus!
