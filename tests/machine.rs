use std::collections::HashMap;
use vm_translator::code_writer::CodeWriter;
use vm_translator::op_code::{LabelOpCode, OpCode, SegmentOpCode};
use vm_translator::parser::Parser;
use vm_translator::translator::translate_unit;

const SP: usize = 0;
const LCL: usize = 1;
const ARG: usize = 2;
const THIS: usize = 3;
const THAT: usize = 4;

enum Ins {
    At(i16),
    C { dest: String, comp: String, jump: String },
}

struct Machine {
    ram: Vec<i16>,
    rom: Vec<Ins>,
    labels: HashMap<String, usize>,
    a: i16,
    d: i16,
    pc: usize,
}

impl Machine {
    fn load(text: &str) -> Machine {
        let mut labels = HashMap::new();
        let mut count = 0usize;
        for line in text.lines() {
            let l = line.trim();
            if l.is_empty() || l.starts_with("//") {
                continue;
            }
            if l.starts_with('(') {
                labels.insert(l[1..l.len() - 1].to_string(), count);
            } else {
                count += 1;
            }
        }
        let mut symbols: HashMap<String, i16> = HashMap::new();
        for (name, v) in [("SP", 0), ("LCL", 1), ("ARG", 2), ("THIS", 3), ("THAT", 4)] {
            symbols.insert(name.to_string(), v);
        }
        for r in 0..16 {
            symbols.insert(format!("R{}", r), r);
        }
        let mut next_var = 16i16;
        let mut rom = Vec::new();
        for line in text.lines() {
            let l = line.trim();
            if l.is_empty() || l.starts_with("//") || l.starts_with('(') {
                continue;
            }
            if let Some(sym) = l.strip_prefix('@') {
                let v = if let Ok(n) = sym.parse::<i32>() {
                    n as i16
                } else if let Some(&addr) = labels.get(sym) {
                    addr as i16
                } else if let Some(&v) = symbols.get(sym) {
                    v
                } else {
                    symbols.insert(sym.to_string(), next_var);
                    next_var += 1;
                    next_var - 1
                };
                rom.push(Ins::At(v));
            } else {
                let (dest, rest) = match l.find('=') {
                    Some(i) => (l[..i].to_string(), &l[i + 1..]),
                    None => (String::new(), l),
                };
                let (comp, jump) = match rest.find(';') {
                    Some(i) => (rest[..i].to_string(), rest[i + 1..].to_string()),
                    None => (rest.to_string(), String::new()),
                };
                rom.push(Ins::C { dest, comp, jump });
            }
        }
        Machine { ram: vec![0; 32768], rom, labels, a: 0, d: 0, pc: 0 }
    }

    fn comp(&self, c: &str) -> i16 {
        let m = self.ram[self.a as u16 as usize];
        let (a, d) = (self.a, self.d);
        match c {
            "0" => 0,
            "1" => 1,
            "-1" => -1,
            "D" => d,
            "A" => a,
            "M" => m,
            "!D" => !d,
            "-D" => d.wrapping_neg(),
            "D+1" => d.wrapping_add(1),
            "M+1" => m.wrapping_add(1),
            "M-1" => m.wrapping_sub(1),
            "D+A" => d.wrapping_add(a),
            "D+M" => d.wrapping_add(m),
            "D-A" => d.wrapping_sub(a),
            "M-D" => m.wrapping_sub(d),
            "D&M" => d & m,
            "D|M" => d | m,
            other => panic!("unknown computation {}", other),
        }
    }

    fn step(&mut self) {
        match &self.rom[self.pc] {
            Ins::At(v) => {
                self.a = *v;
                self.pc += 1;
            }
            Ins::C { dest, comp, jump } => {
                let v = self.comp(comp);
                let addr = self.a as u16 as usize;
                if dest.contains('M') {
                    self.ram[addr] = v;
                }
                if dest.contains('A') {
                    self.a = v;
                }
                if dest.contains('D') {
                    self.d = v;
                }
                let taken = match jump.as_str() {
                    "" => false,
                    "JMP" => true,
                    "JEQ" => v == 0,
                    "JGT" => v > 0,
                    "JLT" => v < 0,
                    "JNE" => v != 0,
                    other => panic!("unknown jump {}", other),
                };
                self.pc = if taken { self.a as u16 as usize } else { self.pc + 1 };
            }
        }
    }

    fn run_to_end(&mut self) {
        let mut steps = 0;
        while self.pc < self.rom.len() {
            self.step();
            steps += 1;
            assert!(steps < 1_000_000, "program does not stop");
        }
    }

    fn run_until(&mut self, label: &str) {
        let target = self.labels[label];
        let mut steps = 0;
        while self.pc != target {
            self.step();
            steps += 1;
            assert!(steps < 1_000_000, "label never reached");
        }
    }

    fn stack(&self) -> Vec<i16> {
        self.ram[256..self.ram[SP] as usize].to_vec()
    }
}

fn seg(segment: &str, offset: u32) -> SegmentOpCode<'_> {
    SegmentOpCode { segment, offset }
}

/// Emits `ops` as unit `Main` and returns the whole output text.
fn emit(ops: &Vec<OpCode>) -> String {
    let mut w = CodeWriter::new(false);
    assert!(translate_unit(&mut w, "Main", ops).is_ok());
    w.flush()
}

/// A machine whose stack starts at 256 and whose segments sit apart.
fn machine(text: &str) -> Machine {
    let mut m = Machine::load(text);
    m.ram[SP] = 256;
    m.ram[LCL] = 300;
    m.ram[ARG] = 400;
    m.ram[THIS] = 3000;
    m.ram[THAT] = 3010;
    m
}

fn run_ops(ops: Vec<OpCode>) -> Machine {
    let text = emit(&ops);
    let mut m = machine(&text);
    m.run_to_end();
    m
}

fn push_const(n: u32) -> OpCode<'static> {
    OpCode::Push(seg("constant", n))
}

#[test]
fn add_leaves_the_sum() {
    let m = run_ops(vec![push_const(2), push_const(3), OpCode::Add]);
    assert_eq!(m.stack(), vec![5]);
}

#[test]
fn eq_of_equal_values_is_true() {
    let m = run_ops(vec![push_const(7), push_const(7), OpCode::Eq]);
    assert_eq!(m.stack(), vec![-1]);
}

#[test]
fn fresh_local_reads_zero() {
    let ops = vec![OpCode::Function { func_name: "Foo.bar", num_locals: 2 }, OpCode::Push(seg("local", 0))];
    let text = emit(&ops);
    let mut m = machine(&text);
    m.ram[SP] = 300;
    m.ram[300] = 99;
    m.ram[301] = 98;
    m.run_to_end();
    assert_eq!(m.ram[SP], 303);
    assert_eq!(&m.ram[300..303], &[0, 0, 0]);
}

#[test]
fn body_pushes_land_above_the_locals() {
    let ops = vec![
        OpCode::Function { func_name: "F.f", num_locals: 1 },
        push_const(5),
        OpCode::Push(seg("local", 0)),
    ];
    let text = emit(&ops);
    let mut m = machine(&text);
    m.ram[SP] = 300;
    m.ram[300] = 77;
    m.run_to_end();
    assert_eq!(&m.ram[300..303], &[0, 5, 0]);
    assert_eq!(m.ram[SP], 303);
}

#[test]
fn binary_operators_shrink_the_stack_by_one() {
    let cases: Vec<(OpCode, i16)> = vec![
        (OpCode::Add, 12),
        (OpCode::Sub, 6),
        (OpCode::And, 9 & 3),
        (OpCode::Or, 9 | 3),
        (OpCode::Eq, 0),
        (OpCode::Gt, -1),
        (OpCode::Lt, 0),
    ];
    for (op, expected) in cases {
        let m = run_ops(vec![push_const(1), push_const(9), push_const(3), op]);
        assert_eq!(m.stack(), vec![1, expected]);
    }
}

#[test]
fn comparisons_against_larger_right_operand() {
    let m = run_ops(vec![push_const(3), push_const(9), OpCode::Lt]);
    assert_eq!(m.stack(), vec![-1]);
    let m = run_ops(vec![push_const(3), push_const(9), OpCode::Gt]);
    assert_eq!(m.stack(), vec![0]);
    let m = run_ops(vec![push_const(4), push_const(9), OpCode::Eq]);
    assert_eq!(m.stack(), vec![0]);
}

#[test]
fn unary_operators_keep_the_depth() {
    let m = run_ops(vec![push_const(1), push_const(5), OpCode::Neg]);
    assert_eq!(m.stack(), vec![1, -5]);
    let m = run_ops(vec![push_const(1), push_const(0), OpCode::Not]);
    assert_eq!(m.stack(), vec![1, -1]);
}

#[test]
fn comparison_after_other_code_jumps_within_itself() {
    let m = run_ops(vec![
        push_const(1),
        push_const(2),
        OpCode::Add,
        push_const(3),
        OpCode::Eq,
        push_const(5),
        push_const(4),
        OpCode::Gt,
    ]);
    assert_eq!(m.stack(), vec![-1, -1]);
}

#[test]
fn push_then_pop_round_trips_every_segment() {
    for (segment, offset, cell) in [
        ("local", 2u32, 302usize),
        ("argument", 1, 401),
        ("this", 4, 3004),
        ("that", 0, 3010),
        ("temp", 6, 11),
        ("pointer", 0, 3),
        ("pointer", 1, 4),
    ] {
        let ops = vec![push_const(8), OpCode::Push(seg(segment, offset)), OpCode::Pop(seg(segment, offset))];
        let text = emit(&ops);
        let mut m = machine(&text);
        let before = m.ram[cell];
        m.run_to_end();
        assert_eq!(m.ram[cell], before, "{} {}", segment, offset);
        assert_eq!(m.stack(), vec![8], "{} {}", segment, offset);
    }
}

#[test]
fn pop_then_push_moves_the_value() {
    let ops = vec![
        push_const(21),
        OpCode::Pop(seg("static", 3)),
        OpCode::Push(seg("static", 3)),
        push_const(22),
        OpCode::Pop(seg("temp", 2)),
        OpCode::Push(seg("temp", 2)),
    ];
    let m = run_ops(ops);
    assert_eq!(m.stack(), vec![21, 22]);
    assert_eq!(m.ram[7], 22);
}

#[test]
fn statics_of_two_units_are_different_cells() {
    let a = vec![push_const(11), OpCode::Pop(seg("static", 0))];
    let b = vec![push_const(22), OpCode::Pop(seg("static", 0))];
    let read = vec![OpCode::Push(seg("static", 0))];
    let mut w = CodeWriter::new(false);
    assert!(translate_unit(&mut w, "A", &a).is_ok());
    assert!(translate_unit(&mut w, "B", &b).is_ok());
    assert!(translate_unit(&mut w, "A", &read).is_ok());
    let text = w.flush();
    assert!(text.contains("\t@A.0\n"));
    assert!(text.contains("\t@B.0\n"));
    let mut m = machine(&text);
    m.run_to_end();
    assert_eq!(m.stack(), vec![11]);
}

#[test]
fn every_local_starts_at_zero() {
    for k in [0u8, 1, 3, 7] {
        let ops = vec![OpCode::Function { func_name: "F.f", num_locals: k }];
        let text = emit(&ops);
        let mut m = machine(&text);
        m.ram[SP] = 300;
        for i in 0..8 {
            m.ram[300 + i] = 50 + i as i16;
        }
        m.run_to_end();
        assert_eq!(m.ram[SP], 300 + k as i16);
        for i in 0..8usize {
            let expected = if i < k as usize { 0 } else { 50 + i as i16 };
            assert_eq!(m.ram[300 + i], expected);
        }
    }
}

#[test]
fn call_and_return_restore_the_caller() {
    let source = "function Sys.init 0
push constant 10
push constant 20
push constant 30
call F.sum 2
label STOP
goto STOP
function F.sum 1
push argument 0
push argument 1
add
pop local 0
push local 0
push constant 100
add
return
";
    let parser = Parser::new(source.to_string());
    let ops = parser.parse().ok().unwrap();
    let mut w = CodeWriter::new(false);
    assert!(translate_unit(&mut w, "Sys", &ops).is_ok());
    let text = w.flush();
    let mut m = machine(&text);
    for t in 5..13 {
        m.ram[t] = 40 + t as i16;
    }
    m.pc = m.labels["Sys.init"];
    m.run_until("Sys.init$STOP");
    for t in 5..13 {
        assert_eq!(m.ram[t], 40 + t as i16);
    }
    assert_eq!((m.ram[LCL], m.ram[ARG], m.ram[THIS], m.ram[THAT]), (300, 400, 3000, 3010));
    assert_eq!(m.stack(), vec![10, 150]);
}

#[test]
fn labels_stay_within_their_function() {
    let source = "function A.f 0
push constant 1
goto END
push constant 2
label END
push constant 3
return
function B.g 0
goto END
push constant 4
label END
push constant 5
return
";
    let parser = Parser::new(source.to_string());
    let ops = parser.parse().ok().unwrap();
    let text = emit(&ops);
    assert!(text.contains("(A.f$END)\n"));
    assert!(text.contains("(B.g$END)\n"));
    assert!(text.contains("\t@A.f$END\n"));
    assert!(text.contains("\t@B.g$END\n"));
    let mut m = machine(&text);
    m.ram[LCL] = 260;
    m.ram[ARG] = 256;
    m.pc = m.labels["B.g"];
    m.run_until("B.g$END");
    assert_eq!(m.stack(), Vec::<i16>::new());
    let mut m = machine(&text);
    m.pc = m.labels["A.f"];
    m.run_until("A.f$END");
    assert_eq!(m.stack(), vec![1]);
}

#[test]
fn if_goto_jumps_on_non_zero_only() {
    let ops = vec![
        OpCode::Function { func_name: "T.t", num_locals: 0 },
        push_const(0),
        OpCode::If(LabelOpCode { label: "SKIP" }),
        push_const(1),
        push_const(5),
        OpCode::If(LabelOpCode { label: "SKIP" }),
        push_const(2),
        OpCode::Label(LabelOpCode { label: "SKIP" }),
        push_const(3),
    ];
    let m = run_ops(ops);
    assert_eq!(m.stack(), vec![1, 3]);
}

#[test]
fn bootstrap_sets_the_stack_and_calls_sys_init() {
    let mut w = CodeWriter::new(true);
    let ops = vec![
        OpCode::Function { func_name: "Sys.init", num_locals: 0 },
        push_const(4),
        OpCode::Pop(seg("temp", 0)),
        OpCode::Label(LabelOpCode { label: "HALT" }),
        OpCode::Goto(LabelOpCode { label: "HALT" }),
    ];
    assert!(translate_unit(&mut w, "Sys", &ops).is_ok());
    let text = w.flush();
    let mut m = Machine::load(&text);
    m.run_until("Sys.init$HALT");
    assert_eq!(m.ram[5], 4);
    assert_eq!(m.ram[SP], 261);
    assert_eq!(m.ram[LCL], 261);
    assert_eq!(m.ram[ARG], 256);
}
