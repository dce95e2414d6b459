use vm_translator::code_writer::CodeWriter;
use vm_translator::op_code::{LabelOpCode, OpCode, SegmentOpCode};
use vm_translator::parser::{ParseError, Parser};
use vm_translator::text::{push_decimal, str_equal};
use vm_translator::translator::{is_well_formed, translate_op, translate_unit, TranslateError, Translator};

fn seg(segment: &str, offset: u32) -> SegmentOpCode<'_> {
    SegmentOpCode { segment, offset }
}

fn lines(text: &str) -> Vec<&str> {
    text.lines().collect()
}

#[test]
fn push_constant_listing_is_exact() {
    let mut w = CodeWriter::new(false);
    translate_op(&mut w, &OpCode::Push(seg("constant", 7)));
    assert_eq!(
        w.flush(),
        "// push constant 7\n\t@7\n\tD=A\n\t@SP\n\tA=M\n\tM=D\n\t@SP\n\tM=M+1\n"
    );
}

#[test]
fn comparison_targets_follow_the_line_count() {
    let mut w = CodeWriter::new(false);
    w.write_arithmetic(&OpCode::Eq);
    let first = w.flush();
    let l = lines(&first);
    assert_eq!(l[8], "\t@13");
    assert_eq!(l[9], "\tD;JEQ");
    assert_eq!(l[11], "\t@14");
    assert_eq!(l[13], "\tD=-1");
    w.write_arithmetic(&OpCode::Lt);
    let second = w.flush();
    let l = lines(&second);
    assert_eq!(l[8], "\t@32");
    assert_eq!(l[9], "\tD;JLT");
    assert_eq!(l[11], "\t@33");
}

#[test]
fn segment_addresses() {
    let mut w = CodeWriter::new(false);
    w.set_current_filename("Foo");
    w.write_push(&seg("temp", 6));
    w.write_push(&seg("pointer", 1));
    w.write_pop(&seg("static", 3));
    w.write_push(&seg("that", 2));
    let text = w.flush();
    let l = lines(&text);
    assert_eq!(l[0], "\t@11");
    assert_eq!(l[7], "\t@4");
    assert_eq!(l[14], "\t@Foo.3");
    assert_eq!(&l[25..30], &["\t@THAT", "\tD=M", "\t@2", "\tA=D+A", "\tD=M"]);
}

#[test]
fn pop_listing_goes_through_r13() {
    let mut w = CodeWriter::new(false);
    w.write_pop(&seg("local", 4));
    assert_eq!(
        lines(&w.flush()),
        vec![
            "\t@LCL", "\tD=M", "\t@4", "\tD=D+A", "\t@R13", "\tM=D", "\t@SP", "\tAM=M-1", "\tD=M",
            "\tM=0", "\t@R13", "\tA=M", "\tM=D"
        ]
    );
}

#[test]
fn call_sites_get_numbered_return_labels() {
    let mut w = CodeWriter::new(false);
    w.write_function("Main.main", 0);
    w.write_call("Math.max", 2);
    w.write_call("Math.max", 2);
    let text = w.flush();
    assert!(text.contains("\t@Main.main$$ret.0\n"));
    assert!(text.contains("(Main.main$$ret.0)\n"));
    assert!(text.contains("(Main.main$$ret.1)\n"));
    assert!(text.contains("\t@Math.max\n\t0;JMP\n"));
    assert_eq!(text.matches("\t@2\n").count(), 2);
}

#[test]
fn labels_outside_functions_belong_to_sys() {
    let mut w = CodeWriter::new(false);
    w.write_label("LOOP");
    w.write_goto(&LabelOpCode { label: "LOOP" });
    w.write_if(&LabelOpCode { label: "LOOP" });
    let text = w.flush();
    assert_eq!(
        lines(&text),
        vec![
            "(Sys$LOOP)", "\t@Sys$LOOP", "\t0;JMP", "\t@SP", "\tAM=M-1", "\tD=M", "\tM=0",
            "\t@Sys$LOOP", "\tD;JNE"
        ]
    );
}

#[test]
fn return_closes_the_label_scope() {
    let mut w = CodeWriter::new(false);
    w.write_function("A.f", 0);
    w.write_function("B.g", 0);
    w.write_label("X");
    w.write_return();
    w.write_label("X");
    w.write_return();
    w.write_label("X");
    let text = w.flush();
    let labels: Vec<&str> = lines(&text).into_iter().filter(|l| l.starts_with('(')).collect();
    assert_eq!(labels, vec!["(A.f)", "(B.g)", "(B.g$X)", "(A.f$X)", "(Sys$X)"]);
}

#[test]
fn return_listing_is_exact() {
    let mut w = CodeWriter::new(false);
    w.write_return();
    let text = w.flush();
    let l = lines(&text);
    assert_eq!(l.len(), 58);
    assert_eq!(&l[0..4], &["\t@LCL", "\tD=M", "\t@R14", "\tM=D"]);
    assert_eq!(&l[6..8], &["\t@5", "\tD=D-A"]);
    assert_eq!(&l[23..31], &["\t@R14", "\tD=M", "\t@1", "\tD=D-A", "\tA=D", "\tD=M", "\t@THAT", "\tM=D"]);
    assert_eq!(&l[10..12], &["\t@R15", "\tM=D"]);
    assert_eq!(&l[55..58], &["\t@R15", "\tA=M", "\t0;JMP"]);
}

#[test]
fn function_listing_pushes_each_local() {
    let mut w = CodeWriter::new(false);
    w.write_function("Foo.bar", 2);
    let text = w.flush();
    let l = lines(&text);
    assert_eq!(l.len(), 15);
    assert_eq!(l[0], "(Foo.bar)");
    let push_zero = ["\t@0", "\tD=A", "\t@SP", "\tA=M", "\tM=D", "\t@SP", "\tM=M+1"];
    assert_eq!(&l[1..8], &push_zero);
    assert_eq!(&l[8..15], &push_zero);
}

#[test]
fn bootstrap_starts_the_output() {
    let mut w = CodeWriter::new(true);
    let text = w.flush();
    let l = lines(&text);
    assert_eq!(&l[0..5], &["\t@256", "\tD=A", "\t@SP", "\tM=D", "\t@Sys$$ret.0"]);
    assert_eq!(l[l.len() - 3], "\t@Sys.init");
    assert_eq!(l[l.len() - 1], "(Sys$$ret.0)");
    assert_eq!(l.len(), 54);
}

#[test]
fn flush_empties_the_output() {
    let mut w = CodeWriter::new(false);
    w.comment("hello");
    assert_eq!(w.flush(), "// hello\n");
    assert_eq!(w.flush(), "");
}

#[test]
fn instructions_render_as_source() {
    let cases: Vec<(OpCode, &str)> = vec![
        (OpCode::Add, "add"),
        (OpCode::Sub, "sub"),
        (OpCode::Neg, "neg"),
        (OpCode::Eq, "eq"),
        (OpCode::Gt, "gt"),
        (OpCode::Lt, "lt"),
        (OpCode::And, "and"),
        (OpCode::Or, "or"),
        (OpCode::Not, "not"),
        (OpCode::Push(seg("constant", 7)), "push constant 7"),
        (OpCode::Pop(seg("local", 120)), "pop local 120"),
        (OpCode::Label(LabelOpCode { label: "L1" }), "label L1"),
        (OpCode::Goto(LabelOpCode { label: "L2" }), "goto L2"),
        (OpCode::If(LabelOpCode { label: "L3" }), "if-goto L3"),
        (OpCode::Call { func_name: "Foo.bar", num_args: 2 }, "call Foo.bar 2"),
        (OpCode::Function { func_name: "Foo.bar", num_locals: 255 }, "function Foo.bar 255"),
        (OpCode::Return, "return"),
    ];
    for (op, text) in cases {
        assert_eq!(op.to_text(), text);
    }
}

#[test]
fn scoped_segments() {
    for s in ["local", "argument", "this", "that"] {
        assert!(seg(s, 0).is_scoped_segment());
    }
    for s in ["pointer", "static", "temp", "constant", "locals", ""] {
        assert!(!seg(s, 0).is_scoped_segment());
    }
}

#[test]
fn malformed_instructions_are_refused_before_emitting() {
    assert!(!is_well_formed(&OpCode::Pop(seg("constant", 1))));
    assert!(!is_well_formed(&OpCode::Push(seg("heap", 1))));
    assert!(!is_well_formed(&OpCode::Push(seg("pointer", 2))));
    assert!(!is_well_formed(&OpCode::Pop(seg("temp", 8))));
    assert!(is_well_formed(&OpCode::Pop(seg("temp", 7))));
    assert!(is_well_formed(&OpCode::Push(seg("pointer", 1))));
    assert!(is_well_formed(&OpCode::Push(seg("constant", 1))));
    let mut w = CodeWriter::new(false);
    let ops = vec![OpCode::Push(seg("constant", 1)), OpCode::Pop(seg("constant", 1)), OpCode::Push(seg("heap", 0))];
    match translate_unit(&mut w, "Main", &ops) {
        Err(TranslateError::Malformed(i)) => assert_eq!(i, 1),
        _ => panic!("expected a malformed instruction"),
    }
    assert_eq!(w.flush(), "");
}

#[test]
fn parse_reads_every_form() {
    let source = "// a comment line\n\
                  \n\
                  push constant 17   // trailing\n\
                  pop local 2\n\
                  \tlabel LOOP START\r\n\
                  goto LOOP\n\
                  if-goto END\n\
                  call Foo.bar 3\n\
                  function Foo.bar +4\n\
                  add\nsub\nneg\neq\ngt\nlt\nand\nor\nnot\nreturn";
    let parser = Parser::new(source.to_string());
    let ops = match parser.parse() {
        Ok(ops) => ops,
        Err(_) => panic!("source should parse"),
    };
    let texts: Vec<String> = ops.iter().map(|o| o.to_text()).collect();
    assert_eq!(
        texts,
        vec![
            "push constant 17", "pop local 2", "label LOOP START", "goto LOOP", "if-goto END",
            "call Foo.bar 3", "function Foo.bar 4", "add", "sub", "neg", "eq", "gt", "lt", "and",
            "or", "not", "return"
        ]
    );
    match &ops[1] {
        OpCode::Pop(s) => {
            assert_eq!(s.segment, "local");
            assert_eq!(s.offset, 2);
        }
        _ => panic!("expected a pop"),
    }
}

fn parse_error(source: &str) -> Option<String> {
    let parser = Parser::new(source.to_string());
    match parser.parse() {
        Ok(_) => None,
        Err(ParseError::Invalid(t)) => Some(t),
    }
}

#[test]
fn parse_names_the_first_malformed_instruction() {
    assert_eq!(parse_error("add\nfoo\nbar"), Some("foo".to_string()));
    assert_eq!(parse_error("push constant"), Some("push constant".to_string()));
    assert_eq!(parse_error("push constant x1"), Some("push constant x1".to_string()));
    assert_eq!(parse_error("push constant 4294967296"), Some("push constant 4294967296".to_string()));
    assert_eq!(parse_error("call f 256 // too many"), Some("call f 256".to_string()));
    assert_eq!(parse_error("goto"), Some("goto".to_string()));
    assert_eq!(parse_error("add // é\nnég"), Some("nég".to_string()));
    assert_eq!(parse_error("push constant 4294967295\ncall f 255\n\n"), None);
    assert_eq!(parse_error(""), None);
}

#[test]
fn sources_outside_ascii_parse() {
    let source = "// Übersicht: café\npush constant 7 // é\r\nlabel ÉTÉ\ngoto ÉTÉ\n";
    let parser = Parser::new(source.to_string());
    let ops = match parser.parse() {
        Ok(ops) => ops,
        Err(_) => panic!("source should parse"),
    };
    let texts: Vec<String> = ops.iter().map(|o| o.to_text()).collect();
    assert_eq!(texts, vec!["push constant 7", "label ÉTÉ", "goto ÉTÉ"]);
    let mut w = CodeWriter::new(false);
    assert!(translate_unit(&mut w, "Main", &ops).is_ok());
    let text = w.flush();
    assert!(text.contains("(Sys$ÉTÉ)\n"));
    assert!(text.contains("// push constant 7\n\t@7\n"));
}

#[test]
fn fields_are_split_at_single_spaces() {
    assert_eq!(parse_error("pop  local 2"), Some("pop  local 2".to_string()));
    let parser = Parser::new("push heap 2".to_string());
    let ops = parser.parse().ok().unwrap();
    assert!(!is_well_formed(&ops[0]));
}

#[test]
fn decimal_and_string_helpers() {
    let mut s = String::from("@");
    push_decimal(&mut s, 0);
    push_decimal(&mut s, 1234567890);
    assert_eq!(s, "@01234567890");
    assert!(str_equal("local", "local"));
    assert!(!str_equal("local", "locaL"));
    assert!(!str_equal("local", "loca"));
}

#[test]
fn translator_keeps_its_options() {
    let t = Translator::new("in".to_string(), "out.asm".to_string(), true);
    assert_eq!(t.input_filepath, "in");
    assert_eq!(t.output_filepath, "out.asm");
    assert!(t.bootstrap);
}

#[test]
fn qualified_labels_do_not_run_together() {
    let mut w = CodeWriter::new(false);
    w.write_function("A", 0);
    w.write_label("B__C");
    w.write_return();
    w.write_function("A__B", 0);
    w.write_label("C");
    let text = w.flush();
    assert!(text.contains("(A$B__C)\n"));
    assert!(text.contains("(A__B$C)\n"));
}
