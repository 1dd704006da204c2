use light_assembler::{
    compile_code_to_bytes, CommandRule, CompileError, Engine, Line, Operand, OperationError,
    ParameterError,
};

fn rule(opcode: &[u8], min: usize, max: usize) -> CommandRule {
    CommandRule { opcode: opcode.to_vec(), operand: Operand::Plain, min_params: min, max_params: max }
}

fn bytes_of(src: &str) -> Vec<u8> {
    compile_code_to_bytes(src).unwrap().0
}

fn operation_error(src: &str) -> (String, usize, usize, OperationError) {
    match compile_code_to_bytes(src) {
        Err(CompileError::Operation(p, name, e)) => (name, p.line, p.column, e),
        other => panic!("unexpected {:?}", other),
    }
}

fn engine() -> Engine {
    let mut e = Engine::new(vec![]);
    e.add_command("NOP", rule(&[0x00], 0, 0));
    e.add_command("ADD", rule(&[0xA0], 0, 0));
    e.add_command("PUSHINT", rule(&[0x7F], 1, 1));
    e.add_command("IF", rule(&[0xDE], 1, 1));
    e.add_command("IFREFELSEREF", rule(&[0xE3, 0x0F], 2, 2));
    e.add_command("xchg", rule(&[0x10], 2, 2));
    e.add_command("OPT", rule(&[0x01], 0, 1));
    e
}

fn lines(src: &[&str]) -> Vec<Line> {
    src.iter().enumerate().map(|(i, t)| Line::new(t, "test.code", i + 1)).collect()
}

#[test]
fn simple_commands_compile_to_their_opcodes() {
    let mut e = engine();
    let unit = e.build(None, lines(&["NOP\n", "add ; comment\n", "PUSHINT 5\n"])).unwrap();
    assert_eq!(unit.builder, vec![0x00, 0xA0, 0x7F]);
    let offsets: Vec<(usize, usize)> = unit.dbg.offsets.iter().map(|(k, p)| (*k, p.line)).collect();
    assert_eq!(offsets, vec![(0, 1), (8, 2), (16, 3)]);
    assert_eq!(unit.dbg.offsets[&8].filename, "test.code");
}

#[test]
fn empty_source_gives_empty_unit() {
    let mut e = engine();
    let unit = e.build(None, lines(&["  ; nothing here\n", "\t\n"])).unwrap();
    assert!(unit.builder.is_empty());
    assert!(unit.dbg.offsets.is_empty());
}

#[test]
fn unknown_word_is_reported() {
    let mut e = engine();
    match e.build(None, lines(&["FOO\n"])) {
        Err(CompileError::UnknownOperation(p, name)) => {
            assert_eq!(name, "FOO");
            assert_eq!(p.line, 1);
            assert_eq!(p.column, 1);
            assert_eq!(p.filename, "test.code");
        }
        other => panic!("unexpected {:?}", other),
    }
}

#[test]
fn missing_parameter_is_reported() {
    let mut e = engine();
    match e.build(None, lines(&["PUSHINT\n", "NOP\n"])) {
        Err(CompileError::Operation(p, name, OperationError::MissingRequiredParameters)) => {
            assert_eq!(name, "PUSHINT");
            assert_eq!(p.line, 1);
        }
        other => panic!("unexpected {:?}", other),
    }
}

#[test]
fn extra_parameter_is_reported() {
    let mut e = engine();
    match e.build(None, lines(&["NOP 5\n"])) {
        Err(CompileError::Operation(p, name, OperationError::TooManyParameters)) => {
            assert_eq!(name, "NOP");
            assert_eq!(p.column, 5);
        }
        other => panic!("unexpected {:?}", other),
    }
}

#[test]
fn extra_parameter_after_comma_is_too_many() {
    let mut e = engine();
    match e.build(None, lines(&["PUSHINT 1, 2\n"])) {
        Err(CompileError::Operation(p, name, OperationError::TooManyParameters)) => {
            assert_eq!(name, "PUSHINT");
            assert_eq!(p.column, 12);
        }
        other => panic!("unexpected {:?}", other),
    }
}

#[test]
fn extra_word_without_comma_is_unknown() {
    let mut e = engine();
    match e.build(None, lines(&["PUSHINT 1 2\n"])) {
        Err(CompileError::UnknownOperation(p, name)) => {
            assert_eq!(name, "2");
            assert_eq!(p.column, 11);
        }
        other => panic!("unexpected {:?}", other),
    }
}

#[test]
fn bad_character_is_reported() {
    let mut e = engine();
    match e.build(None, lines(&["NOP #\n"])) {
        Err(CompileError::Syntax(p, text)) => {
            assert_eq!(text, "Bad char");
            assert_eq!(p.column, 5);
        }
        other => panic!("unexpected {:?}", other),
    }
}

#[test]
fn named_unit_is_kept() {
    let mut e = engine();
    let unit = e.build(Some("main".to_string()), lines(&["ADD\n"])).unwrap();
    let kept = e.unit("main").unwrap();
    assert_eq!(kept.builder, unit.builder);
    assert!(e.unit("other").is_none());
}

#[test]
fn two_parameters_need_a_comma() {
    let mut e = engine();
    match e.build(None, lines(&["XCHG s1 s2\n"])) {
        Err(CompileError::Syntax(p, text)) => {
            assert_eq!(text, "Missing comma");
            assert_eq!((p.line, p.column), (1, 9));
        }
        other => panic!("unexpected {:?}", other),
    }
    let unit = e.build(None, lines(&["XCHG s1, s2\n"])).unwrap();
    assert_eq!(unit.builder, vec![0x10]);
}

#[test]
fn two_blocks_need_no_comma() {
    let mut e = engine();
    let unit = e.build(None, lines(&["IFREFELSEREF {\n", "NOP\n", "} {ADD}\n"])).unwrap();
    assert_eq!(unit.builder, vec![0xE3, 0x0F]);
    assert_eq!(unit.dbg.offsets.len(), 1);
    assert_eq!(unit.dbg.offsets[&0].line, 1);
}

#[test]
fn block_is_one_parameter() {
    let mut e = engine();
    let unit = e.build(None, lines(&["IF {\n", "  NOP\n", "}\n", "ADD\n"])).unwrap();
    assert_eq!(unit.builder, vec![0xDE, 0xA0]);
    let offsets: Vec<(usize, usize)> = unit.dbg.offsets.iter().map(|(k, p)| (*k, p.line)).collect();
    assert_eq!(offsets, vec![(0, 1), (8, 4)]);
}

#[test]
fn block_without_command_is_refused() {
    let mut e = engine();
    match e.build(None, lines(&["{ NOP }\n"])) {
        Err(CompileError::Syntax(p, text)) => {
            assert_eq!(text, "{");
            assert_eq!((p.line, p.column), (1, 1));
        }
        other => panic!("unexpected {:?}", other),
    }
}

#[test]
fn closing_brace_alone_is_refused() {
    let mut e = engine();
    match e.build(None, lines(&["NOP }\n"])) {
        Err(CompileError::Syntax(p, text)) => {
            assert_eq!(text, "}");
            assert_eq!(p.column, 5);
        }
        other => panic!("unexpected {:?}", other),
    }
}

#[test]
fn unclosed_block_is_reported() {
    let mut e = engine();
    match e.build(None, lines(&["OPT { NOP"])) {
        Err(CompileError::Syntax(p, text)) => {
            assert_eq!(text, "Missing }");
            assert_eq!((p.filename.as_str(), p.line, p.column), ("test.code", 1, 0));
        }
        other => panic!("unexpected {:?}", other),
    }
}

#[test]
fn leading_comma_is_refused() {
    let mut e = engine();
    match e.build(None, lines(&[", NOP\n"])) {
        Err(CompileError::Syntax(p, text)) => {
            assert_eq!(text, ",");
            assert_eq!(p.column, 1);
        }
        other => panic!("unexpected {:?}", other),
    }
}

#[test]
fn command_names_ignore_case() {
    let mut e = engine();
    let a = e.build(None, lines(&["pushint 7\n", "Xchg s0, s1\n"])).unwrap();
    let b = e.build(None, lines(&["PUSHINT 7\n", "XCHG s0, s1\n"])).unwrap();
    assert_eq!(a.builder, b.builder);
    assert_eq!(a.builder, vec![0x7F, 0x10]);
}

#[test]
fn command_word_on_same_line_becomes_parameter() {
    let mut e = engine();
    let unit = e.build(None, lines(&["PUSHINT ADD NOP"])).unwrap();
    assert_eq!(unit.builder, vec![0x7F, 0x00]);
    assert_eq!(unit.dbg.offsets[&0].line, 1);
    assert_eq!(unit.dbg.offsets[&0].filename, "test.code");
    assert_eq!(unit.dbg.offsets[&8].line, 0);
    assert_eq!(unit.dbg.offsets[&8].filename, "");
    match e.build(None, lines(&["PUSHINT ADD\n"])) {
        Err(CompileError::Operation(p, name, OperationError::MissingRequiredParameters)) => {
            assert_eq!(name, "PUSHINT");
            assert_eq!((p.line, p.column), (1, 1));
        }
        other => panic!("unexpected {:?}", other),
    }
}

#[test]
fn position_after_absorbed_command_word_restarts() {
    let mut e = engine();
    match e.build(None, lines(&["PUSHINT ADD FOO\n"])) {
        Err(CompileError::UnknownOperation(p, name)) => {
            assert_eq!(name, "FOO");
            assert_eq!((p.filename.as_str(), p.line, p.column), ("", 0, 0));
        }
        other => panic!("unexpected {:?}", other),
    }
}

#[test]
fn lines_give_error_file_and_line() {
    let mut e = engine();
    let src = vec![Line::new("NOP\n", "a.code", 10), Line::new("BAD\n", "b.code", 20)];
    match e.build(None, src) {
        Err(CompileError::Operation(p, name, OperationError::TooManyParameters)) => {
            assert_eq!(name, "NOP");
            assert_eq!((p.filename.as_str(), p.line, p.column), ("b.code", 20, 1));
        }
        other => panic!("unexpected {:?}", other),
    }
}

#[test]
fn later_command_definition_replaces_earlier() {
    let mut e = engine();
    e.add_command("nop", rule(&[0x55, 0x66], 0, 0));
    let unit = e.build(None, lines(&["NOP\n"])).unwrap();
    assert_eq!(unit.builder, vec![0x55, 0x66]);
}

#[test]
fn named_unit_is_replaced_by_later_build() {
    let mut e = engine();
    e.build(Some("main".to_string()), lines(&["ADD\n"])).unwrap();
    e.build(Some("main".to_string()), lines(&["NOP\n", "NOP\n"])).unwrap();
    assert_eq!(e.unit("main").unwrap().builder, vec![0x00, 0x00]);
}

#[test]
fn failed_build_keeps_no_unit() {
    let mut e = engine();
    assert!(e.build(Some("bad".to_string()), lines(&["FOO\n"])).is_err());
    assert!(e.unit("bad").is_none());
}

#[test]
fn blank_source_compiles_to_nothing() {
    let (bytes, dbg) = light_assembler::compile_code_to_bytes(" \t\r\n  \n").unwrap();
    assert!(bytes.is_empty());
    assert!(dbg.offsets.is_empty());
}

#[test]
fn fresh_engine_knows_simple_instructions() {
    let (bytes, dbg) = light_assembler::compile_code_to_bytes("ACCEPT\nnop\nADD\nRET").unwrap();
    assert_eq!(bytes, vec![0xF8, 0x00, 0x00, 0xA0, 0xDB, 0x30]);
    let keys: Vec<usize> = dbg.offsets.keys().cloned().collect();
    assert_eq!(keys, vec![0, 16, 24, 32]);
    match light_assembler::compile_code_to_bytes("NOP FOO") {
        Err(CompileError::Operation(p, name, OperationError::TooManyParameters)) => {
            assert_eq!(name, "NOP");
            assert_eq!((p.filename.as_str(), p.line, p.column), ("", 1, 5));
        }
        other => panic!("unexpected {:?}", other),
    }
    match light_assembler::compile_code_to_bytes("FOO") {
        Err(CompileError::UnknownOperation(p, name)) => {
            assert_eq!(name, "FOO");
            assert_eq!((p.line, p.column), (1, 1));
        }
        other => panic!("unexpected {:?}", other),
    }
}

#[test]
fn second_comma_is_refused() {
    let mut e = engine();
    match e.build(None, lines(&["PUSHINT 1,,2\n"])) {
        Err(CompileError::Syntax(p, text)) => {
            assert_eq!(text, ",");
            assert_eq!((p.line, p.column), (1, 11));
        }
        other => panic!("unexpected {:?}", other),
    }
}

#[test]
fn trailing_comment_changes_nothing() {
    let a = light_assembler::compile_code_to_bytes("NOP\nSWAP FOO\n").map(|r| r.0);
    let b = light_assembler::compile_code_to_bytes("NOP\nSWAP FOO\n; the end").map(|r| r.0);
    assert!(a.is_err());
    assert_eq!(format!("{:?}", a), format!("{:?}", b));
    let a = light_assembler::compile_code_to_bytes("NOP\nSWAP\n").unwrap().0;
    let b = light_assembler::compile_code_to_bytes("NOP\nSWAP\n; the end").unwrap().0;
    assert_eq!(a, b);
    assert_eq!(a, vec![0x00, 0x01]);
}

#[test]
fn word_case_does_not_matter() {
    for (lower, upper) in [("foo", "FOO"), ("dup", "DUP"), ("Rot", "ROT")] {
        let a = light_assembler::compile_code_to_bytes(lower);
        let b = light_assembler::compile_code_to_bytes(upper);
        assert_eq!(format!("{:?}", a), format!("{:?}", b));
    }
}

#[test]
fn compiled_source_has_balanced_braces() {
    let mut e = engine();
    assert!(e.build(None, lines(&["OPT {NOP}\n"])).is_ok());
    assert!(e.build(None, lines(&["OPT {NOP\n"])).is_err());
    assert!(e.build(None, lines(&["NOP }\n"])).is_err());
    assert!(e.build(None, lines(&["NOP ; } { # are fine here\n"])).is_ok());
    assert!(e.build(None, lines(&["NOP #\n"])).is_err());
}

#[test]
fn build_restarts_at_first_line() {
    let mut e1 = engine();
    let mut e2 = engine();
    e1.build(None, lines(&["NOP\n", "ADD\n", "FOO\n"])).unwrap_err();
    let a = e1.build(None, lines(&["ADD\n", "NOP\n"])).unwrap();
    let b = e2.build(None, lines(&["ADD\n", "NOP\n"])).unwrap();
    assert_eq!(a.builder, b.builder);
    assert_eq!(a.dbg.offsets, b.dbg.offsets);
}

#[test]
fn single_lower_case_command_compiles_to_its_opcode() {
    let mut e = engine();
    let unit = e.build(None, lines(&["ifrefelseref"])).unwrap_err();
    match unit {
        CompileError::Operation(_, name, OperationError::MissingRequiredParameters) => {
            assert_eq!(name, "IFREFELSEREF")
        }
        other => panic!("unexpected {:?}", other),
    }
    let unit = e.build(None, lines(&["add"])).unwrap();
    assert_eq!(unit.builder, vec![0xA0]);
    assert_eq!(unit.dbg.offsets[&0].line, 1);
    assert_eq!(unit.dbg.offsets[&0].filename, "test.code");
}

#[test]
fn positions_are_inside_the_code() {
    let mut e = engine();
    let unit = e.build(None, lines(&["NOP\n", "IFREFELSEREF {A} {B}\n", "ADD\n"])).unwrap();
    assert_eq!(unit.builder, vec![0x00, 0xE3, 0x0F, 0xA0]);
    let keys: Vec<usize> = unit.dbg.offsets.keys().cloned().collect();
    assert_eq!(keys, vec![0, 8, 24]);
    for k in keys {
        assert!(k % 8 == 0 && k < 8 * unit.builder.len());
    }
}

#[test]
fn program_of_commands_concatenates_opcodes() {
    let mut e = engine();
    let src = vec![Line::new("NOP\nadd\nIfRefElseRef {A} {B}\nNop\n", "p.code", 1)];
    let unit = e.build(None, src).unwrap();
    assert_eq!(unit.builder, vec![0x00, 0xA0, 0xE3, 0x0F, 0x00]);
    let per_line = e.build(None, lines(&["NOP\n", "add\n", "IfRefElseRef {A} {B}\n", "Nop\n"])).unwrap();
    assert_eq!(per_line.builder, unit.builder);
    let got: Vec<(usize, usize)> = per_line.dbg.offsets.iter().map(|(k, p)| (*k, p.line)).collect();
    assert_eq!(got, vec![(0, 1), (8, 2), (16, 3), (32, 4)]);
    let offsets: Vec<(usize, String, usize)> = unit
        .dbg
        .offsets
        .iter()
        .map(|(k, p)| (*k, p.filename.clone(), p.line))
        .collect();
    assert_eq!(
        offsets,
        vec![
            (0, "p.code".to_string(), 1),
            (8, String::new(), 0),
            (16, String::new(), 0),
            (32, String::new(), 0),
        ]
    );
}

#[test]
fn pushint_encodes_its_value() {
    assert_eq!(bytes_of("PUSHINT 5"), vec![0x75]);
    assert_eq!(bytes_of("PUSHINT 7"), vec![0x77]);
    assert_eq!(bytes_of("PUSHINT 0"), vec![0x70]);
    assert_eq!(bytes_of("PUSHINT 10"), vec![0x7A]);
    assert_eq!(bytes_of("PUSHINT -1"), vec![0x7F]);
    assert_eq!(bytes_of("PUSHINT -5"), vec![0x7B]);
    assert_eq!(bytes_of("pushint 11"), vec![0x80, 0x0B]);
    assert_eq!(bytes_of("PUSHINT -6"), vec![0x80, 0xFA]);
    assert_eq!(bytes_of("PUSHINT 127"), vec![0x80, 0x7F]);
    assert_eq!(bytes_of("PUSHINT -128"), vec![0x80, 0x80]);
    assert_eq!(bytes_of("PUSHINT 128"), vec![0x81, 0x00, 0x80]);
    assert_eq!(bytes_of("PUSHINT 1000"), vec![0x81, 0x03, 0xE8]);
    assert_eq!(bytes_of("PUSHINT -129"), vec![0x81, 0xFF, 0x7F]);
    assert_eq!(bytes_of("PUSHINT 32767"), vec![0x81, 0x7F, 0xFF]);
    assert_eq!(bytes_of("PUSHINT -32768"), vec![0x81, 0x80, 0x00]);
}

#[test]
fn pushint_values_differ_in_code() {
    assert_ne!(bytes_of("PUSHINT 5"), bytes_of("PUSHINT 7"));
    let (bytes, dbg) = compile_code_to_bytes("PUSHINT 1000
ADD").unwrap();
    assert_eq!(bytes, vec![0x81, 0x03, 0xE8, 0xA0]);
    let keys: Vec<usize> = dbg.offsets.keys().cloned().collect();
    assert_eq!(keys, vec![0, 24]);
}

#[test]
fn pushint_refuses_what_it_cannot_encode() {
    let (name, line, column, e) = operation_error("NOP\nPUSHINT 32768");
    assert_eq!((name.as_str(), line, column), ("PUSHINT", 2, 1));
    assert_eq!(e, OperationError::Parameter(ParameterError::OutOfRange));
    let (_, _, _, e) = operation_error("PUSHINT -32769");
    assert_eq!(e, OperationError::Parameter(ParameterError::OutOfRange));
    let (_, _, _, e) = operation_error("PUSHINT 99999999999999999999");
    assert_eq!(e, OperationError::Parameter(ParameterError::OutOfRange));
    let (_, _, _, e) = operation_error("PUSHINT x1");
    assert_eq!(e, OperationError::Parameter(ParameterError::UnexpectedType));
    let (_, _, _, e) = operation_error("PUSHINT -");
    assert_eq!(e, OperationError::Parameter(ParameterError::UnexpectedType));
    let (_, _, _, e) = operation_error("PUSHINT 1-2");
    assert_eq!(e, OperationError::Parameter(ParameterError::UnexpectedType));
}

#[test]
fn register_commands_encode_their_register() {
    assert_eq!(bytes_of("PUSH s1"), vec![0x21]);
    assert_eq!(bytes_of("push S15"), vec![0x2F]);
    assert_eq!(bytes_of("PUSH s20"), vec![0x56, 0x14]);
    assert_eq!(bytes_of("POP s3"), vec![0x33]);
    assert_eq!(bytes_of("POP s255"), vec![0x57, 0xFF]);
    assert_eq!(bytes_of("XCHG s2"), vec![0x02]);
    assert_eq!(bytes_of("XCHG s16"), vec![0x11, 0x10]);
    let (name, _, _, e) = operation_error("PUSH s256");
    assert_eq!(name, "PUSH");
    assert_eq!(e, OperationError::Parameter(ParameterError::OutOfRange));
    let (_, _, _, e) = operation_error("POP 3");
    assert_eq!(e, OperationError::Parameter(ParameterError::UnexpectedType));
    let (_, _, _, e) = operation_error("XCHG s");
    assert_eq!(e, OperationError::Parameter(ParameterError::UnexpectedType));
}

#[test]
fn fresh_engine_refuses_second_comma() {
    match compile_code_to_bytes("PUSHINT 1,,2") {
        Err(CompileError::Syntax(p, text)) => {
            assert_eq!(text, ",");
            assert_eq!((p.filename.as_str(), p.line, p.column), ("", 1, 11));
        }
        other => panic!("unexpected {:?}", other),
    }
}

#[test]
fn fresh_engine_reports_missing_operand() {
    let (name, line, column, e) = operation_error("PUSHINT\nDROP");
    assert_eq!((name.as_str(), line, column), ("PUSHINT", 1, 1));
    assert_eq!(e, OperationError::MissingRequiredParameters);
    let (name, _, _, e) = operation_error("PUSHINT 1, 2");
    assert_eq!(name, "PUSHINT");
    assert_eq!(e, OperationError::TooManyParameters);
    let (name, _, _, e) = operation_error("PUSHINT DROP");
    assert_eq!(name, "PUSHINT");
    assert_eq!(e, OperationError::Parameter(ParameterError::UnexpectedType));
}

#[test]
fn code_does_not_depend_on_source_lines() {
    let mut e = Engine::new(vec![]);
    let unit = e.build(None, lines(&["PUSHINT 300\n", "PUSH s2\n", "ADD\n"])).unwrap();
    let (bytes, _) = compile_code_to_bytes("PUSHINT 300\nPUSH s2\nADD\n").unwrap();
    assert_eq!(unit.builder, bytes);
    assert_eq!(bytes, vec![0x81, 0x01, 0x2C, 0x22, 0xA0]);
    assert_eq!(unit.dbg.offsets[&24].filename, "test.code");
    assert_eq!(unit.dbg.offsets[&24].line, 2);
    let mut e = Engine::new(vec![]);
    assert!(e.build(None, lines(&["PUSH 2\n"])).is_err());
    assert!(compile_code_to_bytes("PUSH 2\n").is_err());
}
