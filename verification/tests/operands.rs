use light_assembler::operands::encode_operand;
use light_assembler::{Operand, OperationError, ParameterError};

fn text(s: &str) -> Vec<char> {
    s.chars().collect()
}

#[test]
fn plain_operand_emits_the_opcode() {
    let a = text("ignored");
    assert_eq!(encode_operand(Operand::Plain, &vec![0xA9, 0x04], &[]), Ok(vec![0xA9, 0x04]));
    assert_eq!(encode_operand(Operand::Plain, &vec![0x01], &[&a]), Ok(vec![0x01]));
}

#[test]
fn integer_operand_reads_its_text() {
    let five = text("5");
    let big = text("-300");
    let word = text("five");
    assert_eq!(encode_operand(Operand::Integer, &vec![], &[&five]), Ok(vec![0x75]));
    assert_eq!(encode_operand(Operand::Integer, &vec![], &[&big]), Ok(vec![0x81, 0xFE, 0xD4]));
    assert_eq!(
        encode_operand(Operand::Integer, &vec![], &[&word]),
        Err(OperationError::Parameter(ParameterError::UnexpectedType))
    );
    assert_eq!(
        encode_operand(Operand::Integer, &vec![], &[]),
        Err(OperationError::MissingRequiredParameters)
    );
}

#[test]
fn register_operand_reads_its_text() {
    let s7 = text("s7");
    let s100 = text("S100");
    let s1000 = text("s1000");
    assert_eq!(encode_operand(Operand::Register(0x20, 0x56), &vec![], &[&s7]), Ok(vec![0x27]));
    assert_eq!(encode_operand(Operand::Register(0x20, 0x56), &vec![], &[&s100]), Ok(vec![0x56, 100]));
    assert_eq!(
        encode_operand(Operand::Register(0x20, 0x56), &vec![], &[&s1000]),
        Err(OperationError::Parameter(ParameterError::OutOfRange))
    );
}
