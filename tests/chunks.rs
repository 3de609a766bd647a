use rlox::chunk::{Chunk, OpCode};
use rlox::value::Constant;

#[test]
fn write_keeps_code_and_lines_together() {
    let mut chunk = Chunk::new();
    chunk.write(OpCode::Nil, 1);
    chunk.write(OpCode::Print, 1);
    chunk.write(OpCode::Return, 2);
    assert_eq!(chunk.code(), &vec![OpCode::Nil, OpCode::Print, OpCode::Return]);
    assert_eq!((chunk.line(0), chunk.line(1), chunk.line(2)), (1, 1, 2));
}

#[test]
fn add_constant_indices_increase_and_stay() {
    let mut chunk = Chunk::default();
    assert_eq!(chunk.add_constant(Constant::Number("1")), 0);
    assert_eq!(chunk.add_constant(Constant::String("x")), 1);
    assert_eq!(chunk.add_constant(Constant::Number("1")), 2);
    assert_eq!(chunk.constants_len(), 3);
    assert!(matches!(chunk.constant(0), Constant::Number("1")));
    assert!(matches!(chunk.constant(1), Constant::String("x")));
    assert!(matches!(chunk.constant(2), Constant::Number("1")));
}

#[test]
fn line_labels_mark_repeats() {
    let mut chunk = Chunk::new();
    chunk.write(OpCode::True, 4);
    chunk.write(OpCode::Pop, 4);
    chunk.write(OpCode::Return, 5);
    assert_eq!(chunk.line_label(0), Some(4));
    assert_eq!(chunk.line_label(1), None);
    assert_eq!(chunk.line_label(2), Some(5));
}
