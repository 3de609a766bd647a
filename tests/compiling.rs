use rlox::chunk::{Chunk, OpCode};
use rlox::compiler::{Compiler, Location};
use rlox::value::Constant;

fn constants(chunk: &Chunk) -> Vec<String> {
    (0..chunk.constants_len())
        .map(|i| match chunk.constant(i) {
            Constant::String(s) => format!("s:{s}"),
            Constant::Number(n) => format!("n:{n}"),
        })
        .collect()
}

#[test]
fn multiplication_binds_tighter_than_addition() {
    let mut compiler = Compiler::new();
    let chunk = compiler.compile("1 + 2 * 3;");
    assert!(!compiler.had_error());
    assert_eq!(
        chunk.code(),
        &vec![
            OpCode::Constant(0),
            OpCode::Constant(1),
            OpCode::Constant(2),
            OpCode::Multiply,
            OpCode::Add,
            OpCode::Pop,
            OpCode::Return,
        ]
    );
    assert_eq!(constants(&chunk), vec!["n:1", "n:2", "n:3"]);
}

#[test]
fn binary_operators_associate_left() {
    let mut compiler = Compiler::new();
    let chunk = compiler.compile("1 - 2 - 3;");
    assert_eq!(
        chunk.code(),
        &vec![
            OpCode::Constant(0),
            OpCode::Constant(1),
            OpCode::Subtract,
            OpCode::Constant(2),
            OpCode::Subtract,
            OpCode::Pop,
            OpCode::Return,
        ]
    );
}

#[test]
fn grouping_overrides_precedence() {
    let mut compiler = Compiler::new();
    let chunk = compiler.compile("(1 + 2) * -3;");
    assert_eq!(
        chunk.code(),
        &vec![
            OpCode::Constant(0),
            OpCode::Constant(1),
            OpCode::Add,
            OpCode::Constant(2),
            OpCode::Negate,
            OpCode::Multiply,
            OpCode::Pop,
            OpCode::Return,
        ]
    );
}

#[test]
fn comparisons_are_built_from_two_primitives() {
    let mut compiler = Compiler::new();
    let chunk = compiler.compile("1 <= 2; 1 >= 2; 1 != 2; 1 == 2; 1 < 2; 1 > 2;");
    let code: Vec<OpCode> = chunk
        .code()
        .iter()
        .copied()
        .filter(|op| !matches!(op, OpCode::Constant(_) | OpCode::Pop))
        .collect();
    assert_eq!(
        code,
        vec![
            OpCode::Greater,
            OpCode::Not,
            OpCode::Less,
            OpCode::Not,
            OpCode::Equal,
            OpCode::Not,
            OpCode::Equal,
            OpCode::Less,
            OpCode::Greater,
            OpCode::Return,
        ]
    );
}

#[test]
fn literals_strings_and_variables() {
    let mut compiler = Compiler::new();
    let chunk = compiler.compile("var a = \"hi\";\nprint !a;\nvar b;\ntrue; false; nil;");
    assert!(!compiler.had_error());
    assert_eq!(
        chunk.code(),
        &vec![
            OpCode::Constant(1),
            OpCode::DefineGlobal(0),
            OpCode::GetGlobal(2),
            OpCode::Not,
            OpCode::Print,
            OpCode::Nil,
            OpCode::DefineGlobal(3),
            OpCode::True,
            OpCode::Pop,
            OpCode::False,
            OpCode::Pop,
            OpCode::Nil,
            OpCode::Pop,
            OpCode::Return,
        ]
    );
    assert_eq!(constants(&chunk), vec!["s:a", "s:hi", "s:a", "s:b"]);
    assert_eq!(chunk.line(0), 1);
    assert_eq!(chunk.line(2), 2);
    assert_eq!(chunk.line(13), 4);
}

#[test]
fn empty_string_literal() {
    let mut compiler = Compiler::new();
    let chunk = compiler.compile("\"\";");
    assert_eq!(constants(&chunk), vec!["s:"]);
}

#[test]
fn empty_program_is_just_return() {
    let mut compiler = Compiler::new();
    let chunk = compiler.compile("");
    assert!(!compiler.had_error());
    assert_eq!(chunk.code(), &vec![OpCode::Return]);
    assert!(compiler.diagnostics().is_empty());
}

#[test]
fn two_syntax_errors_give_two_diagnostics() {
    let mut compiler = Compiler::new();
    let chunk = compiler.compile("var = 1;\nprint ;\nprint 3;");
    assert!(compiler.had_error());
    let d = compiler.diagnostics();
    assert_eq!(d.len(), 2);
    assert_eq!(d[0].line, 1);
    assert!(matches!(d[0].location, Location::At("=")));
    assert_eq!(d[0].message, "Expect variable name.");
    assert_eq!(d[1].line, 2);
    assert!(matches!(d[1].location, Location::At(";")));
    assert_eq!(d[1].message, "Expect prefix expression.");
    // The statement after the second error still compiles.
    let code = chunk.code();
    let n = code.len();
    assert_eq!(&code[n - 3..], &[OpCode::Constant(2), OpCode::Print, OpCode::Return]);
}

#[test]
fn one_error_per_statement_despite_cascade() {
    let mut compiler = Compiler::new();
    compiler.compile("1 + + 2;\nprint 4;");
    assert_eq!(compiler.diagnostics().len(), 1);
    assert_eq!(compiler.diagnostics()[0].message, "Expect prefix expression.");
    compiler.compile("(1 + 2;\nprint 4;");
    let d = compiler.diagnostics();
    assert_eq!(d.len(), 1);
    assert_eq!(d[0].message, "Expect ')' after expression.");
}

#[test]
fn unterminated_string_is_a_compile_error() {
    let mut compiler = Compiler::new();
    compiler.compile("print \"abc");
    assert!(compiler.had_error());
    let d = compiler.diagnostics();
    assert_eq!(d.len(), 1);
    assert!(matches!(d[0].location, Location::Unplaced));
    assert_eq!(d[0].message, "Unterminated string");
}

#[test]
fn missing_semicolon_at_end() {
    let mut compiler = Compiler::new();
    compiler.compile("print 1");
    let d = compiler.diagnostics();
    assert_eq!(d.len(), 1);
    assert!(matches!(d[0].location, Location::AtEnd));
    assert_eq!(d[0].message, "Expect ; after value.");
}

#[test]
fn compile_starts_afresh() {
    let mut compiler = Compiler::new();
    compiler.compile("print ;");
    assert!(compiler.had_error());
    let chunk = compiler.compile("print 1;");
    assert!(!compiler.had_error());
    assert!(compiler.diagnostics().is_empty());
    assert_eq!(chunk.code(), &vec![OpCode::Constant(0), OpCode::Print, OpCode::Return]);
}
