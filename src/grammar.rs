//! The parse table and the meaning of compilation: how each grammar
//! production moves the parser along the token sequence and what it
//! appends to the chunk and to the diagnostics.
use vstd::prelude::*;

use crate::chunk::{ChunkModel, OpCode};
use crate::scanner::{lex, TokenKind, TokenModel};
use crate::value::Literal;

verus! {

/// Binding strength, weakest first.
#[derive(Debug, Clone, Copy, PartialEq, Eq, Structural)]
pub enum Precedence {
    Lowest,
    Assignment,
    Or,
    And,
    Equality,
    Comparison,
    Term,
    Factor,
    Unary,
    Call,
    Primary,
}

impl Precedence {
    pub open spec fn level(self) -> nat {
        match self {
            Precedence::Lowest => 0,
            Precedence::Assignment => 1,
            Precedence::Or => 2,
            Precedence::And => 3,
            Precedence::Equality => 4,
            Precedence::Comparison => 5,
            Precedence::Term => 6,
            Precedence::Factor => 7,
            Precedence::Unary => 8,
            Precedence::Call => 9,
            Precedence::Primary => 10,
        }
    }

    /// The next level up, saturating at `Primary`.
    pub open spec fn stronger(self) -> Precedence {
        match self {
            Precedence::Lowest => Precedence::Assignment,
            Precedence::Assignment => Precedence::Or,
            Precedence::Or => Precedence::And,
            Precedence::And => Precedence::Equality,
            Precedence::Equality => Precedence::Comparison,
            Precedence::Comparison => Precedence::Term,
            Precedence::Term => Precedence::Factor,
            Precedence::Factor => Precedence::Unary,
            Precedence::Unary => Precedence::Call,
            Precedence::Call => Precedence::Primary,
            Precedence::Primary => Precedence::Primary,
        }
    }

    /// Returns the next-strongest precedence. If a stronger precedence
    /// does not exist, returns the strongest precedence.
    pub fn strengthen(self) -> (r: Self)
        ensures
            r == self.stronger(),
            r.level() == if self.level() < 10 { self.level() + 1 } else { 10 },
    {
        match self {
            Precedence::Lowest => Precedence::Assignment,
            Precedence::Assignment => Precedence::Or,
            Precedence::Or => Precedence::And,
            Precedence::And => Precedence::Equality,
            Precedence::Equality => Precedence::Comparison,
            Precedence::Comparison => Precedence::Term,
            Precedence::Term => Precedence::Factor,
            Precedence::Factor => Precedence::Unary,
            Precedence::Unary => Precedence::Call,
            Precedence::Call | Precedence::Primary => Precedence::Primary,
        }
    }

    pub fn rank(self) -> (r: u8)
        ensures
            r == self.level(),
    {
        match self {
            Precedence::Lowest => 0,
            Precedence::Assignment => 1,
            Precedence::Or => 2,
            Precedence::And => 3,
            Precedence::Equality => 4,
            Precedence::Comparison => 5,
            Precedence::Term => 6,
            Precedence::Factor => 7,
            Precedence::Unary => 8,
            Precedence::Call => 9,
            Precedence::Primary => 10,
        }
    }
}

/// The parse handlers a token can select.
#[derive(Debug, Clone, Copy, PartialEq, Eq, Structural)]
pub enum FunctionRepr {
    Grouping,
    Unary,
    Binary,
    Number,
    Literal,
    String,
    Variable,
}

/// What a token kind does in an expression: its prefix handler, its
/// infix handler, and its binding strength as an infix operator.
#[derive(Debug, Clone, Copy, PartialEq, Eq, Structural)]
pub struct ParseRule {
    pub prefix: Option<FunctionRepr>,
    pub infix: Option<FunctionRepr>,
    pub precedence: Precedence,
}

pub open spec fn precedence_of(kind: TokenKind) -> Precedence {
    match kind {
        TokenKind::Minus | TokenKind::Plus => Precedence::Term,
        TokenKind::Slash | TokenKind::Star => Precedence::Factor,
        TokenKind::BangEqual | TokenKind::EqualEqual => Precedence::Equality,
        TokenKind::Greater | TokenKind::GreaterEqual | TokenKind::Less | TokenKind::LessEqual => {
            Precedence::Comparison
        },
        _ => Precedence::Lowest,
    }
}

pub open spec fn prefix_of(kind: TokenKind) -> Option<FunctionRepr> {
    match kind {
        TokenKind::LeftParen => Some(FunctionRepr::Grouping),
        TokenKind::Minus | TokenKind::Bang => Some(FunctionRepr::Unary),
        TokenKind::Identifier => Some(FunctionRepr::Variable),
        TokenKind::String => Some(FunctionRepr::String),
        TokenKind::Number => Some(FunctionRepr::Number),
        TokenKind::False | TokenKind::Nil | TokenKind::True => Some(FunctionRepr::Literal),
        _ => None,
    }
}

/// The parse table: every infix operator is binary.
pub open spec fn rule_of(kind: TokenKind) -> ParseRule {
    ParseRule {
        prefix: prefix_of(kind),
        infix: if precedence_of(kind) == Precedence::Lowest {
            None
        } else {
            Some(FunctionRepr::Binary)
        },
        precedence: precedence_of(kind),
    }
}

/// Where a diagnostic points.
pub enum Place {
    AtEnd,
    At(Seq<char>),
    Unplaced,
}

/// The model of a diagnostic.
pub struct Report {
    pub line: u16,
    pub place: Place,
    pub message: Seq<char>,
}

/// The state of one compilation: the current and previous tokens, the
/// tokens still to come, the error flags, and the output so far.
pub struct ParseState {
    pub current: TokenModel,
    pub previous: TokenModel,
    pub rest: Seq<TokenModel>,
    pub had_error: bool,
    pub panic_mode: bool,
    pub chunk: ChunkModel,
    pub diagnostics: Seq<Report>,
}

/// The placeholder token that stands before the first one.
pub open spec fn no_token() -> TokenModel {
    TokenModel { kind: TokenKind::Eof, lexeme: Seq::empty(), line: 0 }
}

pub open spec fn start_state(source: Seq<char>) -> ParseState {
    ParseState {
        current: no_token(),
        previous: no_token(),
        rest: lex(source),
        had_error: false,
        panic_mode: false,
        chunk: ChunkModel::empty(),
        diagnostics: Seq::empty(),
    }
}

/// How much input is left: the tokens to come, and the current one
/// unless it is the end.
pub open spec fn measure(s: ParseState) -> nat {
    s.rest.len() + if s.current.kind == TokenKind::Eof {
        0nat
    } else {
        1nat
    }
}

pub open spec fn place_of(t: TokenModel) -> Place {
    if t.kind == TokenKind::Eof {
        Place::AtEnd
    } else if t.kind == TokenKind::Error {
        Place::Unplaced
    } else {
        Place::At(t.lexeme)
    }
}

/// A syntax error at `t`: recorded unless an earlier error has not been
/// recovered from yet.
pub open spec fn report(s: ParseState, t: TokenModel, message: Seq<char>) -> ParseState {
    if s.panic_mode {
        s
    } else {
        ParseState {
            had_error: true,
            panic_mode: true,
            diagnostics: s.diagnostics.push(Report { line: t.line, place: place_of(t), message }),
            ..s
        }
    }
}

/// Takes the next token from the scanner; the end repeats.
pub open spec fn pull(s: ParseState) -> ParseState {
    ParseState {
        current: s.rest[0],
        rest: if s.rest[0].kind == TokenKind::Eof {
            s.rest
        } else {
            s.rest.drop_first()
        },
        ..s
    }
}

/// Pulls tokens until one that is not an error, reporting each error.
pub open spec fn pull_valid(s: ParseState) -> ParseState
    decreases s.rest.len(),
{
    if s.rest.len() == 0 {
        s
    } else {
        let t = s.rest[0];
        if t.kind == TokenKind::Error {
            pull_valid(report(pull(s), t, t.lexeme))
        } else {
            pull(s)
        }
    }
}

pub open spec fn advance(s: ParseState) -> ParseState {
    pull_valid(ParseState { previous: s.current, ..s })
}

pub open spec fn match_token(s: ParseState, kind: TokenKind) -> ParseState {
    if s.current.kind == kind {
        advance(s)
    } else {
        s
    }
}

pub open spec fn consume(s: ParseState, kind: TokenKind, message: Seq<char>) -> ParseState {
    if s.current.kind == kind {
        advance(s)
    } else {
        report(s, s.current, message)
    }
}

/// Appends an instruction on the line of the previous token.
pub open spec fn emit(s: ParseState, op: OpCode) -> ParseState {
    ParseState { chunk: s.chunk.write(op, s.previous.line), ..s }
}

pub open spec fn add_constant(s: ParseState, c: Literal) -> ParseState {
    ParseState { chunk: s.chunk.add_constant(c), ..s }
}

pub open spec fn emit_constant(s: ParseState, c: Literal) -> ParseState {
    emit(add_constant(s, c), OpCode::Constant(s.chunk.constants.len() as usize))
}

pub open spec fn number(s: ParseState) -> ParseState {
    emit_constant(s, Literal::Num(s.previous.lexeme))
}

pub open spec fn literal(s: ParseState) -> ParseState {
    match s.previous.kind {
        TokenKind::False => emit(s, OpCode::False),
        TokenKind::Nil => emit(s, OpCode::Nil),
        TokenKind::True => emit(s, OpCode::True),
        _ => s,
    }
}

/// A string literal: its text between the quotes becomes a constant.
pub open spec fn string(s: ParseState) -> ParseState {
    let w = s.previous.lexeme;
    if s.previous.kind == TokenKind::String && w.len() >= 2 {
        emit_constant(s, Literal::Str(w.subrange(1, w.len() - 1)))
    } else {
        report(s, s.previous, "Expect string constant."@)
    }
}

/// A global read: the name goes to the pool, the read refers to it.
pub open spec fn variable(s: ParseState) -> ParseState {
    emit(
        add_constant(s, Literal::Str(s.previous.lexeme)),
        OpCode::GetGlobal(s.chunk.constants.len() as usize),
    )
}

/// The instructions of a binary operator.
pub open spec fn emit_operator(s: ParseState, op: TokenKind) -> ParseState {
    match op {
        TokenKind::Plus => emit(s, OpCode::Add),
        TokenKind::Minus => emit(s, OpCode::Subtract),
        TokenKind::Star => emit(s, OpCode::Multiply),
        TokenKind::Slash => emit(s, OpCode::Divide),
        TokenKind::BangEqual => emit(emit(s, OpCode::Equal), OpCode::Not),
        TokenKind::EqualEqual => emit(s, OpCode::Equal),
        TokenKind::Greater => emit(s, OpCode::Greater),
        TokenKind::GreaterEqual => emit(emit(s, OpCode::Less), OpCode::Not),
        TokenKind::Less => emit(s, OpCode::Less),
        TokenKind::LessEqual => emit(emit(s, OpCode::Greater), OpCode::Not),
        _ => s,
    }
}

// The expression productions. Each takes a fuel argument that bounds
// its recursion; compilation supplies more than any input needs.

pub open spec fn expression(s: ParseState, fuel: nat) -> ParseState
    decreases fuel,
{
    if fuel == 0 {
        s
    } else {
        parse_precedence(s, Precedence::Assignment, (fuel - 1) as nat)
    }
}

/// Parses an expression whose operators bind at least as tightly as `min`.
pub open spec fn parse_precedence(s: ParseState, min: Precedence, fuel: nat) -> ParseState
    decreases fuel,
{
    if fuel == 0 {
        s
    } else {
        let s1 = prefix(advance(s), (fuel - 1) as nat);
        infix_loop(s1, min, (fuel - 1) as nat)
    }
}

pub open spec fn prefix(s: ParseState, fuel: nat) -> ParseState
    decreases fuel,
{
    if fuel == 0 {
        s
    } else {
        match prefix_of(s.previous.kind) {
            Some(FunctionRepr::Grouping) => grouping(s, (fuel - 1) as nat),
            Some(FunctionRepr::Unary) => unary(s, (fuel - 1) as nat),
            Some(FunctionRepr::Binary) => binary(s, (fuel - 1) as nat),
            Some(FunctionRepr::Number) => number(s),
            Some(FunctionRepr::Literal) => literal(s),
            Some(FunctionRepr::String) => string(s),
            Some(FunctionRepr::Variable) => variable(s),
            None => report(s, s.previous, "Expect prefix expression."@),
        }
    }
}

pub open spec fn infix_loop(s: ParseState, min: Precedence, fuel: nat) -> ParseState
    decreases fuel,
{
    if fuel == 0 {
        s
    } else if min.level() <= precedence_of(s.current.kind).level() {
        infix_loop(infix(advance(s), (fuel - 1) as nat), min, (fuel - 1) as nat)
    } else {
        s
    }
}

pub open spec fn infix(s: ParseState, fuel: nat) -> ParseState
    decreases fuel,
{
    if fuel == 0 {
        s
    } else {
        match rule_of(s.previous.kind).infix {
            Some(FunctionRepr::Binary) => binary(s, (fuel - 1) as nat),
            _ => report(s, s.previous, "Expect infix expression."@),
        }
    }
}

pub open spec fn grouping(s: ParseState, fuel: nat) -> ParseState
    decreases fuel,
{
    if fuel == 0 {
        s
    } else {
        consume(
            expression(s, (fuel - 1) as nat),
            TokenKind::RightParen,
            "Expect ')' after expression."@,
        )
    }
}

pub open spec fn unary(s: ParseState, fuel: nat) -> ParseState
    decreases fuel,
{
    if fuel == 0 {
        s
    } else {
        let op = s.previous.kind;
        let s1 = parse_precedence(s, Precedence::Unary, (fuel - 1) as nat);
        if op == TokenKind::Bang {
            emit(s1, OpCode::Not)
        } else if op == TokenKind::Minus {
            emit(s1, OpCode::Negate)
        } else {
            s1
        }
    }
}

/// The right operand binds one level tighter than the operator, which
/// makes binary operators associate to the left.
pub open spec fn binary(s: ParseState, fuel: nat) -> ParseState
    decreases fuel,
{
    if fuel == 0 {
        s
    } else {
        let op = s.previous.kind;
        let s1 = parse_precedence(s, precedence_of(op).stronger(), (fuel - 1) as nat);
        emit_operator(s1, op)
    }
}

// The statement productions.

pub open spec fn print_statement(s: ParseState, fuel: nat) -> ParseState {
    let s1 = consume(expression(s, fuel), TokenKind::Semicolon, "Expect ; after value."@);
    emit(s1, OpCode::Print)
}

pub open spec fn expression_statement(s: ParseState, fuel: nat) -> ParseState {
    let s1 = consume(expression(s, fuel), TokenKind::Semicolon, "Expect ; after expression."@);
    emit(s1, OpCode::Pop)
}

pub open spec fn statement(s: ParseState, fuel: nat) -> ParseState {
    if s.current.kind == TokenKind::Print {
        print_statement(advance(s), fuel)
    } else {
        expression_statement(s, fuel)
    }
}

/// `var name (= expression)? ;`: the name goes to the pool, the value
/// (nil without an initializer) is bound to it.
pub open spec fn var_declaration(s: ParseState, fuel: nat) -> ParseState {
    let s1 = consume(s, TokenKind::Identifier, "Expect variable name."@);
    let global = s1.chunk.constants.len();
    let s2 = add_constant(s1, Literal::Str(s1.previous.lexeme));
    let s3 = if s2.current.kind == TokenKind::Equal {
        expression(advance(s2), fuel)
    } else {
        emit(s2, OpCode::Nil)
    };
    let s4 = consume(s3, TokenKind::Semicolon, "Expect ';' after variable declaration."@);
    emit(s4, OpCode::DefineGlobal(global as usize))
}

/// Tokens that begin a declaration or statement, where recovery stops.
pub open spec fn starts_statement(kind: TokenKind) -> bool {
    kind == TokenKind::Class || kind == TokenKind::Fun || kind == TokenKind::Var || kind
        == TokenKind::For || kind == TokenKind::If || kind == TokenKind::While || kind
        == TokenKind::Return
}

pub open spec fn skip_to_boundary(s: ParseState, fuel: nat) -> ParseState
    decreases fuel,
{
    if fuel == 0 || s.current.kind == TokenKind::Eof || s.previous.kind == TokenKind::Semicolon
        || starts_statement(s.current.kind) {
        s
    } else {
        skip_to_boundary(advance(s), (fuel - 1) as nat)
    }
}

/// Leaves panic mode and skips to the next statement boundary: past a
/// `;`, or before a token that starts a statement.
pub open spec fn synchronize(s: ParseState, fuel: nat) -> ParseState {
    skip_to_boundary(ParseState { panic_mode: false, ..s }, fuel)
}

#[verifier::opaque]
pub open spec fn declaration(s: ParseState, fuel: nat) -> ParseState {
    let s1 = if s.current.kind == TokenKind::Var {
        var_declaration(advance(s), fuel)
    } else {
        statement(s, fuel)
    };
    if s1.panic_mode {
        synchronize(s1, fuel)
    } else {
        s1
    }
}

/// Declarations until the end of input, which is then consumed.
pub open spec fn program(s: ParseState, fuel: nat) -> ParseState
    decreases fuel,
{
    if fuel == 0 {
        s
    } else if s.current.kind == TokenKind::Eof {
        advance(s)
    } else {
        program(declaration(s, (fuel - 1) as nat), (fuel - 1) as nat)
    }
}

/// Enough fuel for every production on the tokens of `source`; any
/// more gives the same result (`lemma_fuel_suffices`).
pub open spec fn fuel_for(source: Seq<char>) -> nat {
    8 * lex(source).len() + 16
}

/// Compiling `source` with the given fuel.
pub open spec fn compilation_with(source: Seq<char>, fuel: nat) -> ParseState {
    let s1 = advance(start_state(source));
    let s2 = program(s1, fuel);
    let s3 = consume(s2, TokenKind::Eof, "Expect end of expression"@);
    emit(s3, OpCode::Return)
}

/// Compiling `source`: the chunk and diagnostics it yields.
pub open spec fn compilation(source: Seq<char>) -> ParseState {
    compilation_with(source, fuel_for(source))
}

// ----- Facts about the input measure -----

/// The tokens to come end with the end of input.
pub open spec fn ends_at_eof(rest: Seq<TokenModel>) -> bool {
    rest.len() > 0 && rest.last().kind == TokenKind::Eof
}

pub proof fn lemma_pull_valid_measure(s: ParseState)
    requires
        ends_at_eof(s.rest),
    ensures
        measure(pull_valid(s)) <= s.rest.len(),
        ends_at_eof(pull_valid(s).rest),
    decreases s.rest.len(),
{
    let t = s.rest[0];
    if t.kind == TokenKind::Error {
        let s1 = report(pull(s), t, t.lexeme);
        assert(s1.rest.last() == s.rest.last());
        lemma_pull_valid_measure(s1);
    } else if t.kind != TokenKind::Eof {
        assert(pull(s).rest.last() == s.rest.last());
    }
}

/// Advancing never adds input, and advancing past a token that is not
/// the end consumes some.
pub proof fn lemma_advance_measure(s: ParseState)
    requires
        ends_at_eof(s.rest),
    ensures
        measure(advance(s)) <= measure(s),
        s.current.kind != TokenKind::Eof ==> measure(advance(s)) < measure(s),
        ends_at_eof(advance(s).rest),
        advance(s).previous == s.current,
{
    lemma_pull_valid_measure(ParseState { previous: s.current, ..s });
    lemma_pull_valid_keeps_previous(ParseState { previous: s.current, ..s });
}

pub proof fn lemma_pull_valid_keeps_previous(s: ParseState)
    ensures
        pull_valid(s).previous == s.previous,
    decreases s.rest.len(),
{
    if s.rest.len() > 0 {
        let t = s.rest[0];
        if t.kind == TokenKind::Error {
            lemma_pull_valid_keeps_previous(report(pull(s), t, t.lexeme));
        }
    }
}

// ----- Fuel is only a bound -----

pub open spec fn enough(s: ParseState, fuel: nat, extra: nat) -> bool {
    fuel >= 8 * measure(s) + extra
}

pub proof fn lemma_consume_measure(s: ParseState, kind: TokenKind, message: Seq<char>)
    requires
        ends_at_eof(s.rest),
    ensures
        ends_at_eof(consume(s, kind, message).rest),
        measure(consume(s, kind, message)) <= measure(s),
        ends_at_eof(match_token(s, kind).rest),
        measure(match_token(s, kind)) <= measure(s),
{
    lemma_advance_measure(s);
}

proof fn lemma_expression_fuel(s: ParseState, f1: nat, f2: nat)
    requires
        ends_at_eof(s.rest),
        enough(s, f1, 11),
        enough(s, f2, 11),
    ensures
        expression(s, f1) == expression(s, f2),
        ends_at_eof(expression(s, f1).rest),
        measure(expression(s, f1)) <= measure(s),
        s.current.kind != TokenKind::Eof ==> measure(expression(s, f1)) < measure(s),
    decreases f1,
{
    lemma_parse_precedence_fuel(s, Precedence::Assignment, (f1 - 1) as nat, (f2 - 1) as nat);
}

proof fn lemma_parse_precedence_fuel(s: ParseState, min: Precedence, f1: nat, f2: nat)
    requires
        ends_at_eof(s.rest),
        min.level() >= 1,
        enough(s, f1, 10),
        enough(s, f2, 10),
    ensures
        parse_precedence(s, min, f1) == parse_precedence(s, min, f2),
        ends_at_eof(parse_precedence(s, min, f1).rest),
        measure(parse_precedence(s, min, f1)) <= measure(s),
        s.current.kind != TokenKind::Eof ==> measure(parse_precedence(s, min, f1)) < measure(s),
    decreases f1,
{
    lemma_advance_measure(s);
    let s1 = advance(s);
    lemma_prefix_fuel(s1, (f1 - 1) as nat, (f2 - 1) as nat);
    let s2 = prefix(s1, (f1 - 1) as nat);
    lemma_infix_loop_fuel(s2, min, (f1 - 1) as nat, (f2 - 1) as nat);
}

pub open spec fn recurses(kind: TokenKind) -> bool {
    prefix_of(kind) == Some(FunctionRepr::Grouping) || prefix_of(kind) == Some(
        FunctionRepr::Unary,
    ) || prefix_of(kind) == Some(FunctionRepr::Binary)
}

proof fn lemma_prefix_fuel(s: ParseState, f1: nat, f2: nat)
    requires
        ends_at_eof(s.rest),
        f1 >= 1,
        f2 >= 1,
        recurses(s.previous.kind) ==> enough(s, f1, 13) && enough(s, f2, 13),
    ensures
        prefix(s, f1) == prefix(s, f2),
        ends_at_eof(prefix(s, f1).rest),
        measure(prefix(s, f1)) <= measure(s),
    decreases f1,
{
    match prefix_of(s.previous.kind) {
        Some(FunctionRepr::Grouping) => lemma_grouping_fuel(s, (f1 - 1) as nat, (f2 - 1) as nat),
        Some(FunctionRepr::Unary) => lemma_unary_fuel(s, (f1 - 1) as nat, (f2 - 1) as nat),
        Some(FunctionRepr::Binary) => lemma_binary_fuel(s, (f1 - 1) as nat, (f2 - 1) as nat),
        _ => {},
    }
}

proof fn lemma_infix_loop_fuel(s: ParseState, min: Precedence, f1: nat, f2: nat)
    requires
        ends_at_eof(s.rest),
        min.level() >= 1,
        enough(s, f1, 9),
        enough(s, f2, 9),
    ensures
        infix_loop(s, min, f1) == infix_loop(s, min, f2),
        ends_at_eof(infix_loop(s, min, f1).rest),
        measure(infix_loop(s, min, f1)) <= measure(s),
    decreases f1,
{
    if min.level() <= precedence_of(s.current.kind).level() {
        lemma_advance_measure(s);
        let s3 = advance(s);
        lemma_infix_fuel(s3, (f1 - 1) as nat, (f2 - 1) as nat);
        let s4 = infix(s3, (f1 - 1) as nat);
        lemma_infix_loop_fuel(s4, min, (f1 - 1) as nat, (f2 - 1) as nat);
    }
}

proof fn lemma_infix_fuel(s: ParseState, f1: nat, f2: nat)
    requires
        ends_at_eof(s.rest),
        f1 >= 1,
        f2 >= 1,
        rule_of(s.previous.kind).infix == Some(FunctionRepr::Binary) ==> enough(s, f1, 13)
            && enough(s, f2, 13),
    ensures
        infix(s, f1) == infix(s, f2),
        ends_at_eof(infix(s, f1).rest),
        measure(infix(s, f1)) <= measure(s),
    decreases f1,
{
    if rule_of(s.previous.kind).infix == Some(FunctionRepr::Binary) {
        lemma_binary_fuel(s, (f1 - 1) as nat, (f2 - 1) as nat);
    }
}

proof fn lemma_grouping_fuel(s: ParseState, f1: nat, f2: nat)
    requires
        ends_at_eof(s.rest),
        enough(s, f1, 12),
        enough(s, f2, 12),
    ensures
        grouping(s, f1) == grouping(s, f2),
        ends_at_eof(grouping(s, f1).rest),
        measure(grouping(s, f1)) <= measure(s),
    decreases f1,
{
    lemma_expression_fuel(s, (f1 - 1) as nat, (f2 - 1) as nat);
    lemma_consume_measure(
        expression(s, (f1 - 1) as nat),
        TokenKind::RightParen,
        "Expect ')' after expression."@,
    );
}

proof fn lemma_unary_fuel(s: ParseState, f1: nat, f2: nat)
    requires
        ends_at_eof(s.rest),
        enough(s, f1, 12),
        enough(s, f2, 12),
    ensures
        unary(s, f1) == unary(s, f2),
        ends_at_eof(unary(s, f1).rest),
        measure(unary(s, f1)) <= measure(s),
    decreases f1,
{
    lemma_parse_precedence_fuel(s, Precedence::Unary, (f1 - 1) as nat, (f2 - 1) as nat);
}

proof fn lemma_binary_fuel(s: ParseState, f1: nat, f2: nat)
    requires
        ends_at_eof(s.rest),
        enough(s, f1, 12),
        enough(s, f2, 12),
    ensures
        binary(s, f1) == binary(s, f2),
        ends_at_eof(binary(s, f1).rest),
        measure(binary(s, f1)) <= measure(s),
    decreases f1,
{
    let min = precedence_of(s.previous.kind).stronger();
    lemma_parse_precedence_fuel(s, min, (f1 - 1) as nat, (f2 - 1) as nat);
}

proof fn lemma_statement_fuel(s: ParseState, f1: nat, f2: nat)
    requires
        ends_at_eof(s.rest),
        enough(s, f1, 11),
        enough(s, f2, 11),
    ensures
        statement(s, f1) == statement(s, f2),
        ends_at_eof(statement(s, f1).rest),
        measure(statement(s, f1)) <= measure(s),
        s.current.kind != TokenKind::Eof ==> measure(statement(s, f1)) < measure(s),
{
    lemma_advance_measure(s);
    let s1 = if s.current.kind == TokenKind::Print {
        advance(s)
    } else {
        s
    };
    lemma_expression_fuel(s1, f1, f2);
    let s2 = expression(s1, f1);
    let message = if s.current.kind == TokenKind::Print {
        "Expect ; after value."@
    } else {
        "Expect ; after expression."@
    };
    lemma_consume_measure(s2, TokenKind::Semicolon, message);
}

proof fn lemma_var_declaration_fuel(s: ParseState, f1: nat, f2: nat)
    requires
        ends_at_eof(s.rest),
        enough(s, f1, 11),
        enough(s, f2, 11),
    ensures
        var_declaration(s, f1) == var_declaration(s, f2),
        ends_at_eof(var_declaration(s, f1).rest),
        measure(var_declaration(s, f1)) <= measure(s),
{
    let s1 = consume(s, TokenKind::Identifier, "Expect variable name."@);
    lemma_consume_measure(s, TokenKind::Identifier, "Expect variable name."@);
    let s2 = add_constant(s1, Literal::Str(s1.previous.lexeme));
    lemma_advance_measure(s2);
    if s2.current.kind == TokenKind::Equal {
        lemma_expression_fuel(advance(s2), f1, f2);
    }
    let s3 = if s2.current.kind == TokenKind::Equal {
        expression(advance(s2), f1)
    } else {
        emit(s2, OpCode::Nil)
    };
    lemma_consume_measure(s3, TokenKind::Semicolon, "Expect ';' after variable declaration."@);
}

proof fn lemma_skip_to_boundary_fuel(s: ParseState, f1: nat, f2: nat)
    requires
        ends_at_eof(s.rest),
        f1 >= measure(s) + 1,
        f2 >= measure(s) + 1,
    ensures
        skip_to_boundary(s, f1) == skip_to_boundary(s, f2),
        ends_at_eof(skip_to_boundary(s, f1).rest),
        measure(skip_to_boundary(s, f1)) <= measure(s),
    decreases f1,
{
    if !(s.current.kind == TokenKind::Eof || s.previous.kind == TokenKind::Semicolon
        || starts_statement(s.current.kind)) {
        lemma_advance_measure(s);
        lemma_skip_to_boundary_fuel(advance(s), (f1 - 1) as nat, (f2 - 1) as nat);
    }
}

proof fn lemma_declaration_fuel(s: ParseState, f1: nat, f2: nat)
    requires
        ends_at_eof(s.rest),
        enough(s, f1, 11),
        enough(s, f2, 11),
    ensures
        declaration(s, f1) == declaration(s, f2),
        ends_at_eof(declaration(s, f1).rest),
        measure(declaration(s, f1)) <= measure(s),
        s.current.kind != TokenKind::Eof ==> measure(declaration(s, f1)) < measure(s),
{
    reveal(declaration);
    lemma_advance_measure(s);
    if s.current.kind == TokenKind::Var {
        lemma_var_declaration_fuel(advance(s), f1, f2);
    } else {
        lemma_statement_fuel(s, f1, f2);
    }
    let s1 = if s.current.kind == TokenKind::Var {
        var_declaration(advance(s), f1)
    } else {
        statement(s, f1)
    };
    lemma_skip_to_boundary_fuel(ParseState { panic_mode: false, ..s1 }, f1, f2);
}

proof fn lemma_program_fuel(s: ParseState, f1: nat, f2: nat)
    requires
        ends_at_eof(s.rest),
        enough(s, f1, 12),
        enough(s, f2, 12),
    ensures
        program(s, f1) == program(s, f2),
    decreases f1,
{
    if s.current.kind != TokenKind::Eof {
        lemma_declaration_fuel(s, (f1 - 1) as nat, (f2 - 1) as nat);
        lemma_program_fuel(
            declaration(s, (f1 - 1) as nat),
            (f1 - 1) as nat,
            (f2 - 1) as nat,
        );
    }
}

/// The fuel of `compilation` is only a bound on recursion: compiling
/// with any more gives the same chunk and diagnostics.
pub proof fn lemma_fuel_suffices(source: Seq<char>, fuel: nat)
    requires
        fuel >= fuel_for(source),
    ensures
        compilation_with(source, fuel) == compilation(source),
{
    crate::scanner::lemma_lex_step(source, 0, 1);
    lemma_advance_measure(start_state(source));
    lemma_program_fuel(advance(start_state(source)), fuel, fuel_for(source));
}

/// Errors do not cascade: while the parser is recovering from a syntax
/// error, a further one adds no diagnostic; otherwise it adds exactly
/// one and recovery begins.
pub proof fn lemma_errors_do_not_cascade(s: ParseState, t: TokenModel, message: Seq<char>)
    ensures
        s.panic_mode ==> report(s, t, message) == s,
        !s.panic_mode ==> report(s, t, message).diagnostics == s.diagnostics.push(
            Report { line: t.line, place: place_of(t), message },
        ),
        report(s, t, message).panic_mode,
        report(s, t, message).rest == s.rest,
        report(s, t, message).chunk == s.chunk,
{
}

/// Recovery resumes at a statement boundary: once it is done, the input
/// is at its end, just past a `;`, or at a token that starts a
/// declaration or statement.
pub proof fn lemma_synchronize_reaches_boundary(s: ParseState, fuel: nat)
    requires
        ends_at_eof(s.rest),
        fuel >= measure(s) + 1,
    ensures
        ({
            let r = synchronize(s, fuel);
            r.current.kind == TokenKind::Eof || r.previous.kind == TokenKind::Semicolon
                || starts_statement(r.current.kind)
        }),
{
    lemma_skip_reaches_boundary(ParseState { panic_mode: false, ..s }, fuel);
}

proof fn lemma_skip_reaches_boundary(s: ParseState, fuel: nat)
    requires
        ends_at_eof(s.rest),
        fuel >= measure(s) + 1,
    ensures
        ({
            let r = skip_to_boundary(s, fuel);
            r.current.kind == TokenKind::Eof || r.previous.kind == TokenKind::Semicolon
                || starts_statement(r.current.kind)
        }),
    decreases fuel,
{
    if !(s.current.kind == TokenKind::Eof || s.previous.kind == TokenKind::Semicolon
        || starts_statement(s.current.kind)) {
        lemma_advance_measure(s);
        lemma_skip_reaches_boundary(advance(s), (fuel - 1) as nat);
    }
}

} // verus!
