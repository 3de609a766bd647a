use vstd::prelude::*;

use crate::chunk::{Chunk, OpCode};
use crate::grammar::{
    advance, compilation, consume, declaration, emit, emit_constant, ends_at_eof, enough, expression,
    fuel_for, grouping, infix, infix_loop, lemma_advance_measure, match_token, measure, no_token,
    parse_precedence, prefix, recurses, print_statement, expression_statement,
    program, pull, pull_valid, report, rule_of, start_state, statement,
    skip_to_boundary, synchronize, unary, binary, var_declaration, number, literal, string,
    variable, FunctionRepr, ParseRule, ParseState, Place, Precedence, Report,
};
use crate::scanner::{lemma_lex_step, lex_from, Scanner, Token, TokenKind};
use crate::value::{Constant, Line};

verus! {

/// Where a diagnostic points: the end of input, a token's text, or
/// nowhere (for an error the scanner reported).
#[derive(Debug, Clone, Copy)]
pub enum Location<'src> {
    AtEnd,
    At(&'src str),
    Unplaced,
}

/// A syntax error found while compiling.
#[derive(Debug, Clone, Copy)]
pub struct Diagnostic<'src> {
    pub line: Line,
    pub location: Location<'src>,
    pub message: &'src str,
}

impl<'src> View for Diagnostic<'src> {
    type V = Report;

    open spec fn view(&self) -> Report {
        Report {
            line: self.line,
            place: match self.location {
                Location::AtEnd => Place::AtEnd,
                Location::At(t) => Place::At(t@),
                Location::Unplaced => Place::Unplaced,
            },
            message: self.message@,
        }
    }
}

#[derive(Debug)]
struct Parser<'src> {
    current: Token<'src>,
    previous: Token<'src>,
    had_error: bool,
    panic_mode: bool,
}

impl<'src> Parser<'src> {
    fn new() -> (r: Self)
        ensures
            r.current@ == no_token(),
            r.previous@ == no_token(),
            !r.had_error,
            !r.panic_mode,
    {
        Parser { current: Token::default(), previous: Token::default(), had_error: false, panic_mode: false }
    }

    /// The parse table's entry for `kind`.
    fn rule(kind: TokenKind) -> (r: ParseRule)
        ensures
            r == rule_of(kind),
    {
        let precedence = match kind {
            TokenKind::Minus | TokenKind::Plus => Precedence::Term,
            TokenKind::Slash | TokenKind::Star => Precedence::Factor,
            TokenKind::BangEqual | TokenKind::EqualEqual => Precedence::Equality,
            TokenKind::Greater | TokenKind::GreaterEqual | TokenKind::Less | TokenKind::LessEqual => {
                Precedence::Comparison
            },
            _ => Precedence::Lowest,
        };
        let prefix = match kind {
            TokenKind::LeftParen => Some(FunctionRepr::Grouping),
            TokenKind::Minus | TokenKind::Bang => Some(FunctionRepr::Unary),
            TokenKind::Identifier => Some(FunctionRepr::Variable),
            TokenKind::String => Some(FunctionRepr::String),
            TokenKind::Number => Some(FunctionRepr::Number),
            TokenKind::False | TokenKind::Nil | TokenKind::True => Some(FunctionRepr::Literal),
            _ => None,
        };
        let infix = match precedence {
            Precedence::Lowest => None,
            _ => Some(FunctionRepr::Binary),
        };
        ParseRule { prefix, infix, precedence }
    }
}

/// A single-pass compiler: drives the scanner and emits bytecode as each
/// production is recognised.
#[derive(Debug)]
pub struct Compiler<'src> {
    source: &'src str,
    parser: Parser<'src>,
    scanner: Scanner<'src>,
    chunk: Chunk<'src>,
    diagnostics: Vec<Diagnostic<'src>>,
}

impl<'src> View for Compiler<'src> {
    type V = ParseState;

    closed spec fn view(&self) -> ParseState {
        ParseState {
            current: self.parser.current@,
            previous: self.parser.previous@,
            rest: lex_from(self.scanner@.source, self.scanner@.current, self.scanner@.line),
            had_error: self.parser.had_error,
            panic_mode: self.parser.panic_mode,
            chunk: self.chunk@,
            diagnostics: self.diagnostics@.map_values(|d: Diagnostic<'src>| d@),
        }
    }
}

impl<'src> Compiler<'src> {
    pub closed spec fn wf(&self) -> bool {
        &&& self.scanner.wf()
        &&& ends_at_eof(self@.rest)
    }

    pub fn new() -> (r: Self)
        ensures
            r.wf(),
    {
        let source = "";
        let parser = Parser::new();
        let scanner = Scanner::new();
        let chunk = Chunk::new();
        let r = Compiler { source, parser, scanner, chunk, diagnostics: Vec::new() };
        proof {
            lemma_lex_step(r.scanner@.source, 0, 1);
        }
        r
    }

    /// The syntax errors of the last compilation, in order.
    pub fn diagnostics(&self) -> (r: &Vec<Diagnostic<'src>>)
        ensures
            r@.map_values(|d: Diagnostic<'src>| d@) == self@.diagnostics,
    {
        &self.diagnostics
    }

    /// Whether the last compilation reported an error.
    pub fn had_error(&self) -> (r: bool)
        ensures
            r == self@.had_error,
    {
        self.parser.had_error
    }

    /// Compiles `source` into a chunk: always a chunk, even where errors
    /// were reported; those are left in `diagnostics`.
    pub fn compile(&mut self, source: &'src str) -> (r: Chunk<'src>)
        ensures
            final(self).wf(),
            r@ == compilation(source@).chunk,
            final(self)@.diagnostics == compilation(source@).diagnostics,
            final(self)@.had_error == compilation(source@).had_error,
    {
        self.begin(source);
        proof {
            lemma_advance_measure(start_state(source@));
        }
        self.advance();
        self.program(Ghost(fuel_for(source@)));
        self.consume(TokenKind::Eof, "Expect end of expression");
        self.emit_return();
        let mut chunk = Chunk::new();
        std::mem::swap(&mut chunk, &mut self.chunk);
        chunk
    }

    /// Resets every part of the compiler to the start of `source`.
    fn begin(&mut self, source: &'src str)
        ensures
            final(self).wf(),
            final(self)@ == start_state(source@),
    {
        self.source = source;
        self.parser = Parser::new();
        self.scanner.update_source(self.source);
        self.chunk = Chunk::new();
        self.diagnostics = Vec::new();
        proof {
            lemma_lex_step(source@, 0, 1);
            assert(self.diagnostics@.map_values(|d: Diagnostic<'src>| d@) =~= Seq::<Report>::empty());
        }
    }

    /// Declarations until the end of input.
    fn program(&mut self, Ghost(fuel): Ghost<nat>)
        requires
            old(self).wf(),
            enough(old(self)@, fuel, 12),
        ensures
            final(self).wf(),
            final(self)@ == program(old(self)@, fuel),
    {
        let ghost s1 = self@;
        let ghost mut g: nat = fuel;
        loop
            invariant_except_break
                enough(self@, g, 12),
                program(self@, g) == program(s1, fuel),
            invariant
                self.wf(),
            ensures
                self.wf(),
                self@ == program(s1, fuel),
            decreases g,
        {
            if self.match_token(TokenKind::Eof) {
                break;
            }
            self.declaration(Ghost((g - 1) as nat));
            proof {
                g = (g - 1) as nat;
            }
        }
    }

    /// Moves to the next token, reporting and passing over error tokens.
    fn advance(&mut self)
        requires
            old(self).wf(),
        ensures
            final(self).wf(),
            final(self)@ == advance(old(self)@),
    {
        let ghost target = ParseState { previous: self@.current, ..self@ };
        self.parser.previous = self.parser.current;
        assert(self@ == target);
        loop
            invariant_except_break
                pull_valid(self@) == pull_valid(target),
            invariant
                self.wf(),
            ensures
                self.wf(),
                self@ == pull_valid(target),
            decreases self@.rest.len(),
        {
            let ghost before = self@;
            proof {
                self.scanner.lemma_cursor_in_bounds();
                lemma_lex_step(self.scanner@.source, self.scanner@.current, self.scanner@.line);
            }
            self.parser.current = self.scanner.scan_token();
            proof {
                self.scanner.lemma_cursor_in_bounds();
                lemma_lex_step(self.scanner@.source, self.scanner@.current, self.scanner@.line);
                assert(self@ == pull(before));
            }
            if self.parser.current.kind != TokenKind::Error {
                break;
            }
            let t = self.parser.current;
            self.error_at(t, t.lexeme);
        }
    }

    /// Records a syntax error at `token`, unless one is already being
    /// recovered from.
    fn error_at(&mut self, token: Token<'src>, message: &'src str)
        requires
            old(self).wf(),
        ensures
            final(self).wf(),
            final(self)@ == report(old(self)@, token@, message@),
    {
        if self.parser.panic_mode {
            return;
        }
        self.parser.panic_mode = true;
        self.parser.had_error = true;
        let location = if token.kind == TokenKind::Eof {
            Location::AtEnd
        } else if token.kind == TokenKind::Error {
            Location::Unplaced
        } else {
            Location::At(token.lexeme)
        };
        let ghost old_diags = self.diagnostics@;
        let d = Diagnostic { line: token.line, location, message };
        self.diagnostics.push(d);
        proof {
            assert(self.diagnostics@.map_values(|d: Diagnostic<'src>| d@) =~= old_diags.map_values(
                |d: Diagnostic<'src>| d@,
            ).push(d@));
        }
    }

    fn consume(&mut self, kind: TokenKind, message: &'src str)
        requires
            old(self).wf(),
        ensures
            final(self).wf(),
            final(self)@ == consume(old(self)@, kind, message@),
            measure(final(self)@) <= measure(old(self)@),
    {
        proof {
            lemma_advance_measure(self@);
        }
        if self.parser.current.kind == kind {
            self.advance();
            return;
        }
        let t = self.parser.current;
        self.error_at(t, message);
    }

    fn match_token(&mut self, kind: TokenKind) -> (r: bool)
        requires
            old(self).wf(),
        ensures
            final(self).wf(),
            r == (old(self)@.current.kind == kind),
            final(self)@ == match_token(old(self)@, kind),
            measure(final(self)@) <= measure(old(self)@),
            r && kind != TokenKind::Eof ==> measure(final(self)@) < measure(old(self)@),
    {
        proof {
            lemma_advance_measure(self@);
        }
        if self.parser.current.kind != kind {
            return false;
        }
        self.advance();
        true
    }

    fn emit_byte(&mut self, op: OpCode)
        requires
            old(self).wf(),
        ensures
            final(self).wf(),
            final(self)@ == emit(old(self)@, op),
    {
        self.chunk.write(op, self.parser.previous.line);
    }

    fn emit_bytes(&mut self, op1: OpCode, op2: OpCode)
        requires
            old(self).wf(),
        ensures
            final(self).wf(),
            final(self)@ == emit(emit(old(self)@, op1), op2),
    {
        self.chunk.write(op1, self.parser.previous.line);
        self.chunk.write(op2, self.parser.previous.line);
    }

    fn emit_return(&mut self)
        requires
            old(self).wf(),
        ensures
            final(self).wf(),
            final(self)@ == emit(old(self)@, OpCode::Return),
    {
        self.emit_byte(OpCode::Return);
    }

    fn emit_constant(&mut self, constant: Constant<'src>)
        requires
            old(self).wf(),
        ensures
            final(self).wf(),
            final(self)@ == emit_constant(old(self)@, constant@),
    {
        let index = self.chunk.add_constant(constant);
        self.emit_byte(OpCode::Constant(index));
    }

    /// Adds a variable's name to the pool and returns its index.
    fn identifier_constant(&mut self, name: &'src str) -> (r: usize)
        requires
            old(self).wf(),
        ensures
            final(self).wf(),
            r == old(self)@.chunk.constants.len(),
            final(self)@ == crate::grammar::add_constant(old(self)@, crate::value::Literal::Str(name@)),
    {
        self.chunk.add_constant(Constant::String(name))
    }

    fn number(&mut self)
        requires
            old(self).wf(),
        ensures
            final(self).wf(),
            final(self)@ == number(old(self)@),
    {
        let lexeme = self.parser.previous.lexeme;
        self.emit_constant(Constant::Number(lexeme));
    }

    fn literal(&mut self)
        requires
            old(self).wf(),
        ensures
            final(self).wf(),
            final(self)@ == literal(old(self)@),
    {
        match self.parser.previous.kind {
            TokenKind::False => self.emit_byte(OpCode::False),
            TokenKind::Nil => self.emit_byte(OpCode::Nil),
            TokenKind::True => self.emit_byte(OpCode::True),
            _ => {},
        }
    }

    fn string(&mut self)
        requires
            old(self).wf(),
        ensures
            final(self).wf(),
            final(self)@ == string(old(self)@),
    {
        let previous = self.parser.previous;
        let n = previous.lexeme.unicode_len();
        if previous.kind == TokenKind::String && n >= 2 {
            let text = previous.lexeme.substring_char(1, n - 1);
            self.emit_constant(Constant::String(text));
        } else {
            self.error_at(previous, "Expect string constant.");
        }
    }

    fn named_variable(&mut self, name: &'src str)
        requires
            old(self).wf(),
            name@ == old(self)@.previous.lexeme,
        ensures
            final(self).wf(),
            final(self)@ == variable(old(self)@),
    {
        let arg = self.identifier_constant(name);
        self.emit_byte(OpCode::GetGlobal(arg));
    }

    fn variable(&mut self)
        requires
            old(self).wf(),
        ensures
            final(self).wf(),
            final(self)@ == variable(old(self)@),
    {
        let name = self.parser.previous.lexeme;
        self.named_variable(name);
    }

    fn expression(&mut self, Ghost(fuel): Ghost<nat>)
        requires
            old(self).wf(),
            enough(old(self)@, fuel, 11),
        ensures
            final(self).wf(),
            final(self)@ == expression(old(self)@, fuel),
            measure(final(self)@) <= measure(old(self)@),
            old(self)@.current.kind != TokenKind::Eof ==> measure(final(self)@) < measure(
                old(self)@,
            ),
        decreases fuel, 0nat,
    {
        self.parse_precedence(Precedence::Assignment, Ghost((fuel - 1) as nat));
    }

    /// Parses an expression whose operators bind at least as tightly as
    /// `precedence`: a prefix form, then infix operators while they bind
    /// tightly enough.
    fn parse_precedence(&mut self, precedence: Precedence, Ghost(fuel): Ghost<nat>)
        requires
            old(self).wf(),
            precedence.level() >= 1,
            enough(old(self)@, fuel, 10),
        ensures
            final(self).wf(),
            final(self)@ == parse_precedence(old(self)@, precedence, fuel),
            measure(final(self)@) <= measure(old(self)@),
            old(self)@.current.kind != TokenKind::Eof ==> measure(final(self)@) < measure(
                old(self)@,
            ),
        decreases fuel, 0nat,
    {
        proof {
            lemma_advance_measure(self@);
        }
        self.advance();
        self.prefix(Ghost((fuel - 1) as nat));
        let ghost s2 = self@;
        let ghost mut g: nat = (fuel - 1) as nat;
        loop
            invariant
                self.wf(),
                precedence.level() >= 1,
                enough(self@, g, 9),
                g <= fuel - 1,
                measure(self@) <= measure(s2),
                infix_loop(self@, precedence, g) == infix_loop(s2, precedence, (fuel - 1) as nat),
            ensures
                self.wf(),
                measure(self@) <= measure(s2),
                self@ == infix_loop(s2, precedence, (fuel - 1) as nat),
            decreases g,
        {
            if precedence.rank() > Parser::rule(self.parser.current.kind).precedence.rank() {
                break;
            }
            proof {
                lemma_advance_measure(self@);
            }
            self.advance();
            self.infix(Ghost((g - 1) as nat));
            proof {
                g = (g - 1) as nat;
            }
        }
    }

    fn prefix(&mut self, Ghost(fuel): Ghost<nat>)
        requires
            old(self).wf(),
            fuel >= 1,
            recurses(old(self)@.previous.kind) ==> enough(old(self)@, fuel, 13),
        ensures
            final(self).wf(),
            final(self)@ == prefix(old(self)@, fuel),
            measure(final(self)@) <= measure(old(self)@),
        decreases fuel, 0nat,
    {
        let previous = self.parser.previous;
        match Parser::rule(previous.kind).prefix {
            Some(FunctionRepr::Grouping) => self.grouping(Ghost((fuel - 1) as nat)),
            Some(FunctionRepr::Unary) => self.unary(Ghost((fuel - 1) as nat)),
            Some(FunctionRepr::Binary) => self.binary(Ghost((fuel - 1) as nat)),
            Some(FunctionRepr::Number) => self.number(),
            Some(FunctionRepr::Literal) => self.literal(),
            Some(FunctionRepr::String) => self.string(),
            Some(FunctionRepr::Variable) => self.variable(),
            None => self.error_at(previous, "Expect prefix expression."),
        }
    }

    fn infix(&mut self, Ghost(fuel): Ghost<nat>)
        requires
            old(self).wf(),
            fuel >= 1,
            rule_of(old(self)@.previous.kind).infix == Some(FunctionRepr::Binary) ==> enough(
                old(self)@,
                fuel,
                13,
            ),
        ensures
            final(self).wf(),
            final(self)@ == infix(old(self)@, fuel),
            measure(final(self)@) <= measure(old(self)@),
        decreases fuel, 0nat,
    {
        let previous = self.parser.previous;
        match Parser::rule(previous.kind).infix {
            Some(FunctionRepr::Binary) => self.binary(Ghost((fuel - 1) as nat)),
            _ => self.error_at(previous, "Expect infix expression."),
        }
    }

    fn grouping(&mut self, Ghost(fuel): Ghost<nat>)
        requires
            old(self).wf(),
            enough(old(self)@, fuel, 12),
        ensures
            final(self).wf(),
            final(self)@ == grouping(old(self)@, fuel),
            measure(final(self)@) <= measure(old(self)@),
        decreases fuel, 0nat,
    {
        self.expression(Ghost((fuel - 1) as nat));
        self.consume(TokenKind::RightParen, "Expect ')' after expression.");
    }

    fn unary(&mut self, Ghost(fuel): Ghost<nat>)
        requires
            old(self).wf(),
            enough(old(self)@, fuel, 12),
        ensures
            final(self).wf(),
            final(self)@ == unary(old(self)@, fuel),
            measure(final(self)@) <= measure(old(self)@),
        decreases fuel, 0nat,
    {
        let operator_kind = self.parser.previous.kind;
        self.parse_precedence(Precedence::Unary, Ghost((fuel - 1) as nat));
        match operator_kind {
            TokenKind::Bang => self.emit_byte(OpCode::Not),
            TokenKind::Minus => self.emit_byte(OpCode::Negate),
            _ => {},
        }
    }

    fn binary(&mut self, Ghost(fuel): Ghost<nat>)
        requires
            old(self).wf(),
            enough(old(self)@, fuel, 12),
        ensures
            final(self).wf(),
            final(self)@ == binary(old(self)@, fuel),
            measure(final(self)@) <= measure(old(self)@),
        decreases fuel, 0nat,
    {
        let operator_kind = self.parser.previous.kind;
        let rule = Parser::rule(operator_kind);
        self.parse_precedence(rule.precedence.strengthen(), Ghost((fuel - 1) as nat));
        match operator_kind {
            TokenKind::Plus => self.emit_byte(OpCode::Add),
            TokenKind::Minus => self.emit_byte(OpCode::Subtract),
            TokenKind::Star => self.emit_byte(OpCode::Multiply),
            TokenKind::Slash => self.emit_byte(OpCode::Divide),
            TokenKind::BangEqual => self.emit_bytes(OpCode::Equal, OpCode::Not),
            TokenKind::EqualEqual => self.emit_byte(OpCode::Equal),
            TokenKind::Greater => self.emit_byte(OpCode::Greater),
            TokenKind::GreaterEqual => self.emit_bytes(OpCode::Less, OpCode::Not),
            TokenKind::Less => self.emit_byte(OpCode::Less),
            TokenKind::LessEqual => self.emit_bytes(OpCode::Greater, OpCode::Not),
            _ => {},
        }
    }

    fn print_statement(&mut self, Ghost(fuel): Ghost<nat>)
        requires
            old(self).wf(),
            enough(old(self)@, fuel, 11),
        ensures
            final(self).wf(),
            final(self)@ == print_statement(old(self)@, fuel),
            measure(final(self)@) <= measure(old(self)@),
    {
        self.expression(Ghost(fuel));
        self.consume(TokenKind::Semicolon, "Expect ; after value.");
        self.emit_byte(OpCode::Print);
    }

    fn expression_statement(&mut self, Ghost(fuel): Ghost<nat>)
        requires
            old(self).wf(),
            enough(old(self)@, fuel, 11),
        ensures
            final(self).wf(),
            final(self)@ == expression_statement(old(self)@, fuel),
            measure(final(self)@) <= measure(old(self)@),
            old(self)@.current.kind != TokenKind::Eof ==> measure(final(self)@) < measure(
                old(self)@,
            ),
    {
        self.expression(Ghost(fuel));
        self.consume(TokenKind::Semicolon, "Expect ; after expression.");
        self.emit_byte(OpCode::Pop);
    }

    fn statement(&mut self, Ghost(fuel): Ghost<nat>)
        requires
            old(self).wf(),
            enough(old(self)@, fuel, 11),
        ensures
            final(self).wf(),
            final(self)@ == statement(old(self)@, fuel),
            measure(final(self)@) <= measure(old(self)@),
            old(self)@.current.kind != TokenKind::Eof ==> measure(final(self)@) < measure(
                old(self)@,
            ),
    {
        if self.match_token(TokenKind::Print) {
            self.print_statement(Ghost(fuel));
        } else {
            self.expression_statement(Ghost(fuel));
        }
    }

    /// Parses a variable name and adds it to the pool.
    fn parse_variable(&mut self, err_msg: &'src str) -> (r: usize)
        requires
            old(self).wf(),
        ensures
            final(self).wf(),
            r == consume(old(self)@, TokenKind::Identifier, err_msg@).chunk.constants.len(),
            final(self)@ == crate::grammar::add_constant(
                consume(old(self)@, TokenKind::Identifier, err_msg@),
                crate::value::Literal::Str(
                    consume(old(self)@, TokenKind::Identifier, err_msg@).previous.lexeme,
                ),
            ),
            measure(final(self)@) <= measure(old(self)@),
    {
        self.consume(TokenKind::Identifier, err_msg);
        let name = self.parser.previous.lexeme;
        self.identifier_constant(name)
    }

    fn define_variable(&mut self, global: usize)
        requires
            old(self).wf(),
        ensures
            final(self).wf(),
            final(self)@ == emit(old(self)@, OpCode::DefineGlobal(global)),
    {
        self.emit_byte(OpCode::DefineGlobal(global));
    }

    fn var_declaration(&mut self, Ghost(fuel): Ghost<nat>)
        requires
            old(self).wf(),
            enough(old(self)@, fuel, 11),
        ensures
            final(self).wf(),
            final(self)@ == var_declaration(old(self)@, fuel),
            measure(final(self)@) <= measure(old(self)@),
    {
        let global = self.parse_variable("Expect variable name.");
        if self.match_token(TokenKind::Equal) {
            self.expression(Ghost(fuel));
        } else {
            self.emit_byte(OpCode::Nil);
        }
        self.consume(TokenKind::Semicolon, "Expect ';' after variable declaration.");
        self.define_variable(global);
    }

    /// Leaves panic mode and skips to the next statement boundary.
    fn synchronize(&mut self, Ghost(fuel): Ghost<nat>)
        requires
            old(self).wf(),
            fuel >= measure(old(self)@) + 1,
        ensures
            final(self).wf(),
            final(self)@ == synchronize(old(self)@, fuel),
            measure(final(self)@) <= measure(old(self)@),
    {
        self.parser.panic_mode = false;
        let ghost s0 = self@;
        let ghost mut g: nat = fuel;
        loop
            invariant
                self.wf(),
                g >= measure(self@) + 1,
                measure(self@) <= measure(s0),
                skip_to_boundary(self@, g) == skip_to_boundary(s0, fuel),
            ensures
                self.wf(),
                measure(self@) <= measure(s0),
                self@ == skip_to_boundary(s0, fuel),
            decreases g,
        {
            if self.parser.current.kind == TokenKind::Eof {
                break;
            }
            if self.parser.previous.kind == TokenKind::Semicolon {
                break;
            }
            match self.parser.current.kind {
                TokenKind::Class
                | TokenKind::Fun
                | TokenKind::Var
                | TokenKind::For
                | TokenKind::If
                | TokenKind::While
                | TokenKind::Return => break,
                _ => {},
            }
            proof {
                lemma_advance_measure(self@);
            }
            self.advance();
            proof {
                g = (g - 1) as nat;
            }
        }
    }

    fn declaration(&mut self, Ghost(fuel): Ghost<nat>)
        requires
            old(self).wf(),
            enough(old(self)@, fuel, 11),
        ensures
            final(self).wf(),
            final(self)@ == declaration(old(self)@, fuel),
            measure(final(self)@) <= measure(old(self)@),
            old(self)@.current.kind != TokenKind::Eof ==> measure(final(self)@) < measure(
                old(self)@,
            ),
    {
        proof {
            reveal(declaration);
        }
        if self.match_token(TokenKind::Var) {
            self.var_declaration(Ghost(fuel));
        } else {
            self.statement(Ghost(fuel));
        }
        if self.parser.panic_mode {
            self.synchronize(Ghost(fuel));
        }
    }
}

} // verus!
