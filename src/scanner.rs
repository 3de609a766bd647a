use vstd::prelude::*;

use crate::value::{following_line, next_line, Line, MAX_LINE};

verus! {

#[derive(Debug, Clone, Copy, PartialEq, Eq, Structural)]
pub enum TokenKind {
    // Single-character tokens.
    LeftParen,
    RightParen,
    LeftBrace,
    RightBrace,
    Comma,
    Dot,
    Minus,
    Plus,
    Semicolon,
    Slash,
    Star,
    // One or two character tokens.
    Bang,
    BangEqual,
    Equal,
    EqualEqual,
    Greater,
    GreaterEqual,
    Less,
    LessEqual,
    // Literals.
    Identifier,
    String,
    Number,
    // Keywords.
    And,
    Class,
    Else,
    False,
    For,
    Fun,
    If,
    Nil,
    Or,
    Print,
    Return,
    Super,
    This,
    True,
    Var,
    While,
    Error,
    Eof,
}

/// A token: its kind, its text (for an `Error` token, the message), and
/// the line it ends on.
#[derive(Debug, Clone, Copy)]
pub struct Token<'src> {
    pub kind: TokenKind,
    pub lexeme: &'src str,
    pub line: Line,
}

/// The model of a token.
pub struct TokenModel {
    pub kind: TokenKind,
    pub lexeme: Seq<char>,
    pub line: Line,
}

impl<'src> View for Token<'src> {
    type V = TokenModel;

    open spec fn view(&self) -> TokenModel {
        TokenModel { kind: self.kind, lexeme: self.lexeme@, line: self.line }
    }
}

impl<'src> Token<'src> {
    pub fn new(token_type: TokenKind, lexeme: &'src str, line: Line) -> (r: Self)
        ensures
            r.kind == token_type,
            r.lexeme == lexeme,
            r.line == line,
    {
        Token { kind: token_type, lexeme, line }
    }
}

impl<'src> Default for Token<'src> {
    /// An end-of-input token on line 0, standing for "no token yet".
    fn default() -> (r: Self)
        ensures
            r.kind == TokenKind::Eof,
            r.lexeme@ == Seq::<char>::empty(),
            r.line == 0,
    {
        let empty = "";
        proof {
            reveal_strlit("");
        }
        Token { kind: TokenKind::Eof, lexeme: empty, line: 0 }
    }
}

// ----- What the scanner reads -----

pub open spec fn is_blank(c: char) -> bool {
    c == ' ' || c == '\t' || c == '\r'
}

pub open spec fn is_digit(c: char) -> bool {
    '0' <= c && c <= '9'
}

pub open spec fn is_alpha(c: char) -> bool {
    ('a' <= c && c <= 'z') || ('A' <= c && c <= 'Z') || c == '_'
}

/// The end of the run of digits and dots that starts at `i`.
pub open spec fn number_end(s: Seq<char>, i: int) -> int
    decreases s.len() - i,
{
    if 0 <= i < s.len() && (is_digit(s[i]) || s[i] == '.') {
        number_end(s, i + 1)
    } else {
        i
    }
}

/// The end of the run of letters, digits and underscores that starts at `i`.
pub open spec fn identifier_end(s: Seq<char>, i: int) -> int
    decreases s.len() - i,
{
    if 0 <= i < s.len() && (is_alpha(s[i]) || is_digit(s[i])) {
        identifier_end(s, i + 1)
    } else {
        i
    }
}

/// The first newline at or after `i`, or the end of input.
pub open spec fn line_end(s: Seq<char>, i: int) -> int
    decreases s.len() - i,
{
    if 0 <= i < s.len() && s[i] != '\n' {
        line_end(s, i + 1)
    } else {
        i
    }
}

/// The first `"` at or after `i`, or the end of input.
pub open spec fn quote_end(s: Seq<char>, i: int) -> int
    decreases s.len() - i,
{
    if 0 <= i < s.len() && s[i] != '"' {
        quote_end(s, i + 1)
    } else {
        i
    }
}

/// The number of newlines in `s[a..b]`.
pub open spec fn newlines(s: Seq<char>, a: int, b: int) -> nat
    decreases b - a,
{
    if b <= a {
        0
    } else {
        newlines(s, a, b - 1) + if s[b - 1] == '\n' {
            1nat
        } else {
            0nat
        }
    }
}

/// `line` moved on by `n` lines, saturating at the largest line number.
pub open spec fn lines_after(line: Line, n: nat) -> Line {
    if line + n < MAX_LINE {
        (line + n) as Line
    } else {
        MAX_LINE
    }
}

pub proof fn lemma_run_ends(s: Seq<char>, i: int)
    requires
        0 <= i <= s.len(),
    ensures
        i <= number_end(s, i) <= s.len(),
        i <= identifier_end(s, i) <= s.len(),
        i <= line_end(s, i) <= s.len(),
        i <= quote_end(s, i) <= s.len(),
    decreases s.len() - i,
{
    if i < s.len() {
        lemma_run_ends(s, i + 1);
    }
}

/// Where the next token starts, and the line there: blanks, newlines and
/// `//` comments (through their newline) are passed over.
pub open spec fn skip(s: Seq<char>, i: int, line: Line) -> (int, Line)
    decreases s.len() - i,
{
    if i < 0 || i >= s.len() {
        (i, line)
    } else if is_blank(s[i]) {
        skip(s, i + 1, line)
    } else if s[i] == '\n' {
        skip(s, i + 1, next_line(line))
    } else if s[i] == '/' && i + 1 < s.len() && s[i + 1] == '/' {
        let e = line_end(s, i + 2);
        proof {
            lemma_run_ends(s, i + 2);
        }
        if e < s.len() {
            skip(s, e + 1, next_line(line))
        } else {
            (e, line)
        }
    } else {
        (i, line)
    }
}

pub proof fn lemma_skip_bounds(s: Seq<char>, i: int, line: Line)
    requires
        0 <= i <= s.len(),
    ensures
        i <= skip(s, i, line).0 <= s.len(),
    decreases s.len() - i,
{
    if i < s.len() {
        if is_blank(s[i]) || s[i] == '\n' {
            lemma_skip_bounds(s, i + 1, next_line(line));
            lemma_skip_bounds(s, i + 1, line);
        } else if s[i] == '/' && i + 1 < s.len() && s[i + 1] == '/' {
            lemma_run_ends(s, i + 2);
            let e = line_end(s, i + 2);
            if e < s.len() {
                lemma_skip_bounds(s, e + 1, next_line(line));
            }
        }
    }
}

/// The kind of a one-character token.
pub open spec fn punctuation_kind(c: char) -> Option<TokenKind> {
    if c == '(' {
        Some(TokenKind::LeftParen)
    } else if c == ')' {
        Some(TokenKind::RightParen)
    } else if c == '{' {
        Some(TokenKind::LeftBrace)
    } else if c == '}' {
        Some(TokenKind::RightBrace)
    } else if c == ';' {
        Some(TokenKind::Semicolon)
    } else if c == ',' {
        Some(TokenKind::Comma)
    } else if c == '.' {
        Some(TokenKind::Dot)
    } else if c == '-' {
        Some(TokenKind::Minus)
    } else if c == '+' {
        Some(TokenKind::Plus)
    } else if c == '/' {
        Some(TokenKind::Slash)
    } else if c == '*' {
        Some(TokenKind::Star)
    } else {
        None
    }
}

/// The kind of an operator that may take a following `=`: the
/// two-character form where `=` follows, else the one-character form.
pub open spec fn operator_kind(c: char, then_equal: bool) -> Option<TokenKind> {
    if c == '!' {
        Some(if then_equal { TokenKind::BangEqual } else { TokenKind::Bang })
    } else if c == '=' {
        Some(if then_equal { TokenKind::EqualEqual } else { TokenKind::Equal })
    } else if c == '<' {
        Some(if then_equal { TokenKind::LessEqual } else { TokenKind::Less })
    } else if c == '>' {
        Some(if then_equal { TokenKind::GreaterEqual } else { TokenKind::Greater })
    } else {
        None
    }
}

/// The kind of an identifier-shaped word: its keyword, or `Identifier`.
pub open spec fn keyword_kind(w: Seq<char>) -> TokenKind {
    if w == seq!['a', 'n', 'd'] {
        TokenKind::And
    } else if w == seq!['c', 'l', 'a', 's', 's'] {
        TokenKind::Class
    } else if w == seq!['e', 'l', 's', 'e'] {
        TokenKind::Else
    } else if w == seq!['f', 'a', 'l', 's', 'e'] {
        TokenKind::False
    } else if w == seq!['f', 'o', 'r'] {
        TokenKind::For
    } else if w == seq!['f', 'u', 'n'] {
        TokenKind::Fun
    } else if w == seq!['i', 'f'] {
        TokenKind::If
    } else if w == seq!['n', 'i', 'l'] {
        TokenKind::Nil
    } else if w == seq!['o', 'r'] {
        TokenKind::Or
    } else if w == seq!['p', 'r', 'i', 'n', 't'] {
        TokenKind::Print
    } else if w == seq!['r', 'e', 't', 'u', 'r', 'n'] {
        TokenKind::Return
    } else if w == seq!['s', 'u', 'p', 'e', 'r'] {
        TokenKind::Super
    } else if w == seq!['t', 'h', 'i', 's'] {
        TokenKind::This
    } else if w == seq!['t', 'r', 'u', 'e'] {
        TokenKind::True
    } else if w == seq!['v', 'a', 'r'] {
        TokenKind::Var
    } else if w == seq!['w', 'h', 'i', 'l', 'e'] {
        TokenKind::While
    } else {
        TokenKind::Identifier
    }
}

/// One scan: the token, where scanning goes on, and the line there.
pub struct Scan {
    pub token: TokenModel,
    pub end: int,
    pub line: Line,
}

pub open spec fn lexeme_scan(s: Seq<char>, kind: TokenKind, start: int, end: int, line: Line) -> Scan {
    Scan { token: TokenModel { kind, lexeme: s.subrange(start, end), line }, end, line }
}

pub open spec fn message_scan(message: Seq<char>, end: int, line: Line) -> Scan {
    Scan { token: TokenModel { kind: TokenKind::Error, lexeme: message, line }, end, line }
}

/// The token that scanning `s` from `i` on line `line` yields.
pub open spec fn next_token(s: Seq<char>, i: int, line: Line) -> Scan {
    let (p, ln) = skip(s, i, line);
    if p >= s.len() {
        Scan { token: TokenModel { kind: TokenKind::Eof, lexeme: Seq::empty(), line: ln }, end: p, line: ln }
    } else {
        let c = s[p];
        if punctuation_kind(c) is Some {
            lexeme_scan(s, punctuation_kind(c)->0, p, p + 1, ln)
        } else if operator_kind(c, false) is Some {
            let then_equal = p + 1 < s.len() && s[p + 1] == '=';
            lexeme_scan(s, operator_kind(c, then_equal)->0, p, if then_equal { p + 2 } else { p + 1 }, ln)
        } else if c == '"' {
            let q = quote_end(s, p + 1);
            if q < s.len() {
                lexeme_scan(s, TokenKind::String, p, q + 1, lines_after(ln, newlines(s, p + 1, q)))
            } else {
                message_scan("Unterminated string"@, q, lines_after(ln, newlines(s, p + 1, q)))
            }
        } else if is_digit(c) {
            lexeme_scan(s, TokenKind::Number, p, number_end(s, p + 1), ln)
        } else if is_alpha(c) {
            let e = identifier_end(s, p + 1);
            lexeme_scan(s, keyword_kind(s.subrange(p, e)), p, e, ln)
        } else {
            message_scan("Invalid syntax"@, p + 1, ln)
        }
    }
}

/// Every token but `Eof` consumes input, and scanning never runs past
/// the end; `Eof` leaves the cursor at the end.
pub proof fn lemma_next_token_bounds(s: Seq<char>, i: int, line: Line)
    requires
        0 <= i <= s.len(),
    ensures
        i <= next_token(s, i, line).end <= s.len(),
        next_token(s, i, line).token.kind != TokenKind::Eof ==> i < next_token(s, i, line).end,
        next_token(s, i, line).token.kind == TokenKind::Eof ==> next_token(s, i, line).end
            == s.len(),
{
    lemma_skip_bounds(s, i, line);
    let p = skip(s, i, line).0;
    if p < s.len() {
        lemma_run_ends(s, p + 1);
    }
}

/// Every token from position `i` on, through the first `Eof`.
pub open spec fn lex_from(s: Seq<char>, i: int, line: Line) -> Seq<TokenModel>
    decreases s.len() - i,
{
    let st = next_token(s, i, line);
    if i < 0 || i > s.len() || st.token.kind == TokenKind::Eof {
        seq![st.token]
    } else {
        proof {
            lemma_next_token_bounds(s, i, line);
        }
        seq![st.token] + lex_from(s, st.end, st.line)
    }
}

/// Scanning one token moves through `lex_from`: the token is its first
/// element, and the tokens after it are those from where scanning
/// stopped (the end of input repeats). The sequence ends with `Eof`.
pub proof fn lemma_lex_step(s: Seq<char>, i: int, line: Line)
    requires
        0 <= i <= s.len(),
    ensures
        lex_from(s, i, line).len() > 0,
        lex_from(s, i, line)[0] == next_token(s, i, line).token,
        lex_from(s, i, line).last().kind == TokenKind::Eof,
        next_token(s, i, line).token.kind != TokenKind::Eof ==> lex_from(
            s,
            next_token(s, i, line).end,
            next_token(s, i, line).line,
        ) == lex_from(s, i, line).drop_first(),
        next_token(s, i, line).token.kind == TokenKind::Eof ==> lex_from(
            s,
            next_token(s, i, line).end,
            next_token(s, i, line).line,
        ) == lex_from(s, i, line),
    decreases s.len() - i,
{
    lemma_next_token_bounds(s, i, line);
    let st = next_token(s, i, line);
    if st.token.kind != TokenKind::Eof {
        lemma_lex_step(s, st.end, st.line);
        let tail = lex_from(s, st.end, st.line);
        assert((seq![st.token] + tail).drop_first() =~= tail);
    } else {
        let e = next_token(s, st.end, st.line);
        assert(e.token == st.token);
    }
}

/// The tokens of a whole source text, through `Eof`.
pub open spec fn lex(s: Seq<char>) -> Seq<TokenModel> {
    lex_from(s, 0, 1)
}

fn continues_number(c: char) -> (r: bool)
    ensures
        r == (is_digit(c) || c == '.'),
{
    ('0' <= c && c <= '9') || c == '.'
}

fn continues_identifier(c: char) -> (r: bool)
    ensures
        r == (is_alpha(c) || is_digit(c)),
{
    ('a' <= c && c <= 'z') || ('A' <= c && c <= 'Z') || c == '_' || ('0' <= c && c <= '9')
}

/// A word that starts with `c` spells `seq![c] + t` exactly when the
/// rest of it is `t`.
proof fn lemma_head_tail(w: Seq<char>, c: char, t: Seq<char>, kw: Seq<char>)
    requires
        w.len() >= 1,
        w[0] == c,
        kw =~= seq![c] + t,
    ensures
        (w == kw) <==> (w.drop_first() == t),
{
    if w.drop_first() == t {
        assert(w =~= kw);
    }
    if w == kw {
        assert(w.drop_first() =~= t);
    }
}

/// Keywords are recognised by their first character (and, after `f` and
/// `t`, their second), then by the rest of the word.
proof fn lemma_keyword_dispatch(w: Seq<char>)
    requires
        w.len() >= 1,
    ensures
        w[0] == 'a' ==> keyword_kind(w) == if w.drop_first() == seq!['n', 'd'] {
            TokenKind::And
        } else {
            TokenKind::Identifier
        },
        w[0] == 'c' ==> keyword_kind(w) == if w.drop_first() == seq!['l', 'a', 's', 's'] {
            TokenKind::Class
        } else {
            TokenKind::Identifier
        },
        w[0] == 'e' ==> keyword_kind(w) == if w.drop_first() == seq!['l', 's', 'e'] {
            TokenKind::Else
        } else {
            TokenKind::Identifier
        },
        w[0] == 'i' ==> keyword_kind(w) == if w.drop_first() == seq!['f'] {
            TokenKind::If
        } else {
            TokenKind::Identifier
        },
        w[0] == 'n' ==> keyword_kind(w) == if w.drop_first() == seq!['i', 'l'] {
            TokenKind::Nil
        } else {
            TokenKind::Identifier
        },
        w[0] == 'o' ==> keyword_kind(w) == if w.drop_first() == seq!['r'] {
            TokenKind::Or
        } else {
            TokenKind::Identifier
        },
        w[0] == 'p' ==> keyword_kind(w) == if w.drop_first() == seq!['r', 'i', 'n', 't'] {
            TokenKind::Print
        } else {
            TokenKind::Identifier
        },
        w[0] == 'r' ==> keyword_kind(w) == if w.drop_first() == seq!['e', 't', 'u', 'r', 'n'] {
            TokenKind::Return
        } else {
            TokenKind::Identifier
        },
        w[0] == 's' ==> keyword_kind(w) == if w.drop_first() == seq!['u', 'p', 'e', 'r'] {
            TokenKind::Super
        } else {
            TokenKind::Identifier
        },
        w[0] == 'v' ==> keyword_kind(w) == if w.drop_first() == seq!['a', 'r'] {
            TokenKind::Var
        } else {
            TokenKind::Identifier
        },
        w[0] == 'w' ==> keyword_kind(w) == if w.drop_first() == seq!['h', 'i', 'l', 'e'] {
            TokenKind::While
        } else {
            TokenKind::Identifier
        },
        w[0] == 'f' ==> keyword_kind(w) == if w.len() >= 2 && w[1] == 'a' {
            if w.drop_first() == seq!['a', 'l', 's', 'e'] {
                TokenKind::False
            } else {
                TokenKind::Identifier
            }
        } else if w.len() >= 2 && w[1] == 'o' {
            if w.drop_first() == seq!['o', 'r'] {
                TokenKind::For
            } else {
                TokenKind::Identifier
            }
        } else if w.len() >= 2 && w[1] == 'u' {
            if w.drop_first() == seq!['u', 'n'] {
                TokenKind::Fun
            } else {
                TokenKind::Identifier
            }
        } else {
            TokenKind::Identifier
        },
        w[0] == 't' ==> keyword_kind(w) == if w.len() >= 2 && w[1] == 'h' {
            if w.drop_first() == seq!['h', 'i', 's'] {
                TokenKind::This
            } else {
                TokenKind::Identifier
            }
        } else if w.len() >= 2 && w[1] == 'r' {
            if w.drop_first() == seq!['r', 'u', 'e'] {
                TokenKind::True
            } else {
                TokenKind::Identifier
            }
        } else {
            TokenKind::Identifier
        },
        !(w[0] == 'a' || w[0] == 'c' || w[0] == 'e' || w[0] == 'i' || w[0] == 'n' || w[0] == 'o'
            || w[0] == 'p' || w[0] == 'r' || w[0] == 's' || w[0] == 'v' || w[0] == 'w' || w[0]
            == 'f' || w[0] == 't') ==> keyword_kind(w) == TokenKind::Identifier,
{
    let c = w[0];
    if c == 'a' {
        lemma_head_tail(w, c, seq!['n', 'd'], seq!['a', 'n', 'd']);
    } else if c == 'c' {
        lemma_head_tail(w, c, seq!['l', 'a', 's', 's'], seq!['c', 'l', 'a', 's', 's']);
    } else if c == 'e' {
        lemma_head_tail(w, c, seq!['l', 's', 'e'], seq!['e', 'l', 's', 'e']);
    } else if c == 'f' {
        lemma_head_tail(w, c, seq!['a', 'l', 's', 'e'], seq!['f', 'a', 'l', 's', 'e']);
        lemma_head_tail(w, c, seq!['o', 'r'], seq!['f', 'o', 'r']);
        lemma_head_tail(w, c, seq!['u', 'n'], seq!['f', 'u', 'n']);
    } else if c == 'i' {
        lemma_head_tail(w, c, seq!['f'], seq!['i', 'f']);
    } else if c == 'n' {
        lemma_head_tail(w, c, seq!['i', 'l'], seq!['n', 'i', 'l']);
    } else if c == 'o' {
        lemma_head_tail(w, c, seq!['r'], seq!['o', 'r']);
    } else if c == 'p' {
        lemma_head_tail(w, c, seq!['r', 'i', 'n', 't'], seq!['p', 'r', 'i', 'n', 't']);
    } else if c == 'r' {
        lemma_head_tail(w, c, seq!['e', 't', 'u', 'r', 'n'], seq!['r', 'e', 't', 'u', 'r', 'n']);
    } else if c == 's' {
        lemma_head_tail(w, c, seq!['u', 'p', 'e', 'r'], seq!['s', 'u', 'p', 'e', 'r']);
    } else if c == 't' {
        lemma_head_tail(w, c, seq!['h', 'i', 's'], seq!['t', 'h', 'i', 's']);
        lemma_head_tail(w, c, seq!['r', 'u', 'e'], seq!['t', 'r', 'u', 'e']);
    } else if c == 'v' {
        lemma_head_tail(w, c, seq!['a', 'r'], seq!['v', 'a', 'r']);
    } else if c == 'w' {
        lemma_head_tail(w, c, seq!['h', 'i', 'l', 'e'], seq!['w', 'h', 'i', 'l', 'e']);
    }
}

// ----- The scanner -----

/// Pulls tokens from a source text one at a time.
#[derive(Debug)]
pub struct Scanner<'src> {
    source: &'src str,
    start: usize,
    current: usize,
    line: Line,
}

/// The model of a scanner: its text, its cursor and its line.
pub struct ScannerModel {
    pub source: Seq<char>,
    pub current: int,
    pub line: Line,
}

impl<'src> View for Scanner<'src> {
    type V = ScannerModel;

    closed spec fn view(&self) -> ScannerModel {
        ScannerModel { source: self.source@, current: self.current as int, line: self.line }
    }
}

impl<'src> Scanner<'src> {
    pub closed spec fn wf(&self) -> bool {
        self.start <= self.current <= self.source@.len()
    }

    pub proof fn lemma_cursor_in_bounds(&self)
        requires
            self.wf(),
        ensures
            0 <= self@.current <= self@.source.len(),
    {
    }

    pub fn new() -> (r: Self)
        ensures
            r.wf(),
            r@.source == Seq::<char>::empty(),
            r@.current == 0,
            r@.line == 1,
    {
        let source = "";
        proof {
            reveal_strlit("");
        }
        Scanner { source, start: 0, current: 0, line: 1 }
    }

    /// Points the scanner at the start of `source`, on line 1.
    pub fn update_source(&mut self, source: &'src str)
        ensures
            final(self).wf(),
            final(self)@.source == source@,
            final(self)@.current == 0,
            final(self)@.line == 1,
    {
        self.source = source;
        self.start = 0;
        self.current = 0;
        self.line = 1;
    }

    /// The next token, as `next_token` gives it; after the end of input,
    /// `Eof` again and again.
    pub fn scan_token(&mut self) -> (r: Token<'src>)
        requires
            old(self).wf(),
        ensures
            final(self).wf(),
            final(self)@.source == old(self)@.source,
            r@ == next_token(old(self)@.source, old(self)@.current, old(self)@.line).token,
            final(self)@.current == next_token(old(self)@.source, old(self)@.current, old(self)@.line).end,
            final(self)@.line == next_token(old(self)@.source, old(self)@.current, old(self)@.line).line,
    {
        let ghost s = self.source@;
        let ghost i0 = self.current as int;
        let ghost line0 = self.line;
        let len = self.source.unicode_len();
        let mut i: usize = self.current;
        let mut line: Line = self.line;
        loop
            invariant
                s == self.source@,
                len == s.len(),
                i0 <= i <= len,
                self.wf(),
                skip(s, i as int, line) == skip(s, i0, line0),
            ensures
                i <= len,
                skip(s, i0, line0) == (i as int, line),
            decreases len - i,
        {
            if i >= len {
                break;
            }
            let c = self.source.get_char(i);
            if c == ' ' || c == '\t' || c == '\r' {
                i = i + 1;
            } else if c == '\n' {
                i = i + 1;
                line = following_line(line);
            } else if c == '/' && i + 1 < len && self.source.get_char(i + 1) == '/' {
                let mut j: usize = i + 2;
                while j < len && self.source.get_char(j) != '\n'
                    invariant
                        s == self.source@,
                        len == s.len(),
                        i + 2 <= j <= len,
                        line_end(s, j as int) == line_end(s, i + 2),
                    decreases len - j,
                {
                    j = j + 1;
                }
                if j < len {
                    i = j + 1;
                    line = following_line(line);
                } else {
                    i = j;
                }
            } else {
                break;
            }
        }
        self.start = i;
        self.current = i;
        self.line = line;
        if i >= len {
            let r = Token::new(TokenKind::Eof, self.source.substring_char(i, i), line);
            assert(r.lexeme@ =~= Seq::<char>::empty());
            return r;
        }
        let c = self.source.get_char(i);
        self.current = i + 1;
        if c == '(' {
            return self.create_token(TokenKind::LeftParen);
        } else if c == ')' {
            return self.create_token(TokenKind::RightParen);
        } else if c == '{' {
            return self.create_token(TokenKind::LeftBrace);
        } else if c == '}' {
            return self.create_token(TokenKind::RightBrace);
        } else if c == ';' {
            return self.create_token(TokenKind::Semicolon);
        } else if c == ',' {
            return self.create_token(TokenKind::Comma);
        } else if c == '.' {
            return self.create_token(TokenKind::Dot);
        } else if c == '-' {
            return self.create_token(TokenKind::Minus);
        } else if c == '+' {
            return self.create_token(TokenKind::Plus);
        } else if c == '/' {
            return self.create_token(TokenKind::Slash);
        } else if c == '*' {
            return self.create_token(TokenKind::Star);
        }
        let then_equal = i + 1 < len && self.source.get_char(i + 1) == '=';
        if c == '!' || c == '=' || c == '<' || c == '>' {
            if then_equal {
                self.current = i + 2;
            }
            let kind = if c == '!' {
                if then_equal { TokenKind::BangEqual } else { TokenKind::Bang }
            } else if c == '=' {
                if then_equal { TokenKind::EqualEqual } else { TokenKind::Equal }
            } else if c == '<' {
                if then_equal { TokenKind::LessEqual } else { TokenKind::Less }
            } else {
                if then_equal { TokenKind::GreaterEqual } else { TokenKind::Greater }
            };
            return self.create_token(kind);
        }
        if c == '"' {
            let mut j: usize = i + 1;
            while j < len && self.source.get_char(j) != '"'
                invariant
                    s == self.source@,
                    len == s.len(),
                    i + 1 <= j <= len,
                    quote_end(s, j as int) == quote_end(s, i + 1),
                    self.line == lines_after(line, newlines(s, i + 1, j as int)),
                    self.start == i,
                    self.current == i + 1,
                    self.wf(),
                decreases len - j,
            {
                if self.source.get_char(j) == '\n' {
                    self.line = following_line(self.line);
                }
                j = j + 1;
            }
            if j < len {
                self.current = j + 1;
                return self.create_token(TokenKind::String);
            } else {
                self.current = j;
                return self.error_token("Unterminated string");
            }
        }
        if '0' <= c && c <= '9' {
            let mut j: usize = i + 1;
            while j < len && continues_number(self.source.get_char(j))
                invariant
                    s == self.source@,
                    len == s.len(),
                    i + 1 <= j <= len,
                    number_end(s, j as int) == number_end(s, i + 1),
                decreases len - j,
            {
                j = j + 1;
            }
            self.current = j;
            return self.create_token(TokenKind::Number);
        }
        if ('a' <= c && c <= 'z') || ('A' <= c && c <= 'Z') || c == '_' {
            let mut j: usize = i + 1;
            while j < len && continues_identifier(self.source.get_char(j))
                invariant
                    s == self.source@,
                    len == s.len(),
                    i + 1 <= j <= len,
                    identifier_end(s, j as int) == identifier_end(s, i + 1),
                decreases len - j,
            {
                j = j + 1;
            }
            self.current = j;
            let kind = self.identifier_type();
            return self.create_token(kind);
        }
        self.error_token("Invalid syntax")
    }

    fn create_token(&self, token_type: TokenKind) -> (r: Token<'src>)
        requires
            self.wf(),
        ensures
            r.kind == token_type,
            r.lexeme@ == self.source@.subrange(self.start as int, self.current as int),
            r.line == self.line,
    {
        Token::new(token_type, self.source.substring_char(self.start, self.current), self.line)
    }

    /// The keyword that the current lexeme spells, or `Identifier`.
    fn identifier_type(&self) -> (r: TokenKind)
        requires
            self.wf(),
            self.start < self.current,
        ensures
            r == keyword_kind(self.source@.subrange(self.start as int, self.current as int)),
    {
        let ghost w = self.source@.subrange(self.start as int, self.current as int);
        let first = self.source.get_char(self.start);
        let second = if self.start + 1 < self.current {
            Some(self.source.get_char(self.start + 1))
        } else {
            None
        };
        let r = if first == 'a' {
            self.check_keyword("nd", TokenKind::And)
        } else if first == 'c' {
            self.check_keyword("lass", TokenKind::Class)
        } else if first == 'e' {
            self.check_keyword("lse", TokenKind::Else)
        } else if first == 'i' {
            self.check_keyword("f", TokenKind::If)
        } else if first == 'n' {
            self.check_keyword("il", TokenKind::Nil)
        } else if first == 'o' {
            self.check_keyword("r", TokenKind::Or)
        } else if first == 'p' {
            self.check_keyword("rint", TokenKind::Print)
        } else if first == 'r' {
            self.check_keyword("eturn", TokenKind::Return)
        } else if first == 's' {
            self.check_keyword("uper", TokenKind::Super)
        } else if first == 'v' {
            self.check_keyword("ar", TokenKind::Var)
        } else if first == 'w' {
            self.check_keyword("hile", TokenKind::While)
        } else if first == 'f' {
            match second {
                Some('a') => self.check_keyword("alse", TokenKind::False),
                Some('o') => self.check_keyword("or", TokenKind::For),
                Some('u') => self.check_keyword("un", TokenKind::Fun),
                _ => TokenKind::Identifier,
            }
        } else if first == 't' {
            match second {
                Some('h') => self.check_keyword("his", TokenKind::This),
                Some('r') => self.check_keyword("rue", TokenKind::True),
                _ => TokenKind::Identifier,
            }
        } else {
            TokenKind::Identifier
        };
        proof {
            lemma_keyword_dispatch(w);
            assert(self.source@.subrange(self.start + 1, self.current as int) =~= w.drop_first());
            reveal_strlit("nd");
            reveal_strlit("lass");
            reveal_strlit("lse");
            reveal_strlit("f");
            reveal_strlit("il");
            reveal_strlit("r");
            reveal_strlit("rint");
            reveal_strlit("eturn");
            reveal_strlit("uper");
            reveal_strlit("ar");
            reveal_strlit("hile");
            reveal_strlit("alse");
            reveal_strlit("or");
            reveal_strlit("un");
            reveal_strlit("his");
            reveal_strlit("rue");
            assert("nd"@ =~= seq!['n', 'd']);
            assert("lass"@ =~= seq!['l', 'a', 's', 's']);
            assert("lse"@ =~= seq!['l', 's', 'e']);
            assert("f"@ =~= seq!['f']);
            assert("il"@ =~= seq!['i', 'l']);
            assert("r"@ =~= seq!['r']);
            assert("rint"@ =~= seq!['r', 'i', 'n', 't']);
            assert("eturn"@ =~= seq!['e', 't', 'u', 'r', 'n']);
            assert("uper"@ =~= seq!['u', 'p', 'e', 'r']);
            assert("ar"@ =~= seq!['a', 'r']);
            assert("hile"@ =~= seq!['h', 'i', 'l', 'e']);
            assert("alse"@ =~= seq!['a', 'l', 's', 'e']);
            assert("or"@ =~= seq!['o', 'r']);
            assert("un"@ =~= seq!['u', 'n']);
            assert("his"@ =~= seq!['h', 'i', 's']);
            assert("rue"@ =~= seq!['r', 'u', 'e']);
        }
        r
    }

    /// `token_type` if the lexeme is its first character followed by
    /// exactly `rest`, else `Identifier`.
    fn check_keyword(&self, rest: &str, token_type: TokenKind) -> (r: TokenKind)
        requires
            self.wf(),
            self.start < self.current,
        ensures
            r == if self.source@.subrange(self.start + 1, self.current as int) == rest@ {
                token_type
            } else {
                TokenKind::Identifier
            },
    {
        let ghost tail = self.source@.subrange(self.start + 1, self.current as int);
        let n = rest.unicode_len();
        if self.current - self.start - 1 != n {
            assert(tail.len() != rest@.len());
            return TokenKind::Identifier;
        }
        let mut k: usize = 0;
        while k < n
            invariant
                self.wf(),
                self.start < self.current,
                n == rest@.len(),
                tail.len() == n,
                tail == self.source@.subrange(self.start + 1, self.current as int),
                k <= n,
                forall|j: int| 0 <= j < k ==> tail[j] == rest@[j],
            decreases n - k,
        {
            if self.source.get_char(self.start + 1 + k) != rest.get_char(k) {
                assert(tail[k as int] != rest@[k as int]);
                return TokenKind::Identifier;
            }
            k = k + 1;
        }
        assert(tail =~= rest@);
        token_type
    }

    fn error_token(&self, message: &'src str) -> (r: Token<'src>)
        ensures
            r.kind == TokenKind::Error,
            r.lexeme == message,
            r.line == self.line,
    {
        Token::new(TokenKind::Error, message, self.line)
    }
}

} // verus!
