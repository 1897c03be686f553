//! Executable lexer: token and error types, and the pull-based scanner.

use vstd::prelude::*;
use vstd::string::*;
use crate::model::find_char;
use crate::model::ident_end;
use crate::model::is_digit;
use crate::model::is_ident_cont;
use crate::model::is_ident_start;
use crate::model::is_number_cont;
use crate::model::is_space;
use crate::model::keyword_kind;
use crate::model::line_of;
use crate::model::newlines_before;
use crate::model::number_end;
use crate::model::classify;
use crate::model::lemma_find_char;
use crate::model::lemma_quote_run_end;
use crate::model::lemma_quote_trim_back;
use crate::model::quote_run_end;
use crate::model::quote_trim_back;
use crate::model::strip_quotes;
use crate::model::lemma_ident_end;
use crate::model::lemma_number_end;
use crate::model::lemma_space_end;
use crate::model::lex_step;
use crate::model::space_end;
use crate::model::Step;
use crate::model::unicode_space;
use crate::model::valid_number;

verus! {

/// Relies on `char::is_whitespace`: the Unicode `White_Space` property,
/// whose ASCII members are exactly space, `\t`, `\n`, `\r`, `\u{b}` and
/// `\u{c}`; outside ASCII the answer depends on the character alone.
#[verifier::external_body]
fn char_is_whitespace(c: char) -> (r: bool)
    ensures
        r == is_space(c),
        (c as u32) >= 0x80 ==> r == unicode_space(c),
{
    c.is_whitespace()
}

/// The classification of one lexeme.
///
/// A number token carries no payload: its numeric value is determined by
/// the token's originating substring, which the token already holds.
#[derive(Debug, Clone, Copy, PartialEq, Eq, Structural)]
pub enum TokenKind {
    LeftParen,
    RightParen,
    LeftBrace,
    RightBrace,
    Comma,
    Dot,
    Minus,
    Plus,
    Semicolon,
    Star,
    Bang,
    BangEqual,
    EqualEqual,
    LessEqual,
    GreaterEqual,
    Less,
    Greater,
    Slash,
    Equal,
    String,
    Ident,
    Number,
    And,
    Class,
    Else,
    False,
    For,
    Fun,
    If,
    Nil,
    Or,
    Print,
    Return,
    Super,
    This,
    True,
    Var,
    While,
}

/// A byte-free view of where something sits in the buffer: a starting
/// character offset and a length in characters.
#[derive(Debug, Clone, Copy, PartialEq, Eq, Structural)]
pub struct Span {
    pub offset: usize,
    pub len: usize,
}

/// A classified lexeme: the exact substring of the source buffer it was
/// read from, together with its kind.
#[derive(Debug, Clone, Copy)]
pub struct Token<'de> {
    pub origin: &'de str,
    pub kind: TokenKind,
}

/// The fixed display name of a token kind.
pub open spec fn kind_label(k: TokenKind) -> Seq<char> {
    match k {
        TokenKind::LeftParen => "LEFT_PAREN"@,
        TokenKind::RightParen => "RIGHT_PAREN"@,
        TokenKind::LeftBrace => "LEFT_BRACE"@,
        TokenKind::RightBrace => "RIGHT_BRACE"@,
        TokenKind::Comma => "COMMA"@,
        TokenKind::Dot => "DOT"@,
        TokenKind::Minus => "MINUS"@,
        TokenKind::Plus => "PLUS"@,
        TokenKind::Semicolon => "SEMICOLON"@,
        TokenKind::Star => "STAR"@,
        TokenKind::Bang => "BANG"@,
        TokenKind::BangEqual => "BANG_EQUAL"@,
        TokenKind::EqualEqual => "EQUAL_EQUAL"@,
        TokenKind::LessEqual => "LESS_EQUAL"@,
        TokenKind::GreaterEqual => "GREATER_EQUAL"@,
        TokenKind::Less => "LESS"@,
        TokenKind::Greater => "GREATER"@,
        TokenKind::Slash => "SLASH"@,
        TokenKind::Equal => "EQUAL"@,
        TokenKind::String => "STRING"@,
        TokenKind::Ident => "IDENTFIER"@,
        TokenKind::Number => "NUMBER"@,
        TokenKind::And => "AND"@,
        TokenKind::Class => "CLASS"@,
        TokenKind::Else => "ELSE"@,
        TokenKind::False => "FALSE"@,
        TokenKind::For => "FOR"@,
        TokenKind::Fun => "FUN"@,
        TokenKind::If => "IF"@,
        TokenKind::Nil => "NIL"@,
        TokenKind::Or => "OR"@,
        TokenKind::Print => "PRINT"@,
        TokenKind::Return => "RETURN"@,
        TokenKind::Super => "SUPER"@,
        TokenKind::This => "THIS"@,
        TokenKind::True => "TRUE"@,
        TokenKind::Var => "VAR"@,
        TokenKind::While => "WHILE"@,
    }
}

/// The one-line textual rendering of a token.  Punctuation, operator and
/// keyword kinds render as their display name alone; a string lexeme adds
/// its text and its unquoted value; an identifier adds its text; a number
/// adds the text of its parsed value, supplied by the caller.
pub open spec fn render_line(k: TokenKind, origin: Seq<char>, number: Seq<char>) -> Seq<char> {
    match k {
        TokenKind::String => "STRING "@ + origin + " "@ + strip_quotes(origin),
        TokenKind::Ident => "IDENTFIER "@ + origin,
        TokenKind::Number => "NUMBER "@ + number,
        _ => kind_label(k),
    }
}

impl<'de> Token<'de> {
    /// The displayed value of a string lexeme: its text with all outer
    /// quotes removed.
    pub fn unescape<'s>(s: &'s str) -> (r: &'s str)
        ensures
            r@ == strip_quotes(s@),
    {
        let n = s.unicode_len();
        let mut a: usize = 0;
        while a < n && s.get_char(a) == '"'
            invariant
                0 <= a <= n,
                n == s@.len(),
                quote_run_end(s@, 0) == quote_run_end(s@, a as int),
            decreases n - a,
        {
            a = a + 1;
        }
        if a == n {
            return s.substring_char(0, 0);
        }
        let mut b: usize = n;
        while b > 0 && s.get_char(b - 1) == '"'
            invariant
                0 <= b <= n,
                n == s@.len(),
                quote_trim_back(s@, n as int) == quote_trim_back(s@, b as int),
            decreases b,
        {
            b = b - 1;
        }
        proof {
            lemma_quote_run_end(s@, 0);
            lemma_quote_trim_back(s@, n as int);
            assert(quote_run_end(s@, 0) == a && s@[a as int] != '"');
            if b <= a {
                assert(s@[a as int] == '"');
            }
        }
        s.substring_char(a, b)
    }

    /// One line of the textual rendering, per [`render_line`].  The text
    /// of a number's parsed value is handed in by the caller: producing
    /// it takes the floating-point value itself, which never enters the
    /// scanner.
    pub fn render(&self, number: &str) -> (r: String)
        ensures
            r@ == render_line(self.kind, self.origin@, number@),
    {
        match self.kind {
            TokenKind::String => {
                let mut out = String::from_str("STRING ");
                out.append(self.origin);
                out.append(" ");
                out.append(Token::unescape(self.origin));
                out
            },
            TokenKind::Ident => {
                let mut out = String::from_str("IDENTFIER ");
                out.append(self.origin);
                out
            },
            TokenKind::Number => {
                let mut out = String::from_str("NUMBER ");
                out.append(number);
                out
            },
            TokenKind::LeftParen => String::from_str("LEFT_PAREN"),
            TokenKind::RightParen => String::from_str("RIGHT_PAREN"),
            TokenKind::LeftBrace => String::from_str("LEFT_BRACE"),
            TokenKind::RightBrace => String::from_str("RIGHT_BRACE"),
            TokenKind::Comma => String::from_str("COMMA"),
            TokenKind::Dot => String::from_str("DOT"),
            TokenKind::Minus => String::from_str("MINUS"),
            TokenKind::Plus => String::from_str("PLUS"),
            TokenKind::Semicolon => String::from_str("SEMICOLON"),
            TokenKind::Star => String::from_str("STAR"),
            TokenKind::Bang => String::from_str("BANG"),
            TokenKind::BangEqual => String::from_str("BANG_EQUAL"),
            TokenKind::EqualEqual => String::from_str("EQUAL_EQUAL"),
            TokenKind::LessEqual => String::from_str("LESS_EQUAL"),
            TokenKind::GreaterEqual => String::from_str("GREATER_EQUAL"),
            TokenKind::Less => String::from_str("LESS"),
            TokenKind::Greater => String::from_str("GREATER"),
            TokenKind::Slash => String::from_str("SLASH"),
            TokenKind::Equal => String::from_str("EQUAL"),
            TokenKind::And => String::from_str("AND"),
            TokenKind::Class => String::from_str("CLASS"),
            TokenKind::Else => String::from_str("ELSE"),
            TokenKind::False => String::from_str("FALSE"),
            TokenKind::For => String::from_str("FOR"),
            TokenKind::Fun => String::from_str("FUN"),
            TokenKind::If => String::from_str("IF"),
            TokenKind::Nil => String::from_str("NIL"),
            TokenKind::Or => String::from_str("OR"),
            TokenKind::Print => String::from_str("PRINT"),
            TokenKind::Return => String::from_str("RETURN"),
            TokenKind::Super => String::from_str("SUPER"),
            TokenKind::This => String::from_str("THIS"),
            TokenKind::True => String::from_str("TRUE"),
            TokenKind::Var => String::from_str("VAR"),
            TokenKind::While => String::from_str("WHILE"),
        }
    }
}

/// One character of the input matched no lexical rule.
#[derive(Debug)]
pub struct SingleTokenError {
    pub src: String,
    pub token: char,
    pub err_span: Span,
}

/// A string literal was opened and never closed before the end of the
/// buffer.
#[derive(Debug)]
pub struct StringTerminationError {
    pub src: String,
    pub err_span: Span,
}

/// A number lexeme did not denote a value.  Kept as a guard: the scanner
/// is proved never to cut a literal this check rejects.
#[derive(Debug)]
pub struct NumberLiteralError {
    pub src: String,
    pub err_span: Span,
}

/// A lexical error, surfaced in place in the token stream.
#[derive(Debug)]
pub enum LexError {
    SingleToken(SingleTokenError),
    StringTermination(StringTerminationError),
    NumberLiteral(NumberLiteralError),
}

impl SingleTokenError {
    pub open spec fn wf(&self) -> bool {
        self.err_span.offset < self.src@.len()
        && self.err_span.offset + self.err_span.len <= self.src@.len()
    }

    /// The 1-based line the offending character stands on.
    pub fn line(&self) -> (r: usize)
        requires
            self.wf(),
        ensures
            r == line_of(self.src@, self.err_span.offset as int),
    {
        line_number(&self.src, self.err_span.offset)
    }
}

impl StringTerminationError {
    pub open spec fn wf(&self) -> bool {
        self.err_span.offset < self.src@.len()
        && self.err_span.offset + self.err_span.len <= self.src@.len()
    }

    /// The 1-based line the unterminated literal opens on.
    pub fn line(&self) -> (r: usize)
        requires
            self.wf(),
        ensures
            r == line_of(self.src@, self.err_span.offset as int),
    {
        line_number(&self.src, self.err_span.offset)
    }
}

impl NumberLiteralError {
    pub open spec fn wf(&self) -> bool {
        self.err_span.offset < self.src@.len()
        && self.err_span.offset + self.err_span.len <= self.src@.len()
    }

    /// The 1-based line the rejected literal opens on.
    pub fn line(&self) -> (r: usize)
        requires
            self.wf(),
        ensures
            r == line_of(self.src@, self.err_span.offset as int),
    {
        line_number(&self.src, self.err_span.offset)
    }
}

/// Count a line for position `off`: one more than the newlines before it.
fn line_number(src: &str, off: usize) -> (r: usize)
    requires
        off < src@.len(),
    ensures
        r == line_of(src@, off as int),
{
    let n = src.unicode_len();
    let mut count: usize = 0;
    let mut i: usize = 0;
    while i < off
        invariant
            0 <= i <= off,
            off < n,
            n == src@.len(),
            count == newlines_before(src@, i as int),
            count <= i,
        decreases off - i,
    {
        if src.get_char(i) == '\n' {
            count = count + 1;
        }
        i = i + 1;
    }
    count + 1
}

// ---------------------------------------------------------------------------
// Character class tests
// ---------------------------------------------------------------------------

fn digit(c: char) -> (r: bool)
    ensures
        r == is_digit(c),
{
    let u = c as u32;
    ('0' as u32) <= u && u <= ('9' as u32)
}

fn ident_start(c: char) -> (r: bool)
    ensures
        r == is_ident_start(c),
{
    let u = c as u32;
    (('a' as u32) <= u && u <= ('z' as u32)) || (('A' as u32) <= u && u <= ('Z' as u32)) || c == '_'
}

fn ident_cont(c: char) -> (r: bool)
    ensures
        r == is_ident_cont(c),
{
    ident_start(c) || digit(c)
}

fn number_cont(c: char) -> (r: bool)
    ensures
        r == is_number_cont(c),
{
    digit(c) || c == '.'
}

// ---------------------------------------------------------------------------
// Scanning helpers
// ---------------------------------------------------------------------------

/// The first position at or after `from` holding `c`, or the length.
fn scan_find(s: &str, from: usize, c: char) -> (r: usize)
    requires
        from <= s@.len(),
    ensures
        r == find_char(s@, from as int, c),
{
    let n = s.unicode_len();
    let mut i: usize = from;
    while i < n
        invariant
            from <= i <= n,
            n == s@.len(),
            find_char(s@, from as int, c) == find_char(s@, i as int, c),
        decreases n - i,
    {
        if s.get_char(i) == c {
            return i;
        }
        i = i + 1;
    }
    i
}

/// The end of the whitespace run beginning at `from`.
fn scan_spaces(s: &str, from: usize) -> (r: usize)
    requires
        from <= s@.len(),
    ensures
        r == space_end(s@, from as int),
{
    let n = s.unicode_len();
    let mut i: usize = from;
    while i < n
        invariant
            from <= i <= n,
            n == s@.len(),
            space_end(s@, from as int) == space_end(s@, i as int),
        decreases n - i,
    {
        if !char_is_whitespace(s.get_char(i)) {
            return i;
        }
        i = i + 1;
    }
    i
}

/// The end of the identifier run beginning at `from`.
fn scan_ident(s: &str, from: usize) -> (r: usize)
    requires
        from <= s@.len(),
    ensures
        r == ident_end(s@, from as int),
{
    let n = s.unicode_len();
    let mut i: usize = from;
    while i < n
        invariant
            from <= i <= n,
            n == s@.len(),
            ident_end(s@, from as int) == ident_end(s@, i as int),
        decreases n - i,
    {
        if !ident_cont(s.get_char(i)) {
            return i;
        }
        i = i + 1;
    }
    i
}

/// The end of the digit/dot run beginning at `from`.
fn scan_number(s: &str, from: usize) -> (r: usize)
    requires
        from <= s@.len(),
    ensures
        r == number_end(s@, from as int),
{
    let n = s.unicode_len();
    let mut i: usize = from;
    while i < n
        invariant
            from <= i <= n,
            n == s@.len(),
            number_end(s@, from as int) == number_end(s@, i as int),
        decreases n - i,
    {
        if !number_cont(s.get_char(i)) {
            return i;
        }
        i = i + 1;
    }
    i
}

/// Character-for-character equality of two lexemes.
fn chars_match(s: &str, t: &str) -> (r: bool)
    ensures
        r == (s@ == t@),
{
    let n = s.unicode_len();
    let m = t.unicode_len();
    if n != m {
        return false;
    }
    let mut i: usize = 0;
    while i < n
        invariant
            0 <= i <= n,
            n == s@.len(),
            n == t@.len(),
            forall|j: int| 0 <= j < i ==> s@[j] == t@[j],
        decreases n - i,
    {
        if s.get_char(i) != t.get_char(i) {
            return false;
        }
        i = i + 1;
    }
    proof {
        assert(s@ =~= t@);
    }
    true
}

/// The reserved-word table: the kind a finished identifier lexeme gets.
fn keyword_or_ident(lit: &str) -> (k: TokenKind)
    ensures
        k == keyword_kind(lit@),
{
    if chars_match(lit, "and") { TokenKind::And }
    else if chars_match(lit, "class") { TokenKind::Class }
    else if chars_match(lit, "else") { TokenKind::Else }
    else if chars_match(lit, "false") { TokenKind::False }
    else if chars_match(lit, "for") { TokenKind::For }
    else if chars_match(lit, "fun") { TokenKind::Fun }
    else if chars_match(lit, "if") { TokenKind::If }
    else if chars_match(lit, "nil") { TokenKind::Nil }
    else if chars_match(lit, "or") { TokenKind::Or }
    else if chars_match(lit, "print") { TokenKind::Print }
    else if chars_match(lit, "return") { TokenKind::Return }
    else if chars_match(lit, "super") { TokenKind::Super }
    else if chars_match(lit, "this") { TokenKind::This }
    else if chars_match(lit, "true") { TokenKind::True }
    else if chars_match(lit, "var") { TokenKind::Var }
    else if chars_match(lit, "while") { TokenKind::While }
    else { TokenKind::Ident }
}

/// The guard run over a cut number lexeme before it becomes a token.
fn check_number(lit: &str) -> (r: bool)
    ensures
        r == valid_number(lit@),
{
    let n = lit.unicode_len();
    if n == 0 {
        return false;
    }
    if !digit(lit.get_char(0)) {
        return false;
    }
    let mut i: usize = 0;
    let mut seen_dot: bool = false;
    while i < n
        invariant
            0 <= i <= n,
            n == lit@.len(),
            n > 0,
            is_digit(lit@[0]),
            forall|k: int| 0 <= k < i ==> is_number_cont(#[trigger] lit@[k]),
            seen_dot == exists|k: int| 0 <= k < i && lit@[k] == '.',
            forall|k1: int, k2: int| 0 <= k1 < k2 < i && lit@[k1] == '.' ==> lit@[k2] != '.',
        decreases n - i,
    {
        let c = lit.get_char(i);
        if c == '.' {
            if seen_dot {
                return false;
            }
            seen_dot = true;
        } else if !digit(c) {
            return false;
        }
        i = i + 1;
    }
    true
}

// ---------------------------------------------------------------------------
// The scanner
// ---------------------------------------------------------------------------

/// The scanner: the source buffer and a cursor into it, advanced once per
/// produced token, error, or skipped stretch of whitespace and comments.
pub struct Lexer<'de> {
    whole: &'de str,
    pos: usize,
}

impl<'de> Lexer<'de> {
    /// The buffer being scanned.
    pub closed spec fn src(&self) -> Seq<char> {
        self.whole@
    }

    /// The cursor: how many characters have been consumed.
    pub closed spec fn cursor(&self) -> int {
        self.pos as int
    }

    pub open spec fn wf(&self) -> bool {
        self.cursor() <= self.src().len()
    }

    pub fn new(input: &'de str) -> (l: Self)
        ensures
            l.src() == input@,
            l.cursor() == 0,
            l.wf(),
    {
        Lexer { whole: input, pos: 0 }
    }

    /// Pull the next item of the stream: the token or error that
    /// [`lex_step`] describes at the cursor, or `None` once nothing but
    /// whitespace and comments remains — and on every pull thereafter.
    pub fn next(&mut self) -> (r: Option<Result<Token<'de>, LexError>>)
        requires
            old(self).wf(),
        ensures
            final(self).wf(),
            final(self).src() == old(self).src(),
            old(self).cursor() <= final(self).cursor(),
            next_result(old(self).src(), old(self).cursor(), final(self).cursor(), r),
    {
        let ghost s = self.whole@;
        let ghost pos0 = self.pos as int;
        let n = self.whole.unicode_len();
        #[verifier::loop_isolation(false)]
        loop
            invariant
                self.whole@ == s,
                self.pos <= n,
                n == s.len(),
                pos0 <= self.pos as int,
                lex_step(s, self.pos as int) == lex_step(s, pos0),
            decreases n - self.pos,
        {
            if self.pos == n {
                return None;
            }
            let ghost pi = self.pos as int;
            let c = self.whole.get_char(self.pos);
            if char_is_whitespace(c) {
                self.pos = self.pos + 1;
                continue;
            }
            if c == '/' && self.pos + 1 < n && self.whole.get_char(self.pos + 1) == '/' {
                let e = scan_find(self.whole, self.pos + 1, '\n');
                proof {
                    lemma_find_char(s, pi + 1, '\n');
                }
                self.pos = e;
                continue;
            }
            proof {
                assert(lex_step(s, pi) == classify(s, pi));
            }
            let single: Option<TokenKind> = if c == '(' { Some(TokenKind::LeftParen) }
                else if c == ')' { Some(TokenKind::RightParen) }
                else if c == '{' { Some(TokenKind::LeftBrace) }
                else if c == '}' { Some(TokenKind::RightBrace) }
                else if c == ',' { Some(TokenKind::Comma) }
                else if c == '.' { Some(TokenKind::Dot) }
                else if c == '-' { Some(TokenKind::Minus) }
                else if c == '+' { Some(TokenKind::Plus) }
                else if c == ';' { Some(TokenKind::Semicolon) }
                else if c == '*' { Some(TokenKind::Star) }
                else if c == '/' { Some(TokenKind::Slash) }
                else { None };
            if let Some(kind) = single {
                let origin = self.whole.substring_char(self.pos, self.pos + 1);
                self.pos = self.pos + 1;
                return Some(Ok(Token { origin, kind }));
            }
            if c == '<' || c == '>' || c == '!' || c == '=' {
                let j = scan_spaces(self.whole, self.pos + 1);
                proof {
                    lemma_space_end(s, pi + 1);
                }
                if j < n && self.whole.get_char(j) == '=' {
                    let origin = self.whole.substring_char(self.pos, j + 1);
                    let kind = if c == '<' { TokenKind::LessEqual }
                        else if c == '>' { TokenKind::GreaterEqual }
                        else if c == '!' { TokenKind::BangEqual }
                        else { TokenKind::EqualEqual };
                    self.pos = j + 1;
                    return Some(Ok(Token { origin, kind }));
                } else {
                    let origin = self.whole.substring_char(self.pos, self.pos + 1);
                    let kind = if c == '<' { TokenKind::Less }
                        else if c == '>' { TokenKind::Greater }
                        else if c == '!' { TokenKind::Bang }
                        else { TokenKind::Equal };
                    self.pos = j;
                    return Some(Ok(Token { origin, kind }));
                }
            }
            if c == '"' {
                let q = scan_find(self.whole, self.pos + 1, '"');
                proof {
                    lemma_find_char(s, pi + 1, '"');
                }
                if q < n {
                    let origin = self.whole.substring_char(self.pos, q + 1);
                    self.pos = q + 1;
                    return Some(Ok(Token { origin, kind: TokenKind::String }));
                } else {
                    let err = StringTerminationError {
                        src: self.whole.to_owned(),
                        err_span: Span { offset: self.pos, len: n - self.pos },
                    };
                    self.pos = n;
                    return Some(Err(LexError::StringTermination(err)));
                }
            }
            if digit(c) {
                let e = scan_number(self.whole, self.pos);
                let d1 = scan_find(self.whole, self.pos, '.');
                proof {
                    lemma_number_end(s, pi);
                    lemma_find_char(s, pi, '.');
                }
                let tok_end: usize = if d1 < e {
                    let d2 = scan_find(self.whole, d1 + 1, '.');
                    proof {
                        lemma_find_char(s, d1 as int + 1, '.');
                    }
                    if d2 < e { d2 } else if d1 + 1 == e { d1 } else { e }
                } else {
                    e
                };
                let lit = self.whole.substring_char(self.pos, tok_end);
                if check_number(lit) {
                    self.pos = tok_end;
                    return Some(Ok(Token { origin: lit, kind: TokenKind::Number }));
                } else {
                    let err = NumberLiteralError {
                        src: self.whole.to_owned(),
                        err_span: Span { offset: self.pos, len: tok_end - self.pos },
                    };
                    self.pos = tok_end;
                    return Some(Err(LexError::NumberLiteral(err)));
                }
            }
            if ident_start(c) {
                let e = scan_ident(self.whole, self.pos);
                proof {
                    lemma_ident_end(s, pi);
                }
                let lit = self.whole.substring_char(self.pos, e);
                let kind = keyword_or_ident(lit);
                self.pos = e;
                return Some(Ok(Token { origin: lit, kind }));
            }
            let err = SingleTokenError {
                src: self.whole.to_owned(),
                token: c,
                err_span: Span { offset: self.pos, len: 1 },
            };
            self.pos = self.pos + 1;
            return Some(Err(LexError::SingleToken(err)));
        }
    }
}

/// What one call of [`Lexer::next`] returns and where it leaves the
/// cursor, for a pull taken on buffer `s` at cursor `pos`: exactly what
/// [`lex_step`] describes there.
pub open spec fn next_result<'de>(
    s: Seq<char>,
    pos: int,
    new_pos: int,
    r: Option<Result<Token<'de>, LexError>>,
) -> bool {
    match lex_step(s, pos) {
        Step::End => r is None && new_pos == s.len(),
        Step::Tok { kind, start, end, next } => match r {
            Some(Ok(t)) => t.kind == kind && t.origin@ == s.subrange(start, end) && new_pos
                == next,
            _ => false,
        },
        Step::ErrChar { at } => match r {
            Some(Err(LexError::SingleToken(e))) => {
                &&& e.src@ == s
                &&& e.token == s[at]
                &&& e.err_span.offset == at
                &&& e.err_span.len == 1
                &&& e.wf()
                &&& new_pos == at + 1
            },
            _ => false,
        },
        Step::ErrString { start } => match r {
            Some(Err(LexError::StringTermination(e))) => {
                &&& e.src@ == s
                &&& e.err_span.offset == start
                &&& e.err_span.len == s.len() - start
                &&& e.wf()
                &&& new_pos == s.len()
            },
            _ => false,
        },
        Step::ErrNumber { start, end } => match r {
            Some(Err(LexError::NumberLiteral(e))) => {
                &&& e.src@ == s
                &&& e.err_span.offset == start
                &&& e.err_span.len == end - start
                &&& e.wf()
                &&& new_pos == end
            },
            _ => false,
        },
    }
}

} // verus!
