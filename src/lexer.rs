use vstd::prelude::*;
use crate::error::{CompileError, Span};
use crate::text::{push_char, push_str};

verus! {

/// A lexical token with its position.
#[derive(Debug)]
pub struct Token {
    pub kind: TokenKind,
    pub span: Span,
}

/// The kinds of token: literals (a string already decoded), names, symbols,
/// keywords, and the end of input.
#[derive(Debug, Clone, PartialEq, Eq)]
pub enum TokenKind {
    Int(i32),
    Ident(String),
    String(String),
    Plus,
    Minus,
    Star,
    Slash,
    Assign,
    Semicolon,
    LParen,
    RParen,
    LBrace,
    RBrace,
    LT,
    GT,
    LTE,
    GTE,
    Bang,
    Print,
    PrintLn,
    Exit,
    While,
    If,
    Else,
    Eof,
}

/// What a token kind carries, with its text as a sequence of characters.
/// `Plain` stands for the kinds without payload.
pub enum Lexeme {
    Int(i32),
    Ident(Seq<char>),
    Str(Seq<char>),
    Plain(TokenKind),
}

pub open spec fn lexeme_of(k: TokenKind) -> Lexeme {
    match k {
        TokenKind::Int(n) => Lexeme::Int(n),
        TokenKind::Ident(s) => Lexeme::Ident(s@),
        TokenKind::String(s) => Lexeme::Str(s@),
        _ => Lexeme::Plain(k),
    }
}

/// A token as the lexing rules describe it.
pub struct LexedToken {
    pub lexeme: Lexeme,
    pub line: int,
    pub col: int,
    pub len: int,
}

/// A lexing failure: its message and where it is.
pub struct LexFailure {
    pub msg: Seq<char>,
    pub line: int,
    pub col: int,
    pub len: int,
}

pub open spec fn token_view(t: Token) -> LexedToken {
    LexedToken {
        lexeme: lexeme_of(t.kind),
        line: t.span.line as int,
        col: t.span.col as int,
        len: t.span.length as int,
    }
}

pub open spec fn failure_view(e: CompileError) -> LexFailure {
    match e {
        CompileError::LexError { msg, span } => LexFailure {
            msg: msg@,
            line: span.line as int,
            col: span.col as int,
            len: span.length as int,
        },
        CompileError::ParseError { msg, span } => LexFailure { msg: msg@, line: 0, col: 0, len: -1 },
    }
}

// ---------------------------------------------------------------------------
// Character classes (Unicode properties, decided by std)

pub uninterp spec fn is_space(c: char) -> bool;

pub uninterp spec fn is_numeral(c: char) -> bool;

pub uninterp spec fn is_letter(c: char) -> bool;

/// Relies on char::is_whitespace: the Unicode White_Space property.
#[verifier::external_body]
fn char_is_whitespace(c: char) -> (r: bool)
    ensures
        r == is_space(c),
{
    c.is_whitespace()
}

/// Relies on char::is_numeric: the Unicode general categories Nd, Nl and No.
#[verifier::external_body]
fn char_is_numeric(c: char) -> (r: bool)
    ensures
        r == is_numeral(c),
{
    c.is_numeric()
}

/// Relies on char::is_alphabetic: the Unicode Alphabetic property.
#[verifier::external_body]
fn char_is_alphabetic(c: char) -> (r: bool)
    ensures
        r == is_letter(c),
{
    c.is_alphabetic()
}

/// Relies on char::is_alphanumeric: documented as `is_alphabetic() || is_numeric()`.
#[verifier::external_body]
fn char_is_alphanumeric(c: char) -> (r: bool)
    ensures
        r == (is_letter(c) || is_numeral(c)),
{
    c.is_alphanumeric()
}

// ---------------------------------------------------------------------------
// The lexing rules

/// Line and column of position `p`: both start at 1, a newline moves to the next line.
pub open spec fn line_col(input: Seq<char>, p: int) -> (int, int)
    decreases p,
{
    if p <= 0 {
        (1, 1)
    } else {
        let (l, c) = line_col(input, p - 1);
        if input[p - 1] == '\n' {
            (l + 1, 1)
        } else {
            (l, c + 1)
        }
    }
}

/// The first position at or after `p` that is neither whitespace nor inside a
/// `#` comment. `in_comment` says that `p` lies inside a comment.
pub open spec fn skip_trivia(input: Seq<char>, p: int, in_comment: bool) -> int
    decreases input.len() - p, (if in_comment { 1int } else { 0int }),
{
    if p < 0 || p >= input.len() {
        p
    } else if in_comment {
        if input[p] == '\n' {
            skip_trivia(input, p, false)
        } else {
            skip_trivia(input, p + 1, true)
        }
    } else if is_space(input[p]) {
        skip_trivia(input, p + 1, false)
    } else if input[p] == '#' {
        skip_trivia(input, p + 1, true)
    } else {
        p
    }
}

/// The kind of a one-character token, if `c` starts one.
pub open spec fn single_kind(c: char) -> Option<TokenKind> {
    if c == '+' { Some(TokenKind::Plus) }
    else if c == '-' { Some(TokenKind::Minus) }
    else if c == '*' { Some(TokenKind::Star) }
    else if c == '/' { Some(TokenKind::Slash) }
    else if c == '=' { Some(TokenKind::Assign) }
    else if c == ';' { Some(TokenKind::Semicolon) }
    else if c == '(' { Some(TokenKind::LParen) }
    else if c == ')' { Some(TokenKind::RParen) }
    else if c == '{' { Some(TokenKind::LBrace) }
    else if c == '}' { Some(TokenKind::RBrace) }
    else if c == '!' { Some(TokenKind::Bang) }
    else { None }
}

/// The character that an escape `\c` stands for.
pub open spec fn unescape(c: char) -> char {
    if c == 'n' { '\n' } else if c == 't' { '\t' } else { c }
}

/// The body of a string literal from `p` (just after the opening quote): the
/// decoded text and the position after the closing quote, or `Err(true)` for an
/// escape cut off by the end of input, `Err(false)` for a missing closing quote.
pub open spec fn string_body(input: Seq<char>, p: int) -> Result<(Seq<char>, int), bool>
    decreases input.len() - p,
{
    if p < 0 || p >= input.len() {
        Err(false)
    } else if input[p] == '"' {
        Ok((Seq::empty(), p + 1))
    } else if input[p] == '\\' {
        if p + 1 >= input.len() {
            Err(true)
        } else {
            prepend_char(unescape(input[p + 1]), string_body(input, p + 2))
        }
    } else {
        prepend_char(input[p], string_body(input, p + 1))
    }
}

pub open spec fn prepend_char(c: char, r: Result<(Seq<char>, int), bool>) -> Result<(Seq<char>, int), bool> {
    match r {
        Ok((s, e)) => Ok((seq![c] + s, e)),
        Err(x) => Err(x),
    }
}

/// The end of the run of numerals that starts at `p`.
pub open spec fn numeral_end(input: Seq<char>, p: int) -> int
    decreases input.len() - p,
{
    if 0 <= p < input.len() && is_numeral(input[p]) {
        numeral_end(input, p + 1)
    } else {
        p
    }
}

pub open spec fn is_word_char(c: char) -> bool {
    is_letter(c) || is_numeral(c) || c == '_'
}

/// The end of the run of letters, numerals and underscores that starts at `p`.
pub open spec fn word_end(input: Seq<char>, p: int) -> int
    decreases input.len() - p,
{
    if 0 <= p < input.len() && is_word_char(input[p]) {
        word_end(input, p + 1)
    } else {
        p
    }
}

pub open spec fn is_ascii_digit(c: char) -> bool {
    '0' <= c <= '9'
}

pub open spec fn digit_value(c: char) -> int {
    c as int - '0' as int
}

pub open spec fn invalid_digit_msg() -> Seq<char> {
    "invalid digit found in string"@
}

pub open spec fn too_large_msg() -> Seq<char> {
    "number too large to fit in target type"@
}

/// Reads `d[i..]` as a decimal number, `acc` being the value of `d[..i]`;
/// the first character that is no ASCII digit, or the first digit that takes the
/// value past `i32::MAX`, is an error.
pub open spec fn decimal_from(d: Seq<char>, i: int, acc: int) -> Result<int, Seq<char>>
    decreases d.len() - i,
{
    if i < 0 || i >= d.len() {
        Ok(acc)
    } else if !is_ascii_digit(d[i]) {
        Err(invalid_digit_msg())
    } else if acc * 10 + digit_value(d[i]) > i32::MAX {
        Err(too_large_msg())
    } else {
        decimal_from(d, i + 1, acc * 10 + digit_value(d[i]))
    }
}

/// The kind of a word: a keyword, or else an identifier.
pub open spec fn word_lexeme(w: Seq<char>) -> Lexeme {
    if w == "exit"@ { Lexeme::Plain(TokenKind::Exit) }
    else if w == "print"@ { Lexeme::Plain(TokenKind::Print) }
    else if w == "println"@ { Lexeme::Plain(TokenKind::PrintLn) }
    else if w == "while"@ { Lexeme::Plain(TokenKind::While) }
    else if w == "if"@ { Lexeme::Plain(TokenKind::If) }
    else if w == "else"@ { Lexeme::Plain(TokenKind::Else) }
    else { Lexeme::Ident(w) }
}

/// The message for a character that starts no token.
pub open spec fn unexpected_msg(c: char) -> Seq<char> {
    "Unexpected character: '"@ + seq![c] + "'"@
}

/// The token that starts at `s` (`s` inside the input, not trivia): its lexeme and
/// end, or the failure's message and length.
pub open spec fn token_at(input: Seq<char>, s: int) -> Result<(Lexeme, int), (Seq<char>, int)>
    recommends
        0 <= s < input.len(),
{
    let c = input[s];
    if single_kind(c) is Some {
        Ok((Lexeme::Plain(single_kind(c)->0), s + 1))
    } else if c == '<' || c == '>' {
        if s + 1 < input.len() && input[s + 1] == '=' {
            Ok((Lexeme::Plain(if c == '<' { TokenKind::LTE } else { TokenKind::GTE }), s + 2))
        } else {
            Ok((Lexeme::Plain(if c == '<' { TokenKind::LT } else { TokenKind::GT }), s + 1))
        }
    } else if c == '"' {
        match string_body(input, s + 1) {
            Ok((body, e)) => Ok((Lexeme::Str(body), e)),
            Err(true) => Err(("Unterminated escape in string"@, input.len() - s)),
            Err(false) => Err(("Unterminated string literal"@, input.len() - s)),
        }
    } else if is_numeral(c) {
        let e = numeral_end(input, s);
        match decimal_from(input.subrange(s, e), 0, 0) {
            Ok(v) => Ok((Lexeme::Int(v as i32), e)),
            Err(m) => Err(("Invalid number: "@ + m, e - s)),
        }
    } else if is_letter(c) {
        let e = word_end(input, s);
        Ok((word_lexeme(input.subrange(s, e)), e))
    } else {
        Err((unexpected_msg(c), 1))
    }
}

/// One step of lexing from `p`: the next token and the position after it.
/// At the end of input that token is `Eof`, of length 0, and nothing is consumed.
pub open spec fn lex_step(input: Seq<char>, p: int) -> Result<(LexedToken, int), LexFailure> {
    let s = skip_trivia(input, p, false);
    let (line, col) = line_col(input, s);
    if s >= input.len() {
        Ok((LexedToken { lexeme: Lexeme::Plain(TokenKind::Eof), line, col, len: 0 }, s))
    } else {
        match token_at(input, s) {
            Ok((lx, e)) => Ok((LexedToken { lexeme: lx, line, col, len: e - s }, e)),
            Err((msg, len)) => Err(LexFailure { msg, line, col, len }),
        }
    }
}

/// All tokens from `p` on, ending with the one `Eof`, or the first failure.
pub open spec fn lex_from(input: Seq<char>, p: int) -> Result<Seq<LexedToken>, LexFailure>
    decreases input.len() - p,
{
    match lex_step(input, p) {
        Err(f) => Err(f),
        Ok((t, e)) => {
            if t.lexeme == Lexeme::Plain(TokenKind::Eof) || !(p < e <= input.len()) {
                Ok(seq![t])
            } else {
                prepend_token(t, lex_from(input, e))
            }
        },
    }
}

pub open spec fn prepend_token(t: LexedToken, r: Result<Seq<LexedToken>, LexFailure>) -> Result<Seq<LexedToken>, LexFailure> {
    match r {
        Ok(ts) => Ok(seq![t] + ts),
        Err(f) => Err(f),
    }
}

/// The tokens of a whole source text.
pub open spec fn lex(input: Seq<char>) -> Result<Seq<LexedToken>, LexFailure> {
    lex_from(input, 0)
}

} // verus!

verus! {

pub open spec fn prepend_tokens(pre: Seq<LexedToken>, r: Result<Seq<LexedToken>, LexFailure>) -> Result<Seq<LexedToken>, LexFailure> {
    match r {
        Ok(ts) => Ok(pre + ts),
        Err(f) => Err(f),
    }
}

proof fn lemma_numeral_end(input: Seq<char>, p: int)
    requires
        0 <= p <= input.len(),
    ensures
        p <= numeral_end(input, p) <= input.len(),
        p < input.len() && is_numeral(input[p]) ==> numeral_end(input, p) > p,
    decreases input.len() - p,
{
    if p < input.len() && is_numeral(input[p]) {
        lemma_numeral_end(input, p + 1);
    }
}

pub open spec fn prepend_text(pre: Seq<char>, r: Result<(Seq<char>, int), bool>) -> Result<(Seq<char>, int), bool> {
    match r {
        Ok((b, e)) => Ok((pre + b, e)),
        Err(x) => Err(x),
    }
}

proof fn lemma_prepend_text(pre: Seq<char>, c: char, r: Result<(Seq<char>, int), bool>)
    ensures
        prepend_text(pre, prepend_char(c, r)) == prepend_text(pre.push(c), r),
{
    match r {
        Ok((b, e)) => {
            assert(pre + (seq![c] + b) =~= pre.push(c) + b);
        },
        Err(x) => {},
    }
}

proof fn lemma_string_body_end(input: Seq<char>, p: int)
    requires
        0 <= p,
    ensures
        string_body(input, p) matches Ok((b, e)) ==> p < e <= input.len(),
    decreases input.len() - p,
{
    if 0 <= p < input.len() && input[p] != '"' {
        if input[p] == '\\' {
            if p + 1 < input.len() {
                lemma_string_body_end(input, p + 2);
            }
        } else {
            lemma_string_body_end(input, p + 1);
        }
    }
}

proof fn lemma_skip_trivia(input: Seq<char>, p: int, in_comment: bool)
    requires
        0 <= p <= input.len(),
    ensures
        p <= skip_trivia(input, p, in_comment) <= input.len(),
    decreases input.len() - p, (if in_comment { 1int } else { 0int }),
{
    if p < input.len() {
        if in_comment {
            if input[p] == '\n' {
                lemma_skip_trivia(input, p, false);
            } else {
                lemma_skip_trivia(input, p + 1, true);
            }
        } else if is_space(input[p]) {
            lemma_skip_trivia(input, p + 1, false);
        } else if input[p] == '#' {
            lemma_skip_trivia(input, p + 1, true);
        }
    }
}

proof fn lemma_prepend_tokens(pre: Seq<LexedToken>, t: LexedToken, r: Result<Seq<LexedToken>, LexFailure>)
    ensures
        prepend_tokens(pre, prepend_token(t, r)) == prepend_tokens(pre.push(t), r),
{
    match r {
        Ok(ts) => {
            assert(pre + (seq![t] + ts) =~= pre.push(t) + ts);
        },
        Err(f) => {},
    }
}

fn single_token(c: char) -> (r: Option<TokenKind>)
    ensures
        r == single_kind(c),
{
    if c == '+' { Some(TokenKind::Plus) }
    else if c == '-' { Some(TokenKind::Minus) }
    else if c == '*' { Some(TokenKind::Star) }
    else if c == '/' { Some(TokenKind::Slash) }
    else if c == '=' { Some(TokenKind::Assign) }
    else if c == ';' { Some(TokenKind::Semicolon) }
    else if c == '(' { Some(TokenKind::LParen) }
    else if c == ')' { Some(TokenKind::RParen) }
    else if c == '{' { Some(TokenKind::LBrace) }
    else if c == '}' { Some(TokenKind::RBrace) }
    else if c == '!' { Some(TokenKind::Bang) }
    else { None }
}

fn word_kind(id: String) -> (r: TokenKind)
    ensures
        lexeme_of(r) == word_lexeme(id@),
{
    if id == String::from_str("exit") {
        TokenKind::Exit
    } else if id == String::from_str("print") {
        TokenKind::Print
    } else if id == String::from_str("println") {
        TokenKind::PrintLn
    } else if id == String::from_str("while") {
        TokenKind::While
    } else if id == String::from_str("if") {
        TokenKind::If
    } else if id == String::from_str("else") {
        TokenKind::Else
    } else {
        TokenKind::Ident(id)
    }
}

proof fn lemma_line_col_bounds(input: Seq<char>, p: int)
    requires
        0 <= p,
    ensures
        1 <= line_col(input, p).0 <= p + 1,
        1 <= line_col(input, p).1 <= p + 1,
    decreases p,
{
    if p > 0 {
        lemma_line_col_bounds(input, p - 1);
    }
}

/// The characters of a string, in order.
pub(crate) fn chars_of(s: &str) -> (r: Vec<char>)
    ensures
        r@ == s@,
{
    broadcast use vstd::string::group_string_axioms;
    let mut v: Vec<char> = Vec::new();
    for c in it: s.chars()
        invariant
            it.seq() == s@,
            v@ == it.seq().take(it.index() as int),
    {
        v.push(c);
    }
    v
}

/// A scanner over the characters of a source text.
pub struct Lexer {
    input: Vec<char>,
    pos: usize,
    line: usize,
    col: usize,
}

impl Lexer {
    /// The characters being scanned.
    pub closed spec fn source(&self) -> Seq<char> {
        self.input@
    }

    /// The index of the next character to scan.
    pub closed spec fn position(&self) -> int {
        self.pos as int
    }

    pub closed spec fn wf(&self) -> bool {
        &&& self.pos <= self.input.len()
        &&& self.input.len() < usize::MAX
        &&& (self.line as int, self.col as int) == line_col(self.input@, self.pos as int)
    }

    pub fn new(input: &str) -> (r: Lexer)
        requires
            input@.len() < usize::MAX,
        ensures
            r.wf(),
            r.source() == input@,
            r.position() == 0,
    {
        let chars = chars_of(input);
        Lexer { input: chars, pos: 0, line: 1, col: 1 }
    }

    fn peek(&self) -> (r: Option<char>)
        requires
            self.pos <= self.input.len(),
        ensures
            r == (if self.pos < self.input.len() { Some(self.input@[self.pos as int]) } else { None::<char> }),
    {
        if self.pos < self.input.len() {
            Some(self.input[self.pos])
        } else {
            None
        }
    }

    fn next(&mut self)
        requires
            old(self).wf(),
        ensures
            final(self).wf(),
            final(self).input@ == old(self).input@,
            final(self).pos == (if old(self).pos < old(self).input.len() { old(self).pos + 1 } else { old(self).pos as int }),
    {
        if let Some(ch) = self.peek() {
            proof {
                lemma_line_col_bounds(self.input@, self.pos as int);
            }
            if ch == '\n' {
                self.line += 1;
                self.col = 1;
            } else {
                self.col += 1;
            }
            self.pos += 1;
        }
    }

    fn skip_comment(&mut self)
        requires
            old(self).wf(),
            old(self).pos < old(self).input.len(),
            old(self).input@[old(self).pos as int] == '#',
            !is_space(old(self).input@[old(self).pos as int]),
        ensures
            final(self).wf(),
            final(self).input@ == old(self).input@,
            final(self).pos > old(self).pos,
            skip_trivia(final(self).input@, final(self).pos as int, false)
                == skip_trivia(old(self).input@, old(self).pos as int, false),
    {
        self.next();
        while self.pos < self.input.len()
            invariant
                self.wf(),
                self.input@ == old(self).input@,
                self.pos > old(self).pos,
                skip_trivia(self.input@, self.pos as int, true) == skip_trivia(old(self).input@, old(self).pos as int, false),
            ensures
                skip_trivia(self.input@, self.pos as int, false) == skip_trivia(old(self).input@, old(self).pos as int, false),
            decreases self.input.len() - self.pos,
        {
            match self.peek() {
                Some(ch) => {
                    if ch == '\n' {
                        break;
                    }
                    self.next();
                },
                None => {
                    break;
                },
            }
        }
    }

    fn skip_whitespace(&mut self)
        requires
            old(self).wf(),
        ensures
            final(self).wf(),
            final(self).input@ == old(self).input@,
            final(self).pos == skip_trivia(old(self).input@, old(self).pos as int, false),
    {
        while self.pos < self.input.len()
            invariant
                self.wf(),
                self.input@ == old(self).input@,
                skip_trivia(self.input@, self.pos as int, false) == skip_trivia(old(self).input@, old(self).pos as int, false),
            ensures
                self.pos == skip_trivia(old(self).input@, old(self).pos as int, false),
            decreases self.input.len() - self.pos,
        {
            match self.peek() {
                Some(ch) => {
                    if char_is_whitespace(ch) {
                        self.next();
                    } else if ch == '#' {
                        self.skip_comment();
                    } else {
                        assert(skip_trivia(self.input@, self.pos as int, false) == self.pos);
                        break;
                    }
                },
                None => {
                    assert(skip_trivia(self.input@, self.pos as int, false) == self.pos);
                    break;
                },
            }
        }
    }

    fn read_number(&mut self) -> (r: Result<(i32, usize), CompileError>)
        requires
            old(self).wf(),
            old(self).pos < old(self).input.len(),
            is_numeral(old(self).input@[old(self).pos as int]),
        ensures
            final(self).input@ == old(self).input@,
            ({
                let input = old(self).input@;
                let s = old(self).pos as int;
                let e = numeral_end(input, s);
                match decimal_from(input.subrange(s, e), 0, 0) {
                    Ok(v) => r == Ok::<(i32, usize), CompileError>((v as i32, (e - s) as usize))
                        && final(self).wf() && final(self).pos == e && e > s,
                    Err(m) => r is Err && r->Err_0 is LexError && failure_view(r->Err_0) == LexFailure {
                        msg: "Invalid number: "@ + m,
                        line: line_col(input, s).0,
                        col: line_col(input, s).1,
                        len: e - s,
                    },
                }
            }),
    {
        let start_line = self.line;
        let start_col = self.col;
        let start = self.pos;
        let ghost input = self.input@;
        let ghost e = numeral_end(input, start as int);
        while self.pos < self.input.len()
            invariant
                self.wf(),
                self.input@ == input,
                start <= self.pos,
                start < input.len(),
                input == old(self).input@,
                start == old(self).pos,
                start_line as int == line_col(input, start as int).0,
                start_col as int == line_col(input, start as int).1,
                numeral_end(input, self.pos as int) == e,
                self.pos == start ==> is_numeral(input[start as int]),
            ensures
                self.pos == e,
                self.pos > start,
            decreases self.input.len() - self.pos,
        {
            match self.peek() {
                Some(ch) => {
                    if char_is_numeric(ch) {
                        self.next();
                    } else {
                        assert(numeral_end(input, self.pos as int) == self.pos);
                        break;
                    }
                },
                None => {
                    assert(numeral_end(input, self.pos as int) == self.pos);
                    break;
                },
            }
        }
        let end = self.pos;
        proof {
            lemma_numeral_end(input, start as int);
        }
        let ghost d = input.subrange(start as int, end as int);
        let mut acc: i32 = 0;
        let mut i: usize = start;
        while i < end
            invariant
                start <= i <= end,
                end <= self.input.len(),
                self.input@ == input,
                input == old(self).input@,
                start == old(self).pos,
                numeral_end(input, start as int) == end,
                start_line as int == line_col(input, start as int).0,
                start_col as int == line_col(input, start as int).1,
                self.wf(),
                self.pos == end,
                d == input.subrange(start as int, end as int),
                0 <= acc,
                decimal_from(d, 0, 0) == decimal_from(d, i - start, acc as int),
            decreases end - i,
        {
            let c = self.input[i];
            if !('0' <= c && c <= '9') {
                let mut msg = String::from_str("Invalid number: ");
                push_str(&mut msg, "invalid digit found in string");
                return Err(CompileError::LexError { msg, span: Span::new(start_line, start_col, end - start) });
            }
            let dv = (c as u32 - '0' as u32) as i32;
            assert(d[i - start] == c);
            assert(dv == digit_value(c));
            if acc > (i32::MAX - dv) / 10 {
                assert(acc * 10 + dv > i32::MAX) by (nonlinear_arith)
                    requires
                        acc > (i32::MAX - dv) / 10,
                        0 <= dv <= 9;
                let mut msg = String::from_str("Invalid number: ");
                push_str(&mut msg, "number too large to fit in target type");
                return Err(CompileError::LexError { msg, span: Span::new(start_line, start_col, end - start) });
            }
            assert(acc * 10 + dv <= i32::MAX) by (nonlinear_arith)
                requires
                    acc <= (i32::MAX - dv) / 10,
                    0 <= dv <= 9;
            acc = acc * 10 + dv;
            i += 1;
        }
        Ok((acc, end - start))
    }

    fn read_identifier(&mut self) -> (r: (String, usize))
        requires
            old(self).wf(),
            old(self).pos < old(self).input.len(),
            is_letter(old(self).input@[old(self).pos as int]),
        ensures
            final(self).wf(),
            final(self).input@ == old(self).input@,
            final(self).pos == word_end(old(self).input@, old(self).pos as int),
            final(self).pos > old(self).pos,
            r.0@ == old(self).input@.subrange(old(self).pos as int, final(self).pos as int),
            r.1 == final(self).pos - old(self).pos,
    {
        let start = self.pos;
        let mut id = String::new();
        let ghost input = self.input@;
        let ghost e = word_end(input, start as int);
        while self.pos < self.input.len()
            invariant
                self.wf(),
                input == old(self).input@,
                self.input@ == input,
                start == old(self).pos,
                start < input.len(),
                start <= self.pos,
                word_end(input, self.pos as int) == e,
                self.pos == start ==> is_word_char(input[start as int]),
                id@ == input.subrange(start as int, self.pos as int),
            ensures
                self.pos == e,
                self.pos > start,
                id@ == input.subrange(start as int, self.pos as int),
            decreases self.input.len() - self.pos,
        {
            let ch = self.input[self.pos];
            if char_is_alphanumeric(ch) || ch == '_' {
                push_char(&mut id, ch);
                self.next();
                assert(id@ =~= input.subrange(start as int, self.pos as int));
            } else {
                assert(word_end(input, self.pos as int) == self.pos);
                break;
            }
        }
        let length = self.pos - start;
        (id, length)
    }

    fn read_string(&mut self) -> (r: Result<(String, usize), CompileError>)
        requires
            old(self).wf(),
            1 <= old(self).pos <= old(self).input.len(),
            old(self).input@[old(self).pos - 1] == '"',
        ensures
            final(self).input@ == old(self).input@,
            ({
                let input = old(self).input@;
                let q = old(self).pos - 1;
                match string_body(input, old(self).pos as int) {
                    Ok((b, e)) => r is Ok && r->Ok_0.0@ == b && r->Ok_0.1 == e - q
                        && final(self).wf() && final(self).pos == e,
                    Err(esc) => r is Err && r->Err_0 is LexError && failure_view(r->Err_0) == LexFailure {
                        msg: if esc { "Unterminated escape in string"@ } else { "Unterminated string literal"@ },
                        line: line_col(input, q).0,
                        col: line_col(input, q).1,
                        len: input.len() - q,
                    },
                }
            }),
    {
        let ghost input = self.input@;
        let ghost q = self.pos - 1;
        proof {
            lemma_line_col_bounds(input, q);
        }
        let start_line = self.line;
        let start_col = self.col - 1;
        let start = self.pos - 1;
        let mut s = String::new();
        assert(prepend_text(s@, string_body(input, self.pos as int)) =~= string_body(input, self.pos as int));
        while self.pos < self.input.len()
            invariant
                self.wf(),
                input == old(self).input@,
                self.input@ == input,
                start == q,
                q == old(self).pos - 1,
                start < self.pos,
                start_line as int == line_col(input, q).0,
                start_col as int == line_col(input, q).1,
                string_body(input, old(self).pos as int) == prepend_text(s@, string_body(input, self.pos as int)),
            decreases self.input.len() - self.pos,
        {
            let ch = self.input[self.pos];
            if ch == '"' {
                self.next();
                let length = self.pos - start;
                return Ok((s, length));
            } else if ch == '\\' {
                self.next();
                if self.pos < self.input.len() {
                    let escaped = self.input[self.pos];
                    let real_ch = if escaped == 'n' {
                        '\n'
                    } else if escaped == 't' {
                        '\t'
                    } else {
                        escaped
                    };
                    proof {
                        lemma_prepend_text(s@, real_ch, string_body(input, self.pos + 1));
                    }
                    push_char(&mut s, real_ch);
                    self.next();
                } else {
                    let length = self.pos - start;
                    let msg = String::from_str("Unterminated escape in string");
                    return Err(CompileError::LexError { msg, span: Span::new(start_line, start_col, length) });
                }
            } else {
                proof {
                    lemma_prepend_text(s@, ch, string_body(input, self.pos + 1));
                }
                push_char(&mut s, ch);
                self.next();
            }
        }
        let length = self.pos - start;
        let msg = String::from_str("Unterminated string literal");
        Err(CompileError::LexError { msg, span: Span::new(start_line, start_col, length) })
    }

    fn next_token(&mut self) -> (r: Result<Token, CompileError>)
        requires
            old(self).wf(),
        ensures
            final(self).input@ == old(self).input@,
            match lex_step(old(self).input@, old(self).pos as int) {
                Ok((t, e)) => r is Ok && token_view(r->Ok_0) == t && final(self).wf() && final(self).pos == e
                    && (t.lexeme != Lexeme::Plain(TokenKind::Eof) ==> old(self).pos < e),
                Err(f) => r is Err && r->Err_0 is LexError && failure_view(r->Err_0) == f,
            },
    {
        let ghost input = self.input@;
        proof {
            lemma_skip_trivia(input, self.pos as int, false);
        }
        self.skip_whitespace();
        let start_line = self.line;
        let start_col = self.col;
        let start = self.pos;
        if self.pos >= self.input.len() {
            return Ok(Token { kind: TokenKind::Eof, span: Span::new(start_line, start_col, 0) });
        }
        let ch = self.input[self.pos];
        let (kind, length) = match single_token(ch) {
            Some(k) => {
                self.next();
                (k, 1)
            },
            None => {
                if ch == '<' || ch == '>' {
                    self.next();
                    if self.pos < self.input.len() && self.input[self.pos] == '=' {
                        self.next();
                        (if ch == '<' { TokenKind::LTE } else { TokenKind::GTE }, 2)
                    } else {
                        (if ch == '<' { TokenKind::LT } else { TokenKind::GT }, 1)
                    }
                } else if ch == '"' {
                    self.next();
                    proof {
                        lemma_string_body_end(input, start + 1);
                    }
                    match self.read_string() {
                        Ok((s, len)) => (TokenKind::String(s), len),
                        Err(e) => {
                            return Err(e);
                        },
                    }
                } else if char_is_numeric(ch) {
                    match self.read_number() {
                        Ok((n, len)) => (TokenKind::Int(n), len),
                        Err(e) => {
                            return Err(e);
                        },
                    }
                } else if char_is_alphabetic(ch) {
                    let (id, len) = self.read_identifier();
                    (word_kind(id), len)
                } else {
                    let mut msg = String::from_str("Unexpected character: '");
                    push_char(&mut msg, ch);
                    push_str(&mut msg, "'");
                    assert(msg@ =~= unexpected_msg(ch));
                    return Err(CompileError::LexError { msg, span: Span::new(start_line, start_col, 1) });
                }
            },
        };
        Ok(Token { kind, span: Span::new(start_line, start_col, length) })
    }

    /// Scans the rest of the input into tokens, the last being the one `Eof`.
    pub fn tokenize(&mut self) -> (r: Result<Vec<Token>, CompileError>)
        requires
            old(self).wf(),
        ensures
            match lex_from(old(self).source(), old(self).position()) {
                Ok(ts) => r is Ok && r->Ok_0@.map_values(|t: Token| token_view(t)) == ts,
                Err(f) => r is Err && r->Err_0 is LexError && failure_view(r->Err_0) == f,
            },
    {
        let mut tokens: Vec<Token> = Vec::new();
        let ghost input = self.input@;
        let ghost p0 = self.pos as int;
        assert(prepend_tokens(tokens@.map_values(|t: Token| token_view(t)), lex_from(input, p0))
            =~= lex_from(input, p0));
        loop
            invariant
                self.wf(),
                self.input@ == input,
                input == old(self).input@,
                p0 == old(self).pos,
                lex_from(input, p0)
                    == prepend_tokens(tokens@.map_values(|t: Token| token_view(t)), lex_from(input, self.pos as int)),
            decreases self.input.len() - self.pos,
        {
            let ghost p = self.pos as int;
            let ghost pre = tokens@.map_values(|t: Token| token_view(t));
            match self.next_token() {
                Err(e) => {
                    return Err(e);
                },
                Ok(token) => {
                    let is_eof = matches!(token.kind, TokenKind::Eof);
                    let ghost tv = token_view(token);
                    tokens.push(token);
                    assert(tokens@.map_values(|t: Token| token_view(t)) =~= pre.push(tv));
                    if is_eof {
                        assert(pre + seq![tv] =~= pre.push(tv));
                        return Ok(tokens);
                    }
                    proof {
                        lemma_prepend_tokens(pre, tv, lex_from(input, self.pos as int));
                    }
                },
            }
        }
    }
}

} // verus!
