use vstd::prelude::*;
use crate::text::{dec_nat, push_char, push_nat, push_str};

verus! {

/// A position in the source text: 1-based line and column, and the length of the lexeme.
#[derive(Debug, Clone, Copy, PartialEq, Eq, Structural)]
pub struct Span {
    pub line: usize,
    pub col: usize,
    pub length: usize,
}

impl Span {
    pub fn new(line: usize, col: usize, length: usize) -> (r: Span)
        ensures
            r.line == line,
            r.col == col,
            r.length == length,
    {
        Span { line, col, length }
    }
}

/// A compilation failure. A lexing failure always has a position; a parsing one may not.
#[derive(Debug)]
pub enum CompileError {
    LexError { msg: String, span: Span },
    ParseError { msg: String, span: Option<Span> },
}

/// The end of the line that starts at or before `i`: the first newline at or after
/// `i`, or the end of the text.
pub open spec fn line_end(s: Seq<char>, i: int) -> int
    decreases s.len() - i,
{
    if i < 0 || i >= s.len() || s[i] == '\n' {
        i
    } else {
        line_end(s, i + 1)
    }
}

/// The lines of `s[p..]`: split at each newline, a carriage return just before a
/// newline dropped, and no empty line after a final newline.
pub open spec fn lines_from(s: Seq<char>, p: int) -> Seq<Seq<char>>
    decreases s.len() - p,
{
    if p < 0 || p >= s.len() {
        Seq::empty()
    } else {
        let k = line_end(s, p);
        let line = if p < k < s.len() && s[k - 1] == '\r' { s.subrange(p, k - 1) } else { s.subrange(p, k) };
        seq![line] + if p <= k < s.len() { lines_from(s, k + 1) } else { Seq::empty() }
    }
}

pub open spec fn source_lines(s: Seq<char>) -> Seq<Seq<char>> {
    lines_from(s, 0)
}

pub open spec fn repeat(c: char, n: nat) -> Seq<char> {
    Seq::new(n, |i: int| c)
}

/// `line:col: kind: msg`.
pub open spec fn error_header(kind: Seq<char>, msg: Seq<char>, span: Span) -> Seq<char> {
    dec_nat(span.line as nat) + ":"@ + dec_nat(span.col as nat) + ": "@ + kind + ": "@ + msg
}

/// An error with the source line it points into and a caret underline of
/// `max(length, 1)` starting at its column; just the header when the line does not exist.
pub open spec fn error_with_context(kind: Seq<char>, msg: Seq<char>, source: Seq<char>, span: Span) -> Seq<char> {
    let lines = source_lines(source);
    if span.line == 0 || span.line > lines.len() {
        error_header(kind, msg, span)
    } else {
        let w = dec_nat(span.line as nat).len();
        error_header(kind, msg, span) + "\n"@
            + repeat(' ', w) + " |\n"@
            + dec_nat(span.line as nat) + " | "@ + lines[span.line - 1] + "\n"@
            + repeat(' ', w) + " | "@
            + repeat(' ', if span.col >= 1 { (span.col - 1) as nat } else { 0 })
            + repeat('^', if span.length >= 1 { span.length as nat } else { 1 })
    }
}

/// How an error is shown to the user, against the source it came from.
pub open spec fn display_spec(e: CompileError, source: Seq<char>) -> Seq<char> {
    match e {
        CompileError::LexError { msg, span } => error_with_context("Lexer error"@, msg@, source, span),
        CompileError::ParseError { msg, span } => match span {
            Some(sp) => error_with_context("Parser error"@, msg@, source, sp),
            None => "Parser error: "@ + msg@,
        },
    }
}

fn push_repeat(out: &mut String, c: char, n: usize)
    ensures
        final(out)@ == old(out)@ + repeat(c, n as nat),
{
    let mut i: usize = 0;
    while i < n
        invariant
            i <= n,
            out@ == old(out)@ + repeat(c, i as nat),
        decreases n - i,
    {
        push_char(out, c);
        i += 1;
        assert(out@ =~= old(out)@ + repeat(c, i as nat));
    }
}

/// Line `n` (from 0) of the text, if it has that many.
fn nth_line(chars: &Vec<char>, n: usize) -> (r: Option<String>)
    ensures
        match r {
            Some(l) => n < source_lines(chars@).len() && l@ == source_lines(chars@)[n as int],
            None => n >= source_lines(chars@).len(),
        },
{
    let ghost s = chars@;
    let mut p: usize = 0;
    let mut j: usize = 0;
    assert(source_lines(s).subrange(0, source_lines(s).len() as int) =~= lines_from(s, 0));
    while p < chars.len()
        invariant
            s == chars@,
            p <= chars.len(),
            j <= n,
            j <= source_lines(s).len(),
            source_lines(s).subrange(j as int, source_lines(s).len() as int) == lines_from(s, p as int),
        ensures
            p >= chars.len(),
            j <= n,
            j <= source_lines(s).len(),
            source_lines(s).subrange(j as int, source_lines(s).len() as int) == lines_from(s, p as int),
        decreases chars.len() - p,
    {
        let mut k = p;
        while k < chars.len() && chars[k] != '\n'
            invariant
                p <= k <= chars.len(),
                s == chars@,
                line_end(s, k as int) == line_end(s, p as int),
            decreases chars.len() - k,
        {
            k += 1;
        }
        let ghost ls = lines_from(s, p as int);
        assert(ls.len() >= 1 && ls.drop_first() =~= (if k < chars.len() { lines_from(s, k + 1) } else { Seq::empty() }));
        if j == n {
            let end = if p < k && k < chars.len() && chars[k - 1] == '\r' { k - 1 } else { k };
            let mut line = String::new();
            let mut i = p;
            while i < end
                invariant
                    p <= i <= end,
                    end <= chars.len(),
                    s == chars@,
                    line@ == s.subrange(p as int, i as int),
                decreases end - i,
            {
                push_char(&mut line, chars[i]);
                i += 1;
                assert(line@ =~= s.subrange(p as int, i as int));
            }
            assert(source_lines(s)[n as int] == source_lines(s).subrange(j as int, source_lines(s).len() as int)[0]);
            return Some(line);
        }
        if k >= chars.len() {
            assert(lines_from(s, k as int) =~= Seq::<Seq<char>>::empty());
            assert(source_lines(s).subrange(j + 1, source_lines(s).len() as int) =~= ls.drop_first());
            p = k;
        } else {
            assert(source_lines(s).subrange(j + 1, source_lines(s).len() as int) =~= ls.drop_first());
            p = k + 1;
        }
        j += 1;
    }
    assert(lines_from(s, p as int) =~= Seq::<Seq<char>>::empty());
    assert(source_lines(s).subrange(j as int, source_lines(s).len() as int).len() == 0);
    None
}

fn format_error_with_context(error_type: &str, msg: &String, source: &str, span: Span) -> (r: String)
    ensures
        r@ == error_with_context(error_type@, msg@, source@, span),
{
    let chars = crate::lexer::chars_of(source);
    let mut out = String::new();
    push_nat(&mut out, span.line as u64);
    push_str(&mut out, ":");
    push_nat(&mut out, span.col as u64);
    push_str(&mut out, ": ");
    push_str(&mut out, error_type);
    push_str(&mut out, ": ");
    push_str(&mut out, msg.as_str());
    assert(out@ =~= error_header(error_type@, msg@, span));
    if span.line == 0 {
        return out;
    }
    let line_content = match nth_line(&chars, span.line - 1) {
        Some(l) => l,
        None => {
            return out;
        },
    };
    let mut num = String::new();
    push_nat(&mut num, span.line as u64);
    let width = crate::lexer::chars_of(num.as_str()).len();
    push_str(&mut out, "\n");
    push_repeat(&mut out, ' ', width);
    push_str(&mut out, " |\n");
    push_str(&mut out, num.as_str());
    push_str(&mut out, " | ");
    push_str(&mut out, line_content.as_str());
    push_str(&mut out, "\n");
    push_repeat(&mut out, ' ', width);
    push_str(&mut out, " | ");
    let pad = if span.col >= 1 { span.col - 1 } else { 0 };
    push_repeat(&mut out, ' ', pad);
    let carets = if span.length >= 1 { span.length } else { 1 };
    push_repeat(&mut out, '^', carets);
    assert(out@ =~= error_with_context(error_type@, msg@, source@, span));
    out
}

impl CompileError {
    /// The error as shown to the user: `line:col: Lexer error: msg` (or `Parser error`)
    /// with the source line and a caret underline, or `Parser error: msg` when the
    /// error has no position.
    pub fn display_with_source(&self, source: &str) -> (r: String)
        ensures
            r@ == display_spec(*self, source@),
    {
        match self {
            CompileError::LexError { msg, span } => format_error_with_context("Lexer error", msg, source, *span),
            CompileError::ParseError { msg, span } => match span {
                Some(sp) => format_error_with_context("Parser error", msg, source, *sp),
                None => {
                    let mut out = String::from_str("Parser error: ");
                    push_str(&mut out, msg.as_str());
                    out
                },
            },
        }
    }
}

} // verus!
