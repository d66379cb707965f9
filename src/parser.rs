use vstd::prelude::*;
use crate::codegen::{find, views, index_of, lemma_find, lemma_find_push};
use crate::error::{CompileError, Span};
use crate::text::{push_str, dec_int};
use crate::lexer::{Token, TokenKind, Lexeme, LexedToken, token_view};

verus! {

/// The two value types of the language.
#[derive(Debug, Clone, Copy, PartialEq, Eq, Structural)]
pub enum Type {
    Int,
    String,
}

/// An expression tree; each node owns its operands.
#[derive(Debug)]
pub enum Expr {
    Int(i32),
    Var(String),
    String(String),
    BinOp { op: BinOp, left: Box<Expr>, right: Box<Expr> },
    UnaryOp { op: UnaryOp, expr: Box<Expr> },
}

/// Prefix operators, all from integer to integer.
#[derive(Debug, Clone, Copy, PartialEq, Eq, Structural)]
pub enum UnaryOp {
    Not,
    Neg,
    BitNot,
}

/// Binary operators: arithmetic, comparison, logical and bitwise, all on integers.
#[derive(Debug, Clone, Copy, PartialEq, Eq, Structural)]
pub enum BinOp {
    Add,
    Sub,
    Mul,
    Div,
    LT,
    LTE,
    GT,
    GTE,
    Eq,
    Neq,
    And,
    Or,
    BitAnd,
    BitOr,
    BitXor,
    LShift,
    RShift,
}

/// A statement; blocks own their statements.
#[derive(Debug)]
pub enum Stmt {
    Assign { var: String, expr: Expr },
    Print { expr: Expr },
    PrintLn { expr: Option<Expr> },
    Exit(Option<Expr>),
    While { condition: Expr, body: Vec<Stmt> },
    If { condition: Expr, then_body: Vec<Stmt>, else_body: Option<Vec<Stmt>> },
}

/// An expression as plain values.
pub enum ExprV {
    Int(i32),
    Var(Seq<char>),
    Str(Seq<char>),
    BinOp(BinOp, Box<ExprV>, Box<ExprV>),
    Unary(UnaryOp, Box<ExprV>),
}

/// A statement as plain values.
pub enum StmtV {
    Assign(Seq<char>, ExprV),
    Print(ExprV),
    PrintLn(Option<ExprV>),
    Exit(Option<ExprV>),
    While(ExprV, Seq<StmtV>),
    If(ExprV, Seq<StmtV>, Option<Seq<StmtV>>),
}

pub open spec fn expr_view(e: Expr) -> ExprV
    decreases e,
{
    match e {
        Expr::Int(n) => ExprV::Int(n),
        Expr::Var(name) => ExprV::Var(name@),
        Expr::String(s) => ExprV::Str(s@),
        Expr::BinOp { op, left, right } => ExprV::BinOp(op, Box::new(expr_view(*left)), Box::new(expr_view(*right))),
        Expr::UnaryOp { op, expr } => ExprV::Unary(op, Box::new(expr_view(*expr))),
    }
}

pub open spec fn stmt_view(s: Stmt) -> StmtV
    decreases s, 0nat,
{
    match s {
        Stmt::Assign { var, expr } => StmtV::Assign(var@, expr_view(expr)),
        Stmt::Print { expr } => StmtV::Print(expr_view(expr)),
        Stmt::PrintLn { expr } => StmtV::PrintLn(match expr {
            Some(x) => Some(expr_view(x)),
            None => None,
        }),
        Stmt::Exit(code) => StmtV::Exit(match code {
            Some(x) => Some(expr_view(x)),
            None => None,
        }),
        Stmt::While { condition, body } => StmtV::While(expr_view(condition), block_view(body@, 0)),
        Stmt::If { condition, then_body, else_body } => StmtV::If(
            expr_view(condition),
            block_view(then_body@, 0),
            match else_body {
                Some(eb) => Some(block_view(eb@, 0)),
                None => None,
            },
        ),
    }
}

/// The views of `ss[i..]`.
pub open spec fn block_view(ss: Seq<Stmt>, i: int) -> Seq<StmtV>
    decreases ss, ss.len() - i,
{
    if i < 0 || i >= ss.len() {
        Seq::empty()
    } else {
        seq![stmt_view(ss[i])] + block_view(ss, i + 1)
    }
}

pub proof fn lemma_block_view(ss: Seq<Stmt>, i: int)
    requires
        0 <= i <= ss.len(),
    ensures
        block_view(ss, i).len() == ss.len() - i,
        forall|j: int| i <= j < ss.len() ==> #[trigger] block_view(ss, i)[j - i] == stmt_view(ss[j]),
    decreases ss.len() - i,
{
    if i < ss.len() {
        lemma_block_view(ss, i + 1);
        assert forall|j: int| i <= j < ss.len() implies #[trigger] block_view(ss, i)[j - i] == stmt_view(ss[j]) by {
            if j > i {
                assert(block_view(ss, i)[j - i] == block_view(ss, i + 1)[j - (i + 1)]);
            }
        }
    }
}

pub proof fn lemma_block_view_index(ss: Seq<Stmt>)
    ensures
        block_view(ss, 0).len() == ss.len(),
        forall|j: int| 0 <= j < ss.len() ==> #[trigger] block_view(ss, 0)[j] == stmt_view(ss[j]),
{
    lemma_block_view(ss, 0);
    assert forall|j: int| 0 <= j < ss.len() implies #[trigger] block_view(ss, 0)[j] == stmt_view(ss[j]) by {
        assert(block_view(ss, 0)[j - 0] == stmt_view(ss[j]));
    }
}

/// The type of an expression under the variable types `tys`, if it has one: literals
/// have their own type, a variable the type it was last assigned, and an operator
/// needs integer operands and gives an integer.
pub open spec fn expr_type(tys: Map<Seq<char>, Type>, e: ExprV) -> Option<Type>
    decreases e,
{
    match e {
        ExprV::Int(_) => Some(Type::Int),
        ExprV::Str(_) => Some(Type::String),
        ExprV::Var(name) => if tys.contains_key(name) { Some(tys[name]) } else { None },
        ExprV::BinOp(op, left, right) => {
            if expr_type(tys, *left) == Some(Type::Int) && expr_type(tys, *right) == Some(Type::Int) {
                Some(Type::Int)
            } else {
                None
            }
        },
        ExprV::Unary(op, inner) => {
            if expr_type(tys, *inner) == Some(Type::Int) {
                Some(Type::Int)
            } else {
                None
            }
        },
    }
}

/// The number of nodes of an expression.
pub open spec fn expr_size(e: ExprV) -> nat
    decreases e,
{
    match e {
        ExprV::BinOp(op, left, right) => 1 + expr_size(*left) + expr_size(*right),
        ExprV::Unary(op, inner) => 1 + expr_size(*inner),
        _ => 1,
    }
}

pub open spec fn opt_expr_size(e: Option<ExprV>) -> nat {
    match e {
        Some(x) => expr_size(x),
        None => 0,
    }
}

/// The number of nodes of a statement, its expressions and blocks included.
pub open spec fn stmt_size(s: StmtV) -> nat
    decreases s, 0nat,
{
    match s {
        StmtV::Assign(var, expr) => 1 + expr_size(expr),
        StmtV::Print(expr) => 1 + expr_size(expr),
        StmtV::PrintLn(expr) => 1 + opt_expr_size(expr),
        StmtV::Exit(code) => 1 + opt_expr_size(code),
        StmtV::While(condition, body) => 1 + expr_size(condition) + block_size(body, 0),
        StmtV::If(condition, then_body, else_body) => 1 + expr_size(condition) + block_size(then_body, 0)
            + match else_body {
            Some(eb) => block_size(eb, 0),
            None => 0,
        },
    }
}

/// The number of nodes of `ss[i..]`.
pub open spec fn block_size(ss: Seq<StmtV>, i: int) -> nat
    decreases ss, ss.len() - i,
{
    if i < 0 || i >= ss.len() {
        0
    } else {
        stmt_size(ss[i]) + block_size(ss, i + 1)
    }
}

pub open spec fn opt_expr_typed(tys: Map<Seq<char>, Type>, e: Option<ExprV>, need_int: bool) -> bool {
    match e {
        None => true,
        Some(x) => if need_int { expr_type(tys, x) == Some(Type::Int) } else { expr_type(tys, x) is Some },
    }
}

/// The variable types after statement `s`, if it is well typed under `tys`.
/// An assignment sets the variable's type to its expression's; `exit` needs an
/// integer; a condition must be an integer; blocks are checked in order, and what
/// they assign stays declared after them.
pub open spec fn stmt_types(tys: Map<Seq<char>, Type>, s: StmtV) -> Option<Map<Seq<char>, Type>>
    decreases s, 0nat,
{
    match s {
        StmtV::Assign(var, expr) => match expr_type(tys, expr) {
            Some(t) => Some(tys.insert(var, t)),
            None => None,
        },
        StmtV::Print(expr) => if expr_type(tys, expr) is Some { Some(tys) } else { None },
        StmtV::PrintLn(expr) => if opt_expr_typed(tys, expr, false) { Some(tys) } else { None },
        StmtV::Exit(code) => if opt_expr_typed(tys, code, true) { Some(tys) } else { None },
        StmtV::While(condition, body) => {
            if expr_type(tys, condition) == Some(Type::Int) {
                block_types(tys, body, 0)
            } else {
                None
            }
        },
        StmtV::If(condition, then_body, else_body) => {
            if expr_type(tys, condition) == Some(Type::Int) {
                match block_types(tys, then_body, 0) {
                    Some(t1) => match else_body {
                        Some(eb) => block_types(t1, eb, 0),
                        None => Some(t1),
                    },
                    None => None,
                }
            } else {
                None
            }
        },
    }
}

/// The variable types after `ss[i..]`, if those statements are well typed under `tys`.
pub open spec fn block_types(tys: Map<Seq<char>, Type>, ss: Seq<StmtV>, i: int) -> Option<Map<Seq<char>, Type>>
    decreases ss, ss.len() - i,
{
    if i < 0 || i >= ss.len() {
        Some(tys)
    } else {
        match stmt_types(tys, ss[i]) {
            Some(t) => block_types(t, ss, i + 1),
            None => None,
        }
    }
}

} // verus!

verus! {

// ---------------------------------------------------------------------------
// The variable-type table

/// Variables and the type each was last assigned.
pub struct VarTypes {
    names: Vec<String>,
    types: Vec<Type>,
}

impl View for VarTypes {
    type V = Map<Seq<char>, Type>;

    closed spec fn view(&self) -> Map<Seq<char>, Type> {
        Map::new(
            |n: Seq<char>| find(views(self.names@), n) >= 0,
            |n: Seq<char>| self.types@[find(views(self.names@), n)],
        )
    }
}

impl VarTypes {
    pub closed spec fn wf(&self) -> bool {
        self.names.len() == self.types.len()
    }

    pub fn new() -> (r: VarTypes)
        ensures
            r.wf(),
            r@ == Map::<Seq<char>, Type>::empty(),
    {
        let r = VarTypes { names: Vec::new(), types: Vec::new() };
        assert(r@ =~= Map::<Seq<char>, Type>::empty());
        r
    }

    /// The type of `name`, if it has been assigned.
    pub fn get(&self, name: &String) -> (r: Option<Type>)
        requires
            self.wf(),
        ensures
            r == (if self@.contains_key(name@) { Some(self@[name@]) } else { None::<Type> }),
    {
        proof {
            lemma_find(views(self.names@));
        }
        match index_of(&self.names, name) {
            Some(i) => Some(self.types[i]),
            None => None,
        }
    }

    /// Records `t` as the type of `name`.
    pub fn insert(&mut self, name: &String, t: Type)
        requires
            old(self).wf(),
        ensures
            final(self).wf(),
            final(self)@ == old(self)@.insert(name@, t),
    {
        let ghost old_names = views(self.names@);
        proof {
            lemma_find(old_names);
        }
        match index_of(&self.names, name) {
            Some(i) => {
                self.types.set(i, t);
                assert(self@ =~= old(self)@.insert(name@, t));
            },
            None => {
                self.names.push(name.clone());
                self.types.push(t);
                assert(views(self.names@) =~= old_names.push(name@));
                proof {
                    lemma_find_push(old_names, name@);
                    lemma_find(views(self.names@));
                }
                assert(self@ =~= old(self)@.insert(name@, t));
            },
        }
    }
}

} // verus!

verus! {

// ---------------------------------------------------------------------------
// Type errors

pub open spec fn binop_name(op: BinOp) -> Seq<char> {
    match op {
        BinOp::Add => "Add"@,
        BinOp::Sub => "Sub"@,
        BinOp::Mul => "Mul"@,
        BinOp::Div => "Div"@,
        BinOp::LT => "LT"@,
        BinOp::LTE => "LTE"@,
        BinOp::GT => "GT"@,
        BinOp::GTE => "GTE"@,
        BinOp::Eq => "Eq"@,
        BinOp::Neq => "Neq"@,
        BinOp::And => "And"@,
        BinOp::Or => "Or"@,
        BinOp::BitAnd => "BitAnd"@,
        BinOp::BitOr => "BitOr"@,
        BinOp::BitXor => "BitXor"@,
        BinOp::LShift => "LShift"@,
        BinOp::RShift => "RShift"@,
    }
}

pub open spec fn unop_name(op: UnaryOp) -> Seq<char> {
    match op {
        UnaryOp::Not => "Not"@,
        UnaryOp::Neg => "Neg"@,
        UnaryOp::BitNot => "BitNot"@,
    }
}

/// The message for an ill-typed expression: the first failure met when the
/// operands are checked left to right, innermost first.
pub open spec fn type_error_msg(tys: Map<Seq<char>, Type>, e: ExprV) -> Seq<char>
    decreases e,
{
    match e {
        ExprV::Var(name) => "Unknown variable: "@ + name,
        ExprV::BinOp(op, left, right) => {
            if expr_type(tys, *left) is None {
                type_error_msg(tys, *left)
            } else if expr_type(tys, *right) is None {
                type_error_msg(tys, *right)
            } else {
                "Binary operation "@ + binop_name(op) + " requires integer operands"@
            }
        },
        ExprV::Unary(op, inner) => {
            if expr_type(tys, *inner) is None {
                type_error_msg(tys, *inner)
            } else {
                "Unary operation "@ + unop_name(op) + " requires an integer operand"@
            }
        },
        _ => Seq::empty(),
    }
}

/// A parsing failure: its message and, where there is one, its position as
/// line, column and length.
pub struct ParseFailure {
    pub msg: Seq<char>,
    pub span: Option<(int, int, int)>,
}

pub open spec fn span_view(s: Span) -> (int, int, int) {
    (s.line as int, s.col as int, s.length as int)
}

pub open spec fn parse_failure_view(e: CompileError) -> ParseFailure {
    match e {
        CompileError::ParseError { msg, span } => ParseFailure {
            msg: msg@,
            span: match span {
                Some(s) => Some(span_view(s)),
                None => None,
            },
        },
        CompileError::LexError { msg, span } => ParseFailure { msg: msg@, span: Some((-1, -1, -1)) },
    }
}

fn binop_name_text(op: &BinOp) -> (r: &'static str)
    ensures
        r@ == binop_name(*op),
{
    match op {
        BinOp::Add => "Add",
        BinOp::Sub => "Sub",
        BinOp::Mul => "Mul",
        BinOp::Div => "Div",
        BinOp::LT => "LT",
        BinOp::LTE => "LTE",
        BinOp::GT => "GT",
        BinOp::GTE => "GTE",
        BinOp::Eq => "Eq",
        BinOp::Neq => "Neq",
        BinOp::And => "And",
        BinOp::Or => "Or",
        BinOp::BitAnd => "BitAnd",
        BinOp::BitOr => "BitOr",
        BinOp::BitXor => "BitXor",
        BinOp::LShift => "LShift",
        BinOp::RShift => "RShift",
    }
}

fn unop_name_text(op: &UnaryOp) -> (r: &'static str)
    ensures
        r@ == unop_name(*op),
{
    match op {
        UnaryOp::Not => "Not",
        UnaryOp::Neg => "Neg",
        UnaryOp::BitNot => "BitNot",
    }
}

fn type_error(msg: String) -> (e: CompileError)
    ensures
        parse_failure_view(e) == (ParseFailure { msg: msg@, span: None }),
        e is ParseError,
{
    CompileError::ParseError { msg, span: None }
}

impl Expr {
    /// The type of this expression under `var_types`, or the type error.
    pub fn get_type(&self, var_types: &VarTypes) -> (r: Result<Type, CompileError>)
        requires
            var_types.wf(),
        ensures
            match expr_type(var_types@, expr_view(*self)) {
                Some(t) => r == Ok::<Type, CompileError>(t),
                None => r is Err && r->Err_0 is ParseError
                    && parse_failure_view(r->Err_0) == (ParseFailure { msg: type_error_msg(var_types@, expr_view(*self)), span: None }),
            },
        decreases self,
    {
        match self {
            Expr::Int(_) => Ok(Type::Int),
            Expr::String(_) => Ok(Type::String),
            Expr::Var(name) => match var_types.get(name) {
                Some(t) => Ok(t),
                None => {
                    let mut msg = String::from_str("Unknown variable: ");
                    push_str(&mut msg, name.as_str());
                    Err(type_error(msg))
                },
            },
            Expr::BinOp { op, left, right } => {
                let left_type = match left.get_type(var_types) {
                    Ok(t) => t,
                    Err(e) => {
                        return Err(e);
                    },
                };
                let right_type = match right.get_type(var_types) {
                    Ok(t) => t,
                    Err(e) => {
                        return Err(e);
                    },
                };
                match (left_type, right_type) {
                    (Type::Int, Type::Int) => Ok(Type::Int),
                    _ => {
                        let mut msg = String::from_str("Binary operation ");
                        push_str(&mut msg, binop_name_text(op));
                        push_str(&mut msg, " requires integer operands");
                        Err(type_error(msg))
                    },
                }
            },
            Expr::UnaryOp { op, expr } => {
                let expr_type = match expr.get_type(var_types) {
                    Ok(t) => t,
                    Err(e) => {
                        return Err(e);
                    },
                };
                match expr_type {
                    Type::Int => Ok(Type::Int),
                    Type::String => {
                        let mut msg = String::from_str("Unary operation ");
                        push_str(&mut msg, unop_name_text(op));
                        push_str(&mut msg, " requires an integer operand");
                        Err(type_error(msg))
                    },
                }
            },
        }
    }
}

} // verus!

verus! {

// ---------------------------------------------------------------------------
// The grammar

/// What reading past the last token gives.
pub open spec fn eof_view() -> LexedToken {
    LexedToken { lexeme: Lexeme::Plain(TokenKind::Eof), line: 0, col: 0, len: 0 }
}

pub open spec fn token_views(ts: Seq<Token>) -> Seq<LexedToken> {
    ts.map_values(|t: Token| token_view(t))
}

/// The token at `p`, or the end marker past the last one.
pub open spec fn tok(ts: Seq<LexedToken>, p: int) -> LexedToken {
    if 0 <= p < ts.len() { ts[p] } else { eof_view() }
}

pub open spec fn is_plain(t: LexedToken, k: TokenKind) -> bool {
    t.lexeme == Lexeme::Plain(k)
}

pub open spec fn span_of(t: LexedToken) -> Option<(int, int, int)> {
    Some((t.line, t.col, t.len))
}

pub open spec fn fail(msg: Seq<char>, span: Option<(int, int, int)>) -> ParseFailure {
    ParseFailure { msg, span }
}

/// Past an optional `;` at `p`.
pub open spec fn skip_semi(ts: Seq<LexedToken>, p: int) -> int {
    if is_plain(tok(ts, p), TokenKind::Semicolon) { p + 1 } else { p }
}

pub open spec fn ends_statement(t: LexedToken) -> bool {
    is_plain(t, TokenKind::Semicolon) || is_plain(t, TokenKind::Eof)
}

/// Precedence classes, low to high.
pub const PREC_LOWEST: u8 = 0;
pub const PREC_COMPARE: u8 = 1;
pub const PREC_ADD: u8 = 2;
pub const PREC_MUL: u8 = 3;
pub const PREC_UNARY: u8 = 4;

pub open spec fn is_comparison(t: LexedToken) -> bool {
    is_plain(t, TokenKind::LT) || is_plain(t, TokenKind::LTE) || is_plain(t, TokenKind::GT) || is_plain(t, TokenKind::GTE)
}

/// The precedence of a binary operator token; other tokens have the lowest.
pub open spec fn prec_of(t: LexedToken) -> int {
    if is_plain(t, TokenKind::Star) || is_plain(t, TokenKind::Slash) {
        PREC_MUL as int
    } else if is_plain(t, TokenKind::Plus) || is_plain(t, TokenKind::Minus) {
        PREC_ADD as int
    } else if is_comparison(t) {
        PREC_COMPARE as int
    } else {
        PREC_LOWEST as int
    }
}

/// The operator of a binary operator token.
pub open spec fn binop_of(t: LexedToken) -> BinOp {
    if is_plain(t, TokenKind::Star) { BinOp::Mul }
    else if is_plain(t, TokenKind::Slash) { BinOp::Div }
    else if is_plain(t, TokenKind::Plus) { BinOp::Add }
    else if is_plain(t, TokenKind::Minus) { BinOp::Sub }
    else if is_plain(t, TokenKind::LT) { BinOp::LT }
    else if is_plain(t, TokenKind::LTE) { BinOp::LTE }
    else if is_plain(t, TokenKind::GT) { BinOp::GT }
    else { BinOp::GTE }
}

pub open spec fn is_comparison_op(op: BinOp) -> bool {
    op == BinOp::LT || op == BinOp::LTE || op == BinOp::GT || op == BinOp::GTE
}

pub open spec fn kind_name(k: TokenKind) -> Seq<char> {
    match k {
        TokenKind::Plus => "Plus"@,
        TokenKind::Minus => "Minus"@,
        TokenKind::Star => "Star"@,
        TokenKind::Slash => "Slash"@,
        TokenKind::Assign => "Assign"@,
        TokenKind::Semicolon => "Semicolon"@,
        TokenKind::LParen => "LParen"@,
        TokenKind::RParen => "RParen"@,
        TokenKind::LBrace => "LBrace"@,
        TokenKind::RBrace => "RBrace"@,
        TokenKind::LT => "LT"@,
        TokenKind::GT => "GT"@,
        TokenKind::LTE => "LTE"@,
        TokenKind::GTE => "GTE"@,
        TokenKind::Bang => "Bang"@,
        TokenKind::Print => "Print"@,
        TokenKind::PrintLn => "PrintLn"@,
        TokenKind::Exit => "Exit"@,
        TokenKind::While => "While"@,
        TokenKind::If => "If"@,
        TokenKind::Else => "Else"@,
        TokenKind::Eof => "Eof"@,
        _ => Seq::empty(),
    }
}

/// How a token is named in a message.
pub open spec fn lexeme_text(l: Lexeme) -> Seq<char> {
    match l {
        Lexeme::Int(n) => "Int("@ + dec_int(n as int) + ")"@,
        Lexeme::Ident(s) => "Ident(\""@ + s + "\")"@,
        Lexeme::Str(s) => "String(\""@ + s + "\")"@,
        Lexeme::Plain(k) => kind_name(k),
    }
}

pub open spec fn unexpected(t: LexedToken) -> ParseFailure {
    fail("Unexpected token: "@ + lexeme_text(t.lexeme), span_of(t))
}

/// An expression from `p` whose binary operators all bind tighter than `prec`:
/// the expression and the position after it.
pub open spec fn parse_expr_spec(ts: Seq<LexedToken>, p: int, prec: int, tys: Map<Seq<char>, Type>) -> Result<(ExprV, int), ParseFailure>
    decreases ts.len() - p, 2int,
{
    if !(0 <= p <= ts.len()) {
        Err(fail(Seq::empty(), None))
    } else {
        let t = tok(ts, p);
        let first = if is_plain(t, TokenKind::Bang) || is_plain(t, TokenKind::Minus) {
            match parse_expr_spec(ts, p + 1, PREC_UNARY as int, tys) {
                Ok((e, q)) => Ok((ExprV::Unary(
                    if is_plain(t, TokenKind::Bang) { UnaryOp::Not } else { UnaryOp::Neg },
                    Box::new(e),
                ), q)),
                Err(f) => Err(f),
            }
        } else {
            parse_primary_spec(ts, p, tys)
        };
        match first {
            Ok((left, q)) => if p < q <= ts.len() {
                climb_spec(ts, q, prec, left, tys)
            } else {
                Err(fail(Seq::empty(), None))
            },
            Err(f) => Err(f),
        }
    }
}

/// Folds binary operators that bind tighter than `prec` onto `left`, left to
/// right; a comparison directly followed by another comparison is refused.
pub open spec fn climb_spec(ts: Seq<LexedToken>, p: int, prec: int, left: ExprV, tys: Map<Seq<char>, Type>) -> Result<(ExprV, int), ParseFailure>
    decreases ts.len() - p, 0int,
{
    let t = tok(ts, p);
    if 0 <= p < ts.len() && prec_of(t) > prec {
        let op = binop_of(t);
        match parse_expr_spec(ts, p + 1, prec_of(t), tys) {
            Ok((right, q)) => {
                if is_comparison_op(op) && is_comparison(tok(ts, q)) {
                    Err(fail("Chained comparisons are not allowed"@, span_of(tok(ts, q))))
                } else if p < q <= ts.len() {
                    climb_spec(ts, q, prec, ExprV::BinOp(op, Box::new(left), Box::new(right)), tys)
                } else {
                    Err(fail(Seq::empty(), None))
                }
            },
            Err(f) => Err(f),
        }
    } else {
        Ok((left, p))
    }
}

/// A literal, a declared variable, or a parenthesized expression at `p`.
pub open spec fn parse_primary_spec(ts: Seq<LexedToken>, p: int, tys: Map<Seq<char>, Type>) -> Result<(ExprV, int), ParseFailure>
    decreases ts.len() - p, 1int,
{
    let t = tok(ts, p);
    match t.lexeme {
        Lexeme::Int(n) => Ok((ExprV::Int(n), p + 1)),
        Lexeme::Str(s) => Ok((ExprV::Str(s), p + 1)),
        Lexeme::Ident(name) => if tys.contains_key(name) {
            Ok((ExprV::Var(name), p + 1))
        } else {
            Err(fail("Variable '"@ + name + "' not found"@, None))
        },
        Lexeme::Plain(k) => if k == TokenKind::LParen && 0 <= p < ts.len() {
            match parse_expr_spec(ts, p + 1, PREC_LOWEST as int, tys) {
                Ok((e, q)) => if is_plain(tok(ts, q), TokenKind::RParen) {
                    Ok((e, q + 1))
                } else {
                    Err(fail("Expected ')'"@, span_of(tok(ts, q))))
                },
                Err(f) => Err(f),
            }
        } else {
            Err(unexpected(t))
        },
    }
}

/// The type check of an expression found at a statement: the failure if it has no type.
pub open spec fn check_typed(tys: Map<Seq<char>, Type>, e: ExprV) -> Option<ParseFailure> {
    if expr_type(tys, e) is None { Some(fail(type_error_msg(tys, e), None)) } else { None }
}

/// A condition and the `{` after it, from `p`: the condition and the position inside the brace.
pub open spec fn parse_cond_spec(ts: Seq<LexedToken>, p: int, tys: Map<Seq<char>, Type>) -> Result<(ExprV, int), ParseFailure> {
    match parse_expr_spec(ts, p, PREC_LOWEST as int, tys) {
        Ok((c, q)) => {
            if check_typed(tys, c) is Some {
                Err(check_typed(tys, c)->0)
            } else if expr_type(tys, c) != Some(Type::Int) {
                Err(fail("Condition must be an integer"@, span_of(tok(ts, q))))
            } else if !is_plain(tok(ts, q), TokenKind::LBrace) {
                Err(fail("Expected '{'"@, span_of(tok(ts, q))))
            } else {
                Ok((c, q + 1))
            }
        },
        Err(f) => Err(f),
    }
}

/// One statement at `p`: the statement, the position after it (and after an
/// optional `;`), and the variable types after it.
pub open spec fn parse_stmt_spec(ts: Seq<LexedToken>, p: int, tys: Map<Seq<char>, Type>) -> Result<(StmtV, int, Map<Seq<char>, Type>), ParseFailure>
    decreases ts.len() - p, 0int,
{
    let t = tok(ts, p);
    if !(0 <= p < ts.len()) {
        Err(unexpected(t))
    } else {
        match t.lexeme {
            Lexeme::Ident(name) => {
                if is_plain(tok(ts, p + 1), TokenKind::Assign) {
                    match parse_expr_spec(ts, p + 2, PREC_LOWEST as int, tys) {
                        Ok((e, q)) => match expr_type(tys, e) {
                            Some(ty) => Ok((StmtV::Assign(name, e), skip_semi(ts, q), tys.insert(name, ty))),
                            None => Err(fail(type_error_msg(tys, e), None)),
                        },
                        Err(f) => Err(f),
                    }
                } else {
                    Err(fail("Expected '='"@, span_of(tok(ts, p + 1))))
                }
            },
            Lexeme::Plain(TokenKind::Exit) => {
                if ends_statement(tok(ts, p + 1)) {
                    Ok((StmtV::Exit(None), skip_semi(ts, p + 1), tys))
                } else {
                    match parse_expr_spec(ts, p + 1, PREC_LOWEST as int, tys) {
                        Ok((e, q)) => match expr_type(tys, e) {
                            Some(Type::Int) => Ok((StmtV::Exit(Some(e)), skip_semi(ts, q), tys)),
                            Some(Type::String) => Err(fail("Exit code must be an integer"@, span_of(tok(ts, q)))),
                            None => Err(fail(type_error_msg(tys, e), None)),
                        },
                        Err(f) => Err(f),
                    }
                }
            },
            Lexeme::Plain(TokenKind::Print) | Lexeme::Plain(TokenKind::PrintLn) => {
                let newline = is_plain(t, TokenKind::PrintLn);
                if newline && ends_statement(tok(ts, p + 1)) {
                    Ok((StmtV::PrintLn(None), skip_semi(ts, p + 1), tys))
                } else {
                    match parse_expr_spec(ts, p + 1, PREC_LOWEST as int, tys) {
                        Ok((e, q)) => if check_typed(tys, e) is Some {
                            Err(check_typed(tys, e)->0)
                        } else if newline {
                            Ok((StmtV::PrintLn(Some(e)), skip_semi(ts, q), tys))
                        } else {
                            Ok((StmtV::Print(e), skip_semi(ts, q), tys))
                        },
                        Err(f) => Err(f),
                    }
                }
            },
            Lexeme::Plain(TokenKind::While) => {
                match parse_cond_spec(ts, p + 1, tys) {
                    Ok((c, q)) => if p < q <= ts.len() {
                        match parse_block_spec(ts, q, tys) {
                            Ok((body, r, t1)) => Ok((StmtV::While(c, body), skip_semi(ts, r), t1)),
                            Err(f) => Err(f),
                        }
                    } else {
                        Err(fail(Seq::empty(), None))
                    },
                    Err(f) => Err(f),
                }
            },
            Lexeme::Plain(TokenKind::If) => {
                match parse_cond_spec(ts, p + 1, tys) {
                    Ok((c, q)) => if p < q <= ts.len() {
                        match parse_block_spec(ts, q, tys) {
                            Ok((then_body, r, t1)) => {
                                if is_plain(tok(ts, r), TokenKind::Else) {
                                    if !is_plain(tok(ts, r + 1), TokenKind::LBrace) {
                                        Err(fail("Expected '{'"@, span_of(tok(ts, r + 1))))
                                    } else if p < r + 2 <= ts.len() {
                                        match parse_block_spec(ts, r + 2, t1) {
                                            Ok((else_body, r2, t2)) => Ok((StmtV::If(c, then_body, Some(else_body)), skip_semi(ts, r2), t2)),
                                            Err(f) => Err(f),
                                        }
                                    } else {
                                        Err(fail(Seq::empty(), None))
                                    }
                                } else {
                                    Ok((StmtV::If(c, then_body, None), skip_semi(ts, r), t1))
                                }
                            },
                            Err(f) => Err(f),
                        }
                    } else {
                        Err(fail(Seq::empty(), None))
                    },
                    Err(f) => Err(f),
                }
            },
            _ => Err(unexpected(t)),
        }
    }
}

/// Statements from `p` up to and including the closing `}`.
pub open spec fn parse_block_spec(ts: Seq<LexedToken>, p: int, tys: Map<Seq<char>, Type>) -> Result<(Seq<StmtV>, int, Map<Seq<char>, Type>), ParseFailure>
    decreases ts.len() - p, 1int,
{
    let t = tok(ts, p);
    if !(0 <= p <= ts.len()) {
        Err(fail(Seq::empty(), None))
    } else if is_plain(t, TokenKind::RBrace) {
        Ok((Seq::empty(), p + 1, tys))
    } else if is_plain(t, TokenKind::Eof) {
        Err(fail("Expected '}'"@, span_of(t)))
    } else {
        match parse_stmt_spec(ts, p, tys) {
            Ok((s, q, t1)) => if p < q <= ts.len() {
                match parse_block_spec(ts, q, t1) {
                    Ok((rest, r, t2)) => Ok((seq![s] + rest, r, t2)),
                    Err(f) => Err(f),
                }
            } else {
                Err(fail(Seq::empty(), None))
            },
            Err(f) => Err(f),
        }
    }
}

/// The statements from `p` up to the end marker, and the variable types after them.
pub open spec fn parse_program_spec(ts: Seq<LexedToken>, p: int, tys: Map<Seq<char>, Type>) -> Result<(Seq<StmtV>, Map<Seq<char>, Type>), ParseFailure>
    decreases ts.len() - p,
{
    if !(0 <= p <= ts.len()) {
        Err(fail(Seq::empty(), None))
    } else if is_plain(tok(ts, p), TokenKind::Eof) {
        Ok((Seq::empty(), tys))
    } else {
        match parse_stmt_spec(ts, p, tys) {
            Ok((s, q, t1)) => if p < q <= ts.len() {
                match parse_program_spec(ts, q, t1) {
                    Ok((rest, t2)) => Ok((seq![s] + rest, t2)),
                    Err(f) => Err(f),
                }
            } else {
                Err(fail(Seq::empty(), None))
            },
            Err(f) => Err(f),
        }
    }
}

} // verus!

verus! {

// ---------------------------------------------------------------------------
// Reading tokens

/// The payload-free kind at `pos` (`Eof` past the end), or `None` for a literal or a name.
fn plain_at(tokens: &Vec<Token>, pos: usize) -> (r: Option<TokenKind>)
    ensures
        r == (match tok(token_views(tokens@), pos as int).lexeme {
            Lexeme::Plain(k) => Some(k),
            _ => None::<TokenKind>,
        }),
{
    if pos >= tokens.len() {
        return Some(TokenKind::Eof);
    }
    match &tokens[pos].kind {
        TokenKind::Int(_) => None,
        TokenKind::Ident(_) => None,
        TokenKind::String(_) => None,
        TokenKind::Plus => Some(TokenKind::Plus),
        TokenKind::Minus => Some(TokenKind::Minus),
        TokenKind::Star => Some(TokenKind::Star),
        TokenKind::Slash => Some(TokenKind::Slash),
        TokenKind::Assign => Some(TokenKind::Assign),
        TokenKind::Semicolon => Some(TokenKind::Semicolon),
        TokenKind::LParen => Some(TokenKind::LParen),
        TokenKind::RParen => Some(TokenKind::RParen),
        TokenKind::LBrace => Some(TokenKind::LBrace),
        TokenKind::RBrace => Some(TokenKind::RBrace),
        TokenKind::LT => Some(TokenKind::LT),
        TokenKind::GT => Some(TokenKind::GT),
        TokenKind::LTE => Some(TokenKind::LTE),
        TokenKind::GTE => Some(TokenKind::GTE),
        TokenKind::Bang => Some(TokenKind::Bang),
        TokenKind::Print => Some(TokenKind::Print),
        TokenKind::PrintLn => Some(TokenKind::PrintLn),
        TokenKind::Exit => Some(TokenKind::Exit),
        TokenKind::While => Some(TokenKind::While),
        TokenKind::If => Some(TokenKind::If),
        TokenKind::Else => Some(TokenKind::Else),
        TokenKind::Eof => Some(TokenKind::Eof),
    }
}

fn span_at(tokens: &Vec<Token>, pos: usize) -> (r: Span)
    ensures
        Some(span_view(r)) == span_of(tok(token_views(tokens@), pos as int)),
{
    if pos < tokens.len() {
        tokens[pos].span
    } else {
        Span::new(0, 0, 0)
    }
}

fn at_semicolon(tokens: &Vec<Token>, pos: usize) -> (r: bool)
    ensures
        r == is_plain(tok(token_views(tokens@), pos as int), TokenKind::Semicolon),
{
    matches!(plain_at(tokens, pos), Some(TokenKind::Semicolon))
}

fn skip_semicolon(tokens: &Vec<Token>, pos: usize) -> (r: usize)
    requires
        pos <= tokens.len(),
    ensures
        r == skip_semi(token_views(tokens@), pos as int),
        r <= tokens.len(),
{
    if at_semicolon(tokens, pos) {
        pos + 1
    } else {
        pos
    }
}

fn at_statement_end(tokens: &Vec<Token>, pos: usize) -> (r: bool)
    ensures
        r == ends_statement(tok(token_views(tokens@), pos as int)),
{
    matches!(plain_at(tokens, pos), Some(TokenKind::Semicolon) | Some(TokenKind::Eof))
}

fn precedence(tokens: &Vec<Token>, pos: usize) -> (r: u8)
    ensures
        r as int == prec_of(tok(token_views(tokens@), pos as int)),
{
    match plain_at(tokens, pos) {
        Some(TokenKind::Star) | Some(TokenKind::Slash) => PREC_MUL,
        Some(TokenKind::Plus) | Some(TokenKind::Minus) => PREC_ADD,
        Some(TokenKind::LT) | Some(TokenKind::LTE) | Some(TokenKind::GT) | Some(TokenKind::GTE) => PREC_COMPARE,
        _ => PREC_LOWEST,
    }
}

fn binop_at(tokens: &Vec<Token>, pos: usize) -> (r: BinOp)
    ensures
        r == binop_of(tok(token_views(tokens@), pos as int)),
{
    match plain_at(tokens, pos) {
        Some(TokenKind::Star) => BinOp::Mul,
        Some(TokenKind::Slash) => BinOp::Div,
        Some(TokenKind::Plus) => BinOp::Add,
        Some(TokenKind::Minus) => BinOp::Sub,
        Some(TokenKind::LT) => BinOp::LT,
        Some(TokenKind::LTE) => BinOp::LTE,
        Some(TokenKind::GT) => BinOp::GT,
        _ => BinOp::GTE,
    }
}

fn kind_name_text(k: &TokenKind) -> (r: &'static str)
    ensures
        r@ == kind_name(*k),
{
    proof {
        reveal_strlit("");
    }
    match k {
        TokenKind::Plus => "Plus",
        TokenKind::Minus => "Minus",
        TokenKind::Star => "Star",
        TokenKind::Slash => "Slash",
        TokenKind::Assign => "Assign",
        TokenKind::Semicolon => "Semicolon",
        TokenKind::LParen => "LParen",
        TokenKind::RParen => "RParen",
        TokenKind::LBrace => "LBrace",
        TokenKind::RBrace => "RBrace",
        TokenKind::LT => "LT",
        TokenKind::GT => "GT",
        TokenKind::LTE => "LTE",
        TokenKind::GTE => "GTE",
        TokenKind::Bang => "Bang",
        TokenKind::Print => "Print",
        TokenKind::PrintLn => "PrintLn",
        TokenKind::Exit => "Exit",
        TokenKind::While => "While",
        TokenKind::If => "If",
        TokenKind::Else => "Else",
        TokenKind::Eof => "Eof",
        _ => "",
    }
}

/// The "unexpected token" failure for the token at `pos`.
fn unexpected_at(tokens: &Vec<Token>, pos: usize) -> (e: CompileError)
    ensures
        e is ParseError,
        parse_failure_view(e) == unexpected(tok(token_views(tokens@), pos as int)),
{
    let mut msg = String::from_str("Unexpected token: ");
    if pos >= tokens.len() {
        push_str(&mut msg, "Eof");
    } else {
        match &tokens[pos].kind {
            TokenKind::Int(n) => {
                push_str(&mut msg, "Int(");
                crate::text::push_int(&mut msg, *n as i64);
                push_str(&mut msg, ")");
            },
            TokenKind::Ident(s) => {
                push_str(&mut msg, "Ident(\"");
                push_str(&mut msg, s.as_str());
                push_str(&mut msg, "\")");
            },
            TokenKind::String(s) => {
                push_str(&mut msg, "String(\"");
                push_str(&mut msg, s.as_str());
                push_str(&mut msg, "\")");
            },
            k => {
                push_str(&mut msg, kind_name_text(k));
            },
        }
    }
    let span = span_at(tokens, pos);
    let e = CompileError::ParseError { msg, span: Some(span) };
    assert(parse_failure_view(e).msg =~= unexpected(tok(token_views(tokens@), pos as int)).msg);
    e
}

fn failure(msg: &str, span: Option<Span>) -> (e: CompileError)
    ensures
        e is ParseError,
        parse_failure_view(e) == (ParseFailure {
            msg: msg@,
            span: match span {
                Some(s) => Some(span_view(s)),
                None => None,
            },
        }),
{
    CompileError::ParseError { msg: String::from_str(msg), span }
}

} // verus!

verus! {

/// The parse of an expression as the grammar gives it, for an exec result.
pub open spec fn expr_result_ok(ts: Seq<LexedToken>, p: int, spec_r: Result<(ExprV, int), ParseFailure>, r: Result<(Expr, usize), CompileError>) -> bool {
    match spec_r {
        Ok((e, q)) => r is Ok && expr_view(r->Ok_0.0) == e && r->Ok_0.1 == q && p < q <= ts.len(),
        Err(f) => r is Err && r->Err_0 is ParseError && parse_failure_view(r->Err_0) == f,
    }
}

fn parse_expr_prec(tokens: &Vec<Token>, tys: &VarTypes, pos: usize, prec: u8) -> (r: Result<(Expr, usize), CompileError>)
    requires
        pos <= tokens.len(),
        tys.wf(),
    ensures
        expr_result_ok(token_views(tokens@), pos as int, parse_expr_spec(token_views(tokens@), pos as int, prec as int, tys@), r),
    decreases tokens@.len() - pos, 2int,
{
    let ghost ts = token_views(tokens@);
    let first = match plain_at(tokens, pos) {
        Some(TokenKind::Bang) => match parse_expr_prec(tokens, tys, pos + 1, PREC_UNARY) {
            Ok((e, q)) => Ok((Expr::UnaryOp { op: UnaryOp::Not, expr: Box::new(e) }, q)),
            Err(e) => Err(e),
        },
        Some(TokenKind::Minus) => match parse_expr_prec(tokens, tys, pos + 1, PREC_UNARY) {
            Ok((e, q)) => Ok((Expr::UnaryOp { op: UnaryOp::Neg, expr: Box::new(e) }, q)),
            Err(e) => Err(e),
        },
        _ => parse_primary(tokens, tys, pos),
    };
    let (mut left, mut cur) = match first {
        Ok(x) => x,
        Err(e) => {
            return Err(e);
        },
    };
    while cur < tokens.len() && precedence(tokens, cur) > prec
        invariant_except_break
            pos < cur <= tokens.len(),
            tys.wf(),
            ts == token_views(tokens@),
            parse_expr_spec(ts, pos as int, prec as int, tys@) == climb_spec(ts, cur as int, prec as int, expr_view(left), tys@),
        ensures
            pos < cur <= tokens.len(),
            parse_expr_spec(ts, pos as int, prec as int, tys@) == Ok::<(ExprV, int), ParseFailure>((expr_view(left), cur as int)),
        decreases tokens.len() - cur,
    {
        let op = binop_at(tokens, cur);
        let op_prec = precedence(tokens, cur);
        let (right, q) = match parse_expr_prec(tokens, tys, cur + 1, op_prec) {
            Ok(x) => x,
            Err(e) => {
                return Err(e);
            },
        };
        let is_comp = matches!(op, BinOp::GT | BinOp::GTE | BinOp::LT | BinOp::LTE);
        let is_next_comp = matches!(plain_at(tokens, q), Some(TokenKind::GT) | Some(TokenKind::GTE) | Some(TokenKind::LT) | Some(TokenKind::LTE));
        if is_comp && is_next_comp {
            return Err(failure("Chained comparisons are not allowed", Some(span_at(tokens, q))));
        }
        left = Expr::BinOp { op, left: Box::new(left), right: Box::new(right) };
        cur = q;
    }
    Ok((left, cur))
}

fn parse_primary(tokens: &Vec<Token>, tys: &VarTypes, pos: usize) -> (r: Result<(Expr, usize), CompileError>)
    requires
        pos <= tokens.len(),
        tys.wf(),
    ensures
        expr_result_ok(token_views(tokens@), pos as int, parse_primary_spec(token_views(tokens@), pos as int, tys@), r),
    decreases tokens@.len() - pos, 1int,
{
    if pos >= tokens.len() {
        return Err(unexpected_at(tokens, pos));
    }
    match &tokens[pos].kind {
        TokenKind::Int(n) => Ok((Expr::Int(*n), pos + 1)),
        TokenKind::Ident(name) => {
            let var = name.clone();
            if tys.get(&var).is_none() {
                let mut msg = String::from_str("Variable '");
                push_str(&mut msg, var.as_str());
                push_str(&mut msg, "' not found");
                return Err(CompileError::ParseError { msg, span: None });
            }
            Ok((Expr::Var(var), pos + 1))
        },
        TokenKind::LParen => {
            let (expr, q) = match parse_expr_prec(tokens, tys, pos + 1, PREC_LOWEST) {
                Ok(x) => x,
                Err(e) => {
                    return Err(e);
                },
            };
            if matches!(plain_at(tokens, q), Some(TokenKind::RParen)) {
                Ok((expr, q + 1))
            } else {
                Err(failure("Expected ')'", Some(span_at(tokens, q))))
            }
        },
        TokenKind::String(s) => Ok((Expr::String(s.clone()), pos + 1)),
        _ => Err(unexpected_at(tokens, pos)),
    }
}

} // verus!

verus! {

pub open spec fn prepend_stmts(
    pre: Seq<StmtV>,
    r: Result<(Seq<StmtV>, int, Map<Seq<char>, Type>), ParseFailure>,
) -> Result<(Seq<StmtV>, int, Map<Seq<char>, Type>), ParseFailure> {
    match r {
        Ok((ss, q, t)) => Ok((pre + ss, q, t)),
        Err(f) => Err(f),
    }
}

pub open spec fn prepend_program(
    pre: Seq<StmtV>,
    r: Result<(Seq<StmtV>, Map<Seq<char>, Type>), ParseFailure>,
) -> Result<(Seq<StmtV>, Map<Seq<char>, Type>), ParseFailure> {
    match r {
        Ok((ss, t)) => Ok((pre + ss, t)),
        Err(f) => Err(f),
    }
}

proof fn lemma_block_view_push(ss: Seq<Stmt>, s: Stmt)
    ensures
        block_view(ss.push(s), 0) == block_view(ss, 0).push(stmt_view(s)),
{
    lemma_block_view_index(ss);
    lemma_block_view_index(ss.push(s));
    assert(block_view(ss.push(s), 0) =~= block_view(ss, 0).push(stmt_view(s)));
}

proof fn lemma_block_types_push_from(tys: Map<Seq<char>, Type>, vs: Seq<StmtV>, x: StmtV, i: int)
    requires
        0 <= i <= vs.len(),
    ensures
        block_types(tys, vs.push(x), i) == (match block_types(tys, vs, i) {
            Some(t) => stmt_types(t, x),
            None => None,
        }),
    decreases vs.len() - i,
{
    if i < vs.len() {
        assert(vs.push(x)[i] == vs[i]);
        match stmt_types(tys, vs[i]) {
            Some(t) => lemma_block_types_push_from(t, vs, x, i + 1),
            None => {},
        }
    } else {
        assert(vs.push(x)[i] == x);
        match stmt_types(tys, x) {
            Some(t) => {
                assert(block_types(t, vs.push(x), i + 1) == Some(t));
            },
            None => {},
        }
    }
}

proof fn lemma_block_types_push(tys: Map<Seq<char>, Type>, vs: Seq<StmtV>, x: StmtV)
    ensures
        block_types(tys, vs.push(x), 0) == (match block_types(tys, vs, 0) {
            Some(t) => stmt_types(t, x),
            None => None,
        }),
{
    lemma_block_types_push_from(tys, vs, x, 0);
}

/// The parse of a statement as the grammar gives it, for an exec result; a
/// statement that parses is well typed.
pub open spec fn stmt_result_ok(
    ts: Seq<LexedToken>,
    p: int,
    tys0: Map<Seq<char>, Type>,
    tys1: VarTypes,
    r: Result<(Stmt, usize), CompileError>,
) -> bool {
    match parse_stmt_spec(ts, p, tys0) {
        Ok((s, q, t1)) => r is Ok && stmt_view(r->Ok_0.0) == s && r->Ok_0.1 == q && tys1@ == t1 && tys1.wf()
            && p < q <= ts.len() && stmt_types(tys0, s) == Some(t1),
        Err(f) => r is Err && r->Err_0 is ParseError && parse_failure_view(r->Err_0) == f,
    }
}

pub open spec fn block_result_ok(
    ts: Seq<LexedToken>,
    p: int,
    tys0: Map<Seq<char>, Type>,
    tys1: VarTypes,
    r: Result<(Vec<Stmt>, usize), CompileError>,
) -> bool {
    match parse_block_spec(ts, p, tys0) {
        Ok((ss, q, t1)) => r is Ok && block_view(r->Ok_0.0@, 0) == ss && r->Ok_0.1 == q && tys1@ == t1 && tys1.wf()
            && p < q <= ts.len() && block_types(tys0, ss, 0) == Some(t1),
        Err(f) => r is Err && r->Err_0 is ParseError && parse_failure_view(r->Err_0) == f,
    }
}

/// Parses a condition and the `{` after it.
fn parse_condition(tokens: &Vec<Token>, tys: &VarTypes, pos: usize) -> (r: Result<(Expr, usize), CompileError>)
    requires
        pos <= tokens.len(),
        tys.wf(),
    ensures
        match parse_cond_spec(token_views(tokens@), pos as int, tys@) {
            Ok((c, q)) => r is Ok && expr_view(r->Ok_0.0) == c && r->Ok_0.1 == q && pos < q <= tokens.len()
                && expr_type(tys@, c) == Some(Type::Int),
            Err(f) => r is Err && r->Err_0 is ParseError && parse_failure_view(r->Err_0) == f,
        },
{
    let (cond, q) = match parse_expr_prec(tokens, tys, pos, PREC_LOWEST) {
        Ok(x) => x,
        Err(e) => {
            return Err(e);
        },
    };
    match cond.get_type(tys) {
        Err(e) => {
            return Err(e);
        },
        Ok(Type::String) => {
            return Err(failure("Condition must be an integer", Some(span_at(tokens, q))));
        },
        Ok(Type::Int) => {},
    }
    if !matches!(plain_at(tokens, q), Some(TokenKind::LBrace)) {
        return Err(failure("Expected '{'", Some(span_at(tokens, q))));
    }
    Ok((cond, q + 1))
}

} // verus!

verus! {

fn parse_statement(tokens: &Vec<Token>, tys: &mut VarTypes, pos: usize) -> (r: Result<(Stmt, usize), CompileError>)
    requires
        pos <= tokens.len(),
        old(tys).wf(),
    ensures
        stmt_result_ok(token_views(tokens@), pos as int, old(tys)@, *final(tys), r),
    decreases tokens@.len() - pos, 0int,
{
    let ghost ts = token_views(tokens@);
    if pos >= tokens.len() {
        return Err(unexpected_at(tokens, pos));
    }
    match &tokens[pos].kind {
        TokenKind::Ident(name) => {
            let var = name.clone();
            if !matches!(plain_at(tokens, pos + 1), Some(TokenKind::Assign)) {
                return Err(failure("Expected '='", Some(span_at(tokens, pos + 1))));
            }
            let (expr, q) = match parse_expr_prec(tokens, tys, pos + 2, PREC_LOWEST) {
                Ok(x) => x,
                Err(e) => {
                    return Err(e);
                },
            };
            let expr_type = match expr.get_type(tys) {
                Ok(t) => t,
                Err(e) => {
                    return Err(e);
                },
            };
            tys.insert(&var, expr_type);
            Ok((Stmt::Assign { var, expr }, skip_semicolon(tokens, q)))
        },
        TokenKind::Exit => {
            if at_statement_end(tokens, pos + 1) {
                return Ok((Stmt::Exit(None), skip_semicolon(tokens, pos + 1)));
            }
            let (expr, q) = match parse_expr_prec(tokens, tys, pos + 1, PREC_LOWEST) {
                Ok(x) => x,
                Err(e) => {
                    return Err(e);
                },
            };
            match expr.get_type(tys) {
                Err(e) => Err(e),
                Ok(Type::String) => Err(failure("Exit code must be an integer", Some(span_at(tokens, q)))),
                Ok(Type::Int) => Ok((Stmt::Exit(Some(expr)), skip_semicolon(tokens, q))),
            }
        },
        TokenKind::Print | TokenKind::PrintLn => {
            let is_newline = matches!(tokens[pos].kind, TokenKind::PrintLn);
            if is_newline && at_statement_end(tokens, pos + 1) {
                return Ok((Stmt::PrintLn { expr: None }, skip_semicolon(tokens, pos + 1)));
            }
            let (expr, q) = match parse_expr_prec(tokens, tys, pos + 1, PREC_LOWEST) {
                Ok(x) => x,
                Err(e) => {
                    return Err(e);
                },
            };
            if let Err(e) = expr.get_type(tys) {
                return Err(e);
            }
            let end = skip_semicolon(tokens, q);
            if is_newline {
                Ok((Stmt::PrintLn { expr: Some(expr) }, end))
            } else {
                Ok((Stmt::Print { expr }, end))
            }
        },
        TokenKind::While => {
            let (condition, q) = match parse_condition(tokens, tys, pos + 1) {
                Ok(x) => x,
                Err(e) => {
                    return Err(e);
                },
            };
            let (body, r) = match parse_block(tokens, tys, q) {
                Ok(x) => x,
                Err(e) => {
                    return Err(e);
                },
            };
            Ok((Stmt::While { condition, body }, skip_semicolon(tokens, r)))
        },
        TokenKind::If => {
            let (condition, q) = match parse_condition(tokens, tys, pos + 1) {
                Ok(x) => x,
                Err(e) => {
                    return Err(e);
                },
            };
            let (then_body, r) = match parse_block(tokens, tys, q) {
                Ok(x) => x,
                Err(e) => {
                    return Err(e);
                },
            };
            if matches!(plain_at(tokens, r), Some(TokenKind::Else)) {
                if !matches!(plain_at(tokens, r + 1), Some(TokenKind::LBrace)) {
                    return Err(failure("Expected '{'", Some(span_at(tokens, r + 1))));
                }
                let (else_body, r2) = match parse_block(tokens, tys, r + 2) {
                    Ok(x) => x,
                    Err(e) => {
                        return Err(e);
                    },
                };
                Ok((Stmt::If { condition, then_body, else_body: Some(else_body) }, skip_semicolon(tokens, r2)))
            } else {
                Ok((Stmt::If { condition, then_body, else_body: None }, skip_semicolon(tokens, r)))
            }
        },
        _ => Err(unexpected_at(tokens, pos)),
    }
}

/// Parses statements up to and including the closing `}`.
fn parse_block(tokens: &Vec<Token>, tys: &mut VarTypes, pos: usize) -> (r: Result<(Vec<Stmt>, usize), CompileError>)
    requires
        pos <= tokens.len(),
        old(tys).wf(),
    ensures
        block_result_ok(token_views(tokens@), pos as int, old(tys)@, *final(tys), r),
    decreases tokens@.len() - pos, 1int,
{
    let ghost ts = token_views(tokens@);
    let ghost t0 = tys@;
    let mut stmts: Vec<Stmt> = Vec::new();
    let mut cur = pos;
    assert(prepend_stmts(block_view(stmts@, 0), parse_block_spec(ts, cur as int, tys@)) =~= parse_block_spec(ts, pos as int, t0));
    loop
        invariant
            pos <= cur <= tokens.len(),
            tys.wf(),
            ts == token_views(tokens@),
            t0 == old(tys)@,
            parse_block_spec(ts, pos as int, t0) == prepend_stmts(block_view(stmts@, 0), parse_block_spec(ts, cur as int, tys@)),
            block_types(t0, block_view(stmts@, 0), 0) == Some(tys@),
        decreases tokens.len() - cur,
    {
        if matches!(plain_at(tokens, cur), Some(TokenKind::RBrace)) {
            assert(block_view(stmts@, 0) + Seq::<StmtV>::empty() =~= block_view(stmts@, 0));
            return Ok((stmts, cur + 1));
        }
        if matches!(plain_at(tokens, cur), Some(TokenKind::Eof)) {
            return Err(failure("Expected '}'", Some(span_at(tokens, cur))));
        }
        let ghost before = tys@;
        let ghost pre = block_view(stmts@, 0);
        let (stmt, q) = match parse_statement(tokens, tys, cur) {
            Ok(x) => x,
            Err(e) => {
                return Err(e);
            },
        };
        proof {
            lemma_block_view_push(stmts@, stmt);
            lemma_block_types_push(t0, pre, stmt_view(stmt));
            let rest = parse_block_spec(ts, q as int, tys@);
            assert(prepend_stmts(pre, prepend_stmts(seq![stmt_view(stmt)], rest)) == prepend_stmts(pre.push(stmt_view(stmt)), rest)) by {
                match rest {
                    Ok((ss, r, t)) => {
                        assert(pre + (seq![stmt_view(stmt)] + ss) =~= pre.push(stmt_view(stmt)) + ss);
                    },
                    Err(f) => {},
                }
            }
        }
        stmts.push(stmt);
        cur = q;
    }
}

} // verus!

verus! {

impl VarTypes {
    /// A copy of the table.
    pub fn duplicate(&self) -> (r: VarTypes)
        requires
            self.wf(),
        ensures
            r.wf(),
            r@ == self@,
    {
        let mut names: Vec<String> = Vec::new();
        let mut types: Vec<Type> = Vec::new();
        let mut i: usize = 0;
        while i < self.names.len()
            invariant
                i <= self.names.len(),
                self.wf(),
                views(names@) == views(self.names@).take(i as int),
                types@ == self.types@.take(i as int),
            decreases self.names.len() - i,
        {
            let n = self.names[i].clone();
            let ghost before = views(names@);
            names.push(n);
            types.push(self.types[i]);
            assert(views(names@) =~= before.push(n@));
            assert(views(names@) =~= views(self.names@).take(i + 1));
            assert(types@ =~= self.types@.take(i + 1));
            i += 1;
        }
        assert(views(names@) =~= views(self.names@));
        assert(types@ =~= self.types@);
        let r = VarTypes { names, types };
        assert(r@ =~= self@);
        r
    }
}

/// A parser over a token sequence, with the variable types declared so far.
pub struct Parser {
    tokens: Vec<Token>,
    pos: usize,
    var_types: VarTypes,
}

impl Parser {
    pub closed spec fn token_seq(&self) -> Seq<LexedToken> {
        token_views(self.tokens@)
    }

    pub closed spec fn position(&self) -> int {
        self.pos as int
    }

    pub closed spec fn types(&self) -> Map<Seq<char>, Type> {
        self.var_types@
    }

    pub closed spec fn wf(&self) -> bool {
        self.pos <= self.tokens.len() && self.var_types.wf()
    }

    pub fn new(tokens: Vec<Token>) -> (r: Parser)
        ensures
            r.wf(),
            r.token_seq() == token_views(tokens@),
            r.position() == 0,
            r.types() == Map::<Seq<char>, Type>::empty(),
    {
        Parser { tokens, pos: 0, var_types: VarTypes::new() }
    }

    /// Parses and type-checks statements up to the end marker: the statements and
    /// the type each variable was last assigned, or the first failure.
    pub fn parse(&mut self) -> (r: Result<(Vec<Stmt>, VarTypes), CompileError>)
        requires
            old(self).wf(),
        ensures
            match parse_program_spec(old(self).token_seq(), old(self).position(), old(self).types()) {
                Ok((ss, t)) => r is Ok && block_view(r->Ok_0.0@, 0) == ss && r->Ok_0.1@ == t && r->Ok_0.1.wf()
                    && block_types(old(self).types(), ss, 0) == Some(t),
                Err(f) => r is Err && r->Err_0 is ParseError && parse_failure_view(r->Err_0) == f,
            },
    {
        let ghost ts = token_views(self.tokens@);
        let ghost t0 = self.var_types@;
        let ghost p0 = self.pos as int;
        let mut stmts: Vec<Stmt> = Vec::new();
        assert(prepend_program(block_view(stmts@, 0), parse_program_spec(ts, p0, t0)) =~= parse_program_spec(ts, p0, t0));
        loop
            invariant
                p0 <= self.pos <= self.tokens.len(),
                self.var_types.wf(),
                ts == token_views(self.tokens@),
                t0 == old(self).types(),
                p0 == old(self).position(),
                ts == old(self).token_seq(),
                parse_program_spec(ts, p0, t0) == prepend_program(block_view(stmts@, 0), parse_program_spec(ts, self.pos as int, self.var_types@)),
                block_types(t0, block_view(stmts@, 0), 0) == Some(self.var_types@),
            decreases self.tokens.len() - self.pos,
        {
            if matches!(plain_at(&self.tokens, self.pos), Some(TokenKind::Eof)) {
                assert(block_view(stmts@, 0) + Seq::<StmtV>::empty() =~= block_view(stmts@, 0));
                return Ok((stmts, self.var_types.duplicate()));
            }
            let ghost pre = block_view(stmts@, 0);
            let (stmt, q) = match parse_statement(&self.tokens, &mut self.var_types, self.pos) {
                Ok(x) => x,
                Err(e) => {
                    return Err(e);
                },
            };
            proof {
                lemma_block_view_push(stmts@, stmt);
                lemma_block_types_push(t0, pre, stmt_view(stmt));
                let rest = parse_program_spec(ts, q as int, self.var_types@);
                assert(prepend_program(pre, prepend_program(seq![stmt_view(stmt)], rest)) == prepend_program(pre.push(stmt_view(stmt)), rest)) by {
                    match rest {
                        Ok((ss, t)) => {
                            assert(pre + (seq![stmt_view(stmt)] + ss) =~= pre.push(stmt_view(stmt)) + ss);
                        },
                        Err(f) => {},
                    }
                }
            }
            stmts.push(stmt);
            self.pos = q;
        }
    }
}

} // verus!
