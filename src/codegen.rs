use vstd::prelude::*;
use crate::parser::{
    BinOp, Expr, Stmt, Type, UnaryOp, ExprV, StmtV, expr_view, stmt_view, block_view, lemma_block_view_index, expr_size,
    stmt_size, block_size, expr_type, stmt_types, block_types,
};
use crate::text::{push_char, push_str, push_nat, dec_nat, digit_char};

verus! {

/// The largest program, in nodes, that one generator lowers: below it every
/// counter and stack offset fits its integer type.
///
/// The stack frame itself is fixed at 512 bytes, with variable slots from offset 0
/// and spill slots from `SPILL_BASE`: a program with more than 32 variables, or
/// whose spills reach past the frame, runs outside its frame. That is a known
/// limit of this generator, not a checked error.
pub const MAX_PROGRAM_NODES: u64 = 0x1000_0000;

/// The stack offset where spilled registers start, just past the variable slots.
pub const SPILL_BASE: u64 = 128;

/// The generator's state, as plain values.
pub struct GenState {
    /// Lines of the text section emitted so far.
    pub lines: Seq<Seq<char>>,
    /// Free temporary registers (by number: `t0` to `t6`); the last is handed out first.
    pub pool: Seq<u8>,
    /// The stack offset of the next spill.
    pub spill: int,
    /// Interned string literals; the `i`-th has the label `str<i>`.
    pub strings: Seq<Seq<char>>,
    /// Variables in first-assigned order; the `i`-th lives at offset `4 * i`.
    pub vars: Seq<Seq<char>>,
    /// The type last assigned to each variable.
    pub types: Seq<Type>,
    pub whiles: int,
    pub ifs: int,
    /// How many registers were handed out and given back.
    pub allocs: int,
    pub frees: int,
}

// ---------------------------------------------------------------------------
// Text of the emitted lines

pub open spec fn reg_text(r: u8) -> Seq<char> {
    seq!['t'] + dec_nat(r as nat)
}

pub open spec fn is_printable(c: char) -> bool {
    ' ' <= c <= '~'
}

pub open spec fn hex_digit(d: nat) -> char {
    if d < 10 { digit_char(d) }
    else if d == 10 { 'A' }
    else if d == 11 { 'B' }
    else if d == 12 { 'C' }
    else if d == 13 { 'D' }
    else if d == 14 { 'E' }
    else { 'F' }
}

/// Upper-case hexadecimal spelling of `n`.
pub open spec fn hex_nat(n: nat) -> Seq<char>
    decreases n,
{
    if n < 16 {
        seq![hex_digit(n)]
    } else {
        hex_nat(n / 16).push(hex_digit(n % 16))
    }
}

/// How one character is written inside an `.asciiz` string.
pub open spec fn escape_char(c: char) -> Seq<char> {
    if c == '\\' { seq!['\\', '\\'] }
    else if c == '"' { seq!['\\', '"'] }
    else if c == '\n' { seq!['\\', 'n'] }
    else if c == '\t' { seq!['\\', 't'] }
    else if c == '\r' { seq!['\\', 'r'] }
    else if is_printable(c) { seq![c] }
    else if (c as u32) < 16 { seq!['\\', 'x', '0'] + hex_nat(c as u32 as nat) }
    else { seq!['\\', 'x'] + hex_nat(c as u32 as nat) }
}

/// A string escaped for the assembler's string syntax.
pub open spec fn escape_text(s: Seq<char>) -> Seq<char>
    decreases s.len(),
{
    if s.len() == 0 {
        Seq::empty()
    } else {
        escape_text(s.drop_last()) + escape_char(s.last())
    }
}

pub open spec fn quote_char(c: char) -> Seq<char> {
    if c == '\\' || c == '"' { seq!['\\', c] } else { seq![c] }
}

/// The body of a quoted rendering of printable text: backslash and quote get a backslash.
pub open spec fn quote_body(s: Seq<char>) -> Seq<char>
    decreases s.len(),
{
    if s.len() == 0 {
        Seq::empty()
    } else {
        quote_body(s.drop_last()) + quote_char(s.last())
    }
}

pub open spec fn quoted(s: Seq<char>) -> Seq<char> {
    seq!['"'] + quote_body(s) + seq!['"']
}

pub open spec fn str_label(i: int) -> Seq<char> {
    "str"@ + dec_nat(i as nat)
}

pub open spec fn while_start(n: int) -> Seq<char> {
    "W"@ + dec_nat(n as nat) + "_start"@
}

pub open spec fn while_end(n: int) -> Seq<char> {
    "W"@ + dec_nat(n as nat) + "_end"@
}

pub open spec fn if_else(n: int) -> Seq<char> {
    "IF"@ + dec_nat(n as nat) + "_else"@
}

pub open spec fn if_end(n: int) -> Seq<char> {
    "IF"@ + dec_nat(n as nat) + "_end"@
}

/// `  op d, a, b` followed by `comment`.
pub open spec fn ins3(op: Seq<char>, d: Seq<char>, a: Seq<char>, b: Seq<char>, comment: Seq<char>) -> Seq<char> {
    "  "@ + op + " "@ + d + ", "@ + a + ", "@ + b + comment
}

/// `  op d, a` followed by `comment`.
pub open spec fn ins2(op: Seq<char>, d: Seq<char>, a: Seq<char>, comment: Seq<char>) -> Seq<char> {
    "  "@ + op + " "@ + d + ", "@ + a + comment
}

/// `  op r, off(sp) # note` (a load or store at a stack offset).
pub open spec fn stack_line(op: Seq<char>, r: Seq<char>, off: int, note: Seq<char>) -> Seq<char> {
    "  "@ + op + " "@ + r + ", "@ + dec_nat(off as nat) + "(sp) # "@ + note
}

pub open spec fn spill_line(off: int) -> Seq<char> {
    stack_line("sw"@, "t0"@, off, "Spill t0 to stack"@)
}

pub open spec fn li_line(r: u8, n: i32) -> Seq<char> {
    "  li "@ + reg_text(r) + ", "@ + crate::text::dec_int(n as int) + " # Load immediate "@ + crate::text::dec_int(n as int)
}

pub open spec fn label_line(l: Seq<char>) -> Seq<char> {
    l + ":"@
}

pub open spec fn jump_line(l: Seq<char>, comment: Seq<char>) -> Seq<char> {
    "  j "@ + l + comment
}

pub open spec fn branch_line(r: u8, l: Seq<char>, comment: Seq<char>) -> Seq<char> {
    "  beq "@ + reg_text(r) + ", x0, "@ + l + comment
}

pub open spec fn norm_line(d: u8) -> Seq<char> {
    ins3("sltu"@, reg_text(d), "x0"@, reg_text(d), " # Normalize result"@)
}

/// The instructions for a binary operator: result in `d`, operands in `a` and `b`.
/// Comparisons and logical operators end normalized to 0 or 1.
pub open spec fn binop_lines(op: BinOp, d: u8, a: u8, b: u8) -> Seq<Seq<char>> {
    let (rd, ra, rb) = (reg_text(d), reg_text(a), reg_text(b));
    match op {
        BinOp::Add => seq![ins3("add"@, rd, ra, rb, " # addition"@)],
        BinOp::Sub => seq![ins3("sub"@, rd, ra, rb, " # subtraction"@)],
        BinOp::Mul => seq![ins3("mul"@, rd, ra, rb, " # multiplication"@)],
        BinOp::Div => seq![ins3("div"@, rd, ra, rb, " # division"@)],
        BinOp::LT => seq![ins3("slt"@, rd, ra, rb, " # left < right"@), norm_line(d)],
        BinOp::LTE => seq![
            ins3("slt"@, rd, rb, ra, " # right < left"@),
            ins3("xori"@, rd, rd, "1"@, " # For <="@),
            norm_line(d),
        ],
        BinOp::GT => seq![ins3("slt"@, rd, rb, ra, " # right < left"@), norm_line(d)],
        BinOp::GTE => seq![
            ins3("slt"@, rd, ra, rb, " # left < right"@),
            ins3("xori"@, rd, rd, "1"@, " # For >="@),
            norm_line(d),
        ],
        BinOp::Eq => seq![
            ins3("sub"@, rd, ra, rb, " # diff = left - right"@),
            ins3("sltu"@, rd, "x0"@, rd, " # (diff != 0)"@),
            ins3("xori"@, rd, rd, "1"@, " # !(diff != 0) -> (diff == 0)"@),
            norm_line(d),
        ],
        BinOp::Neq => seq![
            ins3("sub"@, rd, ra, rb, " # diff = left - right"@),
            ins3("sltu"@, rd, "x0"@, rd, " # diff != 0"@),
            norm_line(d),
        ],
        BinOp::And => seq![ins3("and"@, rd, ra, rb, " # Logical and"@), norm_line(d)],
        BinOp::Or => seq![ins3("or"@, rd, ra, rb, " # Logical or"@), norm_line(d)],
        BinOp::BitAnd => seq![ins3("and"@, rd, ra, rb, ""@)],
        BinOp::BitOr => seq![ins3("or"@, rd, ra, rb, ""@)],
        BinOp::BitXor => seq![ins3("xor"@, rd, ra, rb, ""@)],
        BinOp::LShift => seq![ins3("sll"@, rd, ra, rb, ""@)],
        BinOp::RShift => seq![ins3("sra"@, rd, ra, rb, ""@)],
    }
}

/// The instruction for a unary operator, in place on `r`.
pub open spec fn unary_line(op: UnaryOp, r: u8) -> Seq<char> {
    match op {
        UnaryOp::Not => ins3("sltiu"@, reg_text(r), reg_text(r), "1"@, ""@),
        UnaryOp::Neg => ins3("sub"@, reg_text(r), "x0"@, reg_text(r), ""@),
        UnaryOp::BitNot => ins2("not"@, reg_text(r), reg_text(r), ""@),
    }
}

pub open spec fn newline_lines() -> Seq<Seq<char>> {
    seq!["  li a1, '\\n' # Load newline char"@, "  li a0, 11 # Syscall 11: print_character"@, "  ecall"@]
}

} // verus!

verus! {

// ---------------------------------------------------------------------------
// The generator's steps

/// The first index at or after `i` where `x` occurs in `xs`, or -1.
pub open spec fn find_from(xs: Seq<Seq<char>>, x: Seq<char>, i: int) -> int
    decreases xs.len() - i,
{
    if i < 0 || i >= xs.len() {
        -1
    } else if xs[i] == x {
        i
    } else {
        find_from(xs, x, i + 1)
    }
}

pub open spec fn find(xs: Seq<Seq<char>>, x: Seq<char>) -> int {
    find_from(xs, x, 0)
}

pub open spec fn emit(st: GenState, line: Seq<char>) -> GenState {
    GenState { lines: st.lines.push(line), ..st }
}

pub open spec fn emit_all(st: GenState, ls: Seq<Seq<char>>) -> GenState {
    GenState { lines: st.lines + ls, ..st }
}

/// Takes a register from the pool; when the pool is empty, `t0` is spilled to
/// the next spill slot and reused.
pub open spec fn alloc_step(st: GenState) -> (GenState, u8) {
    if st.pool.len() > 0 {
        (GenState { pool: st.pool.drop_last(), allocs: st.allocs + 1, ..st }, st.pool.last())
    } else {
        (GenState {
            lines: st.lines.push(spill_line(st.spill)),
            spill: st.spill + 4,
            allocs: st.allocs + 1,
            ..st
        }, 0u8)
    }
}

/// Gives a register back to the pool.
pub open spec fn free_step(st: GenState, r: u8) -> GenState {
    GenState { pool: st.pool.push(r), frees: st.frees + 1, ..st }
}

/// The index of the label of string `s`, interning it on first sight.
pub open spec fn intern_step(st: GenState, s: Seq<char>) -> (GenState, int) {
    let i = find(st.strings, s);
    if i >= 0 {
        (st, i)
    } else {
        (GenState { strings: st.strings.push(s), ..st }, st.strings.len() as int)
    }
}

/// The type the generator records for an expression.
pub open spec fn infer_type_spec(st: GenState, e: ExprV) -> Type {
    match e {
        ExprV::Str(_) => Type::String,
        ExprV::Var(name) => st.types[find(st.vars, name)],
        _ => Type::Int,
    }
}

/// Lowers an expression: the state after it and the register holding its value.
pub open spec fn gen_expr_spec(st: GenState, e: ExprV) -> (GenState, u8)
    decreases e,
{
    match e {
        ExprV::Int(n) => {
            let (s1, r) = alloc_step(st);
            (emit(s1, li_line(r, n)), r)
        },
        ExprV::Var(name) => {
            let (s1, r) = alloc_step(st);
            (emit(s1, stack_line("lw"@, reg_text(r), 4 * find(st.vars, name), "Load variable "@ + name)), r)
        },
        ExprV::Str(s) => {
            let (s1, r) = alloc_step(st);
            let (s2, i) = intern_step(s1, s);
            (emit(s2, "  la "@ + reg_text(r) + ", "@ + str_label(i) + " # Store string "@ + quoted(escape_text(s))), r)
        },
        ExprV::BinOp(op, left, right) => {
            let (s1, a) = gen_expr_spec(st, *left);
            let (s2, b) = gen_expr_spec(s1, *right);
            let (s3, d) = alloc_step(s2);
            let s4 = emit_all(s3, binop_lines(op, d, a, b));
            (free_step(free_step(s4, a), b), d)
        },
        ExprV::Unary(op, inner) => {
            let (s1, r) = gen_expr_spec(st, *inner);
            (emit(s1, unary_line(op, r)), r)
        },
    }
}

/// Records the type of an assigned variable, giving it the next slot on first sight.
pub open spec fn assign_step(st: GenState, var: Seq<char>, t: Type) -> GenState {
    let i = find(st.vars, var);
    if i >= 0 {
        GenState { types: st.types.update(i, t), ..st }
    } else {
        GenState { vars: st.vars.push(var), types: st.types.push(t), ..st }
    }
}

pub open spec fn syscall_lines(code: Seq<char>) -> Seq<Seq<char>> {
    seq![code, "  ecall"@]
}

/// Lowers `print`/`println` of an expression, dispatching on its type.
pub open spec fn gen_print_spec(st: GenState, e: ExprV, newline: bool) -> GenState {
    let s1 = if infer_type_spec(st, e) == Type::String {
        match e {
            ExprV::Str(s) => {
                let (sa, i) = intern_step(st, s);
                emit_all(sa, seq!["  la a1, "@ + str_label(i) + " # Load string "@ + escape_text(s)]
                    + syscall_lines("  li a0, 4 # Syscall 4: print_string"@))
            },
            ExprV::Var(name) => {
                let (sa, r) = gen_expr_spec(st, e);
                let sb = emit_all(sa, seq![ins2("mv"@, "a1"@, reg_text(r), " # Load string from variable "@ + name)]
                    + seq!["  li a0, 4 # Syscall 4: print_string"@]);
                emit(free_step(sb, r), "  ecall"@)
            },
            _ => st,
        }
    } else {
        let (sa, r) = gen_expr_spec(st, e);
        let sb = emit_all(sa, seq![ins2("mv"@, "a1"@, reg_text(r), " # Expression to print"@), "  li a0, 1 # Syscall 1: print_int"@, "  ecall"@]);
        free_step(sb, r)
    };
    if newline { emit_all(s1, newline_lines()) } else { s1 }
}

/// Lowers one statement.
pub open spec fn gen_stmt_spec(st: GenState, s: StmtV) -> GenState
    decreases s, 0nat,
{
    match s {
        StmtV::Assign(var, expr) => {
            let (s1, r) = gen_expr_spec(st, expr);
            let s2 = assign_step(s1, var, infer_type_spec(s1, expr));
            let s3 = emit(s2, stack_line("sw"@, reg_text(r), 4 * find(s2.vars, var), "Store variable "@ + var));
            free_step(s3, r)
        },
        StmtV::Exit(code) => match code {
            Some(e) => {
                let (s1, r) = gen_expr_spec(st, e);
                let s2 = emit_all(s1, seq![ins2("mv"@, "a1"@, reg_text(r), " # exit code"@), "  li a0, 17 # Syscall 17: exit2"@]);
                emit(free_step(s2, r), "  ecall"@)
            },
            None => emit_all(st, syscall_lines("  li a0, 10 # Syscall 10: exit"@)),
        },
        StmtV::Print(expr) => gen_print_spec(st, expr, false),
        StmtV::PrintLn(expr) => match expr {
            Some(e) => gen_print_spec(st, e, true),
            None => emit_all(st, newline_lines()),
        },
        StmtV::While(condition, body) => {
            let n = st.whiles;
            let s1 = emit(GenState { whiles: n + 1, ..st }, label_line(while_start(n)));
            let (s2, r) = gen_expr_spec(s1, condition);
            let s3 = free_step(emit(s2, branch_line(r, while_end(n), ""@)), r);
            let s4 = gen_block_spec(s3, body, 0);
            emit_all(s4, seq![jump_line(while_start(n), ""@), label_line(while_end(n))])
        },
        StmtV::If(condition, then_body, else_body) => {
            let n = st.ifs;
            let s1 = GenState { ifs: n + 1, ..st };
            let (s2, r) = gen_expr_spec(s1, condition);
            let s3 = free_step(emit(s2, match else_body {
                Some(_) => branch_line(r, if_else(n), " # Jump to else branch if condition is false"@),
                None => branch_line(r, if_end(n), " # Jump to end if condition is false"@),
            }), r);
            let s4 = gen_block_spec(s3, then_body, 0);
            let s5 = match else_body {
                Some(eb) => gen_block_spec(
                    emit_all(s4, seq![jump_line(if_end(n), " # Skip else block"@), label_line(if_else(n))]),
                    eb,
                    0,
                ),
                None => s4,
            };
            emit(s5, label_line(if_end(n)))
        },
    }
}

/// Lowers `ss[i..]` in order.
pub open spec fn gen_block_spec(st: GenState, ss: Seq<StmtV>, i: int) -> GenState
    decreases ss, ss.len() - i,
{
    if i < 0 || i >= ss.len() {
        st
    } else {
        gen_block_spec(gen_stmt_spec(st, ss[i]), ss, i + 1)
    }
}

/// Lowers top-level statements `ss[i..]`, each followed by an empty line.
pub open spec fn gen_top_spec(st: GenState, ss: Seq<StmtV>, i: int) -> GenState
    decreases ss.len() - i,
{
    if i < 0 || i >= ss.len() {
        st
    } else {
        gen_top_spec(emit(gen_stmt_spec(st, ss[i]), ""@), ss, i + 1)
    }
}

pub open spec fn prologue_lines() -> Seq<Seq<char>> {
    seq!["  .text"@, "  .globl main"@, "main:"@, "  addi sp, sp, -512 # Set up stack frame"@, ""@]
}

pub open spec fn epilogue_lines() -> Seq<Seq<char>> {
    seq!["  # Exit with code 0"@, "  li a1, 0 # Exit code 0"@, "  li a0, 17 # Syscall 17: exit2"@, "  ecall"@]
}

/// The data-section lines for the interned strings `strs[..n]`, in first-seen order.
pub open spec fn data_lines(strs: Seq<Seq<char>>, n: int) -> Seq<Seq<char>>
    decreases n,
{
    if n <= 0 || n > strs.len() {
        Seq::empty()
    } else {
        data_lines(strs, n - 1).push(str_label(n - 1) + ": .asciiz \""@ + escape_text(strs[n - 1]) + "\""@)
    }
}

/// The state after lowering a whole program from `st`.
pub open spec fn program_state(st: GenState, ss: Seq<StmtV>) -> GenState {
    emit_all(gen_top_spec(emit_all(st, prologue_lines()), ss, 0), epilogue_lines())
}

/// All lines of the assembly for `ss` generated from `st`: the data section, then the text.
pub open spec fn program_lines(st: GenState, ss: Seq<StmtV>) -> Seq<Seq<char>> {
    let fin = program_state(st, ss);
    seq!["  .data"@] + data_lines(fin.strings, fin.strings.len() as int) + seq![""@] + fin.lines
}

/// Lines joined with newlines.
pub open spec fn join_lines(ls: Seq<Seq<char>>) -> Seq<char>
    decreases ls.len(),
{
    if ls.len() == 0 {
        Seq::empty()
    } else if ls.len() == 1 {
        ls[0]
    } else {
        join_lines(ls.drop_last()) + "\n"@ + ls.last()
    }
}

/// The state of a fresh generator.
pub open spec fn initial_state() -> GenState {
    GenState {
        lines: Seq::empty(),
        pool: seq![0u8, 1u8, 2u8, 3u8, 4u8, 5u8, 6u8],
        spill: SPILL_BASE as int,
        strings: Seq::empty(),
        vars: Seq::empty(),
        types: Seq::empty(),
        whiles: 0,
        ifs: 0,
        allocs: 0,
        frees: 0,
    }
}

} // verus!

verus! {

/// What the variable slots say: each known variable and its last type.
pub open spec fn var_map(st: GenState) -> Map<Seq<char>, Type> {
    Map::new(|n: Seq<char>| find(st.vars, n) >= 0, |n: Seq<char>| st.types[find(st.vars, n)])
}

/// The counters leave room for `n` more nodes.
pub open spec fn fits(st: GenState, n: int) -> bool {
    &&& st.whiles + n <= MAX_PROGRAM_NODES
    &&& st.ifs + n <= MAX_PROGRAM_NODES
    &&& st.vars.len() + n <= MAX_PROGRAM_NODES
    &&& st.spill + 4 * n <= 8 * MAX_PROGRAM_NODES
}

/// Lowering `n` nodes took each counter up by at most `n` (the spill offset by `4 * n`).
pub open spec fn grows(a: GenState, b: GenState, n: int) -> bool {
    &&& b.whiles <= a.whiles + n
    &&& b.ifs <= a.ifs + n
    &&& b.vars.len() <= a.vars.len() + n
    &&& b.spill <= a.spill + 4 * n
}

pub open spec fn views(v: Seq<String>) -> Seq<Seq<char>> {
    v.map_values(|s: String| s@)
}

pub proof fn lemma_find_from(xs: Seq<Seq<char>>, x: Seq<char>, i: int)
    requires
        0 <= i,
    ensures
        find_from(xs, x, i) == -1 || (i <= find_from(xs, x, i) < xs.len() && xs[find_from(xs, x, i)] == x),
        forall|j: int| i <= j < xs.len() && xs[j] == x ==> find_from(xs, x, i) != -1 && find_from(xs, x, i) <= j,
    decreases xs.len() - i,
{
    if i < xs.len() && xs[i] != x {
        lemma_find_from(xs, x, i + 1);
    }
}

pub proof fn lemma_find_from_push(xs: Seq<Seq<char>>, y: Seq<char>, x: Seq<char>, i: int)
    requires
        0 <= i <= xs.len(),
    ensures
        find_from(xs.push(y), x, i) == (if find_from(xs, x, i) >= 0 {
            find_from(xs, x, i)
        } else if y == x {
            xs.len() as int
        } else {
            -1
        }),
    decreases xs.len() - i,
{
    if i < xs.len() {
        assert(xs.push(y)[i] == xs[i]);
        if xs[i] != x {
            lemma_find_from_push(xs, y, x, i + 1);
        }
    } else {
        assert(xs.push(y)[i] == y);
        assert(find_from(xs.push(y), x, i + 1) == -1);
    }
}

pub proof fn lemma_find_push(xs: Seq<Seq<char>>, y: Seq<char>)
    ensures
        forall|x: Seq<char>| #[trigger] find(xs.push(y), x) == (if find(xs, x) >= 0 {
            find(xs, x)
        } else if y == x {
            xs.len() as int
        } else {
            -1
        }),
{
    assert forall|x: Seq<char>| #[trigger] find(xs.push(y), x) == (if find(xs, x) >= 0 {
        find(xs, x)
    } else if y == x {
        xs.len() as int
    } else {
        -1
    }) by {
        lemma_find_from_push(xs, y, x, 0);
    }
}

pub proof fn lemma_find(xs: Seq<Seq<char>>)
    ensures
        forall|x: Seq<char>| #[trigger] find(xs, x) == -1 || (0 <= find(xs, x) < xs.len() && xs[find(xs, x)] == x),
{
    assert forall|x: Seq<char>| #[trigger] find(xs, x) == -1 || (0 <= find(xs, x) < xs.len() && xs[find(xs, x)] == x) by {
        lemma_find_from(xs, x, 0);
    }
}

/// Assigning records the variable's new type and keeps the others.
proof fn lemma_assign_map(st: GenState, var: Seq<char>, t: Type)
    requires
        st.vars.len() == st.types.len(),
    ensures
        var_map(assign_step(st, var, t)) == var_map(st).insert(var, t),
        assign_step(st, var, t).vars.len() == assign_step(st, var, t).types.len(),
        assign_step(st, var, t).vars.len() <= st.vars.len() + 1,
        0 <= find(assign_step(st, var, t).vars, var) < assign_step(st, var, t).vars.len(),
{
    let s2 = assign_step(st, var, t);
    lemma_find(st.vars);
    lemma_find(s2.vars);
    if find(st.vars, var) < 0 {
        lemma_find_push(st.vars, var);
    }
    assert(var_map(s2) =~= var_map(st).insert(var, t));
}

/// The type the generator records agrees with the type checker's.
proof fn lemma_infer_type(st: GenState, e: ExprV)
    requires
        expr_type(var_map(st), e) is Some,
    ensures
        infer_type_spec(st, e) == expr_type(var_map(st), e)->0,
{
}

} // verus!

verus! {

fn reg_name(r: u8) -> (s: String)
    ensures
        s@ == reg_text(r),
{
    let mut s = String::new();
    push_char(&mut s, 't');
    push_nat(&mut s, r as u64);
    assert(s@ =~= reg_text(r));
    s
}

fn hex_digit_of(d: u32) -> (c: char)
    requires
        d < 16,
    ensures
        c == hex_digit(d as nat),
{
    if d == 0 { '0' }
    else if d == 1 { '1' }
    else if d == 2 { '2' }
    else if d == 3 { '3' }
    else if d == 4 { '4' }
    else if d == 5 { '5' }
    else if d == 6 { '6' }
    else if d == 7 { '7' }
    else if d == 8 { '8' }
    else if d == 9 { '9' }
    else if d == 10 { 'A' }
    else if d == 11 { 'B' }
    else if d == 12 { 'C' }
    else if d == 13 { 'D' }
    else if d == 14 { 'E' }
    else { 'F' }
}

fn push_hex(s: &mut String, n: u32)
    ensures
        final(s)@ == old(s)@ + hex_nat(n as nat),
    decreases n,
{
    if n >= 16 {
        push_hex(s, n / 16);
    }
    push_char(s, hex_digit_of(n % 16));
    assert(final(s)@ =~= old(s)@ + hex_nat(n as nat));
}

fn push_escaped(out: &mut String, c: char)
    ensures
        final(out)@ == old(out)@ + escape_char(c),
{
    if c == '\\' {
        push_char(out, '\\');
        push_char(out, '\\');
    } else if c == '"' {
        push_char(out, '\\');
        push_char(out, '"');
    } else if c == '\n' {
        push_char(out, '\\');
        push_char(out, 'n');
    } else if c == '\t' {
        push_char(out, '\\');
        push_char(out, 't');
    } else if c == '\r' {
        push_char(out, '\\');
        push_char(out, 'r');
    } else if ' ' <= c && c <= '~' {
        push_char(out, c);
    } else {
        push_char(out, '\\');
        push_char(out, 'x');
        if (c as u32) < 16 {
            push_char(out, '0');
        }
        push_hex(out, c as u32);
    }
    assert(final(out)@ =~= old(out)@ + escape_char(c));
}

fn escape_asciz(s: &String) -> (r: String)
    ensures
        r@ == escape_text(s@),
{
    let chars = crate::lexer::chars_of(s.as_str());
    let mut out = String::new();
    let mut i: usize = 0;
    while i < chars.len()
        invariant
            i <= chars.len(),
            chars@ == s@,
            out@ == escape_text(s@.take(i as int)),
        decreases chars.len() - i,
    {
        proof {
            assert(s@.take(i + 1).drop_last() =~= s@.take(i as int));
        }
        push_escaped(&mut out, chars[i]);
        i += 1;
    }
    assert(s@.take(i as int) =~= s@);
    out
}

fn quote(s: &String) -> (r: String)
    ensures
        r@ == quoted(s@),
{
    let chars = crate::lexer::chars_of(s.as_str());
    let mut out = String::new();
    push_char(&mut out, '"');
    let mut i: usize = 0;
    while i < chars.len()
        invariant
            i <= chars.len(),
            chars@ == s@,
            out@ == seq!['"'] + quote_body(s@.take(i as int)),
        decreases chars.len() - i,
    {
        proof {
            assert(s@.take(i + 1).drop_last() =~= s@.take(i as int));
        }
        let c = chars[i];
        if c == '\\' || c == '"' {
            push_char(&mut out, '\\');
        }
        push_char(&mut out, c);
        assert(out@ =~= seq!['"'] + quote_body(s@.take(i + 1)));
        i += 1;
    }
    assert(s@.take(i as int) =~= s@);
    push_char(&mut out, '"');
    assert(out@ =~= quoted(s@));
    out
}

fn ins3_text(op: &str, d: &str, a: &str, b: &str, comment: &str) -> (r: String)
    ensures
        r@ == ins3(op@, d@, a@, b@, comment@),
{
    let mut s = String::new();
    push_str(&mut s, "  ");
    push_str(&mut s, op);
    push_str(&mut s, " ");
    push_str(&mut s, d);
    push_str(&mut s, ", ");
    push_str(&mut s, a);
    push_str(&mut s, ", ");
    push_str(&mut s, b);
    push_str(&mut s, comment);
    assert(s@ =~= ins3(op@, d@, a@, b@, comment@));
    s
}

fn ins2_text(op: &str, d: &str, a: &str, comment: &str) -> (r: String)
    ensures
        r@ == ins2(op@, d@, a@, comment@),
{
    let mut s = String::new();
    push_str(&mut s, "  ");
    push_str(&mut s, op);
    push_str(&mut s, " ");
    push_str(&mut s, d);
    push_str(&mut s, ", ");
    push_str(&mut s, a);
    push_str(&mut s, comment);
    assert(s@ =~= ins2(op@, d@, a@, comment@));
    s
}

fn stack_text(op: &str, r: &str, off: u64, note: &str, name: &str) -> (s: String)
    ensures
        s@ == stack_line(op@, r@, off as int, note@ + name@),
{
    let mut s = String::new();
    push_str(&mut s, "  ");
    push_str(&mut s, op);
    push_str(&mut s, " ");
    push_str(&mut s, r);
    push_str(&mut s, ", ");
    push_nat(&mut s, off);
    push_str(&mut s, "(sp) # ");
    push_str(&mut s, note);
    push_str(&mut s, name);
    assert(s@ =~= stack_line(op@, r@, off as int, note@ + name@));
    s
}

/// `<prefix><n><suffix>`, the shape of every label.
fn label_text(prefix: &str, n: u64, suffix: &str) -> (s: String)
    ensures
        s@ == prefix@ + dec_nat(n as nat) + suffix@,
{
    let mut s = String::new();
    push_str(&mut s, prefix);
    push_nat(&mut s, n);
    push_str(&mut s, suffix);
    s
}

/// The index of the first entry equal to `x`.
pub(crate) fn index_of(xs: &Vec<String>, x: &String) -> (r: Option<usize>)
    ensures
        match r {
            Some(i) => find(views(xs@), x@) == i as int,
            None => find(views(xs@), x@) == -1,
        },
{
    let ghost v = views(xs@);
    let mut i: usize = 0;
    while i < xs.len()
        invariant
            i <= xs.len(),
            v == views(xs@),
            find(v, x@) == find_from(v, x@, i as int),
        decreases xs.len() - i,
    {
        if xs[i] == *x {
            return Some(i);
        }
        i += 1;
    }
    None
}

} // verus!

verus! {

/// The code generator: one per compilation.
pub struct CodeGen {
    strings: Vec<String>,
    vars: Vec<String>,
    var_types: Vec<Type>,
    output: Vec<String>,
    reg_pool: Vec<u8>,
    while_counter: u64,
    if_counter: u64,
    temp_stack_offset: u64,
    allocs: Ghost<int>,
    frees: Ghost<int>,
}

impl View for CodeGen {
    type V = GenState;

    closed spec fn view(&self) -> GenState {
        GenState {
            lines: views(self.output@),
            pool: self.reg_pool@,
            spill: self.temp_stack_offset as int,
            strings: views(self.strings@),
            vars: views(self.vars@),
            types: self.var_types@,
            whiles: self.while_counter as int,
            ifs: self.if_counter as int,
            allocs: self.allocs@,
            frees: self.frees@,
        }
    }
}

impl CodeGen {
    pub open spec fn wf(&self) -> bool {
        self@.vars.len() == self@.types.len()
    }

    pub fn new() -> (r: CodeGen)
        ensures
            r@ == initial_state(),
            r.wf(),
    {
        let mut reg_pool: Vec<u8> = Vec::new();
        let mut i: u8 = 0;
        while i < 7
            invariant
                i <= 7,
                reg_pool@ == Seq::new(i as nat, |k: int| k as u8),
            decreases 7 - i,
        {
            reg_pool.push(i);
            i += 1;
            assert(reg_pool@ =~= Seq::new(i as nat, |k: int| k as u8));
        }
        let r = CodeGen {
            strings: Vec::new(),
            vars: Vec::new(),
            var_types: Vec::new(),
            output: Vec::new(),
            reg_pool,
            while_counter: 0,
            if_counter: 0,
            temp_stack_offset: SPILL_BASE,
            allocs: Ghost(0),
            frees: Ghost(0),
        };
        assert(r@.lines =~= Seq::<Seq<char>>::empty());
        assert(r@.strings =~= Seq::<Seq<char>>::empty());
        assert(r@.vars =~= Seq::<Seq<char>>::empty());
        assert(r@.pool =~= seq![0u8, 1u8, 2u8, 3u8, 4u8, 5u8, 6u8]);
        r
    }

    fn emit(&mut self, line: String)
        ensures
            final(self)@ == emit(old(self)@, line@),
    {
        self.output.push(line);
        assert(views(self.output@) =~= views(old(self).output@).push(line@));
    }

    fn emit_str(&mut self, line: &str)
        ensures
            final(self)@ == emit(old(self)@, line@),
    {
        self.emit(String::from_str(line));
    }

    fn alloc_reg(&mut self) -> (r: u8)
        requires
            old(self)@.spill + 4 <= u64::MAX,
        ensures
            (final(self)@, r) == alloc_step(old(self)@),
    {
        self.allocs = Ghost(self.allocs@ + 1);
        match self.reg_pool.pop() {
            Some(reg) => reg,
            None => {
                let stack_loc = self.temp_stack_offset;
                self.temp_stack_offset += 4;
                self.emit(stack_text("sw", "t0", stack_loc, "Spill t0 to stack", ""));
                proof {
                    reveal_strlit("");
                    assert("Spill t0 to stack"@ + ""@ =~= "Spill t0 to stack"@);
                }
                0
            },
        }
    }

    fn free_reg(&mut self, reg: u8)
        ensures
            final(self)@ == free_step(old(self)@, reg),
    {
        self.frees = Ghost(self.frees@ + 1);
        self.reg_pool.push(reg);
    }

    fn ensure_string_label(&mut self, s: &String) -> (r: usize)
        ensures
            (final(self)@, r as int) == intern_step(old(self)@, s@),
    {
        match index_of(&self.strings, s) {
            Some(i) => i,
            None => {
                let n = self.strings.len();
                self.strings.push(s.clone());
                assert(views(self.strings@) =~= views(old(self).strings@).push(s@));
                n
            },
        }
    }
}

} // verus!

verus! {

impl CodeGen {
    fn emit_binop(&mut self, op: &BinOp, d: u8, a: u8, b: u8)
        ensures
            final(self)@ == emit_all(old(self)@, binop_lines(*op, d, a, b)),
    {
        let rd = reg_name(d);
        let ra = reg_name(a);
        let rb = reg_name(b);
        let (rd, ra, rb) = (rd.as_str(), ra.as_str(), rb.as_str());
        let ghost st = self@;
        match op {
            BinOp::Add => self.emit(ins3_text("add", rd, ra, rb, " # addition")),
            BinOp::Sub => self.emit(ins3_text("sub", rd, ra, rb, " # subtraction")),
            BinOp::Mul => self.emit(ins3_text("mul", rd, ra, rb, " # multiplication")),
            BinOp::Div => self.emit(ins3_text("div", rd, ra, rb, " # division")),
            BinOp::LT => {
                self.emit(ins3_text("slt", rd, ra, rb, " # left < right"));
                self.emit(ins3_text("sltu", rd, "x0", rd, " # Normalize result"));
            },
            BinOp::LTE => {
                self.emit(ins3_text("slt", rd, rb, ra, " # right < left"));
                self.emit(ins3_text("xori", rd, rd, "1", " # For <="));
                self.emit(ins3_text("sltu", rd, "x0", rd, " # Normalize result"));
            },
            BinOp::GT => {
                self.emit(ins3_text("slt", rd, rb, ra, " # right < left"));
                self.emit(ins3_text("sltu", rd, "x0", rd, " # Normalize result"));
            },
            BinOp::GTE => {
                self.emit(ins3_text("slt", rd, ra, rb, " # left < right"));
                self.emit(ins3_text("xori", rd, rd, "1", " # For >="));
                self.emit(ins3_text("sltu", rd, "x0", rd, " # Normalize result"));
            },
            BinOp::Eq => {
                self.emit(ins3_text("sub", rd, ra, rb, " # diff = left - right"));
                self.emit(ins3_text("sltu", rd, "x0", rd, " # (diff != 0)"));
                self.emit(ins3_text("xori", rd, rd, "1", " # !(diff != 0) -> (diff == 0)"));
                self.emit(ins3_text("sltu", rd, "x0", rd, " # Normalize result"));
            },
            BinOp::Neq => {
                self.emit(ins3_text("sub", rd, ra, rb, " # diff = left - right"));
                self.emit(ins3_text("sltu", rd, "x0", rd, " # diff != 0"));
                self.emit(ins3_text("sltu", rd, "x0", rd, " # Normalize result"));
            },
            BinOp::And => {
                self.emit(ins3_text("and", rd, ra, rb, " # Logical and"));
                self.emit(ins3_text("sltu", rd, "x0", rd, " # Normalize result"));
            },
            BinOp::Or => {
                self.emit(ins3_text("or", rd, ra, rb, " # Logical or"));
                self.emit(ins3_text("sltu", rd, "x0", rd, " # Normalize result"));
            },
            BinOp::BitAnd => self.emit(ins3_text("and", rd, ra, rb, "")),
            BinOp::BitOr => self.emit(ins3_text("or", rd, ra, rb, "")),
            BinOp::BitXor => self.emit(ins3_text("xor", rd, ra, rb, "")),
            BinOp::LShift => self.emit(ins3_text("sll", rd, ra, rb, "")),
            BinOp::RShift => self.emit(ins3_text("sra", rd, ra, rb, "")),
        }
        assert(self@.lines =~= st.lines + binop_lines(*op, d, a, b));
    }

    fn gen_expr(&mut self, expr: &Expr) -> (r: u8)
        requires
            old(self).wf(),
            expr_type(var_map(old(self)@), expr_view(*expr)) is Some,
            fits(old(self)@, expr_size(expr_view(*expr)) as int),
        ensures
            (final(self)@, r) == gen_expr_spec(old(self)@, expr_view(*expr)),
            final(self).wf(),
            final(self)@.vars == old(self)@.vars,
            final(self)@.types == old(self)@.types,
            final(self)@.whiles == old(self)@.whiles,
            final(self)@.ifs == old(self)@.ifs,
            old(self)@.spill <= final(self)@.spill <= old(self)@.spill + 4 * expr_size(expr_view(*expr)),
        decreases expr,
    {
        match expr {
            Expr::Int(n) => {
                let reg = self.alloc_reg();
                let mut line = String::new();
                push_str(&mut line, "  li ");
                let rn = reg_name(reg);
                push_str(&mut line, rn.as_str());
                push_str(&mut line, ", ");
                crate::text::push_int(&mut line, *n as i64);
                push_str(&mut line, " # Load immediate ");
                crate::text::push_int(&mut line, *n as i64);
                assert(line@ =~= li_line(reg, *n));
                self.emit(line);
                reg
            },
            Expr::Var(var) => {
                proof {
                    lemma_find(self@.vars);
                }
                let idx = index_of(&self.vars, var).unwrap();
                let offset = idx as u64 * 4;
                let reg = self.alloc_reg();
                let rn = reg_name(reg);
                self.emit(stack_text("lw", rn.as_str(), offset, "Load variable ", var.as_str()));
                reg
            },
            Expr::String(s) => {
                let reg = self.alloc_reg();
                let label = self.ensure_string_label(s);
                let mut line = String::new();
                push_str(&mut line, "  la ");
                let rn = reg_name(reg);
                push_str(&mut line, rn.as_str());
                push_str(&mut line, ", ");
                let lt = label_text("str", label as u64, "");
                push_str(&mut line, lt.as_str());
                push_str(&mut line, " # Store string ");
                let q = quote(&escape_asciz(s));
                push_str(&mut line, q.as_str());
                proof {
                    reveal_strlit("");
                    assert(lt@ =~= str_label(label as int));
                }
                assert(line@ =~= "  la "@ + reg_text(reg) + ", "@ + str_label(label as int) + " # Store string "@ + quoted(escape_text(s@)));
                self.emit(line);
                reg
            },
            Expr::BinOp { op, left, right } => {
                let left_reg = self.gen_expr(left);
                let right_reg = self.gen_expr(right);
                let result_reg = self.alloc_reg();
                self.emit_binop(op, result_reg, left_reg, right_reg);
                self.free_reg(left_reg);
                self.free_reg(right_reg);
                result_reg
            },
            Expr::UnaryOp { op, expr: inner } => {
                let reg = self.gen_expr(inner);
                let rn = reg_name(reg);
                let line = match op {
                    UnaryOp::Not => ins3_text("sltiu", rn.as_str(), rn.as_str(), "1", ""),
                    UnaryOp::Neg => ins3_text("sub", rn.as_str(), "x0", rn.as_str(), ""),
                    UnaryOp::BitNot => ins2_text("not", rn.as_str(), rn.as_str(), ""),
                };
                self.emit(line);
                reg
            },
        }
    }
}

} // verus!

verus! {

fn label_line_text(label: &String) -> (s: String)
    ensures
        s@ == label_line(label@),
{
    let mut s = label.clone();
    push_str(&mut s, ":");
    s
}

fn jump_text(label: &String, comment: &str) -> (s: String)
    ensures
        s@ == jump_line(label@, comment@),
{
    let mut s = String::new();
    push_str(&mut s, "  j ");
    push_str(&mut s, label.as_str());
    push_str(&mut s, comment);
    s
}

fn branch_text(r: u8, label: &String, comment: &str) -> (s: String)
    ensures
        s@ == branch_line(r, label@, comment@),
{
    let mut s = String::new();
    push_str(&mut s, "  beq ");
    let rn = reg_name(r);
    push_str(&mut s, rn.as_str());
    push_str(&mut s, ", x0, ");
    push_str(&mut s, label.as_str());
    push_str(&mut s, comment);
    s
}

impl CodeGen {
    fn infer_type(&self, expr: &Expr) -> (t: Type)
        requires
            self.wf(),
            expr_type(var_map(self@), expr_view(*expr)) is Some,
        ensures
            t == infer_type_spec(self@, expr_view(*expr)),
    {
        match expr {
            Expr::String(_) => Type::String,
            Expr::Var(name) => {
                proof {
                    lemma_find(self@.vars);
                }
                let i = index_of(&self.vars, name).unwrap();
                self.var_types[i]
            },
            _ => Type::Int,
        }
    }

    fn set_var_type(&mut self, var: &String, t: Type)
        requires
            old(self).wf(),
        ensures
            final(self)@ == assign_step(old(self)@, var@, t),
            final(self).wf(),
    {
        proof {
            lemma_find(self@.vars);
        }
        match index_of(&self.vars, var) {
            Some(i) => {
                self.var_types.set(i, t);
            },
            None => {
                self.vars.push(var.clone());
                self.var_types.push(t);
                assert(views(self.vars@) =~= views(old(self).vars@).push(var@));
            },
        }
    }

    fn emit_syscall(&mut self, code: &str)
        ensures
            final(self)@ == emit_all(old(self)@, syscall_lines(code@)),
    {
        self.emit_str(code);
        self.emit_str("  ecall");
        assert(self@.lines =~= old(self)@.lines + syscall_lines(code@));
    }

    fn emit_newline(&mut self)
        ensures
            final(self)@ == emit_all(old(self)@, newline_lines()),
    {
        self.emit_str("  li a1, '\\n' # Load newline char");
        self.emit_syscall("  li a0, 11 # Syscall 11: print_character");
        assert(self@.lines =~= old(self)@.lines + newline_lines());
    }

    fn gen_print(&mut self, expr: &Expr, newline: bool)
        requires
            old(self).wf(),
            expr_type(var_map(old(self)@), expr_view(*expr)) is Some,
            fits(old(self)@, expr_size(expr_view(*expr)) as int),
        ensures
            final(self)@ == gen_print_spec(old(self)@, expr_view(*expr), newline),
            final(self).wf(),
            final(self)@.vars == old(self)@.vars,
            final(self)@.types == old(self)@.types,
            final(self)@.whiles == old(self)@.whiles,
            final(self)@.ifs == old(self)@.ifs,
            old(self)@.spill <= final(self)@.spill <= old(self)@.spill + 4 * expr_size(expr_view(*expr)),
    {
        let expr_type = self.infer_type(expr);
        match expr_type {
            Type::String => {
                match expr {
                    Expr::String(s) => {
                        let label = self.ensure_string_label(s);
                        let mut line = String::new();
                        push_str(&mut line, "  la a1, ");
                        let lt = label_text("str", label as u64, "");
                        push_str(&mut line, lt.as_str());
                        push_str(&mut line, " # Load string ");
                        let esc = escape_asciz(s);
                        push_str(&mut line, esc.as_str());
                        proof {
                            reveal_strlit("");
                            assert(lt@ =~= str_label(label as int));
                        }
                        let ghost sa = self@;
                        self.emit(line);
                        self.emit_syscall("  li a0, 4 # Syscall 4: print_string");
                        assert(self@.lines =~= sa.lines + (seq![line@] + syscall_lines("  li a0, 4 # Syscall 4: print_string"@)));
                    },
                    Expr::Var(name) => {
                        let reg = self.gen_expr(expr);
                        let ghost sa = self@;
                        let rn = reg_name(reg);
                        let mut note = String::from_str(" # Load string from variable ");
                        push_str(&mut note, name.as_str());
                        self.emit(ins2_text("mv", "a1", rn.as_str(), note.as_str()));
                        self.emit_str("  li a0, 4 # Syscall 4: print_string");
                        assert(self@.lines =~= sa.lines + (seq![ins2("mv"@, "a1"@, reg_text(reg), " # Load string from variable "@ + name@)]
                            + seq!["  li a0, 4 # Syscall 4: print_string"@]));
                        self.free_reg(reg);
                        self.emit_str("  ecall");
                    },
                    _ => {},
                }
            },
            Type::Int => {
                let reg = self.gen_expr(expr);
                let ghost sa = self@;
                let rn = reg_name(reg);
                self.emit(ins2_text("mv", "a1", rn.as_str(), " # Expression to print"));
                self.emit_syscall("  li a0, 1 # Syscall 1: print_int");
                assert(self@.lines =~= sa.lines + seq![ins2("mv"@, "a1"@, reg_text(reg), " # Expression to print"@), "  li a0, 1 # Syscall 1: print_int"@, "  ecall"@]);
                self.free_reg(reg);
            },
        }
        if newline {
            self.emit_newline();
        }
    }
}

} // verus!

verus! {

impl CodeGen {
    fn gen_stmt(&mut self, stmt: &Stmt)
        requires
            old(self).wf(),
            stmt_types(var_map(old(self)@), stmt_view(*stmt)) is Some,
            fits(old(self)@, stmt_size(stmt_view(*stmt)) as int),
        ensures
            final(self)@ == gen_stmt_spec(old(self)@, stmt_view(*stmt)),
            final(self).wf(),
            var_map(final(self)@) == stmt_types(var_map(old(self)@), stmt_view(*stmt))->0,
            grows(old(self)@, final(self)@, stmt_size(stmt_view(*stmt)) as int),
        decreases stmt,
    {
        let ghost st = self@;
        match stmt {
            Stmt::Assign { var, expr } => {
                let reg = self.gen_expr(expr);
                assert(var_map(self@) == var_map(st));
                let expr_type = self.infer_type(expr);
                proof {
                    lemma_infer_type(self@, expr_view(*expr));
                    lemma_assign_map(self@, var@, expr_type);
                }
                self.set_var_type(var, expr_type);
                proof {
                    lemma_find(self@.vars);
                }
                let idx = index_of(&self.vars, var).unwrap();
                let offset = idx as u64 * 4;
                let rn = reg_name(reg);
                self.emit(stack_text("sw", rn.as_str(), offset, "Store variable ", var.as_str()));
                self.free_reg(reg);
            },
            Stmt::Exit(code) => {
                match code {
                    Some(expr) => {
                        let reg = self.gen_expr(expr);
                        let ghost sa = self@;
                        let rn = reg_name(reg);
                        self.emit(ins2_text("mv", "a1", rn.as_str(), " # exit code"));
                        self.emit_str("  li a0, 17 # Syscall 17: exit2");
                        assert(self@.lines =~= sa.lines + seq![ins2("mv"@, "a1"@, reg_text(reg), " # exit code"@), "  li a0, 17 # Syscall 17: exit2"@]);
                        self.free_reg(reg);
                        self.emit_str("  ecall");
                    },
                    None => {
                        self.emit_syscall("  li a0, 10 # Syscall 10: exit");
                    },
                }
            },
            Stmt::Print { expr } => {
                self.gen_print(expr, false);
            },
            Stmt::PrintLn { expr } => {
                match expr {
                    Some(e) => {
                        self.gen_print(e, true);
                    },
                    None => {
                        self.emit_newline();
                    },
                }
            },
            Stmt::While { condition, body } => {
                let n = self.while_counter;
                let start = label_text("W", n, "_start");
                let end = label_text("W", n, "_end");
                self.while_counter += 1;
                self.emit(label_line_text(&start));
                assert(var_map(self@) == var_map(st));
                let reg = self.gen_expr(condition);
                proof {
                    reveal_strlit("");
                }
                self.emit(branch_text(reg, &end, ""));
                self.free_reg(reg);
                assert(var_map(self@) == var_map(st));
                self.gen_block(body);
                let ghost s4 = self@;
                self.emit(jump_text(&start, ""));
                self.emit(label_line_text(&end));
                assert(self@.lines =~= s4.lines + seq![jump_line(while_start(n as int), ""@), label_line(while_end(n as int))]);
            },
            Stmt::If { condition, then_body, else_body } => {
                let n = self.if_counter;
                let else_label = label_text("IF", n, "_else");
                let end_label = label_text("IF", n, "_end");
                self.if_counter += 1;
                assert(var_map(self@) == var_map(st));
                let reg = self.gen_expr(condition);
                match else_body {
                    Some(_) => {
                        self.emit(branch_text(reg, &else_label, " # Jump to else branch if condition is false"));
                    },
                    None => {
                        self.emit(branch_text(reg, &end_label, " # Jump to end if condition is false"));
                    },
                }
                self.free_reg(reg);
                assert(var_map(self@) == var_map(st));
                self.gen_block(then_body);
                match else_body {
                    Some(eb) => {
                        let ghost s4 = self@;
                        self.emit(jump_text(&end_label, " # Skip else block"));
                        self.emit(label_line_text(&else_label));
                        assert(self@.lines =~= s4.lines + seq![jump_line(if_end(n as int), " # Skip else block"@), label_line(if_else(n as int))]);
                        self.gen_block(eb);
                    },
                    None => {},
                }
                self.emit(label_line_text(&end_label));
            },
        }
    }

    fn gen_block(&mut self, stmts: &Vec<Stmt>)
        requires
            old(self).wf(),
            block_types(var_map(old(self)@), block_view(stmts@, 0), 0) is Some,
            fits(old(self)@, block_size(block_view(stmts@, 0), 0) as int),
        ensures
            final(self)@ == gen_block_spec(old(self)@, block_view(stmts@, 0), 0),
            final(self).wf(),
            var_map(final(self)@) == block_types(var_map(old(self)@), block_view(stmts@, 0), 0)->0,
            grows(old(self)@, final(self)@, block_size(block_view(stmts@, 0), 0) as int),
        decreases stmts,
    {
        proof {
            lemma_block_view_index(stmts@);
        }
        let mut i: usize = 0;
        while i < stmts.len()
            invariant
                i <= stmts.len(),
                self.wf(),
                gen_block_spec(old(self)@, block_view(stmts@, 0), 0) == gen_block_spec(self@, block_view(stmts@, 0), i as int),
                block_types(var_map(old(self)@), block_view(stmts@, 0), 0) == block_types(var_map(self@), block_view(stmts@, 0), i as int),
                block_types(var_map(self@), block_view(stmts@, 0), i as int) is Some,
                fits(self@, block_size(block_view(stmts@, 0), i as int) as int),
                grows(old(self)@, self@, block_size(block_view(stmts@, 0), 0) - block_size(block_view(stmts@, 0), i as int)),
            decreases stmts.len() - i,
        {
            proof {
                lemma_block_view_index(stmts@);
            }
            assert(decreases_to!(stmts => stmts@[i as int])) by {
                broadcast use vstd::std_specs::vec::group_vec_axioms;
            }
            self.gen_stmt(&stmts[i]);
            i += 1;
        }
    }
}

} // verus!

verus! {

fn join(lines: &Vec<String>) -> (r: String)
    ensures
        r@ == join_lines(views(lines@)),
{
    let ghost ls = views(lines@);
    let mut out = String::new();
    let mut i: usize = 0;
    while i < lines.len()
        invariant
            i <= lines.len(),
            ls == views(lines@),
            out@ == join_lines(ls.take(i as int)),
        decreases lines.len() - i,
    {
        assert(ls.take(i + 1).drop_last() =~= ls.take(i as int));
        if i > 0 {
            push_str(&mut out, "\n");
        } else {
            assert(ls.take(0) =~= Seq::<Seq<char>>::empty());
        }
        push_str(&mut out, lines[i].as_str());
        i += 1;
    }
    assert(ls.take(i as int) =~= ls);
    out
}

impl CodeGen {
    /// Lowers a well-typed program to assembly text: the data section with one
    /// `.asciiz` line per distinct string literal in first-seen order, then the
    /// text section with the statements and a final exit with code 0.
    pub fn generate(&mut self, stmts: &Vec<Stmt>) -> (r: String)
        requires
            old(self).wf(),
            block_types(var_map(old(self)@), block_view(stmts@, 0), 0) is Some,
            fits(old(self)@, block_size(block_view(stmts@, 0), 0) as int),
        ensures
            r@ == join_lines(program_lines(old(self)@, block_view(stmts@, 0))),
            final(self).wf(),
    {
        self.emit_str("  .text");
        self.emit_str("  .globl main");
        self.emit_str("main:");
        self.emit_str("  addi sp, sp, -512 # Set up stack frame");
        self.emit_str("");
        assert(self@ == emit_all(old(self)@, prologue_lines())) by {
            assert(self@.lines =~= old(self)@.lines + prologue_lines());
        }
        let ghost p = self@;
        proof {
            lemma_block_view_index(stmts@);
        }
        let mut i: usize = 0;
        while i < stmts.len()
            invariant
                i <= stmts.len(),
                self.wf(),
                gen_top_spec(p, block_view(stmts@, 0), 0) == gen_top_spec(self@, block_view(stmts@, 0), i as int),
                block_types(var_map(old(self)@), block_view(stmts@, 0), 0) == block_types(var_map(self@), block_view(stmts@, 0), i as int),
                block_types(var_map(self@), block_view(stmts@, 0), i as int) is Some,
                fits(self@, block_size(block_view(stmts@, 0), i as int) as int),
            decreases stmts.len() - i,
        {
            proof {
                lemma_block_view_index(stmts@);
            }
            self.gen_stmt(&stmts[i]);
            self.emit_str("");
            i += 1;
        }
        let ghost s1 = self@;
        self.emit_str("  # Exit with code 0");
        self.emit_str("  li a1, 0 # Exit code 0");
        self.emit_syscall("  li a0, 17 # Syscall 17: exit2");
        assert(self@.lines =~= s1.lines + epilogue_lines());
        let ghost fin = self@;
        assert(fin == program_state(old(self)@, block_view(stmts@, 0)));

        let mut final_out: Vec<String> = Vec::new();
        final_out.push(String::from_str("  .data"));
        let mut k: usize = 0;
        while k < self.strings.len()
            invariant
                k <= self.strings.len(),
                self@ == fin,
                views(final_out@) == seq!["  .data"@] + data_lines(fin.strings, k as int),
            decreases self.strings.len() - k,
        {
            let mut line = label_text("str", k as u64, ": .asciiz \"");
            let esc = escape_asciz(&self.strings[k]);
            push_str(&mut line, esc.as_str());
            push_str(&mut line, "\"");
            let ghost before = views(final_out@);
            final_out.push(line);
            proof {
                reveal_strlit("");
                assert(views(final_out@) =~= before.push(line@));
            }
            k += 1;
        }
        final_out.push(String::from_str(""));
        let mut j: usize = 0;
        let ghost head = views(final_out@);
        while j < self.output.len()
            invariant
                j <= self.output.len(),
                self@ == fin,
                views(final_out@) == head + fin.lines.take(j as int),
            decreases self.output.len() - j,
        {
            let ghost before = views(final_out@);
            let line = self.output[j].clone();
            assert(line@ == fin.lines[j as int]);
            final_out.push(line);
            assert(views(final_out@) =~= before.push(line@));
            assert(views(final_out@) =~= head + fin.lines.take(j + 1));
            j += 1;
        }
        assert(fin.lines.take(j as int) =~= fin.lines);
        assert(views(final_out@) =~= program_lines(old(self)@, block_view(stmts@, 0)));
        self.output = Vec::new();
        join(&final_out)
    }
}

} // verus!

verus! {

/// `n`, or one past the largest supported program size when `n` exceeds it.
pub open spec fn capped(n: int) -> int {
    if n <= MAX_PROGRAM_NODES { n } else { MAX_PROGRAM_NODES + 1 }
}

fn cap_add(a: u64, b: u64) -> (r: u64)
    requires
        a <= MAX_PROGRAM_NODES + 1,
        b <= MAX_PROGRAM_NODES + 1,
    ensures
        r == capped(a + b),
{
    if a + b <= MAX_PROGRAM_NODES { a + b } else { MAX_PROGRAM_NODES + 1 }
}

fn expr_nodes(e: &Expr) -> (r: u64)
    ensures
        r == capped(expr_size(expr_view(*e)) as int),
    decreases e,
{
    match e {
        Expr::BinOp { left, right, .. } => {
            let a = expr_nodes(left);
            let b = expr_nodes(right);
            cap_add(1, cap_add(a, b))
        },
        Expr::UnaryOp { expr, .. } => cap_add(1, expr_nodes(expr)),
        _ => 1,
    }
}

fn opt_expr_nodes(e: &Option<Expr>) -> (r: u64)
    ensures
        r == capped(match *e {
            Some(x) => expr_size(expr_view(x)) as int,
            None => 0,
        }),
{
    match e {
        Some(x) => expr_nodes(x),
        None => 0,
    }
}

fn stmt_nodes(s: &Stmt) -> (r: u64)
    ensures
        r == capped(stmt_size(stmt_view(*s)) as int),
    decreases s,
{
    match s {
        Stmt::Assign { expr, .. } => cap_add(1, expr_nodes(expr)),
        Stmt::Print { expr } => cap_add(1, expr_nodes(expr)),
        Stmt::PrintLn { expr } => cap_add(1, opt_expr_nodes(expr)),
        Stmt::Exit(code) => cap_add(1, opt_expr_nodes(code)),
        Stmt::While { condition, body } => cap_add(1, cap_add(expr_nodes(condition), block_nodes(body))),
        Stmt::If { condition, then_body, else_body } => {
            let c = expr_nodes(condition);
            let t = block_nodes(then_body);
            let e = match else_body {
                Some(eb) => block_nodes(eb),
                None => 0,
            };
            cap_add(1, cap_add(cap_add(c, t), e))
        },
    }
}

fn block_nodes(ss: &Vec<Stmt>) -> (r: u64)
    ensures
        r == capped(block_size(block_view(ss@, 0), 0) as int),
    decreases ss,
{
    let ghost v = block_view(ss@, 0);
    proof {
        lemma_block_view_index(ss@);
    }
    let mut acc: u64 = 0;
    let mut i: usize = 0;
    while i < ss.len()
        invariant
            i <= ss.len(),
            v == block_view(ss@, 0),
            v.len() == ss.len(),
            acc == capped(block_size(v, 0) - block_size(v, i as int)),
        decreases ss.len() - i,
    {
        proof {
            lemma_block_view_index(ss@);
        }
        assert(decreases_to!(ss => ss@[i as int])) by {
            broadcast use vstd::std_specs::vec::group_vec_axioms;
        }
        acc = cap_add(acc, stmt_nodes(&ss[i]));
        i += 1;
    }
    acc
}

/// The number of nodes of a program, or one past the supported maximum when it is larger.
pub fn program_nodes(stmts: &Vec<Stmt>) -> (r: u64)
    ensures
        r == capped(block_size(block_view(stmts@, 0), 0) as int),
{
    proof {
        lemma_block_view_index(stmts@);
    }
    block_nodes(stmts)
}

/// A fresh generator knows no variable.
pub proof fn lemma_initial_var_map()
    ensures
        var_map(initial_state()) == Map::<Seq<char>, Type>::empty(),
{
    assert(var_map(initial_state()) =~= Map::<Seq<char>, Type>::empty());
}

} // verus!
