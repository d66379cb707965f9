use vstd::prelude::*;
use crate::codegen::{
    GenState, alloc_step, branch_line, data_lines, emit, emit_all, find, free_step, gen_block_spec, gen_expr_spec,
    gen_print_spec, gen_stmt_spec, gen_top_spec, if_else, if_end, initial_state, intern_step, jump_line, label_line,
    lemma_find_from, program_state, prologue_lines, while_end, while_start, binop_lines, norm_line, unary_line, ins3,
    reg_text,
};
use crate::parser::{BinOp, ExprV, StmtV, UnaryOp};
use crate::compile_spec;
use crate::text::{dec_nat, digit_char};

verus! {

/// The number of `while` statements in a statement, nested ones included.
pub open spec fn count_whiles(s: StmtV) -> nat
    decreases s, 0nat,
{
    match s {
        StmtV::While(c, body) => 1 + count_whiles_block(body, 0),
        StmtV::If(c, t, e) => count_whiles_block(t, 0) + match e {
            Some(eb) => count_whiles_block(eb, 0),
            None => 0,
        },
        _ => 0,
    }
}

pub open spec fn count_whiles_block(ss: Seq<StmtV>, i: int) -> nat
    decreases ss, ss.len() - i,
{
    if i < 0 || i >= ss.len() { 0 } else { count_whiles(ss[i]) + count_whiles_block(ss, i + 1) }
}

/// The number of `if` statements in a statement, nested ones included.
pub open spec fn count_ifs(s: StmtV) -> nat
    decreases s, 0nat,
{
    match s {
        StmtV::While(c, body) => count_ifs_block(body, 0),
        StmtV::If(c, t, e) => 1 + count_ifs_block(t, 0) + match e {
            Some(eb) => count_ifs_block(eb, 0),
            None => 0,
        },
        _ => 0,
    }
}

pub open spec fn count_ifs_block(ss: Seq<StmtV>, i: int) -> nat
    decreases ss, ss.len() - i,
{
    if i < 0 || i >= ss.len() { 0 } else { count_ifs(ss[i]) + count_ifs_block(ss, i + 1) }
}

/// Registers handed out and not yet given back.
pub open spec fn live_regs(st: GenState) -> int {
    st.allocs - st.frees
}

proof fn lemma_intern_no_dup(st: GenState, s: Seq<char>)
    requires
        st.strings.no_duplicates(),
    ensures
        intern_step(st, s).0.strings.no_duplicates(),
        intern_step(st, s).0.strings.contains(s),
        forall|x: Seq<char>| st.strings.contains(x) ==> intern_step(st, s).0.strings.contains(x),
        live_regs(intern_step(st, s).0) == live_regs(st),
        intern_step(st, s).0.whiles == st.whiles,
        intern_step(st, s).0.ifs == st.ifs,
{
    lemma_find_from(st.strings, s, 0);
    let r = intern_step(st, s).0;
    if find(st.strings, s) < 0 {
        assert(!st.strings.contains(s));
        assert(r.strings.contains(s)) by {
            assert(r.strings[st.strings.len() as int] == s);
        }
        assert forall|x: Seq<char>| st.strings.contains(x) implies r.strings.contains(x) by {
            let j = choose|j: int| 0 <= j < st.strings.len() && st.strings[j] == x;
            assert(r.strings[j] == x);
        }
    }
}

/// Lowering an expression leaves exactly one more register live (the one that
/// holds its value), keeps the string pool free of duplicates, and draws no label.
pub proof fn lemma_expr_balance(st: GenState, e: ExprV)
    requires
        st.strings.no_duplicates(),
    ensures
        live_regs(gen_expr_spec(st, e).0) == live_regs(st) + 1,
        gen_expr_spec(st, e).0.strings.no_duplicates(),
        gen_expr_spec(st, e).0.whiles == st.whiles,
        gen_expr_spec(st, e).0.ifs == st.ifs,
    decreases e,
{
    match e {
        ExprV::Str(s) => {
            lemma_intern_no_dup(alloc_step(st).0, s);
        },
        ExprV::BinOp(op, l, r) => {
            lemma_expr_balance(st, *l);
            lemma_expr_balance(gen_expr_spec(st, *l).0, *r);
        },
        ExprV::Unary(op, inner) => {
            lemma_expr_balance(st, *inner);
        },
        _ => {},
    }
}

proof fn lemma_print_balance(st: GenState, e: ExprV, newline: bool)
    requires
        st.strings.no_duplicates(),
    ensures
        live_regs(gen_print_spec(st, e, newline)) == live_regs(st),
        gen_print_spec(st, e, newline).strings.no_duplicates(),
        gen_print_spec(st, e, newline).whiles == st.whiles,
        gen_print_spec(st, e, newline).ifs == st.ifs,
{
    lemma_expr_balance(st, e);
    if let ExprV::Str(s) = e {
        lemma_intern_no_dup(st, s);
    }
}

/// Lowering a statement gives back every register it takes, on each branch and
/// loop body alike; it keeps the string pool free of duplicates; and it draws one
/// fresh number per `while` and per `if` it contains.
pub proof fn lemma_stmt_balance(st: GenState, s: StmtV)
    requires
        st.strings.no_duplicates(),
    ensures
        live_regs(gen_stmt_spec(st, s)) == live_regs(st),
        gen_stmt_spec(st, s).strings.no_duplicates(),
        gen_stmt_spec(st, s).whiles == st.whiles + count_whiles(s),
        gen_stmt_spec(st, s).ifs == st.ifs + count_ifs(s),
    decreases s, 0nat,
{
    match s {
        StmtV::Assign(var, expr) => {
            lemma_expr_balance(st, expr);
        },
        StmtV::Exit(code) => {
            if let Some(e) = code {
                lemma_expr_balance(st, e);
            }
        },
        StmtV::Print(expr) => {
            lemma_print_balance(st, expr, false);
        },
        StmtV::PrintLn(expr) => {
            if let Some(e) = expr {
                lemma_print_balance(st, e, true);
            }
        },
        StmtV::While(condition, body) => {
            let n = st.whiles;
            let s1 = emit(GenState { whiles: n + 1, ..st }, label_line(while_start(n)));
            lemma_expr_balance(s1, condition);
            let (s2, r) = gen_expr_spec(s1, condition);
            let s3 = free_step(emit(s2, branch_line(r, while_end(n), ""@)), r);
            lemma_block_balance(s3, body, 0);
        },
        StmtV::If(condition, then_body, else_body) => {
            let n = st.ifs;
            let s1 = GenState { ifs: n + 1, ..st };
            lemma_expr_balance(s1, condition);
            let (s2, r) = gen_expr_spec(s1, condition);
            let s3 = free_step(emit(s2, match else_body {
                Some(_) => branch_line(r, if_else(n), " # Jump to else branch if condition is false"@),
                None => branch_line(r, if_end(n), " # Jump to end if condition is false"@),
            }), r);
            lemma_block_balance(s3, then_body, 0);
            let s4 = gen_block_spec(s3, then_body, 0);
            if let Some(eb) = else_body {
                lemma_block_balance(
                    emit_all(s4, seq![jump_line(if_end(n), " # Skip else block"@), label_line(if_else(n))]),
                    eb,
                    0,
                );
            }
        },
    }
}

/// The same as `lemma_stmt_balance`, for the statements `ss[i..]` of a block.
pub proof fn lemma_block_balance(st: GenState, ss: Seq<StmtV>, i: int)
    requires
        st.strings.no_duplicates(),
    ensures
        live_regs(gen_block_spec(st, ss, i)) == live_regs(st),
        gen_block_spec(st, ss, i).strings.no_duplicates(),
        gen_block_spec(st, ss, i).whiles == st.whiles + count_whiles_block(ss, i),
        gen_block_spec(st, ss, i).ifs == st.ifs + count_ifs_block(ss, i),
    decreases ss, ss.len() - i,
{
    if 0 <= i < ss.len() {
        lemma_stmt_balance(st, ss[i]);
        lemma_block_balance(gen_stmt_spec(st, ss[i]), ss, i + 1);
    }
}

proof fn lemma_top_balance(st: GenState, ss: Seq<StmtV>, i: int)
    requires
        st.strings.no_duplicates(),
    ensures
        live_regs(gen_top_spec(st, ss, i)) == live_regs(st),
        gen_top_spec(st, ss, i).strings.no_duplicates(),
        gen_top_spec(st, ss, i).whiles == st.whiles + count_whiles_block(ss, i),
        gen_top_spec(st, ss, i).ifs == st.ifs + count_ifs_block(ss, i),
    decreases ss.len() - i,
{
    if 0 <= i < ss.len() {
        lemma_stmt_balance(st, ss[i]);
        lemma_top_balance(emit(gen_stmt_spec(st, ss[i]), ""@), ss, i + 1);
    }
}

/// Over a whole program lowered by a fresh generator: every register taken is
/// given back; the `while` and `if` counters end at the number of `while` and
/// `if` statements, each of which drew its own number; and the string pool, hence
/// the data section (one `.asciiz` line per pool entry), holds no string twice.
pub proof fn lemma_program_counts(ss: Seq<StmtV>)
    ensures
        program_state(initial_state(), ss).allocs == program_state(initial_state(), ss).frees,
        program_state(initial_state(), ss).whiles == count_whiles_block(ss, 0),
        program_state(initial_state(), ss).ifs == count_ifs_block(ss, 0),
        program_state(initial_state(), ss).strings.no_duplicates(),
        data_lines(program_state(initial_state(), ss).strings, program_state(initial_state(), ss).strings.len() as int).len()
            == program_state(initial_state(), ss).strings.len(),
{
    let p = emit_all(initial_state(), prologue_lines());
    assert(p.strings.no_duplicates());
    lemma_top_balance(p, ss, 0);
    let fin = program_state(initial_state(), ss);
    lemma_data_lines_len(fin.strings, fin.strings.len() as int);
}

proof fn lemma_data_lines_len(strs: Seq<Seq<char>>, n: int)
    requires
        0 <= n <= strs.len(),
    ensures
        data_lines(strs, n).len() == n,
    decreases n,
{
    if n > 0 {
        lemma_data_lines_len(strs, n - 1);
    }
}

/// Compiling is a function of the source text: the same text twice gives the
/// same assembly text, or the same failure.
pub proof fn lemma_compile_deterministic(a: Seq<char>, b: Seq<char>)
    requires
        a == b,
    ensures
        compile_spec(a) == compile_spec(b),
{
}

} // verus!

verus! {

proof fn lemma_dec_nat_len(n: nat)
    ensures
        n < 10 ==> dec_nat(n).len() == 1,
        n >= 10 ==> dec_nat(n).len() >= 2,
    decreases n,
{
    if n >= 10 {
        lemma_dec_nat_len(n / 10);
    }
}

/// Distinct numbers are spelled differently.
pub proof fn lemma_dec_nat_injective(a: nat, b: nat)
    requires
        dec_nat(a) == dec_nat(b),
    ensures
        a == b,
    decreases a,
{
    lemma_dec_nat_len(a);
    lemma_dec_nat_len(b);
    if a < 10 {
        assert(dec_nat(a)[0] == digit_char(a));
        assert(dec_nat(b)[0] == digit_char(b));
    } else {
        assert(dec_nat(a).last() == digit_char(a % 10));
        assert(dec_nat(b).last() == digit_char(b % 10));
        assert(dec_nat(a).drop_last() =~= dec_nat(a / 10));
        assert(dec_nat(b).drop_last() =~= dec_nat(b / 10));
        lemma_dec_nat_injective(a / 10, b / 10);
    }
}

proof fn lemma_strip(p: Seq<char>, d1: Seq<char>, d2: Seq<char>, s: Seq<char>)
    requires
        p + d1 + s == p + d2 + s,
    ensures
        d1 == d2,
{
    let x = p + d1 + s;
    assert(x.len() == p.len() + d1.len() + s.len());
    assert((p + d2 + s).len() == p.len() + d2.len() + s.len());
    assert(x.subrange(p.len() as int, (p.len() + d1.len()) as int) =~= d1);
    assert((p + d2 + s).subrange(p.len() as int, (p.len() + d2.len()) as int) =~= d2);
}

/// Control-flow labels never collide: each kind of label is distinct for distinct
/// numbers, and labels of different kinds differ whatever their numbers.
pub proof fn lemma_labels_distinct(a: int, b: int)
    requires
        0 <= a,
        0 <= b,
    ensures
        a != b ==> while_start(a) != while_start(b) && while_end(a) != while_end(b)
            && if_else(a) != if_else(b) && if_end(a) != if_end(b),
        while_start(a) != while_end(b),
        if_else(a) != if_end(b),
        while_start(a) != if_else(b) && while_start(a) != if_end(b),
        while_end(a) != if_else(b) && while_end(a) != if_end(b),
{
    reveal_strlit("W");
    reveal_strlit("IF");
    reveal_strlit("_start");
    reveal_strlit("_end");
    reveal_strlit("_else");
    if a != b {
        if while_start(a) == while_start(b) {
            lemma_strip("W"@, dec_nat(a as nat), dec_nat(b as nat), "_start"@);
            lemma_dec_nat_injective(a as nat, b as nat);
        }
        if while_end(a) == while_end(b) {
            lemma_strip("W"@, dec_nat(a as nat), dec_nat(b as nat), "_end"@);
            lemma_dec_nat_injective(a as nat, b as nat);
        }
        if if_else(a) == if_else(b) {
            lemma_strip("IF"@, dec_nat(a as nat), dec_nat(b as nat), "_else"@);
            lemma_dec_nat_injective(a as nat, b as nat);
        }
        if if_end(a) == if_end(b) {
            lemma_strip("IF"@, dec_nat(a as nat), dec_nat(b as nat), "_end"@);
            lemma_dec_nat_injective(a as nat, b as nat);
        }
    }
    assert(while_start(a).last() == 't');
    assert(while_end(b).last() == 'd');
    assert(if_else(a).last() == 'e');
    assert(if_end(b).last() == 'd');
    assert(while_start(a)[0] == 'W');
    assert(while_end(a)[0] == 'W');
    assert(if_else(b)[0] == 'I');
    assert(if_end(b)[0] == 'I');
}

} // verus!

verus! {

pub open spec fn is_boolean_op(op: BinOp) -> bool {
    match op {
        BinOp::LT | BinOp::LTE | BinOp::GT | BinOp::GTE | BinOp::Eq | BinOp::Neq | BinOp::And | BinOp::Or => true,
        _ => false,
    }
}

/// Comparison and logical operators compute a raw value and end with
/// `sltu d, x0, d`, which leaves exactly 0 or 1 in the result register whatever
/// it held; `!` is `sltiu r, r, 1`, which also leaves 0 or 1. Arithmetic and
/// bitwise operators are one instruction, with no normalization.
pub proof fn lemma_booleans_normalized(op: BinOp, d: u8, a: u8, b: u8)
    ensures
        is_boolean_op(op) ==> binop_lines(op, d, a, b).len() >= 2 && binop_lines(op, d, a, b).last() == norm_line(d),
        !is_boolean_op(op) ==> binop_lines(op, d, a, b).len() == 1,
        unary_line(UnaryOp::Not, d) == ins3("sltiu"@, reg_text(d), reg_text(d), "1"@, ""@),
{
}

} // verus!
