use riscv_compiler::codegen::CodeGen;
use riscv_compiler::compile;
use riscv_compiler::error::{CompileError, Span};
use riscv_compiler::lexer::{Lexer, TokenKind};
use riscv_compiler::parser::{BinOp, Expr, Parser, Stmt, Type, UnaryOp, VarTypes};
use std::collections::HashMap;

/// A small interpreter for the assembly the compiler emits: enough of the
/// instruction set, the `.asciiz` data and the syscalls to run its output.
struct Machine {
    regs: HashMap<String, i32>,
    stack: HashMap<i32, i32>,
    out: String,
    exit_code: Option<i32>,
}

fn unescape_data(s: &str) -> String {
    let chars: Vec<char> = s.chars().collect();
    let mut out = String::new();
    let mut i = 0;
    while i < chars.len() {
        if chars[i] == '\\' {
            match chars[i + 1] {
                'n' => out.push('\n'),
                't' => out.push('\t'),
                'r' => out.push('\r'),
                'x' => {
                    let hex: String = chars[i + 2..i + 4].iter().collect();
                    out.push(char::from_u32(u32::from_str_radix(&hex, 16).unwrap()).unwrap());
                    i += 2;
                }
                c => out.push(c),
            }
            i += 2;
        } else {
            out.push(chars[i]);
            i += 1;
        }
    }
    out
}

fn run(assembly: &str) -> (String, i32) {
    let mut strings: Vec<(String, String)> = Vec::new();
    let mut code: Vec<String> = Vec::new();
    let mut labels: HashMap<String, usize> = HashMap::new();
    let mut in_text = false;
    for line in assembly.lines() {
        let t = line.trim();
        if t == ".text" {
            in_text = true;
            continue;
        }
        if !in_text {
            if let Some((label, rest)) = t.split_once(": .asciiz \"") {
                strings.push((label.to_string(), unescape_data(&rest[..rest.len() - 1])));
            }
            continue;
        }
        let t = match t.find(" #") {
            Some(i) if !t.starts_with('#') => t[..i].trim(),
            _ => t,
        };
        if t.is_empty() || t.starts_with('#') || t.starts_with(".globl") {
            continue;
        }
        if let Some(label) = t.strip_suffix(':') {
            labels.insert(label.to_string(), code.len());
            continue;
        }
        code.push(t.to_string());
    }
    let mut m = Machine { regs: HashMap::new(), stack: HashMap::new(), out: String::new(), exit_code: None };
    let mut pc = 0;
    let mut steps = 0;
    while pc < code.len() && m.exit_code.is_none() {
        steps += 1;
        assert!(steps < 100_000, "program does not stop");
        let ins = &code[pc];
        pc += 1;
        let (op, args) = ins.split_once(' ').unwrap_or((ins.as_str(), ""));
        let a: Vec<&str> = args.split(", ").map(|x| x.trim()).collect();
        let get = |m: &Machine, r: &str| -> i32 { if r == "x0" { 0 } else { *m.regs.get(r).unwrap_or(&0) } };
        let imm = |s: &str| -> i32 {
            if s == "'\\n'" { 10 } else { s.parse::<i32>().unwrap() }
        };
        let slot = |s: &str| -> i32 { s.strip_suffix("(sp)").unwrap().parse::<i32>().unwrap() };
        match op {
            "addi" => {}
            "li" => {
                m.regs.insert(a[0].to_string(), imm(a[1]));
            }
            "la" => {
                let idx = strings.iter().position(|(l, _)| l == a[1]).unwrap() as i32;
                m.regs.insert(a[0].to_string(), idx);
            }
            "lw" => {
                let v = *m.stack.get(&slot(a[1])).unwrap_or(&0);
                m.regs.insert(a[0].to_string(), v);
            }
            "sw" => {
                let v = get(&m, a[0]);
                m.stack.insert(slot(a[1]), v);
            }
            "mv" => {
                let v = get(&m, a[1]);
                m.regs.insert(a[0].to_string(), v);
            }
            "not" => {
                let v = !get(&m, a[1]);
                m.regs.insert(a[0].to_string(), v);
            }
            "xori" | "sltiu" => {
                let x = get(&m, a[1]);
                let k = imm(a[2]);
                let v = if op == "xori" { x ^ k } else { ((x as u32) < (k as u32)) as i32 };
                m.regs.insert(a[0].to_string(), v);
            }
            "add" | "sub" | "mul" | "div" | "slt" | "sltu" | "and" | "or" | "xor" | "sll" | "sra" => {
                let x = get(&m, a[1]);
                let y = get(&m, a[2]);
                let v = match op {
                    "add" => x.wrapping_add(y),
                    "sub" => x.wrapping_sub(y),
                    "mul" => x.wrapping_mul(y),
                    "div" => x / y,
                    "slt" => (x < y) as i32,
                    "sltu" => ((x as u32) < (y as u32)) as i32,
                    "and" => x & y,
                    "or" => x | y,
                    "xor" => x ^ y,
                    "sll" => x << (y & 31),
                    _ => x >> (y & 31),
                };
                m.regs.insert(a[0].to_string(), v);
            }
            "beq" => {
                if get(&m, a[0]) == get(&m, a[1]) {
                    pc = labels[a[2]];
                }
            }
            "j" => {
                pc = labels[a[0]];
            }
            "ecall" => {
                let a1 = get(&m, "a1");
                match get(&m, "a0") {
                    1 => m.out.push_str(&a1.to_string()),
                    4 => m.out.push_str(&strings[a1 as usize].1),
                    11 => m.out.push(char::from_u32(a1 as u32).unwrap()),
                    10 => m.exit_code = Some(0),
                    17 => m.exit_code = Some(a1),
                    other => panic!("unknown syscall {}", other),
                }
            }
            other => panic!("unknown instruction {}", other),
        }
    }
    (m.out, m.exit_code.expect("program ends with an exit"))
}

fn assembly(src: &str) -> String {
    match compile(src) {
        Ok(text) => text,
        Err(e) => panic!("compile failed: {}", e.display_with_source(src)),
    }
}

fn parse_error(src: &str) -> (String, Option<Span>) {
    match compile(src) {
        Err(CompileError::ParseError { msg, span }) => (msg, span),
        other => panic!("expected a parse error, got {:?}", other),
    }
}

fn lex_error(src: &str) -> (String, Span) {
    match compile(src) {
        Err(CompileError::LexError { msg, span }) => (msg, span),
        other => panic!("expected a lex error, got {:?}", other),
    }
}

fn span(line: usize, col: usize, length: usize) -> Span {
    Span::new(line, col, length)
}

#[test]
fn same_source_gives_same_assembly() {
    let src = "s = \"hi\"; i = 0; while i < 2 { print s; if i { println \"x\"; } i = i + 1; } exit i";
    assert_eq!(assembly(src), assembly(src));
}

#[test]
fn addition_lowers_exactly() {
    let expected = [
        "  .data",
        "",
        "  .text",
        "  .globl main",
        "main:",
        "  addi sp, sp, -512 # Set up stack frame",
        "",
        "  li t6, 1 # Load immediate 1",
        "  li t5, 2 # Load immediate 2",
        "  add t4, t6, t5 # addition",
        "  sw t4, 0(sp) # Store variable x",
        "",
        "  # Exit with code 0",
        "  li a1, 0 # Exit code 0",
        "  li a0, 17 # Syscall 17: exit2",
        "  ecall",
    ]
    .join("\n");
    assert_eq!(assembly("x = 1 + 2;"), expected);
}

#[test]
fn registers_are_reused_after_each_statement() {
    let text = assembly("a = 1 + 2; b = 3 * 4; c = a - b; print c");
    assert!(!text.contains("Spill"));
    let (out, code) = run(&text);
    assert_eq!(out, "-9");
    assert_eq!(code, 0);
}

#[test]
fn deep_expression_spills_t0() {
    let text = assembly("x = 1 + (2 + (3 + (4 + (5 + (6 + (7 + 8))))))");
    assert!(text.contains("  sw t0, 128(sp) # Spill t0 to stack"));
    assert!(text.contains("  sw t0, 132(sp) # Spill t0 to stack"));
}

#[test]
fn labels_are_unique_per_construct() {
    let src = "i = 0; while i < 2 { if i { print 1; } i = i + 1; } if i { print 2; } else { print 3; } \
               j = 0; while j < 1 { j = j + 1; } if j { print 4; }";
    let text = assembly(src);
    let defs: Vec<&str> = text.lines().filter(|l| l.ends_with(':') && !l.starts_with(' ')).collect();
    for label in ["W0_start:", "W0_end:", "W1_start:", "W1_end:", "IF0_end:", "IF1_else:", "IF1_end:", "IF2_end:"] {
        assert_eq!(defs.iter().filter(|d| **d == label).count(), 1, "{}", label);
    }
    assert!(!text.contains("W2_start"));
    assert!(!text.contains("IF3_end"));
    assert_eq!(defs.len(), 1 + 8);
    let (out, _) = run(&text);
    assert_eq!(out, "124");
}

#[test]
fn repeated_literal_is_pooled_once() {
    let text = assembly("print \"hi\"; print \"hi\"; print \"hi\"; print \"yo\"");
    assert_eq!(text.matches(".asciiz").count(), 2);
    assert!(text.contains("str0: .asciiz \"hi\""));
    assert!(text.contains("str1: .asciiz \"yo\""));
    assert_eq!(text.matches("la a1, str0 # Load string hi").count(), 3);
    let (out, _) = run(&text);
    assert_eq!(out, "hihihiyo");
}

#[test]
fn string_operand_of_addition_is_rejected() {
    let (msg, sp) = parse_error("x = \"a\"; y = x + 1;");
    assert_eq!(msg, "Binary operation Add requires integer operands");
    assert_eq!(sp, None);
}

#[test]
fn unknown_variable_is_rejected() {
    let (msg, sp) = parse_error("z = w;");
    assert_eq!(msg, "Variable 'w' not found");
    assert_eq!(sp, None);
}

#[test]
fn chained_comparison_is_rejected() {
    let (msg, sp) = parse_error("a = 1 < 2 < 3;");
    assert_eq!(msg, "Chained comparisons are not allowed");
    assert_eq!(sp, Some(span(1, 11, 1)));
}

#[test]
fn parenthesized_comparison_may_be_compared() {
    let (out, _) = run(&assembly("print (1 < 2) < 3"));
    assert_eq!(out, "1");
}

#[test]
fn comparisons_give_zero_or_one() {
    let (out, _) = run(&assembly("x = 5 < 3; print x; println; y = 3 < 5; print y"));
    assert_eq!(out, "0\n1");
    let (out, _) = run(&assembly(
        "print 5 > 3; print 3 > 5; print 3 <= 3; print 4 <= 3; print 3 >= 3; print 2 >= 3; print !0; print !7",
    ));
    assert_eq!(out, "10101010");
}

#[test]
fn while_loop_prints_in_order() {
    let text = assembly("i = 0; while i < 3 { print i; i = i + 1; }");
    assert!(text.contains("W0_start:\n"));
    assert!(text.contains("  beq t4, x0, W0_end\n"));
    assert!(text.contains("  j W0_start\nW0_end:\n"));
    assert!(text.ends_with("  # Exit with code 0\n  li a1, 0 # Exit code 0\n  li a0, 17 # Syscall 17: exit2\n  ecall"));
    let (out, code) = run(&text);
    assert_eq!(out, "012");
    assert_eq!(code, 0);
}

#[test]
fn if_else_takes_then_branch() {
    let text = assembly("a = 1; if a { println \"yes\"; } else { println \"no\"; }");
    assert!(text.contains("beq t6, x0, IF0_else # Jump to else branch if condition is false"));
    assert!(text.contains("  j IF0_end # Skip else block\nIF0_else:"));
    let (out, _) = run(&text);
    assert_eq!(out, "yes\n");
    let (out, _) = run(&assembly("a = 0; if a { println \"yes\"; } else { println \"no\"; }"));
    assert_eq!(out, "no\n");
}

#[test]
fn if_without_else_jumps_to_end() {
    let text = assembly("if 0 { print 1; } print 2");
    assert!(text.contains("beq t6, x0, IF0_end # Jump to end if condition is false"));
    assert!(!text.contains("IF0_else"));
    let (out, _) = run(&text);
    assert_eq!(out, "2");
}

#[test]
fn unterminated_string_points_at_quote() {
    let (msg, sp) = lex_error("println \"abc");
    assert_eq!(msg, "Unterminated string literal");
    assert_eq!(sp, span(1, 9, 4));
}

#[test]
fn unterminated_escape_is_reported() {
    let (msg, sp) = lex_error("x = 1\nprint \"ab\\");
    assert_eq!(msg, "Unterminated escape in string");
    assert_eq!(sp, span(2, 7, 4));
}

#[test]
fn unexpected_character_is_reported() {
    let (msg, sp) = lex_error("x = 1 @ 2");
    assert_eq!(msg, "Unexpected character: '@'");
    assert_eq!(sp, span(1, 7, 1));
}

#[test]
fn too_large_number_is_reported() {
    let (msg, sp) = lex_error("x = 99999999999");
    assert_eq!(msg, "Invalid number: number too large to fit in target type");
    assert_eq!(sp, span(1, 5, 11));
}

#[test]
fn largest_number_is_accepted() {
    let (out, _) = run(&assembly("print 2147483647"));
    assert_eq!(out, "2147483647");
    let (msg, _) = lex_error("print 2147483648");
    assert_eq!(msg, "Invalid number: number too large to fit in target type");
}

#[test]
fn non_ascii_numeral_is_an_invalid_digit() {
    let (msg, sp) = lex_error("x = 1\u{b2}");
    assert_eq!(msg, "Invalid number: invalid digit found in string");
    assert_eq!(sp, span(1, 5, 2));
}

#[test]
fn tokens_carry_positions() {
    let mut lexer = Lexer::new("# note\nx = 12;\n  print \"a\\tb\"");
    let tokens = lexer.tokenize().unwrap();
    let kinds: Vec<TokenKind> = tokens.iter().map(|t| t.kind.clone()).collect();
    assert_eq!(
        kinds,
        vec![
            TokenKind::Ident("x".to_string()),
            TokenKind::Assign,
            TokenKind::Int(12),
            TokenKind::Semicolon,
            TokenKind::Print,
            TokenKind::String("a\tb".to_string()),
            TokenKind::Eof,
        ]
    );
    assert_eq!(tokens[0].span, span(2, 1, 1));
    assert_eq!(tokens[2].span, span(2, 5, 2));
    assert_eq!(tokens[4].span, span(3, 3, 5));
    assert_eq!(tokens[5].span, span(3, 9, 6));
    assert_eq!(tokens[6].span, span(3, 15, 0));
}

#[test]
fn two_character_operators_and_keywords() {
    let mut lexer = Lexer::new("a <= b >= c < d > e ! while if else exit println printx");
    let kinds: Vec<TokenKind> = lexer.tokenize().unwrap().into_iter().map(|t| t.kind).collect();
    assert_eq!(kinds[1], TokenKind::LTE);
    assert_eq!(kinds[3], TokenKind::GTE);
    assert_eq!(kinds[5], TokenKind::LT);
    assert_eq!(kinds[7], TokenKind::GT);
    assert_eq!(kinds[9], TokenKind::Bang);
    assert_eq!(&kinds[10..15], &[TokenKind::While, TokenKind::If, TokenKind::Else, TokenKind::Exit, TokenKind::PrintLn]);
    assert_eq!(kinds[15], TokenKind::Ident("printx".to_string()));
    assert_eq!(kinds[16], TokenKind::Eof);
}

#[test]
fn empty_source_is_only_eof() {
    let mut lexer = Lexer::new("");
    let tokens = lexer.tokenize().unwrap();
    assert_eq!(tokens.len(), 1);
    assert_eq!(tokens[0].kind, TokenKind::Eof);
    let (out, code) = run(&assembly(""));
    assert_eq!(out, "");
    assert_eq!(code, 0);
}

#[test]
fn missing_assign_is_reported() {
    let (msg, sp) = parse_error("x 1");
    assert_eq!(msg, "Expected '='");
    assert_eq!(sp, Some(span(1, 3, 1)));
}

#[test]
fn missing_paren_is_reported() {
    let (msg, sp) = parse_error("x = (1 + 2");
    assert_eq!(msg, "Expected ')'");
    assert_eq!(sp, Some(span(1, 11, 0)));
}

#[test]
fn string_exit_code_is_rejected() {
    let (msg, _) = parse_error("exit \"a\"");
    assert_eq!(msg, "Exit code must be an integer");
}

#[test]
fn unexpected_token_is_named() {
    let (msg, sp) = parse_error("+ 1");
    assert_eq!(msg, "Unexpected token: Plus");
    assert_eq!(sp, Some(span(1, 1, 1)));
    let (msg, _) = parse_error("print )");
    assert_eq!(msg, "Unexpected token: RParen");
    let (msg, _) = parse_error("7 = 1");
    assert_eq!(msg, "Unexpected token: Int(7)");
}

#[test]
fn block_errors_are_reported() {
    assert_eq!(parse_error("while \"s\" { }").0, "Condition must be an integer");
    assert_eq!(parse_error("while 1 print 1").0, "Expected '{'");
    assert_eq!(parse_error("while 1 { print 1").0, "Expected '}'");
    assert_eq!(parse_error("if 1 { } else print 1").0, "Expected '{'");
}

#[test]
fn unary_on_string_is_rejected() {
    assert_eq!(parse_error("x = -\"a\"").0, "Unary operation Neg requires an integer operand");
    assert_eq!(parse_error("print 1 + \"a\"").0, "Binary operation Add requires integer operands");
}

#[test]
fn precedence_and_associativity() {
    let (out, _) = run(&assembly("print 1 * 2 + 3; println; print 1 + 2 * 3; println; print 10 - 3 - 2; println; print 8 / 2 / 2; println; print -2 * 3"));
    assert_eq!(out, "5\n7\n5\n2\n-6");
}

#[test]
fn exit_codes() {
    assert_eq!(run(&assembly("exit 3; print 1")), (String::new(), 3));
    assert_eq!(run(&assembly("print 1; exit")), ("1".to_string(), 0));
    let text = assembly("exit");
    assert!(text.contains("  li a0, 10 # Syscall 10: exit\n  ecall"));
}

#[test]
fn string_variables_print_their_text() {
    let text = assembly("s = \"a\\\"b\\\\c\\n\"; print s");
    assert!(text.contains("str0: .asciiz \"a\\\"b\\\\c\\n\""));
    assert!(text.contains("  la t6, str0 # Store string \"a\\\\\\\"b\\\\\\\\c\\\\n\""));
    assert!(text.contains("  mv a1, t6 # Load string from variable s"));
    let (out, _) = run(&text);
    assert_eq!(out, "a\"b\\c\n");
}

#[test]
fn control_characters_are_hex_escaped() {
    let text = assembly("print \"a\u{1}b\rc\"");
    assert!(text.contains("str0: .asciiz \"a\\x01b\\rc\""));
}

#[test]
fn reassignment_changes_type() {
    let mut lexer = Lexer::new("x = 1; x = \"s\"; y = 2");
    let tokens = lexer.tokenize().unwrap();
    let mut parser = Parser::new(tokens);
    let (stmts, types) = parser.parse().unwrap();
    assert_eq!(stmts.len(), 3);
    assert_eq!(types.get(&"x".to_string()), Some(Type::String));
    assert_eq!(types.get(&"y".to_string()), Some(Type::Int));
    assert_eq!(types.get(&"z".to_string()), None);
    let (out, _) = run(&assembly("x = 1; print x; x = \"s\"; print x"));
    assert_eq!(out, "1s");
}

#[test]
fn bare_println_prints_newline() {
    let text = assembly("println; println");
    assert_eq!(text.matches("  li a1, '\\n' # Load newline char").count(), 2);
    assert_eq!(run(&text).0, "\n\n");
}

#[test]
fn get_type_reports_first_failure() {
    let mut types = VarTypes::new();
    types.insert(&"s".to_string(), Type::String);
    types.insert(&"n".to_string(), Type::Int);
    let e = Expr::BinOp {
        op: BinOp::Mul,
        left: Box::new(Expr::Var("n".to_string())),
        right: Box::new(Expr::UnaryOp { op: UnaryOp::BitNot, expr: Box::new(Expr::Var("s".to_string())) }),
    };
    match e.get_type(&types) {
        Err(CompileError::ParseError { msg, span: None }) => {
            assert_eq!(msg, "Unary operation BitNot requires an integer operand")
        }
        other => panic!("{:?}", other),
    }
    assert_eq!(Expr::Var("n".to_string()).get_type(&types).unwrap(), Type::Int);
    match Expr::Var("q".to_string()).get_type(&types) {
        Err(CompileError::ParseError { msg, .. }) => assert_eq!(msg, "Unknown variable: q"),
        other => panic!("{:?}", other),
    }
}

fn gen_ops(op: BinOp, x: i32, y: i32) -> (String, String) {
    let stmts = vec![
        Stmt::Assign {
            var: "r".to_string(),
            expr: Expr::BinOp { op, left: Box::new(Expr::Int(x)), right: Box::new(Expr::Int(y)) },
        },
        Stmt::Print { expr: Expr::Var("r".to_string()) },
    ];
    let mut cg = CodeGen::new();
    let text = cg.generate(&stmts);
    let out = run(&text).0;
    (text, out)
}

#[test]
fn operators_without_syntax_lower_and_run() {
    assert_eq!(gen_ops(BinOp::Eq, 4, 4).1, "1");
    assert_eq!(gen_ops(BinOp::Eq, 4, 5).1, "0");
    assert_eq!(gen_ops(BinOp::Neq, 4, 5).1, "1");
    assert_eq!(gen_ops(BinOp::Neq, 4, 4).1, "0");
    assert_eq!(gen_ops(BinOp::And, 6, 1).1, "0");
    assert_eq!(gen_ops(BinOp::And, 6, 2).1, "1");
    assert_eq!(gen_ops(BinOp::Or, 0, 0).1, "0");
    assert_eq!(gen_ops(BinOp::Or, 0, 9).1, "1");
    assert_eq!(gen_ops(BinOp::BitAnd, 6, 3).1, "2");
    assert_eq!(gen_ops(BinOp::BitOr, 6, 3).1, "7");
    assert_eq!(gen_ops(BinOp::BitXor, 6, 3).1, "5");
    assert_eq!(gen_ops(BinOp::LShift, 3, 2).1, "12");
    assert_eq!(gen_ops(BinOp::RShift, -8, 1).1, "-4");
    let (text, _) = gen_ops(BinOp::Eq, 1, 2);
    assert!(text.contains("  sub t4, t6, t5 # diff = left - right\n  sltu t4, x0, t4 # (diff != 0)\n  xori t4, t4, 1 # !(diff != 0) -> (diff == 0)\n  sltu t4, x0, t4 # Normalize result"));
}

#[test]
fn bitwise_not_lowers_in_place() {
    let stmts = vec![Stmt::Print {
        expr: Expr::UnaryOp { op: UnaryOp::BitNot, expr: Box::new(Expr::Int(5)) },
    }];
    let mut cg = CodeGen::new();
    let text = cg.generate(&stmts);
    assert!(text.contains("  not t6, t6\n"));
    assert_eq!(run(&text).0, "-6");
}

#[test]
fn error_shows_source_line_and_caret() {
    let src = "x = 1\nprintln \"abc";
    let err = compile(src).unwrap_err();
    assert_eq!(
        err.display_with_source(src),
        "2:9: Lexer error: Unterminated string literal\n  |\n2 | println \"abc\n  |         ^^^^"
    );
}

#[test]
fn error_without_span_is_bare() {
    let err = compile("z = w").unwrap_err();
    assert_eq!(err.display_with_source("z = w"), "Parser error: Variable 'w' not found");
}

#[test]
fn error_on_missing_line_shows_header_only() {
    let err = CompileError::ParseError { msg: "Expected ')'".to_string(), span: Some(Span::new(0, 0, 0)) };
    assert_eq!(err.display_with_source("x = (1"), "0:0: Parser error: Expected ')'");
    let err = CompileError::ParseError { msg: "m".to_string(), span: Some(Span::new(12, 3, 0)) };
    let src = "a\r\nb\nc\nd\ne\nf\ng\nh\ni\nj\nk\nl";
    assert_eq!(err.display_with_source(src), "12:3: Parser error: m\n   |\n12 | l\n   |   ^");
    let err = CompileError::ParseError { msg: "m".to_string(), span: Some(Span::new(1, 1, 2)) };
    assert_eq!(err.display_with_source(src), "1:1: Parser error: m\n  |\n1 | a\n  | ^^");
}

#[test]
fn unicode_letters_and_spaces() {
    let src = "café\u{a0}=\u{2003}3;\tprint café";
    let mut lexer = Lexer::new(src);
    let kinds: Vec<TokenKind> = lexer.tokenize().unwrap().into_iter().map(|t| t.kind).collect();
    assert_eq!(kinds[0], TokenKind::Ident("café".to_string()));
    assert_eq!(kinds[1], TokenKind::Assign);
    assert_eq!(kinds[2], TokenKind::Int(3));
    assert_eq!(run(&assembly(src)).0, "3");
}

#[test]
fn identifier_keeps_digits_and_underscores() {
    let mut lexer = Lexer::new("a_1b2 _x");
    let tokens = lexer.tokenize();
    match tokens {
        Err(CompileError::LexError { msg, span }) => {
            assert_eq!(msg, "Unexpected character: '_'");
            assert_eq!(span, Span::new(1, 7, 1));
        }
        other => panic!("{:?}", other),
    }
    let mut lexer = Lexer::new("a_1b2");
    assert_eq!(lexer.tokenize().unwrap()[0].kind, TokenKind::Ident("a_1b2".to_string()));
}
