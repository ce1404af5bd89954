//! End-to-end tests of the slang core: scanning, parsing, printing
//! and evaluation, with IEEE-754 float hooks supplied here.
use slang::atom::Atom;
use slang::parser::{parse_expr, Lexer, Op};
use slang::scanner::scan_tokens;
use slang::statement::State;
use slang::{Error, FloatOp};

fn arith(op: FloatOp, a: u64, b: u64) -> u64 {
    let x = f64::from_bits(a);
    let y = f64::from_bits(b);
    match op {
        FloatOp::Add => (x + y).to_bits(),
        FloatOp::Sub => (x - y).to_bits(),
        FloatOp::Mul => (x * y).to_bits(),
        FloatOp::Div => (x / y).to_bits(),
        FloatOp::Rem => (x % y).to_bits(),
        FloatOp::Neg => (-1.0 * x).to_bits(),
        FloatOp::OfInt => ((a as i64) as f64).to_bits(),
        FloatOp::Lt => {
            if x < y {
                1
            } else {
                0
            }
        }
        FloatOp::Gt => {
            if x > y {
                1
            } else {
                0
            }
        }
        FloatOp::Eq => {
            if x == y {
                1
            } else {
                0
            }
        }
    }
}

fn fprint(b: u64) -> Vec<char> {
    format!("{}", f64::from_bits(b)).chars().collect()
}

fn fparse(s: &Vec<char>) -> Option<u64> {
    let t: String = s.iter().collect();
    t.parse::<f64>().ok().map(|f| f.to_bits())
}

fn str_to_expr(s: &str) -> slang::parser::S {
    let tokens = scan_tokens(s, &fparse);
    let mut lexer = Lexer::new(tokens);
    parse_expr(&mut lexer, 100_000).expect("expression should parse")
}

fn expr_string(s: &str) -> String {
    slang::print::s_to_string(&str_to_expr(s), &fprint)
}

fn eval_str(s: &str) -> Atom {
    let mut state = State::default();
    let expr = str_to_expr(s);
    slang::eval::eval_expr(&expr, &mut state, 1_000_000, &arith, &fprint)
        .expect("expression should evaluate")
}

fn run_str(s: &str) -> (Vec<String>, Result<Option<Atom>, Error>) {
    let mut state = State::default();
    let r = slang::run(s, &mut state, false, 1_000_000, &arith, &fprint, &fparse);
    let out = state
        .output
        .iter()
        .map(|l| l.iter().collect::<String>())
        .collect();
    (out, r)
}

#[test]
fn test_parser() {
    assert_eq!(expr_string("1"), "1");
    assert_eq!(expr_string("5 + 5"), "(+ 5 5)");
    assert_eq!(expr_string("1 + 2 * 3"), "(+ 1 (* 2 3))");
    assert_eq!(expr_string("5 + 4 * 3 / 4 + 5"), "(+ (+ 5 (/ (* 4 3) 4)) 5)");
    assert_eq!(expr_string("3 * (4 + 4)"), "(* 3 (+ 4 4))");
    assert_eq!(expr_string("(5 + 5) * 4"), "(* (+ 5 5) 4)");
}

#[test]
fn test_eval() {
    assert_eq!(eval_str("12"), Atom::Int(12));
    assert_eq!(eval_str("-2"), Atom::Int(-2));
    assert_eq!(eval_str("5 + 4"), Atom::Int(5 + 4));
    assert_eq!(eval_str("3 - 4 / 3"), Atom::Float((3.0 - 4.0 / 3.0f64).to_bits()));
    assert_eq!(eval_str("3 + 5 * 4"), Atom::Int(3 + 5 * 4));
    assert_eq!(eval_str("3 + 5 * 4 + -4 - -5"), Atom::Int(3 + 5 * 4 + -4 - -5));
    assert_eq!(eval_str("3 * (4 + 5 * 8)"), Atom::Int(3 * (4 + 5 * 8)));
    assert_eq!(
        eval_str("4.4 * (9 * 5 - 8 /     (3 - 4))"),
        Atom::Float((4.4 * (9.0 * 5.0 - 8.0 / (3.0f64 - 4.0))).to_bits())
    );
    assert_eq!(eval_str("3.25/4 * 5"), Atom::Float((3.25 / 4.0 * 5.0f64).to_bits()));
    assert_eq!(
        eval_str("(4.0 * 12.5) + 6.0 / (12.5 + 3.0)"),
        Atom::Float(((4.0 * 12.5) + 6.0 / (12.5f64 + 3.0)).to_bits())
    );
}

#[test]
fn precedence_parenthesized_first() {
    assert_eq!(expr_string("(1 + 2) * 3"), "(* (+ 1 2) 3)");
}

#[test]
fn literal_round_trip() {
    let once = expr_string("12");
    let twice = slang::print::s_to_string(&str_to_expr(&once), &fprint);
    assert_eq!(once, "12");
    assert_eq!(twice, "12");
}

#[test]
fn division_widens_only_when_inexact() {
    assert_eq!(eval_str("7 / 2"), Atom::Float(3.5f64.to_bits()));
    assert_eq!(eval_str("6 / 2"), Atom::Int(3));
}

#[test]
fn shadowing_inner_block() {
    let (out, r) = run_str("let x = 1; { let x = 2; print(x) }\nprint(x)");
    assert!(r.is_ok());
    assert_eq!(out, vec!["2".to_string(), "1".to_string()]);
}

#[test]
fn print_accepts_every_terminator() {
    let (out, r) = run_str("print(1); print(2)\nprint(3)");
    assert!(r.is_ok());
    assert_eq!(out, vec!["1".to_string(), "2".to_string(), "3".to_string()]);
    let (out2, r2) = run_str("{ print(4) }");
    assert!(r2.is_ok());
    assert_eq!(out2, vec!["4".to_string()]);
}

#[test]
fn print_rejects_a_non_terminator() {
    let (_, r) = run_str("print(1) print(2)\n");
    assert_eq!(r, Err(Error::ParseError));
}

#[test]
fn unary_minus_is_numeric_only() {
    assert_eq!(eval_str("-2.5"), Atom::Float((-2.5f64).to_bits()));
    let (_, r) = run_str("-true\n");
    assert_eq!(r, Err(Error::TypeMismatch));
}

#[test]
fn bang_is_boolean_only() {
    assert_eq!(eval_str("!true"), Atom::Bool(false));
    assert_eq!(eval_str("!false"), Atom::Bool(true));
    let (_, r) = run_str("!5\n");
    assert_eq!(r, Err(Error::TypeMismatch));
}

#[test]
fn break_skips_rest_of_iteration() {
    let src = "let i = 0\nlet s2count = 0\nwhile (true) {\nif (i > 1) { break }\ns2count = s2count + 1\ni = i + 1\n}\nprint(s2count)\nprint(i)\n";
    let (out, r) = run_str(src);
    assert!(r.is_ok());
    assert_eq!(out, vec!["2".to_string(), "2".to_string()]);
}

#[test]
fn reassignment_type_guard() {
    let (_, r) = run_str("let x = 1\nx = \"s\"\n");
    assert_eq!(r, Err(Error::TypeMismatch));
    let (_, r2) = run_str("let x = 1\nlet x = \"s\"\n");
    assert!(r2.is_ok());
}

#[test]
fn for_loop_sums() {
    let (out, r) = run_str("let x = 0\nfor (let i = 0; i < 5; i = i + 1) { x = x + i }\nprint(x)\n");
    assert!(r.is_ok());
    assert_eq!(out, vec!["10".to_string()]);
}

#[test]
fn function_call_prints_product() {
    let (out, r) = run_str("fn mul(a,b) { a * b }\nprint(mul(3,4))\n");
    assert!(r.is_ok());
    assert_eq!(out, vec!["12".to_string()]);
}

#[test]
fn float_prints_through_hook() {
    let (out, r) = run_str("print(7 / 2)\n");
    assert!(r.is_ok());
    assert_eq!(out, vec!["3.5".to_string()]);
}

#[test]
fn string_concatenation_formats_numbers() {
    let (out, _) = run_str("print(\"a\" + 1)\nprint(\"x\" + 2.5)\nprint(1 + \"b\")\n");
    assert_eq!(out, vec!["a1".to_string(), "x2.5".to_string(), "1b".to_string()]);
}

#[test]
fn modulo_rounds_toward_zero() {
    let (out, _) = run_str("print(7 % 3)\nprint(-7 % 2)\n");
    assert_eq!(out, vec!["1".to_string(), "-1".to_string()]);
}

#[test]
fn arrays_push_len_index() {
    let src = "let a = [1]\npush(a, 5)\nprint(len(a))\nprint(a[1])\n";
    let (out, r) = run_str(src);
    assert!(r.is_ok());
    assert_eq!(out, vec!["2".to_string(), "5".to_string()]);
}

#[test]
fn undefined_variable_error() {
    let (_, r) = run_str("y = 1\n");
    assert_eq!(r, Err(Error::UndefinedVariable));
}

#[test]
fn unknown_function_error() {
    let (_, r) = run_str("nosuch(1)\n");
    assert_eq!(r, Err(Error::UnknownFunction));
}

#[test]
fn index_out_of_bounds_error() {
    let (_, r) = run_str("let a = [1, 2]\na[5]\n");
    assert_eq!(r, Err(Error::IndexOutOfBounds));
}

#[test]
fn type_mismatch_error() {
    let (_, r) = run_str("true + 1\n");
    assert_eq!(r, Err(Error::TypeMismatch));
}

#[test]
fn parse_error_on_unbalanced_paren() {
    let (_, r) = run_str("(1 + 2\n");
    assert_eq!(r, Err(Error::ParseError));
}

#[test]
fn lex_error_aborts_before_execution() {
    let (out, r) = run_str("print(1)\nlet x = @\n");
    assert_eq!(r, Err(Error::LexError(1)));
    assert!(out.is_empty());
}

#[test]
fn arity_error_on_mismatched_call() {
    let (_, r) = run_str("fn f(a) { a }\nf(1, 2)\n");
    assert_eq!(r, Err(Error::ArityError));
}

#[test]
fn fuel_exhaustion_on_endless_loop() {
    let mut state = State::default();
    let r = slang::run(
        "while (true) {\nlet x = 1\n}\n",
        &mut state,
        false,
        500,
        &arith,
        &fprint,
        &fparse,
    );
    assert_eq!(r, Err(Error::OutOfFuel));
}

#[test]
fn interactive_state_persists_without_scope() {
    let mut state = State::default();
    let r1 = slang::run("let q = 5\n", &mut state, true, 100_000, &arith, &fprint, &fparse);
    assert!(r1.is_ok());
    let r2 = slang::run("print(q)\n", &mut state, true, 100_000, &arith, &fprint, &fparse);
    assert!(r2.is_ok());
    let out: Vec<String> = state
        .output
        .iter()
        .map(|l| l.iter().collect::<String>())
        .collect();
    assert_eq!(out, vec!["5".to_string()]);
}

#[test]
fn scoped_run_discards_declarations() {
    let mut state = State::default();
    let r1 = slang::run("let q = 5\n", &mut state, false, 100_000, &arith, &fprint, &fparse);
    assert!(r1.is_ok());
    let r2 = slang::run("print(q)\n", &mut state, false, 100_000, &arith, &fprint, &fparse);
    assert_eq!(r2, Err(Error::UndefinedVariable));
}

#[test]
fn run_returns_last_value() {
    let (_, r) = run_str("let x = 2\nx + 3\n");
    assert_eq!(r, Ok(Some(Atom::Int(5))));
}

#[test]
fn binding_powers() {
    assert_eq!(infix(&Op::Plus), (4, 5));
    assert_eq!(infix(&Op::Minus), (4, 5));
    assert_eq!(infix(&Op::Multiply), (6, 7));
    assert_eq!(infix(&Op::Divide), (6, 7));
    assert_eq!(infix(&Op::Mod), (2, 3));
    assert_eq!(infix(&Op::And), (1, 2));
    assert_eq!(infix(&Op::Or), (1, 2));
    assert_eq!(infix(&Op::Equal), (0, 1));
    assert_eq!(infix(&Op::Less), (0, 1));
    assert_eq!(infix(&Op::Access), (8, 9));
    assert_eq!(slang::parser::postfix_binding_power(&Op::Indexing), Some((9, ())));
    assert_eq!(slang::parser::postfix_binding_power(&Op::Plus), None);
    assert_eq!(slang::parser::prefix_binding_power(&Op::Minus), ((), 9));
    assert_eq!(slang::parser::prefix_binding_power(&Op::Negate), ((), 10));
}

fn infix(op: &Op) -> (u8, u8) {
    slang::parser::infix_binding_power(op)
}
