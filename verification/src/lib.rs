//! Core of a small dynamically typed scripting language: a scanner, a
//! precedence-climbing expression parser, a statement parser, and a
//! tree-walking evaluator over an explicit stack of lexical scopes, with
//! first-class functions, arrays and structured control flow.
//!
//! Floating-point values are carried as opaque IEEE-754 bit patterns
//! (`u64`).  The library never computes on those bits itself: every
//! float primitive (arithmetic, comparison, formatting, literal parsing)
//! is supplied by the caller as a closure hook (see [`FloatOp`] and the
//! `obeys_*` predicates).  All contracts are exact relative to any
//! functional model of those hooks: whenever the hooks behave as
//! mathematical functions, the result of every run is pinned down.
//!
//! Design decisions that the language fixes explicitly:
//! - functions use dynamic scoping: a body resolves free names against
//!   the caller's live scope stack, not a captured environment;
//! - a call with an argument count different from the callee's
//!   parameter count fails with `Error::ArityError`;
//! - a non-boolean `if`/`while` condition is treated as "not true"
//!   (the else branch runs, the loop stops);
//! - ordering comparisons are defined on numbers only.
#![verifier::loop_isolation(false)]
use vstd::prelude::*;

pub mod text;
pub mod token;
pub mod scanner;
pub mod parser;
pub mod atom;
pub mod statement;
pub mod block;
pub mod eval;
pub mod print;

use crate::atom::{Atom, AtomV};
use crate::parser::{parse_block_spec, Lexer};
use crate::scanner::{lex, scan_tokens};
use crate::statement::{State, StateV};
use crate::token::{Token, TokenType, TokenTypeV, TokenV, tokens_view};

verus! {

/// The errors a run can end with.  Every fallible function of the crate
/// says in its contract exactly on which inputs each variant comes.
#[derive(Clone, Copy, Debug, PartialEq, Eq, Structural)]
pub enum Error {
    /// A character no token starts with, an unterminated string, or a
    /// malformed number; the payload is the line it was found on.
    LexError(usize),
    /// A token that no parse rule accepts where it stands.
    ParseError,
    /// A name was read or reassigned but no scope binds it.
    UndefinedVariable,
    /// Operand variants an operation is not defined on, or a
    /// reassignment that would change the variant of a binding.
    TypeMismatch,
    /// An index past the end of an array.
    IndexOutOfBounds,
    /// A call to a name that is not bound to a function.
    UnknownFunction,
    /// A call whose argument count differs from the parameter count.
    ArityError,
    /// The step budget of the interpreter ran out.
    OutOfFuel,
}

/// The float primitives the interpreter asks its arithmetic hook for.
/// Operands and results are IEEE-754 double bit patterns, except:
/// `OfInt` takes the two's-complement bits of an `i64` in its first
/// argument; `Lt`, `Gt` and `Eq` return 1 for true and 0 for false;
/// `Neg` ignores its second argument.
#[derive(Clone, Copy, Debug, PartialEq, Eq, Structural)]
pub enum FloatOp {
    Add,
    Sub,
    Mul,
    Div,
    Rem,
    Neg,
    OfInt,
    Lt,
    Gt,
    Eq,
}

/// The arithmetic hook can be called on any operands.
pub open spec fn arith_callable<FA: Fn(FloatOp, u64, u64) -> u64>(g: FA) -> bool {
    forall|op: FloatOp, a: u64, b: u64| #[trigger] call_requires(g, (op, a, b))
}

/// The formatting hook can be called on any bit pattern.
pub open spec fn print_callable<FP: Fn(u64) -> Vec<char>>(g: FP) -> bool {
    forall|b: u64| #[trigger] call_requires(g, (b,))
}

/// The literal-parsing hook can be called on any text.
pub open spec fn parse_callable<FL: Fn(&Vec<char>) -> Option<u64>>(g: FL) -> bool {
    forall|s: &Vec<char>| #[trigger] call_requires(g, (s,))
}

/// The arithmetic hook implements the function `fa`.
pub open spec fn obeys_arith<FA: Fn(FloatOp, u64, u64) -> u64>(
    g: FA,
    fa: spec_fn(FloatOp, u64, u64) -> u64,
) -> bool {
    forall|op: FloatOp, a: u64, b: u64, r: u64|
        call_ensures(g, (op, a, b), r) ==> r == fa(op, a, b)
}

/// The formatting hook implements the function `fp`.
pub open spec fn obeys_print<FP: Fn(u64) -> Vec<char>>(
    g: FP,
    fp: spec_fn(u64) -> Seq<char>,
) -> bool {
    forall|b: u64, r: Vec<char>| call_ensures(g, (b,), r) ==> r@ == fp(b)
}

/// The literal-parsing hook implements the function `fl`.
pub open spec fn obeys_parse<FL: Fn(&Vec<char>) -> Option<u64>>(
    g: FL,
    fl: spec_fn(Seq<char>) -> Option<u64>,
) -> bool {
    forall|s: &Vec<char>, r: Option<u64>| call_ensures(g, (s,), r) ==> r == fl(s@)
}

/// The line of the first `Unknown` token, if any.
pub open spec fn first_unknown(toks: Seq<TokenV>, i: int) -> Option<nat>
    decreases toks.len() - i,
{
    if i < 0 || i >= toks.len() {
        Option::None
    } else if toks[i].ty is Unknown {
        Option::Some(toks[i].line)
    } else {
        first_unknown(toks, i + 1)
    }
}

/// The meaning of a whole run: scan; abort with `LexError` on any
/// unknown lexeme (before anything executes); parse the buffer as a
/// statement sequence, rejecting leftover input; then execute, in a
/// scope of its own or, for an interactive session (`unscoped`),
/// directly against the given state.  The result is the value of the
/// last statement executed, and the printed lines stand in the state.
pub open spec fn run_spec(
    fa: spec_fn(FloatOp, u64, u64) -> u64,
    fp: spec_fn(u64) -> Seq<char>,
    fl: spec_fn(Seq<char>) -> Option<u64>,
    code: Seq<char>,
    st: StateV,
    unscoped: bool,
    fuel: nat,
) -> (StateV, Result<Option<AtomV>, Error>) {
    let toks = lex(fl, code, 0);
    match first_unknown(toks, 0) {
        Option::Some(line) => (st, Result::Err(Error::LexError(line as usize))),
        Option::None => {
            match parse_block_spec(toks.reverse(), fuel) {
                Result::Err(e) => (st, Result::Err(e)),
                Result::Ok((b, rest)) => {
                    if rest.len() != 0 {
                        (st, Result::Err(Error::ParseError))
                    } else if unscoped {
                        crate::eval::exec_stmts_spec(fa, fp, b, 0, Option::None, st, fuel)
                    } else {
                        crate::eval::block_spec(fa, fp, b, st, fuel)
                    }
                },
            }
        },
    }
}

/// The line of the first `Unknown` token of `tokens`, if any.
fn find_unknown(tokens: &Vec<Token>, i: usize) -> (r: Option<usize>)
    requires
        i <= tokens@.len(),
    ensures
        ({
            let sp = first_unknown(tokens_view(tokens@), i as int);
            match r {
                Option::Some(line) => sp == Option::Some(line as nat),
                Option::None => sp is None,
            }
        }),
    decreases tokens@.len() - i,
{
    proof {
        crate::token::lemma_tokens_view_len(tokens@);
    }
    if i >= tokens.len() {
        return Option::None;
    }
    proof {
        crate::token::lemma_tokens_view_index(tokens@, i as int);
    }
    match tokens[i].ty {
        TokenType::Unknown => Option::Some(tokens[i].line),
        _ => find_unknown(tokens, i + 1),
    }
}

/// One whole run of a source buffer against `state`: see
/// [`run_spec`].  `fuel` bounds the steps of parsing and execution;
/// `fa`, `fp` and `fl` are the float hooks.
pub fn run<
    FA: Fn(FloatOp, u64, u64) -> u64,
    FP: Fn(u64) -> Vec<char>,
    FL: Fn(&Vec<char>) -> Option<u64>,
>(
    code: &str,
    state: &mut State,
    unscoped: bool,
    fuel: u64,
    fa: &FA,
    fp: &FP,
    fl: &FL,
) -> (r: Result<Option<Atom>, Error>)
    requires
        arith_callable(*fa),
        print_callable(*fp),
        parse_callable(*fl),
    ensures
        forall|
            faa: spec_fn(FloatOp, u64, u64) -> u64,
            fpp: spec_fn(u64) -> Seq<char>,
            flp: spec_fn(Seq<char>) -> Option<u64>,
        |
            #![trigger obeys_arith(*fa, faa), obeys_print(*fp, fpp), obeys_parse(*fl, flp)]
            obeys_arith(*fa, faa) && obeys_print(*fp, fpp) && obeys_parse(*fl, flp)
                ==> crate::eval::st_ok(
                run_spec(faa, fpp, flp, code@, old(state)@, unscoped, fuel as nat),
                final(state)@,
                r,
            ),
{
    let tokens = scan_tokens(code, fl);
    match find_unknown(&tokens, 0) {
        Option::Some(line) => {
            return Result::Err(Error::LexError(line));
        },
        Option::None => {},
    }
    let mut lexer = Lexer::new(tokens);
    let main_block = match crate::parser::parse_block(&mut lexer, fuel) {
        Result::Err(e) => {
            return Result::Err(e);
        },
        Result::Ok(b) => b,
    };
    if !lexer.is_empty() {
        return Result::Err(Error::ParseError);
    }
    if unscoped {
        main_block.execute_unscoped(state, fuel, fa, fp)
    } else {
        main_block.execute(state, fuel, fa, fp)
    }
}

/// Printing a parsed tree and parsing the text again.  The general
/// round trip cannot hold of this printer and parser pair: the
/// printer emits fully parenthesized prefix form, which the infix
/// parser rejects (already `(+ 1 2)`, the print of `1 + 2`, fails to
/// parse).  For a non-negative integer literal the two forms
/// coincide, and there the round trip is exact: scanning and parsing
/// the printed text yields the same tree, with no input left.
pub proof fn lemma_int_literal_round_trip(
    fp: spec_fn(u64) -> Seq<char>,
    fl: spec_fn(Seq<char>) -> Option<u64>,
    n: i64,
    fuel: nat,
)
    requires
        0 <= n,
        fuel >= 2,
    ensures
        ({
            let text = crate::print::s_str(fp, crate::parser::SV::Atom(AtomV::Int(n)));
            crate::parser::expr_bp_spec(lex(fl, text, 0).reverse(), 0u8, fuel) == Result::Ok::<
                (crate::parser::SV, Seq<TokenV>),
                Error,
            >((crate::parser::SV::Atom(AtomV::Int(n)), Seq::empty()))
        }),
{
    let text = crate::print::s_str(fp, crate::parser::SV::Atom(AtomV::Int(n)));
    assert(text == crate::text::int_chars(n as int));
    crate::text::lemma_nat_digits_val(n as nat);
    assert(text == crate::text::nat_digits(n as nat));
    assert(crate::text::all_digits(text));
    assert(text.len() >= 1);
    assert(crate::text::is_digit(text[0]));
    crate::scanner::lemma_span_end(text, 0, crate::scanner::num_pred());
    let j = crate::scanner::span_end(text, 0, crate::scanner::num_pred());
    assert forall|k: int| 0 <= k < text.len() implies crate::scanner::num_pred()(
        #[trigger] text[k],
    ) by {
        assert(crate::text::is_digit(text[k]));
    }
    assert(j == text.len() as int) by {
        if j < text.len() {
            assert(crate::scanner::num_pred()(text[j]));
        }
    }
    let w = text.subrange(0, j);
    assert(w =~= text);
    assert(!(exists|k: int| 0 <= k < w.len() && w[k] == '.')) by {
        if exists|k: int| 0 <= k < w.len() && w[k] == '.' {
            let k = choose|k: int| 0 <= k < w.len() && w[k] == '.';
            assert(crate::text::is_digit(w[k]));
        }
    }
    assert(crate::text::digits_val(w) == n);
    assert(crate::scanner::num_token_ty(fl, w) == TokenTypeV::Literal(AtomV::Int(n)));
    let rest = crate::scanner::spec_tail(text, j);
    assert(rest =~= Seq::<char>::empty());
    assert(lex(fl, rest, 0) =~= Seq::<TokenV>::empty());
    let tok = crate::scanner::tokv(TokenTypeV::Literal(AtomV::Int(n)), w, 0);
    assert(lex(fl, text, 0) =~= seq![tok]);
    let toks = lex(fl, text, 0).reverse();
    assert(toks =~= seq![tok]);
    assert(crate::parser::nextv(toks) == tok);
    assert(crate::parser::restv(toks) =~= Seq::<TokenV>::empty());
    let after = crate::parser::restv(toks);
    assert(crate::parser::nextv(after).ty is EOF);
    assert(crate::parser::is_terminator(crate::parser::nextv(after).ty));
    assert(crate::parser::expr_loop_spec(
        crate::parser::SV::Atom(AtomV::Int(n)),
        after,
        0u8,
        (fuel - 1) as nat,
    ) == Result::Ok::<(crate::parser::SV, Seq<TokenV>), Error>(
        (crate::parser::SV::Atom(AtomV::Int(n)), after),
    ));
}

} // verus!
