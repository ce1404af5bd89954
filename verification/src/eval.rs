//! The evaluator and the statement executor.
//!
//! Both are defined twice: as recursive specification functions over
//! the model types, and as executable code proved equal to them.  A
//! step budget (`fuel`) bounds every recursion; each recursive call
//! costs one unit, and a run that exhausts the budget ends with
//! `Error::OutOfFuel` in both worlds.
use vstd::prelude::*;

use crate::atom::{Atom, AtomV, atom_add, atom_and, atom_div, atom_gt, atom_index, atom_lt,
    atom_modulus, atom_mul, atom_negate, atom_or, atom_sub, atom_view, atoms_view, clone_atom,
    lemma_atoms_view_index, lemma_atoms_view_len, same_variant, value_eq, value_eq_v, FunctionCallV};
use crate::parser::{s_view, ss_view, lemma_ss_view_index, lemma_ss_view_len, Op, S, SV};
use crate::print::{atom_str, atom_to_chars};
use crate::statement::{bind_innermost, decl_view, lookup, scope_view, set_existing_down,
    stmt_view, stmts_view, Declaration, DeclarationV, ScopeV, State, StateV, Stmt, StmtV};
use crate::{arith_callable, obeys_arith, obeys_print, print_callable, Error, FloatOp};

pub mod function;

verus! {

/// The result a statement produces: a value, or none (as `print` and
/// `while`), or the `Break` signal as `Some(AtomV::Break)`.
pub type StmtOut = (StateV, Result<Option<AtomV>, Error>);

/// The result an expression produces.
pub type EvalOut = (StateV, Result<AtomV, Error>);

/// An infix operator applied to two evaluated operands.
pub open spec fn apply_binop(
    fa: spec_fn(FloatOp, u64, u64) -> u64,
    fp: spec_fn(u64) -> Seq<char>,
    op: Op,
    va: AtomV,
    vb: AtomV,
) -> Result<AtomV, Error> {
    match op {
        Op::Plus => atom_add(fa, fp, va, vb),
        Op::Minus => atom_sub(fa, va, vb),
        Op::Multiply => atom_mul(fa, va, vb),
        Op::Divide => atom_div(fa, va, vb),
        Op::Mod => atom_modulus(fa, va, vb),
        Op::Equal => Result::Ok(AtomV::Bool(value_eq_v(fa, va, vb))),
        Op::NotEqual => Result::Ok(AtomV::Bool(!value_eq_v(fa, va, vb))),
        Op::Less => atom_lt(fa, va, vb),
        Op::Greater => atom_gt(fa, va, vb),
        Op::And => atom_and(va, vb),
        Op::Or => atom_or(va, vb),
        Op::Indexing => atom_index(va, vb),
        _ => Result::Err(Error::TypeMismatch),
    }
}

/// The meaning of an expression: the state after evaluating it and
/// its value or error.  Identifiers resolve against the live scope
/// stack, innermost first.
pub open spec fn eval_spec(
    fa: spec_fn(FloatOp, u64, u64) -> u64,
    fp: spec_fn(u64) -> Seq<char>,
    e: SV,
    st: StateV,
    fuel: nat,
) -> EvalOut
    decreases fuel,
{
    if fuel == 0 {
        (st, Result::Err(Error::OutOfFuel))
    } else {
        let f2 = (fuel - 1) as nat;
        match e {
            SV::Atom(a) => (st, Result::Ok(a)),
            SV::Identifier(n) => match lookup(st.scopes, n) {
                Option::Some(v) => (st, Result::Ok(v)),
                Option::None => (st, Result::Err(Error::UndefinedVariable)),
            },
            SV::FnCall(fc) => call_spec(fa, fp, fc, st, f2),
            SV::ArrayLit(es) => {
                let (st2, r) = eval_list_spec(fa, fp, es, 0, st, f2);
                match r {
                    Result::Ok(vs) => (st2, Result::Ok(AtomV::Array(vs))),
                    Result::Err(e2) => (st2, Result::Err(e2)),
                }
            },
            SV::Unary(op, x) => {
                match op {
                    Op::Minus => {
                        let (st2, r) = eval_spec(fa, fp, *x, st, f2);
                        match r {
                            Result::Ok(v) => (st2, atom_negate(fa, v)),
                            Result::Err(e2) => (st2, Result::Err(e2)),
                        }
                    },
                    Op::Negate => {
                        let (st2, r) = eval_spec(fa, fp, *x, st, f2);
                        match r {
                            Result::Ok(v) => (st2, crate::atom::atom_not(v)),
                            Result::Err(e2) => (st2, Result::Err(e2)),
                        }
                    },
                    _ => (st, Result::Err(Error::TypeMismatch)),
                }
            },
            SV::Binary(op, x, y) => eval_binary_spec(fa, fp, op, *x, *y, st, f2),
        }
    }
}

/// Both operands evaluated left to right, then the operator applied.
/// Neither `&&` nor `||` short-circuits.
pub open spec fn eval_binary_spec(
    fa: spec_fn(FloatOp, u64, u64) -> u64,
    fp: spec_fn(u64) -> Seq<char>,
    op: Op,
    xe: SV,
    ye: SV,
    st: StateV,
    fuel: nat,
) -> EvalOut
    decreases fuel,
{
    if fuel == 0 {
        (st, Result::Err(Error::OutOfFuel))
    } else {
        let (st2, rx) = eval_spec(fa, fp, xe, st, (fuel - 1) as nat);
        match rx {
            Result::Err(e) => (st2, Result::Err(e)),
            Result::Ok(va) => {
                let (st3, ry) = eval_spec(fa, fp, ye, st2, (fuel - 1) as nat);
                match ry {
                    Result::Err(e) => (st3, Result::Err(e)),
                    Result::Ok(vb) => (st3, apply_binop(fa, fp, op, va, vb)),
                }
            },
        }
    }
}

/// The elements from position `i` on, evaluated eagerly in order.
pub open spec fn eval_list_spec(
    fa: spec_fn(FloatOp, u64, u64) -> u64,
    fp: spec_fn(u64) -> Seq<char>,
    es: Seq<SV>,
    i: int,
    st: StateV,
    fuel: nat,
) -> (StateV, Result<Seq<AtomV>, Error>)
    decreases fuel,
{
    if fuel == 0 {
        (st, Result::Err(Error::OutOfFuel))
    } else if i < 0 || i >= es.len() {
        (st, Result::Ok(Seq::empty()))
    } else {
        let (st2, r) = eval_spec(fa, fp, es[i], st, (fuel - 1) as nat);
        match r {
            Result::Err(e) => (st2, Result::Err(e)),
            Result::Ok(v) => {
                let (st3, rr) = eval_list_spec(fa, fp, es, i + 1, st2, (fuel - 1) as nat);
                match rr {
                    Result::Err(e) => (st3, Result::Err(e)),
                    Result::Ok(rest) => (st3, Result::Ok(seq![v] + rest)),
                }
            },
        }
    }
}

/// One fresh-binding declaration per parameter, binding it to the
/// still unevaluated argument expression.
pub open spec fn param_decls(names: Seq<Seq<char>>, args: Seq<SV>, i: int) -> Seq<StmtV>
    decreases names.len() - i,
{
    if i < 0 || i >= names.len() {
        Seq::empty()
    } else {
        seq![
            StmtV::Dec(
                DeclarationV {
                    lhs: names[i],
                    rhs: args[i],
                    alias: true,
                    plus_or_minus: Option::None,
                },
            ),
        ] + param_decls(names, args, i + 1)
    }
}

/// The name of the `push` built-in.
pub open spec fn push_name() -> Seq<char> {
    seq!['p', 'u', 's', 'h']
}

/// The name of the `len` built-in.
pub open spec fn len_name() -> Seq<char> {
    seq!['l', 'e', 'n']
}

/// The `push(arrayName, expr)` built-in: the value of `expr` appended
/// to a copy of the array, the name rebound to the copy, the value
/// returned.
pub open spec fn push_spec(
    fa: spec_fn(FloatOp, u64, u64) -> u64,
    fp: spec_fn(u64) -> Seq<char>,
    args: Seq<SV>,
    st: StateV,
    fuel: nat,
) -> EvalOut
    decreases fuel,
{
    if fuel == 0 {
        (st, Result::Err(Error::OutOfFuel))
    } else if args.len() != 2 {
        (st, Result::Err(Error::ArityError))
    } else {
        match args[0] {
            SV::Identifier(n) => {
                let (st2, r) = eval_spec(fa, fp, args[1], st, (fuel - 1) as nat);
                match r {
                    Result::Err(e) => (st2, Result::Err(e)),
                    Result::Ok(v) => match lookup(st2.scopes, n) {
                        Option::Some(AtomV::Array(a)) => (
                            StateV {
                                scopes: set_existing_down(
                                    st2.scopes,
                                    n,
                                    AtomV::Array(a.push(v)),
                                    st2.scopes.len() as int,
                                ),
                                out: st2.out,
                            },
                            Result::Ok(v),
                        ),
                        Option::Some(_) => (st2, Result::Err(Error::TypeMismatch)),
                        Option::None => (st2, Result::Err(Error::UndefinedVariable)),
                    },
                }
            },
            _ => (st, Result::Err(Error::TypeMismatch)),
        }
    }
}

/// The `len(arrayName)` built-in: the element count of the array.
pub open spec fn len_spec(args: Seq<SV>, st: StateV) -> EvalOut {
    if args.len() != 1 {
        (st, Result::Err(Error::ArityError))
    } else {
        match args[0] {
            SV::Identifier(n) => match lookup(st.scopes, n) {
                Option::Some(AtomV::Array(a)) => {
                    if a.len() <= i64::MAX {
                        (st, Result::Ok(AtomV::Int(a.len() as i64)))
                    } else {
                        (st, Result::Err(Error::TypeMismatch))
                    }
                },
                Option::Some(_) => (st, Result::Err(Error::TypeMismatch)),
                Option::None => (st, Result::Err(Error::UndefinedVariable)),
            },
            _ => (st, Result::Err(Error::TypeMismatch)),
        }
    }
}

/// A call: the `push` and `len` built-ins are intercepted first;
/// otherwise the name must resolve to a function value with exactly
/// as many parameters as there are arguments.  The body runs as a
/// transient block against the caller's live scope stack (dynamic
/// scoping, no closure environment), with the parameters freshly
/// bound to the unevaluated argument expressions.  A call whose body
/// produces no value is a `TypeMismatch`.
pub open spec fn call_spec(
    fa: spec_fn(FloatOp, u64, u64) -> u64,
    fp: spec_fn(u64) -> Seq<char>,
    fc: FunctionCallV,
    st: StateV,
    fuel: nat,
) -> EvalOut
    decreases fuel,
{
    if fuel == 0 {
        (st, Result::Err(Error::OutOfFuel))
    } else if fc.name == push_name() {
        push_spec(fa, fp, fc.args, st, (fuel - 1) as nat)
    } else if fc.name == len_name() {
        len_spec(fc.args, st)
    } else {
        match lookup(st.scopes, fc.name) {
            Option::Some(AtomV::Function(fd)) => {
                if fc.args.len() != fd.arg_names.len() {
                    (st, Result::Err(Error::ArityError))
                } else {
                    let stmts = param_decls(fd.arg_names, fc.args, 0) + fd.fn_block;
                    let (st2, r) = block_spec(fa, fp, stmts, st, (fuel - 1) as nat);
                    match r {
                        Result::Ok(Option::Some(v)) => (st2, Result::Ok(v)),
                        Result::Ok(Option::None) => (st2, Result::Err(Error::TypeMismatch)),
                        Result::Err(e) => (st2, Result::Err(e)),
                    }
                }
            },
            _ => (st, Result::Err(Error::UnknownFunction)),
        }
    }
}

/// A declaration.  A fresh binding (`alias`) goes to the innermost
/// scope unconditionally, with no type check.  A reassignment needs
/// an existing binding (else `UndefinedVariable`); a compound
/// reassignment first combines old and new with `+`/`-`; and the
/// stored value must keep the variant of the existing one, else the
/// operation fails with `TypeMismatch` and changes nothing.
pub open spec fn declare_spec(
    fa: spec_fn(FloatOp, u64, u64) -> u64,
    fp: spec_fn(u64) -> Seq<char>,
    d: DeclarationV,
    st: StateV,
    fuel: nat,
) -> StmtOut
    decreases fuel,
{
    if fuel == 0 {
        (st, Result::Err(Error::OutOfFuel))
    } else {
        let (st2, r) = eval_spec(fa, fp, d.rhs, st, (fuel - 1) as nat);
        match r {
            Result::Err(e) => (st2, Result::Err(e)),
            Result::Ok(v) => {
                if d.alias {
                    (
                        StateV { scopes: bind_innermost(st2.scopes, d.lhs, v), out: st2.out },
                        Result::Ok(Option::None),
                    )
                } else {
                    match lookup(st2.scopes, d.lhs) {
                        Option::None => (st2, Result::Err(Error::UndefinedVariable)),
                        Option::Some(oldv) => {
                            let combined: Result<AtomV, Error> = match d.plus_or_minus {
                                Option::Some(true) => atom_add(fa, fp, oldv, v),
                                Option::Some(false) => atom_sub(fa, oldv, v),
                                Option::None => Result::Ok(v),
                            };
                            match combined {
                                Result::Err(e) => (st2, Result::Err(e)),
                                Result::Ok(v2) => {
                                    if same_variant(v2, oldv) {
                                        (
                                            StateV {
                                                scopes: set_existing_down(
                                                    st2.scopes,
                                                    d.lhs,
                                                    v2,
                                                    st2.scopes.len() as int,
                                                ),
                                                out: st2.out,
                                            },
                                            Result::Ok(Option::None),
                                        )
                                    } else {
                                        (st2, Result::Err(Error::TypeMismatch))
                                    }
                                },
                            }
                        },
                    }
                }
            },
        }
    }
}

/// One statement.  `print` appends the value's textual form to the
/// output; `if` runs the then-block exactly when the condition is
/// `Bool(true)` (any other value takes the else branch); `break`
/// produces the `Break` signal as its value.
pub open spec fn exec_stmt_spec(
    fa: spec_fn(FloatOp, u64, u64) -> u64,
    fp: spec_fn(u64) -> Seq<char>,
    s: StmtV,
    st: StateV,
    fuel: nat,
) -> StmtOut
    decreases fuel,
{
    if fuel == 0 {
        (st, Result::Err(Error::OutOfFuel))
    } else {
        let f2 = (fuel - 1) as nat;
        match s {
            StmtV::ExprStmt(e) => {
                let (st2, r) = eval_spec(fa, fp, e, st, f2);
                match r {
                    Result::Ok(v) => (st2, Result::Ok(Option::Some(v))),
                    Result::Err(e2) => (st2, Result::Err(e2)),
                }
            },
            StmtV::PrintStmt(e) => {
                let (st2, r) = eval_spec(fa, fp, e, st, f2);
                match r {
                    Result::Ok(v) => (
                        StateV { scopes: st2.scopes, out: st2.out.push(atom_str(fp, v)) },
                        Result::Ok(Option::None),
                    ),
                    Result::Err(e2) => (st2, Result::Err(e2)),
                }
            },
            StmtV::Dec(d) => declare_spec(fa, fp, d, st, f2),
            StmtV::IfStmt(c, tb, eb) => {
                let (st2, r) = eval_spec(fa, fp, c, st, f2);
                match r {
                    Result::Err(e2) => (st2, Result::Err(e2)),
                    Result::Ok(v) => {
                        if v == AtomV::Bool(true) {
                            block_spec(fa, fp, tb, st2, f2)
                        } else {
                            block_spec(fa, fp, eb, st2, f2)
                        }
                    },
                }
            },
            StmtV::WhileStmt(c, b) => while_spec(fa, fp, c, b, st, f2),
            StmtV::Block(b) => block_spec(fa, fp, b, st, f2),
            StmtV::Break => (st, Result::Ok(Option::Some(AtomV::Break))),
        }
    }
}

/// A `while` loop: the condition is re-evaluated before every
/// iteration and the body runs while it is `Bool(true)`.  A `Break`
/// signal from the body stops the loop and is consumed.  The loop
/// itself never produces a value.
pub open spec fn while_spec(
    fa: spec_fn(FloatOp, u64, u64) -> u64,
    fp: spec_fn(u64) -> Seq<char>,
    c: SV,
    b: Seq<StmtV>,
    st: StateV,
    fuel: nat,
) -> StmtOut
    decreases fuel,
{
    if fuel == 0 {
        (st, Result::Err(Error::OutOfFuel))
    } else {
        let (st2, r) = eval_spec(fa, fp, c, st, (fuel - 1) as nat);
        match r {
            Result::Err(e) => (st2, Result::Err(e)),
            Result::Ok(v) => {
                if !(v == AtomV::Bool(true)) {
                    (st2, Result::Ok(Option::None))
                } else {
                    let (st3, rb) = block_spec(fa, fp, b, st2, (fuel - 1) as nat);
                    match rb {
                        Result::Err(e) => (st3, Result::Err(e)),
                        Result::Ok(Option::Some(AtomV::Break)) => (st3, Result::Ok(Option::None)),
                        Result::Ok(_) => while_spec(fa, fp, c, b, st3, (fuel - 1) as nat),
                    }
                }
            },
        }
    }
}

/// The state with one fresh scope opened.
pub open spec fn push_scope(st: StateV) -> StateV {
    StateV { scopes: st.scopes.push(Seq::empty()), out: st.out }
}

/// The state with the innermost scope destroyed.
pub open spec fn pop_scope(st: StateV) -> StateV {
    if st.scopes.len() > 0 {
        StateV { scopes: st.scopes.drop_last(), out: st.out }
    } else {
        st
    }
}

/// A block: a fresh scope is opened, the statements run in order,
/// and the scope is destroyed on every exit path, early `break` and
/// errors included.  The result is the value of the last statement
/// actually executed.
pub open spec fn block_spec(
    fa: spec_fn(FloatOp, u64, u64) -> u64,
    fp: spec_fn(u64) -> Seq<char>,
    b: Seq<StmtV>,
    st: StateV,
    fuel: nat,
) -> StmtOut
    decreases fuel,
{
    if fuel == 0 {
        (st, Result::Err(Error::OutOfFuel))
    } else {
        let (st2, r) = exec_stmts_spec(fa, fp, b, 0, Option::None, push_scope(st), (fuel - 1) as nat);
        (pop_scope(st2), r)
    }
}

/// The statements from position `i` on, threading the value of the
/// last statement executed; a `Break` value stops the run at once.
pub open spec fn exec_stmts_spec(
    fa: spec_fn(FloatOp, u64, u64) -> u64,
    fp: spec_fn(u64) -> Seq<char>,
    ss: Seq<StmtV>,
    i: int,
    last: Option<AtomV>,
    st: StateV,
    fuel: nat,
) -> StmtOut
    decreases fuel,
{
    if fuel == 0 {
        (st, Result::Err(Error::OutOfFuel))
    } else if i < 0 || i >= ss.len() {
        (st, Result::Ok(last))
    } else {
        let (st2, r) = exec_stmt_spec(fa, fp, ss[i], st, (fuel - 1) as nat);
        match r {
            Result::Err(e) => (st2, Result::Err(e)),
            Result::Ok(v) => {
                if v == Option::Some(AtomV::Break) {
                    (st2, Result::Ok(v))
                } else {
                    exec_stmts_spec(fa, fp, ss, i + 1, v, st2, (fuel - 1) as nat)
                }
            },
        }
    }
}

/// The view of an optional value.
pub open spec fn opt_atom_view(o: Option<Atom>) -> Option<AtomV> {
    match o {
        Option::Some(v) => Option::Some(atom_view(v)),
        Option::None => Option::None,
    }
}

/// The exec outcome `(stf, r)` is what the spec outcome `sp` says.
pub open spec fn ev_ok(sp: EvalOut, stf: StateV, r: Result<Atom, Error>) -> bool {
    sp.0 == stf && (match r {
        Result::Ok(v) => sp.1 == Result::Ok::<AtomV, Error>(atom_view(v)),
        Result::Err(e) => sp.1 == Result::Err::<AtomV, Error>(e),
    })
}

/// The exec outcome `(stf, r)` is what the spec outcome `sp` says.
pub open spec fn st_ok(sp: StmtOut, stf: StateV, r: Result<Option<Atom>, Error>) -> bool {
    sp.0 == stf && (match r {
        Result::Ok(v) => sp.1 == Result::Ok::<Option<AtomV>, Error>(opt_atom_view(v)),
        Result::Err(e) => sp.1 == Result::Err::<Option<AtomV>, Error>(e),
    })
}

/// An infix operator applied to two evaluated operands.
fn apply_binop_x<FA: Fn(FloatOp, u64, u64) -> u64, FP: Fn(u64) -> Vec<char>>(
    op: Op,
    va: &Atom,
    vb: &Atom,
    fa: &FA,
    fp: &FP,
) -> (r: Result<Atom, Error>)
    requires
        arith_callable(*fa),
        print_callable(*fp),
    ensures
        forall|faa: spec_fn(FloatOp, u64, u64) -> u64, fpp: spec_fn(u64) -> Seq<char>|
            #![trigger obeys_arith(*fa, faa), obeys_print(*fp, fpp)]
            obeys_arith(*fa, faa) && obeys_print(*fp, fpp) ==> (match r {
                Result::Ok(v) => apply_binop(faa, fpp, op, va@, vb@) == Result::Ok::<AtomV, Error>(
                    atom_view(v),
                ),
                Result::Err(e) => apply_binop(faa, fpp, op, va@, vb@) == Result::Err::<
                    AtomV,
                    Error,
                >(e),
            }),
{
    match op {
        Op::Plus => va.add(vb, fa, fp),
        Op::Minus => va.sub(vb, fa),
        Op::Multiply => va.mul(vb, fa),
        Op::Divide => va.div(vb, fa),
        Op::Mod => va.modulus(vb, fa),
        Op::Equal => Result::Ok(Atom::Bool(value_eq(va, vb, fa))),
        Op::NotEqual => Result::Ok(Atom::Bool(!value_eq(va, vb, fa))),
        Op::Less => va.lt(vb, fa),
        Op::Greater => va.gt(vb, fa),
        Op::And => va.and(vb),
        Op::Or => va.or(vb),
        Op::Indexing => va.index(vb),
        _ => Result::Err(Error::TypeMismatch),
    }
}

/// The value of an expression against the live state: see
/// [`eval_spec`].
pub fn eval_expr<FA: Fn(FloatOp, u64, u64) -> u64, FP: Fn(u64) -> Vec<char>>(
    expr: &S,
    state: &mut State,
    fuel: u64,
    fa: &FA,
    fp: &FP,
) -> (r: Result<Atom, Error>)
    requires
        arith_callable(*fa),
        print_callable(*fp),
    ensures
        forall|faa: spec_fn(FloatOp, u64, u64) -> u64, fpp: spec_fn(u64) -> Seq<char>|
            #![trigger obeys_arith(*fa, faa), obeys_print(*fp, fpp)]
            obeys_arith(*fa, faa) && obeys_print(*fp, fpp) ==> ev_ok(
                eval_spec(faa, fpp, s_view(*expr), old(state)@, fuel as nat),
                final(state)@,
                r,
            ),
    decreases fuel,
{
    if fuel == 0 {
        return Result::Err(Error::OutOfFuel);
    }
    match expr {
        S::Atom(a) => {
            proof {
                assert(s_view(*expr) == SV::Atom(atom_view(*a)));
            }
            return Result::Ok(clone_atom(a));
        },
        S::Identifier(n) => {
            proof {
                assert(s_view(*expr) == SV::Identifier(n@));
            }
            match state.get_variable(n) {
                Option::Some(v) => {
                    return Result::Ok(v);
                },
                Option::None => {
                    return Result::Err(Error::UndefinedVariable);
                },
            }
        },
        S::FnCall(fc) => {
            proof {
                assert(s_view(*expr) == SV::FnCall(crate::atom::fncall_view(*fc)));
            }
            return crate::eval::function::eval_function_call(fc, state, fuel - 1, fa, fp);
        },
        S::ArrayLit(es) => {
            proof {
                assert(s_view(*expr) == SV::ArrayLit(ss_view(es@)));
            }
            match eval_list(es, 0, state, fuel - 1, fa, fp) {
                Result::Ok(vs) => {
                    let ghost vs_v = atoms_view(vs@);
                    let out = Atom::Array(vs);
                    proof {
                        assert(atom_view(out) == AtomV::Array(vs_v));
                    }
                    return Result::Ok(out);
                },
                Result::Err(e) => {
                    return Result::Err(e);
                },
            }
        },
        S::Unary(op, x) => {
            proof {
                assert(s_view(*expr) == SV::Unary(*op, Box::new(s_view(**x))));
            }
            match op {
                Op::Minus => {
                    match eval_expr(x, state, fuel - 1, fa, fp) {
                        Result::Ok(v) => {
                            return v.negate(fa);
                        },
                        Result::Err(e) => {
                            return Result::Err(e);
                        },
                    }
                },
                Op::Negate => {
                    match eval_expr(x, state, fuel - 1, fa, fp) {
                        Result::Ok(v) => {
                            return v.bool_not();
                        },
                        Result::Err(e) => {
                            return Result::Err(e);
                        },
                    }
                },
                _ => {
                    return Result::Err(Error::TypeMismatch);
                },
            }
        },
        S::Binary(op, x, y) => {
            proof {
                assert(s_view(*expr) == SV::Binary(
                    *op,
                    Box::new(s_view(**x)),
                    Box::new(s_view(**y)),
                ));
            }
            return eval_binary(*op, x, y, state, fuel - 1, fa, fp);
        },
    }
}

/// Both operands evaluated left to right, then the operator applied.
fn eval_binary<FA: Fn(FloatOp, u64, u64) -> u64, FP: Fn(u64) -> Vec<char>>(
    op: Op,
    xe: &S,
    ye: &S,
    state: &mut State,
    fuel: u64,
    fa: &FA,
    fp: &FP,
) -> (r: Result<Atom, Error>)
    requires
        arith_callable(*fa),
        print_callable(*fp),
    ensures
        forall|faa: spec_fn(FloatOp, u64, u64) -> u64, fpp: spec_fn(u64) -> Seq<char>|
            #![trigger obeys_arith(*fa, faa), obeys_print(*fp, fpp)]
            obeys_arith(*fa, faa) && obeys_print(*fp, fpp) ==> ev_ok(
                eval_binary_spec(faa, fpp, op, s_view(*xe), s_view(*ye), old(state)@, fuel as nat),
                final(state)@,
                r,
            ),
    decreases fuel,
{
    if fuel == 0 {
        return Result::Err(Error::OutOfFuel);
    }
    match eval_expr(xe, state, fuel - 1, fa, fp) {
        Result::Err(e) => {
            return Result::Err(e);
        },
        Result::Ok(va) => {
            match eval_expr(ye, state, fuel - 1, fa, fp) {
                Result::Err(e) => {
                    return Result::Err(e);
                },
                Result::Ok(vb) => {
                    return apply_binop_x(op, &va, &vb, fa, fp);
                },
            }
        },
    }
}

/// The elements from position `i` on, evaluated eagerly in order.
fn eval_list<FA: Fn(FloatOp, u64, u64) -> u64, FP: Fn(u64) -> Vec<char>>(
    es: &Vec<S>,
    i: usize,
    state: &mut State,
    fuel: u64,
    fa: &FA,
    fp: &FP,
) -> (r: Result<Vec<Atom>, Error>)
    requires
        arith_callable(*fa),
        print_callable(*fp),
        i <= es@.len(),
    ensures
        ({
            forall|faa: spec_fn(FloatOp, u64, u64) -> u64, fpp: spec_fn(u64) -> Seq<char>|
                #![trigger obeys_arith(*fa, faa), obeys_print(*fp, fpp)]
                obeys_arith(*fa, faa) && obeys_print(*fp, fpp) ==> {
                    let sp = eval_list_spec(faa, fpp, ss_view(es@), i as int, old(state)@, fuel as nat);
                    sp.0 == final(state)@ && (match r {
                        Result::Ok(vs) => sp.1 == Result::Ok::<Seq<AtomV>, Error>(atoms_view(vs@)),
                        Result::Err(e) => sp.1 == Result::Err::<Seq<AtomV>, Error>(e),
                    })
                }
        }),
    decreases fuel,
{
    proof {
        lemma_ss_view_len(es@);
    }
    if fuel == 0 {
        return Result::Err(Error::OutOfFuel);
    }
    if i >= es.len() {
        let vs: Vec<Atom> = Vec::new();
        proof {
            assert(atoms_view(vs@) =~= Seq::<AtomV>::empty());
        }
        return Result::Ok(vs);
    }
    proof {
        lemma_ss_view_index(es@, i as int);
    }
    match eval_expr(&es[i], state, fuel - 1, fa, fp) {
        Result::Err(e) => Result::Err(e),
        Result::Ok(v) => {
            match eval_list(es, i + 1, state, fuel - 1, fa, fp) {
                Result::Err(e) => Result::Err(e),
                Result::Ok(rest) => {
                    let ghost v_v = atom_view(v);
                    let ghost rest_v = atoms_view(rest@);
                    let mut out: Vec<Atom> = Vec::new();
                    out.push(v);
                    let mut k: usize = 0;
                    while k < rest.len()
                        invariant
                            k <= rest@.len(),
                            out@.len() == k + 1,
                            atom_view(out@[0]) == v_v,
                            forall|j: int| 0 <= j < k ==> atom_view(#[trigger] out@[j + 1])
                                == atom_view(rest@[j]),
                        decreases rest@.len() - k,
                    {
                        proof {
                            assert(decreases_to!(rest => rest@[k as int]));
                        }
                        let c = clone_atom(&rest[k]);
                        out.push(c);
                        k = k + 1;
                    }
                    proof {
                        lemma_atoms_view_len(out@);
                        lemma_atoms_view_len(rest@);
                        assert forall|j: int| 0 <= j < out@.len() implies atoms_view(out@)[j]
                            == (seq![v_v] + rest_v)[j] by {
                            lemma_atoms_view_index(out@, j);
                            if j > 0 {
                                lemma_atoms_view_index(rest@, j - 1);
                                assert(out@[j] == out@[(j - 1) + 1]);
                            }
                        }
                        assert(atoms_view(out@) =~= seq![v_v] + rest_v);
                    }
                    Result::Ok(out)
                },
            }
        },
    }
}

impl State {
    /// Run a declaration against this state: see [`declare_spec`].
    pub fn declare<FA: Fn(FloatOp, u64, u64) -> u64, FP: Fn(u64) -> Vec<char>>(
        &mut self,
        d: &Declaration,
        fuel: u64,
        fa: &FA,
        fp: &FP,
    ) -> (r: Result<Option<Atom>, Error>)
        requires
            arith_callable(*fa),
            print_callable(*fp),
        ensures
            forall|faa: spec_fn(FloatOp, u64, u64) -> u64, fpp: spec_fn(u64) -> Seq<char>|
                #![trigger obeys_arith(*fa, faa), obeys_print(*fp, fpp)]
                obeys_arith(*fa, faa) && obeys_print(*fp, fpp) ==> st_ok(
                    declare_spec(faa, fpp, decl_view(*d), old(self)@, fuel as nat),
                    final(self)@,
                    r,
                ),
        decreases fuel,
    {
        if fuel == 0 {
            return Result::Err(Error::OutOfFuel);
        }
        let v = match eval_expr(&d.rhs, self, fuel - 1, fa, fp) {
            Result::Err(e) => {
                return Result::Err(e);
            },
            Result::Ok(v) => v,
        };
        if d.alias {
            let name = crate::text::clone_chars(&d.lhs);
            let ghost v_v = atom_view(v);
            let ghost pre = self@;
            self.bind(name, v);
            proof {
                assert(self@ =~= StateV {
                    scopes: bind_innermost(pre.scopes, d.lhs@, v_v),
                    out: pre.out,
                });
            }
            return Result::Ok(Option::None);
        }
        let oldv = match self.get_variable(&d.lhs) {
            Option::None => {
                return Result::Err(Error::UndefinedVariable);
            },
            Option::Some(o) => o,
        };
        let combined = match d.plus_or_minus {
            Option::Some(true) => oldv.add(&v, fa, fp),
            Option::Some(false) => oldv.sub(&v, fa),
            Option::None => Result::Ok(v),
        };
        match combined {
            Result::Err(e) => {
                return Result::Err(e);
            },
            Result::Ok(v2) => {
                if crate::atom::same_variant_x(&v2, &oldv) {
                    let ghost v2_v = atom_view(v2);
                    let ghost pre = self@;
                    self.set_existing(&d.lhs, v2);
                    proof {
                        assert(self@ =~= StateV {
                            scopes: set_existing_down(
                                pre.scopes,
                                d.lhs@,
                                v2_v,
                                pre.scopes.len() as int,
                            ),
                            out: pre.out,
                        });
                    }
                    return Result::Ok(Option::None);
                } else {
                    return Result::Err(Error::TypeMismatch);
                }
            },
        }
    }
}

/// Run one statement against the live state: see [`exec_stmt_spec`].
pub fn exec_stmt<FA: Fn(FloatOp, u64, u64) -> u64, FP: Fn(u64) -> Vec<char>>(
    s: &Stmt,
    state: &mut State,
    fuel: u64,
    fa: &FA,
    fp: &FP,
) -> (r: Result<Option<Atom>, Error>)
    requires
        arith_callable(*fa),
        print_callable(*fp),
    ensures
        forall|faa: spec_fn(FloatOp, u64, u64) -> u64, fpp: spec_fn(u64) -> Seq<char>|
            #![trigger obeys_arith(*fa, faa), obeys_print(*fp, fpp)]
            obeys_arith(*fa, faa) && obeys_print(*fp, fpp) ==> st_ok(
                exec_stmt_spec(faa, fpp, stmt_view(*s), old(state)@, fuel as nat),
                final(state)@,
                r,
            ),
    decreases fuel,
{
    if fuel == 0 {
        return Result::Err(Error::OutOfFuel);
    }
    match s {
        Stmt::ExprStmt(e) => {
            match eval_expr(e, state, fuel - 1, fa, fp) {
                Result::Ok(v) => {
                    return Result::Ok(Option::Some(v));
                },
                Result::Err(e2) => {
                    return Result::Err(e2);
                },
            }
        },
        Stmt::PrintStmt(e) => {
            match eval_expr(e, state, fuel - 1, fa, fp) {
                Result::Ok(v) => {
                    let line = atom_to_chars(&v, fp);
                    let ghost oldout = state.output@;
                    let ghost oldscopes = state@.scopes;
                    state.output.push(line);
                    proof {
                        assert(state.output@.map_values(|l: Vec<char>| l@) =~= oldout.map_values(
                            |l: Vec<char>| l@,
                        ).push(line@));
                        assert(state@.scopes == oldscopes);
                        assert forall|fpp: spec_fn(u64) -> Seq<char>| crate::obeys_print(
                            *fp,
                            fpp,
                        ) implies state@ == (StateV {
                            scopes: oldscopes,
                            out: oldout.map_values(|l: Vec<char>| l@).push(atom_str(fpp, atom_view(v))),
                        }) by {
                            assert(line@ == atom_str(fpp, atom_view(v)));
                            assert(state@ =~= StateV {
                                scopes: oldscopes,
                                out: oldout.map_values(|l: Vec<char>| l@).push(
                                    atom_str(fpp, atom_view(v)),
                                ),
                            });
                        }
                    }
                    return Result::Ok(Option::None);
                },
                Result::Err(e2) => {
                    return Result::Err(e2);
                },
            }
        },
        Stmt::Dec(d) => {
            return state.declare(d, fuel - 1, fa, fp);
        },
        Stmt::IfStmt(i) => {
            match eval_expr(&i.cond, state, fuel - 1, fa, fp) {
                Result::Err(e2) => {
                    return Result::Err(e2);
                },
                Result::Ok(v) => {
                    let taken = match v {
                        Atom::Bool(true) => true,
                        _ => false,
                    };
                    proof {
                        assert(taken == (atom_view(v) == AtomV::Bool(true)));
                    }
                    if taken {
                        return i.then_block.execute(state, fuel - 1, fa, fp);
                    } else {
                        return i.else_block.execute(state, fuel - 1, fa, fp);
                    }
                },
            }
        },
        Stmt::WhileStmt(w) => {
            return exec_while(&w.cond, &w.loop_block, state, fuel - 1, fa, fp);
        },
        Stmt::Block(b) => {
            return b.execute(state, fuel - 1, fa, fp);
        },
        Stmt::Break => {
            return Result::Ok(Option::Some(Atom::Break));
        },
    }
}

/// Run a `while` loop: see [`while_spec`].
fn exec_while<FA: Fn(FloatOp, u64, u64) -> u64, FP: Fn(u64) -> Vec<char>>(
    c: &S,
    b: &crate::block::Block,
    state: &mut State,
    fuel: u64,
    fa: &FA,
    fp: &FP,
) -> (r: Result<Option<Atom>, Error>)
    requires
        arith_callable(*fa),
        print_callable(*fp),
    ensures
        forall|faa: spec_fn(FloatOp, u64, u64) -> u64, fpp: spec_fn(u64) -> Seq<char>|
            #![trigger obeys_arith(*fa, faa), obeys_print(*fp, fpp)]
            obeys_arith(*fa, faa) && obeys_print(*fp, fpp) ==> st_ok(
                while_spec(faa, fpp, s_view(*c), crate::block::block_view(*b), old(state)@, fuel as nat),
                final(state)@,
                r,
            ),
    decreases fuel,
{
    if fuel == 0 {
        return Result::Err(Error::OutOfFuel);
    }
    match eval_expr(c, state, fuel - 1, fa, fp) {
        Result::Err(e) => {
            return Result::Err(e);
        },
        Result::Ok(v) => {
            let taken = match v {
                Atom::Bool(true) => true,
                _ => false,
            };
            proof {
                assert(taken == (atom_view(v) == AtomV::Bool(true)));
            }
            if !taken {
                return Result::Ok(Option::None);
            }
            match b.execute(state, fuel - 1, fa, fp) {
                Result::Err(e) => {
                    return Result::Err(e);
                },
                Result::Ok(rb) => {
                    let stop = match &rb {
                        Option::Some(Atom::Break) => true,
                        _ => false,
                    };
                    proof {
                        assert(stop == (opt_atom_view(rb) == Option::Some(AtomV::Break)));
                    }
                    if stop {
                        return Result::Ok(Option::None);
                    } else {
                        return exec_while(c, b, state, fuel - 1, fa, fp);
                    }
                },
            }
        },
    }
}

/// Run the statements from position `i` on: see [`exec_stmts_spec`].
pub fn exec_stmts<FA: Fn(FloatOp, u64, u64) -> u64, FP: Fn(u64) -> Vec<char>>(
    ss: &Vec<Stmt>,
    i: usize,
    last: Option<Atom>,
    state: &mut State,
    fuel: u64,
    fa: &FA,
    fp: &FP,
) -> (r: Result<Option<Atom>, Error>)
    requires
        arith_callable(*fa),
        print_callable(*fp),
        i <= ss@.len(),
    ensures
        forall|faa: spec_fn(FloatOp, u64, u64) -> u64, fpp: spec_fn(u64) -> Seq<char>|
            #![trigger obeys_arith(*fa, faa), obeys_print(*fp, fpp)]
            obeys_arith(*fa, faa) && obeys_print(*fp, fpp) ==> st_ok(
                exec_stmts_spec(
                    faa,
                    fpp,
                    stmts_view(ss@),
                    i as int,
                    opt_atom_view(last),
                    old(state)@,
                    fuel as nat,
                ),
                final(state)@,
                r,
            ),
    decreases fuel,
{
    proof {
        crate::statement::lemma_stmts_view_len(ss@);
    }
    if fuel == 0 {
        return Result::Err(Error::OutOfFuel);
    }
    if i >= ss.len() {
        return Result::Ok(last);
    }
    proof {
        crate::statement::lemma_stmts_view_index(ss@, i as int);
    }
    match exec_stmt(&ss[i], state, fuel - 1, fa, fp) {
        Result::Err(e) => {
            return Result::Err(e);
        },
        Result::Ok(v) => {
            let stop = match &v {
                Option::Some(Atom::Break) => true,
                _ => false,
            };
            proof {
                assert(stop == (opt_atom_view(v) == Option::Some(AtomV::Break)));
            }
            if stop {
                return Result::Ok(v);
            } else {
                return exec_stmts(ss, i + 1, v, state, fuel - 1, fa, fp);
            }
        },
    }
}

/// No orphaned scope: evaluating an expression returns the state
/// with exactly as many scopes as it started with.
pub proof fn lemma_eval_scope_balance(
    fa: spec_fn(FloatOp, u64, u64) -> u64,
    fp: spec_fn(u64) -> Seq<char>,
    e: SV,
    st: StateV,
    fuel: nat,
)
    requires
        st.scopes.len() > 0,
    ensures
        eval_spec(fa, fp, e, st, fuel).0.scopes.len() == st.scopes.len(),
    decreases fuel, 4int,
{
    if fuel > 0 {
        let f2 = (fuel - 1) as nat;
        match e {
            SV::FnCall(fc) => {
                lemma_call_scope_balance(fa, fp, fc, st, f2);
            },
            SV::ArrayLit(es) => {
                lemma_eval_list_scope_balance(fa, fp, es, 0, st, f2);
            },
            SV::Unary(op, x) => {
                if op == Op::Minus || op == Op::Negate {
                    lemma_eval_scope_balance(fa, fp, *x, st, f2);
                }
            },
            SV::Binary(op, x, y) => {
                if f2 > 0 {
                    let f3 = (f2 - 1) as nat;
                    lemma_eval_scope_balance(fa, fp, *x, st, f3);
                    let (st2, rx) = eval_spec(fa, fp, *x, st, f3);
                    if rx is Ok {
                        lemma_eval_scope_balance(fa, fp, *y, st2, f3);
                        let (st3, ry) = eval_spec(fa, fp, *y, st2, f3);
                        assert(eval_binary_spec(fa, fp, op, *x, *y, st, f2).0 == st3);
                    } else {
                        assert(eval_binary_spec(fa, fp, op, *x, *y, st, f2).0 == st2);
                    }
                } else {
                    assert(eval_binary_spec(fa, fp, op, *x, *y, st, f2).0 == st);
                }
            },
            _ => {},
        }
    }
}

proof fn lemma_eval_list_scope_balance(
    fa: spec_fn(FloatOp, u64, u64) -> u64,
    fp: spec_fn(u64) -> Seq<char>,
    es: Seq<SV>,
    i: int,
    st: StateV,
    fuel: nat,
)
    requires
        st.scopes.len() > 0,
    ensures
        eval_list_spec(fa, fp, es, i, st, fuel).0.scopes.len() == st.scopes.len(),
    decreases fuel, 5int,
{
    if fuel > 0 && 0 <= i < es.len() {
        lemma_eval_scope_balance(fa, fp, es[i], st, (fuel - 1) as nat);
        let (st2, r) = eval_spec(fa, fp, es[i], st, (fuel - 1) as nat);
        if r is Ok {
            lemma_eval_list_scope_balance(fa, fp, es, i + 1, st2, (fuel - 1) as nat);
        }
    }
}

proof fn lemma_call_scope_balance(
    fa: spec_fn(FloatOp, u64, u64) -> u64,
    fp: spec_fn(u64) -> Seq<char>,
    fc: FunctionCallV,
    st: StateV,
    fuel: nat,
)
    requires
        st.scopes.len() > 0,
    ensures
        call_spec(fa, fp, fc, st, fuel).0.scopes.len() == st.scopes.len(),
    decreases fuel, 3int,
{
    if fuel > 0 {
        let f2 = (fuel - 1) as nat;
        if fc.name == push_name() {
            if f2 > 0 && fc.args.len() == 2 && fc.args[0] is Identifier {
                let f3 = (f2 - 1) as nat;
                let n = fc.args[0]->Identifier_0;
                lemma_eval_scope_balance(fa, fp, fc.args[1], st, f3);
                let (st2, r) = eval_spec(fa, fp, fc.args[1], st, f3);
                if r is Ok {
                    match lookup(st2.scopes, n) {
                        Option::Some(AtomV::Array(a)) => {
                            crate::statement::lemma_set_existing_down_len(
                                st2.scopes,
                                n,
                                AtomV::Array(a.push(r->Ok_0)),
                                st2.scopes.len() as int,
                            );
                        },
                        _ => {},
                    }
                }
            }
        } else if fc.name == len_name() {
        } else {
            match lookup(st.scopes, fc.name) {
                Option::Some(AtomV::Function(fd)) => {
                    if fc.args.len() == fd.arg_names.len() {
                        lemma_block_scope_balance(
                            fa,
                            fp,
                            param_decls(fd.arg_names, fc.args, 0) + fd.fn_block,
                            st,
                            f2,
                        );
                    }
                },
                _ => {},
            }
        }
    }
}

proof fn lemma_declare_scope_balance(
    fa: spec_fn(FloatOp, u64, u64) -> u64,
    fp: spec_fn(u64) -> Seq<char>,
    d: DeclarationV,
    st: StateV,
    fuel: nat,
)
    requires
        st.scopes.len() > 0,
    ensures
        declare_spec(fa, fp, d, st, fuel).0.scopes.len() == st.scopes.len(),
    decreases fuel, 3int,
{
    if fuel > 0 {
        lemma_eval_scope_balance(fa, fp, d.rhs, st, (fuel - 1) as nat);
        let (st2, r) = eval_spec(fa, fp, d.rhs, st, (fuel - 1) as nat);
        if r is Ok {
            let v = r->Ok_0;
            if d.alias {
            } else {
                match lookup(st2.scopes, d.lhs) {
                    Option::Some(oldv) => {
                        let combined: Result<AtomV, Error> = match d.plus_or_minus {
                            Option::Some(true) => crate::atom::atom_add(fa, fp, oldv, v),
                            Option::Some(false) => crate::atom::atom_sub(fa, oldv, v),
                            Option::None => Result::Ok(v),
                        };
                        match combined {
                            Result::Ok(v2) => {
                                crate::statement::lemma_set_existing_down_len(
                                    st2.scopes,
                                    d.lhs,
                                    v2,
                                    st2.scopes.len() as int,
                                );
                            },
                            Result::Err(_) => {},
                        }
                    },
                    Option::None => {},
                }
            }
        }
    }
}

/// No orphaned scope: running one statement returns the state with
/// exactly as many scopes as it started with, on success, on error
/// and on `break` alike.
pub proof fn lemma_stmt_scope_balance(
    fa: spec_fn(FloatOp, u64, u64) -> u64,
    fp: spec_fn(u64) -> Seq<char>,
    s: StmtV,
    st: StateV,
    fuel: nat,
)
    requires
        st.scopes.len() > 0,
    ensures
        exec_stmt_spec(fa, fp, s, st, fuel).0.scopes.len() == st.scopes.len(),
    decreases fuel, 3int,
{
    if fuel > 0 {
        let f2 = (fuel - 1) as nat;
        match s {
            StmtV::ExprStmt(e) => {
                lemma_eval_scope_balance(fa, fp, e, st, f2);
            },
            StmtV::PrintStmt(e) => {
                lemma_eval_scope_balance(fa, fp, e, st, f2);
            },
            StmtV::Dec(d) => {
                lemma_declare_scope_balance(fa, fp, d, st, f2);
            },
            StmtV::IfStmt(c, tb, eb) => {
                lemma_eval_scope_balance(fa, fp, c, st, f2);
                let (st2, r) = eval_spec(fa, fp, c, st, f2);
                if r is Ok {
                    lemma_block_scope_balance(fa, fp, tb, st2, f2);
                    lemma_block_scope_balance(fa, fp, eb, st2, f2);
                }
            },
            StmtV::WhileStmt(c, b) => {
                lemma_while_scope_balance(fa, fp, c, b, st, f2);
            },
            StmtV::Block(b) => {
                lemma_block_scope_balance(fa, fp, b, st, f2);
            },
            StmtV::Break => {},
        }
    }
}

proof fn lemma_while_scope_balance(
    fa: spec_fn(FloatOp, u64, u64) -> u64,
    fp: spec_fn(u64) -> Seq<char>,
    c: SV,
    b: Seq<StmtV>,
    st: StateV,
    fuel: nat,
)
    requires
        st.scopes.len() > 0,
    ensures
        while_spec(fa, fp, c, b, st, fuel).0.scopes.len() == st.scopes.len(),
    decreases fuel, 2int,
{
    if fuel > 0 {
        let f2 = (fuel - 1) as nat;
        lemma_eval_scope_balance(fa, fp, c, st, f2);
        let (st2, r) = eval_spec(fa, fp, c, st, f2);
        if r is Ok && r->Ok_0 == AtomV::Bool(true) {
            lemma_block_scope_balance(fa, fp, b, st2, f2);
            let (st3, rb) = block_spec(fa, fp, b, st2, f2);
            match rb {
                Result::Ok(Option::Some(AtomV::Break)) => {},
                Result::Ok(_) => {
                    lemma_while_scope_balance(fa, fp, c, b, st3, f2);
                },
                Result::Err(_) => {},
            }
        }
    }
}

/// No scope leaks: a block returns the state with exactly as many
/// scopes as it started with, on every exit path, early `break` and
/// errors included.
pub proof fn lemma_block_scope_balance(
    fa: spec_fn(FloatOp, u64, u64) -> u64,
    fp: spec_fn(u64) -> Seq<char>,
    b: Seq<StmtV>,
    st: StateV,
    fuel: nat,
)
    requires
        st.scopes.len() > 0,
    ensures
        block_spec(fa, fp, b, st, fuel).0.scopes.len() == st.scopes.len(),
    decreases fuel, 1int,
{
    if fuel > 0 {
        lemma_stmts_scope_balance(fa, fp, b, 0, Option::None, push_scope(st), (fuel - 1) as nat);
    }
}

proof fn lemma_stmts_scope_balance(
    fa: spec_fn(FloatOp, u64, u64) -> u64,
    fp: spec_fn(u64) -> Seq<char>,
    ss: Seq<StmtV>,
    i: int,
    last: Option<AtomV>,
    st: StateV,
    fuel: nat,
)
    requires
        st.scopes.len() > 0,
    ensures
        exec_stmts_spec(fa, fp, ss, i, last, st, fuel).0.scopes.len() == st.scopes.len(),
    decreases fuel, 0int,
{
    if fuel > 0 && 0 <= i < ss.len() {
        lemma_stmt_scope_balance(fa, fp, ss[i], st, (fuel - 1) as nat);
        let (st2, r) = exec_stmt_spec(fa, fp, ss[i], st, (fuel - 1) as nat);
        match r {
            Result::Ok(v) => {
                if !(v == Option::Some(AtomV::Break)) {
                    lemma_stmts_scope_balance(fa, fp, ss, i + 1, v, st2, (fuel - 1) as nat);
                }
            },
            Result::Err(_) => {},
        }
    }
}

/// Break stops the enclosing block at once: when the statement at
/// position `i` produces the `Break` signal, the statements after it
/// are not executed, and the block run ends with that signal and the
/// state the statement left.
pub proof fn lemma_break_stops_block(
    fa: spec_fn(FloatOp, u64, u64) -> u64,
    fp: spec_fn(u64) -> Seq<char>,
    ss: Seq<StmtV>,
    i: int,
    last: Option<AtomV>,
    st: StateV,
    fuel: nat,
)
    requires
        fuel > 0,
        0 <= i < ss.len(),
        exec_stmt_spec(fa, fp, ss[i], st, (fuel - 1) as nat).1 == Result::Ok::<
            Option<AtomV>,
            Error,
        >(Option::Some(AtomV::Break)),
    ensures
        exec_stmts_spec(fa, fp, ss, i, last, st, fuel) == (
            exec_stmt_spec(fa, fp, ss[i], st, (fuel - 1) as nat).0,
            Result::Ok::<Option<AtomV>, Error>(Option::Some(AtomV::Break)),
        ),
{
}

/// A `while` loop consumes the `Break` signal: when the condition
/// holds and the body ends with `Break`, the loop stops with the
/// body's state and produces no value — the signal is not propagated
/// past the loop.
pub proof fn lemma_while_consumes_break(
    fa: spec_fn(FloatOp, u64, u64) -> u64,
    fp: spec_fn(u64) -> Seq<char>,
    c: SV,
    b: Seq<StmtV>,
    st: StateV,
    fuel: nat,
)
    requires
        fuel > 0,
        eval_spec(fa, fp, c, st, (fuel - 1) as nat).1 == Result::Ok::<AtomV, Error>(
            AtomV::Bool(true),
        ),
        block_spec(
            fa,
            fp,
            b,
            eval_spec(fa, fp, c, st, (fuel - 1) as nat).0,
            (fuel - 1) as nat,
        ).1 == Result::Ok::<Option<AtomV>, Error>(Option::Some(AtomV::Break)),
    ensures
        while_spec(fa, fp, c, b, st, fuel) == (
            block_spec(
                fa,
                fp,
                b,
                eval_spec(fa, fp, c, st, (fuel - 1) as nat).0,
                (fuel - 1) as nat,
            ).0,
            Result::Ok::<Option<AtomV>, Error>(Option::None),
        ),
{
}

/// The reassignment type guard, in general: when a reassignment
/// (plain or compound) succeeds, the binding afterwards holds a value
/// of the same variant the binding held before; a reassignment that
/// would change the variant fails with `TypeMismatch` instead, by the
/// definition of [`declare_spec`].
pub proof fn lemma_reassign_keeps_variant(
    fa: spec_fn(FloatOp, u64, u64) -> u64,
    fp: spec_fn(u64) -> Seq<char>,
    d: DeclarationV,
    st: StateV,
    fuel: nat,
)
    requires
        !d.alias,
        fuel > 0,
        declare_spec(fa, fp, d, st, fuel).1 is Ok,
    ensures
        ({
            let st2 = eval_spec(fa, fp, d.rhs, st, (fuel - 1) as nat).0;
            let stf = declare_spec(fa, fp, d, st, fuel).0;
            &&& lookup(st2.scopes, d.lhs) is Some
            &&& lookup(stf.scopes, d.lhs) is Some
            &&& same_variant(
                lookup(stf.scopes, d.lhs)->Some_0,
                lookup(st2.scopes, d.lhs)->Some_0,
            )
        }),
{
    let (st2, r) = eval_spec(fa, fp, d.rhs, st, (fuel - 1) as nat);
    assert(r is Ok);
    let v = r->Ok_0;
    assert(lookup(st2.scopes, d.lhs) is Some);
    let oldv = lookup(st2.scopes, d.lhs)->Some_0;
    let combined: Result<AtomV, Error> = match d.plus_or_minus {
        Option::Some(true) => crate::atom::atom_add(fa, fp, oldv, v),
        Option::Some(false) => crate::atom::atom_sub(fa, oldv, v),
        Option::None => Result::Ok(v),
    };
    assert(combined is Ok);
    let v2 = combined->Ok_0;
    assert(same_variant(v2, oldv));
    assert(declare_spec(fa, fp, d, st, fuel).0.scopes == set_existing_down(
        st2.scopes,
        d.lhs,
        v2,
        st2.scopes.len() as int,
    ));
    crate::statement::lemma_set_existing_down_len(st2.scopes, d.lhs, v2, st2.scopes.len() as int);
    crate::statement::lemma_set_existing_lookup(
        st2.scopes,
        d.lhs,
        v2,
        st2.scopes.len() as int,
    );
}

} // verus!
