//! Calls: the `push` and `len` built-ins, and user function
//! dispatch as a transient block against the caller's scope stack.
use vstd::prelude::*;

use crate::atom::{Atom, AtomV, atom_view, atoms_view, clone_atom, fncall_view,
    lemma_atoms_view_len, lemma_atoms_view_push, FunctionCall};
use crate::block::Block;
use crate::eval::{call_spec, ev_ok, eval_expr, len_name, len_spec, param_decls, push_name,
    push_spec};
use crate::parser::{clone_s, lemma_ss_view_len, s_view, ss_view, S, SV};
use crate::statement::{lemma_stmts_view_index, lemma_stmts_view_len, stmt_view, stmts_view,
    Declaration, DeclarationV, State, Stmt, StmtV};
use crate::text::{chars_eq, clone_chars};
use crate::{arith_callable, obeys_arith, obeys_print, print_callable, Error, FloatOp};

verus! {

proof fn lemma_param_decls(names: Seq<Seq<char>>, args: Seq<SV>, i: int)
    requires
        0 <= i <= names.len(),
    ensures
        param_decls(names, args, i).len() == names.len() - i,
        forall|k: int|
            0 <= k < names.len() - i ==> #[trigger] param_decls(names, args, i)[k] == StmtV::Dec(
                DeclarationV {
                    lhs: names[i + k],
                    rhs: args[i + k],
                    alias: true,
                    plus_or_minus: Option::None,
                },
            ),
    decreases names.len() - i,
{
    if i < names.len() {
        lemma_param_decls(names, args, i + 1);
    }
}

/// A call: see [`call_spec`].
pub fn eval_function_call<FA: Fn(FloatOp, u64, u64) -> u64, FP: Fn(u64) -> Vec<char>>(
    f: &FunctionCall,
    state: &mut State,
    fuel: u64,
    fa: &FA,
    fp: &FP,
) -> (r: Result<Atom, Error>)
    requires
        arith_callable(*fa),
        print_callable(*fp),
    ensures
        forall|faa: spec_fn(FloatOp, u64, u64) -> u64, fpp: spec_fn(u64) -> Seq<char>|
            #![trigger obeys_arith(*fa, faa), obeys_print(*fp, fpp)]
            obeys_arith(*fa, faa) && obeys_print(*fp, fpp) ==> ev_ok(
                call_spec(faa, fpp, fncall_view(*f), old(state)@, fuel as nat),
                final(state)@,
                r,
            ),
    decreases fuel,
{
    if fuel == 0 {
        return Result::Err(Error::OutOfFuel);
    }
    let kw_push: Vec<char> = vec!['p', 'u', 's', 'h'];
    let kw_len: Vec<char> = vec!['l', 'e', 'n'];
    proof {
        assert(kw_push@ =~= push_name());
        assert(kw_len@ =~= len_name());
    }
    if chars_eq(&f.name, &kw_push) {
        return array_push(&f.args, state, fuel - 1, fa, fp);
    }
    if chars_eq(&f.name, &kw_len) {
        return array_len(&f.args, state);
    }
    let looked = state.get_variable(&f.name);
    match looked {
        Option::Some(Atom::Function(fd)) => {
            proof {
                lemma_ss_view_len(f.args@);
            }
            if f.args.len() != fd.arg_names.len() {
                return Result::Err(Error::ArityError);
            }
            let ghost names_v = fd.arg_names@.map_values(|n: Vec<char>| n@);
            let ghost args_v = ss_view(f.args@);
            let mut stmts: Vec<Stmt> = Vec::new();
            let mut j: usize = 0;
            while j < fd.arg_names.len()
                invariant
                    j <= fd.arg_names@.len(),
                    fd.arg_names@.len() == f.args@.len(),
                    names_v == fd.arg_names@.map_values(|n: Vec<char>| n@),
                    args_v == ss_view(f.args@),
                    stmts@.len() == j,
                    forall|k: int| 0 <= k < j ==> stmt_view(#[trigger] stmts@[k]) == StmtV::Dec(
                        DeclarationV {
                            lhs: names_v[k],
                            rhs: args_v[k],
                            alias: true,
                            plus_or_minus: Option::None,
                        },
                    ),
                decreases fd.arg_names@.len() - j,
            {
                proof {
                    crate::parser::lemma_ss_view_index(f.args@, j as int);
                }
                let name = clone_chars(&fd.arg_names[j]);
                let rhs = clone_s(&f.args[j]);
                let st = Stmt::Dec(
                    Declaration { lhs: name, rhs, alias: true, plus_or_minus: Option::None },
                );
                stmts.push(st);
                j = j + 1;
            }
            let ghost n_params = stmts@.len();
            let ghost body_v = crate::block::block_view(fd.fn_block);
            let mut k: usize = 0;
            while k < fd.fn_block.statements.len()
                invariant
                    k <= fd.fn_block.statements@.len(),
                    stmts@.len() == n_params + k,
                    n_params == fd.arg_names@.len(),
                    fd.arg_names@.len() == f.args@.len(),
                    names_v == fd.arg_names@.map_values(|n: Vec<char>| n@),
                    args_v == ss_view(f.args@),
                    body_v == crate::block::block_view(fd.fn_block),
                    forall|m: int| 0 <= m < n_params ==> stmt_view(#[trigger] stmts@[m])
                        == StmtV::Dec(
                        DeclarationV {
                            lhs: names_v[m],
                            rhs: args_v[m],
                            alias: true,
                            plus_or_minus: Option::None,
                        },
                    ),
                    forall|m: int| 0 <= m < k ==> stmt_view(#[trigger] stmts@[n_params + m])
                        == stmt_view(fd.fn_block.statements@[m]),
                decreases fd.fn_block.statements@.len() - k,
            {
                let c = crate::statement::clone_stmt(&fd.fn_block.statements[k]);
                stmts.push(c);
                k = k + 1;
            }
            proof {
                lemma_param_decls(names_v, args_v, 0);
                lemma_stmts_view_len(stmts@);
                lemma_stmts_view_len(fd.fn_block.statements@);
                assert forall|m: int| 0 <= m < stmts@.len() implies stmts_view(stmts@)[m] == (
                param_decls(names_v, args_v, 0) + body_v)[m] by {
                    lemma_stmts_view_index(stmts@, m);
                    if m >= n_params {
                        lemma_stmts_view_index(fd.fn_block.statements@, m - n_params);
                        assert(stmts@[m] == stmts@[n_params + (m - n_params)]);
                    }
                }
                assert(stmts_view(stmts@) =~= param_decls(names_v, args_v, 0) + body_v);
            }
            let full_block = Block { statements: stmts };
            let res = full_block.execute(state, fuel - 1, fa, fp);
            match res {
                Result::Ok(Option::Some(v)) => Result::Ok(v),
                Result::Ok(Option::None) => Result::Err(Error::TypeMismatch),
                Result::Err(e) => Result::Err(e),
            }
        },
        Option::Some(_) => Result::Err(Error::UnknownFunction),
        Option::None => Result::Err(Error::UnknownFunction),
    }
}

/// The `push(arrayName, expr)` built-in: see [`push_spec`].
fn array_push<FA: Fn(FloatOp, u64, u64) -> u64, FP: Fn(u64) -> Vec<char>>(
    args: &Vec<S>,
    state: &mut State,
    fuel: u64,
    fa: &FA,
    fp: &FP,
) -> (r: Result<Atom, Error>)
    requires
        arith_callable(*fa),
        print_callable(*fp),
    ensures
        forall|faa: spec_fn(FloatOp, u64, u64) -> u64, fpp: spec_fn(u64) -> Seq<char>|
            #![trigger obeys_arith(*fa, faa), obeys_print(*fp, fpp)]
            obeys_arith(*fa, faa) && obeys_print(*fp, fpp) ==> ev_ok(
                push_spec(faa, fpp, ss_view(args@), old(state)@, fuel as nat),
                final(state)@,
                r,
            ),
    decreases fuel,
{
    proof {
        lemma_ss_view_len(args@);
    }
    if fuel == 0 {
        return Result::Err(Error::OutOfFuel);
    }
    if args.len() != 2 {
        return Result::Err(Error::ArityError);
    }
    proof {
        crate::parser::lemma_ss_view_index(args@, 0);
        crate::parser::lemma_ss_view_index(args@, 1);
    }
    match &args[0] {
        S::Identifier(n) => {
            let v = match eval_expr(&args[1], state, fuel - 1, fa, fp) {
                Result::Err(e) => {
                    return Result::Err(e);
                },
                Result::Ok(v) => v,
            };
            let looked = state.get_variable(n);
            match looked {
                Option::Some(Atom::Array(a)) => {
                    let mut new_arr = a;
                    let vc = clone_atom(&v);
                    proof {
                        lemma_atoms_view_push(new_arr@, vc);
                    }
                    new_arr.push(vc);
                    state.set_existing(n, Atom::Array(new_arr));
                    Result::Ok(v)
                },
                Option::Some(_) => Result::Err(Error::TypeMismatch),
                Option::None => Result::Err(Error::UndefinedVariable),
            }
        },
        _ => Result::Err(Error::TypeMismatch),
    }
}

/// The `len(arrayName)` built-in: see [`len_spec`].
fn array_len(args: &Vec<S>, state: &State) -> (r: Result<Atom, Error>)
    ensures
        ({
            let sp = len_spec(ss_view(args@), state@);
            sp.0 == state@ && (match r {
                Result::Ok(v) => sp.1 == Result::Ok::<AtomV, Error>(atom_view(v)),
                Result::Err(e) => sp.1 == Result::Err::<AtomV, Error>(e),
            })
        }),
{
    proof {
        lemma_ss_view_len(args@);
    }
    if args.len() != 1 {
        return Result::Err(Error::ArityError);
    }
    proof {
        crate::parser::lemma_ss_view_index(args@, 0);
    }
    match &args[0] {
        S::Identifier(n) => {
            let looked = state.get_variable(n);
            match looked {
                Option::Some(Atom::Array(a)) => {
                    proof {
                        lemma_atoms_view_len(a@);
                    }
                    if a.len() as u64 <= 9223372036854775807u64 {
                        Result::Ok(Atom::Int(a.len() as i64))
                    } else {
                        Result::Err(Error::TypeMismatch)
                    }
                },
                Option::Some(_) => Result::Err(Error::TypeMismatch),
                Option::None => Result::Err(Error::UndefinedVariable),
            }
        },
        _ => Result::Err(Error::TypeMismatch),
    }
}

} // verus!
