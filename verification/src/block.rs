//! Blocks: ordered statement sequences, each executed in a scope of
//! its own.
use vstd::prelude::*;

use crate::eval::{block_spec, exec_stmts, exec_stmts_spec, pop_scope, push_scope, st_ok};
use crate::statement::{lemma_scopes_view_drop_last, lemma_scopes_view_push, scope_view, Scope,
    State, Stmt, StmtV, stmts_view};
use crate::{arith_callable, obeys_arith, obeys_print, print_callable, Error, FloatOp};

verus! {

/// An ordered statement sequence.  A block carries no state of its
/// own; it is the lexical unit the executor opens a scope for.
#[derive(Debug)]
pub struct Block {
    pub statements: Vec<Stmt>,
}

/// The mathematical model of a block.
pub type BlockV = Seq<StmtV>;

pub open spec fn block_view(b: Block) -> BlockV
    decreases b,
{
    stmts_view(b.statements@)
}

impl View for Block {
    type V = BlockV;

    open spec fn view(&self) -> BlockV {
        block_view(*self)
    }
}

impl Block {
    /// A block of the given statements.
    pub fn new(statements: Vec<Stmt>) -> (r: Block)
        ensures
            r@ == stmts_view(statements@),
    {
        Block { statements }
    }
}

impl Block {
    /// Run the block: a fresh scope is opened, the statements run in
    /// order, and the scope is destroyed on every exit path: see
    /// [`block_spec`].
    pub fn execute<FA: Fn(FloatOp, u64, u64) -> u64, FP: Fn(u64) -> Vec<char>>(
        &self,
        state: &mut State,
        fuel: u64,
        fa: &FA,
        fp: &FP,
    ) -> (r: Result<Option<crate::atom::Atom>, Error>)
        requires
            arith_callable(*fa),
            print_callable(*fp),
        ensures
            forall|faa: spec_fn(FloatOp, u64, u64) -> u64, fpp: spec_fn(u64) -> Seq<char>|
                #![trigger obeys_arith(*fa, faa), obeys_print(*fp, fpp)]
                obeys_arith(*fa, faa) && obeys_print(*fp, fpp) ==> st_ok(
                    block_spec(faa, fpp, block_view(*self), old(state)@, fuel as nat),
                    final(state)@,
                    r,
                ),
        decreases fuel,
    {
        if fuel == 0 {
            return Result::Err(Error::OutOfFuel);
        }
        let fresh = Scope { vars: Vec::new() };
        proof {
            lemma_scopes_view_push(state.scopes@, fresh);
            assert(scope_view(fresh.vars@) =~= Seq::<(Seq<char>, crate::atom::AtomV)>::empty());
            assert(state@.scopes.push(Seq::empty()) =~= push_scope(state@).scopes);
        }
        state.scopes.push(fresh);
        proof {
            assert(state@ =~= push_scope(old(state)@));
        }
        let r = exec_stmts(&self.statements, 0, Option::None, state, fuel - 1, fa, fp);
        proof {
            crate::statement::lemma_scopes_view_len(state.scopes@);
            if state.scopes@.len() > 0 {
                lemma_scopes_view_drop_last(state.scopes@);
            }
        }
        let ghost pre_pop = state@;
        let popped = state.scopes.pop();
        proof {
            match popped {
                Option::Some(_) => {
                    assert(state@ =~= pop_scope(pre_pop));
                },
                Option::None => {
                    assert(state@ =~= pop_scope(pre_pop));
                },
            }
        }
        r
    }

    /// Run the block's statements directly against the current scope
    /// stack, without opening a scope of its own; declarations then
    /// persist.  This is what an interactive session uses.
    pub fn execute_unscoped<FA: Fn(FloatOp, u64, u64) -> u64, FP: Fn(u64) -> Vec<char>>(
        &self,
        state: &mut State,
        fuel: u64,
        fa: &FA,
        fp: &FP,
    ) -> (r: Result<Option<crate::atom::Atom>, Error>)
        requires
            arith_callable(*fa),
            print_callable(*fp),
        ensures
            forall|faa: spec_fn(FloatOp, u64, u64) -> u64, fpp: spec_fn(u64) -> Seq<char>|
                #![trigger obeys_arith(*fa, faa), obeys_print(*fp, fpp)]
                obeys_arith(*fa, faa) && obeys_print(*fp, fpp) ==> st_ok(
                    exec_stmts_spec(
                        faa,
                        fpp,
                        block_view(*self),
                        0,
                        Option::None,
                        old(state)@,
                        fuel as nat,
                    ),
                    final(state)@,
                    r,
                ),
    {
        exec_stmts(&self.statements, 0, Option::None, state, fuel, fa, fp)
    }
}

/// A copy of a block, equal in the model.
pub fn clone_block(b: &Block) -> (r: Block)
    ensures
        r@ == b@,
    decreases *b,
{
    let mut out: Vec<Stmt> = Vec::new();
    let mut j: usize = 0;
    while j < b.statements.len()
        invariant
            j <= b.statements@.len(),
            out@.len() == j,
            forall|k: int| 0 <= k < j ==> crate::statement::stmt_view(#[trigger] out@[k])
                == crate::statement::stmt_view(b.statements@[k]),
        decreases b.statements@.len() - j,
    {
        proof {
            assert(decreases_to!(*b => b.statements));
            assert(decreases_to!(b.statements => b.statements@[j as int]));
        }
        let c = crate::statement::clone_stmt(&b.statements[j]);
        out.push(c);
        j = j + 1;
    }
    proof {
        crate::statement::lemma_stmts_view_pointwise(out@, b.statements@);
    }
    Block { statements: out }
}

} // verus!
