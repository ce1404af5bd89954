//! Statements and the runtime state they act on.
use vstd::prelude::*;

use crate::atom::{Atom, AtomV, atom_view, clone_atom};
use crate::text::{chars_eq, clone_chars};
use crate::block::{Block, BlockV, block_view};
use crate::parser::{S, SV, s_view};

verus! {

/// One level of the name-to-value mapping stack.
#[derive(Debug)]
pub struct Scope {
    pub vars: Vec<(Vec<char>, Atom)>,
}

/// A name-to-stack-slot table, with a counter for fresh jump labels.
#[derive(Debug)]
pub struct CompileScope {
    pub vars: Vec<(Vec<char>, usize)>,
    pub label_count: usize,
}

/// A binding statement.  With `alias` true it binds `lhs` afresh in
/// the innermost scope; with `alias` false it reassigns the nearest
/// existing binding, first combining with `+`/`-` when
/// `plus_or_minus` is `Some(true)`/`Some(false)`.
#[derive(Debug)]
pub struct Declaration {
    pub lhs: Vec<char>,
    pub rhs: S,
    pub alias: bool,
    pub plus_or_minus: Option<bool>,
}

/// A two-way branch; an absent `else` is an empty block.
#[derive(Debug)]
pub struct If {
    pub cond: S,
    pub then_block: Block,
    pub else_block: Block,
}

/// A pre-tested loop.
#[derive(Debug)]
pub struct While {
    pub cond: S,
    pub loop_block: Block,
}

/// A statement.
#[derive(Debug)]
pub enum Stmt {
    ExprStmt(S),
    PrintStmt(S),
    Dec(Declaration),
    IfStmt(If),
    WhileStmt(While),
    Block(Block),
    Break,
}

/// The mathematical model of a declaration.
#[verifier::ext_equal]
pub struct DeclarationV {
    pub lhs: Seq<char>,
    pub rhs: SV,
    pub alias: bool,
    pub plus_or_minus: Option<bool>,
}

/// The mathematical model of a statement.
#[verifier::ext_equal]
pub enum StmtV {
    ExprStmt(SV),
    PrintStmt(SV),
    Dec(DeclarationV),
    IfStmt(SV, BlockV, BlockV),
    WhileStmt(SV, BlockV),
    Block(BlockV),
    Break,
}

pub open spec fn decl_view(d: Declaration) -> DeclarationV
    decreases d,
{
    DeclarationV { lhs: d.lhs@, rhs: s_view(d.rhs), alias: d.alias, plus_or_minus: d.plus_or_minus }
}

pub open spec fn stmt_view(s: Stmt) -> StmtV
    decreases s,
{
    match s {
        Stmt::ExprStmt(e) => StmtV::ExprStmt(s_view(e)),
        Stmt::PrintStmt(e) => StmtV::PrintStmt(s_view(e)),
        Stmt::Dec(d) => StmtV::Dec(decl_view(d)),
        Stmt::IfStmt(i) => StmtV::IfStmt(
            s_view(i.cond),
            block_view(i.then_block),
            block_view(i.else_block),
        ),
        Stmt::WhileStmt(w) => StmtV::WhileStmt(s_view(w.cond), block_view(w.loop_block)),
        Stmt::Block(b) => StmtV::Block(block_view(b)),
        Stmt::Break => StmtV::Break,
    }
}

pub open spec fn stmts_view(s: Seq<Stmt>) -> Seq<StmtV>
    decreases s,
{
    if s.len() == 0 {
        Seq::empty()
    } else {
        seq![stmt_view(s[0])] + stmts_view(s.drop_first())
    }
}

impl View for Declaration {
    type V = DeclarationV;

    open spec fn view(&self) -> DeclarationV {
        decl_view(*self)
    }
}

impl View for Stmt {
    type V = StmtV;

    open spec fn view(&self) -> StmtV {
        stmt_view(*self)
    }
}

pub proof fn lemma_stmts_view_len(s: Seq<Stmt>)
    ensures
        stmts_view(s).len() == s.len(),
    decreases s,
{
    if s.len() > 0 {
        lemma_stmts_view_len(s.drop_first());
    }
}

pub proof fn lemma_stmts_view_index(s: Seq<Stmt>, i: int)
    requires
        0 <= i < s.len(),
    ensures
        stmts_view(s).len() == s.len(),
        stmts_view(s)[i] == stmt_view(s[i]),
    decreases s,
{
    lemma_stmts_view_len(s);
    if i > 0 {
        lemma_stmts_view_index(s.drop_first(), i - 1);
    }
}

pub proof fn lemma_stmts_view_push(s: Seq<Stmt>, t: Stmt)
    ensures
        stmts_view(s.push(t)) == stmts_view(s).push(stmt_view(t)),
    decreases s,
{
    if s.len() == 0 {
        assert(s.push(t).drop_first() =~= Seq::<Stmt>::empty());
        assert(s.push(t)[0] == t);
        assert(stmts_view(s.push(t)) == seq![stmt_view(t)] + stmts_view(s.push(t).drop_first()));
        assert(stmts_view(Seq::<Stmt>::empty()) =~= Seq::<StmtV>::empty());
        assert(stmts_view(s.push(t)) =~= stmts_view(s).push(stmt_view(t)));
    } else {
        assert(s.push(t).drop_first() =~= s.drop_first().push(t));
        lemma_stmts_view_push(s.drop_first(), t);
        assert(stmts_view(s.push(t)) =~= stmts_view(s).push(stmt_view(t)));
    }
}

/// The model of one scope: name-value pairs, earliest binding first.
pub open spec fn scope_view(s: Seq<(Vec<char>, Atom)>) -> Seq<(Seq<char>, AtomV)>
    decreases s,
{
    if s.len() == 0 {
        Seq::empty()
    } else {
        seq![(s[0].0@, atom_view(s[0].1))] + scope_view(s.drop_first())
    }
}

impl View for Scope {
    type V = Seq<(Seq<char>, AtomV)>;

    open spec fn view(&self) -> Seq<(Seq<char>, AtomV)> {
        scope_view(self.vars@)
    }
}

pub proof fn lemma_scope_view_len(s: Seq<(Vec<char>, Atom)>)
    ensures
        scope_view(s).len() == s.len(),
    decreases s,
{
    if s.len() > 0 {
        lemma_scope_view_len(s.drop_first());
    }
}

pub proof fn lemma_scope_view_index(s: Seq<(Vec<char>, Atom)>, i: int)
    requires
        0 <= i < s.len(),
    ensures
        scope_view(s).len() == s.len(),
        scope_view(s)[i] == (s[i].0@, atom_view(s[i].1)),
    decreases s,
{
    lemma_scope_view_len(s);
    if i > 0 {
        lemma_scope_view_index(s.drop_first(), i - 1);
    }
}

pub proof fn lemma_scope_view_push(s: Seq<(Vec<char>, Atom)>, p: (Vec<char>, Atom))
    ensures
        scope_view(s.push(p)) == scope_view(s).push((p.0@, atom_view(p.1))),
    decreases s,
{
    if s.len() == 0 {
        assert(s.push(p).drop_first() =~= Seq::<(Vec<char>, Atom)>::empty());
        assert(s.push(p)[0] == p);
        assert(scope_view(s.push(p)) == seq![(p.0@, atom_view(p.1))] + scope_view(
            s.push(p).drop_first(),
        ));
        assert(scope_view(Seq::<(Vec<char>, Atom)>::empty()) =~= Seq::<(Seq<char>, AtomV)>::empty());
        assert(scope_view(s.push(p)) =~= scope_view(s).push((p.0@, atom_view(p.1))));
    } else {
        assert(s.push(p).drop_first() =~= s.drop_first().push(p));
        lemma_scope_view_push(s.drop_first(), p);
        assert(scope_view(s.push(p)) =~= scope_view(s).push((p.0@, atom_view(p.1))));
    }
}

/// The model of one scope level.
pub type ScopeV = Seq<(Seq<char>, AtomV)>;

/// The model of the runtime state: the scope stack, innermost scope
/// last, and the lines printed so far.
#[verifier::ext_equal]
pub struct StateV {
    pub scopes: Seq<ScopeV>,
    pub out: Seq<Seq<char>>,
}

/// The runtime state: a stack of scopes (innermost last) and the
/// lines printed so far.  It is threaded explicitly through every
/// call; independent states cannot interfere.
#[derive(Debug)]
pub struct State {
    pub scopes: Vec<Scope>,
    pub output: Vec<Vec<char>>,
}

pub open spec fn scopes_view(s: Seq<Scope>) -> Seq<ScopeV>
    decreases s,
{
    if s.len() == 0 {
        Seq::empty()
    } else {
        seq![scope_view(s[0].vars@)] + scopes_view(s.drop_first())
    }
}

impl View for State {
    type V = StateV;

    open spec fn view(&self) -> StateV {
        StateV {
            scopes: scopes_view(self.scopes@),
            out: self.output@.map_values(|l: Vec<char>| l@),
        }
    }
}

pub proof fn lemma_scopes_view_len(s: Seq<Scope>)
    ensures
        scopes_view(s).len() == s.len(),
    decreases s,
{
    if s.len() > 0 {
        lemma_scopes_view_len(s.drop_first());
    }
}

pub proof fn lemma_scopes_view_index(s: Seq<Scope>, i: int)
    requires
        0 <= i < s.len(),
    ensures
        scopes_view(s).len() == s.len(),
        scopes_view(s)[i] == scope_view(s[i].vars@),
    decreases s,
{
    lemma_scopes_view_len(s);
    if i > 0 {
        lemma_scopes_view_index(s.drop_first(), i - 1);
    }
}

pub proof fn lemma_scopes_view_push(s: Seq<Scope>, p: Scope)
    ensures
        scopes_view(s.push(p)) == scopes_view(s).push(scope_view(p.vars@)),
    decreases s,
{
    if s.len() == 0 {
        assert(s.push(p).drop_first() =~= Seq::<Scope>::empty());
        assert(s.push(p)[0] == p);
        assert(scopes_view(s.push(p)) == seq![scope_view(p.vars@)] + scopes_view(
            s.push(p).drop_first(),
        ));
        assert(scopes_view(Seq::<Scope>::empty()) =~= Seq::<ScopeV>::empty());
        assert(scopes_view(s.push(p)) =~= scopes_view(s).push(scope_view(p.vars@)));
    } else {
        assert(s.push(p).drop_first() =~= s.drop_first().push(p));
        lemma_scopes_view_push(s.drop_first(), p);
        assert(scopes_view(s.push(p)) =~= scopes_view(s).push(scope_view(p.vars@)));
    }
}

pub proof fn lemma_stmts_view_pointwise(x: Seq<Stmt>, y: Seq<Stmt>)
    requires
        x.len() == y.len(),
        forall|k: int| 0 <= k < x.len() ==> stmt_view(#[trigger] x[k]) == stmt_view(y[k]),
    ensures
        stmts_view(x) == stmts_view(y),
    decreases x,
{
    if x.len() > 0 {
        assert forall|k: int| 0 <= k < x.drop_first().len() implies stmt_view(
            #[trigger] x.drop_first()[k],
        ) == stmt_view(y.drop_first()[k]) by {
            assert(x.drop_first()[k] == x[k + 1]);
            assert(y.drop_first()[k] == y[k + 1]);
        }
        lemma_stmts_view_pointwise(x.drop_first(), y.drop_first());
        assert(stmts_view(x) =~= stmts_view(y));
    } else {
        assert(stmts_view(x) =~= stmts_view(y));
    }
}

/// A copy of a declaration, equal in the model.
pub fn clone_declaration(d: &Declaration) -> (r: Declaration)
    ensures
        r@ == d@,
    decreases *d,
{
    proof {
        assert(decreases_to!(*d => d.rhs));
    }
    Declaration {
        lhs: crate::text::clone_chars(&d.lhs),
        rhs: crate::parser::clone_s(&d.rhs),
        alias: d.alias,
        plus_or_minus: d.plus_or_minus,
    }
}

/// A copy of a statement, equal in the model.
pub fn clone_stmt(s: &Stmt) -> (r: Stmt)
    ensures
        r@ == s@,
    decreases *s,
{
    match s {
        Stmt::ExprStmt(e) => {
            proof {
                assert(decreases_to!(*s => *e));
            }
            Stmt::ExprStmt(crate::parser::clone_s(e))
        },
        Stmt::PrintStmt(e) => {
            proof {
                assert(decreases_to!(*s => *e));
            }
            Stmt::PrintStmt(crate::parser::clone_s(e))
        },
        Stmt::Dec(d) => {
            proof {
                assert(decreases_to!(*s => *d));
            }
            Stmt::Dec(clone_declaration(d))
        },
        Stmt::IfStmt(i) => {
            proof {
                assert(decreases_to!(*s => *i));
                assert(decreases_to!(*i => i.cond));
                assert(decreases_to!(*i => i.then_block));
                assert(decreases_to!(*i => i.else_block));
            }
            Stmt::IfStmt(If {
                cond: crate::parser::clone_s(&i.cond),
                then_block: crate::block::clone_block(&i.then_block),
                else_block: crate::block::clone_block(&i.else_block),
            })
        },
        Stmt::WhileStmt(w) => {
            proof {
                assert(decreases_to!(*s => *w));
                assert(decreases_to!(*w => w.cond));
                assert(decreases_to!(*w => w.loop_block));
            }
            Stmt::WhileStmt(While {
                cond: crate::parser::clone_s(&w.cond),
                loop_block: crate::block::clone_block(&w.loop_block),
            })
        },
        Stmt::Block(b) => {
            proof {
                assert(decreases_to!(*s => *b));
            }
            Stmt::Block(crate::block::clone_block(b))
        },
        Stmt::Break => Stmt::Break,
    }
}

/// The first position at or after `i` that binds `name`, or -1.
pub open spec fn scope_find(sc: ScopeV, name: Seq<char>, i: int) -> int
    decreases sc.len() - i,
{
    if i < 0 || i >= sc.len() {
        -1
    } else if sc[i].0 == name {
        i
    } else {
        scope_find(sc, name, i + 1)
    }
}

/// The value `name` is bound to in one scope, if any.
pub open spec fn scope_lookup(sc: ScopeV, name: Seq<char>) -> Option<AtomV> {
    let j = scope_find(sc, name, 0);
    if j == -1 {
        Option::None
    } else {
        Option::Some(sc[j].1)
    }
}

/// One scope with `name` bound to `v`: an existing binding is
/// replaced in place, a new one appended.
pub open spec fn scope_set(sc: ScopeV, name: Seq<char>, v: AtomV) -> ScopeV {
    let j = scope_find(sc, name, 0);
    if j == -1 {
        sc.push((name, v))
    } else {
        sc.update(j, (name, v))
    }
}

/// The value of `name`, searching the top `i` scopes innermost
/// (last) first.
pub open spec fn lookup_down(scopes: Seq<ScopeV>, name: Seq<char>, i: int) -> Option<AtomV>
    decreases i,
{
    if i <= 0 || i > scopes.len() {
        Option::None
    } else {
        match scope_lookup(scopes[i - 1], name) {
            Option::Some(v) => Option::Some(v),
            Option::None => lookup_down(scopes, name, i - 1),
        }
    }
}

/// The value of `name`: innermost binding wins.
pub open spec fn lookup(scopes: Seq<ScopeV>, name: Seq<char>) -> Option<AtomV> {
    lookup_down(scopes, name, scopes.len() as int)
}

/// The scope stack with the nearest binding of `name` (searching the
/// top `i` scopes, innermost first) replaced by `v`; unchanged when
/// none of them binds `name`.
pub open spec fn set_existing_down(
    scopes: Seq<ScopeV>,
    name: Seq<char>,
    v: AtomV,
    i: int,
) -> Seq<ScopeV>
    decreases i,
{
    if i <= 0 || i > scopes.len() {
        scopes
    } else if scope_lookup(scopes[i - 1], name) is Some {
        scopes.update(i - 1, scope_set(scopes[i - 1], name, v))
    } else {
        set_existing_down(scopes, name, v, i - 1)
    }
}

/// The scope stack with `name` bound to `v` in the innermost scope;
/// with no scope open, a fresh one is opened for it.
pub open spec fn bind_innermost(scopes: Seq<ScopeV>, name: Seq<char>, v: AtomV) -> Seq<ScopeV> {
    if scopes.len() == 0 {
        seq![seq![(name, v)]]
    } else {
        scopes.update(scopes.len() - 1, scope_set(scopes.last(), name, v))
    }
}

/// The first position at or after `i` of `name` in the scope's pairs.
fn vars_find(vars: &Vec<(Vec<char>, Atom)>, name: &Vec<char>, i: usize) -> (r: Option<usize>)
    requires
        i <= vars@.len(),
    ensures
        ({
            let j = scope_find(scope_view(vars@), name@, i as int);
            match r {
                Option::Some(k) => j == k && k < vars@.len(),
                Option::None => j == -1,
            }
        }),
    decreases vars@.len() - i,
{
    proof {
        lemma_scope_view_len(vars@);
    }
    if i >= vars.len() {
        return Option::None;
    }
    proof {
        lemma_scope_view_index(vars@, i as int);
    }
    if chars_eq(&vars[i].0, name) {
        return Option::Some(i);
    }
    vars_find(vars, name, i + 1)
}

impl State {
    /// The value bound to `name`, from the innermost scope that binds
    /// it; `None` when no scope does.
    pub fn get_variable(&self, name: &Vec<char>) -> (r: Option<Atom>)
        ensures
            ({
                let sp = lookup(self@.scopes, name@);
                match r {
                    Option::Some(v) => sp == Option::Some(atom_view(v)),
                    Option::None => sp is None,
                }
            }),
    {
        proof {
            lemma_scopes_view_len(self.scopes@);
        }
        let mut i: usize = self.scopes.len();
        while i > 0
            invariant
                i <= self.scopes@.len(),
                scopes_view(self.scopes@).len() == self.scopes@.len(),
                lookup(self@.scopes, name@) == lookup_down(self@.scopes, name@, i as int),
            decreases i,
        {
            proof {
                lemma_scopes_view_index(self.scopes@, i as int - 1);
            }
            let found = vars_find(&self.scopes[i - 1].vars, name, 0);
            match found {
                Option::Some(k) => {
                    proof {
                        lemma_scope_view_index(self.scopes@[i as int - 1].vars@, k as int);
                    }
                    return Option::Some(clone_atom(&self.scopes[i - 1].vars[k].1));
                },
                Option::None => {},
            }
            i = i - 1;
        }
        Option::None
    }

    /// Bind `name` to `v` in the innermost scope, shadowing any outer
    /// binding of the same name.
    pub fn bind(&mut self, name: Vec<char>, v: Atom)
        ensures
            final(self)@.scopes == bind_innermost(old(self)@.scopes, name@, atom_view(v)),
            final(self)@.out == old(self)@.out,
    {
        proof {
            lemma_scopes_view_len(self.scopes@);
        }
        let n = self.scopes.len();
        if n == 0 {
            let vars: Vec<(Vec<char>, Atom)> = vec![(name, v)];
            let ghost p = vars@[0];
            let sc = Scope { vars };
            proof {
                assert(sc.vars@.len() == 1);
                assert(sc.vars@.drop_first() =~= Seq::<(Vec<char>, Atom)>::empty());
                assert(scope_view(Seq::<(Vec<char>, Atom)>::empty()) =~= Seq::<
                    (Seq<char>, AtomV),
                >::empty());
                assert(scope_view(sc.vars@) =~= seq![(p.0@, atom_view(p.1))]);
                lemma_scopes_view_push(old(self).scopes@, sc);
                assert(scopes_view(old(self).scopes@) =~= Seq::<ScopeV>::empty());
            }
            self.scopes.push(sc);
            proof {
                assert(self@.scopes =~= bind_innermost(old(self)@.scopes, p.0@, atom_view(p.1)));
                assert(self@.out =~= old(self)@.out);
            }
            return;
        }
        proof {
            lemma_scopes_view_index(self.scopes@, n as int - 1);
        }
        let mut sc = self.scopes.remove(n - 1);
        let ghost removed = self.scopes@;
        let found = vars_find(&sc.vars, &name, 0);
        let ghost oldsc = scope_view(sc.vars@);
        match found {
            Option::Some(k) => {
                proof {
                    lemma_scope_view_len(sc.vars@);
                }
                sc.vars.set(k, (name, v));
                proof {
                    lemma_scope_view_len(sc.vars@);
                    assert forall|j: int| 0 <= j < sc.vars@.len() implies scope_view(sc.vars@)[j]
                        == scope_set(oldsc, name@, atom_view(v))[j] by {
                        lemma_scope_view_index(sc.vars@, j);
                        if j != k {
                            lemma_scope_view_index(old(self).scopes@[n - 1].vars@, j);
                        }
                    }
                    assert(scope_view(sc.vars@) =~= scope_set(oldsc, name@, atom_view(v)));
                }
            },
            Option::None => {
                proof {
                    lemma_scope_view_push(sc.vars@, (name, v));
                }
                sc.vars.push((name, v));
                proof {
                    assert(scope_view(sc.vars@) =~= scope_set(oldsc, name@, atom_view(v)));
                }
            },
        }
        proof {
            lemma_scopes_view_push(removed, sc);
        }
        self.scopes.push(sc);
        proof {
            lemma_scopes_view_len(old(self).scopes@);
            lemma_scopes_view_len(self.scopes@);
            assert(self.scopes@.len() == n);
            assert forall|j: int| 0 <= j < self.scopes@.len() implies scopes_view(self.scopes@)[j]
                == bind_innermost(old(self)@.scopes, name@, atom_view(v))[j] by {
                lemma_scopes_view_index(self.scopes@, j);
                if j < n - 1 {
                    lemma_scopes_view_index(old(self).scopes@, j);
                    assert(self.scopes@[j] == old(self).scopes@[j]);
                } else {
                    lemma_scopes_view_index(old(self).scopes@, n as int - 1);
                }
            }
            assert(scopes_view(self.scopes@) =~= bind_innermost(
                old(self)@.scopes,
                name@,
                atom_view(v),
            ));
            assert(self@.out =~= old(self)@.out);
        }
    }

    /// Replace the nearest existing binding of `name` with `v`.  The
    /// caller has checked that one exists.
    pub fn set_existing(&mut self, name: &Vec<char>, v: Atom)
        ensures
            final(self)@.scopes == set_existing_down(
                old(self)@.scopes,
                name@,
                atom_view(v),
                old(self)@.scopes.len() as int,
            ),
            final(self)@.out == old(self)@.out,
    {
        proof {
            lemma_scopes_view_len(self.scopes@);
        }
        let n = self.scopes.len();
        let mut i: usize = n;
        while i > 0
            invariant
                i <= n,
                n == self.scopes@.len(),
                self.scopes@ == old(self).scopes@,
                self.output@ == old(self).output@,
                scopes_view(self.scopes@).len() == n,
                set_existing_down(old(self)@.scopes, name@, atom_view(v), n as int)
                    == set_existing_down(old(self)@.scopes, name@, atom_view(v), i as int),
            decreases i,
        {
            proof {
                lemma_scopes_view_index(self.scopes@, i as int - 1);
            }
            let found = vars_find(&self.scopes[i - 1].vars, name, 0);
            match found {
                Option::Some(k) => {
                    let ghost oldscopes = self.scopes@;
                    let ghost oldsc = scope_view(self.scopes@[i as int - 1].vars@);
                    let name2 = clone_chars(name);
                    let mut sc = self.scopes.remove(i - 1);
                    proof {
                        lemma_scope_view_len(sc.vars@);
                    }
                    sc.vars.set(k, (name2, v));
                    proof {
                        lemma_scope_view_len(sc.vars@);
                        assert forall|j: int| 0 <= j < sc.vars@.len() implies scope_view(
                            sc.vars@,
                        )[j] == scope_set(oldsc, name@, atom_view(v))[j] by {
                            lemma_scope_view_index(sc.vars@, j);
                            if j != k {
                                lemma_scope_view_index(oldscopes[i as int - 1].vars@, j);
                            }
                        }
                        assert(scope_view(sc.vars@) =~= scope_set(oldsc, name@, atom_view(v)));
                    }
                    self.scopes.insert(i - 1, sc);
                    proof {
                        assert(self.scopes@ =~= oldscopes.update(i as int - 1, self.scopes@[i as int - 1]));
                        lemma_scopes_view_len(self.scopes@);
                        assert(set_existing_down(
                            old(self)@.scopes,
                            name@,
                            atom_view(v),
                            i as int,
                        ).len() == n);
                        assert forall|j: int| 0 <= j < self.scopes@.len() implies scopes_view(
                            self.scopes@,
                        )[j] == set_existing_down(
                            old(self)@.scopes,
                            name@,
                            atom_view(v),
                            i as int,
                        )[j] by {
                            lemma_scopes_view_index(self.scopes@, j);
                            if j != i - 1 {
                                lemma_scopes_view_index(oldscopes, j);
                            }
                        }
                        assert(scopes_view(self.scopes@) =~= set_existing_down(
                            old(self)@.scopes,
                            name@,
                            atom_view(v),
                            i as int,
                        ));
                        assert(self@.out =~= old(self)@.out);
                    }
                    return;
                },
                Option::None => {},
            }
            i = i - 1;
        }
        proof {
            assert(self@.scopes =~= set_existing_down(
                old(self)@.scopes,
                name@,
                atom_view(v),
                0,
            ));
            assert(self@.out =~= old(self)@.out);
        }
    }
}

pub proof fn lemma_scopes_view_drop_last(s: Seq<Scope>)
    requires
        s.len() > 0,
    ensures
        scopes_view(s).len() == s.len(),
        scopes_view(s.drop_last()) == scopes_view(s).drop_last(),
{
    lemma_scopes_view_len(s);
    lemma_scopes_view_len(s.drop_last());
    assert forall|i: int| 0 <= i < s.len() - 1 implies scopes_view(s.drop_last())[i] == scopes_view(
        s,
    ).drop_last()[i] by {
        lemma_scopes_view_index(s.drop_last(), i);
        lemma_scopes_view_index(s, i);
    }
    assert(scopes_view(s.drop_last()) =~= scopes_view(s).drop_last());
}

proof fn lemma_scope_find_bounds(sc: ScopeV, name: Seq<char>, i: int)
    requires
        0 <= i <= sc.len(),
    ensures
        scope_find(sc, name, i) == -1 || (i <= scope_find(sc, name, i) < sc.len()
            && sc[scope_find(sc, name, i)].0 == name),
    decreases sc.len() - i,
{
    if i < sc.len() && sc[i].0 != name {
        lemma_scope_find_bounds(sc, name, i + 1);
    }
}

/// A fresh binding shadows: after binding `name` to `v` in the
/// innermost scope, `name` resolves to `v`.
pub proof fn lemma_bind_shadows(scopes: Seq<ScopeV>, name: Seq<char>, v: AtomV)
    ensures
        lookup(bind_innermost(scopes, name, v), name) == Option::Some(v),
{
    let scopes2 = bind_innermost(scopes, name, v);
    if scopes.len() == 0 {
        lemma_scope_set_lookup_same(Seq::empty(), name, v);
        assert(Seq::<(Seq<char>, AtomV)>::empty().push((name, v)) =~= seq![(name, v)]);
        assert(scopes2[0] == seq![(name, v)]);
        assert(scope_lookup(scopes2[0], name) == Option::Some(v));
        assert(lookup_down(scopes2, name, 1) == Option::Some(v));
    } else {
        lemma_scope_set_lookup_same(scopes.last(), name, v);
        assert(scopes2[scopes2.len() - 1] == scope_set(scopes.last(), name, v));
        assert(lookup_down(scopes2, name, scopes2.len() as int) == Option::Some(v));
    }
}

/// A fresh binding shadows, not destroys: binding `name` changes the
/// resolution of no other name.
pub proof fn lemma_bind_preserves_others(
    scopes: Seq<ScopeV>,
    name: Seq<char>,
    v: AtomV,
    m: Seq<char>,
)
    requires
        m != name,
    ensures
        lookup(bind_innermost(scopes, name, v), m) == lookup(scopes, m),
{
    if scopes.len() == 0 {
        lemma_scope_set_lookup_other(Seq::empty(), name, v, m);
        let scopes2 = bind_innermost(scopes, name, v);
        assert(Seq::<(Seq<char>, AtomV)>::empty().push((name, v)) =~= seq![(name, v)]);
        assert(scope_lookup(scopes2[0], m) == scope_lookup(Seq::empty(), m));
        assert(scope_find(Seq::<(Seq<char>, AtomV)>::empty(), m, 0) == -1);
        assert(lookup_down(scopes2, m, 0) is None);
        assert(lookup_down(scopes2, m, 1) is None);
    } else {
        let scopes2 = bind_innermost(scopes, name, v);
        lemma_scope_set_lookup_other(scopes.last(), name, v, m);
        assert forall|j: int| 0 <= j < scopes.len() implies scope_lookup(#[trigger] scopes[j], m)
            == scope_lookup(scopes2[j], m) by {
            if j == scopes.len() - 1 {
                assert(scopes2[j] == scope_set(scopes.last(), name, v));
            } else {
                assert(scopes2[j] == scopes[j]);
            }
        }
        lemma_lookup_down_frame(scopes2, scopes, m, scopes.len() as int);
    }
}

/// Destroying the innermost scope restores the outer bindings: a
/// lookup after push-then-pop is the lookup before.
pub proof fn lemma_scope_restored(scopes: Seq<ScopeV>, sc: ScopeV, m: Seq<char>)
    ensures
        scopes.push(sc).drop_last() == scopes,
        lookup(scopes.push(sc).drop_last(), m) == lookup(scopes, m),
{
    assert(scopes.push(sc).drop_last() =~= scopes);
}

proof fn lemma_lookup_down_frame(a: Seq<ScopeV>, b: Seq<ScopeV>, m: Seq<char>, i: int)
    requires
        a.len() == b.len(),
        i <= a.len(),
        forall|j: int| 0 <= j < a.len() ==> scope_lookup(#[trigger] a[j], m) == scope_lookup(b[j], m),
    ensures
        lookup_down(a, m, i) == lookup_down(b, m, i),
    decreases i,
{
    if !(i <= 0 || i > a.len()) {
        lemma_lookup_down_frame(a, b, m, i - 1);
    }
}

/// Looking up the name just set in a scope yields the new value.
proof fn lemma_scope_set_lookup_same(sc: ScopeV, name: Seq<char>, v: AtomV)
    ensures
        scope_lookup(scope_set(sc, name, v), name) == Option::Some(v),
{
    lemma_scope_find_bounds(sc, name, 0);
    let j = scope_find(sc, name, 0);
    if j == -1 {
        lemma_find_in_pushed(sc, name, v, 0);
        assert(sc.push((name, v))[sc.len() as int] == (name, v));
    } else {
        lemma_find_in_updated_same(sc, name, v, j, 0);
        assert(sc.update(j, (name, v))[j] == (name, v));
    }
}

proof fn lemma_find_in_pushed(sc: ScopeV, name: Seq<char>, v: AtomV, i: int)
    requires
        0 <= i <= sc.len(),
        scope_find(sc, name, i) == -1,
    ensures
        scope_find(sc.push((name, v)), name, i) == sc.len(),
    decreases sc.len() - i,
{
    if i < sc.len() {
        lemma_find_in_pushed(sc, name, v, i + 1);
    }
}

proof fn lemma_find_in_updated_same(sc: ScopeV, name: Seq<char>, v: AtomV, j: int, i: int)
    requires
        0 <= i <= j < sc.len(),
        sc[j].0 == name,
        scope_find(sc, name, i) == j,
    ensures
        scope_find(sc.update(j, (name, v)), name, i) == j,
    decreases sc.len() - i,
{
    if i < j {
        assert(sc[i].0 != name);
        lemma_find_in_updated_same(sc, name, v, j, i + 1);
    }
}

/// Setting one name leaves every other name's resolution unchanged.
proof fn lemma_scope_set_lookup_other(sc: ScopeV, name: Seq<char>, v: AtomV, m: Seq<char>)
    requires
        m != name,
    ensures
        scope_lookup(scope_set(sc, name, v), m) == scope_lookup(sc, m),
{
    lemma_scope_find_bounds(sc, name, 0);
    let j = scope_find(sc, name, 0);
    if j == -1 {
        lemma_find_other_pushed(sc, name, v, m, 0);
        if scope_find(sc, m, 0) != -1 {
            lemma_scope_find_bounds(sc, m, 0);
        }
    } else {
        lemma_find_other_updated(sc, (name, v), j, m, 0);
        let idx = scope_find(sc, m, 0);
        if idx != -1 {
            lemma_scope_find_bounds(sc, m, 0);
            assert(sc[idx].0 == m);
            assert(idx != j);
            assert(sc.update(j, (name, v))[idx] == sc[idx]);
        }
    }
}

proof fn lemma_find_other_pushed(sc: ScopeV, name: Seq<char>, v: AtomV, m: Seq<char>, i: int)
    requires
        0 <= i <= sc.len(),
        m != name,
    ensures
        scope_find(sc.push((name, v)), m, i) == scope_find(sc, m, i),
    decreases sc.len() - i,
{
    if i < sc.len() {
        assert(sc.push((name, v))[i] == sc[i]);
        if sc[i].0 != m {
            lemma_find_other_pushed(sc, name, v, m, i + 1);
        }
    } else {
        assert(sc.push((name, v))[i] == (name, v));
        assert(scope_find(sc.push((name, v)), m, i + 1) == -1);
    }
}

proof fn lemma_find_other_updated(sc: ScopeV, p: (Seq<char>, AtomV), j: int, m: Seq<char>, i: int)
    requires
        0 <= i <= sc.len(),
        0 <= j < sc.len(),
        m != p.0,
        sc[j].0 == p.0,
    ensures
        scope_find(sc.update(j, p), m, i) == scope_find(sc, m, i),
    decreases sc.len() - i,
{
    if i < sc.len() && sc.update(j, p)[i].0 != m {
        lemma_find_other_updated(sc, p, j, m, i + 1);
    }
}

/// At most one binding per name per scope.
pub open spec fn unique_keys(sc: ScopeV) -> bool {
    forall|j: int, k: int| 0 <= j < k < sc.len() ==> (#[trigger] sc[j]).0 != (#[trigger] sc[k]).0
}

proof fn lemma_find_none_means_absent(sc: ScopeV, name: Seq<char>, i: int)
    requires
        0 <= i <= sc.len(),
        scope_find(sc, name, i) == -1,
    ensures
        forall|k: int| i <= k < sc.len() ==> (#[trigger] sc[k]).0 != name,
    decreases sc.len() - i,
{
    if i < sc.len() {
        lemma_find_none_means_absent(sc, name, i + 1);
    }
}

/// Binding a name in a scope keeps its keys unique: an existing
/// binding is replaced in place, and a new name is appended only
/// when no pair holds it yet.
pub proof fn lemma_scope_set_unique(sc: ScopeV, name: Seq<char>, v: AtomV)
    requires
        unique_keys(sc),
    ensures
        unique_keys(scope_set(sc, name, v)),
{
    lemma_scope_find_bounds(sc, name, 0);
    let j = scope_find(sc, name, 0);
    if j == -1 {
        lemma_find_none_means_absent(sc, name, 0);
        let sc2 = sc.push((name, v));
        assert forall|a: int, b: int| 0 <= a < b < sc2.len() implies (#[trigger] sc2[a]).0 != (
        #[trigger] sc2[b]).0 by {
            if b < sc.len() {
                assert(sc2[a] == sc[a] && sc2[b] == sc[b]);
            } else {
                assert(sc2[a] == sc[a] && sc2[b] == (name, v));
            }
        }
    } else {
        let sc2 = sc.update(j, (name, v));
        assert forall|a: int, b: int| 0 <= a < b < sc2.len() implies (#[trigger] sc2[a]).0 != (
        #[trigger] sc2[b]).0 by {
            if a != j && b != j {
                assert(sc2[a] == sc[a] && sc2[b] == sc[b]);
            } else if a == j {
                assert(sc2[a].0 == sc[j].0 && sc2[b] == sc[b]);
            } else {
                assert(sc2[b].0 == sc[j].0 && sc2[a] == sc[a]);
            }
        }
    }
}

proof fn lemma_set_existing_down_frame(scopes: Seq<ScopeV>, name: Seq<char>, v: AtomV, i: int)
    ensures
        set_existing_down(scopes, name, v, i).len() == scopes.len(),
        forall|k: int|
            i <= k < scopes.len() ==> #[trigger] set_existing_down(scopes, name, v, i)[k]
                == scopes[k],
    decreases i,
{
    lemma_set_existing_down_len(scopes, name, v, i);
    if !(i <= 0 || i > scopes.len()) && !(scope_lookup(scopes[i - 1], name) is Some) {
        lemma_set_existing_down_frame(scopes, name, v, i - 1);
    }
}

/// Replacing the nearest binding of `name` makes `name` resolve to
/// the new value, provided some scope in reach binds it.
pub proof fn lemma_set_existing_lookup(scopes: Seq<ScopeV>, name: Seq<char>, v: AtomV, i: int)
    requires
        0 <= i <= scopes.len(),
        lookup_down(scopes, name, i) is Some,
    ensures
        lookup_down(set_existing_down(scopes, name, v, i), name, i) == Option::Some(v),
    decreases i,
{
    lemma_set_existing_down_len(scopes, name, v, i);
    if i > 0 {
        if scope_lookup(scopes[i - 1], name) is Some {
            let scopes2 = set_existing_down(scopes, name, v, i);
            lemma_scope_set_lookup_same(scopes[i - 1], name, v);
            assert(scopes2[i - 1] == scope_set(scopes[i - 1], name, v));
        } else {
            lemma_set_existing_lookup(scopes, name, v, i - 1);
            lemma_set_existing_down_frame(scopes, name, v, i - 1);
            let scopes2 = set_existing_down(scopes, name, v, i);
            assert(scopes2 == set_existing_down(scopes, name, v, i - 1));
            assert(scopes2[i - 1] == scopes[i - 1]);
        }
    }
}

pub proof fn lemma_set_existing_down_len(scopes: Seq<ScopeV>, name: Seq<char>, v: AtomV, i: int)
    ensures
        set_existing_down(scopes, name, v, i).len() == scopes.len(),
    decreases i,
{
    if !(i <= 0 || i > scopes.len()) && !(scope_lookup(scopes[i - 1], name) is Some) {
        lemma_set_existing_down_len(scopes, name, v, i - 1);
    }
}

impl Default for State {
    /// A state with one empty global scope and no output.
    fn default() -> (r: State)
        ensures
            r@.scopes == seq![Seq::<(Seq<char>, AtomV)>::empty()],
            r@.out == Seq::<Seq<char>>::empty(),
    {
        let scopes: Vec<Scope> = vec![Scope { vars: Vec::new() }];
        let output: Vec<Vec<char>> = Vec::new();
        let r = State { scopes, output };
        proof {
            lemma_scopes_view_len(r.scopes@);
            lemma_scopes_view_index(r.scopes@, 0);
            assert(scope_view(r.scopes@[0].vars@) =~= Seq::<(Seq<char>, AtomV)>::empty());
            assert(r@.scopes =~= seq![Seq::<(Seq<char>, AtomV)>::empty()]);
            assert(r@.out =~= Seq::<Seq<char>>::empty());
        }
        r
    }
}

} // verus!
