//! Expression trees, the token cursor, and the parsers.
//!
//! Expressions are parsed by precedence climbing: a left operand is
//! extended with postfix and infix operators for as long as their
//! binding power is at least the minimum the caller asked for.
use vstd::prelude::*;

use crate::atom::{Atom, AtomV, FunctionCall, FunctionCallV, FunctionDataV, atom_view, fncall_view};
use crate::block::{Block, BlockV};
use crate::statement::{Declaration, DeclarationV, Stmt, StmtV, stmt_view};
use crate::token::{Token, TokenType, TokenTypeV, TokenV, token_view, tokens_view};
use crate::Error;

pub mod assignment_parse;
pub mod fn_parse;
pub mod for_parse;
pub mod ident_parse;
pub mod if_parse;
pub mod while_parse;

verus! {

/// An expression tree.
#[derive(Debug)]
pub enum S {
    /// A literal value.
    Atom(Atom),
    /// A name to resolve against the scope stack.
    Identifier(Vec<char>),
    /// A call of a named function.
    FnCall(FunctionCall),
    /// An array literal; the elements are evaluated eagerly, in order.
    ArrayLit(Vec<S>),
    /// A prefix operator applied to one operand.
    Unary(Op, Box<S>),
    /// An infix or indexing operator applied to two operands.
    Binary(Op, Box<S>, Box<S>),
}

/// An operator of the language.
#[derive(Clone, Copy, Debug, PartialEq, Eq, Structural)]
pub enum Op {
    Plus,
    PlusAssign,
    Minus,
    MinusAssign,
    Negate,
    Multiply,
    Divide,
    Less,
    Equal,
    Greater,
    NotEqual,
    Mod,
    And,
    Or,
    Indexing,
    Access,
}

/// The mathematical model of an expression tree.
#[verifier::ext_equal]
pub enum SV {
    Atom(AtomV),
    Identifier(Seq<char>),
    FnCall(FunctionCallV),
    ArrayLit(Seq<SV>),
    Unary(Op, Box<SV>),
    Binary(Op, Box<SV>, Box<SV>),
}

pub open spec fn s_view(s: S) -> SV
    decreases s,
{
    match s {
        S::Atom(a) => SV::Atom(atom_view(a)),
        S::Identifier(n) => SV::Identifier(n@),
        S::FnCall(f) => SV::FnCall(fncall_view(f)),
        S::ArrayLit(v) => SV::ArrayLit(ss_view(v@)),
        S::Unary(op, a) => SV::Unary(op, Box::new(s_view(*a))),
        S::Binary(op, a, b) => SV::Binary(op, Box::new(s_view(*a)), Box::new(s_view(*b))),
    }
}

pub open spec fn ss_view(s: Seq<S>) -> Seq<SV>
    decreases s,
{
    if s.len() == 0 {
        Seq::empty()
    } else {
        seq![s_view(s[0])] + ss_view(s.drop_first())
    }
}

impl View for S {
    type V = SV;

    open spec fn view(&self) -> SV {
        s_view(*self)
    }
}

pub proof fn lemma_ss_view_len(s: Seq<S>)
    ensures
        ss_view(s).len() == s.len(),
    decreases s,
{
    if s.len() > 0 {
        lemma_ss_view_len(s.drop_first());
    }
}

pub proof fn lemma_ss_view_index(s: Seq<S>, i: int)
    requires
        0 <= i < s.len(),
    ensures
        ss_view(s).len() == s.len(),
        ss_view(s)[i] == s_view(s[i]),
    decreases s,
{
    lemma_ss_view_len(s);
    if i > 0 {
        lemma_ss_view_index(s.drop_first(), i - 1);
    }
}

pub proof fn lemma_ss_view_push(s: Seq<S>, a: S)
    ensures
        ss_view(s.push(a)) == ss_view(s).push(s_view(a)),
    decreases s,
{
    if s.len() == 0 {
        assert(s.push(a).drop_first() =~= Seq::<S>::empty());
        assert(s.push(a)[0] == a);
        assert(ss_view(s.push(a)) == seq![s_view(a)] + ss_view(s.push(a).drop_first()));
        assert(ss_view(Seq::<S>::empty()) =~= Seq::<SV>::empty());
        assert(ss_view(s.push(a)) =~= ss_view(s).push(s_view(a)));
    } else {
        assert(s.push(a).drop_first() =~= s.drop_first().push(a));
        lemma_ss_view_push(s.drop_first(), a);
        assert(ss_view(s.push(a)) =~= ss_view(s).push(s_view(a)));
    }
}

pub proof fn lemma_ss_view_pointwise(x: Seq<S>, y: Seq<S>)
    requires
        x.len() == y.len(),
        forall|k: int| 0 <= k < x.len() ==> s_view(#[trigger] x[k]) == s_view(y[k]),
    ensures
        ss_view(x) == ss_view(y),
    decreases x,
{
    if x.len() > 0 {
        assert forall|k: int| 0 <= k < x.drop_first().len() implies s_view(
            #[trigger] x.drop_first()[k],
        ) == s_view(y.drop_first()[k]) by {
            assert(x.drop_first()[k] == x[k + 1]);
            assert(y.drop_first()[k] == y[k + 1]);
        }
        lemma_ss_view_pointwise(x.drop_first(), y.drop_first());
        assert(ss_view(x) =~= ss_view(y));
    } else {
        assert(ss_view(x) =~= ss_view(y));
    }
}

/// A copy of an expression tree, equal in the model.
pub fn clone_s(e: &S) -> (r: S)
    ensures
        r@ == e@,
    decreases *e,
{
    match e {
        S::Atom(a) => {
            proof {
                assert(decreases_to!(*e => *a));
            }
            S::Atom(crate::atom::clone_atom(a))
        },
        S::Identifier(n) => S::Identifier(crate::text::clone_chars(n)),
        S::FnCall(f) => {
            proof {
                assert(decreases_to!(*e => *f));
            }
            S::FnCall(crate::atom::clone_fncall(f))
        },
        S::ArrayLit(v) => {
            let mut out: Vec<S> = Vec::new();
            let mut j: usize = 0;
            while j < v.len()
                invariant
                    j <= v@.len(),
                    out@.len() == j,
                    forall|k: int| 0 <= k < j ==> s_view(#[trigger] out@[k]) == s_view(v@[k]),
                decreases v@.len() - j,
            {
                proof {
                    assert(decreases_to!(*e => *v));
                    assert(decreases_to!(*v => v@[j as int]));
                }
                let c = clone_s(&v[j]);
                out.push(c);
                j = j + 1;
            }
            proof {
                lemma_ss_view_pointwise(out@, v@);
            }
            S::ArrayLit(out)
        },
        S::Unary(op, x) => {
            proof {
                assert(decreases_to!(*e => **x));
            }
            S::Unary(*op, Box::new(clone_s(x)))
        },
        S::Binary(op, x, y) => {
            proof {
                assert(decreases_to!(*e => **x));
                assert(decreases_to!(*e => **y));
            }
            S::Binary(*op, Box::new(clone_s(x)), Box::new(clone_s(y)))
        },
    }
}

proof fn lemma_view_bool_atom(b: bool)
    ensures
        s_view(S::Atom(Atom::Bool(b))) == SV::Atom(AtomV::Bool(b)),
{
    assert(atom_view(Atom::Bool(b)) == AtomV::Bool(b));
    assert(s_view(S::Atom(Atom::Bool(b))) == SV::Atom(AtomV::Bool(b)));
}

proof fn lemma_view_fncall(f: FunctionCall)
    ensures
        s_view(S::FnCall(f)) == SV::FnCall(FunctionCallV { name: f.name@, args: ss_view(f.args@) }),
{
    assert(fncall_view(f) == (FunctionCallV { name: f.name@, args: ss_view(f.args@) }));
    assert(s_view(S::FnCall(f)) == SV::FnCall(fncall_view(f)));
}

/// A cursor over the token stream.  The tokens are held in reverse:
/// the next token to read is the last element of `tokens`.
pub struct Lexer {
    pub tokens: Vec<Token>,
}

impl View for Lexer {
    type V = Seq<TokenV>;

    /// The tokens still to read, next token last.
    open spec fn view(&self) -> Seq<TokenV> {
        tokens_view(self.tokens@)
    }
}

impl Lexer {
    /// A cursor over `tokens`, which are given in reading order.
    pub fn new(mut tokens: Vec<Token>) -> (r: Lexer)
        ensures
            r@ == tokens_view(tokens@).reverse(),
    {
        let ghost orig = tokens@;
        let mut rev: Vec<Token> = Vec::new();
        proof {
            assert(orig =~= tokens@ + rev@.reverse());
        }
        while tokens.len() > 0
            invariant
                orig == tokens@ + rev@.reverse(),
            decreases tokens.len(),
        {
            let ghost pre = tokens@;
            let t = tokens.pop().unwrap();
            rev.push(t);
            proof {
                assert(rev@.reverse() =~= seq![t] + rev@.drop_last().reverse());
                assert(orig =~= tokens@ + rev@.reverse());
            }
        }
        proof {
            assert(orig =~= rev@.reverse());
            assert(rev@ =~= orig.reverse());
            crate::token::lemma_tokens_view_reverse(orig);
        }
        Lexer { tokens: rev }
    }

    /// True when no token is left.
    pub fn is_empty(&self) -> (r: bool)
        ensures
            r == (self@.len() == 0),
    {
        proof {
            crate::token::lemma_tokens_view_len(self.tokens@);
        }
        self.tokens.len() == 0
    }

    /// Push one token back; it becomes the next to read.
    pub fn prepend(&mut self, token: Token)
        ensures
            final(self)@ == old(self)@.push(token@),
    {
        proof {
            crate::token::lemma_tokens_view_push(self.tokens@, token);
        }
        self.tokens.push(token);
    }
}

pub proof fn lemma_tokens_view_drop_last(s: Seq<Token>)
    requires
        s.len() > 0,
    ensures
        tokens_view(s).len() == s.len(),
        tokens_view(s.drop_last()) == tokens_view(s).drop_last(),
        tokens_view(s).last() == token_view(s.last()),
{
    crate::token::lemma_tokens_view_len(s);
    crate::token::lemma_tokens_view_len(s.drop_last());
    assert forall|i: int| 0 <= i < s.len() - 1 implies tokens_view(s.drop_last())[i] == tokens_view(
        s,
    ).drop_last()[i] by {
        crate::token::lemma_tokens_view_index(s.drop_last(), i);
        crate::token::lemma_tokens_view_index(s, i);
    }
    assert(tokens_view(s.drop_last()) =~= tokens_view(s).drop_last());
    crate::token::lemma_tokens_view_index(s, s.len() - 1);
}

/// The token an empty stream hands out.
pub open spec fn eof_tokv() -> TokenV {
    TokenV { ty: TokenTypeV::EOF, lexeme: Seq::empty(), line: 0 }
}

/// The next token of the stream, `EOF` when none is left.
pub open spec fn nextv(toks: Seq<TokenV>) -> TokenV {
    if toks.len() > 0 {
        toks.last()
    } else {
        eof_tokv()
    }
}

/// The stream with its next token consumed.
pub open spec fn restv(toks: Seq<TokenV>) -> Seq<TokenV> {
    if toks.len() > 0 {
        toks.drop_last()
    } else {
        toks
    }
}

/// The operators that may stand between two operands.
pub open spec fn is_infix(op: Op) -> bool {
    match op {
        Op::Access | Op::Plus | Op::Minus | Op::Multiply | Op::Divide | Op::Mod | Op::And
            | Op::Or | Op::Equal | Op::NotEqual | Op::Less | Op::Greater => true,
        _ => false,
    }
}

/// The left and right binding power of an infix operator.  The
/// relative order is the contract: comparison < and/or < modulo <
/// additive < multiplicative < member access; the right power of one
/// more than the left makes every operator left-associative.
pub open spec fn infix_bp(op: Op) -> (u8, u8) {
    match op {
        Op::Access => (8u8, 9u8),
        Op::Plus | Op::Minus => (4u8, 5u8),
        Op::Multiply | Op::Divide => (6u8, 7u8),
        Op::Mod => (2u8, 3u8),
        Op::And | Op::Or => (1u8, 2u8),
        _ => (0u8, 1u8),
    }
}

/// The operator an operator-position token stands for, if any.
pub open spec fn op_of_ty(ty: TokenTypeV) -> Option<Op> {
    match ty {
        TokenTypeV::Plus => Option::Some(Op::Plus),
        TokenTypeV::PlusAssign => Option::Some(Op::PlusAssign),
        TokenTypeV::Minus => Option::Some(Op::Minus),
        TokenTypeV::MinusAssign => Option::Some(Op::MinusAssign),
        TokenTypeV::Slash => Option::Some(Op::Divide),
        TokenTypeV::Star => Option::Some(Op::Multiply),
        TokenTypeV::Bang => Option::Some(Op::Negate),
        TokenTypeV::Equal => Option::Some(Op::Equal),
        TokenTypeV::Less => Option::Some(Op::Less),
        TokenTypeV::Greater => Option::Some(Op::Greater),
        TokenTypeV::BangEqual => Option::Some(Op::NotEqual),
        TokenTypeV::Percent => Option::Some(Op::Mod),
        TokenTypeV::And => Option::Some(Op::And),
        TokenTypeV::Or => Option::Some(Op::Or),
        TokenTypeV::LBracket => Option::Some(Op::Indexing),
        TokenTypeV::Dot => Option::Some(Op::Access),
        _ => Option::None,
    }
}

/// A token that ends the operand-extending loop without being
/// consumed.
pub open spec fn is_terminator(ty: TokenTypeV) -> bool {
    match ty {
        TokenTypeV::EOF | TokenTypeV::NewLine | TokenTypeV::Semicolon | TokenTypeV::Comma
            | TokenTypeV::RBracket | TokenTypeV::RParen | TokenTypeV::RBrace => true,
        _ => false,
    }
}

/// Extending a parsed left operand `lhs` with postfix and infix
/// operators of binding power at least `bp`.
pub open spec fn expr_loop_spec(lhs: SV, toks: Seq<TokenV>, bp: u8, fuel: nat) -> Result<
    (SV, Seq<TokenV>),
    Error,
>
    decreases fuel,
{
    if fuel == 0 {
        Result::Err(Error::OutOfFuel)
    } else {
        let t = nextv(toks);
        if is_terminator(t.ty) {
            Result::Ok((lhs, toks))
        } else {
            match op_of_ty(t.ty) {
                Option::None => Result::Err(Error::ParseError),
                Option::Some(op) => {
                    if op == Op::Indexing {
                        if 9u8 < bp {
                            Result::Ok((lhs, toks))
                        } else {
                            match expr_bp_spec(restv(toks), 0u8, (fuel - 1) as nat) {
                                Result::Err(e) => Result::Err(e),
                                Result::Ok((idx, toks2)) => {
                                    if nextv(toks2).ty is RBracket {
                                        expr_loop_spec(
                                            SV::Binary(Op::Indexing, Box::new(lhs), Box::new(idx)),
                                            restv(toks2),
                                            bp,
                                            (fuel - 1) as nat,
                                        )
                                    } else {
                                        Result::Err(Error::ParseError)
                                    }
                                },
                            }
                        }
                    } else if is_infix(op) {
                        if infix_bp(op).0 < bp {
                            Result::Ok((lhs, toks))
                        } else {
                            match expr_bp_spec(restv(toks), infix_bp(op).1, (fuel - 1) as nat) {
                                Result::Err(e) => Result::Err(e),
                                Result::Ok((rhs, toks2)) => expr_loop_spec(
                                    SV::Binary(op, Box::new(lhs), Box::new(rhs)),
                                    toks2,
                                    bp,
                                    (fuel - 1) as nat,
                                ),
                            }
                        }
                    } else {
                        Result::Err(Error::ParseError)
                    }
                },
            }
        }
    }
}

/// One expression with minimum binding power `bp`: a left operand,
/// extended by [`expr_loop_spec`].  This is the meaning of
/// `parse_expr` at `bp == 0`.
pub open spec fn expr_bp_spec(toks: Seq<TokenV>, bp: u8, fuel: nat) -> Result<
    (SV, Seq<TokenV>),
    Error,
>
    decreases fuel,
{
    if fuel == 0 {
        Result::Err(Error::OutOfFuel)
    } else {
        let t = nextv(toks);
        let toks1 = restv(toks);
        match t.ty {
            TokenTypeV::Literal(a) => expr_loop_spec(SV::Atom(a), toks1, bp, (fuel - 1) as nat),
            TokenTypeV::True => expr_loop_spec(
                SV::Atom(AtomV::Bool(true)),
                toks1,
                bp,
                (fuel - 1) as nat,
            ),
            TokenTypeV::False => expr_loop_spec(
                SV::Atom(AtomV::Bool(false)),
                toks1,
                bp,
                (fuel - 1) as nat,
            ),
            TokenTypeV::Identifier => {
                if nextv(toks1).ty is LParen {
                    match fn_call_args_spec(toks1, (fuel - 1) as nat) {
                        Result::Err(e) => Result::Err(e),
                        Result::Ok((args, toks2)) => expr_loop_spec(
                            SV::FnCall(FunctionCallV { name: t.lexeme, args }),
                            toks2,
                            bp,
                            (fuel - 1) as nat,
                        ),
                    }
                } else {
                    expr_loop_spec(SV::Identifier(t.lexeme), toks1, bp, (fuel - 1) as nat)
                }
            },
            TokenTypeV::Minus => match expr_bp_spec(toks1, 9u8, (fuel - 1) as nat) {
                Result::Err(e) => Result::Err(e),
                Result::Ok((rhs, toks2)) => expr_loop_spec(
                    SV::Unary(Op::Minus, Box::new(rhs)),
                    toks2,
                    bp,
                    (fuel - 1) as nat,
                ),
            },
            TokenTypeV::Bang => match expr_bp_spec(toks1, 10u8, (fuel - 1) as nat) {
                Result::Err(e) => Result::Err(e),
                Result::Ok((rhs, toks2)) => expr_loop_spec(
                    SV::Unary(Op::Negate, Box::new(rhs)),
                    toks2,
                    bp,
                    (fuel - 1) as nat,
                ),
            },
            TokenTypeV::LParen => match expr_bp_spec(toks1, 0u8, (fuel - 1) as nat) {
                Result::Err(e) => Result::Err(e),
                Result::Ok((inner, toks2)) => {
                    if nextv(toks2).ty is RParen {
                        expr_loop_spec(inner, restv(toks2), bp, (fuel - 1) as nat)
                    } else {
                        Result::Err(Error::ParseError)
                    }
                },
            },
            TokenTypeV::LBracket => match array_elems_spec(toks1, (fuel - 1) as nat) {
                Result::Err(e) => Result::Err(e),
                Result::Ok((elems, toks2)) => expr_loop_spec(
                    SV::ArrayLit(elems),
                    toks2,
                    bp,
                    (fuel - 1) as nat,
                ),
            },
            _ => Result::Err(Error::ParseError),
        }
    }
}

/// The comma-separated elements of an array literal, up to and
/// including the closing bracket.
pub open spec fn array_elems_spec(toks: Seq<TokenV>, fuel: nat) -> Result<
    (Seq<SV>, Seq<TokenV>),
    Error,
>
    decreases fuel,
{
    if fuel == 0 {
        Result::Err(Error::OutOfFuel)
    } else if nextv(toks).ty is RBracket {
        Result::Ok((Seq::empty(), restv(toks)))
    } else {
        match expr_bp_spec(toks, 0u8, (fuel - 1) as nat) {
            Result::Err(e) => Result::Err(e),
            Result::Ok((e, toks2)) => {
                let toks3 = if nextv(toks2).ty is Comma {
                    restv(toks2)
                } else {
                    toks2
                };
                match array_elems_spec(toks3, (fuel - 1) as nat) {
                    Result::Err(er) => Result::Err(er),
                    Result::Ok((rest, toks4)) => Result::Ok((seq![e] + rest, toks4)),
                }
            },
        }
    }
}

/// The parenthesized, comma-separated argument expressions of a call.
pub open spec fn fn_call_args_spec(toks: Seq<TokenV>, fuel: nat) -> Result<
    (Seq<SV>, Seq<TokenV>),
    Error,
>
    decreases fuel,
{
    if fuel == 0 {
        Result::Err(Error::OutOfFuel)
    } else if nextv(toks).ty is LParen {
        call_args_loop_spec(restv(toks), (fuel - 1) as nat)
    } else {
        Result::Err(Error::ParseError)
    }
}

pub open spec fn call_args_loop_spec(toks: Seq<TokenV>, fuel: nat) -> Result<
    (Seq<SV>, Seq<TokenV>),
    Error,
>
    decreases fuel,
{
    if fuel == 0 {
        Result::Err(Error::OutOfFuel)
    } else if nextv(toks).ty is RParen {
        Result::Ok((Seq::empty(), restv(toks)))
    } else {
        match expr_bp_spec(toks, 0u8, (fuel - 1) as nat) {
            Result::Err(e) => Result::Err(e),
            Result::Ok((e, toks2)) => {
                let toks3 = if nextv(toks2).ty is Comma {
                    restv(toks2)
                } else {
                    toks2
                };
                match call_args_loop_spec(toks3, (fuel - 1) as nat) {
                    Result::Err(er) => Result::Err(er),
                    Result::Ok((rest, toks4)) => Result::Ok((seq![e] + rest, toks4)),
                }
            },
        }
    }
}

/// The parenthesized, comma-separated parameter names of a function
/// declaration, up to and including the closing parenthesis.
pub open spec fn fn_dec_args_spec(toks: Seq<TokenV>, fuel: nat) -> Result<
    (Seq<Seq<char>>, Seq<TokenV>),
    Error,
>
    decreases fuel,
{
    if fuel == 0 {
        Result::Err(Error::OutOfFuel)
    } else if nextv(toks).ty is LParen {
        dec_args_loop_spec(restv(toks), (fuel - 1) as nat)
    } else {
        Result::Err(Error::ParseError)
    }
}

pub open spec fn dec_args_loop_spec(toks: Seq<TokenV>, fuel: nat) -> Result<
    (Seq<Seq<char>>, Seq<TokenV>),
    Error,
>
    decreases fuel,
{
    if fuel == 0 {
        Result::Err(Error::OutOfFuel)
    } else {
        let t = nextv(toks);
        if t.ty is RParen {
            Result::Ok((Seq::empty(), restv(toks)))
        } else if t.ty is Identifier {
            let toks2 = restv(toks);
            let toks3 = if nextv(toks2).ty is Comma {
                restv(toks2)
            } else {
                toks2
            };
            match dec_args_loop_spec(toks3, (fuel - 1) as nat) {
                Result::Err(e) => Result::Err(e),
                Result::Ok((rest, toks4)) => Result::Ok((seq![t.lexeme] + rest, toks4)),
            }
        } else {
            Result::Err(Error::ParseError)
        }
    }
}

/// A `let` declaration after its `let` keyword: a fresh binding of a
/// name to an expression.
pub open spec fn parse_declaration_spec(toks: Seq<TokenV>, fuel: nat) -> Result<
    (DeclarationV, Seq<TokenV>),
    Error,
>
    decreases fuel,
{
    if fuel == 0 {
        Result::Err(Error::OutOfFuel)
    } else {
        let t = nextv(toks);
        if !(t.ty is Identifier) {
            Result::Err(Error::ParseError)
        } else if !(nextv(restv(toks)).ty is Assign) {
            Result::Err(Error::ParseError)
        } else {
            match expr_bp_spec(restv(restv(toks)), 0u8, (fuel - 1) as nat) {
                Result::Err(e) => Result::Err(e),
                Result::Ok((rhs, toks2)) => Result::Ok(
                    (
                        DeclarationV {
                            lhs: t.lexeme,
                            rhs,
                            alias: true,
                            plus_or_minus: Option::None,
                        },
                        toks2,
                    ),
                ),
            }
        }
    }
}

/// A statement that begins with an identifier: a reassignment (plain
/// or compound) or an expression statement.
pub open spec fn parse_ident_spec(toks: Seq<TokenV>, fuel: nat) -> Result<
    (Option<StmtV>, Seq<TokenV>),
    Error,
>
    decreases fuel,
{
    if fuel == 0 {
        Result::Err(Error::OutOfFuel)
    } else {
        let nx = nextv(toks);
        let t2 = nextv(restv(toks));
        let pom: Option<Option<bool>> = match t2.ty {
            TokenTypeV::Assign => Option::Some(Option::None),
            TokenTypeV::PlusAssign => Option::Some(Option::Some(true)),
            TokenTypeV::MinusAssign => Option::Some(Option::Some(false)),
            _ => Option::None,
        };
        match pom {
            Option::Some(pm) => match expr_bp_spec(restv(restv(toks)), 0u8, (fuel - 1) as nat) {
                Result::Err(e) => Result::Err(e),
                Result::Ok((rhs, toks2)) => Result::Ok(
                    (
                        Option::Some(
                            StmtV::Dec(
                                DeclarationV {
                                    lhs: nx.lexeme,
                                    rhs,
                                    alias: false,
                                    plus_or_minus: pm,
                                },
                            ),
                        ),
                        toks2,
                    ),
                ),
            },
            Option::None => match expr_bp_spec(toks, 0u8, (fuel - 1) as nat) {
                Result::Err(e) => Result::Err(e),
                Result::Ok((e, toks2)) => Result::Ok(
                    (Option::Some(StmtV::ExprStmt(e)), toks2),
                ),
            },
        }
    }
}

/// An `if` statement after its keyword was peeked: condition in
/// parentheses, braced then-block, optional braced else-block.
pub open spec fn parse_if_spec(toks: Seq<TokenV>, fuel: nat) -> Result<
    ((SV, BlockV, BlockV), Seq<TokenV>),
    Error,
>
    decreases fuel,
{
    if fuel == 0 {
        Result::Err(Error::OutOfFuel)
    } else {
        let toks1 = restv(toks);
        if !(nextv(toks1).ty is LParen) {
            Result::Err(Error::ParseError)
        } else {
            match expr_bp_spec(restv(toks1), 0u8, (fuel - 1) as nat) {
                Result::Err(e) => Result::Err(e),
                Result::Ok((cond, toks2)) => {
                    if !(nextv(toks2).ty is RParen) {
                        Result::Err(Error::ParseError)
                    } else if !(nextv(restv(toks2)).ty is LBrace) {
                        Result::Err(Error::ParseError)
                    } else {
                        match parse_block_spec(restv(restv(toks2)), (fuel - 1) as nat) {
                            Result::Err(e) => Result::Err(e),
                            Result::Ok((then_b, toks3)) => {
                                if !(nextv(toks3).ty is RBrace) {
                                    Result::Err(Error::ParseError)
                                } else {
                                    let toks4 = restv(toks3);
                                    if nextv(toks4).ty is Else {
                                        if !(nextv(restv(toks4)).ty is LBrace) {
                                            Result::Err(Error::ParseError)
                                        } else {
                                            match parse_block_spec(
                                                restv(restv(toks4)),
                                                (fuel - 1) as nat,
                                            ) {
                                                Result::Err(e) => Result::Err(e),
                                                Result::Ok((else_b, toks5)) => {
                                                    if nextv(toks5).ty is RBrace {
                                                        Result::Ok(
                                                            (
                                                                (cond, then_b, else_b),
                                                                restv(toks5),
                                                            ),
                                                        )
                                                    } else {
                                                        Result::Err(Error::ParseError)
                                                    }
                                                },
                                            }
                                        }
                                    } else {
                                        Result::Ok(((cond, then_b, Seq::empty()), toks4))
                                    }
                                }
                            },
                        }
                    }
                },
            }
        }
    }
}

/// A `while` statement after its keyword was peeked: condition in
/// parentheses, braced body.
pub open spec fn parse_while_spec(toks: Seq<TokenV>, fuel: nat) -> Result<
    ((SV, BlockV), Seq<TokenV>),
    Error,
>
    decreases fuel,
{
    if fuel == 0 {
        Result::Err(Error::OutOfFuel)
    } else {
        let toks1 = restv(toks);
        if !(nextv(toks1).ty is LParen) {
            Result::Err(Error::ParseError)
        } else {
            match expr_bp_spec(restv(toks1), 0u8, (fuel - 1) as nat) {
                Result::Err(e) => Result::Err(e),
                Result::Ok((cond, toks2)) => {
                    if nextv(toks2).ty is RParen {
                        if !(nextv(restv(toks2)).ty is LBrace) {
                            Result::Err(Error::ParseError)
                        } else {
                            match parse_block_spec(restv(restv(toks2)), (fuel - 1) as nat) {
                                Result::Err(e) => Result::Err(e),
                                Result::Ok((body, toks3)) => {
                                    if nextv(toks3).ty is RBrace {
                                        Result::Ok(((cond, body), restv(toks3)))
                                    } else {
                                        Result::Err(Error::ParseError)
                                    }
                                },
                            }
                        }
                    } else {
                        Result::Err(Error::ParseError)
                    }
                },
            }
        }
    }
}

/// A function declaration after its `fn` keyword was peeked: the
/// name, the parameter list and the braced body.
pub open spec fn parse_fn_dec_spec(toks: Seq<TokenV>, fuel: nat) -> Result<
    ((Seq<char>, FunctionDataV), Seq<TokenV>),
    Error,
>
    decreases fuel,
{
    if fuel == 0 {
        Result::Err(Error::OutOfFuel)
    } else {
        let toks1 = restv(toks);
        let t = nextv(toks1);
        if !(t.ty is Identifier) {
            Result::Err(Error::ParseError)
        } else {
            match fn_dec_args_spec(restv(toks1), (fuel - 1) as nat) {
                Result::Err(e) => Result::Err(e),
                Result::Ok((names, toks2)) => {
                    if !(nextv(toks2).ty is LBrace) {
                        Result::Err(Error::ParseError)
                    } else {
                        match parse_block_spec(restv(toks2), (fuel - 1) as nat) {
                            Result::Err(e) => Result::Err(e),
                            Result::Ok((body, toks3)) => {
                                if nextv(toks3).ty is RBrace {
                                    Result::Ok(
                                        (
                                            (
                                                t.lexeme,
                                                FunctionDataV {
                                                    arg_names: names,
                                                    fn_block: body,
                                                },
                                            ),
                                            restv(toks3),
                                        ),
                                    )
                                } else {
                                    Result::Err(Error::ParseError)
                                }
                            },
                        }
                    }
                },
            }
        }
    }
}

/// A `for` statement after its keyword was peeked, desugared at parse
/// time: `for (init; cond; incr) { body }` becomes a block holding
/// the init statement and a `while` whose body ends with `incr`, so
/// the loop variable is scoped to the whole loop and the increment
/// runs inside each iteration's scope, last.
pub open spec fn parse_for_spec(toks: Seq<TokenV>, fuel: nat) -> Result<
    (StmtV, Seq<TokenV>),
    Error,
>
    decreases fuel,
{
    if fuel == 0 {
        Result::Err(Error::OutOfFuel)
    } else {
        let toks1 = restv(toks);
        if !(nextv(toks1).ty is LParen) {
            Result::Err(Error::ParseError)
        } else {
            let toks2 = restv(toks1);
            let init_r: Result<(Option<StmtV>, Seq<TokenV>), Error> = if !(nextv(toks2).ty
                is Semicolon) {
                parse_stmt_spec(toks2, (fuel - 1) as nat)
            } else {
                Result::Ok((Option::None, toks2))
            };
            match init_r {
                Result::Err(e) => Result::Err(e),
                Result::Ok((init, toks3)) => {
                    if !(nextv(toks3).ty is Semicolon) {
                        Result::Err(Error::ParseError)
                    } else {
                        let toks4 = restv(toks3);
                        let cond_r: Result<(Option<SV>, Seq<TokenV>), Error> = if !(nextv(
                            toks4,
                        ).ty is Semicolon) {
                            match expr_bp_spec(toks4, 0u8, (fuel - 1) as nat) {
                                Result::Err(e) => Result::Err(e),
                                Result::Ok((c, tk)) => Result::Ok((Option::Some(c), tk)),
                            }
                        } else {
                            Result::Ok((Option::None, toks4))
                        };
                        match cond_r {
                            Result::Err(e) => Result::Err(e),
                            Result::Ok((cond, toks5)) => {
                                if !(nextv(toks5).ty is Semicolon) {
                                    Result::Err(Error::ParseError)
                                } else {
                                    let toks6 = restv(toks5);
                                    let incr_r: Result<(Option<StmtV>, Seq<TokenV>), Error> = if !(
                                    nextv(toks6).ty is RParen) {
                                        parse_stmt_spec(toks6, (fuel - 1) as nat)
                                    } else {
                                        Result::Ok((Option::None, toks6))
                                    };
                                    match incr_r {
                                        Result::Err(e) => Result::Err(e),
                                        Result::Ok((incr, toks7)) => {
                                            if !(nextv(toks7).ty is RParen) {
                                                Result::Err(Error::ParseError)
                                            } else if !(nextv(restv(toks7)).ty is LBrace) {
                                                Result::Err(Error::ParseError)
                                            } else {
                                                match parse_block_spec(
                                                    restv(restv(toks7)),
                                                    (fuel - 1) as nat,
                                                ) {
                                                    Result::Err(e) => Result::Err(e),
                                                    Result::Ok((body, toks8)) => {
                                                        if !(nextv(toks8).ty is RBrace) {
                                                            Result::Err(Error::ParseError)
                                                        } else {
                                                            let body2 = match incr {
                                                                Option::Some(s) => body.push(s),
                                                                Option::None => body,
                                                            };
                                                            let w = StmtV::WhileStmt(
                                                                match cond {
                                                                    Option::Some(c) => c,
                                                                    Option::None => SV::Atom(
                                                                        AtomV::Bool(true),
                                                                    ),
                                                                },
                                                                body2,
                                                            );
                                                            let stmts: Seq<StmtV> = match init {
                                                                Option::Some(s) => seq![s, w],
                                                                Option::None => seq![w],
                                                            };
                                                            Result::Ok(
                                                                (
                                                                    StmtV::Block(stmts),
                                                                    restv(toks8),
                                                                ),
                                                            )
                                                        }
                                                    },
                                                }
                                            }
                                        },
                                    }
                                }
                            },
                        }
                    }
                },
            }
        }
    }
}

/// A brace-enclosed block statement, after its opening brace was
/// consumed.
pub open spec fn braced_stmt_spec(toks: Seq<TokenV>, fuel: nat) -> Result<
    (Option<StmtV>, Seq<TokenV>),
    Error,
>
    decreases fuel,
{
    if fuel == 0 {
        Result::Err(Error::OutOfFuel)
    } else {
        match parse_block_spec(toks, (fuel - 1) as nat) {
            Result::Err(e) => Result::Err(e),
            Result::Ok((b, toks2)) => {
                if nextv(toks2).ty is RBrace {
                    Result::Ok((Option::Some(StmtV::Block(b)), restv(toks2)))
                } else {
                    Result::Err(Error::ParseError)
                }
            },
        }
    }
}

/// A `print` statement after its keyword was consumed: a
/// parenthesized expression followed by a terminator.  A separator
/// (line break or `;`) is consumed; any other terminator (end of
/// input, a closing bracket, parenthesis or brace, a comma) is left
/// for the enclosing construct.
pub open spec fn print_stmt_spec(toks: Seq<TokenV>, fuel: nat) -> Result<
    (Option<StmtV>, Seq<TokenV>),
    Error,
>
    decreases fuel,
{
    if fuel == 0 {
        Result::Err(Error::OutOfFuel)
    } else if !(nextv(toks).ty is LParen) {
        Result::Err(Error::ParseError)
    } else {
        match expr_bp_spec(restv(toks), 0u8, (fuel - 1) as nat) {
            Result::Err(e) => Result::Err(e),
            Result::Ok((e, toks2)) => {
                if !(nextv(toks2).ty is RParen) {
                    Result::Err(Error::ParseError)
                } else {
                    let toks3 = restv(toks2);
                    let t3 = nextv(toks3);
                    if t3.ty is NewLine || t3.ty is Semicolon {
                        Result::Ok((Option::Some(StmtV::PrintStmt(e)), restv(toks3)))
                    } else if is_terminator(t3.ty) {
                        Result::Ok((Option::Some(StmtV::PrintStmt(e)), toks3))
                    } else {
                        Result::Err(Error::ParseError)
                    }
                }
            },
        }
    }
}

/// A function declaration statement: the declared name freshly bound
/// to the function value.
pub open spec fn fn_stmt_spec(toks: Seq<TokenV>, fuel: nat) -> Result<
    (Option<StmtV>, Seq<TokenV>),
    Error,
>
    decreases fuel,
{
    if fuel == 0 {
        Result::Err(Error::OutOfFuel)
    } else {
        match parse_fn_dec_spec(toks, (fuel - 1) as nat) {
            Result::Err(e) => Result::Err(e),
            Result::Ok(((name, fd), toks2)) => Result::Ok(
                (
                    Option::Some(
                        StmtV::Dec(
                            DeclarationV {
                                lhs: name,
                                rhs: SV::Atom(AtomV::Function(fd)),
                                alias: true,
                                plus_or_minus: Option::None,
                            },
                        ),
                    ),
                    toks2,
                ),
            ),
        }
    }
}

/// One statement: `None` when the next token closes the enclosing
/// block or the input is exhausted; separators are skipped.
pub open spec fn parse_stmt_spec(toks: Seq<TokenV>, fuel: nat) -> Result<
    (Option<StmtV>, Seq<TokenV>),
    Error,
>
    decreases fuel,
{
    if fuel == 0 {
        Result::Err(Error::OutOfFuel)
    } else {
        let t = nextv(toks);
        match t.ty {
            TokenTypeV::NewLine | TokenTypeV::Semicolon => parse_stmt_spec(
                restv(toks),
                (fuel - 1) as nat,
            ),
            TokenTypeV::EOF => Result::Ok((Option::None, toks)),
            TokenTypeV::RBrace => Result::Ok((Option::None, toks)),
            TokenTypeV::LBrace => braced_stmt_spec(restv(toks), (fuel - 1) as nat),
            TokenTypeV::Print => print_stmt_spec(restv(toks), (fuel - 1) as nat),
            TokenTypeV::Let => match parse_declaration_spec(restv(toks), (fuel - 1) as nat) {
                Result::Err(e) => Result::Err(e),
                Result::Ok((d, toks2)) => Result::Ok((Option::Some(StmtV::Dec(d)), toks2)),
            },
            TokenTypeV::Identifier => parse_ident_spec(toks, (fuel - 1) as nat),
            TokenTypeV::If => match parse_if_spec(toks, (fuel - 1) as nat) {
                Result::Err(e) => Result::Err(e),
                Result::Ok(((cond, then_b, else_b), toks2)) => Result::Ok(
                    (Option::Some(StmtV::IfStmt(cond, then_b, else_b)), toks2),
                ),
            },
            TokenTypeV::While => match parse_while_spec(toks, (fuel - 1) as nat) {
                Result::Err(e) => Result::Err(e),
                Result::Ok(((cond, body), toks2)) => Result::Ok(
                    (Option::Some(StmtV::WhileStmt(cond, body)), toks2),
                ),
            },
            TokenTypeV::For => match parse_for_spec(toks, (fuel - 1) as nat) {
                Result::Err(e) => Result::Err(e),
                Result::Ok((st, toks2)) => Result::Ok((Option::Some(st), toks2)),
            },
            TokenTypeV::Break => Result::Ok((Option::Some(StmtV::Break), restv(toks))),
            TokenTypeV::Function => fn_stmt_spec(toks, (fuel - 1) as nat),
            _ => match expr_bp_spec(toks, 0u8, (fuel - 1) as nat) {
                Result::Err(e) => Result::Err(e),
                Result::Ok((e, toks2)) => Result::Ok(
                    (Option::Some(StmtV::ExprStmt(e)), toks2),
                ),
            },
        }
    }
}

/// The statements up to the end of the input or the next unconsumed
/// block-closing token.  This is the meaning of `parse_block`.
pub open spec fn parse_block_spec(toks: Seq<TokenV>, fuel: nat) -> Result<
    (Seq<StmtV>, Seq<TokenV>),
    Error,
>
    decreases fuel,
{
    if fuel == 0 {
        Result::Err(Error::OutOfFuel)
    } else if toks.len() == 0 {
        Result::Ok((Seq::empty(), toks))
    } else {
        match parse_stmt_spec(toks, (fuel - 1) as nat) {
            Result::Err(e) => Result::Err(e),
            Result::Ok((Option::None, toks2)) => Result::Ok((Seq::empty(), toks2)),
            Result::Ok((Option::Some(st), toks2)) => {
                match parse_block_spec(toks2, (fuel - 1) as nat) {
                    Result::Err(e) => Result::Err(e),
                    Result::Ok((rest, toks3)) => Result::Ok((seq![st] + rest, toks3)),
                }
            },
        }
    }
}

impl Lexer {
    /// The next token, consumed; `EOF` when none is left.
    pub fn next(&mut self) -> (r: Token)
        ensures
            r@ == nextv(old(self)@),
            final(self)@ == restv(old(self)@),
    {
        proof {
            crate::token::lemma_tokens_view_len(self.tokens@);
            if self.tokens@.len() > 0 {
                lemma_tokens_view_drop_last(self.tokens@);
            }
        }
        match self.tokens.pop() {
            Option::Some(t) => t,
            Option::None => Token::from_ty(TokenType::EOF),
        }
    }

    /// The next token, not consumed; `EOF` when none is left.
    pub fn peek(&self) -> (r: Token)
        ensures
            r@ == nextv(self@),
    {
        let n = self.tokens.len();
        proof {
            crate::token::lemma_tokens_view_len(self.tokens@);
            if self.tokens@.len() > 0 {
                lemma_tokens_view_drop_last(self.tokens@);
            }
        }
        if n == 0 {
            Token::from_ty(TokenType::EOF)
        } else {
            crate::token::clone_token(&self.tokens[n - 1])
        }
    }
}

/// The postfix binding power of an operator: only indexing binds as a
/// postfix operator, tighter than every infix operator.
pub fn postfix_binding_power(op: &Op) -> (r: Option<(u8, ())>)
    ensures
        *op == Op::Indexing ==> r == Option::Some((9u8, ())),
        *op != Op::Indexing ==> r is None,
{
    match op {
        Op::Indexing => Option::Some((9u8, ())),
        _ => Option::None,
    }
}

/// The left and right binding power of an infix operator.
pub fn infix_binding_power(op: &Op) -> (r: (u8, u8))
    requires
        is_infix(*op),
    ensures
        r == infix_bp(*op),
{
    match op {
        Op::Access => (8, 9),
        Op::Plus | Op::Minus => (4, 5),
        Op::Multiply | Op::Divide => (6, 7),
        Op::Mod => (2, 3),
        Op::And | Op::Or => (1, 2),
        _ => (0, 1),
    }
}

/// The binding power a prefix operator applies its operand at.
pub fn prefix_binding_power(op: &Op) -> (r: ((), u8))
    requires
        *op == Op::Minus || *op == Op::Negate,
    ensures
        *op == Op::Minus ==> r.1 == 9u8,
        *op == Op::Negate ==> r.1 == 10u8,
{
    match op {
        Op::Minus => ((), 9),
        _ => ((), 10),
    }
}

/// The operator an operator-position token stands for.
fn op_of_token(ty: &TokenType) -> (r: Option<Op>)
    ensures
        r == op_of_ty(ty@),
{
    match ty {
        TokenType::Plus => Option::Some(Op::Plus),
        TokenType::PlusAssign => Option::Some(Op::PlusAssign),
        TokenType::Minus => Option::Some(Op::Minus),
        TokenType::MinusAssign => Option::Some(Op::MinusAssign),
        TokenType::Slash => Option::Some(Op::Divide),
        TokenType::Star => Option::Some(Op::Multiply),
        TokenType::Bang => Option::Some(Op::Negate),
        TokenType::Equal => Option::Some(Op::Equal),
        TokenType::Less => Option::Some(Op::Less),
        TokenType::Greater => Option::Some(Op::Greater),
        TokenType::BangEqual => Option::Some(Op::NotEqual),
        TokenType::Percent => Option::Some(Op::Mod),
        TokenType::And => Option::Some(Op::And),
        TokenType::Or => Option::Some(Op::Or),
        TokenType::LBracket => Option::Some(Op::Indexing),
        TokenType::Dot => Option::Some(Op::Access),
        _ => Option::None,
    }
}

fn is_infix_x(op: &Op) -> (r: bool)
    ensures
        r == is_infix(*op),
{
    match op {
        Op::Access | Op::Plus | Op::Minus | Op::Multiply | Op::Divide | Op::Mod | Op::And
            | Op::Or | Op::Equal | Op::NotEqual | Op::Less | Op::Greater => true,
        _ => false,
    }
}

/// Extending `lhs` with postfix and infix operators of binding power
/// at least `bp`.
fn expr_loop(lexer: &mut Lexer, lhs: S, bp: u8, fuel: u64) -> (r: Result<S, Error>)
    ensures
        ({
            let sp = expr_loop_spec(s_view(lhs), old(lexer)@, bp, fuel as nat);
            match r {
                Result::Ok(e) => sp == Result::Ok::<_, Error>((s_view(e), final(lexer)@)),
                Result::Err(er) => sp == Result::Err::<(SV, Seq<TokenV>), _>(er),
            }
        }),
    decreases fuel,
{
    if fuel == 0 {
        return Result::Err(Error::OutOfFuel);
    }
    let t = lexer.peek();
    let term: bool = match t.ty {
        TokenType::EOF | TokenType::NewLine | TokenType::Semicolon | TokenType::Comma
            | TokenType::RBracket | TokenType::RParen | TokenType::RBrace => true,
        _ => false,
    };
    if term {
        return Result::Ok(lhs);
    }
    let opo = op_of_token(&t.ty);
    match opo {
        Option::None => Result::Err(Error::ParseError),
        Option::Some(op) => {
            let post = postfix_binding_power(&op);
            match post {
                Option::Some((l_bp, _u)) => {
                    if l_bp < bp {
                        return Result::Ok(lhs);
                    }
                    let _c = lexer.next();
                    match expr_bp(lexer, 0, fuel - 1) {
                        Result::Err(e) => Result::Err(e),
                        Result::Ok(idx) => {
                            let close = lexer.next();
                            match close.ty {
                                TokenType::RBracket => expr_loop(
                                    lexer,
                                    S::Binary(Op::Indexing, Box::new(lhs), Box::new(idx)),
                                    bp,
                                    fuel - 1,
                                ),
                                _ => Result::Err(Error::ParseError),
                            }
                        },
                    }
                },
                Option::None => {
                    if !is_infix_x(&op) {
                        return Result::Err(Error::ParseError);
                    }
                    let bps = infix_binding_power(&op);
                    if bps.0 < bp {
                        return Result::Ok(lhs);
                    }
                    let _c = lexer.next();
                    match expr_bp(lexer, bps.1, fuel - 1) {
                        Result::Err(e) => Result::Err(e),
                        Result::Ok(rhs) => expr_loop(
                            lexer,
                            S::Binary(op, Box::new(lhs), Box::new(rhs)),
                            bp,
                            fuel - 1,
                        ),
                    }
                },
            }
        },
    }
}

/// One expression with minimum binding power `bp`.
#[verifier::rlimit(60)]
fn expr_bp(lexer: &mut Lexer, bp: u8, fuel: u64) -> (r: Result<S, Error>)
    ensures
        ({
            let sp = expr_bp_spec(old(lexer)@, bp, fuel as nat);
            match r {
                Result::Ok(e) => sp == Result::Ok::<_, Error>((s_view(e), final(lexer)@)),
                Result::Err(er) => sp == Result::Err::<(SV, Seq<TokenV>), _>(er),
            }
        }),
    decreases fuel,
{
    if fuel == 0 {
        return Result::Err(Error::OutOfFuel);
    }
    let nx = lexer.next();
    match nx.ty {
        TokenType::Literal(a) => {
            return expr_loop(lexer, S::Atom(a), bp, fuel - 1);
        },
        TokenType::True => {
            let lit = S::Atom(Atom::Bool(true));
            proof {
                lemma_view_bool_atom(true);
            }
            return expr_loop(lexer, lit, bp, fuel - 1);
        },
        TokenType::False => {
            let lit = S::Atom(Atom::Bool(false));
            proof {
                lemma_view_bool_atom(false);
            }
            return expr_loop(lexer, lit, bp, fuel - 1);
        },
        TokenType::Identifier => {
            let pk = lexer.peek();
            match pk.ty {
                TokenType::LParen => {
                    match crate::parser::fn_parse::parse_fn_call_args(lexer, fuel - 1) {
                        Result::Err(e) => {
                            return Result::Err(e);
                        },
                        Result::Ok(args) => {
                            let call = S::FnCall(FunctionCall { name: nx.lexeme, args });
                            proof {
                                match &call {
                                    S::FnCall(fc) => lemma_view_fncall(*fc),
                                    _ => {},
                                }
                            }
                            return expr_loop(lexer, call, bp, fuel - 1);
                        },
                    }
                },
                _ => {
                    return expr_loop(lexer, S::Identifier(nx.lexeme), bp, fuel - 1);
                },
            }
        },
        TokenType::Minus => {
            let r_bp = prefix_binding_power(&Op::Minus).1;
            match expr_bp(lexer, r_bp, fuel - 1) {
                Result::Err(e) => {
                    return Result::Err(e);
                },
                Result::Ok(rhs) => {
                    return expr_loop(lexer, S::Unary(Op::Minus, Box::new(rhs)), bp, fuel - 1);
                },
            }
        },
        TokenType::Bang => {
            let r_bp = prefix_binding_power(&Op::Negate).1;
            match expr_bp(lexer, r_bp, fuel - 1) {
                Result::Err(e) => {
                    return Result::Err(e);
                },
                Result::Ok(rhs) => {
                    return expr_loop(lexer, S::Unary(Op::Negate, Box::new(rhs)), bp, fuel - 1);
                },
            }
        },
        TokenType::LParen => {
            match expr_bp(lexer, 0, fuel - 1) {
                Result::Err(e) => {
                    return Result::Err(e);
                },
                Result::Ok(inner) => {
                    let close = lexer.next();
                    match close.ty {
                        TokenType::RParen => {
                            return expr_loop(lexer, inner, bp, fuel - 1);
                        },
                        _ => {
                            return Result::Err(Error::ParseError);
                        },
                    }
                },
            }
        },
        TokenType::LBracket => {
            match array_elems(lexer, fuel - 1) {
                Result::Err(e) => {
                    return Result::Err(e);
                },
                Result::Ok(elems) => {
                    return expr_loop(lexer, S::ArrayLit(elems), bp, fuel - 1);
                },
            }
        },
        _ => {
            return Result::Err(Error::ParseError);
        },
    }
}

/// The elements of an array literal, up to and including the closing
/// bracket.
fn array_elems(lexer: &mut Lexer, fuel: u64) -> (r: Result<Vec<S>, Error>)
    ensures
        ({
            let sp = array_elems_spec(old(lexer)@, fuel as nat);
            match r {
                Result::Ok(es) => sp == Result::Ok::<_, Error>((ss_view(es@), final(lexer)@)),
                Result::Err(er) => sp == Result::Err::<(Seq<SV>, Seq<TokenV>), _>(er),
            }
        }),
    decreases fuel,
{
    if fuel == 0 {
        return Result::Err(Error::OutOfFuel);
    }
    let pk = lexer.peek();
    match pk.ty {
        TokenType::RBracket => {
            let _c = lexer.next();
            let es: Vec<S> = Vec::new();
            proof {
                assert(ss_view(es@) =~= Seq::<SV>::empty());
            }
            Result::Ok(es)
        },
        _ => {
            match expr_bp(lexer, 0, fuel - 1) {
                Result::Err(e) => Result::Err(e),
                Result::Ok(e) => {
                    let pk2 = lexer.peek();
                    match pk2.ty {
                        TokenType::Comma => {
                            let _c = lexer.next();
                        },
                        _ => {},
                    }
                    match array_elems(lexer, fuel - 1) {
                        Result::Err(er) => Result::Err(er),
                        Result::Ok(rest) => {
                            let mut out: Vec<S> = Vec::new();
                            out.push(e);
                            let ghost e_v = s_view(out@[0]);
                            let mut k: usize = 0;
                            while k < rest.len()
                                invariant
                                    k <= rest@.len(),
                                    out@.len() == k + 1,
                                    s_view(out@[0]) == e_v,
                                    forall|j: int| 0 <= j < k ==> s_view(#[trigger] out@[j + 1])
                                        == s_view(rest@[j]),
                                decreases rest@.len() - k,
                            {
                                proof {
                                    assert(decreases_to!(rest => rest@[k as int]));
                                }
                                let c = clone_s(&rest[k]);
                                out.push(c);
                                k = k + 1;
                            }
                            proof {
                                lemma_ss_view_len(out@);
                                lemma_ss_view_len(rest@);
                                assert forall|j: int| 0 <= j < out@.len() implies ss_view(out@)[j]
                                    == (seq![e_v] + ss_view(rest@))[j] by {
                                    lemma_ss_view_index(out@, j);
                                    if j > 0 {
                                        lemma_ss_view_index(rest@, j - 1);
                                        assert(out@[j] == out@[(j - 1) + 1]);
                                    }
                                }
                                assert(ss_view(out@) =~= seq![e_v] + ss_view(rest@));
                            }
                            Result::Ok(out)
                        },
                    }
                },
            }
        },
    }
}

/// One expression: the whole of what precedence climbing accepts
/// from the next tokens.
pub fn parse_expr(lexer: &mut Lexer, fuel: u64) -> (r: Result<S, Error>)
    ensures
        ({
            let sp = expr_bp_spec(old(lexer)@, 0u8, fuel as nat);
            match r {
                Result::Ok(e) => sp == Result::Ok::<_, Error>((s_view(e), final(lexer)@)),
                Result::Err(er) => sp == Result::Err::<(SV, Seq<TokenV>), _>(er),
            }
        }),
{
    expr_bp(lexer, 0, fuel)
}

/// One statement; `Ok(None)` when the next token closes the
/// enclosing block or the input is exhausted.
/// A brace-enclosed block statement, after its opening brace was
/// consumed.
fn braced_stmt(lexer: &mut Lexer, fuel: u64) -> (r: Result<Option<Stmt>, Error>)
    ensures
        ({
            let sp = braced_stmt_spec(old(lexer)@, fuel as nat);
            match r {
                Result::Ok(Option::Some(st)) => sp == Result::Ok::<_, Error>(
                    (Option::Some(st@), final(lexer)@),
                ),
                Result::Ok(Option::None) => sp == Result::Ok::<_, Error>(
                    (Option::None::<StmtV>, final(lexer)@),
                ),
                Result::Err(er) => sp == Result::Err::<(Option<StmtV>, Seq<TokenV>), _>(er),
            }
        }),
    decreases fuel,
{
    if fuel == 0 {
        return Result::Err(Error::OutOfFuel);
    }
    match parse_block(lexer, fuel - 1) {
        Result::Err(e) => {
            return Result::Err(e);
        },
        Result::Ok(b) => {
            let close = lexer.next();
            match close.ty {
                TokenType::RBrace => {
                    let ghost b_v = crate::block::block_view(b);
                    let st = Stmt::Block(b);
                    proof {
                        assert(stmt_view(st) == StmtV::Block(b_v));
                    }
                    return Result::Ok(Option::Some(st));
                },
                _ => {
                    return Result::Err(Error::ParseError);
                },
            }
        },
    }
}

/// A `print` statement after its keyword was consumed.
fn print_stmt(lexer: &mut Lexer, fuel: u64) -> (r: Result<Option<Stmt>, Error>)
    ensures
        ({
            let sp = print_stmt_spec(old(lexer)@, fuel as nat);
            match r {
                Result::Ok(Option::Some(st)) => sp == Result::Ok::<_, Error>(
                    (Option::Some(st@), final(lexer)@),
                ),
                Result::Ok(Option::None) => sp == Result::Ok::<_, Error>(
                    (Option::None::<StmtV>, final(lexer)@),
                ),
                Result::Err(er) => sp == Result::Err::<(Option<StmtV>, Seq<TokenV>), _>(er),
            }
        }),
    decreases fuel,
{
    if fuel == 0 {
        return Result::Err(Error::OutOfFuel);
    }
    let open_p = lexer.next();
    match open_p.ty {
        TokenType::LParen => {},
        _ => {
            return Result::Err(Error::ParseError);
        },
    }
    match expr_bp(lexer, 0, fuel - 1) {
        Result::Err(e) => {
            return Result::Err(e);
        },
        Result::Ok(e) => {
            let close = lexer.next();
            match close.ty {
                TokenType::RParen => {},
                _ => {
                    return Result::Err(Error::ParseError);
                },
            }
            let after = lexer.peek();
            match after.ty {
                TokenType::NewLine | TokenType::Semicolon => {
                    let _sep = lexer.next();
                    let ghost e_v = s_view(e);
                    let st = Stmt::PrintStmt(e);
                    proof {
                        assert(stmt_view(st) == StmtV::PrintStmt(e_v));
                    }
                    return Result::Ok(Option::Some(st));
                },
                TokenType::EOF | TokenType::Comma | TokenType::RBracket | TokenType::RParen
                    | TokenType::RBrace => {
                    let ghost e_v = s_view(e);
                    let st = Stmt::PrintStmt(e);
                    proof {
                        assert(stmt_view(st) == StmtV::PrintStmt(e_v));
                    }
                    return Result::Ok(Option::Some(st));
                },
                _ => {
                    return Result::Err(Error::ParseError);
                },
            }
        },
    }
}

/// A function declaration statement.
fn fn_stmt(lexer: &mut Lexer, fuel: u64) -> (r: Result<Option<Stmt>, Error>)
    ensures
        ({
            let sp = fn_stmt_spec(old(lexer)@, fuel as nat);
            match r {
                Result::Ok(Option::Some(st)) => sp == Result::Ok::<_, Error>(
                    (Option::Some(st@), final(lexer)@),
                ),
                Result::Ok(Option::None) => sp == Result::Ok::<_, Error>(
                    (Option::None::<StmtV>, final(lexer)@),
                ),
                Result::Err(er) => sp == Result::Err::<(Option<StmtV>, Seq<TokenV>), _>(er),
            }
        }),
    decreases fuel,
{
    if fuel == 0 {
        return Result::Err(Error::OutOfFuel);
    }
    match crate::parser::fn_parse::parse_fn_dec(lexer, fuel - 1) {
        Result::Err(e) => {
            return Result::Err(e);
        },
        Result::Ok((fn_name, fn_data)) => {
            let ghost name_v = fn_name@;
            let ghost fd_v = crate::atom::fndata_view(fn_data);
            let rhs_e = S::Atom(Atom::Function(fn_data));
            proof {
                assert(atom_view(rhs_e->Atom_0) == AtomV::Function(fd_v));
                assert(s_view(rhs_e) == SV::Atom(AtomV::Function(fd_v)));
            }
            let d = Declaration {
                lhs: fn_name,
                rhs: rhs_e,
                alias: true,
                plus_or_minus: Option::None,
            };
            let ghost d_v = crate::statement::decl_view(d);
            proof {
                assert(d_v == (DeclarationV {
                    lhs: name_v,
                    rhs: SV::Atom(AtomV::Function(fd_v)),
                    alias: true,
                    plus_or_minus: Option::None,
                }));
            }
            let st = Stmt::Dec(d);
            proof {
                assert(stmt_view(st) == StmtV::Dec(d_v));
            }
            return Result::Ok(Option::Some(st));
        },
    }
}

#[verifier::rlimit(100)]
#[verifier::spinoff_prover]
pub fn parse_stmt(lexer: &mut Lexer, fuel: u64) -> (r: Result<Option<Stmt>, Error>)
    ensures
        ({
            let sp = parse_stmt_spec(old(lexer)@, fuel as nat);
            match r {
                Result::Ok(Option::Some(st)) => sp == Result::Ok::<_, Error>(
                    (Option::Some(st@), final(lexer)@),
                ),
                Result::Ok(Option::None) => sp == Result::Ok::<_, Error>(
                    (Option::None::<StmtV>, final(lexer)@),
                ),
                Result::Err(er) => sp == Result::Err::<(Option<StmtV>, Seq<TokenV>), _>(er),
            }
        }),
    decreases fuel,
{
    if fuel == 0 {
        return Result::Err(Error::OutOfFuel);
    }
    let t = lexer.peek();
    match t.ty {
        TokenType::NewLine | TokenType::Semicolon => {
            let _c = lexer.next();
            return parse_stmt(lexer, fuel - 1);
        },
        TokenType::EOF => {
            return Result::Ok(Option::None);
        },
        TokenType::RBrace => {
            return Result::Ok(Option::None);
        },
        TokenType::LBrace => {
            let _c = lexer.next();
            return braced_stmt(lexer, fuel - 1);
        },
        TokenType::Print => {
            let _c = lexer.next();
            return print_stmt(lexer, fuel - 1);
        },
        TokenType::Let => {
            let _c = lexer.next();
            match crate::parser::assignment_parse::parse_declaration(lexer, fuel - 1) {
                Result::Err(e) => {
                    return Result::Err(e);
                },
                Result::Ok(d) => {
                    let ghost d_v = crate::statement::decl_view(d);
                    let st = Stmt::Dec(d);
                    proof {
                        assert(stmt_view(st) == StmtV::Dec(d_v));
                    }
                    return Result::Ok(Option::Some(st));
                },
            }
        },
        TokenType::Identifier => {
            return crate::parser::ident_parse::parse_ident(lexer, fuel - 1);
        },
        TokenType::If => {
            match crate::parser::if_parse::parse_if(lexer, fuel - 1) {
                Result::Err(e) => {
                    return Result::Err(e);
                },
                Result::Ok(i) => {
                    let ghost c_v = s_view(i.cond);
                    let ghost t_v = crate::block::block_view(i.then_block);
                    let ghost e_v = crate::block::block_view(i.else_block);
                    let st = Stmt::IfStmt(i);
                    proof {
                        assert(stmt_view(st) == StmtV::IfStmt(c_v, t_v, e_v));
                    }
                    return Result::Ok(Option::Some(st));
                },
            }
        },
        TokenType::While => {
            match crate::parser::while_parse::parse_while(lexer, fuel - 1) {
                Result::Err(e) => {
                    return Result::Err(e);
                },
                Result::Ok(w) => {
                    let ghost c_v = s_view(w.cond);
                    let ghost b_v = crate::block::block_view(w.loop_block);
                    let st = Stmt::WhileStmt(w);
                    proof {
                        assert(stmt_view(st) == StmtV::WhileStmt(c_v, b_v));
                    }
                    return Result::Ok(Option::Some(st));
                },
            }
        },
        TokenType::For => {
            match crate::parser::for_parse::parse_for(lexer, fuel - 1) {
                Result::Err(e) => {
                    return Result::Err(e);
                },
                Result::Ok(st) => {
                    return Result::Ok(Option::Some(st));
                },
            }
        },
        TokenType::Break => {
            let _c = lexer.next();
            proof {
                assert(stmt_view(Stmt::Break) == StmtV::Break);
            }
            return Result::Ok(Option::Some(Stmt::Break));
        },
        TokenType::Function => {
            return fn_stmt(lexer, fuel - 1);
        },
        _ => {
            match expr_bp(lexer, 0, fuel - 1) {
                Result::Err(e) => {
                    return Result::Err(e);
                },
                Result::Ok(e) => {
                    let ghost e_v = s_view(e);
                    let st = Stmt::ExprStmt(e);
                    proof {
                        assert(stmt_view(st) == StmtV::ExprStmt(e_v));
                    }
                    return Result::Ok(Option::Some(st));
                },
            }
        },
    }
}

/// The statements up to the end of the input or the next unconsumed
/// block-closing token.
pub fn parse_block(lexer: &mut Lexer, fuel: u64) -> (r: Result<Block, Error>)
    ensures
        ({
            let sp = parse_block_spec(old(lexer)@, fuel as nat);
            match r {
                Result::Ok(b) => sp == Result::Ok::<_, Error>(
                    (crate::block::block_view(b), final(lexer)@),
                ),
                Result::Err(er) => sp == Result::Err::<(Seq<StmtV>, Seq<TokenV>), _>(er),
            }
        }),
    decreases fuel,
{
    if fuel == 0 {
        return Result::Err(Error::OutOfFuel);
    }
    if lexer.is_empty() {
        let b = Block::new(Vec::new());
        proof {
            assert(crate::block::block_view(b) =~= Seq::<StmtV>::empty());
        }
        return Result::Ok(b);
    }
    match parse_stmt(lexer, fuel - 1) {
        Result::Err(e) => Result::Err(e),
        Result::Ok(Option::None) => {
            let b = Block::new(Vec::new());
            proof {
                assert(crate::block::block_view(b) =~= Seq::<StmtV>::empty());
            }
            Result::Ok(b)
        },
        Result::Ok(Option::Some(st)) => {
            match parse_block(lexer, fuel - 1) {
                Result::Err(e) => Result::Err(e),
                Result::Ok(rest) => {
                    let ghost st_v = stmt_view(st);
                    let mut out: Vec<Stmt> = Vec::new();
                    out.push(st);
                    let mut k: usize = 0;
                    while k < rest.statements.len()
                        invariant
                            k <= rest.statements@.len(),
                            out@.len() == k + 1,
                            stmt_view(out@[0]) == st_v,
                            forall|j: int| 0 <= j < k ==> stmt_view(#[trigger] out@[j + 1])
                                == stmt_view(rest.statements@[j]),
                        decreases rest.statements@.len() - k,
                    {
                        proof {
                            assert(decreases_to!(rest => rest.statements));
                            assert(decreases_to!(rest.statements => rest.statements@[k as int]));
                        }
                        let c = crate::statement::clone_stmt(&rest.statements[k]);
                        out.push(c);
                        k = k + 1;
                    }
                    proof {
                        crate::statement::lemma_stmts_view_len(out@);
                        crate::statement::lemma_stmts_view_len(rest.statements@);
                        assert forall|j: int| 0 <= j < out@.len() implies crate::statement::stmts_view(
                            out@,
                        )[j] == (seq![st_v] + crate::statement::stmts_view(rest.statements@))[j] by {
                            crate::statement::lemma_stmts_view_index(out@, j);
                            if j > 0 {
                                crate::statement::lemma_stmts_view_index(rest.statements@, j - 1);
                                assert(out@[j] == out@[(j - 1) + 1]);
                            }
                        }
                        assert(crate::statement::stmts_view(out@) =~= seq![st_v]
                            + crate::statement::stmts_view(rest.statements@));
                    }
                    Result::Ok(Block { statements: out })
                },
            }
        },
    }
}

} // verus!
