//! Parsing a `for` statement, desugared at parse time into a block
//! holding the init statement and a `while` whose body ends with the
//! increment.
use vstd::prelude::*;

use crate::atom::Atom;
use crate::block::Block;
use crate::parser::{expr_bp, parse_block, parse_for_spec, parse_stmt, Lexer, S};
use crate::statement::{Stmt, StmtV, While};
use crate::token::{TokenType, TokenV};
use crate::Error;

verus! {

/// The desugared form: `Block [ init?, While { cond-or-true,
/// body-with-incr-appended } ]`.  The outer block scopes the loop
/// variable to the whole loop; the appended increment runs inside the
/// per-iteration scope, after the iteration's own statements.
pub fn parse_for(lexer: &mut Lexer, fuel: u64) -> (r: Result<Stmt, Error>)
    ensures
        ({
            let sp = parse_for_spec(old(lexer)@, fuel as nat);
            match r {
                Result::Ok(st) => sp == Result::Ok::<_, Error>((st@, final(lexer)@)),
                Result::Err(er) => sp == Result::Err::<(StmtV, Seq<TokenV>), _>(er),
            }
        }),
    decreases fuel,
{
    if fuel == 0 {
        return Result::Err(Error::OutOfFuel);
    }
    let _kw = lexer.next();
    let open_p = lexer.next();
    match open_p.ty {
        TokenType::LParen => {},
        _ => {
            return Result::Err(Error::ParseError);
        },
    }
    let pk1 = lexer.peek();
    let init: Option<Stmt> = match pk1.ty {
        TokenType::Semicolon => Option::None,
        _ => {
            match parse_stmt(lexer, fuel - 1) {
                Result::Err(e) => {
                    return Result::Err(e);
                },
                Result::Ok(o) => o,
            }
        },
    };
    let sep1 = lexer.next();
    match sep1.ty {
        TokenType::Semicolon => {},
        _ => {
            return Result::Err(Error::ParseError);
        },
    }
    let pk2 = lexer.peek();
    let cond: Option<S> = match pk2.ty {
        TokenType::Semicolon => Option::None,
        _ => {
            match expr_bp(lexer, 0, fuel - 1) {
                Result::Err(e) => {
                    return Result::Err(e);
                },
                Result::Ok(c) => Option::Some(c),
            }
        },
    };
    let sep2 = lexer.next();
    match sep2.ty {
        TokenType::Semicolon => {},
        _ => {
            return Result::Err(Error::ParseError);
        },
    }
    let pk3 = lexer.peek();
    let incr: Option<Stmt> = match pk3.ty {
        TokenType::RParen => Option::None,
        _ => {
            match parse_stmt(lexer, fuel - 1) {
                Result::Err(e) => {
                    return Result::Err(e);
                },
                Result::Ok(o) => o,
            }
        },
    };
    let close_p = lexer.next();
    match close_p.ty {
        TokenType::RParen => {},
        _ => {
            return Result::Err(Error::ParseError);
        },
    }
    let open_b = lexer.next();
    match open_b.ty {
        TokenType::LBrace => {},
        _ => {
            return Result::Err(Error::ParseError);
        },
    }
    let mut loop_block = match parse_block(lexer, fuel - 1) {
        Result::Err(e) => {
            return Result::Err(e);
        },
        Result::Ok(b) => b,
    };
    let close_b = lexer.next();
    match close_b.ty {
        TokenType::RBrace => {},
        _ => {
            return Result::Err(Error::ParseError);
        },
    }
    match incr {
        Option::Some(s) => {
            proof {
                crate::statement::lemma_stmts_view_push(loop_block.statements@, s);
            }
            loop_block.statements.push(s);
        },
        Option::None => {},
    }
    let cond_expr: S = match cond {
        Option::Some(c) => c,
        Option::None => S::Atom(Atom::Bool(true)),
    };
    let while_stmt = Stmt::WhileStmt(While { cond: cond_expr, loop_block });
    let mut stmts: Vec<Stmt> = Vec::new();
    match init {
        Option::Some(s) => {
            stmts.push(s);
            stmts.push(while_stmt);
            proof {
                lemma_two(stmts@);
            }
            Result::Ok(Stmt::Block(Block { statements: stmts }))
        },
        Option::None => {
            stmts.push(while_stmt);
            proof {
                lemma_one(stmts@);
            }
            Result::Ok(Stmt::Block(Block { statements: stmts }))
        },
    }
}

proof fn lemma_one(s: Seq<Stmt>)
    requires
        s.len() == 1,
    ensures
        crate::statement::stmts_view(s) == seq![crate::statement::stmt_view(s[0])],
{
    assert(s.drop_first() =~= Seq::<Stmt>::empty());
    assert(crate::statement::stmts_view(Seq::<Stmt>::empty()) =~= Seq::<StmtV>::empty());
    assert(crate::statement::stmts_view(s) =~= seq![crate::statement::stmt_view(s[0])]);
}

proof fn lemma_two(s: Seq<Stmt>)
    requires
        s.len() == 2,
    ensures
        crate::statement::stmts_view(s) == seq![
            crate::statement::stmt_view(s[0]),
            crate::statement::stmt_view(s[1]),
        ],
{
    lemma_one(s.drop_first());
    assert(s.drop_first()[0] == s[1]);
    assert(crate::statement::stmts_view(s) =~= seq![
        crate::statement::stmt_view(s[0]),
        crate::statement::stmt_view(s[1]),
    ]);
}

} // verus!
