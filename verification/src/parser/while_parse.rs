//! Parsing a `while` statement.
use vstd::prelude::*;

use crate::parser::{expr_bp, parse_block, parse_while_spec, Lexer};
use crate::statement::While;
use crate::token::{TokenType, TokenV};
use crate::Error;

verus! {

/// The condition and body of a `while`.
pub fn parse_while(lexer: &mut Lexer, fuel: u64) -> (r: Result<While, Error>)
    ensures
        ({
            let sp = parse_while_spec(old(lexer)@, fuel as nat);
            match r {
                Result::Ok(w) => sp == Result::Ok::<_, Error>(
                    ((w.cond@, w.loop_block@), final(lexer)@),
                ),
                Result::Err(er) => sp == Result::Err::<
                    ((crate::parser::SV, crate::block::BlockV), Seq<TokenV>),
                    _,
                >(er),
            }
        }),
    decreases fuel,
{
    if fuel == 0 {
        return Result::Err(Error::OutOfFuel);
    }
    let _kw = lexer.next();
    let open_p = lexer.next();
    match open_p.ty {
        TokenType::LParen => {},
        _ => {
            return Result::Err(Error::ParseError);
        },
    }
    let cond = match expr_bp(lexer, 0, fuel - 1) {
        Result::Err(e) => {
            return Result::Err(e);
        },
        Result::Ok(c) => c,
    };
    let close_p = lexer.next();
    match close_p.ty {
        TokenType::RParen => {},
        _ => {
            return Result::Err(Error::ParseError);
        },
    }
    let open_b = lexer.next();
    match open_b.ty {
        TokenType::LBrace => {},
        _ => {
            return Result::Err(Error::ParseError);
        },
    }
    let loop_block = match parse_block(lexer, fuel - 1) {
        Result::Err(e) => {
            return Result::Err(e);
        },
        Result::Ok(b) => b,
    };
    let close_b = lexer.next();
    match close_b.ty {
        TokenType::RBrace => {},
        _ => {
            return Result::Err(Error::ParseError);
        },
    }
    Result::Ok(While { cond, loop_block })
}

} // verus!
