//! Parsing an `if` statement.
use vstd::prelude::*;

use crate::block::Block;
use crate::parser::{expr_bp, parse_block, parse_if_spec, Lexer};
use crate::statement::If;
use crate::token::{TokenType, TokenV};
use crate::Error;

verus! {

/// The condition, then-block and else-block of an `if`; a missing
/// `else` yields an empty else-block.
pub fn parse_if(lexer: &mut Lexer, fuel: u64) -> (r: Result<If, Error>)
    ensures
        ({
            let sp = parse_if_spec(old(lexer)@, fuel as nat);
            match r {
                Result::Ok(i) => sp == Result::Ok::<_, Error>(
                    ((i.cond@, i.then_block@, i.else_block@), final(lexer)@),
                ),
                Result::Err(er) => sp == Result::Err::<
                    ((crate::parser::SV, crate::block::BlockV, crate::block::BlockV), Seq<TokenV>),
                    _,
                >(er),
            }
        }),
    decreases fuel,
{
    if fuel == 0 {
        return Result::Err(Error::OutOfFuel);
    }
    let _kw = lexer.next();
    let open_p = lexer.next();
    match open_p.ty {
        TokenType::LParen => {},
        _ => {
            return Result::Err(Error::ParseError);
        },
    }
    let cond = match expr_bp(lexer, 0, fuel - 1) {
        Result::Err(e) => {
            return Result::Err(e);
        },
        Result::Ok(c) => c,
    };
    let close_p = lexer.next();
    match close_p.ty {
        TokenType::RParen => {},
        _ => {
            return Result::Err(Error::ParseError);
        },
    }
    let open_b = lexer.next();
    match open_b.ty {
        TokenType::LBrace => {},
        _ => {
            return Result::Err(Error::ParseError);
        },
    }
    let then_block = match parse_block(lexer, fuel - 1) {
        Result::Err(e) => {
            return Result::Err(e);
        },
        Result::Ok(b) => b,
    };
    let close_b = lexer.next();
    match close_b.ty {
        TokenType::RBrace => {},
        _ => {
            return Result::Err(Error::ParseError);
        },
    }
    let pk = lexer.peek();
    match pk.ty {
        TokenType::Else => {
            let _e = lexer.next();
            let open_e = lexer.next();
            match open_e.ty {
                TokenType::LBrace => {},
                _ => {
                    return Result::Err(Error::ParseError);
                },
            }
            let else_block = match parse_block(lexer, fuel - 1) {
                Result::Err(e) => {
                    return Result::Err(e);
                },
                Result::Ok(b) => b,
            };
            let close_e = lexer.next();
            match close_e.ty {
                TokenType::RBrace => {},
                _ => {
                    return Result::Err(Error::ParseError);
                },
            }
            Result::Ok(If { cond, then_block, else_block })
        },
        _ => {
            let else_block = Block::new(Vec::new());
            proof {
                assert(else_block@ =~= Seq::<crate::statement::StmtV>::empty());
            }
            Result::Ok(If { cond, then_block, else_block })
        },
    }
}

} // verus!
