//! Parsing a `let` declaration.
use vstd::prelude::*;

use crate::parser::{expr_bp, parse_declaration_spec, Lexer};
use crate::statement::{Declaration, DeclarationV};
use crate::token::{TokenType, TokenV};
use crate::Error;

verus! {

/// The declaration after a consumed `let`: an identifier, `=`, and
/// the bound expression.
pub fn parse_declaration(lexer: &mut Lexer, fuel: u64) -> (r: Result<Declaration, Error>)
    ensures
        ({
            let sp = parse_declaration_spec(old(lexer)@, fuel as nat);
            match r {
                Result::Ok(d) => sp == Result::Ok::<_, Error>((d@, final(lexer)@)),
                Result::Err(er) => sp == Result::Err::<(DeclarationV, Seq<TokenV>), _>(er),
            }
        }),
    decreases fuel,
{
    if fuel == 0 {
        return Result::Err(Error::OutOfFuel);
    }
    let t = lexer.next();
    match t.ty {
        TokenType::Identifier => {},
        _ => {
            return Result::Err(Error::ParseError);
        },
    }
    let eq = lexer.next();
    match eq.ty {
        TokenType::Assign => {},
        _ => {
            return Result::Err(Error::ParseError);
        },
    }
    match expr_bp(lexer, 0, fuel - 1) {
        Result::Err(e) => Result::Err(e),
        Result::Ok(rhs) => Result::Ok(
            Declaration { lhs: t.lexeme, rhs, alias: true, plus_or_minus: Option::None },
        ),
    }
}

} // verus!
