//! Parsing a statement that begins with an identifier.
use vstd::prelude::*;

use crate::parser::{expr_bp, parse_ident_spec, Lexer};
use crate::statement::{Declaration, Stmt, StmtV};
use crate::token::{TokenType, TokenV};
use crate::Error;

verus! {

/// A reassignment (`=`, `+=` or `-=` after the identifier) or an
/// expression statement.
pub fn parse_ident(lexer: &mut Lexer, fuel: u64) -> (r: Result<Option<Stmt>, Error>)
    ensures
        ({
            let sp = parse_ident_spec(old(lexer)@, fuel as nat);
            match r {
                Result::Ok(Option::Some(st)) => sp == Result::Ok::<_, Error>(
                    (Option::Some(st@), final(lexer)@),
                ),
                Result::Ok(Option::None) => sp == Result::Ok::<_, Error>(
                    (Option::None::<StmtV>, final(lexer)@),
                ),
                Result::Err(er) => sp == Result::Err::<(Option<StmtV>, Seq<TokenV>), _>(er),
            }
        }),
    decreases fuel,
{
    if fuel == 0 {
        return Result::Err(Error::OutOfFuel);
    }
    let nx = lexer.next();
    let pk = lexer.peek();
    let pom: Option<Option<bool>> = match pk.ty {
        TokenType::Assign => Option::Some(Option::None),
        TokenType::PlusAssign => Option::Some(Option::Some(true)),
        TokenType::MinusAssign => Option::Some(Option::Some(false)),
        _ => Option::None,
    };
    match pom {
        Option::Some(pm) => {
            let _c = lexer.next();
            match expr_bp(lexer, 0, fuel - 1) {
                Result::Err(e) => Result::Err(e),
                Result::Ok(rhs) => Result::Ok(
                    Option::Some(
                        Stmt::Dec(
                            Declaration { lhs: nx.lexeme, rhs, alias: false, plus_or_minus: pm },
                        ),
                    ),
                ),
            }
        },
        Option::None => {
            lexer.prepend(nx);
            proof {
                if old(lexer)@.len() > 0 {
                    assert(lexer@ =~= old(lexer)@);
                } else {
                    assert(lexer@ =~= seq![crate::parser::eof_tokv()]);
                    assert(crate::parser::nextv(lexer@) == crate::parser::eof_tokv());
                    assert(crate::parser::expr_bp_spec(lexer@, 0u8, (fuel - 1) as nat)
                        == crate::parser::expr_bp_spec(old(lexer)@, 0u8, (fuel - 1) as nat));
                }
            }
            match expr_bp(lexer, 0, fuel - 1) {
                Result::Err(e) => Result::Err(e),
                Result::Ok(e) => Result::Ok(Option::Some(Stmt::ExprStmt(e))),
            }
        },
    }
}

} // verus!
