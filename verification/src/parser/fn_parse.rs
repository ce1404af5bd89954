//! Parsing function declarations and call argument lists.
use vstd::prelude::*;

use crate::atom::FunctionData;
use crate::parser::{call_args_loop_spec, dec_args_loop_spec, expr_bp, fn_call_args_spec,
    fn_dec_args_spec, lemma_ss_view_index, lemma_ss_view_len, parse_block, parse_fn_dec_spec,
    clone_s, ss_view, Lexer, S, SV};
use crate::token::{TokenType, TokenV};
use crate::Error;

verus! {

/// A function declaration after its `fn` keyword was peeked: the
/// name, the parameter names and the braced body.
pub fn parse_fn_dec(lexer: &mut Lexer, fuel: u64) -> (r: Result<(Vec<char>, FunctionData), Error>)
    ensures
        ({
            let sp = parse_fn_dec_spec(old(lexer)@, fuel as nat);
            match r {
                Result::Ok(p) => sp == Result::Ok::<_, Error>(
                    ((p.0@, p.1@), final(lexer)@),
                ),
                Result::Err(er) => sp == Result::Err::<
                    ((Seq<char>, crate::atom::FunctionDataV), Seq<TokenV>),
                    _,
                >(er),
            }
        }),
    decreases fuel,
{
    if fuel == 0 {
        return Result::Err(Error::OutOfFuel);
    }
    let _kw = lexer.next();
    let name_tok = lexer.next();
    match name_tok.ty {
        TokenType::Identifier => {},
        _ => {
            return Result::Err(Error::ParseError);
        },
    }
    let arg_names = match parse_fn_dec_args(lexer, fuel - 1) {
        Result::Err(e) => {
            return Result::Err(e);
        },
        Result::Ok(ns) => ns,
    };
    let open_b = lexer.next();
    match open_b.ty {
        TokenType::LBrace => {},
        _ => {
            return Result::Err(Error::ParseError);
        },
    }
    let fn_block = match parse_block(lexer, fuel - 1) {
        Result::Err(e) => {
            return Result::Err(e);
        },
        Result::Ok(b) => b,
    };
    let close_b = lexer.next();
    match close_b.ty {
        TokenType::RBrace => {},
        _ => {
            return Result::Err(Error::ParseError);
        },
    }
    let d = FunctionData { arg_names, fn_block };
    proof {
        assert(d@.arg_names =~= parse_fn_dec_spec(old(lexer)@, fuel as nat)->Ok_0.0.1.arg_names);
    }
    Result::Ok((name_tok.lexeme, d))
}

/// The parenthesized parameter names of a function declaration.
pub fn parse_fn_dec_args(lexer: &mut Lexer, fuel: u64) -> (r: Result<Vec<Vec<char>>, Error>)
    ensures
        ({
            let sp = fn_dec_args_spec(old(lexer)@, fuel as nat);
            match r {
                Result::Ok(ns) => sp == Result::Ok::<_, Error>(
                    (ns@.map_values(|n: Vec<char>| n@), final(lexer)@),
                ),
                Result::Err(er) => sp == Result::Err::<(Seq<Seq<char>>, Seq<TokenV>), _>(er),
            }
        }),
    decreases fuel,
{
    if fuel == 0 {
        return Result::Err(Error::OutOfFuel);
    }
    let open_p = lexer.next();
    match open_p.ty {
        TokenType::LParen => {},
        _ => {
            return Result::Err(Error::ParseError);
        },
    }
    dec_args_loop(lexer, fuel - 1)
}

fn dec_args_loop(lexer: &mut Lexer, fuel: u64) -> (r: Result<Vec<Vec<char>>, Error>)
    ensures
        ({
            let sp = dec_args_loop_spec(old(lexer)@, fuel as nat);
            match r {
                Result::Ok(ns) => sp == Result::Ok::<_, Error>(
                    (ns@.map_values(|n: Vec<char>| n@), final(lexer)@),
                ),
                Result::Err(er) => sp == Result::Err::<(Seq<Seq<char>>, Seq<TokenV>), _>(er),
            }
        }),
    decreases fuel,
{
    if fuel == 0 {
        return Result::Err(Error::OutOfFuel);
    }
    let t = lexer.peek();
    match t.ty {
        TokenType::RParen => {
            let _c = lexer.next();
            let ns: Vec<Vec<char>> = Vec::new();
            proof {
                assert(ns@.map_values(|n: Vec<char>| n@) =~= Seq::<Seq<char>>::empty());
            }
            Result::Ok(ns)
        },
        TokenType::Identifier => {
            let name_tok = lexer.next();
            let pk = lexer.peek();
            match pk.ty {
                TokenType::Comma => {
                    let _c = lexer.next();
                },
                _ => {},
            }
            match dec_args_loop(lexer, fuel - 1) {
                Result::Err(e) => Result::Err(e),
                Result::Ok(rest) => {
                    let ghost n_v = name_tok.lexeme@;
                    let ghost rest_v = rest@.map_values(|n: Vec<char>| n@);
                    let mut out: Vec<Vec<char>> = Vec::new();
                    out.push(name_tok.lexeme);
                    let mut k: usize = 0;
                    while k < rest.len()
                        invariant
                            k <= rest@.len(),
                            out@.len() == k + 1,
                            out@[0]@ == n_v,
                            forall|j: int| 0 <= j < k ==> #[trigger] out@[j + 1]@ == rest@[j]@,
                        decreases rest@.len() - k,
                    {
                        let c = crate::text::clone_chars(&rest[k]);
                        out.push(c);
                        k = k + 1;
                    }
                    proof {
                        assert forall|j: int| 0 <= j < out@.len() implies out@.map_values(
                            |n: Vec<char>| n@,
                        )[j] == (seq![n_v] + rest_v)[j] by {
                            if j > 0 {
                                assert(out@[j] == out@[(j - 1) + 1]);
                            }
                        }
                        assert(out@.map_values(|n: Vec<char>| n@) =~= seq![n_v] + rest_v);
                    }
                    Result::Ok(out)
                },
            }
        },
        _ => Result::Err(Error::ParseError),
    }
}

/// The parenthesized argument expressions of a call.
pub fn parse_fn_call_args(lexer: &mut Lexer, fuel: u64) -> (r: Result<Vec<S>, Error>)
    ensures
        ({
            let sp = fn_call_args_spec(old(lexer)@, fuel as nat);
            match r {
                Result::Ok(es) => sp == Result::Ok::<_, Error>((ss_view(es@), final(lexer)@)),
                Result::Err(er) => sp == Result::Err::<(Seq<SV>, Seq<TokenV>), _>(er),
            }
        }),
    decreases fuel,
{
    if fuel == 0 {
        return Result::Err(Error::OutOfFuel);
    }
    let open_p = lexer.next();
    match open_p.ty {
        TokenType::LParen => {},
        _ => {
            return Result::Err(Error::ParseError);
        },
    }
    call_args_loop(lexer, fuel - 1)
}

fn call_args_loop(lexer: &mut Lexer, fuel: u64) -> (r: Result<Vec<S>, Error>)
    ensures
        ({
            let sp = call_args_loop_spec(old(lexer)@, fuel as nat);
            match r {
                Result::Ok(es) => sp == Result::Ok::<_, Error>((ss_view(es@), final(lexer)@)),
                Result::Err(er) => sp == Result::Err::<(Seq<SV>, Seq<TokenV>), _>(er),
            }
        }),
    decreases fuel,
{
    if fuel == 0 {
        return Result::Err(Error::OutOfFuel);
    }
    let t = lexer.peek();
    match t.ty {
        TokenType::RParen => {
            let _c = lexer.next();
            let es: Vec<S> = Vec::new();
            proof {
                assert(ss_view(es@) =~= Seq::<SV>::empty());
            }
            Result::Ok(es)
        },
        _ => {
            match expr_bp(lexer, 0, fuel - 1) {
                Result::Err(e) => Result::Err(e),
                Result::Ok(e) => {
                    let pk = lexer.peek();
                    match pk.ty {
                        TokenType::Comma => {
                            let _c = lexer.next();
                        },
                        _ => {},
                    }
                    match call_args_loop(lexer, fuel - 1) {
                        Result::Err(er) => Result::Err(er),
                        Result::Ok(rest) => {
                            let ghost e_v = crate::parser::s_view(e);
                            let mut out: Vec<S> = Vec::new();
                            out.push(e);
                            let mut k: usize = 0;
                            while k < rest.len()
                                invariant
                                    k <= rest@.len(),
                                    out@.len() == k + 1,
                                    crate::parser::s_view(out@[0]) == e_v,
                                    forall|j: int| 0 <= j < k ==> crate::parser::s_view(
                                        #[trigger] out@[j + 1],
                                    ) == crate::parser::s_view(rest@[j]),
                                decreases rest@.len() - k,
                            {
                                proof {
                                    assert(decreases_to!(rest => rest@[k as int]));
                                }
                                let c = clone_s(&rest[k]);
                                out.push(c);
                                k = k + 1;
                            }
                            proof {
                                lemma_ss_view_len(out@);
                                lemma_ss_view_len(rest@);
                                assert forall|j: int| 0 <= j < out@.len() implies ss_view(out@)[j]
                                    == (seq![e_v] + ss_view(rest@))[j] by {
                                    lemma_ss_view_index(out@, j);
                                    if j > 0 {
                                        lemma_ss_view_index(rest@, j - 1);
                                        assert(out@[j] == out@[(j - 1) + 1]);
                                    }
                                }
                                assert(ss_view(out@) =~= seq![e_v] + ss_view(rest@));
                            }
                            Result::Ok(out)
                        },
                    }
                },
            }
        },
    }
}

} // verus!
