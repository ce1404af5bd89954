//! The scanner: source text to a classified token stream.
//!
//! Scanning is total: a lexeme no rule accepts becomes an `Unknown`
//! token, and a run aborts before parsing when one is present.  Only
//! ASCII letters, digits and `_` form identifiers and numbers.  A
//! number lexeme with a decimal point is resolved by the caller's
//! literal-parsing hook; everything else is scanned by the library
//! itself.
use vstd::prelude::*;

use crate::atom::{Atom, AtomV};
use crate::text::{all_digits, chars_eq, clone_chars, digits_to_i64, digits_val, is_digit,
    str_to_chars};
use crate::token::{Token, TokenType, TokenTypeV, TokenV, token_view, tokens_view,
    lemma_tokens_view_cons};
use crate::{obeys_parse, parse_callable};
use vstd::slice::{slice_subrange, slice_to_vec};

verus! {

/// A line break.
pub open spec fn is_newline(c: char) -> bool {
    c == '\n' || c == '\r'
}

/// A character of a number lexeme: a digit or a decimal point.
pub open spec fn is_num_char(c: char) -> bool {
    is_digit(c) || c == '.'
}

/// An ASCII letter.
pub open spec fn is_alpha(c: char) -> bool {
    (97 <= c as u32 <= 122) || (65 <= c as u32 <= 90)
}

/// A character of an identifier: a letter, a digit or `_`.
pub open spec fn is_ident_char(c: char) -> bool {
    is_alpha(c) || is_digit(c) || c == '_'
}

/// Blank space inside a line.
pub open spec fn is_space(c: char) -> bool {
    c == ' ' || c == '\t'
}

pub open spec fn num_pred() -> spec_fn(char) -> bool {
    |c: char| is_num_char(c)
}

pub open spec fn ident_pred() -> spec_fn(char) -> bool {
    |c: char| is_ident_char(c)
}

pub open spec fn comment_pred() -> spec_fn(char) -> bool {
    |c: char| !is_newline(c)
}

pub open spec fn quote_pred() -> spec_fn(char) -> bool {
    |c: char| c != '"'
}

/// The first position at or after `i` whose character fails `p`, or
/// the end of the text.
pub open spec fn span_end(s: Seq<char>, i: int, p: spec_fn(char) -> bool) -> int
    decreases s.len() - i,
{
    if i < 0 || i >= s.len() || !p(s[i]) {
        i
    } else {
        span_end(s, i + 1, p)
    }
}

pub proof fn lemma_span_end(s: Seq<char>, i: int, p: spec_fn(char) -> bool)
    requires
        0 <= i <= s.len(),
    ensures
        i <= span_end(s, i, p) <= s.len(),
        forall|j: int| i <= j < span_end(s, i, p) ==> p(#[trigger] s[j]),
        span_end(s, i, p) < s.len() ==> !p(s[span_end(s, i, p)]),
    decreases s.len() - i,
{
    if i < s.len() && p(s[i]) {
        lemma_span_end(s, i + 1, p);
    }
}

/// The text with the given characters, most significant digit first,
/// read as a token: an integer literal when it has no decimal point
/// and fits an `i64`, a float literal (resolved by `flp`) when it has
/// one, and `Unknown` otherwise.
pub open spec fn num_token_ty(
    flp: spec_fn(Seq<char>) -> Option<u64>,
    w: Seq<char>,
) -> TokenTypeV {
    if exists|j: int| 0 <= j < w.len() && w[j] == '.' {
        match flp(w) {
            Option::Some(b) => TokenTypeV::Literal(AtomV::Float(b)),
            Option::None => TokenTypeV::Unknown,
        }
    } else {
        if digits_val(w) <= i64::MAX {
            TokenTypeV::Literal(AtomV::Int(digits_val(w) as i64))
        } else {
            TokenTypeV::Unknown
        }
    }
}

/// The keyword a lexeme spells, if any.
pub open spec fn keyword_ty(w: Seq<char>) -> Option<TokenTypeV> {
    if w == seq!['l', 'e', 't'] {
        Option::Some(TokenTypeV::Let)
    } else if w == seq!['i', 'f'] {
        Option::Some(TokenTypeV::If)
    } else if w == seq!['e', 'l', 's', 'e'] {
        Option::Some(TokenTypeV::Else)
    } else if w == seq!['e', 'l', 'i', 'f'] {
        Option::Some(TokenTypeV::Elif)
    } else if w == seq!['t', 'r', 'u', 'e'] {
        Option::Some(TokenTypeV::True)
    } else if w == seq!['f', 'a', 'l', 's', 'e'] {
        Option::Some(TokenTypeV::False)
    } else if w == seq!['f', 'o', 'r'] {
        Option::Some(TokenTypeV::For)
    } else if w == seq!['w', 'h', 'i', 'l', 'e'] {
        Option::Some(TokenTypeV::While)
    } else if w == seq!['f', 'n'] {
        Option::Some(TokenTypeV::Function)
    } else if w == seq!['s', 't', 'r', 'u', 'c', 't'] {
        Option::Some(TokenTypeV::Struct)
    } else if w == seq!['b', 'r', 'e', 'a', 'k'] {
        Option::Some(TokenTypeV::Break)
    } else if w == seq!['p', 'r', 'i', 'n', 't'] {
        Option::Some(TokenTypeV::Print)
    } else if w == seq!['a', 'n', 'd'] {
        Option::Some(TokenTypeV::And)
    } else if w == seq!['o', 'r'] {
        Option::Some(TokenTypeV::Or)
    } else {
        Option::None
    }
}

pub open spec fn tokv(ty: TokenTypeV, lexeme: Seq<char>, line: nat) -> TokenV {
    TokenV { ty, lexeme, line }
}

pub open spec fn spec_tail(s: Seq<char>, k: int) -> Seq<char> {
    s.subrange(k, s.len() as int)
}

/// The token stream of the text `s`, with `line` the line the text
/// starts on.  `flp` resolves float literals.  This is the meaning of
/// [`scan_tokens`].
pub open spec fn lex(flp: spec_fn(Seq<char>) -> Option<u64>, s: Seq<char>, line: nat) -> Seq<
    TokenV,
>
    decreases s.len(),
    via lex_dec
{
    let e: Seq<char> = Seq::empty();
    if s.len() == 0 {
        Seq::empty()
    } else if s.len() == 1 && is_newline(s[0]) {
        Seq::empty()
    } else if s[0] == '#' {
        lex(flp, spec_tail(s, span_end(s, 0, comment_pred())), line)
    } else if is_newline(s[0]) {
        seq![tokv(TokenTypeV::NewLine, e, line)] + lex(flp, spec_tail(s, 1), line + 1)
    } else if s.len() >= 2 && s[0] == '&' && s[1] == '&' {
        seq![tokv(TokenTypeV::And, e, line)] + lex(flp, spec_tail(s, 2), line)
    } else if s.len() >= 2 && s[0] == '|' && s[1] == '|' {
        seq![tokv(TokenTypeV::Or, e, line)] + lex(flp, spec_tail(s, 2), line)
    } else if s.len() >= 2 && s[0] == '+' && s[1] == '=' {
        seq![tokv(TokenTypeV::PlusAssign, e, line)] + lex(flp, spec_tail(s, 2), line)
    } else if s.len() >= 2 && s[0] == '-' && s[1] == '=' {
        seq![tokv(TokenTypeV::MinusAssign, e, line)] + lex(flp, spec_tail(s, 2), line)
    } else if s.len() >= 2 && s[0] == '!' && s[1] == '=' {
        seq![tokv(TokenTypeV::BangEqual, e, line)] + lex(flp, spec_tail(s, 2), line)
    } else if s.len() >= 2 && s[0] == '<' && s[1] == '=' {
        seq![tokv(TokenTypeV::LessEqual, e, line)] + lex(flp, spec_tail(s, 2), line)
    } else if s.len() >= 2 && s[0] == '>' && s[1] == '=' {
        seq![tokv(TokenTypeV::GreaterEqual, e, line)] + lex(flp, spec_tail(s, 2), line)
    } else if s.len() >= 2 && s[0] == '=' && s[1] == '=' {
        seq![tokv(TokenTypeV::Equal, e, line)] + lex(flp, spec_tail(s, 2), line)
    } else if s[0] == '=' {
        seq![tokv(TokenTypeV::Assign, e, line)] + lex(flp, spec_tail(s, 1), line)
    } else if s[0] == '<' {
        seq![tokv(TokenTypeV::Less, e, line)] + lex(flp, spec_tail(s, 1), line)
    } else if s[0] == '>' {
        seq![tokv(TokenTypeV::Greater, e, line)] + lex(flp, spec_tail(s, 1), line)
    } else if s[0] == '(' {
        seq![tokv(TokenTypeV::LParen, e, line)] + lex(flp, spec_tail(s, 1), line)
    } else if s[0] == ')' {
        seq![tokv(TokenTypeV::RParen, e, line)] + lex(flp, spec_tail(s, 1), line)
    } else if s[0] == '{' {
        seq![tokv(TokenTypeV::LBrace, e, line)] + lex(flp, spec_tail(s, 1), line)
    } else if s[0] == '}' {
        seq![tokv(TokenTypeV::RBrace, e, line)] + lex(flp, spec_tail(s, 1), line)
    } else if s[0] == ',' {
        seq![tokv(TokenTypeV::Comma, e, line)] + lex(flp, spec_tail(s, 1), line)
    } else if s[0] == '*' {
        seq![tokv(TokenTypeV::Star, e, line)] + lex(flp, spec_tail(s, 1), line)
    } else if s[0] == '/' {
        seq![tokv(TokenTypeV::Slash, e, line)] + lex(flp, spec_tail(s, 1), line)
    } else if s[0] == '-' {
        seq![tokv(TokenTypeV::Minus, e, line)] + lex(flp, spec_tail(s, 1), line)
    } else if s[0] == '+' {
        seq![tokv(TokenTypeV::Plus, e, line)] + lex(flp, spec_tail(s, 1), line)
    } else if s[0] == '%' {
        seq![tokv(TokenTypeV::Percent, e, line)] + lex(flp, spec_tail(s, 1), line)
    } else if s[0] == '.' {
        seq![tokv(TokenTypeV::Dot, e, line)] + lex(flp, spec_tail(s, 1), line)
    } else if s[0] == ';' {
        seq![tokv(TokenTypeV::Semicolon, e, line)] + lex(flp, spec_tail(s, 1), line)
    } else if s[0] == '[' {
        seq![tokv(TokenTypeV::LBracket, e, line)] + lex(flp, spec_tail(s, 1), line)
    } else if s[0] == ']' {
        seq![tokv(TokenTypeV::RBracket, e, line)] + lex(flp, spec_tail(s, 1), line)
    } else if s[0] == '!' {
        seq![tokv(TokenTypeV::Bang, e, line)] + lex(flp, spec_tail(s, 1), line)
    } else if s[0] == '"' {
        let q = span_end(s, 1, quote_pred());
        if q >= s.len() {
            seq![tokv(TokenTypeV::Unknown, e, line)]
        } else {
            let w = s.subrange(1, q);
            seq![tokv(TokenTypeV::Literal(AtomV::Str(w)), w, line)] + lex(
                flp,
                spec_tail(s, q + 1),
                line,
            )
        }
    } else if is_digit(s[0]) {
        let j = span_end(s, 0, num_pred());
        let w = s.subrange(0, j);
        seq![tokv(num_token_ty(flp, w), w, line)] + lex(flp, spec_tail(s, j), line)
    } else if is_alpha(s[0]) {
        let j = span_end(s, 0, ident_pred());
        let w = s.subrange(0, j);
        match keyword_ty(w) {
            Option::Some(ty) => seq![tokv(ty, e, line)] + lex(flp, spec_tail(s, j), line),
            Option::None => seq![tokv(TokenTypeV::Identifier, w, line)] + lex(
                flp,
                spec_tail(s, j),
                line,
            ),
        }
    } else if is_space(s[0]) {
        lex(flp, spec_tail(s, 1), line)
    } else {
        seq![tokv(TokenTypeV::Unknown, e, line)]
    }
}

#[via_fn]
proof fn lex_dec(flp: spec_fn(Seq<char>) -> Option<u64>, s: Seq<char>, line: nat) {
    if s.len() > 0 {
        lemma_span_end(s, 0, comment_pred());
        if s[0] == '#' {
            assert(comment_pred()(s[0]));
        }
        lemma_span_end(s, 0, num_pred());
        if is_digit(s[0]) {
            assert(num_pred()(s[0]));
        }
        lemma_span_end(s, 0, ident_pred());
        if is_alpha(s[0]) {
            assert(ident_pred()(s[0]));
        }
        if s.len() >= 1 {
            lemma_span_end(s, 1, quote_pred());
        }
    }
}

/// The text after a comment: everything from the first line break on,
/// or nothing when the comment runs to the end.
pub fn skip_comment(source: &[char]) -> (r: Vec<char>)
    ensures
        r@ == spec_tail(source@, span_end(source@, 0, comment_pred())),
{
    proof {
        lemma_span_end(source@, 0, comment_pred());
    }
    let e = span_to_comment(source, 0);
    slice_to_vec(slice_subrange(source, e, source.len()))
}

fn is_digit_x(c: char) -> (r: bool)
    ensures
        r == is_digit(c),
{
    let u = c as u32;
    48 <= u && u <= 57
}

fn is_newline_x(c: char) -> (r: bool)
    ensures
        r == is_newline(c),
{
    c == '\n' || c == '\r'
}

fn is_alpha_x(c: char) -> (r: bool)
    ensures
        r == is_alpha(c),
{
    let u = c as u32;
    (97 <= u && u <= 122) || (65 <= u && u <= 90)
}

fn span_to_num(source: &[char], i: usize) -> (r: usize)
    requires
        i <= source@.len(),
    ensures
        r == span_end(source@, i as int, num_pred()),
        i <= r <= source@.len(),
    decreases source@.len() - i,
{
    if i < source.len() {
        let c = source[i];
        if is_digit_x(c) || c == '.' {
            return span_to_num(source, i + 1);
        }
    }
    i
}

fn span_to_ident(source: &[char], i: usize) -> (r: usize)
    requires
        i <= source@.len(),
    ensures
        r == span_end(source@, i as int, ident_pred()),
        i <= r <= source@.len(),
    decreases source@.len() - i,
{
    if i < source.len() {
        let c = source[i];
        if is_alpha_x(c) || is_digit_x(c) || c == '_' {
            return span_to_ident(source, i + 1);
        }
    }
    i
}

fn span_to_comment(source: &[char], i: usize) -> (r: usize)
    requires
        i <= source@.len(),
    ensures
        r == span_end(source@, i as int, comment_pred()),
        i <= r <= source@.len(),
    decreases source@.len() - i,
{
    if i < source.len() {
        let c = source[i];
        if !is_newline_x(c) {
            return span_to_comment(source, i + 1);
        }
    }
    i
}

fn span_to_quote(source: &[char], i: usize) -> (r: usize)
    requires
        i <= source@.len(),
    ensures
        r == span_end(source@, i as int, quote_pred()),
        i <= r <= source@.len(),
    decreases source@.len() - i,
{
    if i < source.len() {
        let c = source[i];
        if c != '"' {
            return span_to_quote(source, i + 1);
        }
    }
    i
}

/// `rest` with `t` put in front.
fn cons_tok(t: Token, rest: Vec<Token>) -> (r: Vec<Token>)
    ensures
        r@ == seq![t] + rest@,
{
    let ghost orig = rest@;
    let mut r = rest;
    r.insert(0, t);
    proof {
        assert(r@ =~= seq![t] + orig);
    }
    r
}

/// Whether the text holds a decimal point.
fn has_dot(w: &Vec<char>) -> (r: bool)
    ensures
        r == exists|j: int| 0 <= j < w@.len() && w@[j] == '.',
{
    let mut i: usize = 0;
    while i < w.len()
        invariant
            i <= w@.len(),
            forall|j: int| 0 <= j < i ==> w@[j] != '.',
        decreases w@.len() - i,
    {
        if w[i] == '.' {
            return true;
        }
        i = i + 1;
    }
    false
}

/// One number lexeme and the tokens after it.
fn num_token<FL: Fn(&Vec<char>) -> Option<u64>>(
    source: &[char],
    line: usize,
    fl: &FL,
) -> (r: Vec<Token>)
    requires
        parse_callable(*fl),
        source@.len() > 0,
        is_digit(source@[0]),
        line + source@.len() <= usize::MAX,
    ensures
        forall|flp: spec_fn(Seq<char>) -> Option<u64>|
            obeys_parse(*fl, flp) ==> tokens_view(r@) == lex(flp, source@, line as nat),
    decreases source@.len(), 1int,
{
    let ghost s = source@;
    let j = span_to_num(source, 0);
    proof {
        lemma_span_end(s, 0, num_pred());
        assert(num_pred()(s[0]));
        assert(j >= 1);
    }
    let lexv = slice_to_vec(slice_subrange(source, 0, j));
    let tok: Token;
    if has_dot(&lexv) {
        let parsed = fl(&lexv);
        match parsed {
            Option::Some(b) => {
                let lex2 = clone_chars(&lexv);
                tok = Token::new(TokenType::Literal(Atom::Float(b)), lex2, line);
            },
            Option::None => {
                tok = Token::new(TokenType::Unknown, lexv, line);
            },
        }
    } else {
        proof {
            assert forall|k: int| 0 <= k < lexv@.len() implies is_digit(#[trigger] lexv@[k]) by {
                assert(num_pred()(s[k]));
            }
        }
        let parsed = digits_to_i64(&lexv);
        match parsed {
            Option::Some(n) => {
                let lex2 = clone_chars(&lexv);
                tok = Token::new(TokenType::Literal(Atom::Int(n)), lex2, line);
            },
            Option::None => {
                tok = Token::new(TokenType::Unknown, lexv, line);
            },
        }
    }
    let rest = token_recurse(slice_subrange(source, j, source.len()), line, fl);
    let r = cons_tok(tok, rest);
    proof {
        lemma_tokens_view_cons(tok, rest@);
        assert forall|flp: spec_fn(Seq<char>) -> Option<u64>| obeys_parse(*fl, flp) implies
            tokens_view(r@) == lex(flp, s, line as nat) by {
            assert(lex(flp, s, line as nat) == seq![tokv(num_token_ty(flp, s.subrange(0, j as int)), s.subrange(0, j as int), line as nat)]
                + lex(flp, spec_tail(s, j as int), line as nat));
        }
    }
    r
}

/// One identifier or keyword lexeme and the tokens after it.
fn ident_token<FL: Fn(&Vec<char>) -> Option<u64>>(
    source: &[char],
    line: usize,
    fl: &FL,
) -> (r: Vec<Token>)
    requires
        parse_callable(*fl),
        source@.len() > 0,
        is_alpha(source@[0]),
        line + source@.len() <= usize::MAX,
    ensures
        forall|flp: spec_fn(Seq<char>) -> Option<u64>|
            obeys_parse(*fl, flp) ==> tokens_view(r@) == lex(flp, source@, line as nat),
    decreases source@.len(), 1int,
{
    let ghost s = source@;
    let j = span_to_ident(source, 0);
    proof {
        lemma_span_end(s, 0, ident_pred());
        assert(ident_pred()(s[0]));
        assert(j >= 1);
    }
    let lexv = slice_to_vec(slice_subrange(source, 0, j));
    let tok: Token;
    let kw = keyword_of(&lexv);
    match kw {
        Option::Some(ty) => {
            let empty: Vec<char> = Vec::new();
            proof {
                assert(empty@ =~= Seq::<char>::empty());
            }
            tok = Token::new(ty, empty, line);
        },
        Option::None => {
            tok = Token::new(TokenType::Identifier, lexv, line);
        },
    }
    let rest = token_recurse(slice_subrange(source, j, source.len()), line, fl);
    let r = cons_tok(tok, rest);
    proof {
        lemma_tokens_view_cons(tok, rest@);
        assert forall|flp: spec_fn(Seq<char>) -> Option<u64>| obeys_parse(*fl, flp) implies
            tokens_view(r@) == lex(flp, s, line as nat) by {
        }
    }
    r
}

/// The keyword classification of a lexeme, if it is one.
fn keyword_of(w: &Vec<char>) -> (r: Option<TokenType>)
    ensures
        match r {
            Option::Some(ty) => keyword_ty(w@) == Option::Some(ty@),
            Option::None => keyword_ty(w@) is None,
        },
{
    let k01: Vec<char> = vec!['l', 'e', 't'];
    let k02: Vec<char> = vec!['i', 'f'];
    let k03: Vec<char> = vec!['e', 'l', 's', 'e'];
    let k04: Vec<char> = vec!['e', 'l', 'i', 'f'];
    let k05: Vec<char> = vec!['t', 'r', 'u', 'e'];
    let k06: Vec<char> = vec!['f', 'a', 'l', 's', 'e'];
    let k07: Vec<char> = vec!['f', 'o', 'r'];
    let k08: Vec<char> = vec!['w', 'h', 'i', 'l', 'e'];
    let k09: Vec<char> = vec!['f', 'n'];
    let k10: Vec<char> = vec!['s', 't', 'r', 'u', 'c', 't'];
    let k11: Vec<char> = vec!['b', 'r', 'e', 'a', 'k'];
    let k12: Vec<char> = vec!['p', 'r', 'i', 'n', 't'];
    let k13: Vec<char> = vec!['a', 'n', 'd'];
    let k14: Vec<char> = vec!['o', 'r'];
    if chars_eq(w, &k01) {
        Option::Some(TokenType::Let)
    } else if chars_eq(w, &k02) {
        Option::Some(TokenType::If)
    } else if chars_eq(w, &k03) {
        Option::Some(TokenType::Else)
    } else if chars_eq(w, &k04) {
        Option::Some(TokenType::Elif)
    } else if chars_eq(w, &k05) {
        Option::Some(TokenType::True)
    } else if chars_eq(w, &k06) {
        Option::Some(TokenType::False)
    } else if chars_eq(w, &k07) {
        Option::Some(TokenType::For)
    } else if chars_eq(w, &k08) {
        Option::Some(TokenType::While)
    } else if chars_eq(w, &k09) {
        Option::Some(TokenType::Function)
    } else if chars_eq(w, &k10) {
        Option::Some(TokenType::Struct)
    } else if chars_eq(w, &k11) {
        Option::Some(TokenType::Break)
    } else if chars_eq(w, &k12) {
        Option::Some(TokenType::Print)
    } else if chars_eq(w, &k13) {
        Option::Some(TokenType::And)
    } else if chars_eq(w, &k14) {
        Option::Some(TokenType::Or)
    } else {
        Option::None
    }
}

/// The tokens of the text, carrying `line` as the line the text
/// starts on.
fn token_recurse<FL: Fn(&Vec<char>) -> Option<u64>>(
    source: &[char],
    line: usize,
    fl: &FL,
) -> (r: Vec<Token>)
    requires
        parse_callable(*fl),
        line + source@.len() <= usize::MAX,
    ensures
        forall|flp: spec_fn(Seq<char>) -> Option<u64>|
            obeys_parse(*fl, flp) ==> tokens_view(r@) == lex(flp, source@, line as nat),
    decreases source@.len(), 2int,
{
    let ghost s = source@;
    let n = source.len();
    let empty: Vec<char> = Vec::new();
    proof {
        assert(empty@ =~= Seq::<char>::empty());
    }
    if n == 0 {
        let r: Vec<Token> = Vec::new();
        proof {
            assert(tokens_view(r@) =~= Seq::<TokenV>::empty());
        }
        return r;
    }
    let c = source[0];
    if n == 1 && is_newline_x(c) {
        let r: Vec<Token> = Vec::new();
        proof {
            assert(tokens_view(r@) =~= Seq::<TokenV>::empty());
        }
        return r;
    }
    if c == '#' {
        proof {
            lemma_span_end(s, 0, comment_pred());
            assert(comment_pred()(s[0]));
        }
        let e = span_to_comment(source, 0);
        return token_recurse(slice_subrange(source, e, n), line, fl);
    }
    if is_newline_x(c) {
        let tok = Token::new(TokenType::NewLine, empty, line);
        let rest = token_recurse(slice_subrange(source, 1, n), line + 1, fl);
        let r = cons_tok(tok, rest);
        proof {
            lemma_tokens_view_cons(tok, rest@);
        }
        return r;
    }
    let c2: char = if n >= 2 {
        source[1]
    } else {
        c
    };
    let two: Option<TokenType> = if n >= 2 {
        if c == '&' && c2 == '&' {
            Option::Some(TokenType::And)
        } else if c == '|' && c2 == '|' {
            Option::Some(TokenType::Or)
        } else if c == '+' && c2 == '=' {
            Option::Some(TokenType::PlusAssign)
        } else if c == '-' && c2 == '=' {
            Option::Some(TokenType::MinusAssign)
        } else if c == '!' && c2 == '=' {
            Option::Some(TokenType::BangEqual)
        } else if c == '<' && c2 == '=' {
            Option::Some(TokenType::LessEqual)
        } else if c == '>' && c2 == '=' {
            Option::Some(TokenType::GreaterEqual)
        } else if c == '=' && c2 == '=' {
            Option::Some(TokenType::Equal)
        } else {
            Option::None
        }
    } else {
        Option::None
    };
    match two {
        Option::Some(ty) => {
            let tok = Token::new(ty, empty, line);
            let rest = token_recurse(slice_subrange(source, 2, n), line, fl);
            let r = cons_tok(tok, rest);
            proof {
                lemma_tokens_view_cons(tok, rest@);
            }
            return r;
        },
        Option::None => {},
    }
    let one: Option<TokenType> = if c == '=' {
        Option::Some(TokenType::Assign)
    } else if c == '<' {
        Option::Some(TokenType::Less)
    } else if c == '>' {
        Option::Some(TokenType::Greater)
    } else if c == '(' {
        Option::Some(TokenType::LParen)
    } else if c == ')' {
        Option::Some(TokenType::RParen)
    } else if c == '{' {
        Option::Some(TokenType::LBrace)
    } else if c == '}' {
        Option::Some(TokenType::RBrace)
    } else if c == ',' {
        Option::Some(TokenType::Comma)
    } else if c == '*' {
        Option::Some(TokenType::Star)
    } else if c == '/' {
        Option::Some(TokenType::Slash)
    } else if c == '-' {
        Option::Some(TokenType::Minus)
    } else if c == '+' {
        Option::Some(TokenType::Plus)
    } else if c == '%' {
        Option::Some(TokenType::Percent)
    } else if c == '.' {
        Option::Some(TokenType::Dot)
    } else if c == ';' {
        Option::Some(TokenType::Semicolon)
    } else if c == '[' {
        Option::Some(TokenType::LBracket)
    } else if c == ']' {
        Option::Some(TokenType::RBracket)
    } else if c == '!' {
        Option::Some(TokenType::Bang)
    } else {
        Option::None
    };
    match one {
        Option::Some(ty) => {
            let tok = Token::new(ty, empty, line);
            let rest = token_recurse(slice_subrange(source, 1, n), line, fl);
            let r = cons_tok(tok, rest);
            proof {
                lemma_tokens_view_cons(tok, rest@);
            }
            return r;
        },
        Option::None => {},
    }
    if c == '"' {
        proof {
            lemma_span_end(s, 1, quote_pred());
        }
        let q = span_to_quote(source, 1);
        if q >= n {
            let tok = Token::new(TokenType::Unknown, empty, line);
            let mut r: Vec<Token> = Vec::new();
            r.push(tok);
            proof {
                assert(r@ =~= seq![tok]);
                lemma_tokens_view_cons(tok, Seq::<Token>::empty());
                assert(seq![tok] =~= seq![tok] + Seq::<Token>::empty());
                assert(tokens_view(r@) =~= seq![token_view(tok)]);
            }
            return r;
        }
        let content = slice_to_vec(slice_subrange(source, 1, q));
        let content2 = clone_chars(&content);
        let tok = Token::new(TokenType::Literal(Atom::Str(content)), content2, line);
        let rest = token_recurse(slice_subrange(source, q + 1, n), line, fl);
        let r = cons_tok(tok, rest);
        proof {
            lemma_tokens_view_cons(tok, rest@);
        }
        return r;
    }
    if is_digit_x(c) {
        return num_token(source, line, fl);
    }
    if is_alpha_x(c) {
        return ident_token(source, line, fl);
    }
    if c == ' ' || c == '\t' {
        return token_recurse(slice_subrange(source, 1, n), line, fl);
    }
    let tok = Token::new(TokenType::Unknown, empty, line);
    let mut r: Vec<Token> = Vec::new();
    r.push(tok);
    proof {
        assert(r@ =~= seq![tok] + Seq::<Token>::empty());
        lemma_tokens_view_cons(tok, Seq::<Token>::empty());
        assert(tokens_view(Seq::<Token>::empty()) =~= Seq::<TokenV>::empty());
        assert(tokens_view(r@) =~= seq![token_view(tok)]);
    }
    r
}

/// The token stream of the source text, lines counted from zero.
/// `fl` resolves float literals (see `obeys_parse`); every other
/// lexeme is resolved by the library itself.
pub fn scan_tokens<FL: Fn(&Vec<char>) -> Option<u64>>(source: &str, fl: &FL) -> (r: Vec<Token>)
    requires
        parse_callable(*fl),
    ensures
        forall|flp: spec_fn(Seq<char>) -> Option<u64>|
            obeys_parse(*fl, flp) ==> tokens_view(r@) == lex(flp, source@, 0),
{
    let chars = str_to_chars(source);
    let n = chars.len();
    proof {
        assert(chars@.len() == n);
    }
    token_recurse(chars.as_slice(), 0, fl)
}

} // verus!
