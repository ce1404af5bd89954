//! Tokens: classified lexemes with the line they were read on.
use vstd::prelude::*;

use crate::atom::{Atom, AtomV, atom_view};

verus! {

/// The classification of a token.
#[derive(Debug)]
pub enum TokenType {
    Let,
    WhiteSpace,
    NewLine,
    LParen,
    RParen,
    LBrace,
    RBrace,
    Comma,
    Dot,
    Plus,
    PlusAssign,
    Minus,
    MinusAssign,
    Slash,
    Star,
    Bang,
    BangEqual,
    Equal,
    Assign,
    Greater,
    GreaterEqual,
    Less,
    LessEqual,
    Identifier,
    /// A resolved constant: text, integer, float or truth value.
    Literal(Atom),
    Percent,
    Semicolon,
    LBracket,
    RBracket,
    Break,
    And,
    Or,
    Struct,
    If,
    Else,
    Elif,
    True,
    False,
    Function,
    For,
    While,
    Print,
    EOF,
    Hash,
    /// A lexeme no rule accepts; a run that produced one is aborted
    /// before parsing starts.
    Unknown,
}

/// A classified lexeme and the line it was read on.
#[derive(Debug)]
pub struct Token {
    pub ty: TokenType,
    pub lexeme: Vec<char>,
    pub line: usize,
}

/// The mathematical model of a token classification.
#[verifier::ext_equal]
pub enum TokenTypeV {
    Let,
    WhiteSpace,
    NewLine,
    LParen,
    RParen,
    LBrace,
    RBrace,
    Comma,
    Dot,
    Plus,
    PlusAssign,
    Minus,
    MinusAssign,
    Slash,
    Star,
    Bang,
    BangEqual,
    Equal,
    Assign,
    Greater,
    GreaterEqual,
    Less,
    LessEqual,
    Identifier,
    Literal(AtomV),
    Percent,
    Semicolon,
    LBracket,
    RBracket,
    Break,
    And,
    Or,
    Struct,
    If,
    Else,
    Elif,
    True,
    False,
    Function,
    For,
    While,
    Print,
    EOF,
    Hash,
    Unknown,
}

/// The mathematical model of a token.
#[verifier::ext_equal]
pub struct TokenV {
    pub ty: TokenTypeV,
    pub lexeme: Seq<char>,
    pub line: nat,
}

pub open spec fn tokentype_view(t: TokenType) -> TokenTypeV
    decreases t,
{
    match t {
        TokenType::Let => TokenTypeV::Let,
        TokenType::WhiteSpace => TokenTypeV::WhiteSpace,
        TokenType::NewLine => TokenTypeV::NewLine,
        TokenType::LParen => TokenTypeV::LParen,
        TokenType::RParen => TokenTypeV::RParen,
        TokenType::LBrace => TokenTypeV::LBrace,
        TokenType::RBrace => TokenTypeV::RBrace,
        TokenType::Comma => TokenTypeV::Comma,
        TokenType::Dot => TokenTypeV::Dot,
        TokenType::Plus => TokenTypeV::Plus,
        TokenType::PlusAssign => TokenTypeV::PlusAssign,
        TokenType::Minus => TokenTypeV::Minus,
        TokenType::MinusAssign => TokenTypeV::MinusAssign,
        TokenType::Slash => TokenTypeV::Slash,
        TokenType::Star => TokenTypeV::Star,
        TokenType::Bang => TokenTypeV::Bang,
        TokenType::BangEqual => TokenTypeV::BangEqual,
        TokenType::Equal => TokenTypeV::Equal,
        TokenType::Assign => TokenTypeV::Assign,
        TokenType::Greater => TokenTypeV::Greater,
        TokenType::GreaterEqual => TokenTypeV::GreaterEqual,
        TokenType::Less => TokenTypeV::Less,
        TokenType::LessEqual => TokenTypeV::LessEqual,
        TokenType::Identifier => TokenTypeV::Identifier,
        TokenType::Literal(a) => TokenTypeV::Literal(atom_view(a)),
        TokenType::Percent => TokenTypeV::Percent,
        TokenType::Semicolon => TokenTypeV::Semicolon,
        TokenType::LBracket => TokenTypeV::LBracket,
        TokenType::RBracket => TokenTypeV::RBracket,
        TokenType::Break => TokenTypeV::Break,
        TokenType::And => TokenTypeV::And,
        TokenType::Or => TokenTypeV::Or,
        TokenType::Struct => TokenTypeV::Struct,
        TokenType::If => TokenTypeV::If,
        TokenType::Else => TokenTypeV::Else,
        TokenType::Elif => TokenTypeV::Elif,
        TokenType::True => TokenTypeV::True,
        TokenType::False => TokenTypeV::False,
        TokenType::Function => TokenTypeV::Function,
        TokenType::For => TokenTypeV::For,
        TokenType::While => TokenTypeV::While,
        TokenType::Print => TokenTypeV::Print,
        TokenType::EOF => TokenTypeV::EOF,
        TokenType::Hash => TokenTypeV::Hash,
        TokenType::Unknown => TokenTypeV::Unknown,
    }
}

pub open spec fn token_view(t: Token) -> TokenV {
    TokenV { ty: tokentype_view(t.ty), lexeme: t.lexeme@, line: t.line as nat }
}

pub open spec fn tokens_view(s: Seq<Token>) -> Seq<TokenV>
    decreases s,
{
    if s.len() == 0 {
        Seq::empty()
    } else {
        seq![token_view(s[0])] + tokens_view(s.drop_first())
    }
}

impl View for TokenType {
    type V = TokenTypeV;

    open spec fn view(&self) -> TokenTypeV {
        tokentype_view(*self)
    }
}

impl View for Token {
    type V = TokenV;

    open spec fn view(&self) -> TokenV {
        token_view(*self)
    }
}

impl Token {
    /// A token with the given classification, lexeme and line.
    pub fn new(ty: TokenType, lexeme: Vec<char>, line: usize) -> (r: Token)
        ensures
            r@ == (TokenV { ty: ty@, lexeme: lexeme@, line: line as nat }),
    {
        Token { ty, lexeme, line }
    }

    /// An `Unknown` token on the given line.
    pub fn unknown(line: usize) -> (r: Token)
        ensures
            r@ == (TokenV { ty: TokenTypeV::Unknown, lexeme: Seq::empty(), line: line as nat }),
    {
        let lexeme: Vec<char> = Vec::new();
        proof {
            assert(lexeme@ =~= Seq::<char>::empty());
        }
        Token { ty: TokenType::Unknown, lexeme, line }
    }

    /// A token of the given classification with an empty lexeme.
    pub fn from_ty(ty: TokenType) -> (r: Token)
        ensures
            r@ == (TokenV { ty: ty@, lexeme: Seq::empty(), line: 0 }),
    {
        let lexeme: Vec<char> = Vec::new();
        proof {
            assert(lexeme@ =~= Seq::<char>::empty());
        }
        Token { ty, lexeme, line: 0 }
    }
}

/// A copy of a token, equal in the model.
pub fn clone_token(t: &Token) -> (r: Token)
    ensures
        r@ == t@,
{
    let ty: TokenType = match &t.ty {
        TokenType::Let => TokenType::Let,
        TokenType::WhiteSpace => TokenType::WhiteSpace,
        TokenType::NewLine => TokenType::NewLine,
        TokenType::LParen => TokenType::LParen,
        TokenType::RParen => TokenType::RParen,
        TokenType::LBrace => TokenType::LBrace,
        TokenType::RBrace => TokenType::RBrace,
        TokenType::Comma => TokenType::Comma,
        TokenType::Dot => TokenType::Dot,
        TokenType::Plus => TokenType::Plus,
        TokenType::PlusAssign => TokenType::PlusAssign,
        TokenType::Minus => TokenType::Minus,
        TokenType::MinusAssign => TokenType::MinusAssign,
        TokenType::Slash => TokenType::Slash,
        TokenType::Star => TokenType::Star,
        TokenType::Bang => TokenType::Bang,
        TokenType::BangEqual => TokenType::BangEqual,
        TokenType::Equal => TokenType::Equal,
        TokenType::Assign => TokenType::Assign,
        TokenType::Greater => TokenType::Greater,
        TokenType::GreaterEqual => TokenType::GreaterEqual,
        TokenType::Less => TokenType::Less,
        TokenType::LessEqual => TokenType::LessEqual,
        TokenType::Identifier => TokenType::Identifier,
        TokenType::Literal(a) => TokenType::Literal(crate::atom::clone_atom(a)),
        TokenType::Percent => TokenType::Percent,
        TokenType::Semicolon => TokenType::Semicolon,
        TokenType::LBracket => TokenType::LBracket,
        TokenType::RBracket => TokenType::RBracket,
        TokenType::Break => TokenType::Break,
        TokenType::And => TokenType::And,
        TokenType::Or => TokenType::Or,
        TokenType::Struct => TokenType::Struct,
        TokenType::If => TokenType::If,
        TokenType::Else => TokenType::Else,
        TokenType::Elif => TokenType::Elif,
        TokenType::True => TokenType::True,
        TokenType::False => TokenType::False,
        TokenType::Function => TokenType::Function,
        TokenType::For => TokenType::For,
        TokenType::While => TokenType::While,
        TokenType::Print => TokenType::Print,
        TokenType::EOF => TokenType::EOF,
        TokenType::Hash => TokenType::Hash,
        TokenType::Unknown => TokenType::Unknown,
    };
    Token { ty, lexeme: crate::text::clone_chars(&t.lexeme), line: t.line }
}

/// Structural equality of token classifications; literal payloads
/// compare as [`crate::atom::atom_heq`].
pub open spec fn tt_heq(a: TokenTypeV, b: TokenTypeV) -> bool {
    match (a, b) {
        (TokenTypeV::Literal(x), TokenTypeV::Literal(y)) => crate::atom::atom_heq(x, y),
        _ => a == b,
    }
}

impl PartialEq for TokenType {
    #[verifier::rlimit(50)]
    fn eq(&self, other: &TokenType) -> (r: bool) {
        match (self, other) {
            (TokenType::Literal(x), TokenType::Literal(y)) => crate::atom::atom_eq_x(x, y),
            (TokenType::Let, TokenType::Let) => true,
            (TokenType::WhiteSpace, TokenType::WhiteSpace) => true,
            (TokenType::NewLine, TokenType::NewLine) => true,
            (TokenType::LParen, TokenType::LParen) => true,
            (TokenType::RParen, TokenType::RParen) => true,
            (TokenType::LBrace, TokenType::LBrace) => true,
            (TokenType::RBrace, TokenType::RBrace) => true,
            (TokenType::Comma, TokenType::Comma) => true,
            (TokenType::Dot, TokenType::Dot) => true,
            (TokenType::Plus, TokenType::Plus) => true,
            (TokenType::PlusAssign, TokenType::PlusAssign) => true,
            (TokenType::Minus, TokenType::Minus) => true,
            (TokenType::MinusAssign, TokenType::MinusAssign) => true,
            (TokenType::Slash, TokenType::Slash) => true,
            (TokenType::Star, TokenType::Star) => true,
            (TokenType::Bang, TokenType::Bang) => true,
            (TokenType::BangEqual, TokenType::BangEqual) => true,
            (TokenType::Equal, TokenType::Equal) => true,
            (TokenType::Assign, TokenType::Assign) => true,
            (TokenType::Greater, TokenType::Greater) => true,
            (TokenType::GreaterEqual, TokenType::GreaterEqual) => true,
            (TokenType::Less, TokenType::Less) => true,
            (TokenType::LessEqual, TokenType::LessEqual) => true,
            (TokenType::Identifier, TokenType::Identifier) => true,
            (TokenType::Percent, TokenType::Percent) => true,
            (TokenType::Semicolon, TokenType::Semicolon) => true,
            (TokenType::LBracket, TokenType::LBracket) => true,
            (TokenType::RBracket, TokenType::RBracket) => true,
            (TokenType::Break, TokenType::Break) => true,
            (TokenType::And, TokenType::And) => true,
            (TokenType::Or, TokenType::Or) => true,
            (TokenType::Struct, TokenType::Struct) => true,
            (TokenType::If, TokenType::If) => true,
            (TokenType::Else, TokenType::Else) => true,
            (TokenType::Elif, TokenType::Elif) => true,
            (TokenType::True, TokenType::True) => true,
            (TokenType::False, TokenType::False) => true,
            (TokenType::Function, TokenType::Function) => true,
            (TokenType::For, TokenType::For) => true,
            (TokenType::While, TokenType::While) => true,
            (TokenType::Print, TokenType::Print) => true,
            (TokenType::EOF, TokenType::EOF) => true,
            (TokenType::Hash, TokenType::Hash) => true,
            (TokenType::Unknown, TokenType::Unknown) => true,
            _ => false,
        }
    }
}

impl vstd::std_specs::cmp::PartialEqSpecImpl for TokenType {
    open spec fn obeys_eq_spec() -> bool {
        true
    }

    open spec fn eq_spec(&self, other: &TokenType) -> bool {
        tt_heq(tokentype_view(*self), tokentype_view(*other))
    }
}

impl PartialEq for Token {
    fn eq(&self, other: &Token) -> (r: bool) {
        self.ty == other.ty && crate::text::chars_eq(&self.lexeme, &other.lexeme) && self.line
            == other.line
    }
}

impl vstd::std_specs::cmp::PartialEqSpecImpl for Token {
    open spec fn obeys_eq_spec() -> bool {
        true
    }

    open spec fn eq_spec(&self, other: &Token) -> bool {
        tt_heq(tokentype_view(self.ty), tokentype_view(other.ty)) && self.lexeme@ == other.lexeme@
            && self.line == other.line
    }
}

pub proof fn lemma_tokens_view_len(s: Seq<Token>)
    ensures
        tokens_view(s).len() == s.len(),
    decreases s,
{
    if s.len() > 0 {
        lemma_tokens_view_len(s.drop_first());
    }
}

pub proof fn lemma_tokens_view_index(s: Seq<Token>, i: int)
    requires
        0 <= i < s.len(),
    ensures
        tokens_view(s).len() == s.len(),
        tokens_view(s)[i] == token_view(s[i]),
    decreases s,
{
    lemma_tokens_view_len(s);
    if i > 0 {
        lemma_tokens_view_index(s.drop_first(), i - 1);
    }
}

pub proof fn lemma_tokens_view_push(s: Seq<Token>, t: Token)
    ensures
        tokens_view(s.push(t)) == tokens_view(s).push(token_view(t)),
    decreases s,
{
    if s.len() == 0 {
        assert(s.push(t).drop_first() =~= Seq::<Token>::empty());
        assert(s.push(t).len() == 1);
        assert(s.push(t)[0] == t);
        assert(tokens_view(s.push(t)) == seq![token_view(t)] + tokens_view(
            s.push(t).drop_first(),
        ));
        assert(tokens_view(Seq::<Token>::empty()) =~= Seq::<TokenV>::empty());
        assert(tokens_view(s.push(t)) =~= tokens_view(s).push(token_view(t)));
    } else {
        assert(s.push(t).drop_first() =~= s.drop_first().push(t));
        lemma_tokens_view_push(s.drop_first(), t);
        assert(tokens_view(s.push(t)) =~= tokens_view(s).push(token_view(t)));
    }
}

pub proof fn lemma_tokens_view_cons(t: Token, s: Seq<Token>)
    ensures
        tokens_view(seq![t] + s) == seq![token_view(t)] + tokens_view(s),
{
    let w = seq![t] + s;
    assert(w[0] == t);
    assert(w.drop_first() =~= s);
    assert(tokens_view(w) =~= seq![token_view(t)] + tokens_view(s));
}

pub proof fn lemma_tokens_view_reverse(s: Seq<Token>)
    ensures
        tokens_view(s.reverse()) == tokens_view(s).reverse(),
{
    lemma_tokens_view_len(s);
    lemma_tokens_view_len(s.reverse());
    assert forall|i: int| 0 <= i < s.len() implies tokens_view(s.reverse())[i] == tokens_view(
        s,
    ).reverse()[i] by {
        lemma_tokens_view_index(s.reverse(), i);
        lemma_tokens_view_index(s, s.len() - 1 - i);
    }
    assert(tokens_view(s.reverse()) =~= tokens_view(s).reverse());
}

} // verus!
