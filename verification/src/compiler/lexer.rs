use vstd::prelude::*;

verus! {

/// The value types of the language.
#[derive(Debug, Clone, Copy, PartialEq, Eq, Structural)]
pub enum RhTypes {
    Char,
    Int,
    Void,
}

/// The tokens the lexer hands to the parser.
#[derive(Debug)]
pub enum Token {
    Id(String),
    NumLiteral(i32),
    StrLiteral(String),
    Type(RhTypes),
    Add,
    Sub,
    Star,
    Div,
    Eq,
    EqCmp,
    NeqCmp,
    AndCmp,
    OrCmp,
    BOr,
    BAnd,
    BXor,
    BOrEq,
    BAndEq,
    BXorEq,
    AddEq,
    SubEq,
    MulEq,
    DivEq,
    OParen,
    CParen,
    OCurl,
    CCurl,
    Semi,
    Comma,
    Arrow,
    If,
    While,
    For,
    Break,
    Asm,
}

impl Clone for Token {
    fn clone(&self) -> (res: Self)
        ensures
            res == *self,
    {
        match self {
            Token::Id(s) => Token::Id(s.clone()),
            Token::NumLiteral(n) => Token::NumLiteral(*n),
            Token::StrLiteral(s) => Token::StrLiteral(s.clone()),
            Token::Type(t) => Token::Type(*t),
            Token::Add => Token::Add,
            Token::Sub => Token::Sub,
            Token::Star => Token::Star,
            Token::Div => Token::Div,
            Token::Eq => Token::Eq,
            Token::EqCmp => Token::EqCmp,
            Token::NeqCmp => Token::NeqCmp,
            Token::AndCmp => Token::AndCmp,
            Token::OrCmp => Token::OrCmp,
            Token::BOr => Token::BOr,
            Token::BAnd => Token::BAnd,
            Token::BXor => Token::BXor,
            Token::BOrEq => Token::BOrEq,
            Token::BAndEq => Token::BAndEq,
            Token::BXorEq => Token::BXorEq,
            Token::AddEq => Token::AddEq,
            Token::SubEq => Token::SubEq,
            Token::MulEq => Token::MulEq,
            Token::DivEq => Token::DivEq,
            Token::OParen => Token::OParen,
            Token::CParen => Token::CParen,
            Token::OCurl => Token::OCurl,
            Token::CCurl => Token::CCurl,
            Token::Semi => Token::Semi,
            Token::Comma => Token::Comma,
            Token::Arrow => Token::Arrow,
            Token::If => Token::If,
            Token::While => Token::While,
            Token::For => Token::For,
            Token::Break => Token::Break,
            Token::Asm => Token::Asm,
        }
    }
}

/// The source line of each token, in token order.
pub struct LineNumHandler {
    pub token_lines: Vec<i32>,
}

} // verus!
