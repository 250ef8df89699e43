//! Tokens of the address expression language.

use vstd::prelude::*;

verus! {

#[derive(Debug)]
pub enum Token {
    LParent,
    RParent,
    OpenBrackets,
    CloseBrackets,
    Add,
    Sub,
    Mul,
    Div,
    Pow,
    Equals,
    Number(isize),
    /// A bare identifier: a variable, `let`, or a function name.
    Symbol(String),
    /// An identifier holding a `.`, such as `module.dll`.
    ModuleSymbol(String),
    Eof,
}

/// Binding power and associativity (0 left, 1 right) of an operator token.
pub open spec fn token_info(t: Token) -> Option<(usize, usize)> {
    match t {
        Token::Add | Token::Sub => Some((10usize, 0usize)),
        Token::Mul | Token::Div => Some((20usize, 0usize)),
        Token::Pow => Some((30usize, 1usize)),
        _ => None,
    }
}

/// The character that stands for a token in messages.
pub open spec fn token_char(t: Token) -> char {
    match t {
        Token::LParent => '(',
        Token::RParent => ')',
        Token::OpenBrackets => '[',
        Token::CloseBrackets => ']',
        Token::Add => '+',
        Token::Sub => '-',
        Token::Mul => '*',
        Token::Div => '/',
        Token::Pow => '^',
        Token::Equals => '=',
        Token::Number(_) => 'N',
        Token::Symbol(_) => 'S',
        Token::ModuleSymbol(_) => 'M',
        Token::Eof => 'E',
    }
}

impl Token {
    pub fn is_eof(&self) -> (r: bool)
        ensures
            r == (*self is Eof),
    {
        match self {
            Token::Eof => true,
            _ => false,
        }
    }

    pub fn is_open_bracket(&self) -> (r: bool)
        ensures
            r == (*self is OpenBrackets),
    {
        match self {
            Token::OpenBrackets => true,
            _ => false,
        }
    }

    pub fn info(&self) -> (r: Option<(usize, usize)>)
        ensures
            r == token_info(*self),
    {
        match self {
            Token::Add | Token::Sub => Some((10, 0)),
            Token::Mul | Token::Div => Some((20, 0)),
            Token::Pow => Some((30, 1)),
            _ => None,
        }
    }

    pub fn to_char(&self) -> (r: char)
        ensures
            r == token_char(*self),
    {
        match self {
            Token::LParent => '(',
            Token::RParent => ')',
            Token::OpenBrackets => '[',
            Token::CloseBrackets => ']',
            Token::Add => '+',
            Token::Sub => '-',
            Token::Mul => '*',
            Token::Div => '/',
            Token::Pow => '^',
            Token::Equals => '=',
            Token::Number(_) => 'N',
            Token::Symbol(_) => 'S',
            Token::ModuleSymbol(_) => 'M',
            Token::Eof => 'E',
        }
    }

    /// A copy of the token, strings included.
    pub fn duplicate(&self) -> (r: Token)
        ensures
            r == *self,
    {
        match self {
            Token::LParent => Token::LParent,
            Token::RParent => Token::RParent,
            Token::OpenBrackets => Token::OpenBrackets,
            Token::CloseBrackets => Token::CloseBrackets,
            Token::Add => Token::Add,
            Token::Sub => Token::Sub,
            Token::Mul => Token::Mul,
            Token::Div => Token::Div,
            Token::Pow => Token::Pow,
            Token::Equals => Token::Equals,
            Token::Number(n) => Token::Number(*n),
            Token::Symbol(s) => Token::Symbol(s.clone()),
            Token::ModuleSymbol(s) => Token::ModuleSymbol(s.clone()),
            Token::Eof => Token::Eof,
        }
    }
}

} // verus!
