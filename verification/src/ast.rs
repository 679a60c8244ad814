//! The syntax tree that the parser builds.
use vstd::prelude::*;
use crate::token::Token;

verus! {

/// The root of a parse: the statements in the order of the source.
#[derive(Debug)]
pub struct Program {
    pub statements: Vec<Statement>,
}

#[derive(Debug, PartialEq, Eq)]
pub enum Statement {
    Let(Box<LetStatement>),
}

impl Statement {
    /// Whether the statement binds a name that may be assigned again.
    pub fn is_mut(&self) -> (b: bool)
        ensures
            b == (match *self {
                Statement::Let(let_statement) => let_statement.is_mut,
            }),
    {
        match self {
            Statement::Let(let_statement) => let_statement.is_mut,
        }
    }
}

impl Default for Program {
    fn default() -> (program: Self)
        ensures
            program.statements@ == Seq::<Statement>::empty(),
    {
        Self { statements: Vec::new() }
    }
}

impl Program {
    /// The empty program.
    pub fn new() -> (program: Self)
        ensures
            program.statements@ == Seq::<Statement>::empty(),
    {
        Self::default()
    }
}

/// A binding `let name = ..;` or `let mut name = ..;`. The bound expression
/// is not kept.
#[derive(Debug, PartialEq, Eq)]
pub struct LetStatement {
    /// The `let` token.
    pub token: Token,
    pub name: Identifier,
    pub is_mut: bool,
}

impl LetStatement {
    pub fn new(token: Token, name: Identifier, is_mut: bool) -> (statement: Self)
        ensures
            statement == (LetStatement { token, name, is_mut }),
    {
        Self { token, name, is_mut }
    }
}

/// A name: its token, and the byte offsets `start..end` of its text in the
/// source.
#[derive(Debug, PartialEq, Eq)]
pub struct Identifier {
    pub token: Token,
    pub start: usize,
    pub end: usize,
}

impl Identifier {
    pub fn new(token: Token, start: usize, end: usize) -> (identifier: Self)
        ensures
            identifier == (Identifier { token, start, end }),
    {
        Self { token, start, end }
    }
}

} // verus!
