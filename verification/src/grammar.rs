//! What the parser builds, stated over the source as a sequence of
//! characters. A position of the parser is the character index from which
//! its current token is read; the token after it is read from where the
//! current one ends.
use vstd::prelude::*;
use crate::ast::{Identifier, LetStatement, Statement};
use crate::scan::{
    lemma_lexeme_bounds, lemma_lexeme_outside, lexeme_at, next_index, token_at,
};
use crate::token::{Token, TokenType};

verus! {

/// The message for a token of kind `actual` found where one of kind
/// `expected` had to follow.
pub open spec fn expect_message(expected: TokenType, actual: TokenType) -> Seq<char> {
    "expected next token to be '"@ + expected.display() + "', got '"@ + actual.display()
        + "' instead"@
}

/// The token that follows the current one.
pub open spec fn peek_at(src: Seq<char>, at: int) -> Token {
    token_at(src, next_index(src, at))
}

/// A token count after `advances` more tokens; it stops at `usize::MAX`.
pub open spec fn count_after(count: usize, advances: nat) -> usize {
    if count + advances > usize::MAX {
        usize::MAX
    } else {
        (count + advances) as usize
    }
}

/// Whether the source is used up at `at`: nothing but whitespace is left,
/// and only the end of input is read from here on.
pub open spec fn source_used_up(src: Seq<char>, at: int) -> bool {
    lexeme_at(src, at).start >= src.len()
}

/// Whether the right-hand side of a binding ends at the token read at `at`:
/// at a semicolon, or where the source is used up. An end of input that is
/// read at a NUL character within the source ends nothing.
pub open spec fn ends_statement(src: Seq<char>, at: int) -> bool {
    token_at(src, at).token_type == TokenType::Semicolon || source_used_up(src, at)
}

/// The first position from `at` on whose token is a semicolon; where no
/// semicolon follows, the position at which the source is used up.
pub open spec fn statement_end(src: Seq<char>, at: int) -> int
    decreases src.len() - at,
{
    if ends_statement(src, at) {
        at
    } else {
        proof {
            lemma_advance(src, at);
        }
        statement_end(src, next_index(src, at))
    }
}

/// The number of tokens between `at` and `statement_end(src, at)`.
pub open spec fn skipped(src: Seq<char>, at: int) -> nat
    decreases src.len() - at,
{
    if ends_statement(src, at) {
        0
    } else {
        proof {
            lemma_advance(src, at);
        }
        1 + skipped(src, next_index(src, at))
    }
}

/// The position of the parser once it has moved on from `at` by `n` tokens.
pub open spec fn position_after(src: Seq<char>, at: int, n: nat) -> int
    decreases n,
{
    if n == 0 {
        at
    } else {
        position_after(src, next_index(src, at), (n - 1) as nat)
    }
}

/// A current token other than the end of input lies within the source.
/// Unless the source is used up, the token after the current one is read
/// from further on.
pub proof fn lemma_advance(src: Seq<char>, at: int)
    ensures
        token_at(src, at).token_type != TokenType::EOF ==> 0 <= at < src.len()
            && !source_used_up(src, at),
        !source_used_up(src, at) ==> at < next_index(src, at) <= src.len(),
        0 <= at <= src.len() ==> at <= next_index(src, at) <= src.len(),
{
    if 0 <= at <= src.len() {
        lemma_lexeme_bounds(src, at);
    } else {
        lemma_lexeme_outside(src, at);
    }
}

/// What reading one statement comes to.
pub struct Step {
    /// The statement, where one was read.
    pub statement: Option<Statement>,
    /// The messages of the expectations that failed, in order.
    pub errors: Seq<Seq<char>>,
    /// The position of the parser afterwards.
    pub at: int,
    /// The number of tokens that the parser moved on by.
    pub advances: nat,
}

/// Whether `mut` follows the `let` that is the current token at `at`.
pub open spec fn has_modifier(src: Seq<char>, at: int) -> bool {
    peek_at(src, at).token_type == TokenType::Mut
}

/// The position of the token before the name of the binding at `at`: that
/// of `mut` where it is there, that of `let` otherwise.
pub open spec fn name_follows(src: Seq<char>, at: int) -> int {
    if has_modifier(src, at) {
        next_index(src, at)
    } else {
        at
    }
}

/// The position of the third token of the binding at `at`, counted without
/// `mut`: that of `=` in a binding that has its name and its `=`.
pub open spec fn assign_position(src: Seq<char>, at: int) -> int {
    next_index(src, next_index(src, name_follows(src, at)))
}

/// Reads a binding at `at`, where the current token is `let`: an optional
/// `mut`, a name, `=`, and then whatever stands before the next semicolon,
/// or before the end of the source where no semicolon follows. Where the
/// name or the `=` is missing, the message is recorded and no statement is
/// built.
pub open spec fn let_at(src: Seq<char>, at: int) -> Step {
    let is_mut = has_modifier(src, at);
    let modifier: nat = if is_mut { 1 } else { 0 };
    let before_name = name_follows(src, at);
    let name = peek_at(src, before_name);
    if name.token_type != TokenType::Ident {
        Step {
            statement: None,
            errors: seq![expect_message(TokenType::Ident, name.token_type)],
            at: before_name,
            advances: modifier,
        }
    } else {
        let at_name = next_index(src, before_name);
        let assign = peek_at(src, at_name);
        if assign.token_type != TokenType::Assign {
            Step {
                statement: None,
                errors: seq![expect_message(TokenType::Assign, assign.token_type)],
                at: at_name,
                advances: modifier + 1,
            }
        } else {
            let at_assign = next_index(src, at_name);
            Step {
                statement: Some(
                    Statement::Let(
                        Box::new(
                            LetStatement {
                                token: token_at(src, at),
                                name: Identifier { token: name, start: name.start, end: name.end },
                                is_mut,
                            },
                        ),
                    ),
                ),
                errors: seq![],
                at: statement_end(src, at_assign),
                advances: modifier + 2 + skipped(src, at_assign),
            }
        }
    }
}

/// Reads the statement at `at`: a binding where the current token is `let`,
/// and nothing otherwise.
pub open spec fn statement_at(src: Seq<char>, at: int) -> Step {
    if token_at(src, at).token_type == TokenType::Let {
        let_at(src, at)
    } else {
        Step { statement: None, errors: seq![], at, advances: 0 }
    }
}

/// What parsing the rest of a source comes to.
pub struct Parse {
    /// The statements read, in the order of the source.
    pub statements: Seq<Statement>,
    /// The messages recorded, in order.
    pub errors: Seq<Seq<char>>,
    /// The position of the parser afterwards.
    pub at: int,
    /// The number of tokens that the parser moved on by.
    pub advances: nat,
}

/// Parses from `at` until the current token is the end of input: reads one
/// statement, moves on by one token, and goes on from there.
pub open spec fn parse_from(src: Seq<char>, at: int) -> Parse
    decreases src.len() - at,
{
    if token_at(src, at).token_type == TokenType::EOF {
        Parse { statements: seq![], errors: seq![], at, advances: 0 }
    } else {
        let step = statement_at(src, at);
        proof {
            lemma_statement_bounds(src, at);
        }
        let rest = parse_from(src, next_index(src, step.at));
        Parse {
            statements: match step.statement {
                Some(statement) => seq![statement] + rest.statements,
                None => rest.statements,
            },
            errors: step.errors + rest.errors,
            at: rest.at,
            advances: step.advances + 1 + rest.advances,
        }
    }
}

/// The end of a statement lies between its start and the end of the source.
pub proof fn lemma_statement_end_bounds(src: Seq<char>, at: int)
    requires
        0 <= at <= src.len(),
    ensures
        at <= statement_end(src, at) <= src.len(),
        ends_statement(src, statement_end(src, at)),
    decreases src.len() - at,
{
    if !ends_statement(src, at) {
        lemma_advance(src, at);
        lemma_statement_end_bounds(src, next_index(src, at));
    }
}

/// Reading a statement where the current token is not the end of input
/// leaves the parser within the source, and the token after is read from
/// beyond the statement's start.
pub proof fn lemma_statement_bounds(src: Seq<char>, at: int)
    requires
        token_at(src, at).token_type != TokenType::EOF,
    ensures
        0 <= at <= statement_at(src, at).at <= src.len(),
        at < next_index(src, statement_at(src, at).at) <= src.len(),
{
    lemma_advance(src, at);
    let a1 = next_index(src, at);
    lemma_advance(src, a1);
    let a2 = next_index(src, a1);
    lemma_advance(src, a2);
    let a3 = next_index(src, a2);
    lemma_advance(src, a3);
    lemma_statement_end_bounds(src, a2);
    lemma_statement_end_bounds(src, a3);
    lemma_advance(src, statement_end(src, a2));
    lemma_advance(src, statement_end(src, a3));
}

} // verus!
