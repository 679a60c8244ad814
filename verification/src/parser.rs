//! The parser: it reads tokens with one token of lookahead and builds the
//! statements of a program, recording a message wherever an expected token
//! is missing.
use vstd::prelude::*;
use vstd::string::*;
use crate::ast::{Identifier, LetStatement, Program, Statement};
use crate::grammar::{
    count_after, expect_message, lemma_advance, lemma_statement_bounds, let_at, parse_from,
    peek_at, skipped, source_used_up, statement_at, statement_end,
};
use crate::lexer::Lexer;
use crate::scan::{lemma_lexeme_bounds, lexeme_at, next_index, token_at};
use crate::text::lemma_offset_monotone;
use crate::token::{Token, TokenType};

verus! {

/// The texts of a list of messages.
pub open spec fn texts(messages: Seq<String>) -> Seq<Seq<char>> {
    messages.map_values(|message: String| message@)
}

pub struct Parser<'a> {
    lexer: Lexer<'a>,
    cur_token: Token,
    peek_token: Token,
    /// The messages recorded so far, in order.
    pub errors: Vec<String>,
    /// The number of tokens read from the tokenizer; it stops at
    /// `usize::MAX`.
    pub token_count: usize,
    /// The index in the source from which the current token was read.
    at: Ghost<int>,
}

impl<'a> Parser<'a> {
    /// The source text as a sequence of characters.
    pub closed spec fn source(&self) -> Seq<char> {
        self.lexer.source()
    }

    /// The position of the parser: the index in `source()` from which its
    /// current token was read.
    pub closed spec fn at(&self) -> int {
        self.at@
    }

    /// The texts of the messages in `errors`.
    pub closed spec fn messages(&self) -> Seq<Seq<char>> {
        texts(self.errors@)
    }

    /// The value of `token_count`.
    pub closed spec fn count(&self) -> usize {
        self.token_count
    }

    /// The current and the next token are those of the source at the
    /// parser's position, and the tokenizer stands behind them.
    pub closed spec fn wf(&self) -> bool {
        let src = self.lexer.source();
        &&& self.lexer.wf()
        &&& 0 <= self.at@ <= src.len()
        &&& self.cur_token == token_at(src, self.at@)
        &&& self.peek_token == peek_at(src, self.at@)
        &&& self.lexer.cursor() == next_index(src, next_index(src, self.at@))
    }

    /// A parser over the tokens that `lexer` has yet to yield. The first two
    /// of them are read at once.
    pub fn new(lexer: Lexer<'a>) -> (parser: Self)
        requires
            lexer.wf(),
        ensures
            parser.wf(),
            parser.source() == lexer.source(),
            parser.at() == lexer.cursor(),
            parser.messages() == Seq::<Seq<char>>::empty(),
            parser.count() == 2,
    {
        let ghost at = lexer.cursor();
        proof {
            lexer.lemma_wf_bounds();
        }
        let mut lexer = lexer;
        // Read two tokens, so cur_token and peek_token are both set
        let cur_token = lexer.next_token();
        let peek_token = lexer.next_token();
        Self { lexer, cur_token, peek_token, errors: Vec::new(), token_count: 2, at: Ghost(at) }
    }

    /// The messages recorded so far, in order.
    pub fn errors(&self) -> (errors: &Vec<String>)
        ensures
            texts(errors@) == self.messages(),
    {
        &self.errors
    }

    /// The number of tokens read from the tokenizer so far.
    pub fn token_count(&self) -> (count: usize)
        ensures
            count == self.count(),
    {
        self.token_count
    }

    /// Records that the next token is not of the kind `token_type`.
    fn peek_error(&mut self, token_type: &TokenType)
        requires
            old(self).wf(),
        ensures
            final(self).wf(),
            final(self).source() == old(self).source(),
            final(self).at() == old(self).at(),
            final(self).count() == old(self).count(),
            final(self).messages() == old(self).messages().push(
                expect_message(*token_type, peek_at(old(self).source(), old(self).at()).token_type),
            ),
    {
        let mut msg = String::from_str("expected next token to be '");
        msg.append(token_type.as_str());
        msg.append("', got '");
        msg.append(self.peek_token.token_type.as_str());
        msg.append("' instead");
        proof {
            assert(texts(self.errors@.push(msg)) =~= texts(self.errors@).push(msg@));
        }
        self.errors.push(msg);
    }

    /// Moves on by one token: the next token becomes the current one, and a
    /// new next token is read.
    fn next_token(&mut self)
        requires
            old(self).wf(),
        ensures
            final(self).wf(),
            final(self).source() == old(self).source(),
            final(self).at() == next_index(old(self).source(), old(self).at()),
            final(self).count() == count_after(old(self).count(), 1),
            final(self).messages() == old(self).messages(),
    {
        proof {
            lemma_advance(self.lexer.source(), self.at@);
        }
        self.cur_token = self.peek_token;
        self.peek_token = self.lexer.next_token();
        self.token_count = self.token_count.saturating_add(1);
        proof {
            self.at = Ghost(next_index(self.lexer.source(), self.at@));
        }
    }

    /// Moves on by one token where the next token is of the kind
    /// `token_type`; records a message and stays otherwise.
    fn expect_peek(&mut self, token_type: TokenType) -> (found: bool)
        requires
            old(self).wf(),
        ensures
            final(self).wf(),
            final(self).source() == old(self).source(),
            found == (peek_at(old(self).source(), old(self).at()).token_type == token_type),
            found ==> final(self).at() == next_index(old(self).source(), old(self).at())
                && final(self).count() == count_after(old(self).count(), 1)
                && final(self).messages() == old(self).messages(),
            !found ==> final(self).at() == old(self).at() && final(self).count() == old(
                self,
            ).count() && final(self).messages() == old(self).messages().push(
                expect_message(token_type, peek_at(old(self).source(), old(self).at()).token_type),
            ),
    {
        if self.peek_token_is(&token_type) {
            self.next_token();
            true
        } else {
            self.peek_error(&token_type);
            false
        }
    }

    fn cur_token_is(&self, token_type: TokenType) -> (b: bool)
        requires
            self.wf(),
        ensures
            b == (token_at(self.source(), self.at()).token_type == token_type),
    {
        self.cur_token.token_type == token_type
    }

    /// Whether the source is used up: the current token is the end of input
    /// and the next one is the same end of input, not one read further on.
    fn at_end(&self) -> (b: bool)
        requires
            self.wf(),
        ensures
            b == source_used_up(self.source(), self.at()),
    {
        proof {
            let src = self.lexer.source();
            let first = lexeme_at(src, self.at@);
            let second = lexeme_at(src, first.next);
            self.lexer.lemma_wf_bounds();
            lemma_lexeme_bounds(src, self.at@);
            lemma_lexeme_bounds(src, first.next);
            lemma_offset_monotone(src, first.start, second.start);
            lemma_offset_monotone(src, second.start, second.start);
        }
        self.cur_token.token_type == TokenType::EOF && self.peek_token.token_type
            == TokenType::EOF && self.cur_token.start == self.peek_token.start
    }

    fn peek_token_is(&self, token_type: &TokenType) -> (b: bool)
        requires
            self.wf(),
        ensures
            b == (peek_at(self.source(), self.at()).token_type == *token_type),
    {
        self.peek_token.token_type == *token_type
    }

    /// Parses the rest of the source: reads statement after statement until
    /// the current token is the end of input. The statements come in the
    /// order of the source; every expectation that failed has left its
    /// message in `errors`.
    pub fn parse(&mut self) -> (program: Program)
        requires
            old(self).wf(),
        ensures
            final(self).wf(),
            final(self).source() == old(self).source(),
            program.statements@ == parse_from(old(self).source(), old(self).at()).statements,
            final(self).messages() == old(self).messages() + parse_from(
                old(self).source(),
                old(self).at(),
            ).errors,
            final(self).at() == parse_from(old(self).source(), old(self).at()).at,
            final(self).count() == count_after(
                old(self).count(),
                parse_from(old(self).source(), old(self).at()).advances,
            ),
            token_at(final(self).source(), final(self).at()).token_type == TokenType::EOF,
    {
        let mut program = Program::new();
        let ghost src = self.lexer.source();
        let ghost start = self.at@;
        let ghost errors = texts(self.errors@);
        let ghost count = self.token_count;
        let ghost advances: nat = 0;
        let ghost recorded: Seq<Seq<char>> = seq![];

        while self.cur_token.token_type != TokenType::EOF
            invariant
                self.wf(),
                self.lexer.source() == src,
                parse_from(src, start).statements == program.statements@ + parse_from(
                    src,
                    self.at@,
                ).statements,
                parse_from(src, start).errors == recorded + parse_from(src, self.at@).errors,
                parse_from(src, start).at == parse_from(src, self.at@).at,
                parse_from(src, start).advances == advances + parse_from(src, self.at@).advances,
                texts(self.errors@) == errors + recorded,
                self.token_count == count_after(count, advances),
            decreases src.len() - self.at@,
        {
            proof {
                lemma_statement_bounds(src, self.at@);
            }
            let ghost step = statement_at(src, self.at@);
            let ghost rest = parse_from(src, next_index(src, step.at));
            let stmt = self.parse_stmt();
            if let Some(stmt) = stmt {
                program.statements.push(stmt);
            }
            self.next_token();
            proof {
                advances = advances + step.advances + 1;
                recorded = recorded + step.errors;
                assert(texts(self.errors@) =~= errors + recorded);
                assert(parse_from(src, start).errors =~= recorded + rest.errors);
                assert(parse_from(src, start).statements =~= program.statements@
                    + rest.statements);
            }
        }
        proof {
            assert(texts(self.errors@) =~= errors + parse_from(src, start).errors);
            assert(program.statements@ =~= parse_from(src, start).statements);
        }

        program
    }

    /// Reads the statement that starts at the current token, if any does.
    fn parse_stmt(&mut self) -> (statement: Option<Statement>)
        requires
            old(self).wf(),
        ensures
            final(self).wf(),
            final(self).source() == old(self).source(),
            statement == statement_at(old(self).source(), old(self).at()).statement,
            final(self).at() == statement_at(old(self).source(), old(self).at()).at,
            final(self).messages() == old(self).messages() + statement_at(
                old(self).source(),
                old(self).at(),
            ).errors,
            final(self).count() == count_after(
                old(self).count(),
                statement_at(old(self).source(), old(self).at()).advances,
            ),
    {
        match self.cur_token.token_type {
            TokenType::Let => self.parse_let_stmt(),
            _ => {
                proof {
                    assert(texts(self.errors@) + Seq::<Seq<char>>::empty() =~= texts(
                        self.errors@,
                    ));
                }
                None
            },
        }
    }

    /// Reads a binding, where the current token is `let`.
    fn parse_let_stmt(&mut self) -> (statement: Option<Statement>)
        requires
            old(self).wf(),
        ensures
            final(self).wf(),
            final(self).source() == old(self).source(),
            statement == let_at(old(self).source(), old(self).at()).statement,
            final(self).at() == let_at(old(self).source(), old(self).at()).at,
            final(self).messages() == old(self).messages() + let_at(
                old(self).source(),
                old(self).at(),
            ).errors,
            final(self).count() == count_after(
                old(self).count(),
                let_at(old(self).source(), old(self).at()).advances,
            ),
    {
        let ghost src = self.lexer.source();
        let ghost errors = texts(self.errors@);
        let ghost count = self.token_count;
        let token = self.cur_token;

        let is_mut = if self.peek_token_is(&TokenType::Mut) {
            self.next_token();
            true
        } else {
            false
        };

        if !self.expect_peek(TokenType::Ident) {
            proof {
                assert(texts(self.errors@) =~= errors + seq![
                    expect_message(TokenType::Ident, peek_at(src, self.at@).token_type),
                ]);
            }
            return None;
        }

        let name = Identifier::new(self.cur_token, self.cur_token.start, self.cur_token.end);

        if !self.expect_peek(TokenType::Assign) {
            proof {
                assert(texts(self.errors@) =~= errors + seq![
                    expect_message(TokenType::Assign, peek_at(src, self.at@).token_type),
                ]);
            }
            return None;
        }

        // The expression is skipped: everything up to the semicolon, or up
        // to the end of the source where no semicolon follows.
        let ghost from = self.at@;
        let ghost modifier: nat = if is_mut { 1 } else { 0 };
        let ghost passed: nat = 0;
        while !self.cur_token_is(TokenType::Semicolon) && !self.at_end()
            invariant
                self.wf(),
                self.lexer.source() == src,
                statement_end(src, self.at@) == statement_end(src, from),
                passed + skipped(src, self.at@) == skipped(src, from),
                texts(self.errors@) == errors,
                self.token_count == count_after(count, modifier + 2 + passed),
            decreases src.len() - self.at@,
        {
            proof {
                lemma_advance(src, self.at@);
                passed = passed + 1;
            }
            self.next_token();
        }
        proof {
            assert(errors + Seq::<Seq<char>>::empty() =~= errors);
        }

        Some(Statement::Let(Box::new(LetStatement::new(token, name, is_mut))))
    }
}

} // verus!
