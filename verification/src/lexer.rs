//! The tokenizer: a cursor over borrowed source text that yields one token
//! per call.
use vstd::prelude::*;
use vstd::string::*;
use vstd::utf8::encode_utf8;
use vstd::slice::*;
use crate::chars;
use crate::scan::{
    char_at, lemma_lexeme_bounds, lemma_lines_bound, lemma_number_end_bounds,
    lemma_word_end_bounds, lines_before, next_index, number_dotted, number_end, skip_space,
    token_at, token_of, tokens_from, tokens_stop, word_end,
};
use crate::text::{lemma_offset_monotone, lemma_offset_step, offset_of, span_text, split_first};
use crate::token::{word_kind, Token, TokenType};

verus! {

pub struct Lexer<'a> {
    /// The whole source text.
    input: &'a str,
    /// The source text after the current character.
    rest: &'a str,
    /// Byte offset of the current character.
    position: usize,
    /// Byte offset of the character after the current one.
    read_position: usize,
    /// The current character, `'\0'` past the end of the source.
    ch: char,
    /// The number of line breaks before the current character.
    line: usize,
    /// Index of the current character in the source.
    cursor: Ghost<int>,
}

impl<'a> Lexer<'a> {
    /// The source text as a sequence of characters.
    pub closed spec fn source(&self) -> Seq<char> {
        self.input@
    }

    /// The index in `source()` of the character at which the tokenizer stands;
    /// `source().len()` once the source is used up.
    pub closed spec fn cursor(&self) -> int {
        self.cursor@
    }

    /// The fields agree with each other and with the source.
    pub closed spec fn wf(&self) -> bool {
        let src = self.input@;
        let i = self.cursor@;
        &&& 0 <= i <= src.len()
        &&& encode_utf8(src).len() <= usize::MAX
        &&& self.position == offset_of(src, i)
        &&& self.line == lines_before(src, i)
        &&& self.ch == char_at(src, i)
        &&& i < src.len() ==> self.rest@ == src.subrange(i + 1, src.len() as int)
            && self.read_position == offset_of(src, i + 1)
        &&& i == src.len() ==> self.rest@.len() == 0 && self.read_position == self.position
    }

    /// The cursor of a well-formed tokenizer lies within the source, and the
    /// source's encoding has a length that a `usize` holds.
    pub proof fn lemma_wf_bounds(&self)
        requires
            self.wf(),
        ensures
            0 <= self.cursor() <= self.source().len(),
            encode_utf8(self.source()).len() <= usize::MAX,
    {
    }

    /// A tokenizer that stands at the start of `input`.
    pub fn new(input: &'a str) -> (lexer: Self)
        ensures
            lexer.wf(),
            lexer.source() == input@,
            lexer.cursor() == 0,
    {
        let bytes = input.as_bytes();
        proof {
            axiom_spec_len(bytes);
            lemma_offset_monotone(input@, 0, 0);
            if input@.len() > 0 {
                lemma_offset_step(input@, 0);
                assert(input@.subrange(1, input@.len() as int) =~= input@.drop_first());
            }
        }
        match split_first(input) {
            None => Self {
                input,
                rest: input,
                position: 0,
                read_position: 0,
                ch: '\0',
                line: 0,
                cursor: Ghost(0),
            },
            Some((c, w, tail)) => Self {
                input,
                rest: tail,
                position: 0,
                read_position: w,
                ch: c,
                line: 0,
                cursor: Ghost(0),
            },
        }
    }

    /// Moves to the next character; stays where it is at the end of the
    /// source.
    fn read_char(&mut self)
        requires
            old(self).wf(),
        ensures
            final(self).wf(),
            final(self).source() == old(self).source(),
            final(self).cursor() == if old(self).cursor() < old(self).source().len() {
                old(self).cursor() + 1
            } else {
                old(self).cursor()
            },
    {
        let ghost src = self.input@;
        let ghost i = self.cursor@;
        let ghost n = src.len() as int;
        proof {
            lemma_offset_monotone(src, 0, n);
            if i < n {
                lemma_lines_bound(src, i + 1);
                lemma_offset_step(src, i);
                if i + 1 < n {
                    lemma_offset_step(src, i + 1);
                    lemma_offset_monotone(src, i + 2, n);
                    assert(src.subrange(i + 1, n).drop_first() =~= src.subrange(i + 2, n));
                }
            }
        }
        if self.ch == '\n' {
            self.line = self.line + 1;
        }
        self.position = self.read_position;
        match split_first(self.rest) {
            None => {
                self.ch = '\0';
            },
            Some((c, w, tail)) => {
                self.ch = c;
                self.rest = tail;
                self.read_position = self.read_position + w;
            },
        }
        proof {
            if i < n {
                self.cursor = Ghost(i + 1);
            }
        }
    }

    /// The character after the current one, `'\0'` where there is none.
    fn peek_char(&self) -> (c: char)
        requires
            self.wf(),
        ensures
            c == char_at(self.source(), self.cursor() + 1),
    {
        if self.rest.is_empty() {
            '\0'
        } else {
            self.rest.get_char(0)
        }
    }

    /// Reads a number and returns its token: `Float` where it holds a dot,
    /// `Int` where it holds none. A second dot ends the number and is left
    /// unread.
    pub fn read_number(&mut self) -> (tok: Token)
        requires
            old(self).wf(),
        ensures
            final(self).wf(),
            final(self).source() == old(self).source(),
            final(self).cursor() == number_end(old(self).source(), old(self).cursor(), false),
            tok == token_of(
                old(self).source(),
                if number_dotted(old(self).source(), old(self).cursor(), false) {
                    TokenType::Float
                } else {
                    TokenType::Int
                },
                old(self).cursor(),
                final(self).cursor(),
            ),
    {
        let position = self.position;
        let line = self.line;
        let mut is_float = false;
        let ghost src = self.input@;
        let ghost start = self.cursor@;

        while self.is_number()
            invariant
                self.wf(),
                self.input@ == src,
                start <= self.cursor@ <= src.len(),
                number_end(src, self.cursor@, is_float) == number_end(src, start, false),
                number_dotted(src, self.cursor@, is_float) == number_dotted(src, start, false),
            ensures
                self.wf(),
                self.input@ == src,
                self.cursor@ == number_end(src, start, false),
                is_float == number_dotted(src, start, false),
            decreases src.len() - self.cursor@,
        {
            if self.ch == '.' {
                if is_float {
                    break;
                }
                is_float = true;
            }
            self.read_char();
        }

        let token_type = if is_float {
            TokenType::Float
        } else {
            TokenType::Int
        };

        Token::new(token_type, position, self.position, line)
    }

    /// Consumes the input and returns the next token.
    pub fn next_token(&mut self) -> (tok: Token)
        requires
            old(self).wf(),
        ensures
            final(self).wf(),
            final(self).source() == old(self).source(),
            tok == token_at(old(self).source(), old(self).cursor()),
            final(self).cursor() == next_index(old(self).source(), old(self).cursor()),
            tok.wf(),
    {
        let ghost src = self.input@;
        self.consume_whitespace();
        let ghost s = self.cursor@;
        proof {
            lemma_offset_monotone(src, s, s);
            if s < src.len() {
                lemma_offset_monotone(src, s, s + 1);
            }
            if s + 1 < src.len() {
                lemma_offset_monotone(src, s, s + 2);
            }
        }

        let start_pos = self.position;
        let mut end_pos = self.read_position;
        let line = self.line;
        let tok = match self.ch {
            '=' => {
                if self.peek_char() == '=' {
                    self.read_char();
                    end_pos = self.read_position;
                    Token::new(TokenType::EQ, start_pos, end_pos, line)
                } else {
                    Token::new(TokenType::Assign, start_pos, end_pos, line)
                }
            },
            '!' => {
                if self.peek_char() == '=' {
                    self.read_char();
                    end_pos = self.read_position;
                    Token::new(TokenType::NotEQ, start_pos, end_pos, line)
                } else {
                    Token::new(TokenType::Bang, start_pos, end_pos, line)
                }
            },
            ';' => Token::new(TokenType::Semicolon, start_pos, end_pos, line),
            '(' => Token::new(TokenType::LParen, start_pos, end_pos, line),
            ')' => Token::new(TokenType::RParen, start_pos, end_pos, line),
            ',' => Token::new(TokenType::Comma, start_pos, end_pos, line),
            '+' => Token::new(TokenType::Plus, start_pos, end_pos, line),
            '-' => Token::new(TokenType::Minus, start_pos, end_pos, line),
            '/' => Token::new(TokenType::Slash, start_pos, end_pos, line),
            '*' => Token::new(TokenType::Asterisk, start_pos, end_pos, line),
            '<' => Token::new(TokenType::LT, start_pos, end_pos, line),
            '>' => Token::new(TokenType::GT, start_pos, end_pos, line),
            '{' => Token::new(TokenType::LBrace, start_pos, end_pos, line),
            '}' => Token::new(TokenType::RBrace, start_pos, end_pos, line),
            '\0' => Token::new(TokenType::EOF, start_pos, start_pos, line),
            _ => {
                if self.is_letter() {
                    let tok = self.read_identifier();
                    proof {
                        lemma_word_end_bounds(src, s);
                        lemma_offset_monotone(src, s, self.cursor@);
                    }
                    return tok;
                } else if self.is_number() {
                    let tok = self.read_number();
                    proof {
                        lemma_number_end_bounds(src, s, false);
                        lemma_offset_monotone(src, s, self.cursor@);
                    }
                    return tok;
                } else {
                    Token::new(TokenType::Illegal, start_pos, start_pos, line)
                }
            },
        };
        self.read_char();
        tok
    }

    /// Reads the tokens up to the first end of input and returns them
    /// without it.
    pub fn tokenize(&mut self) -> (tokens: Vec<Token>)
        requires
            old(self).wf(),
        ensures
            final(self).wf(),
            final(self).source() == old(self).source(),
            tokens@ == tokens_from(old(self).source(), old(self).cursor()),
            final(self).cursor() == tokens_stop(old(self).source(), old(self).cursor()),
    {
        let mut tokens: Vec<Token> = Vec::new();
        let ghost src = self.input@;
        let ghost start = self.cursor@;
        loop
            invariant_except_break
                self.wf(),
                self.input@ == src,
                tokens_from(src, start) == tokens@ + tokens_from(src, self.cursor@),
                tokens_stop(src, start) == tokens_stop(src, self.cursor@),
            ensures
                self.wf(),
                self.input@ == src,
                tokens@ == tokens_from(src, start),
                self.cursor@ == tokens_stop(src, start),
            decreases src.len() - self.cursor@,
        {
            proof {
                lemma_lexeme_bounds(src, self.cursor@);
            }
            let tok = self.next_token();
            if tok.token_type == TokenType::EOF {
                proof {
                    assert(tokens@ + Seq::<Token>::empty() =~= tokens@);
                }
                break;
            }
            proof {
                assert(tokens@.push(tok) + tokens_from(src, self.cursor@) =~= tokens@ + (seq![tok]
                    + tokens_from(src, self.cursor@)));
            }
            tokens.push(tok);
        }
        tokens
    }

    /// Checks if the current character is a digit or a dot.
    fn is_number(&self) -> (b: bool)
        requires
            self.wf(),
        ensures
            b == chars::is_number_char(char_at(self.source(), self.cursor())),
            b ==> self.cursor() < self.source().len(),
    {
        chars::digit(self.ch) || self.ch == '.'
    }

    /// Consumes all whitespace characters at the cursor.
    fn consume_whitespace(&mut self)
        requires
            old(self).wf(),
        ensures
            final(self).wf(),
            final(self).source() == old(self).source(),
            final(self).cursor() == skip_space(old(self).source(), old(self).cursor()),
    {
        let ghost src = self.input@;
        let ghost start = self.cursor@;
        while chars::space(self.ch)
            invariant
                self.wf(),
                self.input@ == src,
                skip_space(src, self.cursor@) == skip_space(src, start),
            decreases src.len() - self.cursor@,
        {
            self.read_char();
        }
    }

    /// Checks if the current character is an alphabetic character or an
    /// underscore.
    fn is_letter(&self) -> (b: bool)
        requires
            self.wf(),
        ensures
            b == chars::is_letter(char_at(self.source(), self.cursor())),
            b ==> self.cursor() < self.source().len(),
    {
        chars::letter(self.ch)
    }

    /// Reads the longest run of letters at the cursor and returns its token:
    /// the keyword that the run spells, or `Ident`.
    pub fn read_identifier(&mut self) -> (tok: Token)
        requires
            old(self).wf(),
        ensures
            final(self).wf(),
            final(self).source() == old(self).source(),
            final(self).cursor() == word_end(old(self).source(), old(self).cursor()),
            tok == token_of(
                old(self).source(),
                word_kind(
                    old(self).source().subrange(old(self).cursor(), final(self).cursor()),
                ),
                old(self).cursor(),
                final(self).cursor(),
            ),
    {
        let position = self.position;
        let line = self.line;
        let ghost src = self.input@;
        let ghost start = self.cursor@;
        while self.is_letter()
            invariant
                self.wf(),
                self.input@ == src,
                start <= self.cursor@ <= src.len(),
                word_end(src, self.cursor@) == word_end(src, start),
            decreases src.len() - self.cursor@,
        {
            self.read_char();
        }
        let literal = span_text(
            self.input,
            position,
            self.position,
            Ghost(start),
            Ghost(self.cursor@),
        );
        Token::lookup_ident(literal, position, self.position, line)
    }
}

} // verus!
