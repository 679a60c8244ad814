//! The vocabulary shared by the tokenizer and the parser: token kinds,
//! tokens, and the table of reserved words.
use vstd::prelude::*;
use vstd::string::*;
use crate::text::text_eq;

verus! {

/// The kind of a lexical token.
#[derive(Debug, Clone, Copy, PartialEq, Eq, Structural)]
pub enum TokenType {
    // Misc
    Illegal,
    EOF,
    Ident,
    Int,
    Float,
    // Operators
    Assign,
    Plus,
    Minus,
    Bang,
    Asterisk,
    Slash,
    LT,
    GT,
    EQ,
    NotEQ,
    // Delimiters
    Comma,
    Semicolon,
    LParen,
    RParen,
    LBrace,
    RBrace,
    // Keywords
    Fn,
    Let,
    Mut,
    True,
    False,
    If,
    Else,
    Return,
}

impl TokenType {
    /// The canonical text by which a kind is shown in diagnostics.
    pub open spec fn display(self) -> Seq<char> {
        match self {
            TokenType::Illegal => "Illegal"@,
            TokenType::EOF => "EOF"@,
            TokenType::Ident => "Ident"@,
            TokenType::Int => "Int"@,
            TokenType::Float => "Float"@,
            TokenType::Assign => "="@,
            TokenType::Plus => "+"@,
            TokenType::Minus => "-"@,
            TokenType::Bang => "!"@,
            TokenType::Asterisk => "*"@,
            TokenType::Slash => "/"@,
            TokenType::LT => "<"@,
            TokenType::GT => ">"@,
            TokenType::EQ => "=="@,
            TokenType::NotEQ => "!="@,
            TokenType::Comma => ","@,
            TokenType::Semicolon => ";"@,
            TokenType::LParen => "("@,
            TokenType::RParen => ")"@,
            TokenType::LBrace => "{"@,
            TokenType::RBrace => "}"@,
            TokenType::Fn => "fn"@,
            TokenType::Let => "let"@,
            TokenType::Mut => "mut"@,
            TokenType::True => "true"@,
            TokenType::False => "false"@,
            TokenType::If => "if"@,
            TokenType::Else => "else"@,
            TokenType::Return => "return"@,
        }
    }

    /// Whether the kind is an operator or a delimiter.
    pub open spec fn is_operator(self) -> bool {
        self is Assign || self is Plus || self is Minus || self is Bang || self is Asterisk
            || self is Slash || self is LT || self is GT || self is EQ || self is NotEQ
            || self is Comma || self is Semicolon || self is LParen || self is RParen
            || self is LBrace || self is RBrace
    }

    /// Whether the kind is one of the reserved words.
    pub open spec fn is_keyword(self) -> bool {
        self is Fn || self is Let || self is Mut || self is True || self is False || self is If
            || self is Else || self is Return
    }

    /// The canonical text of the kind.
    pub fn as_str(&self) -> (s: &'static str)
        ensures
            s@ == self.display(),
    {
        match self {
            TokenType::Illegal => "Illegal",
            TokenType::EOF => "EOF",
            TokenType::Ident => "Ident",
            TokenType::Int => "Int",
            TokenType::Float => "Float",
            TokenType::Assign => "=",
            TokenType::Plus => "+",
            TokenType::Minus => "-",
            TokenType::Bang => "!",
            TokenType::Asterisk => "*",
            TokenType::Slash => "/",
            TokenType::LT => "<",
            TokenType::GT => ">",
            TokenType::EQ => "==",
            TokenType::NotEQ => "!=",
            TokenType::Comma => ",",
            TokenType::Semicolon => ";",
            TokenType::LParen => "(",
            TokenType::RParen => ")",
            TokenType::LBrace => "{",
            TokenType::RBrace => "}",
            TokenType::Fn => "fn",
            TokenType::Let => "let",
            TokenType::Mut => "mut",
            TokenType::True => "true",
            TokenType::False => "false",
            TokenType::If => "if",
            TokenType::Else => "else",
            TokenType::Return => "return",
        }
    }

    /// The canonical text of the kind, as an owned string.
    pub fn to_string(&self) -> (s: String)
        ensures
            s@ == self.display(),
    {
        String::from_str(self.as_str())
    }
}

/// The kind of the word `text`: the keyword that it spells, or `Ident`.
pub open spec fn word_kind(text: Seq<char>) -> TokenType {
    if text == "fn"@ {
        TokenType::Fn
    } else if text == "let"@ {
        TokenType::Let
    } else if text == "mut"@ {
        TokenType::Mut
    } else if text == "true"@ {
        TokenType::True
    } else if text == "false"@ {
        TokenType::False
    } else if text == "if"@ {
        TokenType::If
    } else if text == "else"@ {
        TokenType::Else
    } else if text == "return"@ {
        TokenType::Return
    } else {
        TokenType::Ident
    }
}

/// A classified piece of source text. The text itself is not copied: `start`
/// and `end` are byte offsets into the source, `end` exclusive, and `line`
/// counts the line breaks that precede `start`.
#[derive(Debug, Clone, Copy, PartialEq, Eq, Structural)]
pub struct Token {
    pub token_type: TokenType,
    pub start: usize,
    pub end: usize,
    pub line: usize,
}

impl Token {
    /// The span is not empty the wrong way round, and the end of input
    /// spans nothing.
    pub open spec fn wf(self) -> bool {
        &&& self.start <= self.end
        &&& self.token_type is EOF ==> self.start == self.end
    }

    pub fn new(token_type: TokenType, start: usize, end: usize, line: usize) -> (tok: Self)
        ensures
            tok == (Token { token_type, start, end, line }),
    {
        Self { token_type, start, end, line }
    }

    /// Looks up an identifier and returns the token of the matching kind: a
    /// keyword where `ident` is a reserved word, `Ident` otherwise.
    pub fn lookup_ident(ident: &str, start: usize, end: usize, line: usize) -> (tok: Self)
        ensures
            tok == (Token { token_type: word_kind(ident@), start, end, line }),
    {
        let token_type = if text_eq(ident, "fn") {
            TokenType::Fn
        } else if text_eq(ident, "let") {
            TokenType::Let
        } else if text_eq(ident, "mut") {
            TokenType::Mut
        } else if text_eq(ident, "true") {
            TokenType::True
        } else if text_eq(ident, "false") {
            TokenType::False
        } else if text_eq(ident, "if") {
            TokenType::If
        } else if text_eq(ident, "else") {
            TokenType::Else
        } else if text_eq(ident, "return") {
            TokenType::Return
        } else {
            TokenType::Ident
        };
        Self::new(token_type, start, end, line)
    }
}

} // verus!
