//! What the tokenizer yields, stated over the source as a sequence of
//! characters. Positions in this module are character indices; a token's
//! span is the byte offsets of two of them.
use vstd::prelude::*;
use crate::chars::{is_digit, is_letter, is_number_char, is_space};
use crate::text::offset_of;
use crate::token::{word_kind, Token, TokenType};

verus! {

/// The character at index `i`, and `'\0'` past the end of the source.
pub open spec fn char_at(src: Seq<char>, i: int) -> char {
    if 0 <= i < src.len() {
        src[i]
    } else {
        '\0'
    }
}

/// The first index from `i` on that holds no whitespace.
pub open spec fn skip_space(src: Seq<char>, i: int) -> int
    decreases src.len() - i,
{
    if 0 <= i < src.len() && is_space(src[i]) {
        skip_space(src, i + 1)
    } else {
        i
    }
}

/// The end of the longest run of letters that starts at `i`.
pub open spec fn word_end(src: Seq<char>, i: int) -> int
    decreases src.len() - i,
{
    if 0 <= i < src.len() && is_letter(src[i]) {
        word_end(src, i + 1)
    } else {
        i
    }
}

/// The end of the number that is being read at `i`, where `dotted` tells
/// whether a dot was read already: digits are taken, and one dot at most.
pub open spec fn number_end(src: Seq<char>, i: int, dotted: bool) -> int
    decreases src.len() - i,
{
    if 0 <= i < src.len() && is_digit(src[i]) {
        number_end(src, i + 1, dotted)
    } else if 0 <= i < src.len() && src[i] == '.' && !dotted {
        number_end(src, i + 1, true)
    } else {
        i
    }
}

/// Whether the number that is being read at `i` holds a dot once it ends.
pub open spec fn number_dotted(src: Seq<char>, i: int, dotted: bool) -> bool
    decreases src.len() - i,
{
    if 0 <= i < src.len() && is_digit(src[i]) {
        number_dotted(src, i + 1, dotted)
    } else if 0 <= i < src.len() && src[i] == '.' && !dotted {
        number_dotted(src, i + 1, true)
    } else {
        dotted
    }
}

/// The kind of an operator or delimiter that is one character wide whatever
/// follows it.
pub open spec fn punct_kind(c: char) -> Option<TokenType> {
    if c == ';' {
        Some(TokenType::Semicolon)
    } else if c == '(' {
        Some(TokenType::LParen)
    } else if c == ')' {
        Some(TokenType::RParen)
    } else if c == ',' {
        Some(TokenType::Comma)
    } else if c == '+' {
        Some(TokenType::Plus)
    } else if c == '-' {
        Some(TokenType::Minus)
    } else if c == '/' {
        Some(TokenType::Slash)
    } else if c == '*' {
        Some(TokenType::Asterisk)
    } else if c == '<' {
        Some(TokenType::LT)
    } else if c == '>' {
        Some(TokenType::GT)
    } else if c == '{' {
        Some(TokenType::LBrace)
    } else if c == '}' {
        Some(TokenType::RBrace)
    } else {
        None
    }
}

/// One step of the tokenizer in character indices: the kind of the token,
/// the characters `start..end` that it spans, and the index `next` at which
/// the tokenizer stands afterwards.
pub struct Lexeme {
    pub kind: TokenType,
    pub start: int,
    pub end: int,
    pub next: int,
}

/// The step that the tokenizer takes from index `i`.
pub open spec fn lexeme_at(src: Seq<char>, i: int) -> Lexeme {
    let s = skip_space(src, i);
    let c = char_at(src, s);
    if c == '=' {
        if char_at(src, s + 1) == '=' {
            Lexeme { kind: TokenType::EQ, start: s, end: s + 2, next: s + 2 }
        } else {
            Lexeme { kind: TokenType::Assign, start: s, end: s + 1, next: s + 1 }
        }
    } else if c == '!' {
        if char_at(src, s + 1) == '=' {
            Lexeme { kind: TokenType::NotEQ, start: s, end: s + 2, next: s + 2 }
        } else {
            Lexeme { kind: TokenType::Bang, start: s, end: s + 1, next: s + 1 }
        }
    } else if let Some(kind) = punct_kind(c) {
        Lexeme { kind, start: s, end: s + 1, next: s + 1 }
    } else if c == '\0' {
        let next = if s < src.len() { s + 1 } else { s };
        Lexeme { kind: TokenType::EOF, start: s, end: s, next }
    } else if is_letter(c) {
        let e = word_end(src, s);
        Lexeme { kind: word_kind(src.subrange(s, e)), start: s, end: e, next: e }
    } else if is_number_char(c) {
        let e = number_end(src, s, false);
        let kind = if number_dotted(src, s, false) {
            TokenType::Float
        } else {
            TokenType::Int
        };
        Lexeme { kind, start: s, end: e, next: e }
    } else {
        Lexeme { kind: TokenType::Illegal, start: s, end: s, next: s + 1 }
    }
}

/// The number of line breaks before index `i`.
pub open spec fn lines_before(src: Seq<char>, i: int) -> int
    decreases i,
{
    if i <= 0 || i > src.len() {
        0
    } else {
        lines_before(src, i - 1) + if src[i - 1] == '\n' { 1int } else { 0int }
    }
}

/// The token that spans the characters `start..end` of `src`.
pub open spec fn token_of(src: Seq<char>, kind: TokenType, start: int, end: int) -> Token {
    Token {
        token_type: kind,
        start: offset_of(src, start) as usize,
        end: offset_of(src, end) as usize,
        line: lines_before(src, start) as usize,
    }
}

/// The token that the tokenizer yields from index `i`.
pub open spec fn token_at(src: Seq<char>, i: int) -> Token {
    let l = lexeme_at(src, i);
    token_of(src, l.kind, l.start, l.end)
}

/// The index at which the tokenizer stands after the token read from `i`.
pub open spec fn next_index(src: Seq<char>, i: int) -> int {
    lexeme_at(src, i).next
}

/// The tokens read from index `i` up to the first end of input, which is
/// left out.
pub open spec fn tokens_from(src: Seq<char>, i: int) -> Seq<Token>
    decreases src.len() - i,
{
    if lexeme_at(src, i).kind == TokenType::EOF {
        seq![]
    } else {
        proof {
            if 0 <= i <= src.len() {
                lemma_lexeme_bounds(src, i);
            } else {
                lemma_lexeme_outside(src, i);
            }
        }
        seq![token_at(src, i)] + tokens_from(src, next_index(src, i))
    }
}

/// The index at which the tokenizer stands once it has read the tokens from
/// `i` and the end of input after them.
pub open spec fn tokens_stop(src: Seq<char>, i: int) -> int
    decreases src.len() - i,
{
    if lexeme_at(src, i).kind == TokenType::EOF {
        next_index(src, i)
    } else {
        proof {
            if 0 <= i <= src.len() {
                lemma_lexeme_bounds(src, i);
            } else {
                lemma_lexeme_outside(src, i);
            }
        }
        tokens_stop(src, next_index(src, i))
    }
}

/// There are no more line breaks before an index than characters.
pub proof fn lemma_lines_bound(src: Seq<char>, i: int)
    requires
        0 <= i <= src.len(),
    ensures
        0 <= lines_before(src, i) <= i,
    decreases i,
{
    if i > 0 {
        lemma_lines_bound(src, i - 1);
    }
}

/// A word ends between its start and the end of the source.
pub proof fn lemma_word_end_bounds(src: Seq<char>, i: int)
    requires
        0 <= i <= src.len(),
    ensures
        i <= word_end(src, i) <= src.len(),
    decreases src.len() - i,
{
    if i < src.len() && is_letter(src[i]) {
        lemma_word_end_bounds(src, i + 1);
    }
}

/// A number ends between its start and the end of the source.
pub proof fn lemma_number_end_bounds(src: Seq<char>, i: int, dotted: bool)
    requires
        0 <= i <= src.len(),
    ensures
        i <= number_end(src, i, dotted) <= src.len(),
    decreases src.len() - i,
{
    if i < src.len() && is_digit(src[i]) {
        lemma_number_end_bounds(src, i + 1, dotted);
    } else if i < src.len() && src[i] == '.' && !dotted {
        lemma_number_end_bounds(src, i + 1, true);
    }
}

/// Skipping whitespace moves forward and stays within the source.
pub proof fn lemma_skip_space_bounds(src: Seq<char>, i: int)
    requires
        0 <= i <= src.len(),
    ensures
        i <= skip_space(src, i) <= src.len(),
        !is_space(char_at(src, skip_space(src, i))),
    decreases src.len() - i,
{
    if i < src.len() && is_space(src[i]) {
        lemma_skip_space_bounds(src, i + 1);
    }
}

/// Only the end of input is read from an index that is not in the source.
pub proof fn lemma_lexeme_outside(src: Seq<char>, i: int)
    requires
        i < 0 || i >= src.len(),
    ensures
        lexeme_at(src, i).kind == TokenType::EOF,
        i < 0 ==> lexeme_at(src, i).start == i && lexeme_at(src, i).next == i + 1,
        i >= src.len() ==> lexeme_at(src, i) == (Lexeme {
            kind: TokenType::EOF,
            start: i,
            end: i,
            next: i,
        }),
{
}

/// The step taken from an index within the source: the token lies after the
/// index and within the source, and unless the source is used up the
/// tokenizer moves on by one character at least.
pub proof fn lemma_lexeme_bounds(src: Seq<char>, i: int)
    requires
        0 <= i <= src.len(),
    ensures
        skip_space(src, i) == lexeme_at(src, i).start,
        i <= lexeme_at(src, i).start <= lexeme_at(src, i).end <= lexeme_at(src, i).next
            <= src.len(),
        lexeme_at(src, i).start < src.len() ==> lexeme_at(src, i).start < lexeme_at(src, i).next,
        lexeme_at(src, i).kind != TokenType::EOF ==> i < lexeme_at(src, i).next,
        lexeme_at(src, i).start == src.len() ==> lexeme_at(src, i).kind == TokenType::EOF,
{
    lemma_skip_space_bounds(src, i);
    let s = skip_space(src, i);
    lemma_word_end_bounds(src, s);
    lemma_number_end_bounds(src, s, false);
    if s < src.len() {
        lemma_word_end_bounds(src, s + 1);
        lemma_number_end_bounds(src, s + 1, false);
        lemma_number_end_bounds(src, s + 1, true);
    }
}

} // verus!
