//! Laws of the tokenizer and of the parser, proved of every source text.
use vstd::prelude::*;
use vstd::utf8::{encode_utf8, is_char_boundary};
use crate::chars::{is_digit, is_letter, is_number_char, is_space};
use crate::ast::{Identifier, LetStatement, Statement};
use crate::grammar::{
    assign_position, expect_message, has_modifier, lemma_advance, lemma_statement_bounds,
    let_at, name_follows, parse_from, peek_at, position_after, skipped, source_used_up,
    statement_at, statement_end,
};
use crate::scan::{
    lemma_lexeme_bounds, lemma_lines_bound, lemma_skip_space_bounds, lexeme_at, next_index,
    number_dotted, number_end, punct_kind, skip_space, token_at, tokens_from, word_end, Lexeme,
};
use crate::text::{
    lemma_char_width_bounds, lemma_encode_concat, lemma_encode_subrange,
    lemma_offset_is_boundary, lemma_offset_monotone, lemma_offset_step, offset_of,
};
use crate::token::{word_kind, Token, TokenType};

verus! {

/// Where every character before index `i` is ASCII, the byte offset of `i`
/// is `i`.
proof fn lemma_ascii_offsets(src: Seq<char>, i: int)
    requires
        0 <= i <= src.len(),
        forall|j: int| 0 <= j < i ==> src[j] <= '\u{7f}',
    ensures
        offset_of(src, i) == i,
    decreases i,
{
    if i == 0 {
        lemma_offset_monotone(src, 0, 0);
        assert(src.subrange(0, 0) =~= Seq::<char>::empty());
    } else {
        lemma_ascii_offsets(src, i - 1);
        lemma_offset_step(src, i - 1);
        lemma_char_width_bounds(src[i - 1]);
    }
}

/// The text of an operator or delimiter is read as one token of that kind,
/// which spans the whole text; the end of input follows it.
pub proof fn lemma_operator_is_one_token(kind: TokenType)
    requires
        kind.is_operator(),
    ensures
        lexeme_at(kind.display(), 0) == (Lexeme {
            kind,
            start: 0,
            end: kind.display().len() as int,
            next: kind.display().len() as int,
        }),
        token_at(kind.display(), 0) == (Token {
            token_type: kind,
            start: 0,
            end: kind.display().len() as usize,
            line: 0,
        }),
        1 <= kind.display().len() <= 2,
        lexeme_at(kind.display(), kind.display().len() as int).kind == TokenType::EOF,
{
    reveal_strlit("=");
    reveal_strlit("+");
    reveal_strlit("-");
    reveal_strlit("!");
    reveal_strlit("*");
    reveal_strlit("/");
    reveal_strlit("<");
    reveal_strlit(">");
    reveal_strlit("==");
    reveal_strlit("!=");
    reveal_strlit(",");
    reveal_strlit(";");
    reveal_strlit("(");
    reveal_strlit(")");
    reveal_strlit("{");
    reveal_strlit("}");
    let src = kind.display();
    let n = src.len() as int;
    assert(skip_space(src, 0) == 0);
    assert(skip_space(src, n) == n);
    lemma_ascii_offsets(src, 0);
    lemma_ascii_offsets(src, n);
}

/// Whether one of the characters `src[from..to]` is a dot.
pub open spec fn has_dot(src: Seq<char>, from: int, to: int) -> bool {
    exists|j: int| from <= j < to && #[trigger] src[j] == '.'
}

/// The longest number at `i`: a run of digits and dots `src[i..k]` with one
/// dot at most, which neither a digit follows nor a first dot. Reading a
/// number at `i` ends at `k`, and the number is dotted where the run holds
/// a dot. Read as a token, the run is one number that spans it, `Float`
/// where it holds a dot and `Int` where it holds none; a character of the
/// run takes one byte. A second dot is left unread, and the next token
/// starts at it.
pub proof fn lemma_number_token(src: Seq<char>, i: int, k: int)
    requires
        0 <= i < k <= src.len(),
        forall|j: int| i <= j < k ==> is_number_char(#[trigger] src[j]),
        forall|a: int, b: int|
            i <= a < k && i <= b < k && #[trigger] src[a] == '.' && #[trigger] src[b] == '.' ==> a
                == b,
        k < src.len() ==> !is_digit(src[k]),
        k < src.len() && src[k] == '.' ==> has_dot(src, i, k),
    ensures
        number_end(src, i, false) == k,
        number_dotted(src, i, false) == has_dot(src, i, k),
        lexeme_at(src, i) == (Lexeme {
            kind: if has_dot(src, i, k) {
                TokenType::Float
            } else {
                TokenType::Int
            },
            start: i,
            end: k,
            next: k,
        }),
        offset_of(src, k) == offset_of(src, i) + (k - i),
        k < src.len() && src[k] == '.' ==> lexeme_at(src, k).start == k,
{
    assert(is_number_char(src[i]));
    assert(skip_space(src, i) == i);
    lemma_number_run(src, i, i, k);
    assert(!has_dot(src, i, i));
    lemma_number_width(src, i, k);
    if k < src.len() && src[k] == '.' {
        assert(skip_space(src, k) == k);
    }
}

proof fn lemma_number_width(src: Seq<char>, i: int, k: int)
    requires
        0 <= i <= k <= src.len(),
        forall|j: int| i <= j < k ==> is_number_char(#[trigger] src[j]),
    ensures
        offset_of(src, k) == offset_of(src, i) + (k - i),
    decreases k - i,
{
    if i < k {
        lemma_number_width(src, i, k - 1);
        lemma_offset_step(src, k - 1);
        assert(is_number_char(src[k - 1]));
        lemma_char_width_bounds(src[k - 1]);
    }
}

proof fn lemma_number_run(src: Seq<char>, from: int, i: int, k: int)
    requires
        0 <= from <= i <= k <= src.len(),
        forall|j: int| from <= j < k ==> is_number_char(#[trigger] src[j]),
        forall|a: int, b: int|
            from <= a < k && from <= b < k && #[trigger] src[a] == '.' && #[trigger] src[b] == '.'
                ==> a == b,
        k < src.len() ==> !is_digit(src[k]),
        k < src.len() && src[k] == '.' ==> has_dot(src, from, k),
    ensures
        number_end(src, i, has_dot(src, from, i)) == k,
        number_dotted(src, i, has_dot(src, from, i)) == has_dot(src, from, k),
    decreases k - i,
{
    let dotted = has_dot(src, from, i);
    if i < k {
        assert(is_number_char(src[i]));
        lemma_number_run(src, from, i + 1, k);
        let after = has_dot(src, from, i + 1);
        if src[i] == '.' {
            assert(after);
            if dotted {
                let j = choose|j: int| from <= j < i && #[trigger] src[j] == '.';
                assert(src[j] == '.' && src[i] == '.');
                assert(false);
            }
        } else {
            if after {
                let j = choose|j: int| from <= j < i + 1 && #[trigger] src[j] == '.';
                assert(j < i);
                assert(dotted);
            }
            if dotted {
                let j = choose|j: int| from <= j < i && #[trigger] src[j] == '.';
                assert(from <= j < i + 1 && src[j] == '.');
            }
        }
    } else {
        if k < src.len() && src[k] == '.' {
            assert(dotted);
        }
    }
}

/// A run of letters `src[i..k]` that no letter follows is read as one word
/// that spans the run: a keyword where the run spells one, `Ident` otherwise.
pub proof fn lemma_word_token(src: Seq<char>, i: int, k: int)
    requires
        0 <= i < k <= src.len(),
        forall|j: int| i <= j < k ==> is_letter(#[trigger] src[j]),
        k < src.len() ==> !is_letter(src[k]),
    ensures
        word_end(src, i) == k,
        lexeme_at(src, i) == (Lexeme {
            kind: word_kind(src.subrange(i, k)),
            start: i,
            end: k,
            next: k,
        }),
{
    assert(is_letter(src[i]));
    assert(skip_space(src, i) == i);
    lemma_word_run(src, i, k);
}

proof fn lemma_word_run(src: Seq<char>, i: int, k: int)
    requires
        0 <= i <= k <= src.len(),
        forall|j: int| i <= j < k ==> is_letter(#[trigger] src[j]),
        k < src.len() ==> !is_letter(src[k]),
    ensures
        word_end(src, i) == k,
    decreases k - i,
{
    if i < k {
        assert(is_letter(src[i]));
        lemma_word_run(src, i + 1, k);
    }
}

/// A reserved word is read as the keyword that it spells.
pub proof fn lemma_keyword_token(kind: TokenType)
    requires
        kind.is_keyword(),
    ensures
        word_kind(kind.display()) == kind,
        lexeme_at(kind.display(), 0) == (Lexeme {
            kind,
            start: 0,
            end: kind.display().len() as int,
            next: kind.display().len() as int,
        }),
{
    reveal_strlit("fn");
    reveal_strlit("let");
    reveal_strlit("mut");
    reveal_strlit("true");
    reveal_strlit("false");
    reveal_strlit("if");
    reveal_strlit("else");
    reveal_strlit("return");
    let src = kind.display();
    assert(src.subrange(0, src.len() as int) =~= src);
    lemma_word_token(src, 0, src.len() as int);
}

/// A run of letters that spells no reserved word is read as an identifier.
pub proof fn lemma_identifier_token(src: Seq<char>)
    requires
        0 < src.len(),
        forall|j: int| 0 <= j < src.len() ==> is_letter(#[trigger] src[j]),
        forall|kind: TokenType| kind.is_keyword() ==> src != #[trigger] kind.display(),
    ensures
        lexeme_at(src, 0) == (Lexeme {
            kind: TokenType::Ident,
            start: 0,
            end: src.len() as int,
            next: src.len() as int,
        }),
{
    assert(src.subrange(0, src.len() as int) =~= src);
    lemma_word_token(src, 0, src.len() as int);
    assert(TokenType::Fn.is_keyword() && src != TokenType::Fn.display());
    assert(TokenType::Let.is_keyword() && src != TokenType::Let.display());
    assert(TokenType::Mut.is_keyword() && src != TokenType::Mut.display());
    assert(TokenType::True.is_keyword() && src != TokenType::True.display());
    assert(TokenType::False.is_keyword() && src != TokenType::False.display());
    assert(TokenType::If.is_keyword() && src != TokenType::If.display());
    assert(TokenType::Else.is_keyword() && src != TokenType::Else.display());
    assert(TokenType::Return.is_keyword() && src != TokenType::Return.display());
}

/// Once nothing but whitespace is left, the end of input is read, with an
/// empty span at the end of the source, and it is read again from there on.
pub proof fn lemma_end_of_input_repeats(src: Seq<char>, i: int)
    requires
        0 <= i <= src.len(),
        skip_space(src, i) == src.len(),
    ensures
        lexeme_at(src, i) == (Lexeme {
            kind: TokenType::EOF,
            start: src.len() as int,
            end: src.len() as int,
            next: src.len() as int,
        }),
        lexeme_at(src, next_index(src, i)) == lexeme_at(src, i),
        token_at(src, next_index(src, i)) == token_at(src, i),
        token_at(src, i).start == token_at(src, i).end,
{
}

/// The span of a token can be cut out of the source: its two ends are
/// character boundaries of the source's bytes, in order and within them, and
/// the bytes between them are the token's characters. The end of input
/// spans nothing.
pub proof fn lemma_token_span(src: Seq<char>, i: int)
    requires
        0 <= i <= src.len(),
        encode_utf8(src).len() <= usize::MAX,
    ensures
        token_at(src, i).wf(),
        token_at(src, i).end <= encode_utf8(src).len(),
        is_char_boundary(encode_utf8(src), token_at(src, i).start as int),
        is_char_boundary(encode_utf8(src), token_at(src, i).end as int),
        encode_utf8(src).subrange(token_at(src, i).start as int, token_at(src, i).end as int)
            == encode_utf8(src.subrange(lexeme_at(src, i).start, lexeme_at(src, i).end)),
{
    let l = lexeme_at(src, i);
    lemma_lexeme_bounds(src, i);
    lemma_offset_monotone(src, l.start, l.end);
    lemma_encode_subrange(src, l.start, l.end);
    lemma_offset_is_boundary(src, l.start);
    lemma_offset_is_boundary(src, l.end);
    lemma_lines_bound(src, l.start);
}

/// Whether the tokenizer takes `c` into a token: it is neither rejected as
/// illegal nor read as the end of input.
pub open spec fn is_token_char(c: char) -> bool {
    c != '\0' && (c == '=' || c == '!' || punct_kind(c) is Some || is_letter(c) || is_number_char(
        c,
    ))
}

/// The bytes that the spans of `tokens` cut out of `bytes`, one after the
/// other.
pub open spec fn spans_text(bytes: Seq<u8>, tokens: Seq<Token>) -> Seq<u8>
    decreases tokens.len(),
{
    if tokens.len() == 0 {
        seq![]
    } else {
        bytes.subrange(tokens[0].start as int, tokens[0].end as int) + spans_text(
            bytes,
            tokens.drop_first(),
        )
    }
}

/// The source without its whitespace.
pub open spec fn without_space(src: Seq<char>) -> Seq<char> {
    src.filter(|c: char| !is_space(c))
}

proof fn lemma_keep_all(text: Seq<char>)
    requires
        forall|j: int| 0 <= j < text.len() ==> !is_space(#[trigger] text[j]),
    ensures
        without_space(text) == text,
    decreases text.len(),
{
    reveal(Seq::filter);
    let keep = |c: char| !is_space(c);
    if text.len() > 0 {
        lemma_keep_all(text.drop_last());
        assert(keep(text.last()));
        assert(text.drop_last().push(text.last()) =~= text);
    }
}

proof fn lemma_keep_none(text: Seq<char>)
    requires
        forall|j: int| 0 <= j < text.len() ==> is_space(#[trigger] text[j]),
    ensures
        without_space(text) == Seq::<char>::empty(),
    decreases text.len(),
{
    reveal(Seq::filter);
    let keep = |c: char| !is_space(c);
    if text.len() > 0 {
        lemma_keep_none(text.drop_last());
        assert(!keep(text.last()));
    }
}

proof fn lemma_space_run(src: Seq<char>, i: int)
    requires
        0 <= i <= src.len(),
    ensures
        forall|j: int| i <= j < skip_space(src, i) ==> is_space(#[trigger] src[j]),
    decreases src.len() - i,
{
    if i < src.len() && is_space(src[i]) {
        lemma_space_run(src, i + 1);
    }
}

proof fn lemma_letter_run(src: Seq<char>, i: int)
    requires
        0 <= i <= src.len(),
    ensures
        forall|j: int| i <= j < word_end(src, i) ==> is_letter(#[trigger] src[j]),
    decreases src.len() - i,
{
    if i < src.len() && is_letter(src[i]) {
        lemma_letter_run(src, i + 1);
    }
}

proof fn lemma_digit_run(src: Seq<char>, i: int, dotted: bool)
    requires
        0 <= i <= src.len(),
    ensures
        forall|j: int| i <= j < number_end(src, i, dotted) ==> is_number_char(#[trigger] src[j]),
    decreases src.len() - i,
{
    if i < src.len() && is_digit(src[i]) {
        lemma_digit_run(src, i + 1, dotted);
    } else if i < src.len() && src[i] == '.' && !dotted {
        lemma_digit_run(src, i + 1, true);
    }
}

/// Where every character of the source is whitespace or goes into a token,
/// no token spans whitespace, and the tokenizer stands at a token's end once
/// it has read it.
proof fn lemma_token_holds_no_space(src: Seq<char>, i: int)
    requires
        0 <= i <= src.len(),
        forall|j: int| 0 <= j < src.len() ==> is_space(#[trigger] src[j]) || is_token_char(src[j]),
        lexeme_at(src, i).start < src.len(),
    ensures
        lexeme_at(src, i).kind != TokenType::EOF,
        lexeme_at(src, i).end == lexeme_at(src, i).next,
        forall|j: int|
            lexeme_at(src, i).start <= j < lexeme_at(src, i).end ==> !is_space(#[trigger] src[j]),
{
    lemma_lexeme_bounds(src, i);
    lemma_skip_space_bounds(src, i);
    let s = skip_space(src, i);
    assert(is_space(src[s]) || is_token_char(src[s]));
    lemma_letter_run(src, s);
    lemma_digit_run(src, s, false);
    assert forall|j: int| lexeme_at(src, i).start <= j < lexeme_at(src, i).end implies !is_space(
        #[trigger] src[j],
    ) by {
        if is_letter(src[s]) {
            assert(is_letter(src[j]) || j == s || j == s + 1);
        } else if is_number_char(src[s]) {
            assert(is_number_char(src[j]) || j == s || j == s + 1);
        }
    }
}

proof fn lemma_round_trip_from(src: Seq<char>, i: int)
    requires
        0 <= i <= src.len(),
        encode_utf8(src).len() <= usize::MAX,
        forall|j: int| 0 <= j < src.len() ==> is_space(#[trigger] src[j]) || is_token_char(src[j]),
    ensures
        spans_text(encode_utf8(src), tokens_from(src, i)) == encode_utf8(
            without_space(src.subrange(i, src.len() as int)),
        ),
    decreases src.len() - i,
{
    let n = src.len() as int;
    let bytes = encode_utf8(src);
    let l = lexeme_at(src, i);
    let keep = |c: char| !is_space(c);
    lemma_lexeme_bounds(src, i);
    lemma_space_run(src, i);
    lemma_keep_none(src.subrange(i, l.start));
    Seq::filter_distributes_over_add(src.subrange(i, l.start), src.subrange(l.start, n), keep);
    assert(src.subrange(i, l.start) + src.subrange(l.start, n) =~= src.subrange(i, n));
    assert(without_space(src.subrange(i, n)) =~= without_space(src.subrange(l.start, n)));
    if l.start == n {
        assert(src.subrange(n, n) =~= Seq::<char>::empty());
        assert(spans_text(bytes, tokens_from(src, i)) =~= encode_utf8(Seq::<char>::empty()));
    } else {
        lemma_token_holds_no_space(src, i);
        lemma_round_trip_from(src, l.next);
        let tok = token_at(src, i);
        let rest = tokens_from(src, l.next);
        assert((seq![tok] + rest).drop_first() =~= rest);
        lemma_offset_monotone(src, l.start, l.end);
        lemma_encode_subrange(src, l.start, l.end);
        lemma_keep_all(src.subrange(l.start, l.end));
        Seq::filter_distributes_over_add(
            src.subrange(l.start, l.end),
            src.subrange(l.end, n),
            keep,
        );
        assert(src.subrange(l.start, l.end) + src.subrange(l.end, n) =~= src.subrange(l.start, n));
        lemma_encode_concat(src.subrange(l.start, l.end), without_space(src.subrange(l.end, n)));
    }
}

/// Round trip: where every character of the source is whitespace or goes
/// into a token, the spans of the tokens, cut out of the source's bytes and
/// put together, are the source without its whitespace.
pub proof fn lemma_round_trip(src: Seq<char>)
    requires
        encode_utf8(src).len() <= usize::MAX,
        forall|j: int| 0 <= j < src.len() ==> is_space(#[trigger] src[j]) || is_token_char(src[j]),
    ensures
        spans_text(encode_utf8(src), tokens_from(src, 0)) == encode_utf8(without_space(src)),
{
    lemma_round_trip_from(src, 0);
    assert(src.subrange(0, src.len() as int) =~= src);
}

/// Once the source is used up, only the end of input is read.
proof fn lemma_used_up_stays(src: Seq<char>, at: int, n: nat)
    requires
        source_used_up(src, at),
    ensures
        token_at(src, position_after(src, at, n)).token_type == TokenType::EOF,
    decreases n,
{
    if 0 <= at <= src.len() {
        lemma_lexeme_bounds(src, at);
        lemma_lexeme_bounds(src, src.len() as int);
    }
    if n > 0 {
        lemma_used_up_stays(src, next_index(src, at), (n - 1) as nat);
    }
}

/// The skip over the right-hand side of a binding ends at the first
/// semicolon: where the token `n` tokens after `at` is a semicolon and none
/// before it is, whatever else those tokens are, the skip from `at` ends
/// there, having passed `n` tokens.
pub proof fn lemma_skip_ends_at_first_semicolon(src: Seq<char>, at: int, n: nat)
    requires
        token_at(src, position_after(src, at, n)).token_type == TokenType::Semicolon,
        forall|m: nat|
            m < n ==> token_at(src, #[trigger] position_after(src, at, m)).token_type
                != TokenType::Semicolon,
    ensures
        statement_end(src, at) == position_after(src, at, n),
        skipped(src, at) == n,
    decreases n,
{
    if n > 0 {
        assert(position_after(src, at, 0) == at);
        if source_used_up(src, at) {
            lemma_used_up_stays(src, at, n);
        }
        let next = next_index(src, at);
        assert forall|m: nat| m < n - 1 implies token_at(
            src,
            #[trigger] position_after(src, next, m),
        ).token_type != TokenType::Semicolon by {
            assert(position_after(src, at, m + 1) == position_after(src, next, m));
        }
        lemma_skip_ends_at_first_semicolon(src, next, (n - 1) as nat);
    }
}

/// Without a semicolon to come, the skip over the right-hand side of a
/// binding ends where the source is used up.
pub proof fn lemma_skip_ends_with_the_source(src: Seq<char>, at: int)
    requires
        0 <= at <= src.len(),
        token_at(src, statement_end(src, at)).token_type != TokenType::Semicolon,
    ensures
        source_used_up(src, statement_end(src, at)),
        token_at(src, statement_end(src, at)).token_type == TokenType::EOF,
    decreases src.len() - at,
{
    lemma_lexeme_bounds(src, at);
    if !source_used_up(src, at) && token_at(src, at).token_type != TokenType::Semicolon {
        lemma_advance(src, at);
        lemma_skip_ends_with_the_source(src, next_index(src, at));
    }
}

/// A well-formed binding gives its statement and no message: where `let`
/// is followed by an optional `mut`, a name and `=`, and the first semicolon
/// after the `=` stands `n` tokens behind it, the statement holds the `let`
/// token and the name, it is mutable exactly where `mut` is there, and the
/// parser is left at that semicolon.
pub proof fn lemma_binding(src: Seq<char>, at: int, n: nat)
    requires
        token_at(src, at).token_type == TokenType::Let,
        peek_at(src, name_follows(src, at)).token_type == TokenType::Ident,
        token_at(src, assign_position(src, at)).token_type == TokenType::Assign,
        token_at(src, position_after(src, assign_position(src, at), n)).token_type
            == TokenType::Semicolon,
        forall|m: nat|
            m < n ==> token_at(
                src,
                #[trigger] position_after(src, assign_position(src, at), m),
            ).token_type != TokenType::Semicolon,
    ensures
        statement_at(src, at).statement == Some(
            Statement::Let(
                Box::new(
                    LetStatement {
                        token: token_at(src, at),
                        name: Identifier {
                            token: peek_at(src, name_follows(src, at)),
                            start: peek_at(src, name_follows(src, at)).start,
                            end: peek_at(src, name_follows(src, at)).end,
                        },
                        is_mut: has_modifier(src, at),
                    },
                ),
            ),
        ),
        statement_at(src, at).errors == Seq::<Seq<char>>::empty(),
        statement_at(src, at).at == position_after(src, assign_position(src, at), n),
        statement_at(src, at).advances == (if has_modifier(src, at) { 1nat } else { 0nat }) + 2
            + n,
{
    lemma_skip_ends_at_first_semicolon(src, assign_position(src, at), n);
}

/// Whether `message` says that a name or an `=` was expected.
pub open spec fn is_expectation(message: Seq<char>) -> bool {
    exists|actual: TokenType|
        message == #[trigger] expect_message(TokenType::Ident, actual) || message
            == expect_message(TokenType::Assign, actual)
}

/// Parsing ends at the end of input, and every message that it records is
/// that of a name or an `=` that was expected and not found.
pub proof fn lemma_parse_ends_and_records_expectations(src: Seq<char>, at: int)
    ensures
        token_at(src, parse_from(src, at).at).token_type == TokenType::EOF,
        forall|k: int|
            0 <= k < parse_from(src, at).errors.len() ==> is_expectation(
                #[trigger] parse_from(src, at).errors[k],
            ),
    decreases src.len() - at,
{
    if token_at(src, at).token_type != TokenType::EOF {
        let step = statement_at(src, at);
        lemma_statement_bounds(src, at);
        let next = next_index(src, step.at);
        lemma_parse_ends_and_records_expectations(src, next);
        let rest = parse_from(src, next);
        assert forall|k: int| 0 <= k < parse_from(src, at).errors.len() implies is_expectation(
            #[trigger] parse_from(src, at).errors[k],
        ) by {
            if k < step.errors.len() {
                let message = step.errors[k];
                assert(step == let_at(src, at));
                assert(is_expectation(message));
            } else {
                assert(parse_from(src, at).errors[k] == rest.errors[k - step.errors.len()]);
            }
        }
    }
}

} // verus!
