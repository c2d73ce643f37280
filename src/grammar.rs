//! The lexical grammar as mathematics: what one scanning step does at a
//! position of the source, and what a whole scan yields.
use vstd::prelude::*;

use crate::error::{UNEXPECTED_CHARACTER, UNTERMINATED_STRING};

verus! {

pub open spec fn is_digit(c: char) -> bool {
    '0' <= c && c <= '9'
}

pub open spec fn is_alpha(c: char) -> bool {
    ('a' <= c && c <= 'z') || ('A' <= c && c <= 'Z') || c == '_'
}

pub open spec fn is_alpha_numeric(c: char) -> bool {
    is_alpha(c) || is_digit(c)
}

pub open spec fn is_whitespace(c: char) -> bool {
    c == ' ' || c == '\r' || c == '\t' || c == '\n'
}

/// The characters that always form a token of their own.
pub open spec fn is_punctuation(c: char) -> bool {
    c == '(' || c == ')' || c == '{' || c == '}' || c == ',' || c == '.' || c == '-' || c == '+'
        || c == ';' || c == '*'
}

/// The characters that form a token alone or together with a following `=`.
pub open spec fn is_operator_prefix(c: char) -> bool {
    c == '!' || c == '=' || c == '<' || c == '>'
}

/// The first position at or after `i` that does not hold a digit.
pub open spec fn digits_end(src: Seq<char>, i: int) -> int
    decreases src.len() - i,
{
    if 0 <= i < src.len() && is_digit(src[i]) {
        digits_end(src, i + 1)
    } else {
        i
    }
}

/// The first position at or after `i` that does not hold a letter, digit or underscore.
pub open spec fn word_end(src: Seq<char>, i: int) -> int
    decreases src.len() - i,
{
    if 0 <= i < src.len() && is_alpha_numeric(src[i]) {
        word_end(src, i + 1)
    } else {
        i
    }
}

/// The first position at or after `i` that holds `c`, or the end of the source.
pub open spec fn find_char(src: Seq<char>, i: int, c: char) -> int
    decreases src.len() - i,
{
    if 0 <= i < src.len() && src[i] != c {
        find_char(src, i + 1, c)
    } else {
        i
    }
}

/// Where a number literal that starts at `pos` ends: a run of digits, then a
/// `.` with its run of digits only when at least one digit follows the `.`.
pub open spec fn number_end(src: Seq<char>, pos: int) -> int {
    let d = digits_end(src, pos);
    if d + 1 < src.len() && src[d] == '.' && is_digit(src[d + 1]) {
        digits_end(src, d + 1)
    } else {
        d
    }
}

pub open spec fn count_newlines(s: Seq<char>) -> nat
    decreases s.len(),
{
    if s.len() == 0 {
        0
    } else {
        count_newlines(s.drop_last()) + if s.last() == '\n' {
            1nat
        } else {
            0nat
        }
    }
}

/// A token as the grammar sees it: the characters it was made of, and the
/// line on which it started.
pub struct Lexed {
    pub lexeme: Seq<char>,
    pub line: nat,
}

/// A lexical error: what went wrong, and on which line.
pub struct Diagnostic {
    pub description: Seq<char>,
    pub line: nat,
}

/// What one step of the scan produces from the position where a token may start.
pub struct Step {
    pub token: Option<Lexed>,
    pub error: Option<Diagnostic>,
    pub next: int,
    pub next_line: nat,
}

/// What a scan produces from some position to the end of the source.
pub struct Lexing {
    pub tokens: Seq<Lexed>,
    pub errors: Seq<Diagnostic>,
    pub line: nat,
}

pub open spec fn emit(src: Seq<char>, pos: int, end: int, line: nat) -> Step {
    Step {
        token: Some(Lexed { lexeme: src.subrange(pos, end), line }),
        error: None,
        next: end,
        next_line: line,
    }
}

pub open spec fn skip(next: int, line: nat) -> Step {
    Step { token: None, error: None, next, next_line: line }
}

pub open spec fn fail(description: Seq<char>, next: int, line: nat) -> Step {
    Step { token: None, error: Some(Diagnostic { description, line }), next, next_line: line }
}

/// Whether the character after `pos` exists and is `c`.
pub open spec fn followed_by(src: Seq<char>, pos: int, c: char) -> bool {
    pos + 1 < src.len() && src[pos + 1] == c
}

/// One step of the scan at `pos` (where `pos` is inside the source), on line `line`.
pub open spec fn step(src: Seq<char>, pos: int, line: nat) -> Step {
    let c = src[pos];
    if is_punctuation(c) {
        emit(src, pos, pos + 1, line)
    } else if is_operator_prefix(c) {
        if followed_by(src, pos, '=') {
            emit(src, pos, pos + 2, line)
        } else {
            emit(src, pos, pos + 1, line)
        }
    } else if c == '/' {
        if followed_by(src, pos, '/') {
            skip(find_char(src, pos + 2, '\n'), line)
        } else {
            emit(src, pos, pos + 1, line)
        }
    } else if is_whitespace(c) {
        skip(pos + 1, if c == '\n' { line + 1 } else { line })
    } else if c == '"' {
        let close = find_char(src, pos + 1, '"');
        let lines = line + count_newlines(src.subrange(pos + 1, close));
        if close < src.len() {
            Step {
                token: Some(Lexed { lexeme: src.subrange(pos, close + 1), line }),
                error: None,
                next: close + 1,
                next_line: lines,
            }
        } else {
            fail(UNTERMINATED_STRING@, close, lines)
        }
    } else if is_digit(c) {
        emit(src, pos, number_end(src, pos), line)
    } else if is_alpha(c) {
        emit(src, pos, word_end(src, pos + 1), line)
    } else {
        fail(UNEXPECTED_CHARACTER@, pos + 1, line)
    }
}

pub open spec fn option_seq<A>(o: Option<A>) -> Seq<A> {
    match o {
        Some(a) => seq![a],
        None => Seq::empty(),
    }
}

/// The tokens and errors of the source from `pos` to its end, and the line
/// reached there; no end-of-input token.
pub open spec fn scan_from(src: Seq<char>, pos: int, line: nat) -> Lexing
    decreases src.len() - pos,
    via scan_from_decreases
{
    if 0 <= pos < src.len() {
        let s = step(src, pos, line);
        let rest = scan_from(src, s.next, s.next_line);
        Lexing {
            tokens: option_seq(s.token) + rest.tokens,
            errors: option_seq(s.error) + rest.errors,
            line: rest.line,
        }
    } else {
        Lexing { tokens: Seq::empty(), errors: Seq::empty(), line }
    }
}

#[via_fn]
proof fn scan_from_decreases(src: Seq<char>, pos: int, line: nat) {
    if 0 <= pos < src.len() {
        lemma_step_advances(src, pos, line);
    }
}

/// The end-of-input token that closes a scan ending on line `line`.
pub open spec fn end_of_input(line: nat) -> Lexed {
    Lexed { lexeme: Seq::empty(), line }
}

/// The tokens (closed by the end-of-input token) and errors of scanning the
/// source from `pos` on line `line`.
pub open spec fn lex_from(src: Seq<char>, pos: int, line: nat) -> Lexing {
    let l = scan_from(src, pos, line);
    Lexing { tokens: l.tokens.push(end_of_input(l.line)), errors: l.errors, line: l.line }
}

/// The tokens and errors of a whole source, scanned from its start on line 0.
pub open spec fn lex(src: Seq<char>) -> Lexing {
    lex_from(src, 0, 0)
}

pub proof fn lemma_digits_end_bounds(src: Seq<char>, i: int)
    requires
        0 <= i <= src.len(),
    ensures
        i <= digits_end(src, i) <= src.len(),
        digits_end(src, i) < src.len() ==> !is_digit(src[digits_end(src, i)]),
    decreases src.len() - i,
{
    if i < src.len() && is_digit(src[i]) {
        lemma_digits_end_bounds(src, i + 1);
    }
}

pub proof fn lemma_word_end_bounds(src: Seq<char>, i: int)
    requires
        0 <= i <= src.len(),
    ensures
        i <= word_end(src, i) <= src.len(),
    decreases src.len() - i,
{
    if i < src.len() && is_alpha_numeric(src[i]) {
        lemma_word_end_bounds(src, i + 1);
    }
}

pub proof fn lemma_find_char_bounds(src: Seq<char>, i: int, c: char)
    requires
        0 <= i <= src.len(),
    ensures
        i <= find_char(src, i, c) <= src.len(),
        find_char(src, i, c) < src.len() ==> src[find_char(src, i, c)] == c,
    decreases src.len() - i,
{
    if i < src.len() && src[i] != c {
        lemma_find_char_bounds(src, i + 1, c);
    }
}

pub proof fn lemma_number_end_bounds(src: Seq<char>, pos: int)
    requires
        0 <= pos < src.len(),
        is_digit(src[pos]),
    ensures
        pos < number_end(src, pos) <= src.len(),
{
    lemma_digits_end_bounds(src, pos);
    let d = digits_end(src, pos);
    if d + 1 < src.len() && src[d] == '.' && is_digit(src[d + 1]) {
        lemma_digits_end_bounds(src, d + 1);
    }
}

/// Each step moves forward, and not past the end of the source.
pub proof fn lemma_step_advances(src: Seq<char>, pos: int, line: nat)
    requires
        0 <= pos < src.len(),
    ensures
        pos < step(src, pos, line).next <= src.len(),
{
    let c = src[pos];
    if c == '/' && followed_by(src, pos, '/') {
        lemma_find_char_bounds(src, pos + 2, '\n');
    } else if c == '"' {
        lemma_find_char_bounds(src, pos + 1, '"');
    } else if is_digit(c) {
        lemma_number_end_bounds(src, pos);
    } else if is_alpha(c) {
        lemma_word_end_bounds(src, pos + 1);
    }
}

} // verus!
