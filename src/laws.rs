//! What holds of every scan.
use vstd::prelude::*;

use crate::error::FeroxError;
use crate::grammar::{
    digits_end, is_digit, lemma_digits_end_bounds, number_end, end_of_input, find_char, followed_by, is_operator_prefix, lex, option_seq, scan_from, step,
    Lexed,
};
use crate::scanner::{errors_appended, tokens_are};
use crate::token::{
    fixed_type_of, lemma_type_of_unique, single_char_type, with_equal_type, Token, TokenType,
};

verus! {

/// A source of one character that is a token by itself scans to exactly that
/// token, of that character's type, then the end of input, with no error.
pub proof fn lone_character_token(c: char)
    requires
        single_char_type(c) is Some,
    ensures
        lex(seq![c]).tokens == seq![Lexed { lexeme: seq![c], line: 0 }, end_of_input(0)],
        lex(seq![c]).errors.len() == 0,
        forall|t: TokenType| #[trigger] t.is_type_of(seq![c]) <==> Some(t) == single_char_type(c),
{
    let src = seq![c];
    let s = step(src, 0, 0);
    assert(s.token == Some(Lexed { lexeme: seq![c], line: 0 }) && s.error is None && s.next == 1
        && s.next_line == 0) by {
        assert(src.subrange(0, 1) =~= seq![c]);
    }
    assert(scan_from(src, 1, 0).tokens.len() == 0);
    assert(lex(src).tokens =~= seq![Lexed { lexeme: seq![c], line: 0 }, end_of_input(0)]);
    assert(lex(src).errors =~= Seq::<crate::grammar::Diagnostic>::empty());
}

/// Maximal munch: an operator character followed by `=` forms a two-character
/// token with it; otherwise it is a token by itself and the next character is
/// scanned on its own.
pub proof fn operator_munch(src: Seq<char>, pos: int, line: nat)
    requires
        0 <= pos < src.len(),
        is_operator_prefix(src[pos]),
    ensures
        followed_by(src, pos, '=') ==> {
            &&& scan_from(src, pos, line).tokens == seq![
                Lexed { lexeme: src.subrange(pos, pos + 2), line },
            ] + scan_from(src, pos + 2, line).tokens
            &&& scan_from(src, pos, line).errors == scan_from(src, pos + 2, line).errors
            &&& fixed_type_of(src.subrange(pos, pos + 2)) == with_equal_type(src[pos])
        },
        !followed_by(src, pos, '=') ==> {
            &&& scan_from(src, pos, line).tokens == seq![
                Lexed { lexeme: src.subrange(pos, pos + 1), line },
            ] + scan_from(src, pos + 1, line).tokens
            &&& scan_from(src, pos, line).errors == scan_from(src, pos + 1, line).errors
            &&& fixed_type_of(src.subrange(pos, pos + 1)) == single_char_type(src[pos])
        },
{
    let rest = if followed_by(src, pos, '=') {
        scan_from(src, pos + 2, line)
    } else {
        scan_from(src, pos + 1, line)
    };
    assert(option_seq::<crate::grammar::Diagnostic>(None) + rest.errors =~= rest.errors);
}

/// A number literal takes a `.` only together with a digit after it: a run
/// of digits followed by a `.` and no digit ends before the `.`, which the
/// next step then scans as a token of its own.
pub proof fn trailing_dot_is_not_taken(src: Seq<char>, pos: int)
    requires
        0 <= pos < src.len(),
        is_digit(src[pos]),
        digits_end(src, pos) < src.len(),
        src[digits_end(src, pos)] == '.',
        digits_end(src, pos) + 1 == src.len() || !is_digit(src[digits_end(src, pos) + 1]),
    ensures
        number_end(src, pos) == digits_end(src, pos),
        step(src, digits_end(src, pos), 0).token == Some(
            Lexed { lexeme: seq!['.'], line: 0 },
        ),
        single_char_type('.') == Some(TokenType::Dot),
{
    let d = digits_end(src, pos);
    lemma_digits_end_bounds(src, pos);
    assert(src.subrange(d, d + 1) =~= seq!['.']);
}

/// A line comment yields nothing: scanning from `//` is scanning from the end
/// of its line.
pub proof fn line_comment_is_skipped(src: Seq<char>, pos: int, line: nat)
    requires
        0 <= pos,
        followed_by(src, pos, '/'),
        src[pos] == '/',
    ensures
        scan_from(src, pos, line) == scan_from(src, find_char(src, pos + 2, '\n'), line),
{
    let rest = scan_from(src, find_char(src, pos + 2, '\n'), line);
    assert(option_seq::<Lexed>(None) + rest.tokens =~= rest.tokens);
    assert(option_seq::<crate::grammar::Diagnostic>(None) + rest.errors =~= rest.errors);
}

/// Two scans of the same source yield the same tokens and the same errors.
pub proof fn scanning_is_deterministic(
    src: Seq<char>,
    tokens1: Seq<Token>,
    errors1: Seq<FeroxError>,
    tokens2: Seq<Token>,
    errors2: Seq<FeroxError>,
)
    requires
        tokens_are(tokens1, lex(src).tokens),
        tokens_are(tokens2, lex(src).tokens),
        errors_appended(Seq::empty(), errors1, lex(src).errors),
        errors_appended(Seq::empty(), errors2, lex(src).errors),
    ensures
        tokens1.len() == tokens2.len(),
        forall|i: int| 0 <= i < tokens1.len() ==> #[trigger] tokens1[i].same_as(&tokens2[i]),
        errors1.len() == errors2.len(),
        forall|i: int| 0 <= i < errors1.len() ==> #[trigger] errors1[i].same_as(&errors2[i]),
{
    let l = lex(src);
    assert forall|i: int| 0 <= i < tokens1.len() implies #[trigger] tokens1[i].same_as(
        &tokens2[i],
    ) by {
        assert(tokens1[i].is_token_of(l.tokens[i]));
        assert(tokens2[i].is_token_of(l.tokens[i]));
        lemma_type_of_unique(tokens1[i].token_type, tokens2[i].token_type, l.tokens[i].lexeme);
    }
    assert forall|i: int| 0 <= i < errors1.len() implies #[trigger] errors1[i].same_as(
        &errors2[i],
    ) by {
        assert(errors1[0 + i].is_diagnostic(l.errors[i]));
        assert(errors2[0 + i].is_diagnostic(l.errors[i]));
    }
}

} // verus!
